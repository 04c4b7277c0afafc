//! What is asked of the program from outside: words on the command line, the
//! hotkey, and the commands that are left for a running overlay.

use vstd::prelude::*;
use vstd::string::*;

use crate::attention;
use crate::attention::Face;
use crate::cli;
use crate::cli::{AutostartOrderView, Invocation};
use crate::codex_live::Summary;
use crate::control;
use crate::control::Beat;
use crate::hotkey;
use crate::hotkey::{Chord, Part};
use crate::json;
use crate::json::JsonView;
use crate::process::Sighting;
use crate::strings;

verus! {

// --- the command line -------------------------------------------------------------------
/// These words are different.
proof fn lemma_invocations()
    ensures
        "hook"@.len() == 4,
        "control"@.len() == 7,
        "autostart"@.len() == 9,
        "sessions"@.len() == 8,
        "install"@.len() == 7,
        "--install"@.len() == 9,
        "uninstall"@.len() == 9,
        "--uninstall"@.len() == 11,
        "--version"@.len() == 9,
        "-v"@.len() == 2,
        "--help"@.len() == 6,
        "-h"@.len() == 2,
        "control"@ != "install"@,
        "autostart"@ != "--install"@,
        "autostart"@ != "uninstall"@,
        "autostart"@ != "--version"@,
        "--install"@ != "uninstall"@,
        "--install"@ != "--version"@,
        "uninstall"@ != "--version"@,
        "-v"@ != "-h"@,
{
    reveal_strlit("hook");
    reveal_strlit("control");
    reveal_strlit("autostart");
    reveal_strlit("sessions");
    reveal_strlit("install");
    reveal_strlit("--install");
    reveal_strlit("uninstall");
    reveal_strlit("--uninstall");
    reveal_strlit("--version");
    reveal_strlit("-v");
    reveal_strlit("--help");
    reveal_strlit("-h");
    assert("control"@[0] != "install"@[0]);
    assert("autostart"@[0] != "--install"@[0]);
    assert("autostart"@[0] != "uninstall"@[0]);
    assert("autostart"@[0] != "--version"@[0]);
    assert("--install"@[0] != "uninstall"@[0]);
    assert("--install"@[2] != "--version"@[2]);
    assert("uninstall"@[0] != "--version"@[0]);
    assert("-v"@[1] != "-h"@[1]);
}

/// Each of these words asks for one thing, and anything else for the overlay.
pub proof fn the_first_word_says_what_is_wanted(word: Seq<char>)
    ensures
        ({
            let asked = cli::invocation_spec(Some(word));
            &&& asked == Invocation::Hook <==> word == "hook"@
            &&& asked == Invocation::Control <==> word == "control"@
            &&& asked == Invocation::Autostart <==> word == "autostart"@
            &&& asked == Invocation::Sessions <==> word == "sessions"@
            &&& asked == Invocation::Install <==> (word == "install"@ || word == "--install"@)
            &&& asked == Invocation::Uninstall <==> (word == "uninstall"@ || word == "--uninstall"@)
            &&& asked == Invocation::Version <==> (word == "--version"@ || word == "-v"@)
            &&& asked == Invocation::Help <==> (word == "--help"@ || word == "-h"@)
        }),
        cli::invocation_spec(None) == Invocation::Overlay,
{
    lemma_invocations();
}

/// So are these.
proof fn lemma_switches()
    ensures
        "status"@.len() == 6,
        "on"@.len() == 2,
        "enable"@.len() == 6,
        "yes"@.len() == 3,
        "off"@.len() == 3,
        "disable"@.len() == 7,
        "no"@.len() == 2,
        "status"@ != "enable"@,
        "on"@ != "no"@,
        "yes"@ != "off"@,
{
    reveal_strlit("status");
    reveal_strlit("on");
    reveal_strlit("enable");
    reveal_strlit("yes");
    reveal_strlit("off");
    reveal_strlit("disable");
    reveal_strlit("no");
    assert("status"@[0] != "enable"@[0]);
    assert("on"@[0] != "no"@[0]);
    assert("yes"@[0] != "off"@[0]);
}

/// Starting at login is switched by either of three words each way.
pub proof fn starting_at_login_is_switched_by_a_word(word: Seq<char>)
    ensures
        ({
            let order = cli::autostart_spec(Some(word));
            let on = word == "on"@ || word == "enable"@ || word == "yes"@;
            let off = word == "off"@ || word == "disable"@ || word == "no"@;
            let asked = word == "status"@ || word == ""@;
            &&& on ==> order == AutostartOrderView::Switch(true)
            &&& off ==> order == AutostartOrderView::Switch(false)
            &&& asked ==> order == AutostartOrderView::Status
            &&& !on && !off && !asked ==> order == AutostartOrderView::Unknown(word)
        }),
        cli::autostart_spec(None) == AutostartOrderView::Status,
{
    lemma_switches();
    reveal_strlit("");
    assert(""@.len() == 0);
}

// --- orders for the overlay ---------------------------------------------------------------
/// These actions are different.
proof fn lemma_actions()
    ensures
        "status"@.len() == 6,
        "off"@.len() == 3,
        "hide"@.len() == 4,
        "quit"@.len() == 4,
        "exit"@.len() == 4,
        "stop"@.len() == 4,
        "on"@.len() == 2,
        "show"@.len() == 4,
        "start"@.len() == 5,
        "toggle"@.len() == 6,
        "status"@ != "toggle"@,
        "hide"@ != "quit"@,
        "hide"@ != "exit"@,
        "hide"@ != "stop"@,
        "hide"@ != "show"@,
        "quit"@ != "exit"@,
        "quit"@ != "stop"@,
        "quit"@ != "show"@,
        "exit"@ != "stop"@,
        "exit"@ != "show"@,
        "stop"@ != "show"@,
{
    reveal_strlit("status");
    reveal_strlit("off");
    reveal_strlit("hide");
    reveal_strlit("quit");
    reveal_strlit("exit");
    reveal_strlit("stop");
    reveal_strlit("on");
    reveal_strlit("show");
    reveal_strlit("start");
    reveal_strlit("toggle");
    assert("status"@[0] != "toggle"@[0]);
    assert("hide"@[0] != "quit"@[0]);
    assert("hide"@[0] != "exit"@[0]);
    assert("hide"@[0] != "stop"@[0]);
    assert("hide"@[0] != "show"@[0]);
    assert("quit"@[0] != "exit"@[0]);
    assert("quit"@[0] != "stop"@[0]);
    assert("quit"@[0] != "show"@[0]);
    assert("exit"@[0] != "stop"@[0]);
    assert("exit"@[0] != "show"@[0]);
    assert("stop"@[1] != "show"@[1]);
}

/// An overlay that runs is told what to do; one that does not is only started for
/// what needs it, and what would stop it finds nothing to stop.
pub proof fn an_action_comes_to_an_order(action: Seq<char>, running: bool)
    ensures
        ({
            let order = control::order_spec(action, running);
            let hides = action == "off"@ || action == "hide"@;
            let stops = action == "quit"@ || action == "exit"@ || action == "stop"@;
            let shows = action == "on"@ || action == "show"@ || action == "start"@;
            let toggles = action == "toggle"@ || action.len() == 0;
            let asks = action == "status"@;
            let other = !hides && !stops && !shows && !toggles && !asks;
            &&& hides && running ==> order.send == Some("hide"@)
            &&& stops && running ==> order.send == Some("quit"@)
            &&& shows && running ==> order.send == Some("show"@)
            &&& toggles && running ==> order.send == Some("toggle"@)
            &&& other ==> order.send == Some("pet:"@ + action)
            &&& (asks || (!running && !other)) ==> order.send is None
            &&& order.launch <==> !running && (shows || toggles || other)
        }),
{
    lemma_actions();
    reveal_strlit("");
    assert(""@.len() == 0);
    if action.len() == 0 {
        assert(action =~= ""@);
    }
}

/// What is said of an order says what was done.
pub proof fn an_order_says_what_was_done(action: Seq<char>, running: bool)
    ensures
        ({
            let order = control::order_spec(action, running);
            let stopping = action == "off"@ || action == "hide"@ || action == "quit"@ || action
                == "exit"@ || action == "stop"@;
            let starting = action == "on"@ || action == "show"@ || action == "start"@ || action
                == "toggle"@ || action == ""@;
            let asks = action == "status"@;
            &&& !running && (stopping || asks) ==> order.message == "Pipsqueak is not running."@
            &&& !running && starting ==> order.message == "Pipsqueak started."@
            &&& running && asks ==> order.message == "Pipsqueak is running."@
            &&& running && (action == "off"@ || action == "hide"@) ==> order.message
                == "Pet hidden."@
            &&& running && (action == "quit"@ || action == "exit"@ || action == "stop"@)
                ==> order.message == "Pipsqueak closed."@
            &&& running && (action == "on"@ || action == "show"@ || action == "start"@)
                ==> order.message == "Pet shown."@
            &&& running && (action == "toggle"@ || action == ""@) ==> order.message
                == "Pet toggled."@
            &&& !stopping && !starting && !asks ==> order.message == "Pet switched to "@ + action
                + "."@
        }),
{
    lemma_actions();
    reveal_strlit("");
    assert(""@.len() == 0);
}

/// A heartbeat is believed for six seconds. A recent one speaks for the process
/// that it names, and stands for itself where it names none.
pub proof fn a_heartbeat_lasts_six_seconds(v: JsonView, now: u64)
    ensures
        ({
            let beat = control::beat_spec(Some(v), now);
            let ms = v.field("ms"@).uint();
            let pid = v.field("pid"@).uint();
            let recent = ms is Some && now - ms->0 < 6000;
            &&& beat == Beat::Gone <==> !recent
            &&& recent && (pid matches Some(n) && 0 < n <= u32::MAX) ==> beat == Beat::By(
                pid->0 as u32,
            )
            &&& recent && (pid is None || pid == Some(0u64)) ==> beat == Beat::Fresh
        }),
        control::beat_spec(None, now) == Beat::Gone,
{
}

/// An overlay is up while its heartbeat is recent and the process that wrote it is
/// not gone.
pub proof fn an_overlay_is_up_while_its_process_is(pid: u32, started: u64)
    requires
        pid != 0,
    ensures
        !control::running_spec(Beat::Gone, Sighting::Running(started)),
        control::running_spec(Beat::Fresh, Sighting::Absent),
        control::running_spec(Beat::By(pid), Sighting::Running(started)),
        control::running_spec(Beat::By(pid), Sighting::Listed),
        control::running_spec(Beat::By(pid), Sighting::Unknown),
        !control::running_spec(Beat::By(pid), Sighting::Exited),
        !control::running_spec(Beat::By(pid), Sighting::Absent),
{
}

/// What is written can be read again by its keys.
pub proof fn what_is_written_says_what_it_is(
    action: Seq<char>,
    now: u64,
    pid: u32,
    summary: Summary,
)
    ensures
        ({
            let command = control::command_spec(action, now);
            let beat = control::full_heartbeat_spec(now, pid, summary);
            let counts = beat.field("codex"@);
            &&& command.field("action"@) == JsonView::Text(action)
            &&& command.field("ms"@) == JsonView::Unsigned(now)
            &&& beat.field("ms"@) == JsonView::Unsigned(now)
            &&& beat.field("pid"@) == JsonView::Unsigned(pid as u64)
            &&& counts.field("connected"@) == JsonView::Bool(summary.connected)
            &&& counts.field("desired_tasks"@) == JsonView::Unsigned(summary.desired_tasks as u64)
            &&& counts.field("observed_tasks"@) == JsonView::Unsigned(summary.observed_tasks as u64)
            &&& counts.field("active_tasks"@) == JsonView::Unsigned(summary.active_tasks as u64)
        }),
{
    lemma_fields();
    reveal_with_fuel(json::lookup, 5);
    let command = control::command_spec(action, now)->Object_0;
    let beat = control::full_heartbeat_spec(now, pid, summary)->Object_0;
    let counts = control::summary_spec(summary)->Object_0;
    assert(command.skip(1)[0] == command[1]);
    assert(beat.skip(1)[0] == beat[1] && beat.skip(1).skip(1)[0] == beat[2]);
    assert(counts.skip(1)[0] == counts[1] && counts.skip(1).skip(1)[0] == counts[2]
        && counts.skip(1).skip(1).skip(1)[0] == counts[3]);
}

/// These keys are different.
proof fn lemma_fields()
    ensures
        "action"@.len() == 6,
        "ms"@.len() == 2,
        "pid"@.len() == 3,
        "codex"@.len() == 5,
        "connected"@.len() == 9,
        "desired_tasks"@.len() == 13,
        "observed_tasks"@.len() == 14,
        "active_tasks"@.len() == 12,
{
    reveal_strlit("action");
    reveal_strlit("ms");
    reveal_strlit("pid");
    reveal_strlit("codex");
    reveal_strlit("connected");
    reveal_strlit("desired_tasks");
    reveal_strlit("observed_tasks");
    reveal_strlit("active_tasks");
}

// --- the hotkey ---------------------------------------------------------------------------
/// These names of keys are different.
proof fn lemma_parts()
    ensures
        "ctrl"@.len() == 4,
        "control"@.len() == 7,
        "alt"@.len() == 3,
        "shift"@.len() == 5,
        "win"@.len() == 3,
        "super"@.len() == 5,
        "meta"@.len() == 4,
        "cmd"@.len() == 3,
        "space"@.len() == 5,
        "tab"@.len() == 3,
        "escape"@.len() == 6,
        "esc"@.len() == 3,
        "insert"@.len() == 6,
        "home"@.len() == 4,
        "end"@.len() == 3,
        "ctrl"@ != "meta"@,
        "ctrl"@ != "home"@,
        "alt"@ != "win"@,
        "alt"@ != "cmd"@,
        "alt"@ != "tab"@,
        "alt"@ != "esc"@,
        "alt"@ != "end"@,
        "shift"@ != "super"@,
        "shift"@ != "space"@,
        "win"@ != "cmd"@,
        "win"@ != "tab"@,
        "win"@ != "esc"@,
        "win"@ != "end"@,
        "super"@ != "space"@,
        "meta"@ != "home"@,
        "cmd"@ != "tab"@,
        "cmd"@ != "esc"@,
        "cmd"@ != "end"@,
        "tab"@ != "esc"@,
        "tab"@ != "end"@,
        "escape"@ != "insert"@,
        "esc"@ != "end"@,
{
    reveal_strlit("ctrl");
    reveal_strlit("control");
    reveal_strlit("alt");
    reveal_strlit("shift");
    reveal_strlit("win");
    reveal_strlit("super");
    reveal_strlit("meta");
    reveal_strlit("cmd");
    reveal_strlit("space");
    reveal_strlit("tab");
    reveal_strlit("escape");
    reveal_strlit("esc");
    reveal_strlit("insert");
    reveal_strlit("home");
    reveal_strlit("end");
    assert("ctrl"@[0] != "meta"@[0]);
    assert("ctrl"@[0] != "home"@[0]);
    assert("alt"@[0] != "win"@[0]);
    assert("alt"@[0] != "cmd"@[0]);
    assert("alt"@[0] != "tab"@[0]);
    assert("alt"@[0] != "esc"@[0]);
    assert("alt"@[0] != "end"@[0]);
    assert("shift"@[1] != "super"@[1]);
    assert("shift"@[1] != "space"@[1]);
    assert("win"@[0] != "cmd"@[0]);
    assert("win"@[0] != "tab"@[0]);
    assert("win"@[0] != "esc"@[0]);
    assert("win"@[0] != "end"@[0]);
    assert("super"@[1] != "space"@[1]);
    assert("meta"@[0] != "home"@[0]);
    assert("cmd"@[0] != "tab"@[0]);
    assert("cmd"@[0] != "esc"@[0]);
    assert("cmd"@[0] != "end"@[0]);
    assert("tab"@[0] != "esc"@[0]);
    assert("tab"@[0] != "end"@[0]);
    assert("escape"@[0] != "insert"@[0]);
    assert("esc"@[1] != "end"@[1]);
}

/// A modifier goes by these names.
pub proof fn a_modifier_goes_by_these_names(name: Seq<char>)
    ensures
        hotkey::part_of(name) == Part::Control <==> (name == "ctrl"@ || name == "control"@),
        hotkey::part_of(name) == Part::Alt <==> name == "alt"@,
        hotkey::part_of(name) == Part::Shift <==> name == "shift"@,
        hotkey::part_of(name) == Part::Win <==> (name == "win"@ || name == "super"@ || name
            == "meta"@ || name == "cmd"@),
        hotkey::part_of(name) == Part::Blank <==> name.len() == 0,
{
    lemma_parts();
}

/// These keys have a name.
pub proof fn a_key_goes_by_these_names()
    ensures
        hotkey::key_code("space"@) == Some(0x20u32),
        hotkey::key_code("tab"@) == Some(0x09u32),
        hotkey::key_code("escape"@) == Some(0x1Bu32),
        hotkey::key_code("esc"@) == Some(0x1Bu32),
        hotkey::key_code("insert"@) == Some(0x2Du32),
        hotkey::key_code("home"@) == Some(0x24u32),
        hotkey::key_code("end"@) == Some(0x23u32),
{
    lemma_parts();
    lemma_no_function_key("space"@);
    lemma_no_function_key("tab"@);
    lemma_no_function_key("escape"@);
    lemma_no_function_key("esc"@);
    lemma_no_function_key("insert"@);
    lemma_no_function_key("home"@);
    lemma_no_function_key("end"@);
    reveal_strlit("space");
    reveal_strlit("tab");
    reveal_strlit("escape");
    reveal_strlit("esc");
    reveal_strlit("insert");
    reveal_strlit("home");
    reveal_strlit("end");
}

proof fn lemma_no_function_key(name: Seq<char>)
    ensures
        name.len() > 0 && name[0] != 'f' ==> hotkey::function_key(name) is None,
        name.len() == 0 ==> hotkey::function_key(name) is None,
{
    reveal_strlit("f");
    if strings::begins(name, "f"@) {
        assert(name.take(1)[0] == name[0]);
        assert("f"@[0] == 'f');
    }
}

/// A letter or a digit is its own key, and every other name none, but for those
/// that are listed and the function keys.
pub proof fn a_letter_is_its_own_key(c: char, name: Seq<char>)
    ensures
        'a' as u32 <= c as u32 <= 'z' as u32 ==> hotkey::letter_key(c) == Some(
            (c as u32 - 32) as u32,
        ),
        'A' as u32 <= c as u32 <= 'Z' as u32 ==> hotkey::letter_key(c) == Some(c as u32),
        '0' as u32 <= c as u32 <= '9' as u32 ==> hotkey::letter_key(c) == Some(c as u32),
        !strings::is_ascii_alnum(c) ==> hotkey::letter_key(c) is None,
        hotkey::function_key(seq![c]) is None ==> hotkey::key_code(seq![c]) == hotkey::letter_key(
            c,
        ),
        hotkey::key_code(name) is Some && hotkey::function_key(name) is None
            && name.len() != 1 ==> (
        name == "space"@ || name == "tab"@ || name == "escape"@ || name == "esc"@ || name
            == "insert"@ || name == "home"@ || name == "end"@),
{
}

/// The function keys are numbered from one to twenty-four.
pub proof fn function_keys_are_numbered(digits: Seq<char>)
    ensures
        ({
            let key = hotkey::key_code("f"@ + digits);
            let n = strings::number_spec(digits);
            &&& (n matches Some(k) && 1 <= k <= 24) ==> key == Some((0x6F + n->0) as u32)
            &&& digits.len() > 2 && !(n matches Some(k) && 1 <= k <= 24) ==> key is None
        }),
{
    reveal_strlit("f");
    let name = "f"@ + digits;
    assert(name.take(1) =~= "f"@);
    assert(name.skip(1) =~= digits);
    assert(name[0] == 'f');
    reveal_strlit("space");
    reveal_strlit("tab");
    reveal_strlit("escape");
    reveal_strlit("esc");
    reveal_strlit("insert");
    reveal_strlit("home");
    reveal_strlit("end");
    assert("space"@[0] != 'f' && "tab"@[0] != 'f' && "escape"@[0] != 'f' && "esc"@[0] != 'f'
        && "insert"@[0] != 'f' && "home"@[0] != 'f' && "end"@[0] != 'f');
}

/// What one part of a chord is.
pub open spec fn part_at(parts: Seq<Seq<char>>, i: int) -> Part {
    hotkey::part_of(strings::ascii_lowered(strings::trimmed(parts[i])))
}

/// A chord holds the modifiers that it names, in any order and any case, and its
/// one key; without an unknown part it is a chord unless it names two keys.
pub proof fn a_chord_holds_what_it_names(parts: Seq<Seq<char>>)
    ensures
        hotkey::chord_of(parts) matches Some(c) ==> {
            &&& c.control <==> exists|i: int|
                0 <= i < parts.len() && #[trigger] part_at(parts, i) == Part::Control
            &&& c.alt <==> exists|i: int|
                0 <= i < parts.len() && #[trigger] part_at(parts, i) == Part::Alt
            &&& c.shift <==> exists|i: int|
                0 <= i < parts.len() && #[trigger] part_at(parts, i) == Part::Shift
            &&& c.win <==> exists|i: int|
                0 <= i < parts.len() && #[trigger] part_at(parts, i) == Part::Win
            &&& c.key matches Some(code) ==> exists|i: int|
                0 <= i < parts.len() && #[trigger] part_at(parts, i) == Part::Key(code)
            &&& c.key is None ==> forall|i: int|
                0 <= i < parts.len() ==> !(#[trigger] part_at(parts, i) is Key)
            &&& forall|i: int|
                0 <= i < parts.len() ==> !(#[trigger] part_at(parts, i) is Unknown)
            &&& forall|i: int, j: int|
                0 <= i < j < parts.len() ==> !(#[trigger] part_at(parts, i) is Key
                    && #[trigger] part_at(parts, j) is Key)
        },
        hotkey::chord_of(parts) is None ==> (exists|i: int|
            0 <= i < parts.len() && #[trigger] part_at(parts, i) is Unknown) || (exists|
            i: int,
            j: int,
        |
            0 <= i < j < parts.len() && #[trigger] part_at(parts, i) is Key && #[trigger] part_at(
                parts,
                j,
            ) is Key),
    decreases parts.len(),
{
    if parts.len() > 0 {
        let less = parts.drop_last();
        let n = parts.len() - 1;
        a_chord_holds_what_it_names(less);
        assert forall|i: int| 0 <= i < n implies #[trigger] part_at(parts, i) == part_at(less, i) by {
            assert(parts[i] == less[i]);
        }
        assert forall|i: int| 0 <= i < n implies #[trigger] part_at(less, i) == part_at(parts, i) by {
            assert(parts[i] == less[i]);
        }
        assert(hotkey::part_of(hotkey::part_name(parts.last())) == part_at(parts, n));
    }
}

/// The modifiers are told apart by their bits, and holding the chord down does not
/// repeat it.
pub proof fn modifiers_have_their_bits(c: Chord)
    ensures
        hotkey::mask(c) == 0x4000 + (if c.alt { 1int } else { 0 }) + (if c.control {
            2int
        } else {
            0
        }) + (if c.shift { 4int } else { 0 }) + (if c.win { 8int } else { 0 }),
{
}

/// A chord can be registered when it has a key and something to hold down.
pub proof fn a_chord_needs_a_key_and_a_modifier(text: Seq<char>)
    ensures
        match hotkey::chord_of(strings::split_spec(text, '+')) {
            None => hotkey::parse_spec(text) is None,
            Some(c) => hotkey::parse_spec(text) == (if c.key is Some && (c.control || c.alt
                || c.shift || c.win) {
                Some((hotkey::mask(c), c.key->0))
            } else {
                None
            }),
        },
{
}

/// A chord that nobody else holds is looked for in this order, none of them
/// twice.
pub proof fn these_chords_are_tried(preferred: Seq<char>)
    ensures
        ({
            let own = strings::ascii_lowered(strings::trimmed(preferred));
            let p = strings::ascii_lowered("Ctrl+Alt+P"@);
            let k = strings::ascii_lowered("Ctrl+Alt+K"@);
            let s = strings::ascii_lowered("Ctrl+Shift+F10"@);
            let a = strings::ascii_lowered("Ctrl+Alt+F10"@);
            let none = Seq::<Seq<char>>::empty();
            hotkey::candidates_spec(preferred) == seq![strings::trimmed(preferred)] + (if own == p {
                none
            } else {
                seq!["Ctrl+Alt+P"@]
            }) + (if own == k { none } else { seq!["Ctrl+Alt+K"@] }) + (if own == s {
                none
            } else {
                seq!["Ctrl+Shift+F10"@]
            }) + (if own == a { none } else { seq!["Ctrl+Alt+F10"@] })
        }),
{
    reveal_strlit("Ctrl+Alt+P");
    reveal_strlit("Ctrl+Alt+K");
    reveal_strlit("Ctrl+Shift+F10");
    reveal_strlit("Ctrl+Alt+F10");
    let p = strings::ascii_lowered("Ctrl+Alt+P"@);
    let k = strings::ascii_lowered("Ctrl+Alt+K"@);
    let s = strings::ascii_lowered("Ctrl+Shift+F10"@);
    let a = strings::ascii_lowered("Ctrl+Alt+F10"@);
    assert(p[9] == strings::ascii_lower('P') && k[9] == strings::ascii_lower('K'));
    assert(strings::ascii_lower('P') as u32 == 0x70 && strings::ascii_lower('K') as u32 == 0x6b);
    assert(p.len() == 10 && k.len() == 10 && s.len() == 14 && a.len() == 12);
    assert(p != k && p != s && p != a && k != s && k != a && s != a);
    let own = strings::trimmed(preferred);
    let none = Seq::<Seq<char>>::empty();
    let one = seq![own];
    lemma_with_chord(one, "Ctrl+Alt+P"@);
    let two = hotkey::with_chord(one, "Ctrl+Alt+P"@);
    assert(two =~= one + (if strings::ascii_lowered(own) == p {
        none
    } else {
        seq!["Ctrl+Alt+P"@]
    }));
    lemma_with_chord(two, "Ctrl+Alt+K"@);
    let three = hotkey::with_chord(two, "Ctrl+Alt+K"@);
    assert(three =~= two + (if strings::ascii_lowered(own) == k {
        none
    } else {
        seq!["Ctrl+Alt+K"@]
    }));
    lemma_with_chord(three, "Ctrl+Shift+F10"@);
    let four = hotkey::with_chord(three, "Ctrl+Shift+F10"@);
    assert(four =~= three + (if strings::ascii_lowered(own) == s {
        none
    } else {
        seq!["Ctrl+Shift+F10"@]
    }));
    lemma_with_chord(four, "Ctrl+Alt+F10"@);
    assert(hotkey::with_chord(four, "Ctrl+Alt+F10"@) =~= four + (if strings::ascii_lowered(own)
        == a {
        none
    } else {
        seq!["Ctrl+Alt+F10"@]
    }));
}

proof fn lemma_with_chord(list: Seq<Seq<char>>, chord: Seq<char>)
    requires
        list.len() > 0,
        forall|i: int|
            1 <= i < list.len() ==> strings::ascii_lowered(#[trigger] list[i])
                != strings::ascii_lowered(chord),
    ensures
        hotkey::with_chord(list, chord) == (if strings::ascii_lowered(list[0])
            == strings::ascii_lowered(chord) {
            list
        } else {
            list.push(chord)
        }),
{
}

/// There is no shortcut where none is named, or where it says off in any case.
pub proof fn a_shortcut_can_be_off(preferred: Seq<char>)
    ensures
        hotkey::turned_off(preferred) <==> (strings::trimmed(preferred).len() == 0
            || strings::ascii_lowered(strings::trimmed(preferred)) == "off"@),
{
    reveal_strlit("off");
    let off = "off"@;
    assert(strings::ascii_lowered(off) =~= off);
}

// --- the blinking icon ----------------------------------------------------------------------
/// A flash blinks ten times, the alert first, unless a newer one has taken over.
pub proof fn a_flash_blinks_ten_times(generation: u64, ticket: u64, step: u32)
    ensures
        attention::blink_spec(generation, ticket, step) is Some <==> step < 10 && generation
            == ticket,
        attention::blink_spec(generation, ticket, step) matches Some(face) ==> (face == Face::Alert
            <==> step % 2 == 0),
{
}

/// An icon is pushed towards red pixel by pixel; what is transparent stays, and so
/// does every pixel's alpha.
pub proof fn an_alert_is_redder(rgba: Seq<u8>, pixel: int)
    requires
        0 <= pixel,
        4 * pixel + 3 < rgba.len(),
    ensures
        ({
            let out = attention::alerted(rgba);
            let k = 4 * pixel;
            let (r, g, b, a) = (rgba[k], rgba[k + 1], rgba[k + 2], rgba[k + 3]);
            &&& out.len() == rgba.len()
            &&& out[k + 3] == a
            &&& a == 0 ==> out[k] == r && out[k + 1] == g && out[k + 2] == b
            &&& a != 0 ==> {
                &&& out[k] == (if r + 96 > 255 { 255int } else { r + 96 })
                &&& out[k + 1] == g * 3 / 5
                &&& out[k + 2] == b * 2 / 5
            }
        }),
{
    let k = 4 * pixel;
    assert(k % 4 == 0 && (k + 1) % 4 == 1 && (k + 2) % 4 == 2 && (k + 3) % 4 == 3);
}

} // verus!
