//! `pipsqueak control <action>`, the entry point used by the `/pet` command and
//! anything else that wants to drive a running overlay.
//!
//! Commands are handed over through a file rather than a socket, for the same
//! reason session state is: no port to collide with, nothing to be running
//! first, and it works identically whether the overlay is up or not.

use vstd::prelude::*;
use vstd::string::*;

use crate::codex_live::Summary;
use crate::desktop;
use crate::json;
use crate::json::{Json, JsonView};
use crate::process;
use crate::process::Sighting;
use crate::strings;

verus! {

/// A heartbeat older than this means nobody is home.
pub const HEARTBEAT_TIMEOUT_MS: u64 = 6_000;

// --- what an action comes to -----------------------------------------------------
/// What is to be done for a control action.
pub struct Order {
    /// The command to leave for the overlay.
    pub send: Option<String>,
    /// Whether to start the overlay, after that.
    pub launch: bool,
    /// What to say when it has been done.
    pub message: String,
}

#[verifier::ext_equal]
pub struct OrderView {
    pub send: Option<Seq<char>>,
    pub launch: bool,
    pub message: Seq<char>,
}

impl View for Order {
    type V = OrderView;

    open spec fn view(&self) -> OrderView {
        OrderView {
            send: strings::opt_view(self.send),
            launch: self.launch,
            message: self.message@,
        }
    }
}

pub open spec fn said(message: Seq<char>) -> OrderView {
    OrderView { send: None, launch: false, message }
}

pub open spec fn sent(command: Seq<char>, message: Seq<char>) -> OrderView {
    OrderView { send: Some(command), launch: false, message }
}

pub open spec fn started() -> OrderView {
    OrderView { send: None, launch: true, message: "Pipsqueak started."@ }
}

/// What an action in lower case comes to. Anything unknown is a pet to switch
/// to.
pub open spec fn order_spec(action: Seq<char>, running: bool) -> OrderView {
    if action == "status"@ {
        said(
            if running {
                "Pipsqueak is running."@
            } else {
                "Pipsqueak is not running."@
            },
        )
    } else if action == "off"@ || action == "hide"@ {
        if running {
            sent("hide"@, "Pet hidden."@)
        } else {
            said("Pipsqueak is not running."@)
        }
    } else if action == "quit"@ || action == "exit"@ || action == "stop"@ {
        if running {
            sent("quit"@, "Pipsqueak closed."@)
        } else {
            said("Pipsqueak is not running."@)
        }
    } else if action == "on"@ || action == "show"@ || action == "start"@ {
        if running {
            sent("show"@, "Pet shown."@)
        } else {
            started()
        }
    } else if action == "toggle"@ || action == ""@ {
        if running {
            sent("toggle"@, "Pet toggled."@)
        } else {
            started()
        }
    } else {
        OrderView {
            send: Some("pet:"@ + action),
            launch: !running,
            message: "Pet switched to "@ + action + "."@,
        }
    }
}

fn say(message: &str) -> (r: Order)
    ensures
        r@ == said(message@),
{
    Order { send: None, launch: false, message: message.to_owned() }
}

fn send(command: &str, message: &str) -> (r: Order)
    ensures
        r@ == sent(command@, message@),
{
    Order { send: Some(command.to_owned()), launch: false, message: message.to_owned() }
}

fn start() -> (r: Order)
    ensures
        r@ == started(),
{
    Order { send: None, launch: true, message: "Pipsqueak started.".to_owned() }
}

fn either(s: &str, a: &str, b: &str, c: &str) -> (r: bool)
    ensures
        r == (s@ == a@ || s@ == b@ || s@ == c@),
{
    strings::same(s, a) || strings::same(s, b) || strings::same(s, c)
}

/// What a control action comes to; without one the pet is toggled.
///
/// The UI distinguishes "put it away" from "stop it"; so does this. "stop"
/// leaving the process, hotkey and tray alive was a lie by another name.
pub fn run(action: Option<&str>, running: bool) -> (r: Order)
    ensures
        r@ == order_spec(
            match action {
                Some(given) => strings::lowered(given@),
                None => strings::lowered("toggle"@),
            },
            running,
        ),
{
    let given = match action {
        Some(given) => given,
        None => "toggle",
    };
    let lower = strings::lower(given);
    let action = lower.as_str();
    if strings::same(action, "status") {
        if running {
            say("Pipsqueak is running.")
        } else {
            say("Pipsqueak is not running.")
        }
    } else if strings::same(action, "off") || strings::same(action, "hide") {
        if running {
            send("hide", "Pet hidden.")
        } else {
            say("Pipsqueak is not running.")
        }
    } else if either(action, "quit", "exit", "stop") {
        if running {
            send("quit", "Pipsqueak closed.")
        } else {
            say("Pipsqueak is not running.")
        }
    } else if either(action, "on", "show", "start") {
        if running {
            send("show", "Pet shown.")
        } else {
            start()
        }
    } else if strings::same(action, "toggle") || strings::same(action, "") {
        if running {
            send("toggle", "Pet toggled.")
        } else {
            start()
        }
    } else {
        Order {
            send: Some(strings::concat2("pet:", action)),
            launch: !running,
            message: strings::concat3("Pet switched to ", action, "."),
        }
    }
}

// --- is anybody home ---------------------------------------------------------------
/// What a heartbeat says.
#[derive(Clone, Copy)]
pub enum Beat {
    /// There is none, or it is old: nobody is home.
    Gone,
    /// It is recent, and this process wrote it.
    By(u32),
    /// It is recent, and does not say who wrote it.
    Fresh,
}

/// Recent is not the same as alive. An overlay that was killed leaves its last
/// heartbeat behind, and for the next few seconds that file claims somebody is
/// home, so the process it names is looked for. An older build's heartbeat had
/// no pid; its freshness is trusted.
pub open spec fn beat_spec(value: Option<JsonView>, now: u64) -> Beat {
    match value {
        None => Beat::Gone,
        Some(beat) => match beat.field("ms"@).uint() {
            None => Beat::Gone,
            Some(ms) => if now - ms >= HEARTBEAT_TIMEOUT_MS {
                Beat::Gone
            } else {
                match beat.field("pid"@).uint() {
                    Some(pid) => if pid > 0 {
                        Beat::By(pid as u32)
                    } else {
                        Beat::Fresh
                    },
                    None => Beat::Fresh,
                }
            },
        },
    }
}

fn number_at(value: &Json, key: &str) -> (r: Option<u64>)
    ensures
        r == value@.field(key@).uint(),
{
    match value.get(key) {
        Some(found) => found.as_u64(),
        None => None,
    }
}

/// What a heartbeat that was parsed says.
pub fn judge_beat(value: Option<&Json>, now: u64) -> (r: Beat)
    ensures
        r == beat_spec(json::opt_json(value), now),
{
    match value {
        None => Beat::Gone,
        Some(beat) => match number_at(beat, "ms") {
            None => Beat::Gone,
            Some(ms) => {
                if now.saturating_sub(ms) >= HEARTBEAT_TIMEOUT_MS {
                    Beat::Gone
                } else {
                    match number_at(beat, "pid") {
                        Some(pid) => if pid > 0 {
                            Beat::By(#[verifier::truncate] (pid as u32))
                        } else {
                            Beat::Fresh
                        },
                        None => Beat::Fresh,
                    }
                }
            },
        },
    }
}

/// What the text of the heartbeat file says, `None` where there is no file.
pub fn heartbeat(raw: Option<&str>, now: u64) -> (r: Beat)
    ensures
        r == beat_spec(
            match raw {
                Some(text) => json::parsed_text(text@),
                None => None,
            },
            now,
        ),
{
    let value = match raw {
        Some(text) => json::parse(text),
        None => None,
    };
    match value {
        Some(v) => judge_beat(Some(&v), now),
        None => judge_beat(None, now),
    }
}

/// Whether an overlay is up, given what was found on looking for the process
/// that its heartbeat names.
pub open spec fn running_spec(beat: Beat, sighting: Sighting) -> bool {
    match beat {
        Beat::Gone => false,
        Beat::By(pid) => process::alive(pid, 0, sighting),
        Beat::Fresh => true,
    }
}

pub fn is_running(beat: Beat, sighting: &Sighting) -> (r: bool)
    ensures
        r == running_spec(beat, *sighting),
{
    match beat {
        Beat::Gone => false,
        Beat::By(pid) => process::is_alive(pid, 0, sighting),
        Beat::Fresh => true,
    }
}

// --- what is written -----------------------------------------------------------------
/// The command file for an action.
pub open spec fn command_spec(action: Seq<char>, now: u64) -> JsonView {
    JsonView::Object(seq![("action"@, JsonView::Text(action)), ("ms"@, JsonView::Unsigned(now))])
}

fn entry(key: &str, value: Json) -> (r: (String, Json))
    ensures
        r.0@ == key@,
        r.1@ == value@,
{
    (key.to_owned(), value)
}

/// The bytes of the command file for an action.
pub fn command(action: &str, now: u64) -> (r: Vec<u8>)
    ensures
        r@ == json::rendered(command_spec(action@, now)),
        json::parsed(r@) == Some(command_spec(action@, now)),
{
    let fields: Vec<(String, Json)> = vec![
        entry("action", Json::Text(action.to_owned())),
        entry("ms", Json::Unsigned(now)),
    ];
    let ghost goal = command_spec(action@, now)->Object_0;
    assert(json::fields_view(fields@) =~= goal);
    let value = Json::Object(fields);
    proof {
        json::lemma_view(value);
        reveal_strlit("action");
        reveal_strlit("ms");
        assert("action"@.len() == 6 && "ms"@.len() == 2);
        json::lemma_plain_key("action"@);
        assert(json::distinct(goal));
        reveal_with_fuel(json::storable, 2);
        reveal_with_fuel(json::legible, 2);
        assert(json::storable(value@));
        assert(json::legible(value@, json::MAX_NESTING as nat));
    }
    json::to_bytes(&value)
}

/// The heartbeat of a process.
pub open spec fn heartbeat_spec(now: u64, pid: u32) -> JsonView {
    JsonView::Object(
        seq![("ms"@, JsonView::Unsigned(now)), ("pid"@, JsonView::Unsigned(pid as u64))],
    )
}

/// The bytes of the heartbeat file.
pub fn beat(now: u64, pid: u32) -> (r: Vec<u8>)
    ensures
        r@ == json::rendered(heartbeat_spec(now, pid)),
        json::parsed(r@) == Some(heartbeat_spec(now, pid)),
{
    let fields: Vec<(String, Json)> = vec![
        entry("ms", Json::Unsigned(now)),
        entry("pid", Json::Unsigned(pid as u64)),
    ];
    let ghost goal = heartbeat_spec(now, pid)->Object_0;
    assert(json::fields_view(fields@) =~= goal);
    let value = Json::Object(fields);
    proof {
        json::lemma_view(value);
        reveal_strlit("ms");
        reveal_strlit("pid");
        assert("ms"@.len() == 2 && "pid"@.len() == 3);
        json::lemma_plain_key("ms"@);
        assert(json::distinct(goal));
        reveal_with_fuel(json::storable, 2);
        reveal_with_fuel(json::legible, 2);
        assert(json::storable(value@));
        assert(json::legible(value@, json::MAX_NESTING as nat));
    }
    json::to_bytes(&value)
}

/// What a heartbeat tells of the task stream: how much there is of it, and
/// nothing of what is in it.
pub open spec fn summary_spec(summary: Summary) -> JsonView {
    JsonView::Object(
        seq![
            ("connected"@, JsonView::Bool(summary.connected)),
            ("desired_tasks"@, JsonView::Unsigned(summary.desired_tasks as u64)),
            ("observed_tasks"@, JsonView::Unsigned(summary.observed_tasks as u64)),
            ("active_tasks"@, JsonView::Unsigned(summary.active_tasks as u64)),
        ],
    )
}

/// The heartbeat of the running pet, with the counts of its connection.
pub open spec fn full_heartbeat_spec(now: u64, pid: u32, summary: Summary) -> JsonView {
    JsonView::Object(
        seq![
            ("ms"@, JsonView::Unsigned(now)),
            ("pid"@, JsonView::Unsigned(pid as u64)),
            ("codex"@, summary_spec(summary)),
        ],
    )
}

proof fn lemma_full_heartbeat(now: u64, pid: u32, summary: Summary)
    ensures
        json::storable(full_heartbeat_spec(now, pid, summary)),
        json::legible(full_heartbeat_spec(now, pid, summary), json::MAX_NESTING as nat),
{
    reveal_strlit("ms");
    reveal_strlit("pid");
    reveal_strlit("codex");
    reveal_strlit("connected");
    reveal_strlit("desired_tasks");
    reveal_strlit("observed_tasks");
    reveal_strlit("active_tasks");
    assert("ms"@.len() == 2 && "pid"@.len() == 3 && "codex"@.len() == 5);
    assert("connected"@.len() == 9 && "desired_tasks"@.len() == 13 && "observed_tasks"@.len() == 14
        && "active_tasks"@.len() == 12);
    json::lemma_plain_key("ms"@);
    json::lemma_plain_key("connected"@);
    reveal_with_fuel(json::storable, 3);
    reveal_with_fuel(json::legible, 3);
    let outer = full_heartbeat_spec(now, pid, summary)->Object_0;
    let inner = outer[2].1->Object_0;
    assert(json::distinct(inner));
    assert(json::distinct(outer));
    assert(json::storable(outer[2].1));
    assert(json::legible(outer[2].1, (json::MAX_NESTING - 1) as nat));
}

/// The bytes of the heartbeat file of the running pet.
pub fn full_beat(now: u64, pid: u32, summary: &Summary) -> (r: Vec<u8>)
    ensures
        r@ == json::rendered(full_heartbeat_spec(now, pid, *summary)),
        json::parsed(r@) == Some(full_heartbeat_spec(now, pid, *summary)),
{
    broadcast use json::lemma_view;

    let counts: Vec<(String, Json)> = vec![
        entry("connected", Json::Bool(summary.connected)),
        entry("desired_tasks", Json::Unsigned(summary.desired_tasks as u64)),
        entry("observed_tasks", Json::Unsigned(summary.observed_tasks as u64)),
        entry("active_tasks", Json::Unsigned(summary.active_tasks as u64)),
    ];
    let ghost outer = full_heartbeat_spec(now, pid, *summary)->Object_0;
    assert(json::fields_view(counts@) =~= outer[2].1->Object_0);
    let fields: Vec<(String, Json)> = vec![
        entry("ms", Json::Unsigned(now)),
        entry("pid", Json::Unsigned(pid as u64)),
        entry("codex", Json::Object(counts)),
    ];
    assert(json::fields_view(fields@) =~= outer);
    let value = Json::Object(fields);
    proof {
        json::lemma_view(value);
        lemma_full_heartbeat(now, pid, *summary);
    }
    json::to_bytes(&value)
}

/// A heartbeat speaks for the process that wrote it until it is old, and for
/// nobody from then on, whether or not it has counts.
pub proof fn a_heartbeat_is_believed_for_a_while(
    written: u64,
    pid: u32,
    summary: Summary,
    now: u64,
)
    requires
        pid != 0,
    ensures
        beat_spec(Some(heartbeat_spec(written, pid)), now) == (if now - written
            >= HEARTBEAT_TIMEOUT_MS {
            Beat::Gone
        } else {
            Beat::By(pid)
        }),
        beat_spec(Some(full_heartbeat_spec(written, pid, summary)), now) == beat_spec(
            Some(heartbeat_spec(written, pid)),
            now,
        ),
{
    let fields = heartbeat_spec(written, pid)->Object_0;
    let more = full_heartbeat_spec(written, pid, summary)->Object_0;
    reveal_strlit("ms");
    reveal_strlit("pid");
    assert("ms"@.len() == 2 && "pid"@.len() == 3);
    reveal_with_fuel(json::lookup, 3);
    assert(json::lookup(fields, "ms"@) == Some(fields[0].1));
    assert(fields.skip(1)[0] == fields[1]);
    assert(json::lookup(fields, "pid"@) == Some(fields[1].1));
    assert(json::lookup(more, "ms"@) == Some(more[0].1));
    assert(more.skip(1)[0] == more[1]);
    assert(json::lookup(more, "pid"@) == Some(more[1].1));
    let wide = pid as u64;
    assert(wide as u32 == pid);
}

// --- how to start it -------------------------------------------------------------------
/// Whether to start the overlay through the login launcher rather than directly.
///
/// A wrapper that sets up the environment or waits for the tray is the way the
/// owner wants the pet started, and starting the bare binary gave a pet with no
/// always-on-top and a blank tray menu.
pub fn through_launcher(registered: &str, exe: &str, present: bool, windows: bool) -> (r: bool)
    ensures
        r == (desktop::normal(registered@, windows) != desktop::normal(exe@, windows) && present),
{
    !desktop::same_program(registered, exe, windows) && present
}

} // verus!
