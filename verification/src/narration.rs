//! What the session is doing, in its own words.
//!
//! Hooks fire at tool boundaries, so the best they can say is "Editing
//! render.js": the category of the thing, never the point of it. The agent says
//! the point of it out loud, in the sentence before it reaches for the tool
//! ("Now the frontend: chat titles, the done-card lifecycle"), and
//! appends that to the session transcript as it happens.
//!
//! So this reads the transcript. Only the bytes that arrived since last time,
//! only the newest line worth showing, and only for sessions that are on
//! screen.

use vstd::prelude::*;
use vstd::string::*;

use crate::agent;
use crate::json;
use crate::json::{Json, JsonView};
use crate::names::NameSet;
use crate::state;
use crate::state::{Session, SessionView};
use crate::strings;
use crate::text;

verus! {

/// How much of a transcript to read the first time one is seen.
///
/// Far more than the last thing said needs, because the other question asked
/// of this file reaches further back: a monitor or a subagent started twenty
/// minutes ago is still running, and its launch is only in the transcript at
/// the point it happened.
pub const FIRST_READ: u64 = 2_097_152;

/// A single appended chunk this large means something unusual happened (a
/// resumed session, a pasted file); read the tail of it rather than all of it.
pub const MAX_CHUNK: u64 = 4_194_304;

/// The card is one line tall.
pub const LINE_LIMIT: usize = 110;

// --- how much is said ------------------------------------------------------
/// How much of itself a session is allowed to say.
#[derive(Clone, Copy, PartialEq, Eq, Structural, Debug)]
pub enum Mode {
    /// No narration at all; the card keeps the tool line.
    Off,
    /// Only what the agent actually said to you.
    Speech,
    /// What it said, and the first line of what it was thinking.
    Thoughts,
}

pub open spec fn mode_of(value: Seq<char>) -> Mode {
    if value == "off"@ {
        Mode::Off
    } else if value == "speech"@ {
        Mode::Speech
    } else {
        Mode::Thoughts
    }
}

impl Mode {
    /// The setting comes from a file that is edited by hand, so anything that
    /// cannot be read narrates.
    pub fn parse(value: &str) -> (r: Mode)
        ensures
            r == mode_of(value@),
    {
        if strings::same(value, "off") {
            Mode::Off
        } else if strings::same(value, "speech") {
            Mode::Speech
        } else {
            Mode::Thoughts
        }
    }

    fn wants_thoughts(self) -> (r: bool)
        ensures
            r == (self == Mode::Thoughts),
    {
        self == Mode::Thoughts
    }
}

/// The mode that a stored number stands for.
pub open spec fn held_mode(held: u8) -> Mode {
    if held == 0 {
        Mode::Off
    } else if held == 1 {
        Mode::Speech
    } else {
        Mode::Thoughts
    }
}

/// The number that a mode is stored as.
pub open spec fn mode_number(mode: Mode) -> u8 {
    match mode {
        Mode::Off => 0,
        Mode::Speech => 1,
        Mode::Thoughts => 2,
    }
}

/// The number to begin with: until a mode is set, thoughts are shown.
pub fn unset_mode() -> (r: u8)
    ensures
        r == mode_number(Mode::Thoughts),
        held_mode(r) == Mode::Thoughts,
{
    2
}

/// Stores the mode in a number. What was stored is what is read back.
pub fn set_mode(held: &mut u8, mode: Mode)
    ensures
        *final(held) == mode_number(mode),
        held_mode(*final(held)) == mode,
{
    *held = match mode {
        Mode::Off => 0,
        Mode::Speech => 1,
        Mode::Thoughts => 2,
    };
}

/// The number that is held after modes were set, one by one.
pub open spec fn held_after(modes: Seq<Mode>) -> u8 {
    if modes.len() == 0 {
        mode_number(Mode::Thoughts)
    } else {
        mode_number(modes.last())
    }
}

/// The mode is the one that was set last, and where none was set, thoughts are
/// shown.
pub proof fn the_last_mode_set_is_read_back(modes: Seq<Mode>)
    ensures
        held_mode(held_after(modes)) == (if modes.len() == 0 {
            Mode::Thoughts
        } else {
            modes.last()
        }),
{
}

pub fn mode(held: u8) -> (r: Mode)
    ensures
        r == held_mode(held),
{
    if held == 0 {
        Mode::Off
    } else if held == 1 {
        Mode::Speech
    } else {
        Mode::Thoughts
    }
}

// --- work that is still running --------------------------------------------
/// The statuses that mean a task is over, however it went.
///
/// `running` is deliberately absent: that notification is a progress report,
/// not an ending.
pub open spec fn is_over(status: Seq<char>) -> bool {
    ||| status == "completed"@
    ||| status == "failed"@
    ||| status == "stopped"@
    ||| status == "killed"@
}

fn over(status: &str) -> (r: bool)
    ensures
        r == is_over(status@),
{
    strings::same(status, "completed") || strings::same(status, "failed") || strings::same(
        status,
        "stopped",
    ) || strings::same(status, "killed")
}

/// What stands before the first `mark`, and what stands behind it.
pub open spec fn cut(s: Seq<char>, mark: Seq<char>) -> Option<(Seq<char>, Seq<char>)> {
    match strings::find_spec(s, mark) {
        Some(i) => Some((s.take(i), s.skip(i + mark.len()))),
        None => None,
    }
}

pub open spec fn opt_pair(r: Option<(String, String)>) -> Option<(Seq<char>, Seq<char>)> {
    match r {
        Some(p) => Some((p.0@, p.1@)),
        None => None,
    }
}

fn split_at(s: &str, mark: &str) -> (r: Option<(String, String)>)
    ensures
        opt_pair(r) == cut(s@, mark@),
{
    proof {
        strings::lemma_find(s@, mark@);
    }
    match strings::find(s, mark) {
        Some(i) => {
            let v = strings::chars_of(s);
            let w = strings::chars_of(mark);
            let before = strings::slice(&v, 0, i);
            let behind = strings::slice(&v, i + w.len(), v.len());
            assert(before@ =~= s@.take(i as int));
            assert(behind@ =~= s@.skip(i + mark@.len()));
            Some((before, behind))
        },
        None => None,
    }
}

/// What stands between two marks.
pub open spec fn between_spec(
    line: Seq<char>,
    open: Seq<char>,
    close: Seq<char>,
) -> Option<Seq<char>> {
    match cut(line, open) {
        Some(p) => match cut(p.1, close) {
            Some(q) => Some(q.0),
            None => None,
        },
        None => None,
    }
}

pub fn between(line: &str, open: &str, close: &str) -> (r: Option<String>)
    ensures
        strings::opt_view(r) == between_spec(line@, open@, close@),
{
    match split_at(line, open) {
        Some((_, behind)) => match split_at(behind.as_str(), close) {
            Some((inside, _)) => Some(inside),
            None => None,
        },
        None => None,
    }
}

/// The tasks a notification names: what stands in each of its `<task-id>` tags.
pub open spec fn named_ids(line: Seq<char>) -> Seq<Seq<char>>
    decreases line.len(),
{
    proof {
        lemma_tags(line);
    }
    match cut(line, "<task-id>"@) {
        Some(p) => match cut(p.1, "</task-id>"@) {
            Some(q) => seq![q.0] + named_ids(q.1),
            None => seq![],
        },
        None => seq![],
    }
}

pub proof fn lemma_tags(line: Seq<char>)
    ensures
        cut(line, "<task-id>"@) matches Some(p) ==> (cut(p.1, "</task-id>"@) matches Some(q)
            ==> q.1.len() < line.len()),
{
    reveal_strlit("<task-id>");
    reveal_strlit("</task-id>");
    assert("<task-id>"@.len() == 9);
    strings::lemma_find(line, "<task-id>"@);
    if let Some(p) = cut(line, "<task-id>"@) {
        strings::lemma_find(p.1, "</task-id>"@);
    }
}

/// The tasks that a notification ends. Markers that the notification itself
/// describes as "not tasks" start with two underscores.
pub open spec fn ended_by(line: Seq<char>) -> Set<Seq<char>> {
    match between_spec(line, "<status>"@, "</status>"@) {
        Some(status) => if is_over(status) {
            Set::new(
                |id: Seq<char>| named_ids(line).contains(id) && !strings::begins(id, "__"@),
            )
        } else {
            Set::empty()
        },
        None => Set::empty(),
    }
}

/// Retires every task named by a finished task-notification.
///
/// Every id, not the first one: the scan that runs when a session is resumed
/// reports the previous session's abandoned work as one notification listing
/// up to ten `<task-id>` tags under a single `<status>stopped</status>`.
pub fn end_notified(line: &str, outstanding: &mut NameSet)
    ensures
        final(outstanding)@ == old(outstanding)@.difference(ended_by(line@)),
{
    let status = match between(line, "<status>", "</status>") {
        Some(s) => s,
        None => {
            assert(outstanding@ =~= old(outstanding)@.difference(ended_by(line@)));
            return ;
        },
    };
    if !over(status.as_str()) {
        assert(outstanding@ =~= old(outstanding)@.difference(ended_by(line@)));
        return ;
    }
    let ghost before = outstanding@;
    let ghost all = named_ids(line@);
    let ghost mut seen: Seq<Seq<char>> = seq![];
    let mut rest: String = line.to_owned();
    assert(seen + named_ids(rest@) =~= all);
    loop
        invariant_except_break
            all == named_ids(line@),
            seen + named_ids(rest@) == all,
            outstanding@ == before.difference(
                Set::new(|id: Seq<char>| seen.contains(id) && !strings::begins(id, "__"@)),
            ),
        ensures
            outstanding@ == before.difference(
                Set::new(|id: Seq<char>| all.contains(id) && !strings::begins(id, "__"@)),
            ),
        decreases rest@.len(),
    {
        proof {
            lemma_tags(rest@);
        }
        let tail = match split_at(rest.as_str(), "<task-id>") {
            Some((_, tail)) => tail,
            None => {
                assert(seen + seq![] =~= seen);
                break;
            },
        };
        let (id, next) = match split_at(tail.as_str(), "</task-id>") {
            Some(p) => p,
            None => {
                assert(seen + seq![] =~= seen);
                break;
            },
        };
        let ghost held = outstanding@;
        if !strings::starts_with(id.as_str(), "__") {
            outstanding.remove(id.as_str());
        }
        proof {
            let longer = seen.push(id@);
            assert(longer + named_ids(next@) =~= seen + (seq![id@] + named_ids(next@)));
            assert forall|k: Seq<char>| longer.contains(k) <==> seen.contains(k) || k == id@ by {
                if seen.contains(k) {
                    let i = choose|i: int| 0 <= i < seen.len() && seen[i] == k;
                    assert(longer[i] == k);
                }
                if longer.contains(k) && k != id@ {
                    let i = choose|i: int| 0 <= i < longer.len() && longer[i] == k;
                    assert(seen[i] == k);
                }
                assert(longer[seen.len() as int] == id@);
            }
            assert(outstanding@ =~= before.difference(
                Set::new(|k: Seq<char>| longer.contains(k) && !strings::begins(k, "__"@)),
            ));
            seen = longer;
        }
        rest = next;
    }
    assert(outstanding@ =~= old(outstanding)@.difference(ended_by(line@)));
}

/// The letters, digits, dashes and underscores that `s` starts with.
pub open spec fn id_prefix(s: Seq<char>) -> Seq<char>
    decreases s.len(),
{
    if s.len() > 0 && state::name_char(s[0]) {
        seq![s[0]] + id_prefix(s.skip(1))
    } else {
        seq![]
    }
}

fn take_id(s: &str) -> (r: String)
    ensures
        r@ == id_prefix(s@),
{
    let v = strings::chars_of(s);
    let mut out = String::new();
    let mut i: usize = 0;
    assert(v@.skip(0) =~= v@);
    assert(out@ + id_prefix(v@) =~= id_prefix(v@));
    while i < v.len() && (strings::ascii_alphanumeric(v[i]) || v[i] == '-' || v[i] == '_')
        invariant
            i <= v@.len(),
            out@ + id_prefix(v@.skip(i as int)) == id_prefix(s@),
        decreases v@.len() - i,
    {
        let ghost before = out@;
        out.push(v[i]);
        assert(v@.skip(i as int).skip(1) =~= v@.skip(i + 1));
        assert(before + (seq![v@[i as int]] + id_prefix(v@.skip(i + 1))) =~= out@ + id_prefix(
            v@.skip(i + 1),
        ));
        i = i + 1;
    }
    assert(out@ + seq![] =~= out@);
    out
}

/// The task that a line says was stopped by hand.
pub open spec fn stopped_by(line: Seq<char>) -> Set<Seq<char>> {
    match cut(line, "Successfully stopped task: "@) {
        Some(p) => if id_prefix(p.1).len() > 0 {
            set![id_prefix(p.1)]
        } else {
            Set::empty()
        },
        None => Set::empty(),
    }
}

/// Ids are short, opaque and alphanumeric. Anything else is a field that
/// happens to share a name, and counting it would strand a card on "still
/// working" forever. All-digits is rejected outright: those are to-do list
/// rows.
pub open spec fn plausible(id: Seq<char>) -> bool {
    &&& 0 < id.len() <= 64
    &&& exists|i: int| 0 <= i < id.len() && !strings::is_digit(#[trigger] id[i])
    &&& forall|i: int| 0 <= i < id.len() ==> state::name_char(#[trigger] id[i])
}

pub fn plausible_id(id: &str) -> (r: bool)
    ensures
        r == plausible(id@),
{
    let v = strings::chars_of(id);
    if v.len() == 0 || v.len() > 64 {
        return false;
    }
    let mut other = false;
    let mut i: usize = 0;
    while i < v.len()
        invariant
            i <= v@.len() <= 64,
            0 < v@.len(),
            v@ == id@,
            other == (exists|j: int| 0 <= j < i && !strings::is_digit(#[trigger] id@[j])),
            forall|j: int| 0 <= j < i ==> state::name_char(#[trigger] id@[j]),
        decreases v@.len() - i,
    {
        let c = v[i];
        if !strings::ascii_alphanumeric(c) && c != '-' && c != '_' {
            assert(!state::name_char(id@[i as int]));
            return false;
        }
        if !strings::ascii_digit(c) {
            assert(!strings::is_digit(id@[i as int]));
            other = true;
        }
        i = i + 1;
    }
    other
}

/// The text under a name, as an id worth counting.
pub open spec fn launch_id(result: JsonView, key: Seq<char>) -> Set<Seq<char>> {
    match result.text_at(key) {
        Some(id) => if plausible(id) {
            set![id]
        } else {
            Set::empty()
        },
        None => Set::empty(),
    }
}

/// The text under a name, as an id.
pub open spec fn field_id(result: JsonView, key: Seq<char>) -> Set<Seq<char>> {
    match result.text_at(key) {
        Some(id) => set![id],
        None => Set::empty(),
    }
}

pub open spec fn has_key(j: JsonView, key: Seq<char>) -> bool {
    j.get(key) is Some
}

pub open spec fn status_of(j: JsonView) -> Seq<char> {
    match j.text_at("status"@) {
        Some(s) => s,
        None => seq![],
    }
}

/// A to-do list write. Same field names, nothing asynchronous about it.
pub open spec fn is_todo(result: JsonView) -> bool {
    has_key(result, "updatedFields"@) || has_key(result, "statusChange"@) || has_key(
        result,
        "tasks"@,
    )
}

/// What a tool's result launched, in the shapes that really mean it. A
/// synchronous subagent's result carries an `agentId` too, and it has already
/// finished.
pub open spec fn launched_by(result: JsonView) -> Set<Seq<char>> {
    if is_todo(result) {
        Set::empty()
    } else {
        let commands = launch_id(result, "backgroundTaskId"@);
        let agents = if status_of(result) == "async_launched"@ {
            launch_id(result, "agentId"@).union(launch_id(result, "taskId"@))
        } else {
            Set::empty()
        };
        let monitors = if has_key(result, "timeoutMs"@) || has_key(result, "persistent"@) {
            launch_id(result, "taskId"@)
        } else {
            Set::empty()
        };
        commands.union(agents).union(monitors)
    }
}

/// What a tool's result reports over.
pub open spec fn reported_over(result: JsonView) -> Set<Seq<char>> {
    if is_over(status_of(result)) {
        field_id(result, "backgroundTaskId"@).union(field_id(result, "agentId"@)).union(
            field_id(result, "taskId"@),
        )
    } else {
        Set::empty()
    }
}

/// What an attachment echoes as over.
pub open spec fn echoed_over(attachment: JsonView) -> Set<Seq<char>> {
    if is_over(status_of(attachment)) {
        field_id(attachment, "taskId"@).union(field_id(attachment, "agentId"@))
    } else {
        Set::empty()
    }
}

/// What is outstanding after one entry of the transcript.
pub open spec fn entry_tracked(entry: JsonView, before: Set<Seq<char>>) -> Set<Seq<char>> {
    let result = entry.field("toolUseResult"@);
    let attachment = entry.field("attachment"@);
    let a = if result is Object {
        before.union(launched_by(result)).difference(reported_over(result))
    } else {
        before
    };
    if attachment is Object {
        a.difference(echoed_over(attachment))
    } else {
        a
    }
}

pub open spec fn mentions_tasks(line: Seq<char>) -> bool {
    strings::has(line, "backgroundTaskId"@) || strings::has(line, "agentId"@) || strings::has(
        line,
        "taskId"@,
    )
}

/// What is outstanding after one line of the transcript: endings first, then
/// what its entry launched or reported.
pub open spec fn line_tracked(line: Seq<char>, before: Set<Seq<char>>) -> Set<Seq<char>> {
    let a = if strings::has(line, "task-notification"@) {
        before.difference(ended_by(line))
    } else {
        before
    };
    let b = a.difference(stopped_by(line));
    match json::parsed_text(line) {
        Some(entry) => if mentions_tasks(line) {
            entry_tracked(entry, b)
        } else {
            b
        },
        None => b,
    }
}

fn launch(result: &Json, key: &str, outstanding: &mut NameSet)
    ensures
        final(outstanding)@ == old(outstanding)@.union(launch_id(result@, key@)),
{
    if let Some(id) = result.text_at(key) {
        if plausible_id(id) {
            outstanding.insert(id);
        }
    }
    assert(outstanding@ =~= old(outstanding)@.union(launch_id(result@, key@)));
}

fn end(result: &Json, key: &str, outstanding: &mut NameSet)
    ensures
        final(outstanding)@ == old(outstanding)@.difference(field_id(result@, key@)),
{
    if let Some(id) = result.text_at(key) {
        outstanding.remove(id);
    }
    assert(outstanding@ =~= old(outstanding)@.difference(field_id(result@, key@)));
}

fn status(j: &Json) -> (r: String)
    ensures
        r@ == status_of(j@),
{
    match j.text_at("status") {
        Some(s) => s.to_owned(),
        None => String::new(),
    }
}

fn track_result(result: &Json, outstanding: &mut NameSet)
    ensures
        final(outstanding)@ == old(outstanding)@.union(launched_by(result@)).difference(
            reported_over(result@),
        ),
{
    let ghost before = outstanding@;
    let said = status(result);
    let todo = result.get("updatedFields").is_some() || result.get("statusChange").is_some()
        || result.get("tasks").is_some();
    if !todo {
        launch(result, "backgroundTaskId", outstanding);
        if strings::same(said.as_str(), "async_launched") {
            launch(result, "agentId", outstanding);
            launch(result, "taskId", outstanding);
        }
        if result.get("timeoutMs").is_some() || result.get("persistent").is_some() {
            launch(result, "taskId", outstanding);
        }
    }
    assert(outstanding@ =~= before.union(launched_by(result@)));
    let ghost held = outstanding@;
    if over(said.as_str()) {
        end(result, "backgroundTaskId", outstanding);
        end(result, "agentId", outstanding);
        end(result, "taskId", outstanding);
    }
    assert(outstanding@ =~= held.difference(reported_over(result@)));
}

/// Adds the work an entry of the transcript launched, and removes the work it
/// reported finished.
pub fn track_entry(entry: &Json, outstanding: &mut NameSet)
    ensures
        final(outstanding)@ == entry_tracked(entry@, old(outstanding)@),
{
    if let Some(result) = entry.get("toolUseResult") {
        if result.is_object() {
            track_result(result, outstanding);
        }
    }
    // The same echo, in the shape it is attached to a later turn.
    if let Some(attachment) = entry.get("attachment") {
        if attachment.is_object() {
            let ghost held = outstanding@;
            if over(status(attachment).as_str()) {
                end(attachment, "taskId", outstanding);
                end(attachment, "agentId", outstanding);
            }
            assert(outstanding@ =~= held.difference(echoed_over(attachment@)));
        }
    }
}

/// Adds work this line launched, and removes work it reported finished.
///
/// Read from the *shape* of the entry rather than by looking for id-shaped
/// substrings anywhere on the line. `taskId` is overwhelmingly the *to-do
/// list's* field, not an async one.
pub fn track_tasks(line: &str, outstanding: &mut NameSet)
    ensures
        final(outstanding)@ == line_tracked(line@, old(outstanding)@),
{
    // Endings first, and by substring, because a notification is delivered as
    // an XML-ish blob inside a JSON string rather than as fields.
    if strings::contains(line, "task-notification") {
        end_notified(line, outstanding);
    }
    // Stopped by hand, which is an ending like any other.
    let ghost held = outstanding@;
    if let Some((_, behind)) = split_at(line, "Successfully stopped task: ") {
        let id = take_id(behind.as_str());
        if !id.as_str().is_empty() {
            outstanding.remove(id.as_str());
        }
    }
    assert(outstanding@ =~= held.difference(stopped_by(line@)));
    // A cheap reject before the parse. Most of a transcript mentions none of
    // these, and parsing every line would triple the cost of a poll.
    if !(strings::contains(line, "backgroundTaskId") || strings::contains(line, "agentId")
        || strings::contains(line, "taskId")) {
        return ;
    }
    if let Some(entry) = json::parse(line) {
        track_entry(&entry, outstanding);
    }
}

// --- what is said ----------------------------------------------------------
/// What stands behind the last `mark`.
pub open spec fn behind_mark(s: Seq<char>, mark: Seq<char>) -> Option<Seq<char>>
    decreases s.len(),
{
    if strings::finishes(s, mark) {
        Some(seq![])
    } else if s.len() == 0 {
        None
    } else {
        match behind_mark(s.drop_last(), mark) {
            Some(tail) => Some(tail.push(s.last())),
            None => None,
        }
    }
}

/// The last sentence of a line.
pub open spec fn last_sentence(line: Seq<char>) -> Seq<char> {
    strings::trimmed(
        match behind_mark(line, ". "@) {
            Some(tail) => tail,
            None => line,
        },
    )
}

fn find_behind(s: &str, mark: &str) -> (r: Option<String>)
    ensures
        strings::opt_view(r) == behind_mark(s@, mark@),
{
    let v = strings::chars_of(s);
    let mut end: usize = v.len();
    assert(v@.take(end as int) =~= v@);
    assert(v@.subrange(end as int, v@.len() as int) =~= seq![]);
    let ghost mut tail: Seq<char> = seq![];
    proof {
        match behind_mark(s@, mark@) {
            Some(t) => {
                assert(t + tail =~= t);
            },
            None => {},
        }
    }
    loop
        invariant
            v@ == s@,
            end <= v@.len(),
            tail == v@.subrange(end as int, v@.len() as int),
            match behind_mark(v@.take(end as int), mark@) {
                Some(t) => behind_mark(s@, mark@) == Some(t + tail),
                None => behind_mark(s@, mark@) is None,
            },
        decreases end,
    {
        let head = strings::slice(&v, 0, end);
        assert(head@ =~= v@.take(end as int));
        if strings::ends_with(head.as_str(), mark) {
            let rest = strings::slice(&v, end, v.len());
            assert(seq![] + tail =~= rest@);
            return Some(rest);
        }
        if end == 0 {
            return None;
        }
        proof {
            assert(v@.take(end as int).drop_last() =~= v@.take(end - 1));
            let longer = v@.subrange(end - 1, v@.len() as int);
            assert(longer =~= seq![v@[end - 1]] + tail);
            match behind_mark(v@.take(end - 1), mark@) {
                Some(t) => {
                    assert(t.push(v@[end - 1]) + tail =~= t + longer);
                },
                None => {},
            }
            tail = longer;
        }
        end = end - 1;
    }
}

/// A line of thinking as a card would show it, if it is a whole sentence.
pub open spec fn thought_of(line: Seq<char>) -> Option<Seq<char>> {
    match text::summary_spec(last_sentence(line), LINE_LIMIT as nat) {
        Some(found) => if strings::words_spec(found).len() >= 3 {
            Some(text::truncated(found, LINE_LIMIT as nat))
        } else {
            None
        },
        None => None,
    }
}

/// The last line that holds a usable sentence.
pub open spec fn last_usable(lines: Seq<Seq<char>>) -> Option<Seq<char>>
    decreases lines.len(),
{
    if lines.len() == 0 {
        None
    } else {
        let line = strings::trimmed(lines.last());
        if line.len() > 0 && thought_of(line) is Some {
            thought_of(line)
        } else {
            last_usable(lines.drop_last())
        }
    }
}

fn thought(line: &str) -> (r: Option<String>)
    ensures
        strings::opt_view(r) == thought_of(line@),
{
    // Whole sentences only. A trailing fragment mid-thought reads as a
    // glitch, and the sentence before it says the same thing properly.
    let sentence = match find_behind(line, ". ") {
        Some(tail) => strings::trim(tail.as_str()),
        None => strings::trim(line),
    };
    match text::summary_within(sentence.as_str(), LINE_LIMIT) {
        Some(found) => {
            let words = strings::words(found.as_str());
            assert(words@.len() == strings::words_spec(found@).len());
            if words.len() >= 3 {
                Some(text::truncate(found.as_str(), LINE_LIMIT))
            } else {
                None
            }
        },
        None => None,
    }
}

/// The freshest usable sentence out of a block of thinking.
///
/// Read backwards on purpose: by the end of a thought it has stopped weighing
/// and started deciding, and "now check whether the poller still runs" is worth
/// a card line in a way that "hmm, several things could be wrong here" is not.
pub fn last_thought(raw: &str) -> (r: Option<String>)
    ensures
        strings::opt_view(r) == last_usable(strings::lines_spec(raw@)),
{
    let lines = strings::lines(raw);
    let ghost all = strings::views(lines@);
    let mut i: usize = lines.len();
    assert(all.take(i as int) =~= all);
    while i > 0
        invariant
            i <= lines@.len(),
            all == strings::views(lines@),
            all == strings::lines_spec(raw@),
            last_usable(all) == last_usable(all.take(i as int)),
        decreases i,
    {
        assert(all.take(i as int).drop_last() =~= all.take(i - 1));
        assert(all.take(i as int).last() == lines@[i - 1]@);
        let line = strings::trim(lines[i - 1].as_str());
        if !line.as_str().is_empty() {
            if let Some(found) = thought(line.as_str()) {
                return Some(found);
            }
        }
        i = i - 1;
    }
    None
}

/// What one part of an answer is worth on a card.
pub open spec fn part_said(part: JsonView, mode: Mode) -> Option<Seq<char>> {
    let kind = part.text_at("type"@);
    if kind == Some("text"@) {
        match part.text_at("text"@) {
            Some(raw) => text::summary_spec(raw, LINE_LIMIT as nat),
            None => None,
        }
    } else if kind == Some("thinking"@) && mode == Mode::Thoughts {
        match part.text_at("thinking"@) {
            Some(raw) => last_usable(strings::lines_spec(raw)),
            None => None,
        }
    } else {
        None
    }
}

/// The last part that is worth anything.
pub open spec fn last_said(parts: Seq<JsonView>, mode: Mode) -> Option<Seq<char>>
    decreases parts.len(),
{
    if parts.len() == 0 {
        None
    } else if part_said(parts.last(), mode) is Some {
        part_said(parts.last(), mode)
    } else {
        last_said(parts.drop_last(), mode)
    }
}

/// The line an entry is worth: what the assistant itself said. Subagents write
/// into the same transcript, marked as a sidechain.
pub open spec fn entry_said(entry: JsonView, mode: Mode) -> Option<Seq<char>> {
    if entry.text_at("type"@) != Some("assistant"@) || entry.field("isSidechain"@).boolean()
        == Some(true) {
        None
    } else {
        match entry.field("message"@).field("content"@) {
            JsonView::Array(parts) => last_said(parts, mode),
            _ => None,
        }
    }
}

pub open spec fn line_said(line: Seq<char>, mode: Mode) -> Option<Seq<char>> {
    match json::parsed_text(line) {
        Some(entry) => entry_said(entry, mode),
        None => None,
    }
}

fn said_by(part: &Json, mode: Mode) -> (r: Option<String>)
    ensures
        strings::opt_view(r) == part_said(part@, mode),
{
    proof {
        reveal_strlit("text");
        reveal_strlit("thinking");
        assert("text"@.len() == 4 && "thinking"@.len() == 8);
    }
    let (speaks, thinks) = match part.text_at("type") {
        Some(kind) => (strings::same(kind, "text"), strings::same(kind, "thinking")),
        None => (false, false),
    };
    if speaks {
        match part.text_at("text") {
            Some(raw) => text::summary_within(raw, LINE_LIMIT),
            None => None,
        }
    } else if thinks && mode.wants_thoughts() {
        match part.text_at("thinking") {
            Some(raw) => last_thought(raw),
            None => None,
        }
    } else {
        None
    }
}

/// The line an entry is worth, if any.
pub fn spoken_entry(entry: &Json, mode: Mode) -> (r: Option<String>)
    ensures
        strings::opt_view(r) == entry_said(entry@, mode),
{
    broadcast use json::lemma_view;

    let by_assistant = match entry.text_at("type") {
        Some(kind) => strings::same(kind, "assistant"),
        None => false,
    };
    let sidechain = match entry.get("isSidechain") {
        Some(j) => match j.as_bool() {
            Some(b) => b,
            None => false,
        },
        None => false,
    };
    if !by_assistant || sidechain {
        return None;
    }
    let message = match entry.get("message") {
        Some(m) => m,
        None => {
            return None;
        },
    };
    match message.get("content") {
        Some(Json::Array(parts)) => {
            let ghost all = json::list_view(parts@);
            let mut i: usize = parts.len();
            assert(all.take(i as int) =~= all);
            while i > 0
                invariant
                    i <= parts@.len(),
                    all == json::list_view(parts@),
                    entry_said(entry@, mode) == last_said(all, mode),
                    last_said(all, mode) == last_said(all.take(i as int), mode),
                decreases i,
            {
                assert(all.take(i as int).drop_last() =~= all.take(i - 1));
                assert(all.take(i as int).last() == parts@[i - 1]@);
                if let Some(line) = said_by(&parts[i - 1], mode) {
                    return Some(line);
                }
                i = i - 1;
            }
            None
        },
        _ => None,
    }
}

/// The line an assistant entry is worth, if any.
pub fn spoken(line: &str, mode: Mode) -> (r: Option<String>)
    ensures
        strings::opt_view(r) == line_said(line@, mode),
{
    match json::parse(line) {
        Some(entry) => spoken_entry(&entry, mode),
        None => None,
    }
}

// --- following a transcript ------------------------------------------------
pub struct Watch {
    /// How far into the file we have already read.
    pub offset: u64,
    pub line: String,
    /// Work the turn started and has not been told is over: background shell
    /// commands, monitors, and subagents, by the id each one was given.
    ///
    /// This is the difference between "the assistant stopped talking" and "the
    /// work is finished". The transcript has both halves: an id when the thing
    /// is launched, and the same id in the notification when it completes.
    pub outstanding: NameSet,
    /// The last authoritative correction taken from a hook payload, so it is
    /// applied once instead of on every poll.
    pub synced_ms: u64,
    /// The session's `updated_ms` at the last read, so a session that has
    /// had no event since is not reopened.
    pub seen_updated_ms: u64,
}

#[verifier::ext_equal]
pub struct WatchView {
    pub offset: u64,
    pub line: Seq<char>,
    pub outstanding: Set<Seq<char>>,
    pub synced_ms: u64,
    pub seen_updated_ms: u64,
}

impl View for Watch {
    type V = WatchView;

    open spec fn view(&self) -> WatchView {
        WatchView {
            offset: self.offset,
            line: self.line@,
            outstanding: self.outstanding@,
            synced_ms: self.synced_ms,
            seen_updated_ms: self.seen_updated_ms,
        }
    }
}

pub open spec fn unwatched() -> WatchView {
    WatchView {
        offset: 0,
        line: seq![],
        outstanding: Set::empty(),
        synced_ms: 0,
        seen_updated_ms: 0,
    }
}

/// What a decoder makes of bytes that are not UTF-8: `String::from_utf8_lossy`
/// puts a replacement character in place of each faulty stretch.
pub uninterp spec fn lossy_text(bytes: Seq<u8>) -> Seq<char>;

pub open spec fn text_of_bytes(bytes: Seq<u8>) -> Seq<char> {
    if vstd::utf8::valid_utf8(bytes) {
        vstd::utf8::decode_utf8(bytes)
    } else {
        lossy_text(bytes)
    }
}

/// `String::from_utf8_lossy`: the characters that UTF-8 bytes encode. On bytes
/// that are not UTF-8 its result is only named.
#[verifier::external_body]
fn decode(bytes: &[u8]) -> (r: String)
    ensures
        vstd::utf8::valid_utf8(bytes@) ==> r@ == vstd::utf8::decode_utf8(bytes@),
        !vstd::utf8::valid_utf8(bytes@) ==> r@ == lossy_text(bytes@),
{
    String::from_utf8_lossy(bytes).into_owned()
}

/// One line of the transcript, taken in.
pub open spec fn heard_line(w: WatchView, line: Seq<char>, mode: Mode) -> WatchView {
    let counted = WatchView { outstanding: line_tracked(line, w.outstanding), ..w };
    if mode == Mode::Off || !strings::has(line, "\"assistant\""@) {
        counted
    } else {
        match line_said(line, mode) {
            Some(said) => WatchView { line: said, ..counted },
            None => counted,
        }
    }
}

pub open spec fn heard(w: WatchView, lines: Seq<Seq<char>>, mode: Mode) -> WatchView
    decreases lines.len(),
{
    if lines.len() == 0 {
        w
    } else {
        heard_line(heard(w, lines.drop_last(), mode), lines.last(), mode)
    }
}

/// How many of the bytes are whole lines.
pub open spec fn whole_lines(bytes: Seq<u8>) -> int
    decreases bytes.len(),
{
    if bytes.len() == 0 {
        0
    } else if bytes.last() == 0x0a {
        bytes.len() as int
    } else {
        whole_lines(bytes.drop_last())
    }
}

pub proof fn lemma_whole_lines(bytes: Seq<u8>)
    ensures
        0 <= whole_lines(bytes) <= bytes.len(),
        whole_lines(bytes) > 0 ==> bytes[whole_lines(bytes) - 1] == 0x0a,
        forall|i: int| whole_lines(bytes) <= i < bytes.len() ==> bytes[i] != 0x0a,
    decreases bytes.len(),
{
    if bytes.len() > 0 && bytes.last() != 0x0a {
        lemma_whole_lines(bytes.drop_last());
        assert forall|i: int| whole_lines(bytes) <= i < bytes.len() implies bytes[i] != 0x0a by {
            if i < bytes.len() - 1 {
                assert(bytes.drop_last()[i] == bytes[i]);
            }
        }
    }
}

/// The watch after the bytes from `start` on have been read. A last line that
/// is half-written is neither taken in nor counted as read.
pub open spec fn read_on(w: WatchView, bytes: Seq<u8>, start: u64, mode: Mode) -> WatchView {
    let n = whole_lines(bytes);
    if n == 0 {
        w
    } else {
        heard(
            WatchView { offset: (start + n) as u64, ..w },
            strings::lines_spec(text_of_bytes(bytes.take(n))),
            mode,
        )
    }
}

/// Where to read from in a file of that length; `None` when nothing is new.
pub open spec fn read_from(offset: u64, length: u64) -> Option<u64> {
    if length == offset {
        None
    } else if length < offset || offset == 0 {
        // Truncated or replaced: the offset means nothing now.
        Some(
            if length > FIRST_READ {
                (length - FIRST_READ) as u64
            } else {
                0
            },
        )
    } else if length - offset > MAX_CHUNK {
        Some((length - MAX_CHUNK) as u64)
    } else {
        Some(offset)
    }
}

/// A watch of a file that has that length now. One that got shorter is another
/// file.
pub open spec fn kept(w: WatchView, length: u64) -> WatchView {
    if length < w.offset {
        unwatched()
    } else {
        w
    }
}

/// A watch that knows what the agent itself last said is running.
pub open spec fn synced(w: WatchView, s: SessionView) -> WatchView {
    if s.tasks_ms > w.synced_ms {
        WatchView { synced_ms: s.tasks_ms, outstanding: s.tasks.to_set(), ..w }
    } else {
        w
    }
}

/// Whether a transcript cannot have grown since it was read.
pub open spec fn quiet(w: WatchView, s: SessionView) -> bool {
    &&& w.offset > 0
    &&& !state::running_state(s.state)
    &&& w.outstanding.len() == 0
    &&& w.seen_updated_ms == s.updated_ms
}

impl Watch {
    pub fn new() -> (r: Watch)
        ensures
            r@ == unwatched(),
    {
        let r = Watch {
            offset: 0,
            line: String::new(),
            outstanding: NameSet::new(),
            synced_ms: 0,
            seen_updated_ms: 0,
        };
        assert(r@ =~= unwatched());
        r
    }

    /// Where to go on reading in a file of that length. A file that got shorter
    /// is a new one.
    pub fn resume(&mut self, length: u64) -> (r: Option<u64>)
        ensures
            r == read_from(old(self)@.offset, length),
            final(self)@ == kept(old(self)@, length),
    {
        if length == self.offset {
            return None;
        }
        if length < self.offset {
            *self = Watch::new();
        }
        Some(
            if self.offset == 0 {
                if length > FIRST_READ {
                    length - FIRST_READ
                } else {
                    0
                }
            } else if length - self.offset > MAX_CHUNK {
                length - MAX_CHUNK
            } else {
                self.offset
            },
        )
    }

    fn hear(&mut self, line: &str, mode: Mode)
        ensures
            final(self)@ == heard_line(old(self)@, line@, mode),
    {
        track_tasks(line, &mut self.outstanding);
        // A cheap reject before the expensive parse: most of a transcript is
        // tool results, which are the one thing this never shows.
        if mode != Mode::Off && strings::contains(line, "\"assistant\"") {
            if let Some(said) = spoken(line, mode) {
                self.line = said;
            }
        }
        assert(self@ =~= heard_line(old(self)@, line@, mode));
    }

    /// Takes in the bytes that follow `start` in the file.
    pub fn read(&mut self, bytes: &Vec<u8>, start: u64, mode: Mode)
        requires
            start + bytes@.len() <= u64::MAX,
        ensures
            final(self)@ == read_on(old(self)@, bytes@, start, mode),
    {
        proof {
            lemma_whole_lines(bytes@);
        }
        let mut end: usize = bytes.len();
        assert(bytes@.take(end as int) =~= bytes@);
        while end > 0 && bytes[end - 1] != 0x0a
            invariant
                end <= bytes@.len(),
                whole_lines(bytes@) == whole_lines(bytes@.take(end as int)),
            decreases end,
        {
            assert(bytes@.take(end as int).drop_last() =~= bytes@.take(end - 1));
            end = end - 1;
        }
        if end == 0 {
            return ;
        }
        let whole = vstd::slice::slice_subrange(bytes.as_slice(), 0, end);
        let content = decode(whole);
        assert(whole@ =~= bytes@.take(end as int));
        self.offset = start + end as u64;
        let ghost base = self@;
        assert(base =~= (WatchView { offset: (start + end) as u64, ..old(self)@ }));
        let lines = strings::lines(content.as_str());
        let ghost all = strings::views(lines@);
        let mut i: usize = 0;
        assert(all.take(0) =~= seq![]);
        while i < lines.len()
            invariant
                i <= lines@.len(),
                all == strings::views(lines@),
                self@ == heard(base, all.take(i as int), mode),
            decreases lines@.len() - i,
        {
            assert(all.take(i + 1).drop_last() =~= all.take(i as int));
            assert(all.take(i + 1).last() == lines@[i as int]@);
            self.hear(lines[i].as_str(), mode);
            i = i + 1;
        }
        assert(all.take(i as int) =~= all);
    }

    /// The agent's own account of what is running wins over anything inferred
    /// from the file. Applied before the read, so a launch that happened after
    /// the snapshot still counts.
    pub fn sync(&mut self, session: &Session)
        ensures
            final(self)@ == synced(old(self)@, session@),
    {
        if session.tasks_ms > self.synced_ms {
            self.synced_ms = session.tasks_ms;
            self.outstanding = NameSet::of(&session.tasks);
            assert(self@ =~= (WatchView {
                synced_ms: session@.tasks_ms,
                outstanding: session@.tasks.to_set(),
                ..old(self)@
            }));
        }
    }

    /// A transcript only grows while something is happening. A session that is
    /// not running, has nothing outstanding, and has had no event since the
    /// last read cannot have appended a byte. First reads always happen.
    pub fn is_quiet(&self, session: &Session) -> (r: bool)
        ensures
            r == quiet(self@, session@),
    {
        self.offset > 0 && !session.is_running() && self.outstanding.len() == 0
            && self.seen_updated_ms == session.updated_ms
    }
}

/// A session with what its transcript says on it. The narration can be switched
/// off; the count cannot, because it is what stops a card saying "Done" over
/// running work.
pub open spec fn narrated(s: SessionView, w: WatchView, mode: Mode) -> SessionView {
    SessionView {
        narration: if mode != Mode::Off && w.line.len() > 0 {
            w.line
        } else {
            s.narration
        },
        outstanding: w.outstanding.len() as u64,
        ..s
    }
}

/// Attaches the newest line a session has said, and how much of the work it
/// started is still running, to the session itself.
pub fn decorate(session: &mut Session, watch: &Watch, mode: Mode)
    ensures
        final(session)@ == narrated(old(session)@, watch@, mode),
{
    if mode != Mode::Off && !watch.line.as_str().is_empty() {
        session.narration = watch.line.clone();
    }
    session.outstanding = watch.outstanding.len() as u64;
    assert(session@ =~= narrated(old(session)@, watch@, mode));
}

// --- where a transcript is -------------------------------------------------
pub open spec fn slug_spec(cwd: Seq<char>) -> Seq<char> {
    cwd.map_values(
        |c: char|
            if strings::is_ascii_alnum(c) {
                c
            } else {
                '-'
            },
    )
}

fn slug(cwd: &str) -> (r: String)
    ensures
        r@ == slug_spec(cwd@),
{
    let mut out = String::new();
    for c in it: cwd.chars()
        invariant
            it.seq() == cwd@,
            out@ == slug_spec(cwd@.take(it.index() as int)),
    {
        let shown = if strings::ascii_alphanumeric(c) {
            c
        } else {
            '-'
        };
        out.push(shown);
        assert(slug_spec(cwd@.take(it.index() + 1)) =~= slug_spec(
            cwd@.take(it.index() as int),
        ).push(shown));
    }
    assert(cwd@.take(cwd@.len() as int) =~= cwd@);
    out
}

/// Where a session's transcript would be, below the home folder, when its path
/// is not known: one directory per project, named after the working directory
/// with every awkward character replaced by a dash.
pub fn usual_transcript(session: &Session) -> (r: Option<Vec<String>>)
    ensures
        match r {
            Some(parts) => {
                &&& session@.cwd.len() > 0 && session@.session_id.len() > 0
                &&& strings::views(parts@) == seq![
                    agent::folder_spec(),
                    "projects"@,
                    slug_spec(session@.cwd),
                    session@.session_id + ".jsonl"@,
                ]
            },
            None => session@.cwd.len() == 0 || session@.session_id.len() == 0,
        },
{
    if session.cwd.as_str().is_empty() || session.session_id.as_str().is_empty() {
        return None;
    }
    let parts: Vec<String> = vec![
        agent::folder(),
        "projects".to_owned(),
        slug(session.cwd.as_str()),
        strings::concat2(session.session_id.as_str(), ".jsonl"),
    ];
    assert(strings::views(parts@) =~= seq![
        agent::folder_spec(),
        "projects"@,
        slug_spec(session@.cwd),
        session@.session_id + ".jsonl"@,
    ]);
    Some(parts)
}

// --- what holds of every transcript ----------------------------------------
/// Nothing is outstanding that was not launched: a line adds only what its
/// entry's result names as launched, and only what can be an id.
pub proof fn only_launches_add_work(line: Seq<char>, before: Set<Seq<char>>, id: Seq<char>)
    requires
        line_tracked(line, before).contains(id),
        !before.contains(id),
    ensures
        json::parsed_text(line) is Some,
        launched_by(json::parsed_text(line)->0.field("toolUseResult"@)).contains(id),
        plausible(id),
{
}

/// What a notification ended is over, unless the very same line launched it.
pub proof fn a_notification_ends_what_it_names(
    line: Seq<char>,
    before: Set<Seq<char>>,
    id: Seq<char>,
)
    requires
        strings::has(line, "task-notification"@),
        ended_by(line).contains(id),
        json::parsed_text(line) matches Some(entry) ==> !launched_by(
            entry.field("toolUseResult"@),
        ).contains(id),
    ensures
        !line_tracked(line, before).contains(id),
{
}

/// A progress report is not an ending.
pub proof fn running_is_not_over(line: Seq<char>)
    requires
        between_spec(line, "<status>"@, "</status>"@) == Some("running"@),
    ensures
        ended_by(line) == Set::<Seq<char>>::empty(),
{
    reveal_strlit("running");
    reveal_strlit("completed");
    reveal_strlit("failed");
    reveal_strlit("stopped");
    reveal_strlit("killed");
    assert("running"@[0] == 'r' && "completed"@[0] == 'c' && "failed"@[0] == 'f'
        && "stopped"@[0] == 's' && "killed"@[0] == 'k');
}

/// Ticking off a to-do item launches nothing, whatever ids it carries.
pub proof fn a_to_do_item_is_no_task(entry: JsonView, before: Set<Seq<char>>)
    requires
        is_todo(entry.field("toolUseResult"@)),
    ensures
        entry_tracked(entry, before).subset_of(before),
{
}

/// An echo of finished work never revives it.
pub proof fn an_echo_revives_nothing(entry: JsonView, before: Set<Seq<char>>)
    requires
        entry.field("toolUseResult"@) !is Object,
    ensures
        entry_tracked(entry, before).subset_of(before),
{
}

/// A half-written line is left for next time: what is taken in ends with a line
/// end, and adding the rest of the line later changes nothing before it.
pub proof fn a_half_written_line_waits(bytes: Seq<u8>, half: Seq<u8>)
    requires
        bytes.len() > 0,
        bytes.last() == 0x0a,
        forall|i: int| 0 <= i < half.len() ==> half[i] != 0x0a,
    ensures
        whole_lines(bytes + half) == bytes.len(),
        (bytes + half).take(whole_lines(bytes + half)) == bytes,
    decreases half.len(),
{
    if half.len() == 0 {
        assert(bytes + half =~= bytes);
    } else {
        assert((bytes + half).last() == half.last());
        assert((bytes + half).drop_last() =~= bytes + half.drop_last());
        a_half_written_line_waits(bytes, half.drop_last());
    }
    assert((bytes + half).take(bytes.len() as int) =~= bytes);
}

/// With narration switched off the work is still counted.
pub proof fn the_count_survives_silence(w: WatchView, line: Seq<char>)
    ensures
        heard_line(w, line, Mode::Off).outstanding == line_tracked(line, w.outstanding),
        heard_line(w, line, Mode::Off).line == w.line,
{
}

/// A setting that cannot be read still narrates.
pub proof fn an_unreadable_setting_narrates(value: Seq<char>)
    requires
        value != "off"@,
    ensures
        mode_of(value) != Mode::Off,
{
}

} // verus!
