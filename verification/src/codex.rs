//! Read-only adapter for local Codex rollouts (desktop and CLI).
//!
//! No hooks or database writes: Codex owns its JSONL logs and session index.
//! We replay complete records incrementally, and only publish after catching
//! up. In particular an assistant's final message is NOT a turn-complete event.
//! These are best-effort local formats, not a stable external API.

use vstd::prelude::*;
use vstd::string::*;

use crate::json;
use crate::json::{Json, JsonView};
use crate::narration::Mode;
use crate::project::Project;
use crate::state;
use crate::state::{EntryView, Provider, Session, SessionView};
use crate::strings;
use crate::table;
use crate::table::Table;
use crate::text;

verus! {

pub const RECENT_MS: u64 = 43_200_000;

pub const STALE_MS: u64 = 300_000;

pub const READ_BYTES: u64 = 262_144;

pub const MAX_RECORD: usize = 2_097_152;

pub const MAX_SESSIONS: usize = 32;

pub const INITIAL_TAIL: u64 = 4_194_304;

/// How long a finished turn is held provisional.
pub const SETTLE_MS: u64 = 1_500;

/// What a line of narration is cut to.
pub const LINE_LIMIT: usize = 110;

pub struct Watch {
    /// How far into the file we have already read.
    pub offset: u64,
    /// The file's time stamp at the last read.
    pub modified: Option<u64>,
    /// The beginning of a record whose end has not been read.
    pub pending: Vec<u8>,
    /// The record at hand is too long, and is being skipped.
    pub oversized: bool,
    /// The file has been read to its end.
    pub ready: bool,
    /// The file is a conversation of its own.
    pub accepted: bool,
    /// The session is in a folder whose project has not been looked up.
    pub unplaced: bool,
    pub session: Session,
    pub speech: String,
    pub thought: String,
    pub thought_ms: u64,
    pub speech_ms: u64,
    /// The tool calls of the turn that have been counted.
    pub calls: Vec<String>,
    /// The call that asked the user something.
    pub waiting_call: String,
}

#[verifier::ext_equal]
pub struct WatchView {
    pub offset: u64,
    pub modified: Option<u64>,
    pub pending: Seq<u8>,
    pub oversized: bool,
    pub ready: bool,
    pub accepted: bool,
    pub unplaced: bool,
    pub session: SessionView,
    pub speech: Seq<char>,
    pub thought: Seq<char>,
    pub thought_ms: u64,
    pub speech_ms: u64,
    pub calls: Seq<Seq<char>>,
    pub waiting_call: Seq<char>,
}

impl View for Watch {
    type V = WatchView;

    open spec fn view(&self) -> WatchView {
        WatchView {
            offset: self.offset,
            modified: self.modified,
            pending: self.pending@,
            oversized: self.oversized,
            ready: self.ready,
            accepted: self.accepted,
            unplaced: self.unplaced,
            session: self.session@,
            speech: self.speech@,
            thought: self.thought@,
            thought_ms: self.thought_ms,
            speech_ms: self.speech_ms,
            calls: strings::views(self.calls@),
            waiting_call: self.waiting_call@,
        }
    }
}

/// A file of which nothing has been read.
pub open spec fn unread() -> WatchView {
    WatchView {
        offset: 0,
        modified: None,
        pending: seq![],
        oversized: false,
        ready: false,
        accepted: false,
        unplaced: false,
        session: state::blank(),
        speech: seq![],
        thought: seq![],
        thought_ms: 0,
        speech_ms: 0,
        calls: seq![],
        waiting_call: seq![],
    }
}

impl Default for Watch {
    fn default() -> (r: Watch)
        ensures
            r@ == unread(),
    {
        let r = Watch {
            offset: 0,
            modified: None,
            pending: Vec::new(),
            oversized: false,
            ready: false,
            accepted: false,
            unplaced: false,
            session: Session::default(),
            speech: String::new(),
            thought: String::new(),
            thought_ms: 0,
            speech_ms: 0,
            calls: Vec::new(),
            waiting_call: String::new(),
        };
        assert(r@ =~= unread());
        r
    }
}

// --- reading a record ------------------------------------------------------
/// What `chrono` reads an RFC 3339 time stamp as, in milliseconds since 1970;
/// `None` when it is not one.
pub uninterp spec fn rfc3339_ms(s: Seq<char>) -> Option<i64>;

/// `chrono::DateTime::parse_from_rfc3339`, then `DateTime::timestamp_millis` of
/// what it read. The result is named.
#[verifier::external_body]
fn parse_stamp(s: &str) -> (r: Option<i64>)
    ensures
        r == rfc3339_ms(s@),
{
    chrono::DateTime::parse_from_rfc3339(s).ok().map(|t| t.timestamp_millis())
}

/// The time a record is stamped with; zero when it has none.
pub open spec fn stamp_spec(v: JsonView) -> u64 {
    match v {
        JsonView::Text(s) => match rfc3339_ms(s) {
            Some(ms) => if ms >= 0 {
                ms as u64
            } else {
                0
            },
            None => 0,
        },
        _ => 0,
    }
}

fn stamp(v: Option<&Json>) -> (r: u64)
    ensures
        r == stamp_spec(
            match v {
                Some(j) => j@,
                None => JsonView::Null,
            },
        ),
        r <= i64::MAX,
{
    match v {
        Some(j) => match j.as_str() {
            Some(s) => match parse_stamp(s) {
                Some(ms) => if ms >= 0 {
                    ms as u64
                } else {
                    0
                },
                None => 0,
            },
            None => 0,
        },
        None => 0,
    }
}

pub open spec fn string_at(v: JsonView, key: Seq<char>) -> Seq<char> {
    match v.text_at(key) {
        Some(s) => s,
        None => seq![],
    }
}

fn string(v: &Json, key: &str) -> (r: String)
    ensures
        r@ == string_at(v@, key@),
{
    match v.text_at(key) {
        Some(s) => s.to_owned(),
        None => String::new(),
    }
}

fn part(v: &Json, key: &str) -> (r: Json)
    ensures
        r@ == v@.field(key@),
{
    match v.get(key) {
        Some(j) => j.copy(),
        None => Json::Null,
    }
}

fn kind_is(v: &Json, key: &str, s: &str) -> (r: bool)
    ensures
        r == (v@.text_at(key@) == Some(s@)),
{
    match v.text_at(key) {
        Some(t) => strings::same(t, s),
        None => false,
    }
}

/// The texts of the parts that have one.
pub open spec fn part_texts(parts: Seq<JsonView>) -> Seq<Seq<char>>
    decreases parts.len(),
{
    if parts.len() == 0 {
        seq![]
    } else {
        match parts.last().text_at("text"@) {
            Some(s) => part_texts(parts.drop_last()).push(s),
            None => part_texts(parts.drop_last()),
        }
    }
}

/// The parts that are texts.
pub open spec fn plain_texts(parts: Seq<JsonView>) -> Seq<Seq<char>>
    decreases parts.len(),
{
    if parts.len() == 0 {
        seq![]
    } else {
        match parts.last().str() {
            Some(s) => plain_texts(parts.drop_last()).push(s),
            None => plain_texts(parts.drop_last()),
        }
    }
}

/// What a message says: a text, or the texts of its parts, a line each.
pub open spec fn content_spec(v: JsonView) -> Seq<char> {
    match v {
        JsonView::Text(s) => s,
        JsonView::Array(parts) => strings::joined(part_texts(parts), '\n'),
        _ => seq![],
    }
}

/// What a summary says: its texts, a line each.
pub open spec fn summary_text(v: JsonView) -> Seq<char> {
    match v {
        JsonView::Array(parts) => strings::joined(plain_texts(parts), '\n'),
        _ => seq![],
    }
}

fn content(v: &Json) -> (r: String)
    ensures
        r@ == content_spec(v@),
{
    broadcast use json::lemma_view;

    match v {
        Json::Text(s) => s.clone(),
        Json::Array(parts) => {
            let ghost all = json::list_view(parts@);
            let mut out: Vec<String> = Vec::new();
            let mut i: usize = 0;
            assert(all.take(0) =~= seq![]);
            assert(strings::views(out@) =~= seq![]);
            while i < parts.len()
                invariant
                    i <= parts@.len(),
                    all == json::list_view(parts@),
                    strings::views(out@) == part_texts(all.take(i as int)),
                decreases parts@.len() - i,
            {
                let ghost before = out@;
                assert(all.take(i + 1).drop_last() =~= all.take(i as int));
                assert(all.take(i + 1).last() == parts@[i as int]@);
                if let Some(s) = parts[i].text_at("text") {
                    out.push(s.to_owned());
                    assert(strings::views(out@) =~= strings::views(before).push(s@));
                }
                i = i + 1;
            }
            assert(all.take(i as int) =~= all);
            strings::join(&out, '\n')
        },
        _ => String::new(),
    }
}

fn summarised(v: &Json) -> (r: String)
    ensures
        r@ == summary_text(v@),
{
    broadcast use json::lemma_view;

    match v {
        Json::Array(parts) => {
            let ghost all = json::list_view(parts@);
            let mut out: Vec<String> = Vec::new();
            let mut i: usize = 0;
            assert(all.take(0) =~= seq![]);
            assert(strings::views(out@) =~= seq![]);
            while i < parts.len()
                invariant
                    i <= parts@.len(),
                    all == json::list_view(parts@),
                    strings::views(out@) == plain_texts(all.take(i as int)),
                decreases parts@.len() - i,
            {
                let ghost before = out@;
                assert(all.take(i + 1).drop_last() =~= all.take(i as int));
                assert(all.take(i + 1).last() == parts@[i as int]@);
                if let Some(s) = parts[i].as_str() {
                    out.push(s.to_owned());
                    assert(strings::views(out@) =~= strings::views(before).push(s@));
                }
                i = i + 1;
            }
            assert(all.take(i as int) =~= all);
            strings::join(&out, '\n')
        },
        _ => String::new(),
    }
}

/// The category of a tool, by its name.
pub open spec fn tool_kind_spec(name: Seq<char>) -> Seq<char> {
    if strings::has(name, "patch"@) || strings::has(name, "edit_file"@) {
        "Editing"@
    } else if strings::has(name, "search"@) || strings::has(name, "web"@) {
        "Searching"@
    } else if strings::has(name, "read"@) || strings::has(name, "view"@) {
        "Reading"@
    } else if strings::has(name, "spawn_agent"@) {
        "Delegating"@
    } else if strings::has(name, "wait"@) {
        "Waiting"@
    } else {
        "Running"@
    }
}

pub fn tool_kind(name: &str) -> (r: &'static str)
    ensures
        r@ == tool_kind_spec(name@),
{
    if strings::contains(name, "patch") || strings::contains(name, "edit_file") {
        "Editing"
    } else if strings::contains(name, "search") || strings::contains(name, "web") {
        "Searching"
    } else if strings::contains(name, "read") || strings::contains(name, "view") {
        "Reading"
    } else if strings::contains(name, "spawn_agent") {
        "Delegating"
    } else if strings::contains(name, "wait") {
        "Waiting"
    } else {
        "Running"
    }
}

/// An id that can stand in an address as it is.
pub open spec fn is_plain(id: Seq<char>) -> bool {
    &&& 0 < id.len() <= 64
    &&& forall|i: int| 0 <= i < id.len() ==> state::name_char(#[trigger] id[i])
}

pub fn plain_id(id: &str) -> (r: bool)
    ensures
        r == is_plain(id@),
{
    let v = strings::chars_of(id);
    if v.len() == 0 || v.len() > 64 {
        return false;
    }
    let mut i: usize = 0;
    while i < v.len()
        invariant
            i <= v@.len() <= 64,
            0 < v@.len(),
            v@ == id@,
            forall|j: int| 0 <= j < i ==> state::name_char(#[trigger] id@[j]),
        decreases v@.len() - i,
    {
        if !strings::ascii_alphanumeric(v[i]) && v[i] != '-' && v[i] != '_' {
            assert(!state::name_char(id@[i as int]));
            return false;
        }
        i = i + 1;
    }
    true
}

// --- one record at a time --------------------------------------------------
#[verifier::opaque]
pub open spec fn progressed(w: WatchView, at: u64) -> WatchView {
    WatchView { session: SessionView { updated_ms: at, stalled: false, ..w.session }, ..w }
}

/// Something was said, or thought, if there is anything in it.
#[verifier::opaque]
pub open spec fn said(w: WatchView, words: Seq<char>, at: u64, thinking: bool) -> WatchView {
    match text::summary_spec(words, LINE_LIMIT as nat) {
        Some(line) => progressed(
            if thinking {
                WatchView { thought: line, thought_ms: at, ..w }
            } else {
                WatchView { speech: line, speech_ms: at, ..w }
            },
            at,
        ),
        None => w,
    }
}

/// A turn begins, and nothing of the one before it is left. The turn that is
/// already running does not begin again.
#[verifier::opaque]
pub open spec fn started(w: WatchView, p: JsonView, at: u64) -> WatchView {
    let id = string_at(p, "turn_id"@);
    if id.len() > 0 && w.session.prompt_id == id {
        w
    } else {
        WatchView {
            session: SessionView {
                prompt_id: id,
                turn_started_ms: at,
                turn_ended_ms: 0,
                turn_tools: 0,
                turn_tools_partial: false,
                state: "thinking"@,
                kind: "Thinking"@,
                activity: "Starting a turn"@,
                headline: seq![],
                detail: seq![],
                recent: seq![],
                updated_ms: at,
                stalled: false,
                ..w.session.progressed().unprompted()
            },
            speech: seq![],
            thought: seq![],
            calls: seq![],
            waiting_call: seq![],
            ..w
        }
    }
}

/// Whether a completion belongs to a turn that is over already.
pub open spec fn belated(w: WatchView, p: JsonView) -> bool {
    p.text_at("turn_id"@) matches Some(id) && w.session.prompt_id.len() > 0 && id
        != w.session.prompt_id
}

/// When the turn began, by its completion's own account.
pub open spec fn told_start(p: JsonView, at: u64) -> u64 {
    match p.field("started_at"@) {
        JsonView::Unsigned(seconds) => if seconds * 1000 <= at {
            (seconds * 1000) as u64
        } else {
            0
        },
        _ => 0,
    }
}

/// The turn ended.
#[verifier::opaque]
pub open spec fn ended(w: WatchView, p: JsonView, at: u64, failed: bool) -> WatchView {
    WatchView {
        session: SessionView {
            state: "idle"@,
            outcome: if failed {
                "failed"@
            } else {
                "done"@
            },
            outcome_ms: at,
            settles_ms: (at + SETTLE_MS) as u64,
            turn_ended_ms: at,
            turn_started_ms: if w.session.turn_started_ms == 0 {
                told_start(p, at)
            } else {
                w.session.turn_started_ms
            },
            activity: if failed {
                "Turn interrupted"@
            } else {
                "Turn complete"@
            },
            ..w.session.progressed().unprompted()
        },
        waiting_call: seq![],
        ..w
    }
}

/// The session with a longer text for the expanded panel.
pub open spec fn detailed(w: WatchView, words: Seq<char>) -> WatchView {
    WatchView { session: SessionView { detail: text::truncated(words, 4000), ..w.session }, ..w }
}

/// The turn's last words.
#[verifier::opaque]
pub open spec fn last_words(w: WatchView, p: JsonView, at: u64) -> WatchView {
    match p.text_at("last_agent_message"@) {
        Some(words) => if words.len() > 0 {
            detailed(said(w, words, at, false), words)
        } else {
            w
        },
        None => w,
    }
}

/// The turn ended, unless it is another turn that did: a delayed completion
/// must not finish this one.
#[verifier::opaque]
pub open spec fn finished(w: WatchView, p: JsonView, at: u64, failed: bool) -> WatchView {
    if belated(w, p) {
        w
    } else {
        let told = last_words(ended(w, p, at, failed), p, at);
        progressed(
            if failed {
                WatchView { speech: seq![], thought: seq![], ..told }
            } else {
                told
            },
            at,
        )
    }
}

pub open spec fn or_else(line: Option<Seq<char>>, fallback: Seq<char>) -> Seq<char> {
    match line {
        Some(s) => s,
        None => fallback,
    }
}

/// An item that was completed, if it says anything.
#[verifier::opaque]
pub open spec fn item_said(w: WatchView, item: JsonView, at: u64) -> WatchView {
    if item.text_at("type"@) == Some("AgentMessage"@) {
        said(w, content_spec(item.field("content"@)), at, false)
    } else if item.text_at("type"@) == Some("Reasoning"@) {
        said(w, summary_text(item.field("summary_text"@)), at, true)
    } else {
        w
    }
}

/// A request that the agent put to the user.
#[verifier::opaque]
pub open spec fn asked(w: WatchView, question: bool, at: u64) -> WatchView {
    progressed(
        WatchView {
            session: SessionView {
                waiting_since: at,
                waiting_reason: if question {
                    "Codex has a question for you"@
                } else {
                    "Codex needs your approval"@
                },
                ..w.session
            },
            ..w
        },
        at,
    )
}

/// The turn failed for good, with what went wrong.
#[verifier::opaque]
pub open spec fn errored(w: WatchView, p: JsonView, at: u64) -> WatchView {
    let t = finished(w, p, at, true);
    WatchView {
        session: SessionView {
            activity: or_else(
                text::summary_spec(string_at(p, "message"@), LINE_LIMIT as nat),
                "Turn failed"@,
            ),
            ..t.session
        },
        ..t
    }
}

/// The user asked for something.
#[verifier::opaque]
pub open spec fn prompted(w: WatchView, p: JsonView, at: u64) -> WatchView {
    progressed(
        WatchView {
            session: SessionView {
                headline: or_else(
                    text::summary_spec(string_at(p, "message"@), LINE_LIMIT as nat),
                    seq![],
                ),
                ..w.session
            },
            ..w
        },
        at,
    )
}

/// The event is the session's last.
#[verifier::opaque]
pub open spec fn noted(w: WatchView, p: JsonView) -> WatchView {
    WatchView { session: SessionView { event: string_at(p, "type"@), ..w.session }, ..w }
}

/// What an event does, `None` for the events that are ignored. Silence alone is
/// never a permission prompt.
pub open spec fn event_effect(w: WatchView, p: JsonView, at: u64) -> Option<WatchView> {
    let kind = string_at(p, "type"@);
    if kind == "task_started"@ || kind == "turn_started"@ {
        Some(started(w, p, at))
    } else if kind == "task_complete"@ || kind == "turn_complete"@ {
        Some(finished(w, p, at, false))
    } else if kind == "turn_aborted"@ {
        Some(finished(w, p, at, true))
    } else if kind == "error"@ && p.field("will_retry"@) != JsonView::Bool(true) {
        Some(errored(w, p, at))
    } else if kind == "user_message"@ {
        Some(prompted(w, p, at))
    } else if kind == "agent_message"@ {
        Some(said(w, string_at(p, "message"@), at, false))
    } else if kind == "agent_reasoning"@ {
        Some(said(w, string_at(p, "text"@), at, true))
    } else if kind == "token_count"@ && state::running_state(w.session.state) {
        Some(progressed(w, at))
    } else if kind == "item_completed"@ {
        Some(item_said(w, p.field("item"@), at))
    } else if (kind == "exec_approval_request"@ || kind == "apply_patch_approval_request"@ || kind
        == "request_user_input"@) && state::running_state(w.session.state) {
        Some(asked(w, kind == "request_user_input"@, at))
    } else {
        None
    }
}

pub open spec fn evented(w: WatchView, p: JsonView, at: u64) -> WatchView {
    match event_effect(w, p, at) {
        Some(t) => noted(t, p),
        None => w,
    }
}

/// The first question a tool call puts to the user.
pub open spec fn first_question(p: JsonView) -> Option<Seq<char>> {
    match p.text_at("arguments"@) {
        Some(s) => match json::parsed_text(s) {
            Some(args) => question_in(args),
            None => None,
        },
        None => None,
    }
}

/// The first question in a tool call's arguments.
pub open spec fn question_in(args: JsonView) -> Option<Seq<char>> {
    match args.field("questions"@) {
        JsonView::Array(questions) => if questions.len() > 0 {
            match questions[0].text_at("question"@) {
                Some(q) => text::summary_spec(q, 180),
                None => None,
            }
        } else {
            None
        },
        _ => None,
    }
}

/// A tool call, counted once however often it is recorded.
#[verifier::opaque]
pub open spec fn called(w: WatchView, p: JsonView, at: u64) -> WatchView {
    let id = string_at(p, "call_id"@);
    let name = string_at(p, "name"@);
    let activity = tool_kind_spec(name) + ": "@ + text::truncated(name, 70);
    let asks = strings::finishes(name, "request_user_input"@);
    if !state::running_state(w.session.state) || (id.len() > 0 && w.calls.contains(id)) {
        w
    } else {
        WatchView {
            calls: if id.len() > 0 {
                w.calls.push(id)
            } else {
                w.calls
            },
            waiting_call: if asks {
                id
            } else {
                seq![]
            },
            session: SessionView {
                turn_tools: (w.session.turn_tools + 1) as u64,
                tools: (w.session.tools + 1) as u64,
                state: "running"@,
                kind: tool_kind_spec(name),
                activity,
                recent: state::logged(
                    w.session.recent,
                    EntryView { ms: at, state: "running"@, text: activity },
                ),
                waiting_since: if asks {
                    at
                } else {
                    0
                },
                waiting_reason: if asks {
                    or_else(first_question(p), "Codex has a question for you"@)
                } else {
                    seq![]
                },
                updated_ms: at,
                stalled: false,
                ..w.session.progressed().unprompted()
            },
            ..w
        }
    }
}

/// A tool's output. A question is answered only by the output of the call that
/// asked it.
#[verifier::opaque]
pub open spec fn answered(w: WatchView, p: JsonView, at: u64) -> WatchView {
    if !state::running_state(w.session.state) {
        w
    } else if w.waiting_call.len() == 0 || p.text_at("call_id"@) == Some(w.waiting_call) {
        progressed(
            WatchView {
                session: SessionView { waiting_since: 0, waiting_reason: seq![], ..w.session },
                waiting_call: seq![],
                ..w
            },
            at,
        )
    } else {
        progressed(w, at)
    }
}

pub open spec fn responded(w: WatchView, p: JsonView, at: u64) -> WatchView {
    let kind = p.text_at("type"@);
    if kind == Some("message"@) {
        if p.text_at("role"@) == Some("assistant"@) {
            let words = content_spec(p.field("content"@));
            let t = said(w, words, at, false);
            if p.text_at("phase"@) == Some("final_answer"@) {
                detailed(t, words)
            } else {
                t
            }
        } else {
            w
        }
    } else if kind == Some("reasoning"@) {
        said(w, content_spec(p.field("summary"@)), at, true)
    } else if kind == Some("function_call"@) || kind == Some("custom_tool_call"@) {
        called(w, p, at)
    } else if kind == Some("function_call_output"@) || kind == Some("custom_tool_call_output"@) {
        answered(w, p, at)
    } else {
        w
    }
}

/// The id in a session's first record.
pub open spec fn meta_id(p: JsonView) -> Seq<char> {
    match p.text_at("id"@) {
        Some(id) => id,
        None => string_at(p, "session_id"@),
    }
}

/// Whether a rollout is a conversation of its own, and not a review or a
/// subagent inside another.
pub open spec fn own_conversation(p: JsonView) -> bool {
    &&& is_plain(meta_id(p))
    &&& p.field("source"@) !is Object
    &&& p.text_at("thread_source"@) != Some("guardian_review"@)
    &&& p.text_at("thread_source"@) != Some("subagent"@)
}

/// The session a rollout is about. Its id cannot collide with a hook's. What
/// project its folder belongs to is looked up later.
#[verifier::opaque]
pub open spec fn introduced(w: WatchView, p: JsonView, at: u64) -> WatchView {
    if own_conversation(p) {
        let desktop = p.text_at("originator"@) matches Some(o) && strings::has(
            strings::lowered(o),
            "desktop"@,
        );
        WatchView {
            accepted: true,
            unplaced: true,
            session: SessionView {
                session_id: "codex:"@ + meta_id(p),
                provider: Provider::Codex,
                chat_id: if desktop {
                    meta_id(p)
                } else {
                    seq![]
                },
                cwd: string_at(p, "cwd"@),
                state: "idle"@,
                started_ms: at,
                updated_ms: at,
                ..state::blank()
            },
            ..w
        }
    } else {
        WatchView { accepted: false, ..w }
    }
}

/// The watch after one record that is stamped with `at`.
pub open spec fn applied(w: WatchView, v: JsonView, at: u64) -> WatchView {
    let kind = v.text_at("type"@);
    let p = v.field("payload"@);
    if kind == Some("session_meta"@) {
        introduced(w, p, at)
    } else if !w.accepted || at == 0 {
        w
    } else if kind == Some("event_msg"@) {
        evented(w, p, at)
    } else if kind == Some("response_item"@) {
        responded(w, p, at)
    } else {
        w
    }
}

impl Watch {
    fn progress(&mut self, at: u64)
        ensures
            final(self)@ == progressed(old(self)@, at),
    {
        proof {
            reveal(progressed);
        }
        self.session.updated_ms = at;
        self.session.stalled = false;
        assert(self@ =~= progressed(old(self)@, at));
    }

    pub fn say(&mut self, words: &str, at: u64, thinking: bool)
        ensures
            final(self)@ == said(old(self)@, words@, at, thinking),
    {
        proof {
            reveal(said);
            reveal(progressed);
        }
        let line = match text::summary_within(words, LINE_LIMIT) {
            Some(line) => line,
            None => {
                return ;
            },
        };
        if thinking {
            self.thought = line;
            self.thought_ms = at;
        } else {
            self.speech = line;
            self.speech_ms = at;
        }
        self.progress(at);
        assert(self@ =~= said(old(self)@, words@, at, thinking));
    }

    fn start(&mut self, p: &Json, at: u64)
        ensures
            final(self)@ == started(old(self)@, p@, at),
    {
        proof {
            reveal(started);
        }
        let id = string(p, "turn_id");
        if !id.as_str().is_empty() && strings::same(self.session.prompt_id.as_str(), id.as_str()) {
            return ;
        }
        self.session.clear_pending();
        self.session.clear_permission();
        self.session.prompt_id = id;
        self.session.turn_started_ms = at;
        self.session.turn_ended_ms = 0;
        self.session.turn_tools = 0;
        self.session.turn_tools_partial = false;
        self.session.state = "thinking".to_owned();
        self.session.kind = "Thinking".to_owned();
        self.session.activity = "Starting a turn".to_owned();
        self.session.headline = String::new();
        self.session.detail = String::new();
        self.session.recent = Vec::new();
        self.session.updated_ms = at;
        self.session.stalled = false;
        self.speech = String::new();
        self.thought = String::new();
        self.calls = Vec::new();
        self.waiting_call = String::new();
        assert(self@.session.recent =~= seq![]);
        assert(self@.session =~= started(old(self)@, p@, at).session);
        assert(self@ =~= started(old(self)@, p@, at));
    }

    fn end(&mut self, p: &Json, at: u64, failed: bool)
        requires
            at <= i64::MAX,
        ensures
            final(self)@ == ended(old(self)@, p@, at, failed),
    {
        proof {
            reveal(ended);
        }
        self.session.clear_pending();
        self.session.clear_permission();
        self.waiting_call = String::new();
        self.session.state = "idle".to_owned();
        self.session.outcome = if failed {
            "failed".to_owned()
        } else {
            "done".to_owned()
        };
        self.session.outcome_ms = at;
        self.session.settles_ms = at + SETTLE_MS;
        self.session.turn_ended_ms = at;
        if self.session.turn_started_ms == 0 {
            // A completion can restore the start lost outside the initial
            // tail. Its action count remains explicitly a lower bound.
            let seconds = match p.get("started_at") {
                Some(j) => j.as_u64(),
                None => None,
            };
            self.session.turn_started_ms = match seconds {
                Some(s) => if s <= at / 1000 {
                    s * 1000
                } else {
                    0
                },
                None => 0,
            };
        }
        self.session.activity = if failed {
            "Turn interrupted".to_owned()
        } else {
            "Turn complete".to_owned()
        };
        assert(self@.session =~= ended(old(self)@, p@, at, failed).session);
        assert(self@ =~= ended(old(self)@, p@, at, failed));
    }

    fn conclude(&mut self, p: &Json, at: u64)
        ensures
            final(self)@ == last_words(old(self)@, p@, at),
    {
        proof {
            reveal(last_words);
        }
        if let Some(words) = p.text_at("last_agent_message") {
            if !words.is_empty() {
                self.say(words, at, false);
                self.detail(words);
            }
        }
    }

    fn detail(&mut self, words: &str)
        ensures
            final(self)@ == detailed(old(self)@, words@),
    {
        self.session.detail = text::truncate(words, 4000);
        assert(self@.session =~= detailed(old(self)@, words@).session);
        assert(self@ =~= detailed(old(self)@, words@));
    }

    fn finish(&mut self, p: &Json, at: u64, failed: bool)
        requires
            at <= i64::MAX,
        ensures
            final(self)@ == finished(old(self)@, p@, at, failed),
    {
        proof {
            reveal(finished);
        }
        // A delayed completion from the previous turn must not finish this one.
        if let Some(id) = p.text_at("turn_id") {
            if !self.session.prompt_id.as_str().is_empty() && !strings::same(
                id,
                self.session.prompt_id.as_str(),
            ) {
                return ;
            }
        }
        self.end(p, at, failed);
        self.conclude(p, at);
        let ghost told = self@;
        if failed {
            self.speech = String::new();
            self.thought = String::new();
            assert(self@ =~= (WatchView { speech: seq![], thought: seq![], ..told }));
        }
        self.progress(at);
    }

    fn note_event(&mut self, p: &Json)
        ensures
            final(self)@ == noted(old(self)@, p@),
    {
        proof {
            reveal(noted);
        }
        self.session.event = string(p, "type");
        assert(self@.session =~= noted(old(self)@, p@).session);
        assert(self@ =~= noted(old(self)@, p@));
    }

    fn item(&mut self, item: &Json, at: u64)
        ensures
            final(self)@ == item_said(old(self)@, item@, at),
    {
        proof {
            reveal(item_said);
        }
        if kind_is(item, "type", "AgentMessage") {
            self.say(content(&part(item, "content")).as_str(), at, false);
        } else if kind_is(item, "type", "Reasoning") {
            self.say(summarised(&part(item, "summary_text")).as_str(), at, true);
        }
    }

    fn ask(&mut self, question: bool, at: u64)
        ensures
            final(self)@ == asked(old(self)@, question, at),
    {
        proof {
            reveal(asked);
            reveal(progressed);
        }
        self.session.waiting_since = at;
        self.session.waiting_reason = if question {
            "Codex has a question for you".to_owned()
        } else {
            "Codex needs your approval".to_owned()
        };
        self.progress(at);
        assert(self@.session =~= asked(old(self)@, question, at).session);
        assert(self@ =~= asked(old(self)@, question, at));
    }

    fn fail(&mut self, p: &Json, at: u64)
        requires
            at <= i64::MAX,
        ensures
            final(self)@ == errored(old(self)@, p@, at),
    {
        proof {
            reveal(errored);
        }
        self.finish(p, at, true);
        self.session.activity = match text::summary_within(
            string(p, "message").as_str(),
            LINE_LIMIT,
        ) {
            Some(line) => line,
            None => "Turn failed".to_owned(),
        };
        assert(self@.session =~= errored(old(self)@, p@, at).session);
        assert(self@ =~= errored(old(self)@, p@, at));
    }

    fn prompt(&mut self, p: &Json, at: u64)
        ensures
            final(self)@ == prompted(old(self)@, p@, at),
    {
        proof {
            reveal(prompted);
        }
        let headline = match text::summary_within(string(p, "message").as_str(), LINE_LIMIT) {
            Some(line) => line,
            None => String::new(),
        };
        self.session.headline = headline;
        assert(self@ =~= (WatchView {
            session: SessionView { headline: headline@, ..old(self)@.session },
            ..old(self)@
        }));
        self.progress(at);
    }

    /// One event of the turn.
    #[verifier::spinoff_prover]
    pub fn event(&mut self, p: &Json, at: u64)
        requires
            at <= i64::MAX,
        ensures
            final(self)@ == evented(old(self)@, p@, at),
    {
        let held = string(p, "type");
        let kind = held.as_str();
        if strings::same(kind, "task_started") || strings::same(kind, "turn_started") {
            self.start(p, at);
        } else if strings::same(kind, "task_complete") || strings::same(kind, "turn_complete") {
            self.finish(p, at, false);
        } else if strings::same(kind, "turn_aborted") {
            self.finish(p, at, true);
        } else if strings::same(kind, "error") && !retries(p) {
            self.fail(p, at);
        } else if strings::same(kind, "user_message") {
            self.prompt(p, at);
        } else if strings::same(kind, "agent_message") {
            self.say(string(p, "message").as_str(), at, false);
        } else if strings::same(kind, "agent_reasoning") {
            self.say(string(p, "text").as_str(), at, true);
        } else if strings::same(kind, "token_count") && self.session.is_running() {
            self.progress(at);
        } else if strings::same(kind, "item_completed") {
            self.item(&part(p, "item"), at);
        } else if (strings::same(kind, "exec_approval_request") || strings::same(
            kind,
            "apply_patch_approval_request",
        ) || strings::same(kind, "request_user_input")) && self.session.is_running() {
            // Some versions persist these requests. Silence alone is never a
            // permission prompt: versions that omit them just keep Working.
            self.ask(strings::same(kind, "request_user_input"), at);
        } else {
            return ;
        }
        self.note_event(p);
    }

    fn call(&mut self, p: &Json, at: u64)
        requires
            old(self)@.session.tools < u64::MAX,
            old(self)@.session.turn_tools < u64::MAX,
        ensures
            final(self)@ == called(old(self)@, p@, at),
    {
        proof {
            reveal(called);
        }
        if !self.session.is_running() {
            return ;
        }
        let id = string(p, "call_id");
        let name = string(p, "name");
        if !id.as_str().is_empty() {
            if strings::holds(&self.calls, id.as_str()) {
                return ;
            }
            let ghost before = strings::views(self.calls@);
            self.calls.push(id.clone());
            assert(strings::views(self.calls@) =~= before.push(id@));
        }
        self.session.clear_pending();
        self.session.clear_permission();
        self.session.turn_tools = self.session.turn_tools + 1;
        self.session.tools = self.session.tools + 1;
        let kind = tool_kind(name.as_str());
        let activity = strings::concat3(kind, ": ", text::truncate(name.as_str(), 70).as_str());
        self.session.state = "running".to_owned();
        self.session.kind = kind.to_owned();
        self.session.push_recent("running", activity.as_str(), at);
        self.session.activity = activity;
        if strings::ends_with(name.as_str(), "request_user_input") {
            self.waiting_call = id;
            self.session.waiting_since = at;
            self.session.waiting_reason = match question(p) {
                Some(q) => q,
                None => "Codex has a question for you".to_owned(),
            };
        } else {
            self.waiting_call = String::new();
        }
        self.session.updated_ms = at;
        self.session.stalled = false;
        assert(self@.session =~= called(old(self)@, p@, at).session);
        assert(self@ =~= called(old(self)@, p@, at));
    }

    fn output(&mut self, p: &Json, at: u64)
        ensures
            final(self)@ == answered(old(self)@, p@, at),
    {
        proof {
            reveal(answered);
        }
        if !self.session.is_running() {
            return ;
        }
        let matching = kind_is(p, "call_id", self.waiting_call.as_str());
        if self.waiting_call.as_str().is_empty() || matching {
            self.session.waiting_since = 0;
            self.session.waiting_reason = String::new();
            self.waiting_call = String::new();
            assert(self@ =~= (WatchView {
                session: SessionView {
                    waiting_since: 0,
                    waiting_reason: seq![],
                    ..old(self)@.session
                },
                waiting_call: seq![],
                ..old(self)@
            }));
        }
        self.progress(at);
    }

    /// One item of the model's response.
    pub fn response(&mut self, p: &Json, at: u64)
        requires
            old(self)@.session.tools < u64::MAX,
            old(self)@.session.turn_tools < u64::MAX,
        ensures
            final(self)@ == responded(old(self)@, p@, at),
    {
        proof {
            lemma_response_kinds();
        }
        if kind_is(p, "type", "message") {
            if kind_is(p, "role", "assistant") {
                let words = content(&part(p, "content"));
                self.say(words.as_str(), at, false);
                if kind_is(p, "phase", "final_answer") {
                    self.detail(words.as_str());
                }
            }
        } else if kind_is(p, "type", "reasoning") {
            self.say(content(&part(p, "summary")).as_str(), at, true);
        } else if kind_is(p, "type", "function_call") || kind_is(p, "type", "custom_tool_call") {
            self.call(p, at);
        } else if kind_is(p, "type", "function_call_output") || kind_is(
            p,
            "type",
            "custom_tool_call_output",
        ) {
            self.output(p, at);
        }
    }

    fn introduce(&mut self, p: &Json, at: u64)
        ensures
            final(self)@ == introduced(old(self)@, p@, at),
    {
        proof {
            reveal(introduced);
        }
        let id = match p.text_at("id") {
            Some(id) => id.to_owned(),
            None => string(p, "session_id"),
        };
        let nested = match p.get("source") {
            Some(j) => j.is_object(),
            None => false,
        };
        self.accepted = plain_id(id.as_str()) && !nested && !kind_is(
            p,
            "thread_source",
            "guardian_review",
        ) && !kind_is(p, "thread_source", "subagent");
        if !self.accepted {
            assert(self@ =~= introduced(old(self)@, p@, at));
            return ;
        }
        let desktop = match p.text_at("originator") {
            Some(o) => strings::contains(strings::lower(o).as_str(), "desktop"),
            None => false,
        };
        let mut session = Session::default();
        session.session_id = strings::concat2("codex:", id.as_str());
        session.provider = Provider::Codex;
        if desktop {
            session.chat_id = id;
        }
        session.cwd = string(p, "cwd");
        session.state = "idle".to_owned();
        session.started_ms = at;
        session.updated_ms = at;
        self.session = session;
        self.unplaced = true;
        assert(self@.session =~= introduced(old(self)@, p@, at).session);
        assert(self@ =~= introduced(old(self)@, p@, at));
    }

    /// One record of the rollout, stamped with `at`.
    pub fn apply(&mut self, v: &Json, at: u64)
        requires
            at <= i64::MAX,
            old(self)@.session.tools < u64::MAX,
            old(self)@.session.turn_tools < u64::MAX,
        ensures
            final(self)@ == applied(old(self)@, v@, at),
    {
        proof {
            reveal_strlit("session_meta");
            reveal_strlit("event_msg");
            reveal_strlit("response_item");
            assert("session_meta"@.len() == 12 && "event_msg"@.len() == 9
                && "response_item"@.len() == 13);
        }
        let p = part(v, "payload");
        if kind_is(v, "type", "session_meta") {
            self.introduce(&p, at);
        } else if !self.accepted || at == 0 {
        } else if kind_is(v, "type", "event_msg") {
            self.event(&p, at);
        } else if kind_is(v, "type", "response_item") {
            self.response(&p, at);
        }
    }
}

proof fn lemma_response_kinds()
    ensures
        "message"@.len() == 7,
        "reasoning"@.len() == 9,
        "function_call"@.len() == 13,
        "custom_tool_call"@.len() == 16,
        "function_call_output"@.len() == 20,
        "custom_tool_call_output"@.len() == 23,
{
    reveal_strlit("message");
    reveal_strlit("reasoning");
    reveal_strlit("function_call");
    reveal_strlit("custom_tool_call");
    reveal_strlit("function_call_output");
    reveal_strlit("custom_tool_call_output");
}

fn retries(p: &Json) -> (r: bool)
    ensures
        r == (p@.field("will_retry"@) == JsonView::Bool(true)),
{
    match p.get("will_retry") {
        Some(j) => match j.as_bool() {
            Some(b) => b,
            None => false,
        },
        None => false,
    }
}

/// The first question in a tool call's arguments, once they have been read.
pub fn question_of(args: &Json) -> (r: Option<String>)
    ensures
        strings::opt_view(r) == question_in(args@),
{
    broadcast use json::lemma_view;

    match args.get("questions") {
        Some(Json::Array(questions)) => {
            let ghost all = json::list_view(questions@);
            if questions.len() == 0 {
                return None;
            }
            assert(all[0] == questions@[0]@);
            match questions[0].text_at("question") {
                Some(q) => text::summary_within(q, 180),
                None => None,
            }
        },
        _ => None,
    }
}

fn question(p: &Json) -> (r: Option<String>)
    ensures
        strings::opt_view(r) == first_question(p@),
{
    match p.text_at("arguments") {
        Some(s) => match json::parse(s) {
            Some(args) => question_of(&args),
            None => None,
        },
        None => None,
    }
}

// --- a stream of records ---------------------------------------------------
/// The watch with one record replayed, if the bytes are one.
#[verifier::opaque]
pub open spec fn replayed(w: WatchView, record: Seq<u8>) -> WatchView {
    match json::parsed(record) {
        Some(v) => applied(w, v, stamp_spec(v.field("timestamp"@))),
        None => w,
    }
}

/// The watch after one more byte. Only whole records are replayed, and one that
/// is too long is skipped.
pub open spec fn stepped(w: WatchView, byte: u8) -> WatchView {
    let full = w.pending.len() + 1 > MAX_RECORD;
    let oversized = w.oversized || full;
    let record = w.pending.push(byte);
    if byte != 0x0a {
        WatchView {
            pending: if w.oversized {
                w.pending
            } else if full {
                seq![]
            } else {
                record
            },
            oversized,
            ..w
        }
    } else {
        let cleared = WatchView { pending: seq![], oversized: false, ..w };
        if oversized {
            cleared
        } else {
            replayed(cleared, record)
        }
    }
}

/// The watch after some more bytes.
pub open spec fn fed(w: WatchView, bytes: Seq<u8>) -> WatchView
    decreases bytes.len(),
{
    if bytes.len() == 0 {
        w
    } else {
        stepped(fed(w, bytes.drop_last()), bytes.last())
    }
}

/// Whether the counters have room for the records in that many bytes.
pub open spec fn has_room(w: WatchView, n: nat) -> bool {
    w.session.tools + n <= u64::MAX && w.session.turn_tools + n <= u64::MAX
}

proof fn lemma_counts(w: WatchView, v: JsonView, at: u64)
    requires
        w.session.tools < u64::MAX,
        w.session.turn_tools < u64::MAX,
    ensures
        applied(w, v, at).session.tools <= w.session.tools + 1,
        applied(w, v, at).session.turn_tools <= w.session.turn_tools + 1,
        applied(w, v, at).pending == w.pending,
{
    reveal(progressed);
    reveal(said);
    reveal(started);
    reveal(ended);
    reveal(last_words);
    reveal(finished);
    reveal(item_said);
    reveal(asked);
    reveal(called);
    reveal(answered);
    reveal(introduced);
    reveal(errored);
    reveal(prompted);
    reveal(noted);
}

impl Watch {
    fn replay(&mut self, record: &Vec<u8>)
        requires
            has_room(old(self)@, 1),
        ensures
            final(self)@ == replayed(old(self)@, record@),
            final(self)@.session.tools <= old(self)@.session.tools + 1,
            final(self)@.session.turn_tools <= old(self)@.session.turn_tools + 1,
    {
        proof {
            reveal(replayed);
        }
        if let Some(v) = json::from_bytes(record.as_slice()) {
            let at: u64 = stamp(v.get("timestamp"));
            proof {
                lemma_counts(self@, v@, at);
            }
            self.apply(&v, at);
        }
    }

    fn step(&mut self, byte: u8)
        requires
            has_room(old(self)@, 1),
        ensures
            final(self)@ == stepped(old(self)@, byte),
            final(self)@.session.tools <= old(self)@.session.tools + 1,
            final(self)@.session.turn_tools <= old(self)@.session.turn_tools + 1,
    {
        let ghost w = self@;
        let skipping = self.oversized || self.pending.len() >= MAX_RECORD;
        if byte != 0x0a {
            if !self.oversized {
                if skipping {
                    self.pending = Vec::new();
                    assert(self@.pending =~= seq![]);
                } else {
                    self.pending.push(byte);
                }
            }
            self.oversized = skipping;
            assert(self@ =~= stepped(w, byte));
            return ;
        }
        let mut record: Vec<u8> = Vec::new();
        core::mem::swap(&mut record, &mut self.pending);
        self.oversized = false;
        assert(self@.pending =~= seq![]);
        assert(self@ =~= (WatchView { pending: seq![], oversized: false, ..w }));
        if !skipping {
            record.push(byte);
            self.replay(&record);
        }
    }

    /// Takes in the bytes that follow those already read.
    pub fn feed(&mut self, bytes: &[u8])
        requires
            has_room(old(self)@, bytes@.len()),
        ensures
            final(self)@ == fed(old(self)@, bytes@),
            final(self)@.session.tools <= old(self)@.session.tools + bytes@.len(),
            final(self)@.session.turn_tools <= old(self)@.session.turn_tools + bytes@.len(),
    {
        let ghost w = self@;
        let mut i: usize = 0;
        assert(bytes@.take(0) =~= seq![]);
        while i < bytes.len()
            invariant
                i <= bytes@.len(),
                has_room(w, bytes@.len()),
                self@ == fed(w, bytes@.take(i as int)),
                self@.session.tools <= w.session.tools + i,
                self@.session.turn_tools <= w.session.turn_tools + i,
            decreases bytes@.len() - i,
        {
            assert(bytes@.take(i + 1).drop_last() =~= bytes@.take(i as int));
            self.step(bytes[i]);
            i = i + 1;
        }
        assert(bytes@.take(i as int) =~= bytes@);
    }
}

/// How the bytes are cut up on the way makes no difference: reading them in
/// pieces is reading them at once.
pub proof fn reading_in_pieces_is_reading_at_once(w: WatchView, a: Seq<u8>, b: Seq<u8>)
    ensures
        fed(fed(w, a), b) == fed(w, a + b),
    decreases b.len(),
{
    if b.len() == 0 {
        assert(a + b =~= a);
    } else {
        reading_in_pieces_is_reading_at_once(w, a, b.drop_last());
        assert((a + b).drop_last() =~= a + b.drop_last());
        assert((a + b).last() == b.last());
    }
}

// --- following a file ------------------------------------------------------
/// Whether a file is not the one that was being read: it got shorter, or was
/// written anew at the same length.
pub open spec fn is_replaced(w: WatchView, length: u64, modified: Option<u64>) -> bool {
    length < w.offset || (length == w.offset && w.modified != modified)
}

/// The watch after the first record of a file of that length. A long file is
/// taken up near its end, where a record has been cut in two.
pub open spec fn headed(w: WatchView, head: Seq<u8>, length: u64) -> WatchView {
    let t = fed(w, head);
    let opened = WatchView { offset: head.len() as u64, ..t };
    if t.accepted && length > INITIAL_TAIL + head.len() {
        WatchView {
            offset: (length - INITIAL_TAIL) as u64,
            oversized: true,
            session: SessionView {
                turn_tools_partial: true,
                state: "thinking"@,
                ..opened.session
            },
            ..opened
        }
    } else {
        opened
    }
}

/// The watch once it is known whether there is more to read.
pub open spec fn settled(w: WatchView, length: u64, modified: Option<u64>) -> WatchView {
    if !w.accepted {
        WatchView { offset: length, modified, ready: true, ..w }
    } else if length == w.offset {
        WatchView { ready: true, ..w }
    } else {
        w
    }
}

impl Watch {
    /// Starts over when the file is another one.
    pub fn renew(&mut self, length: u64, modified: Option<u64>)
        ensures
            final(self)@ == (if is_replaced(old(self)@, length, modified) {
                unread()
            } else {
                old(self)@
            }),
    {
        let changed = match (self.modified, modified) {
            (Some(a), Some(b)) => a != b,
            (None, None) => false,
            _ => true,
        };
        if length < self.offset || (length == self.offset && changed) {
            *self = Watch::default();
        }
    }

    /// Takes in the first record of a file of that length. One that has not
    /// been written to its end is left for next time.
    pub fn open(&mut self, head: &[u8], length: u64) -> (r: bool)
        requires
            has_room(old(self)@, head@.len()),
            head@.len() <= MAX_RECORD,
        ensures
            r == (head@.len() > 0 && head@.last() == 0x0a),
            r ==> final(self)@ == headed(old(self)@, head@, length),
            !r ==> final(self)@ == old(self)@,
    {
        if head.len() == 0 || head[head.len() - 1] != 0x0a {
            return false;
        }
        let ghost w = self@;
        self.feed(head);
        let ghost t = self@;
        self.offset = head.len() as u64;
        if self.accepted && length > INITIAL_TAIL + self.offset {
            self.offset = length - INITIAL_TAIL;
            // Discard the partial record at the tail boundary.
            self.oversized = true;
            self.session.turn_tools_partial = true;
            self.session.state = "thinking".to_owned();
            assert(self@.session =~= headed(w, head@, length).session);
        }
        assert(self@ =~= headed(w, head@, length));
        true
    }

    /// Where to go on reading in a file of that length, if there is more.
    pub fn settle(&mut self, length: u64, modified: Option<u64>) -> (r: Option<u64>)
        ensures
            final(self)@ == settled(old(self)@, length, modified),
            r == (if old(self)@.accepted && length != old(self)@.offset {
                Some(old(self)@.offset)
            } else {
                None
            }),
    {
        if !self.accepted {
            self.offset = length;
            self.modified = modified;
            self.ready = true;
            assert(self@ =~= settled(old(self)@, length, modified));
            return None;
        }
        if length == self.offset {
            self.ready = true;
            assert(self@ =~= settled(old(self)@, length, modified));
            return None;
        }
        Some(self.offset)
    }

    /// Takes in what was read from there, of a file of that length.
    pub fn read(&mut self, bytes: &[u8], length: u64, modified: Option<u64>)
        requires
            has_room(old(self)@, bytes@.len()),
            old(self)@.offset + bytes@.len() <= u64::MAX,
        ensures
            ({
                let offset = (old(self)@.offset + bytes@.len()) as u64;
                final(self)@ == (WatchView {
                    ready: offset >= length,
                    ..fed((WatchView { offset, modified, ..old(self)@ }), bytes@)
                })
            }),
    {
        let ghost w = self@;
        let offset: u64 = self.offset + bytes.len() as u64;
        self.offset = offset;
        self.modified = modified;
        assert(self@ =~= (WatchView { offset, modified, ..w }));
        self.feed(bytes);
        let ghost t = self@;
        self.ready = offset >= length;
        assert(self@ =~= (WatchView { ready: offset >= length, ..t }));
    }

    /// Notes which project the session's folder belongs to.
    pub fn place(&mut self, project: &Project)
        ensures
            final(self)@ == (WatchView {
                unplaced: false,
                session: SessionView {
                    project: project@.name,
                    project_root: project@.root,
                    workspace: project@.workspace,
                    scratch: project@.scratch,
                    ..old(self)@.session
                },
                ..old(self)@
            }),
    {
        self.unplaced = false;
        self.session.project = project.name.clone();
        self.session.project_root = project.root.clone();
        self.session.workspace = project.workspace.clone();
        self.session.scratch = project.scratch;
        assert(self@.session =~= (SessionView {
            project: project@.name,
            project_root: project@.root,
            workspace: project@.workspace,
            scratch: project@.scratch,
            ..old(self)@.session
        }));
        assert(self@ =~= (WatchView { unplaced: false, session: self@.session, ..old(self)@ }));
    }
}

// --- what is shown ---------------------------------------------------------
/// What the session is heard to say.
pub open spec fn heard(w: WatchView, mode: Mode) -> Seq<char> {
    if mode == Mode::Off {
        seq![]
    } else if mode == Mode::Thoughts && w.thought_ms > w.speech_ms && w.thought.len() > 0
        && w.session.outcome.len() == 0 {
        w.thought
    } else {
        w.speech
    }
}

/// Whether a session that claims to be at work has not been heard of for too
/// long. A missing end of a turn means unknown, never a successful finish.
pub open spec fn is_stale(s: SessionView, now: u64) -> bool {
    state::running_state(s.state) && s.waiting_since == 0 && now > s.updated_ms && now
        - s.updated_ms > STALE_MS
}

pub open spec fn shown(w: WatchView, now: u64, mode: Mode) -> SessionView {
    if is_stale(w.session, now) {
        SessionView {
            state: "idle"@,
            stalled: true,
            activity: seq![],
            narration: seq![],
            ..w.session
        }
    } else {
        SessionView { narration: heard(w, mode), ..w.session }
    }
}

impl Watch {
    /// The session as it stands.
    pub fn snapshot(&self, now: u64, mode: Mode) -> (r: Session)
        ensures
            r@ == shown(self@, now, mode),
    {
        let mut s = self.session.copy();
        if s.is_running() && s.waiting_since == 0 && now > s.updated_ms && now - s.updated_ms
            > STALE_MS {
            s.state = "idle".to_owned();
            s.stalled = true;
            s.activity = String::new();
            s.narration = String::new();
        } else {
            s.narration = match mode {
                Mode::Off => String::new(),
                Mode::Speech => self.speech.clone(),
                Mode::Thoughts => if self.thought_ms > self.speech_ms
                    && !self.thought.as_str().is_empty() && s.outcome.as_str().is_empty() {
                    self.thought.clone()
                } else {
                    self.speech.clone()
                },
            };
        }
        assert(s@ =~= shown(self@, now, mode));
        s
    }
}

/// Whether a rollout is up to date, a conversation of its own, and recent.
pub open spec fn worth_showing(w: WatchView, now: u64) -> bool {
    w.ready && w.accepted && (now <= w.session.updated_ms || now - w.session.updated_ms
        <= RECENT_MS)
}

/// A session by the title its task has in the index.
pub open spec fn titled(s: SessionView, titles: Map<Seq<char>, String>) -> SessionView {
    let known = strings::begins(s.session_id, "codex:"@) && titles.dom().contains(
        s.session_id.skip(6),
    );
    SessionView {
        chat_title: if known {
            titles[s.session_id.skip(6)]@
        } else {
            s.chat_title
        },
        ..s
    }
}

fn entitle(s: &mut Session, titles: &Table<String>)
    ensures
        final(s)@ == titled(old(s)@, titles@),
{
    if strings::starts_with(s.session_id.as_str(), "codex:") {
        proof {
            reveal_strlit("codex:");
        }
        let v = strings::chars_of(s.session_id.as_str());
        let id = strings::slice(&v, 6, v.len());
        assert(id@ =~= s@.session_id.skip(6));
        if let Some(title) = titles.get(id.as_str()) {
            s.chat_title = title.clone();
        }
    }
    assert(s@ =~= titled(old(s)@, titles@));
}

/// What one rollout shows, if it is worth showing.
pub fn present(watch: &Watch, titles: &Table<String>, now: u64, mode: Mode) -> (r: Option<Session>)
    ensures
        (match r {
            Some(s) => Some(s@),
            None => None,
        }) == (if worth_showing(watch@, now) {
            Some(titled(shown(watch@, now, mode), titles@))
        } else {
            None
        }),
{
    if !watch.ready || !watch.accepted || (now > watch.session.updated_ms && now
        - watch.session.updated_ms > RECENT_MS) {
        return None;
    }
    let mut s = watch.snapshot(now, mode);
    entitle(&mut s, titles);
    Some(s)
}

// --- what holds of every rollout -------------------------------------------
/// Only an explicit completion finishes a turn, and only an explicit
/// interruption or a terminal error fails one.
pub proof fn only_a_completion_is_done(w: WatchView, v: JsonView, at: u64)
    requires
        applied(w, v, at).session.outcome != w.session.outcome,
        applied(w, v, at).session.outcome.len() > 0,
    ensures
        v.text_at("type"@) == Some("event_msg"@),
        ({
            let kind = string_at(v.field("payload"@), "type"@);
            let outcome = applied(w, v, at).session.outcome;
            ||| outcome == "done"@ && (kind == "task_complete"@ || kind == "turn_complete"@)
            ||| outcome == "failed"@ && (kind == "turn_aborted"@ || kind == "error"@)
        }),
{
    reveal(progressed);
    reveal(said);
    reveal(started);
    reveal(ended);
    reveal(last_words);
    reveal(finished);
    reveal(item_said);
    reveal(asked);
    reveal(called);
    reveal(answered);
    reveal(introduced);
    reveal(errored);
    reveal(prompted);
    reveal(noted);
}

/// Silence never becomes a finish: a session that stopped responding is shown
/// with the outcome it had.
pub proof fn silence_is_never_done(w: WatchView, now: u64, mode: Mode)
    ensures
        shown(w, now, mode).outcome == w.session.outcome,
        is_stale(w.session, now) ==> shown(w, now, mode).stalled,
        w.session.waiting_since > 0 ==> shown(w, now, mode).state == w.session.state
            && shown(w, now, mode).stalled == w.session.stalled,
{
}

/// A new turn clears everything of the one before it.
pub proof fn a_new_turn_clears_everything(w: WatchView, p: JsonView, at: u64)
    requires
        string_at(p, "turn_id"@).len() == 0 || string_at(p, "turn_id"@) != w.session.prompt_id,
    ensures
        ({
            let s = started(w, p, at).session;
            &&& s.outcome.len() == 0
            &&& s.detail.len() == 0
            &&& s.headline.len() == 0
            &&& s.turn_tools == 0
            &&& s.turn_ended_ms == 0
            &&& s.turn_started_ms == at
            &&& s.waiting_since == 0
            &&& s.pending_since == 0
        }),
        started(w, p, at).speech.len() == 0,
        started(w, p, at).thought.len() == 0,
{
    reveal(started);
}

/// A delayed completion of another turn finishes nothing.
pub proof fn a_belated_completion_finishes_nothing(w: WatchView, p: JsonView, at: u64, failed: bool)
    requires
        belated(w, p),
    ensures
        finished(w, p, at, failed) == w,
{
    reveal(finished);
}

/// A tool call is counted once, however often it is recorded.
pub proof fn a_call_counts_once(w: WatchView, p: JsonView, at: u64, again: u64)
    requires
        string_at(p, "call_id"@).len() > 0,
        state::running_state(w.session.state),
    ensures
        called(called(w, p, at), p, again) == called(w, p, at),
{
    reveal(called);
    let id = string_at(p, "call_id"@);
    let t = called(w, p, at);
    if !w.calls.contains(id) {
        assert(t.calls[w.calls.len() as int] == id);
        assert(t.calls.contains(id));
    }
}

/// A question waits for its own answer: the output of another call leaves it
/// standing.
pub proof fn a_question_waits_for_its_answer(w: WatchView, p: JsonView, at: u64)
    requires
        w.waiting_call.len() > 0,
        p.text_at("call_id"@) != Some(w.waiting_call),
    ensures
        answered(w, p, at).session.waiting_since == w.session.waiting_since,
        answered(w, p, at).session.waiting_reason == w.session.waiting_reason,
        answered(w, p, at).waiting_call == w.waiting_call,
{
    reveal(answered);
    reveal(progressed);
}

/// A rollout's session can never be taken for a hook's: the hook keeps its
/// sessions under names that hold no colon.
pub proof fn ids_never_collide(w: WatchView, p: JsonView, at: u64, id: Seq<char>)
    requires
        own_conversation(p),
    ensures
        introduced(w, p, at).session.session_id != state::sanitized(id),
{
    reveal(introduced);
    reveal_strlit("codex:");
    state::sanitized_names_are_plain(id);
    let name = introduced(w, p, at).session.session_id;
    assert(name[5] == ':');
    if name == state::sanitized(id) {
        assert(state::name_char(state::sanitized(id)[5]));
    }
}

/// What is not whole JSON changes nothing: a line that cannot be read leaves
/// the session as it was.
pub proof fn a_malformed_record_changes_nothing(w: WatchView, record: Seq<u8>)
    requires
        json::parsed(record) is None,
    ensures
        replayed(w, record) == w,
{
    reveal(replayed);
}

/// The folder that Codex keeps its tasks in, where a variable names one;
/// otherwise it is `.codex` in the home directory.
pub fn home(variable: Option<&str>) -> (r: Option<String>)
    ensures
        strings::opt_view(r) == (match variable {
            Some(path) => if path@.len() > 0 {
                Some(path@)
            } else {
                None
            },
            None => None,
        }),
{
    match variable {
        Some(path) => if path.is_empty() {
            None
        } else {
            Some(path.to_owned())
        },
        None => None,
    }
}

} // verus!
