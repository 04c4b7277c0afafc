//! The hook side: translate one hook payload into a pet state plus a
//! human-readable activity line, and fold it into what is known of the session.
//!
//! One call per hook event, so it must be cheap, silent, and incapable of
//! failing loudly.

use vstd::prelude::*;
use vstd::string::*;

use crate::json;
use crate::json::{Json, JsonView};
use crate::project;
use crate::project::{Project, ProjectView};
use crate::risk;
use crate::state;
use crate::state::{EntryView, Session, SessionView};
use crate::strings;
use crate::text;

verus! {

// --- reading a payload -----------------------------------------------------
/// The text in that field of a payload, or nothing.
pub open spec fn text_of(payload: JsonView, key: Seq<char>) -> Seq<char> {
    match payload.text_at(key) {
        Some(s) => s,
        None => seq![],
    }
}

/// The text in that field of a tool's input, or nothing.
pub open spec fn input_text(input: Option<JsonView>, key: Seq<char>) -> Seq<char> {
    match input {
        Some(j) => text_of(j, key),
        None => seq![],
    }
}

fn text(payload: &Json, key: &str) -> (r: String)
    ensures
        r@ == text_of(payload@, key@),
{
    match payload.text_at(key) {
        Some(s) => s.to_owned(),
        None => String::new(),
    }
}

fn field(input: Option<&Json>, key: &str) -> (r: String)
    ensures
        r@ == input_text(json::opt_json(input), key@),
{
    match input {
        Some(j) => text(j, key),
        None => String::new(),
    }
}

// --- words for a tool call -------------------------------------------------
/// One tool call, in the three tenses the bubble needs: "Editing clock.js",
/// "Edited clock.js", "…permission to edit clock.js".
pub struct Phrase {
    pub present: String,
    pub past: String,
    pub infinitive: String,
}

#[verifier::ext_equal]
pub struct PhraseView {
    pub present: Seq<char>,
    pub past: Seq<char>,
    pub infinitive: Seq<char>,
}

impl View for Phrase {
    type V = PhraseView;

    open spec fn view(&self) -> PhraseView {
        PhraseView { present: self.present@, past: self.past@, infinitive: self.infinitive@ }
    }
}

/// A verb with its object; without one, the verb alone and no colon behind it.
pub open spec fn verb_object(verb: Seq<char>, object: Seq<char>) -> Seq<char> {
    let o = strings::trimmed(object);
    if o.len() == 0 {
        strings::drop_end(verb, strings::one_of(seq![':']))
    } else {
        verb + " "@ + o
    }
}

pub open spec fn forms_spec(
    ing: Seq<char>,
    ed: Seq<char>,
    base: Seq<char>,
    object: Seq<char>,
) -> PhraseView {
    PhraseView {
        present: verb_object(ing, object),
        past: verb_object(ed, object),
        infinitive: verb_object(base, object),
    }
}

fn join(verb: &str, object: &str) -> (r: String)
    ensures
        r@ == verb_object(verb@, object@),
{
    let o = strings::trim(object);
    if o.as_str().is_empty() {
        let colon: Vec<char> = vec![':'];
        assert(colon@ =~= seq![':']);
        strings::trim_end_of(verb, &colon)
    } else {
        strings::concat3(verb, " ", o.as_str())
    }
}

fn forms(ing: &str, ed: &str, base: &str, object: &str) -> (r: Phrase)
    ensures
        r@ == forms_spec(ing@, ed@, base@, object@),
{
    Phrase { present: join(ing, object), past: join(ed, object), infinitive: join(base, object) }
}

/// A value cut to fit, or what stands in for a missing one.
pub open spec fn short_spec(value: Seq<char>, fallback: Seq<char>) -> Seq<char> {
    if value.len() == 0 {
        fallback
    } else {
        text::truncated(value, 40)
    }
}

fn short(value: &str, fallback: &str) -> (r: String)
    ensures
        r@ == short_spec(value@, fallback@),
{
    if value.is_empty() {
        fallback.to_owned()
    } else {
        text::truncate(value, 40)
    }
}

/// What stands behind the last `//`, taken from the left.
pub open spec fn schemeless(url: Seq<char>) -> Seq<char>
    decreases url.len(),
{
    proof {
        strings::lemma_find(url, "//"@);
        reveal_strlit("//");
    }
    match strings::find_spec(url, "//"@) {
        Some(i) => schemeless(url.skip(i + 2)),
        None => url,
    }
}

/// The host a page is on.
pub open spec fn host_spec(url: Seq<char>) -> Seq<char> {
    let rest = schemeless(url);
    let host = rest.take(strings::position(rest, '/'));
    if host.len() == 0 {
        "a page"@
    } else {
        host
    }
}

pub fn host_of(url: &str) -> (r: String)
    ensures
        r@ == host_spec(url@),
{
    let mut rest: String = url.to_owned();
    proof {
        reveal_strlit("//");
    }
    loop
        invariant
            schemeless(rest@) == schemeless(url@),
            "//"@.len() == 2,
        decreases rest@.len(),
    {
        proof {
            strings::lemma_find(rest@, "//"@);
        }
        let v = strings::chars_of(rest.as_str());
        match strings::find(rest.as_str(), "//") {
            Some(i) => {
                rest = strings::slice(&v, i + 2, v.len());
                assert(rest@ =~= v@.skip(i + 2));
            },
            None => {
                assert(v@.skip(0) =~= v@);
                let end: usize = strings::index_of(&v, 0, '/');
                let host = strings::slice(&v, 0, end);
                assert(host@ =~= v@.take(end as int));
                return if end == 0 {
                    "a page".to_owned()
                } else {
                    host
                };
            },
        }
    }
}

/// What comes before the first `__`, and what comes behind it.
pub open spec fn halves(s: Seq<char>) -> (Seq<char>, Option<Seq<char>>) {
    match strings::find_spec(s, "__"@) {
        Some(i) => (s.take(i), Some(s.skip(i + 2))),
        None => (s, None),
    }
}

fn split_halves(s: &str) -> (r: (String, Option<String>))
    ensures
        r.0@ == halves(s@).0,
        strings::opt_view(r.1) == halves(s@).1,
{
    let v = strings::chars_of(s);
    proof {
        strings::lemma_find(s@, "__"@);
        reveal_strlit("__");
    }
    match strings::find(s, "__") {
        Some(i) => {
            let a = strings::slice(&v, 0, i);
            let b = strings::slice(&v, i + 2, v.len());
            assert(a@ =~= s@.take(i as int));
            assert(b@ =~= s@.skip(i + 2));
            (a, Some(b))
        },
        None => (s.to_owned(), None),
    }
}

/// The part of an MCP tool's name behind its prefix.
pub open spec fn mcp_rest(tool: Seq<char>) -> Option<Seq<char>> {
    if strings::begins(tool, "mcp__"@) {
        Some(tool.skip(5))
    } else {
        None
    }
}

fn strip_mcp(tool: &str) -> (r: Option<String>)
    ensures
        strings::opt_view(r) == mcp_rest(tool@),
{
    if strings::starts_with(tool, "mcp__") {
        proof {
            reveal_strlit("mcp__");
        }
        let v = strings::chars_of(tool);
        let rest = strings::slice(&v, 5, v.len());
        assert(rest@ =~= tool@.skip(5));
        Some(rest)
    } else {
        None
    }
}

/// The coarse category behind the status line.
pub open spec fn kind_spec(tool: Seq<char>) -> Seq<char> {
    match mcp_rest(tool) {
        Some(rest) => "Calling "@ + halves(rest).0,
        None => if tool == "Read"@ || tool == "Glob"@ || tool == "Grep"@ || tool
            == "NotebookRead"@ {
            "Reading"@
        } else if tool == "Edit"@ || tool == "Write"@ || tool == "MultiEdit"@ || tool
            == "NotebookEdit"@ {
            "Editing"@
        } else if tool == "Bash"@ || tool == "PowerShell"@ {
            "Running"@
        } else if tool == "WebFetch"@ || tool == "WebSearch"@ {
            "Browsing"@
        } else if tool == "Task"@ || tool == "Agent"@ {
            "Delegating"@
        } else if tool == "Skill"@ {
            "Running a skill"@
        } else if tool == "TodoWrite"@ || tool == "TaskCreate"@ || tool == "TaskUpdate"@ || tool
            == "TaskList"@ || tool == "TaskGet"@ {
            "Planning"@
        } else {
            "Working"@
        },
    }
}

/// The coarse category behind the status line. Several different tools map to
/// one word: it should survive a whole stretch of work, so the only thing
/// moving is the counter next to it.
pub fn kind_of(tool: &str) -> (r: String)
    ensures
        r@ == kind_spec(tool@),
{
    if let Some(rest) = strip_mcp(tool) {
        let (server, _) = split_halves(rest.as_str());
        return strings::concat2("Calling ", server.as_str());
    }
    let word = if strings::same(tool, "Read") || strings::same(tool, "Glob") || strings::same(
        tool,
        "Grep",
    ) || strings::same(tool, "NotebookRead") {
        "Reading"
    } else if strings::same(tool, "Edit") || strings::same(tool, "Write") || strings::same(
        tool,
        "MultiEdit",
    ) || strings::same(tool, "NotebookEdit") {
        "Editing"
    } else if strings::same(tool, "Bash") || strings::same(tool, "PowerShell") {
        "Running"
    } else if strings::same(tool, "WebFetch") || strings::same(tool, "WebSearch") {
        "Browsing"
    } else if strings::same(tool, "Task") || strings::same(tool, "Agent") {
        "Delegating"
    } else if strings::same(tool, "Skill") {
        "Running a skill"
    } else if strings::same(tool, "TodoWrite") || strings::same(tool, "TaskCreate")
        || strings::same(tool, "TaskUpdate") || strings::same(tool, "TaskList") || strings::same(
        tool,
        "TaskGet",
    ) {
        "Planning"
    } else {
        "Working"
    };
    word.to_owned()
}

pub open spec fn file_name(path: Seq<char>, fallback: Seq<char>) -> Seq<char> {
    if path.len() == 0 {
        fallback
    } else {
        text::basename_spec(path)
    }
}

/// A tool call in words.
pub open spec fn phrase_spec(tool: Seq<char>, input: Option<JsonView>) -> PhraseView {
    match mcp_rest(tool) {
        Some(rest) => {
            let name = match halves(rest).1 {
                Some(name) => name,
                None => "call"@,
            };
            forms_spec(
                "Calling"@,
                "Called"@,
                "call"@,
                halves(rest).0 + ": "@ + strings::replaced(name, '_', ' '),
            )
        },
        None => if tool == "Bash"@ || tool == "PowerShell"@ {
            let described = input_text(input, "description"@);
            let shown = if described.len() == 0 {
                input_text(input, "command"@)
            } else {
                described
            };
            forms_spec("Running:"@, "Ran:"@, "run:"@, text::truncated(shown, 64))
        } else if tool == "Read"@ {
            forms_spec(
                "Reading"@,
                "Read"@,
                "read"@,
                file_name(input_text(input, "file_path"@), "a file"@),
            )
        } else if tool == "Edit"@ {
            forms_spec(
                "Editing"@,
                "Edited"@,
                "edit"@,
                file_name(input_text(input, "file_path"@), "a file"@),
            )
        } else if tool == "Write"@ {
            forms_spec(
                "Writing"@,
                "Wrote"@,
                "write"@,
                file_name(input_text(input, "file_path"@), "a file"@),
            )
        } else if tool == "NotebookEdit"@ {
            forms_spec(
                "Editing"@,
                "Edited"@,
                "edit"@,
                file_name(input_text(input, "notebook_path"@), "a notebook"@),
            )
        } else if tool == "Glob"@ {
            forms_spec(
                "Finding"@,
                "Found"@,
                "find"@,
                short_spec(input_text(input, "pattern"@), "files"@),
            )
        } else if tool == "Grep"@ {
            forms_spec(
                "Searching for"@,
                "Searched for"@,
                "search for"@,
                text::truncated(input_text(input, "pattern"@), 40),
            )
        } else if tool == "WebFetch"@ {
            forms_spec("Fetching"@, "Fetched"@, "fetch"@, host_spec(input_text(input, "url"@)))
        } else if tool == "WebSearch"@ {
            forms_spec(
                "Searching the web for"@,
                "Searched the web for"@,
                "search the web for"@,
                text::truncated(input_text(input, "query"@), 40),
            )
        } else if tool == "Task"@ || tool == "Agent"@ {
            forms_spec(
                "Delegating to"@,
                "Heard back from"@,
                "delegate to"@,
                short_spec(input_text(input, "subagent_type"@), "a subagent"@),
            )
        } else if tool == "Skill"@ {
            forms_spec(
                "Running skill"@,
                "Ran skill"@,
                "run skill"@,
                input_text(input, "skill"@),
            )
        } else if tool == "TodoWrite"@ || tool == "TaskCreate"@ || tool == "TaskUpdate"@ {
            forms_spec("Updating"@, "Updated"@, "update"@, "tasks"@)
        } else if tool.len() == 0 {
            forms_spec("Working"@, "Worked"@, "work"@, seq![])
        } else {
            PhraseView {
                present: tool,
                past: tool + " finished"@,
                infinitive: "use "@ + tool,
            }
        },
    }
}

pub fn phrase(tool: &str, input: Option<&Json>) -> (r: Phrase)
    ensures
        r@ == phrase_spec(tool@, json::opt_json(input)),
{
    if let Some(rest) = strip_mcp(tool) {
        let (server, name) = split_halves(rest.as_str());
        let name = match name {
            Some(n) => n,
            None => "call".to_owned(),
        };
        let spaced = strings::replace_char(name.as_str(), '_', ' ');
        let object = strings::concat3(server.as_str(), ": ", spaced.as_str());
        return forms("Calling", "Called", "call", object.as_str());
    }
    if strings::same(tool, "Bash") || strings::same(tool, "PowerShell") {
        let description = field(input, "description");
        let shown = if description.as_str().is_empty() {
            field(input, "command")
        } else {
            description
        };
        forms("Running:", "Ran:", "run:", text::truncate(shown.as_str(), 64).as_str())
    } else if strings::same(tool, "Read") {
        let file = text::basename_or(field(input, "file_path").as_str(), "a file");
        forms("Reading", "Read", "read", file.as_str())
    } else if strings::same(tool, "Edit") {
        let file = text::basename_or(field(input, "file_path").as_str(), "a file");
        forms("Editing", "Edited", "edit", file.as_str())
    } else if strings::same(tool, "Write") {
        let file = text::basename_or(field(input, "file_path").as_str(), "a file");
        forms("Writing", "Wrote", "write", file.as_str())
    } else if strings::same(tool, "NotebookEdit") {
        let file = text::basename_or(field(input, "notebook_path").as_str(), "a notebook");
        forms("Editing", "Edited", "edit", file.as_str())
    } else if strings::same(tool, "Glob") {
        let pattern = short(field(input, "pattern").as_str(), "files");
        forms("Finding", "Found", "find", pattern.as_str())
    } else if strings::same(tool, "Grep") {
        let pattern = text::truncate(field(input, "pattern").as_str(), 40);
        forms("Searching for", "Searched for", "search for", pattern.as_str())
    } else if strings::same(tool, "WebFetch") {
        let host = host_of(field(input, "url").as_str());
        forms("Fetching", "Fetched", "fetch", host.as_str())
    } else if strings::same(tool, "WebSearch") {
        let query = text::truncate(field(input, "query").as_str(), 40);
        forms(
            "Searching the web for",
            "Searched the web for",
            "search the web for",
            query.as_str(),
        )
    } else if strings::same(tool, "Task") || strings::same(tool, "Agent") {
        let agent = short(field(input, "subagent_type").as_str(), "a subagent");
        forms("Delegating to", "Heard back from", "delegate to", agent.as_str())
    } else if strings::same(tool, "Skill") {
        let skill = field(input, "skill");
        forms("Running skill", "Ran skill", "run skill", skill.as_str())
    } else if strings::same(tool, "TodoWrite") || strings::same(tool, "TaskCreate")
        || strings::same(tool, "TaskUpdate") {
        forms("Updating", "Updated", "update", "tasks")
    } else if tool.is_empty() {
        proof {
            reveal_strlit("");
            assert(""@ =~= seq![]);
        }
        forms("Working", "Worked", "work", "")
    } else {
        Phrase {
            present: tool.to_owned(),
            past: strings::concat2(tool, " finished"),
            infinitive: strings::concat2("use ", tool),
        }
    }
}

// --- what an event says ----------------------------------------------------
/// One state change.
///
/// Every field is optional. Most events answer only one of "what is it doing",
/// "how did the turn end", and "is a human blocking it", and an event that is
/// silent on a question must leave the existing answer alone.
/// Collapsing all three into a single `state` field is what let a card get
/// stuck on an alert that nothing ever cleared.
pub struct Update {
    /// New durable state. Empty leaves it unchanged.
    pub state: String,
    /// The word on the status line. Kept coarse.
    pub kind: String,
    pub activity: String,
    pub detail: String,
    /// `None` for the many events that should not disturb what the card says
    /// the turn is about.
    pub headline: Option<String>,
    /// How the turn ended, and how long to treat that as provisional.
    pub outcome: String,
    pub settle_ms: u64,
    /// Why a human is blocking. Empty means "not waiting".
    pub waiting: String,
    /// True when the only thing this wait needs is another turn: the idle
    /// prompt raised at the end of every turn, foreground or not. A background
    /// agent's supervisor answers that itself, so for those sessions it is not
    /// a wait on anybody. A permission prompt is never this: nothing but a
    /// decision resolves one.
    pub resumable: bool,
    /// Whether a subagent came (1) or went (-1).
    pub subagents: i64,
    /// A tool failed mid-turn. Not a failed turn, and not counted anywhere:
    /// it only decides how this line is coloured in the log.
    pub hiccup: bool,
    /// The auto-mode classifier refused a tool call. Counted on the card.
    pub blocked: bool,
    /// A permission prompt was raised for this tool. Empty means "no change".
    pub permission: String,
    pub permission_detail: String,
    pub permission_risk: String,
    /// Record the event, but leave everything the card displays alone.
    pub silent: bool,
}

#[verifier::ext_equal]
pub struct UpdateView {
    pub state: Seq<char>,
    pub kind: Seq<char>,
    pub activity: Seq<char>,
    pub detail: Seq<char>,
    pub headline: Option<Seq<char>>,
    pub outcome: Seq<char>,
    pub settle_ms: u64,
    pub waiting: Seq<char>,
    pub resumable: bool,
    pub subagents: i64,
    pub hiccup: bool,
    pub blocked: bool,
    pub permission: Seq<char>,
    pub permission_detail: Seq<char>,
    pub permission_risk: Seq<char>,
    pub silent: bool,
}

impl View for Update {
    type V = UpdateView;

    open spec fn view(&self) -> UpdateView {
        UpdateView {
            state: self.state@,
            kind: self.kind@,
            activity: self.activity@,
            detail: self.detail@,
            headline: strings::opt_view(self.headline),
            outcome: self.outcome@,
            settle_ms: self.settle_ms,
            waiting: self.waiting@,
            resumable: self.resumable,
            subagents: self.subagents,
            hiccup: self.hiccup,
            blocked: self.blocked,
            permission: self.permission@,
            permission_detail: self.permission_detail@,
            permission_risk: self.permission_risk@,
            silent: self.silent,
        }
    }
}

/// An event that says nothing.
pub open spec fn nothing() -> UpdateView {
    UpdateView {
        state: seq![],
        kind: seq![],
        activity: seq![],
        detail: seq![],
        headline: None,
        outcome: seq![],
        settle_ms: 0,
        waiting: seq![],
        resumable: false,
        subagents: 0,
        hiccup: false,
        blocked: false,
        permission: seq![],
        permission_detail: seq![],
        permission_risk: seq![],
        silent: false,
    }
}

impl Default for Update {
    fn default() -> (r: Update)
        ensures
            r@ == nothing(),
    {
        let r = Update {
            state: String::new(),
            kind: String::new(),
            activity: String::new(),
            detail: String::new(),
            headline: None,
            outcome: String::new(),
            settle_ms: 0,
            waiting: String::new(),
            resumable: false,
            subagents: 0,
            hiccup: false,
            blocked: false,
            permission: String::new(),
            permission_detail: String::new(),
            permission_risk: String::new(),
            silent: false,
        };
        assert(r@ =~= nothing());
        r
    }
}

/// An event that only says what is being done.
pub open spec fn live_spec(state: Seq<char>, kind: Seq<char>, activity: Seq<char>) -> UpdateView {
    UpdateView { state, kind, activity, ..nothing() }
}

fn live(state: &str, kind: &str, activity: &str) -> (r: Update)
    ensures
        r@ == live_spec(state@, kind@, activity@),
{
    let mut u = Update::default();
    u.state = state.to_owned();
    u.kind = kind.to_owned();
    u.activity = activity.to_owned();
    assert(u@ =~= live_spec(state@, kind@, activity@));
    u
}

/// The command a shell tool's call would run, if it is one.
pub open spec fn command_spec(tool: Seq<char>, input: Option<JsonView>) -> Option<Seq<char>> {
    if tool == "Bash"@ || tool == "PowerShell"@ {
        match input {
            Some(j) => j.text_at("command"@),
            None => None,
        }
    } else {
        None
    }
}

pub fn bash_command(tool: &str, input: Option<&Json>) -> (r: Option<String>)
    ensures
        strings::opt_view(r) == command_spec(tool@, json::opt_json(input)),
{
    if !strings::same(tool, "Bash") && !strings::same(tool, "PowerShell") {
        return None;
    }
    match input {
        Some(j) => match j.text_at("command") {
            Some(s) => Some(s.to_owned()),
            None => None,
        },
        None => None,
    }
}

/// Why the command of a tool call cannot be taken back, or nothing.
pub open spec fn risk_spec(tool: Seq<char>, input: Option<JsonView>) -> Seq<char> {
    match command_spec(tool, input) {
        Some(command) => match risk::reason_of(command) {
            Some(reason) => reason,
            None => seq![],
        },
        None => seq![],
    }
}

fn risk_of(tool: &str, input: Option<&Json>) -> (r: String)
    ensures
        r@ == risk_spec(tool@, json::opt_json(input)),
{
    match bash_command(tool, input) {
        Some(command) => match risk::irreversible(command.as_str()) {
            Some(reason) => reason.to_owned(),
            None => String::new(),
        },
        None => String::new(),
    }
}

// --- how a turn ends -------------------------------------------------------
/// What a `Stop` event actually means.
pub enum Stop {
    /// The agent will keep going. There is nothing to celebrate yet.
    KeepWorking(String),
    /// The turn is over. `settle_ms` holds the result provisional for a
    /// moment so a follow-up event can cancel it.
    Finished { settle_ms: u64 },
}

pub enum StopView {
    KeepWorking(Seq<char>),
    Finished { settle_ms: u64 },
}

impl View for Stop {
    type V = StopView;

    open spec fn view(&self) -> StopView {
        match self {
            Stop::KeepWorking(reason) => StopView::KeepWorking(reason@),
            Stop::Finished { settle_ms } => StopView::Finished { settle_ms: *settle_ms },
        }
    }
}

pub open spec fn filled_list(payload: JsonView, key: Seq<char>) -> bool {
    match payload.field(key).list() {
        Some(items) => items.len() > 0,
        None => false,
    }
}

/// How long a finished turn is held provisional. A blocking stop hook can veto
/// the stop and have the turn carry straight on, and without the hold every
/// vetoed stop flashes a Done card that the next tool event wipes.
pub const SETTLE_MS: u64 = 2_000;

/// `Stop` does not reliably mean "turn finished": scheduled work keeps the
/// session going, and so do background tasks when nothing was said. A stop hook
/// that is active has had its say already, and the stop it comes with ends the
/// turn.
pub open spec fn disposition(payload: JsonView, last_message: Seq<char>) -> StopView {
    if filled_list(payload, "session_crons"@) {
        StopView::KeepWorking("Scheduled work still running"@)
    } else if payload.field("stop_hook_active"@).boolean() != Some(true) && filled_list(
        payload,
        "background_tasks"@,
    ) && strings::trimmed(last_message).len() == 0 {
        StopView::KeepWorking("Background tasks still running"@)
    } else {
        StopView::Finished { settle_ms: SETTLE_MS }
    }
}

fn non_empty_list(payload: &Json, key: &str) -> (r: bool)
    ensures
        r == filled_list(payload@, key@),
{
    match payload.get(key) {
        Some(j) => match j.as_array() {
            Some(items) => {
                assert(json::list_view(items@).len() == items@.len());
                items.len() > 0
            },
            None => false,
        },
        None => false,
    }
}

/// `Stop` does not reliably mean "turn finished".
///
/// It is fired whenever the assistant yields the floor, which
/// includes cases where it is about to immediately continue. Three payload
/// fields say so, and taking them at face value is the difference between a
/// pet that reports completions and a pet that guesses at them.
pub fn stop_disposition(payload: &Json, last_message: &str) -> (r: Stop)
    ensures
        r@ == disposition(payload@, last_message@),
{
    if non_empty_list(payload, "session_crons") {
        return Stop::KeepWorking("Scheduled work still running".to_owned());
    }
    let vetoed = match payload.get("stop_hook_active") {
        Some(j) => match j.as_bool() {
            Some(b) => b,
            None => false,
        },
        None => false,
    };
    if !vetoed && non_empty_list(payload, "background_tasks") && strings::trim(
        last_message,
    ).as_str().is_empty() {
        return Stop::KeepWorking("Background tasks still running".to_owned());
    }
    // It said its piece, even if something is still finishing behind it.
    Stop::Finished { settle_ms: SETTLE_MS }
}

// --- one event, classified -------------------------------------------------
pub open spec fn waiting_for(reason: Seq<char>) -> UpdateView {
    UpdateView { activity: reason, waiting: reason, ..nothing() }
}

/// The turn simply ended. For a foreground chat that means the person is up;
/// for a background agent it means the supervisor is.
pub open spec fn turn_over(reason: Seq<char>) -> UpdateView {
    UpdateView { resumable: true, ..waiting_for(reason) }
}

/// What a notification says. Its type may be absent; the message then has to
/// tell.
pub open spec fn notified(kind: Seq<char>, message: Seq<char>) -> Option<UpdateView> {
    let lower = strings::lowered(message);
    if kind == "permission_prompt"@ {
        Some(
            waiting_for(
                if message.len() == 0 {
                    "Waiting for permission"@
                } else {
                    message
                },
            ),
        )
    } else if kind == "idle_prompt"@ {
        Some(turn_over("Waiting for your reply"@))
    } else if kind == "agent_needs_input"@ {
        Some(waiting_for("A teammate needs input"@))
    } else if kind.len() == 0 && message.len() > 0 {
        if strings::has(lower, "permission"@) {
            Some(waiting_for(message))
        } else if strings::has(lower, "waiting for your"@) || strings::has(lower, "input"@) {
            Some(turn_over("Waiting for your reply"@))
        } else {
            None
        }
    } else {
        None
    }
}

/// What a stop says, given what it means.
pub open spec fn stopped(stop: StopView, message: Seq<char>) -> UpdateView {
    match stop {
        StopView::KeepWorking(reason) => live_spec("running"@, "Working"@, reason),
        StopView::Finished { settle_ms } => UpdateView {
            state: "idle"@,
            kind: "Done"@,
            detail: text::truncated(message, 600),
            headline: text::summary_spec(message, 90),
            outcome: "done"@,
            settle_ms,
            ..nothing()
        },
    }
}

pub open spec fn first_line_spec(s: Seq<char>) -> Seq<char> {
    text::first_filled(strings::lines_spec(s))
}

/// What a prompt says the turn is about.
pub open spec fn prompted(prompt: Seq<char>) -> UpdateView {
    UpdateView {
        state: "thinking"@,
        kind: "Thinking"@,
        activity: "Thinking…"@,
        detail: text::truncated(prompt, 400),
        headline: Some(
            match text::summary_spec(prompt, 90) {
                Some(s) => s,
                None => text::truncated(first_line_spec(prompt), 90),
            },
        ),
        ..nothing()
    }
}

pub open spec fn failed_turn(error_kind: Seq<char>, error: Seq<char>) -> UpdateView {
    UpdateView {
        state: "idle"@,
        kind: "Failed"@,
        detail: text::truncated(first_line_spec(error), 400),
        headline: Some(
            if error_kind.len() == 0 {
                "Turn failed"@
            } else {
                "Turn failed: "@ + strings::replaced(error_kind, '_', ' ')
            },
        ),
        outcome: "failed"@,
        ..nothing()
    }
}

pub open spec fn pretty_spec(tool: Seq<char>) -> Seq<char> {
    if tool.len() == 0 {
        "A tool"@
    } else {
        tool
    }
}

pub fn pretty_tool(tool: &str) -> (r: String)
    ensures
        r@ == pretty_spec(tool@),
{
    if tool.is_empty() {
        "A tool".to_owned()
    } else {
        tool.to_owned()
    }
}

/// What one event says, `None` for the events the pet ignores.
pub open spec fn classified(event: Seq<char>, payload: JsonView) -> Option<UpdateView> {
    let tool = text_of(payload, "tool_name"@);
    let input = payload.get("tool_input"@);
    if event == "SessionStart"@ {
        if text_of(payload, "source"@) == "compact"@ {
            // Compaction starts the session again in the middle of a turn.
            Some(live_spec("thinking"@, "Thinking"@, "Context compacted"@))
        } else {
            Some(
                UpdateView {
                    state: "idle"@,
                    kind: "Idle"@,
                    headline: Some("Session started"@),
                    ..nothing()
                },
            )
        }
    } else if event == "UserPromptSubmit"@ {
        Some(prompted(text_of(payload, "prompt"@)))
    } else if event == "PreToolUse"@ {
        if tool == "Task"@ || tool == "Agent"@ {
            Some(
                UpdateView {
                    subagents: 1,
                    ..live_spec("running"@, "Delegating"@, phrase_spec(tool, input).present)
                },
            )
        } else {
            Some(live_spec("running"@, kind_spec(tool), phrase_spec(tool, input).present))
        }
    } else if event == "PostToolUse"@ {
        Some(live_spec("running"@, kind_spec(tool), phrase_spec(tool, input).past))
    } else if event == "PostToolUseFailure"@ {
        Some(
            UpdateView {
                detail: text::truncated(first_line_spec(text_of(payload, "error"@)), 400),
                hiccup: true,
                ..live_spec("running"@, "Recovering"@, pretty_spec(tool) + " failed"@)
            },
        )
    } else if event == "PermissionRequest"@ {
        Some(
            UpdateView {
                silent: true,
                permission: if tool.len() == 0 {
                    "a tool"@
                } else {
                    tool
                },
                permission_detail: phrase_spec(tool, input).infinitive,
                permission_risk: risk_spec(tool, input),
                ..nothing()
            },
        )
    } else if event == "PermissionDenied"@ {
        Some(
            UpdateView {
                blocked: true,
                ..live_spec(
                    "running"@,
                    kind_spec(tool),
                    "Auto-mode blocked: "@ + phrase_spec(tool, input).infinitive,
                )
            },
        )
    } else if event == "Notification"@ {
        notified(
            text_of(payload, "notification_type"@),
            text::truncated(text_of(payload, "message"@), 200),
        )
    } else if event == "Stop"@ {
        let message = text_of(payload, "last_assistant_message"@);
        Some(stopped(disposition(payload, message), message))
    } else if event == "StopFailure"@ {
        Some(failed_turn(text_of(payload, "error_type"@), text_of(payload, "error"@)))
    } else if event == "SubagentStart"@ {
        Some(
            UpdateView {
                subagents: 1,
                ..live_spec(
                    "running"@,
                    "Delegating"@,
                    "Subagent: "@ + short_spec(text_of(payload, "agent_type"@), "agent"@),
                )
            },
        )
    } else if event == "SubagentStop"@ {
        Some(
            UpdateView {
                subagents: -1i64,
                ..live_spec("running"@, "Delegating"@, "Subagent finished"@)
            },
        )
    } else if event == "PreCompact"@ {
        Some(live_spec("compacting"@, "Compacting"@, "Compacting context"@))
    } else if event == "PostCompact"@ {
        if text_of(payload, "trigger"@) == "manual"@ {
            Some(live_spec("idle"@, "Idle"@, "Context compacted"@))
        } else {
            Some(live_spec("thinking"@, "Thinking"@, "Context compacted"@))
        }
    } else {
        None
    }
}

pub open spec fn opt_update(u: Option<Update>) -> Option<UpdateView> {
    match u {
        Some(x) => Some(x@),
        None => None,
    }
}

fn wait_for(reason: &str) -> (r: Update)
    ensures
        r@ == waiting_for(reason@),
{
    let mut u = Update::default();
    u.activity = reason.to_owned();
    u.waiting = reason.to_owned();
    assert(u@ =~= waiting_for(reason@));
    u
}

fn end_turn(reason: &str) -> (r: Update)
    ensures
        r@ == turn_over(reason@),
{
    let mut u = wait_for(reason);
    u.resumable = true;
    assert(u@ =~= turn_over(reason@));
    u
}

fn read_notification(kind: &str, message: &str) -> (r: Option<Update>)
    ensures
        opt_update(r) == notified(kind@, message@),
{
    if strings::same(kind, "permission_prompt") {
        Some(
            if message.is_empty() {
                wait_for("Waiting for permission")
            } else {
                wait_for(message)
            },
        )
    } else if strings::same(kind, "idle_prompt") {
        Some(end_turn("Waiting for your reply"))
    } else if strings::same(kind, "agent_needs_input") {
        Some(wait_for("A teammate needs input"))
    } else if kind.is_empty() && !message.is_empty() {
        let lower = strings::lower(message);
        if strings::contains(lower.as_str(), "permission") {
            Some(wait_for(message))
        } else if strings::contains(lower.as_str(), "waiting for your") || strings::contains(
            lower.as_str(),
            "input",
        ) {
            Some(end_turn("Waiting for your reply"))
        } else {
            None
        }
    } else {
        None
    }
}

fn read_stop(payload: &Json) -> (r: Update)
    ensures
        r@ == stopped(
            disposition(payload@, text_of(payload@, "last_assistant_message"@)),
            text_of(payload@, "last_assistant_message"@),
        ),
{
    let message = text(payload, "last_assistant_message");
    match stop_disposition(payload, message.as_str()) {
        // The agent is not finished; it is about to carry on. Announcing "Done"
        // here is the single easiest way for the pet to lie.
        Stop::KeepWorking(reason) => live("running", "Working", reason.as_str()),
        Stop::Finished { settle_ms } => {
            let mut u = Update::default();
            // The turn is over, so the session is no longer *doing* anything.
            u.state = "idle".to_owned();
            u.kind = "Done".to_owned();
            u.detail = text::truncate(message.as_str(), 600);
            // Nothing worth reading in the answer leaves the headline alone,
            // and what is already there is what the turn was asked to do.
            u.headline = text::summary_of(message.as_str());
            u.outcome = "done".to_owned();
            u.settle_ms = settle_ms;
            assert(u@ =~= stopped(StopView::Finished { settle_ms }, message@));
            u
        },
    }
}

fn read_prompt(prompt: &str) -> (r: Update)
    ensures
        r@ == prompted(prompt@),
{
    let mut u = live("thinking", "Thinking", "Thinking…");
    u.detail = text::truncate(prompt, 400);
    u.headline = Some(
        match text::summary_of(prompt) {
            Some(s) => s,
            None => text::truncate(text::first_line(prompt).as_str(), 90),
        },
    );
    assert(u@ =~= prompted(prompt@));
    u
}

fn read_failure(payload: &Json) -> (r: Update)
    ensures
        r@ == failed_turn(text_of(payload@, "error_type"@), text_of(payload@, "error"@)),
{
    let error_kind = text(payload, "error_type");
    let error = text(payload, "error");
    let mut u = Update::default();
    u.state = "idle".to_owned();
    u.kind = "Failed".to_owned();
    u.detail = text::truncate(text::first_line(error.as_str()).as_str(), 400);
    u.headline = Some(
        if error_kind.as_str().is_empty() {
            "Turn failed".to_owned()
        } else {
            strings::concat2(
                "Turn failed: ",
                strings::replace_char(error_kind.as_str(), '_', ' ').as_str(),
            )
        },
    );
    u.outcome = "failed".to_owned();
    assert(u@ =~= failed_turn(error_kind@, error@));
    u
}

/// Returns `None` for events the pet ignores.
pub fn classify(event: &str, payload: &Json) -> (r: Option<Update>)
    ensures
        opt_update(r) == classified(event@, payload@),
{
    let tool_name = text(payload, "tool_name");
    let tool = tool_name.as_str();
    let input = payload.get("tool_input");
    if strings::same(event, "SessionStart") {
        // Auto-compaction fires `SessionStart` again mid-session. Treating it
        // as a fresh session flipped a working card to an idle "Session
        // started" and stole the headline for the rest of the turn.
        if strings::same(text(payload, "source").as_str(), "compact") {
            return Some(live("thinking", "Thinking", "Context compacted"));
        }
        let mut u = live("idle", "Idle", "");
        u.headline = Some("Session started".to_owned());
        proof {
            reveal_strlit("");
            assert(u@ =~= classified(event@, payload@)->0);
        }
        Some(u)
    } else if strings::same(event, "UserPromptSubmit") {
        Some(read_prompt(text(payload, "prompt").as_str()))
    } else if strings::same(event, "PreToolUse") {
        let present = phrase(tool, input).present;
        // A Task call *is* a subagent launch, and is often the only signal one
        // happened, since a matching SubagentStart is not always sent.
        if strings::same(tool, "Task") || strings::same(tool, "Agent") {
            let mut u = live("running", "Delegating", present.as_str());
            u.subagents = 1;
            assert(u@ =~= classified(event@, payload@)->0);
            Some(u)
        } else {
            Some(live("running", kind_of(tool).as_str(), present.as_str()))
        }
    } else if strings::same(event, "PostToolUse") {
        // Not a subagent stop: the dedicated SubagentStop event owns that, and
        // counting both would decrement twice.
        Some(live("running", kind_of(tool).as_str(), phrase(tool, input).past.as_str()))
    } else if strings::same(event, "PostToolUseFailure") {
        // One tool failing is not the turn failing.
        let activity = strings::concat2(pretty_tool(tool).as_str(), " failed");
        let mut u = live("running", "Recovering", activity.as_str());
        u.detail = text::truncate(
            text::first_line(text(payload, "error").as_str()).as_str(),
            400,
        );
        u.hiccup = true;
        assert(u@ =~= classified(event@, payload@)->0);
        Some(u)
    } else if strings::same(event, "PermissionRequest") {
        // Fires *before* anyone is asked, and most are resolved in
        // milliseconds. Nothing visible changes yet.
        let mut u = Update::default();
        u.silent = true;
        u.permission = if tool.is_empty() {
            "a tool".to_owned()
        } else {
            tool.to_owned()
        };
        u.permission_detail = phrase(tool, input).infinitive;
        u.permission_risk = risk_of(tool, input);
        assert(u@ =~= classified(event@, payload@)->0);
        Some(u)
    } else if strings::same(event, "PermissionDenied") {
        // Auto-mode declining a call is routine policy, not a failure.
        let activity = strings::concat2(
            "Auto-mode blocked: ",
            phrase(tool, input).infinitive.as_str(),
        );
        let mut u = live("running", kind_of(tool).as_str(), activity.as_str());
        u.blocked = true;
        assert(u@ =~= classified(event@, payload@)->0);
        Some(u)
    } else if strings::same(event, "Notification") {
        read_notification(
            text(payload, "notification_type").as_str(),
            text::truncate(text(payload, "message").as_str(), 200).as_str(),
        )
    } else if strings::same(event, "Stop") {
        Some(read_stop(payload))
    } else if strings::same(event, "StopFailure") {
        Some(read_failure(payload))
    } else if strings::same(event, "SubagentStart") {
        let agent = short(text(payload, "agent_type").as_str(), "agent");
        let activity = strings::concat2("Subagent: ", agent.as_str());
        let mut u = live("running", "Delegating", activity.as_str());
        u.subagents = 1;
        assert(u@ =~= classified(event@, payload@)->0);
        Some(u)
    } else if strings::same(event, "SubagentStop") {
        let mut u = live("running", "Delegating", "Subagent finished");
        u.subagents = -1;
        assert(u@ =~= classified(event@, payload@)->0);
        Some(u)
    } else if strings::same(event, "PreCompact") {
        Some(live("compacting", "Compacting", "Compacting context"))
    } else if strings::same(event, "PostCompact") {
        // An automatic compact happens mid-turn and work resumes straight
        // after; only a manual one leaves the session genuinely idle.
        if strings::same(text(payload, "trigger").as_str(), "manual") {
            Some(live("idle", "Idle", "Context compacted"))
        } else {
            Some(live("thinking", "Thinking", "Context compacted"))
        }
    } else {
        None
    }
}

// --- folding an event into a session ---------------------------------------
/// A subagent event that arrives after the turn it belonged to has ended.
pub open spec fn trailing(event: Seq<char>, s: SessionView) -> bool {
    ||| event == "SubagentStart"@ && s.outcome.len() > 0
    ||| event == "SubagentStop"@ && (s.outcome.len() > 0 || s.subagents == 0)
}

/// A subagent event that arrives after the turn it belonged to has ended.
///
/// The agent sends `SubagentStop` for work that outlives the answer, so this
/// is routine rather than exceptional, and it must not restart the turn. A
/// `SubagentStop` with nothing outstanding is also bookkeeping when the next
/// prompt has already cleared the outcome.
pub fn is_trailing_subagent(event: &str, session: &Session) -> (r: bool)
    ensures
        r == trailing(event@, session@),
{
    let ended = !session.outcome.as_str().is_empty();
    if strings::same(event, "SubagentStart") {
        proof {
            reveal_strlit("SubagentStart");
            reveal_strlit("SubagentStop");
            assert("SubagentStart"@.len() != "SubagentStop"@.len());
        }
        ended
    } else if strings::same(event, "SubagentStop") {
        ended || session.subagents == 0
    } else {
        false
    }
}

/// What is left of an update once it is known which session it is for: a
/// trailing subagent says nothing about the card, and a background session is
/// not waiting on anybody when all it needs is another turn.
pub open spec fn heeded(s: SessionView, event: Seq<char>, u: UpdateView) -> UpdateView {
    let heard = if trailing(event, s) {
        UpdateView {
            state: seq![],
            kind: seq![],
            activity: seq![],
            headline: None,
            silent: true,
            ..u
        }
    } else {
        u
    };
    if s.background && heard.resumable {
        UpdateView {
            waiting: seq![],
            state: "idle"@,
            activity: "Waiting to be resumed"@,
            ..heard
        }
    } else {
        heard
    }
}

/// Events that mean the session moved forward, and so cannot still be blocked
/// on a human or finished.
///
/// Subagent events are deliberately absent. They say something about work the
/// *turn* delegated, not about the turn itself, so a subagent finishing must
/// never clear an outcome or resolve a prompt.
pub open spec fn is_progress(event: Seq<char>) -> bool {
    ||| event == "UserPromptSubmit"@
    ||| event == "PreToolUse"@
    ||| event == "PostToolUse"@
    ||| event == "PostToolUseFailure"@
    ||| event == "PermissionDenied"@
    ||| event == "PreCompact"@
    ||| event == "PostCompact"@
}

/// Events after which whatever the session was blocked on, or had finished, is
/// no longer true. The turn ending resolves what it was blocked on too.
pub open spec fn resolves(event: Seq<char>) -> bool {
    is_progress(event) || event == "Stop"@ || event == "StopFailure"@
}

/// Events that prove that a tool ran or was refused, or that the turn is over,
/// so that a permission prompt cannot still be open.
pub open spec fn answers_prompt(event: Seq<char>) -> bool {
    ||| event == "PreToolUse"@
    ||| event == "PostToolUse"@
    ||| event == "PostToolUseFailure"@
    ||| event == "PermissionDenied"@
    ||| event == "UserPromptSubmit"@
    ||| event == "Stop"@
    ||| event == "StopFailure"@
}

/// Which turn the payload belongs to, when that is a turn not seen before. A
/// straggler starts none, and neither does the turn before the present one.
pub open spec fn changes_turn(s: SessionView, payload: JsonView, now: u64) -> bool {
    let prompt = text_of(payload, "prompt_id"@);
    now >= s.event_ms && prompt.len() > 0 && prompt != s.prompt_id && prompt != s.prev_prompt_id
}

/// Whether the event begins a turn.
pub open spec fn begins_turn(s: SessionView, event: Seq<char>, payload: JsonView, now: u64) -> bool {
    changes_turn(s, payload, now) || (text_of(payload, "prompt_id"@).len() == 0 && event
        == "UserPromptSubmit"@)
}

/// The ids of the tasks that are running.
pub open spec fn running_ids(tasks: Seq<JsonView>) -> Seq<Seq<char>>
    decreases tasks.len(),
{
    if tasks.len() == 0 {
        seq![]
    } else {
        let before = running_ids(tasks.drop_last());
        let task = tasks.last();
        if task.text_at("status"@) == Some("running"@) && task.text_at("id"@) is Some {
            before.push(task.text_at("id"@)->0)
        } else {
            before
        }
    }
}

pub open spec fn without(ids: Seq<Seq<char>>, id: Seq<char>) -> Seq<Seq<char>>
    decreases ids.len(),
{
    if ids.len() == 0 {
        seq![]
    } else if ids.last() == id {
        without(ids.drop_last(), id)
    } else {
        without(ids.drop_last(), id).push(ids.last())
    }
}

/// The subagents at work after one came or went.
pub open spec fn agents_after(agents: Seq<Seq<char>>, change: i64, id: Seq<char>) -> Seq<Seq<char>> {
    if change > 0 {
        if id.len() > 0 && !agents.contains(id) && agents.len() < state::MAX_AGENTS {
            agents.push(id)
        } else {
            agents
        }
    } else if change < 0 {
        without(agents, id)
    } else {
        agents
    }
}

/// How the log colours a line.
pub open spec fn tag_of(u: UpdateView) -> Seq<char> {
    if u.outcome.len() > 0 {
        u.outcome
    } else if u.waiting.len() > 0 {
        "waiting"@
    } else if u.blocked {
        "blocked"@
    } else if u.hiccup {
        "failed"@
    } else if u.state.len() == 0 {
        "running"@
    } else {
        u.state
    }
}

/// The session after one event.
///
/// `owner` is the agent process, looked up when the session has none yet, and
/// `place` is the project of the payload's folder, looked up when the session
/// has moved there.
pub open spec fn applied(
    s: SessionView,
    event: Seq<char>,
    payload: JsonView,
    update: UpdateView,
    now: u64,
    owner: Option<(u32, u64)>,
    place: ProjectView,
) -> SessionView {
    let u = heeded(s, event, update);
    let late = now < s.event_ms;
    let agent = text_of(payload, "agent_id"@);
    let cwd = text_of(payload, "cwd"@);
    let moved = cwd.len() > 0 && cwd != s.cwd;
    let owned = s.agent_pid == 0 && owner is Some;
    let transcript = text_of(payload, "transcript_path"@);
    let turned = changes_turn(s, payload, now);
    let fresh = begins_turn(s, event, payload, now);
    let cleared = resolves(event) && !trailing(event, s) && !late;
    let answered = s.pending_tool.len() > 0 && answers_prompt(event) && agent.len() == 0;
    let pending_tool = if answered {
        seq![]
    } else {
        s.pending_tool
    };
    let pending_detail = if answered {
        seq![]
    } else {
        s.pending_detail
    };
    let asked = u.permission.len() > 0 && (pending_tool != u.permission || pending_detail
        != u.permission_detail);
    let ended = u.outcome.len() > 0 && !late;
    let waiting_since = if cleared {
        0u64
    } else {
        s.waiting_since
    };
    let agents = agents_after(
        if fresh {
            seq![]
        } else {
            s.agents
        },
        u.subagents,
        agent,
    );
    let tasks = payload.field("background_tasks"@).list();
    SessionView {
        state: if u.state.len() > 0 && !late {
            u.state
        } else {
            s.state
        },
        headline: match u.headline {
            Some(h) => if u.silent {
                s.headline
            } else {
                h
            },
            None => s.headline,
        },
        activity: if u.silent {
            s.activity
        } else {
            u.activity
        },
        kind: if u.silent || u.kind.len() == 0 {
            s.kind
        } else if agent.len() == 0 {
            u.kind
        } else {
            "Delegating"@
        },
        detail: if u.silent {
            s.detail
        } else {
            u.detail
        },
        project: if moved {
            place.name
        } else {
            s.project
        },
        workspace: if moved {
            place.workspace
        } else {
            s.workspace
        },
        project_root: if moved {
            place.root
        } else {
            s.project_root
        },
        scratch: if moved {
            place.scratch
        } else {
            s.scratch
        },
        cwd: if moved {
            cwd
        } else {
            s.cwd
        },
        event,
        updated_ms: now,
        started_ms: if s.started_ms == 0 {
            now
        } else {
            s.started_ms
        },
        turn_started_ms: if fresh {
            now
        } else {
            s.turn_started_ms
        },
        turn_ended_ms: if ended {
            now
        } else if fresh {
            0
        } else {
            s.turn_ended_ms
        },
        turn_tools: ((if fresh {
            0
        } else {
            s.turn_tools as int
        }) + (if event == "PreToolUse"@ && agent.len() == 0 {
            1int
        } else {
            0
        })) as u64,
        tools: (s.tools + (if event == "PreToolUse"@ {
            1int
        } else {
            0
        })) as u64,
        recent: if !u.silent && u.activity.len() > 0 {
            state::logged(
                s.recent,
                EntryView { ms: now, state: tag_of(u), text: u.activity },
            )
        } else {
            s.recent
        },
        outcome: if ended {
            u.outcome
        } else if cleared {
            seq![]
        } else {
            s.outcome
        },
        outcome_ms: if ended {
            now
        } else if cleared {
            0
        } else {
            s.outcome_ms
        },
        settles_ms: if ended {
            (now + u.settle_ms) as u64
        } else if cleared {
            0
        } else {
            s.settles_ms
        },
        waiting_since: if u.waiting.len() > 0 && waiting_since == 0 {
            now
        } else {
            waiting_since
        },
        waiting_reason: if u.waiting.len() > 0 {
            u.waiting
        } else if cleared {
            seq![]
        } else {
            s.waiting_reason
        },
        pending_tool: if asked {
            u.permission
        } else {
            pending_tool
        },
        pending_detail: if asked {
            u.permission_detail
        } else {
            pending_detail
        },
        pending_risk: if asked {
            u.permission_risk
        } else if answered {
            seq![]
        } else {
            s.pending_risk
        },
        pending_since: if asked {
            now
        } else if answered {
            0
        } else {
            s.pending_since
        },
        blocked: ((if fresh {
            0
        } else {
            s.blocked as int
        }) + (if u.blocked {
            1int
        } else {
            0
        })) as u64,
        subagents: agents.len() as u64,
        agents,
        tasks: match tasks {
            Some(items) => running_ids(items),
            None => s.tasks,
        },
        tasks_ms: if tasks is Some {
            now
        } else {
            s.tasks_ms
        },
        stalled: false,
        agent_pid: if owned {
            (owner->0).0
        } else {
            s.agent_pid
        },
        agent_created: if owned {
            (owner->0).1
        } else {
            s.agent_created
        },
        event_ms: now,
        transcript: if transcript.len() > 0 {
            transcript
        } else {
            s.transcript
        },
        prompt_id: if turned {
            text_of(payload, "prompt_id"@)
        } else {
            s.prompt_id
        },
        prev_prompt_id: if turned {
            s.prompt_id
        } else {
            s.prev_prompt_id
        },
        ..s
    }
}

/// Whether the counters have room for one more event, and the clock for the
/// settling of an outcome.
pub open spec fn has_room(s: SessionView, u: UpdateView, now: u64) -> bool {
    &&& s.tools < u64::MAX
    &&& s.turn_tools < u64::MAX
    &&& s.blocked < u64::MAX
    &&& now + u.settle_ms <= u64::MAX
}

fn heed(session: &Session, event: &str, update: Update) -> (r: Update)
    ensures
        r@ == heeded(session@, event@, update@),
{
    let mut u = update;
    // A subagent reporting in after the turn ended is bookkeeping, not new
    // work.
    if is_trailing_subagent(event, session) {
        u.state = String::new();
        u.kind = String::new();
        u.activity = String::new();
        u.headline = None;
        u.silent = true;
    }
    // Nobody is waiting on this one: what answers the idle prompt of a
    // background agent is the supervisor that started it, not a person. A
    // permission prompt is deliberately not `resumable` and still alerts.
    if session.background && u.resumable {
        u.waiting = String::new();
        // The turn is over, so it is not running tools; it has not been
        // abandoned either, and the sweep leaves an idle session alone.
        u.state = "idle".to_owned();
        u.activity = "Waiting to be resumed".to_owned();
    }
    assert(u@ =~= heeded(session@, event@, update@));
    u
}

fn does_resolve(event: &str) -> (r: bool)
    ensures
        r == resolves(event@),
{
    strings::same(event, "UserPromptSubmit") || strings::same(event, "PreToolUse")
        || strings::same(event, "PostToolUse") || strings::same(event, "PostToolUseFailure")
        || strings::same(event, "PermissionDenied") || strings::same(event, "PreCompact")
        || strings::same(event, "PostCompact") || strings::same(event, "Stop") || strings::same(
        event,
        "StopFailure",
    )
}

fn does_answer(event: &str) -> (r: bool)
    ensures
        r == answers_prompt(event@),
{
    strings::same(event, "PreToolUse") || strings::same(event, "PostToolUse") || strings::same(
        event,
        "PostToolUseFailure",
    ) || strings::same(event, "PermissionDenied") || strings::same(event, "UserPromptSubmit")
        || strings::same(event, "Stop") || strings::same(event, "StopFailure")
}

fn running_tasks(items: &Vec<Json>) -> (r: Vec<String>)
    ensures
        strings::views(r@) == running_ids(json::list_view(items@)),
{
    let ghost all = json::list_view(items@);
    let mut out: Vec<String> = Vec::new();
    let mut i: usize = 0;
    assert(all.take(0) =~= seq![]);
    assert(strings::views(out@) =~= seq![]);
    while i < items.len()
        invariant
            i <= items@.len(),
            all == json::list_view(items@),
            strings::views(out@) == running_ids(all.take(i as int)),
        decreases items@.len() - i,
    {
        let ghost before = out@;
        assert(all.take(i + 1).drop_last() =~= all.take(i as int));
        assert(all.take(i + 1).last() == items@[i as int]@);
        let running = match items[i].text_at("status") {
            Some(status) => strings::same(status, "running"),
            None => false,
        };
        if running {
            if let Some(id) = items[i].text_at("id") {
                out.push(id.to_owned());
                assert(strings::views(out@) =~= strings::views(before).push(id@));
            }
        }
        i = i + 1;
    }
    assert(all.take(i as int) =~= all);
    out
}

fn remove_id(ids: &Vec<String>, id: &str) -> (r: Vec<String>)
    ensures
        strings::views(r@) == without(strings::views(ids@), id@),
{
    let ghost all = strings::views(ids@);
    let mut out: Vec<String> = Vec::new();
    let mut i: usize = 0;
    assert(all.take(0) =~= seq![]);
    assert(strings::views(out@) =~= seq![]);
    while i < ids.len()
        invariant
            i <= ids@.len(),
            all == strings::views(ids@),
            strings::views(out@) == without(all.take(i as int), id@),
        decreases ids@.len() - i,
    {
        let ghost before = out@;
        assert(all.take(i + 1).drop_last() =~= all.take(i as int));
        assert(all.take(i + 1).last() == ids@[i as int]@);
        if !strings::same(ids[i].as_str(), id) {
            let kept = ids[i].clone();
            out.push(kept);
            assert(strings::views(out@) =~= strings::views(before).push(kept@));
        }
        i = i + 1;
    }
    assert(all.take(i as int) =~= all);
    out
}

/// Who comes and goes, by name rather than by tally. A set of the ids in the
/// payload cannot double-count and cannot drift.
fn track_agents(agents: Vec<String>, change: i64, id: &str) -> (r: Vec<String>)
    ensures
        strings::views(r@) == agents_after(strings::views(agents@), change, id@),
{
    let mut agents = agents;
    if change > 0 {
        assert(strings::views(agents@).len() == agents@.len());
        if !id.is_empty() && !strings::holds(&agents, id) && agents.len() < state::MAX_AGENTS {
            let ghost before = strings::views(agents@);
            agents.push(id.to_owned());
            assert(strings::views(agents@) =~= before.push(id@));
        }
        agents
    } else if change < 0 {
        remove_id(&agents, id)
    } else {
        agents
    }
}

fn tag(u: &Update) -> (r: String)
    ensures
        r@ == tag_of(u@),
{
    if !u.outcome.as_str().is_empty() {
        u.outcome.clone()
    } else if !u.waiting.as_str().is_empty() {
        "waiting".to_owned()
    } else if u.blocked {
        "blocked".to_owned()
    } else if u.hiccup {
        "failed".to_owned()
    } else if u.state.as_str().is_empty() {
        "running".to_owned()
    } else {
        u.state.clone()
    }
}

/// The session with its owner, its place and its transcript noted.
spec fn located(
    s: SessionView,
    payload: JsonView,
    now: u64,
    owner: Option<(u32, u64)>,
    place: ProjectView,
) -> SessionView {
    let cwd = text_of(payload, "cwd"@);
    let moved = cwd.len() > 0 && cwd != s.cwd;
    let owned = s.agent_pid == 0 && owner is Some;
    let transcript = text_of(payload, "transcript_path"@);
    SessionView {
        started_ms: if s.started_ms == 0 {
            now
        } else {
            s.started_ms
        },
        agent_pid: if owned {
            (owner->0).0
        } else {
            s.agent_pid
        },
        agent_created: if owned {
            (owner->0).1
        } else {
            s.agent_created
        },
        cwd: if moved {
            cwd
        } else {
            s.cwd
        },
        project: if moved {
            place.name
        } else {
            s.project
        },
        workspace: if moved {
            place.workspace
        } else {
            s.workspace
        },
        project_root: if moved {
            place.root
        } else {
            s.project_root
        },
        scratch: if moved {
            place.scratch
        } else {
            s.scratch
        },
        transcript: if transcript.len() > 0 {
            transcript
        } else {
            s.transcript
        },
        ..s
    }
}

fn locate(
    session: &mut Session,
    payload: &Json,
    now: u64,
    owner: Option<(u32, u64)>,
    place: &Project,
)
    ensures
        final(session)@ == located(old(session)@, payload@, now, owner, place@),
{
    if session.started_ms == 0 {
        session.started_ms = now;
    }
    if session.agent_pid == 0 {
        if let Some((pid, created)) = owner {
            session.agent_pid = pid;
            session.agent_created = created;
        }
    }
    let cwd = text(payload, "cwd");
    if !cwd.as_str().is_empty() && !strings::same(cwd.as_str(), session.cwd.as_str()) {
        session.cwd = cwd;
        session.project = place.name.clone();
        session.workspace = place.workspace.clone();
        session.project_root = place.root.clone();
        session.scratch = place.scratch;
    }
    let transcript = text(payload, "transcript_path");
    if !transcript.as_str().is_empty() {
        session.transcript = transcript;
    }
    assert(session@ =~= located(old(session)@, payload@, now, owner, place@));
}

/// The session with the event counted towards its turn.
spec fn counted(s: SessionView, event: Seq<char>, payload: JsonView, now: u64) -> SessionView {
    let agent = text_of(payload, "agent_id"@);
    let turned = changes_turn(s, payload, now);
    let fresh = begins_turn(s, event, payload, now);
    SessionView {
        prompt_id: if turned {
            text_of(payload, "prompt_id"@)
        } else {
            s.prompt_id
        },
        prev_prompt_id: if turned {
            s.prompt_id
        } else {
            s.prev_prompt_id
        },
        turn_started_ms: if fresh {
            now
        } else {
            s.turn_started_ms
        },
        turn_ended_ms: if fresh {
            0
        } else {
            s.turn_ended_ms
        },
        turn_tools: ((if fresh {
            0
        } else {
            s.turn_tools as int
        }) + (if event == "PreToolUse"@ && agent.len() == 0 {
            1int
        } else {
            0
        })) as u64,
        tools: (s.tools + (if event == "PreToolUse"@ {
            1int
        } else {
            0
        })) as u64,
        blocked: if fresh {
            0
        } else {
            s.blocked
        },
        agents: if fresh {
            seq![]
        } else {
            s.agents
        },
        ..s
    }
}

fn count(session: &mut Session, event: &str, payload: &Json, now: u64)
    requires
        old(session)@.tools < u64::MAX,
        old(session)@.turn_tools < u64::MAX,
    ensures
        final(session)@ == counted(old(session)@, event@, payload@, now),
{
    let by_subagent = text(payload, "agent_id");
    let prompt_id = text(payload, "prompt_id");
    let unknown_turn = prompt_id.as_str().is_empty();
    // Never backwards. A prompt typed while a turn is running is submitted
    // then and answered later, so the two turns' events interleave, and
    // rotating on every change would reset the counters each time they took
    // it in turns to arrive.
    let turn_changed = now >= session.event_ms && !unknown_turn && !strings::same(
        prompt_id.as_str(),
        session.prompt_id.as_str(),
    ) && !strings::same(prompt_id.as_str(), session.prev_prompt_id.as_str());
    if turn_changed {
        session.prev_prompt_id = session.prompt_id.clone();
        session.prompt_id = prompt_id;
    }
    if turn_changed || (unknown_turn && strings::same(event, "UserPromptSubmit")) {
        session.turn_started_ms = now;
        session.turn_ended_ms = 0;
        session.turn_tools = 0;
        session.blocked = 0;
        session.agents = Vec::new();
        assert(strings::views(session.agents@) =~= seq![]);
    }
    if strings::same(event, "PreToolUse") {
        session.tools = session.tools + 1;
        // The count beside the turn's clock has to be the turn's own work, not
        // the sum of everything its subagents did in parallel.
        if by_subagent.as_str().is_empty() {
            session.turn_tools = session.turn_tools + 1;
        }
    }
    assert(session@ =~= counted(old(session)@, event@, payload@, now));
}

/// The session with what the event resolves cleared, and what it asks noted.
spec fn asked_of(
    s: SessionView,
    event: Seq<char>,
    by_subagent: bool,
    trailing: bool,
    u: UpdateView,
    now: u64,
) -> SessionView {
    let cleared = resolves(event) && !trailing && now >= s.event_ms;
    let answered = s.pending_tool.len() > 0 && answers_prompt(event) && !by_subagent;
    let a = if cleared {
        s.progressed()
    } else {
        s
    };
    let b = if answered {
        a.unprompted()
    } else {
        a
    };
    if u.permission.len() > 0 && (b.pending_tool != u.permission || b.pending_detail
        != u.permission_detail) {
        SessionView {
            pending_tool: u.permission,
            pending_detail: u.permission_detail,
            pending_risk: u.permission_risk,
            pending_since: now,
            ..b
        }
    } else {
        b
    }
}

fn ask(
    session: &mut Session,
    event: &str,
    by_subagent: bool,
    trailing: bool,
    u: &Update,
    now: u64,
)
    ensures
        final(session)@ == asked_of(old(session)@, event@, by_subagent, trailing, u@, now),
{
    if does_resolve(event) && !trailing && now >= session.event_ms {
        session.clear_pending();
    }
    // Only an event that proves the tool ran, was refused, or that the turn is
    // over may clear a prompt: a subagent finishing while the main agent sits
    // at a permission prompt is routine.
    if !session.pending_tool.as_str().is_empty() && does_answer(event) && !by_subagent {
        session.clear_permission();
    }
    // Compare the detail too: two consecutive prompts for the same tool but
    // different commands must not leave the previous command's text, risk
    // label, and an already-elapsed debounce clock on the new prompt.
    if !u.permission.as_str().is_empty() && (!strings::same(
        session.pending_tool.as_str(),
        u.permission.as_str(),
    ) || !strings::same(session.pending_detail.as_str(), u.permission_detail.as_str())) {
        session.pending_tool = u.permission.clone();
        session.pending_detail = u.permission_detail.clone();
        session.pending_risk = u.permission_risk.clone();
        session.pending_since = now;
    }
    assert(session@ =~= asked_of(old(session)@, event@, by_subagent, trailing, u@, now));
}

/// The session with the answers that the event gives.
spec fn answered_by(s: SessionView, u: UpdateView, now: u64) -> SessionView {
    let late = now < s.event_ms;
    let ended = u.outcome.len() > 0 && !late;
    SessionView {
        state: if u.state.len() > 0 && !late {
            u.state
        } else {
            s.state
        },
        outcome: if ended {
            u.outcome
        } else {
            s.outcome
        },
        outcome_ms: if ended {
            now
        } else {
            s.outcome_ms
        },
        settles_ms: if ended {
            (now + u.settle_ms) as u64
        } else {
            s.settles_ms
        },
        turn_ended_ms: if ended {
            now
        } else {
            s.turn_ended_ms
        },
        waiting_since: if u.waiting.len() > 0 && s.waiting_since == 0 {
            now
        } else {
            s.waiting_since
        },
        waiting_reason: if u.waiting.len() > 0 {
            u.waiting
        } else {
            s.waiting_reason
        },
        blocked: (s.blocked + (if u.blocked {
            1int
        } else {
            0
        })) as u64,
        ..s
    }
}

fn answer(session: &mut Session, u: &Update, now: u64)
    requires
        old(session)@.blocked < u64::MAX,
        now + u@.settle_ms <= u64::MAX,
    ensures
        final(session)@ == answered_by(old(session)@, u@, now),
{
    let out_of_order = now < session.event_ms;
    if !u.state.as_str().is_empty() && !out_of_order {
        session.state = u.state.clone();
    }
    if !u.outcome.as_str().is_empty() && !out_of_order {
        session.outcome = u.outcome.clone();
        session.outcome_ms = now;
        session.settles_ms = now + u.settle_ms;
        // Stop the turn's clock: history does not keep counting upward.
        session.turn_ended_ms = now;
    }
    if !u.waiting.as_str().is_empty() {
        // Keep the first timestamp. A second notification about the same
        // prompt must not restart the debounce and hide the card again.
        if session.waiting_since == 0 {
            session.waiting_since = now;
        }
        session.waiting_reason = u.waiting.clone();
    }
    if u.blocked {
        session.blocked = session.blocked + 1;
    }
    assert(session@ =~= answered_by(old(session)@, u@, now));
}

/// The session with its delegated work brought up to date.
spec fn delegated(s: SessionView, payload: JsonView, u: UpdateView, now: u64) -> SessionView {
    let agents = agents_after(s.agents, u.subagents, text_of(payload, "agent_id"@));
    let tasks = payload.field("background_tasks"@).list();
    SessionView {
        subagents: agents.len() as u64,
        agents,
        tasks: match tasks {
            Some(items) => running_ids(items),
            None => s.tasks,
        },
        tasks_ms: if tasks is Some {
            now
        } else {
            s.tasks_ms
        },
        stalled: false,
        ..s
    }
}

fn delegate(session: &mut Session, payload: &Json, u: &Update, now: u64)
    ensures
        final(session)@ == delegated(old(session)@, payload@, u@, now),
{
    let by_subagent = text(payload, "agent_id");
    let agents = strings::copy_all(&session.agents);
    session.agents = track_agents(agents, u.subagents, by_subagent.as_str());
    session.subagents = session.agents.len() as u64;
    assert(strings::views(session.agents@).len() == session.agents@.len());
    // What is still in flight, by the agent's own account.
    if let Some(listed) = payload.get("background_tasks") {
        if let Some(items) = listed.as_array() {
            session.tasks = running_tasks(items);
            session.tasks_ms = now;
        }
    }
    // Any event at all is proof of life.
    session.stalled = false;
    assert(session@ =~= delegated(old(session)@, payload@, u@, now));
}

/// The session with the event on its card and in its log.
spec fn displayed(
    s: SessionView,
    event: Seq<char>,
    by_subagent: bool,
    u: UpdateView,
    now: u64,
) -> SessionView {
    SessionView {
        kind: if u.silent || u.kind.len() == 0 {
            s.kind
        } else if !by_subagent {
            u.kind
        } else {
            "Delegating"@
        },
        activity: if u.silent {
            s.activity
        } else {
            u.activity
        },
        detail: if u.silent {
            s.detail
        } else {
            u.detail
        },
        headline: match u.headline {
            Some(h) => if u.silent {
                s.headline
            } else {
                h
            },
            None => s.headline,
        },
        event,
        event_ms: now,
        updated_ms: now,
        recent: if !u.silent && u.activity.len() > 0 {
            state::logged(s.recent, EntryView { ms: now, state: tag_of(u), text: u.activity })
        } else {
            s.recent
        },
        ..s
    }
}

fn display(session: &mut Session, event: &str, by_subagent: bool, u: &Update, now: u64)
    ensures
        final(session)@ == displayed(old(session)@, event@, by_subagent, u@, now),
{
    if !u.silent {
        // An event that does not describe work leaves the last word about work
        // standing. A subagent's tool call is the session delegating.
        if !u.kind.as_str().is_empty() {
            session.kind = if !by_subagent {
                u.kind.clone()
            } else {
                "Delegating".to_owned()
            };
        }
        session.activity = u.activity.clone();
        session.detail = u.detail.clone();
        if let Some(headline) = &u.headline {
            session.headline = headline.clone();
        }
    }
    session.event = event.to_owned();
    session.event_ms = now;
    session.updated_ms = now;
    if !u.silent && !u.activity.as_str().is_empty() {
        session.push_recent(tag(u).as_str(), u.activity.as_str(), now);
    }
    assert(session@ =~= displayed(old(session)@, event@, by_subagent, u@, now));
}

/// The steps, one after the other, are the whole.
proof fn lemma_steps(
    s: SessionView,
    event: Seq<char>,
    payload: JsonView,
    update: UpdateView,
    now: u64,
    owner: Option<(u32, u64)>,
    place: ProjectView,
)
    ensures
        ({
            let u = heeded(s, event, update);
            let by_subagent = text_of(payload, "agent_id"@).len() > 0;
            let s1 = located(s, payload, now, owner, place);
            let s2 = counted(s1, event, payload, now);
            let s3 = asked_of(s2, event, by_subagent, trailing(event, s), u, now);
            let s4 = answered_by(s3, u, now);
            let s5 = delegated(s4, payload, u, now);
            displayed(s5, event, by_subagent, u, now) == applied(
                s,
                event,
                payload,
                update,
                now,
                owner,
                place,
            )
        }),
{
    let u = heeded(s, event, update);
    let by_subagent = text_of(payload, "agent_id"@).len() > 0;
    let s1 = located(s, payload, now, owner, place);
    let s2 = counted(s1, event, payload, now);
    let s3 = asked_of(s2, event, by_subagent, trailing(event, s), u, now);
    let s4 = answered_by(s3, u, now);
    let s5 = delegated(s4, payload, u, now);
    assert(displayed(s5, event, by_subagent, u, now) =~= applied(
        s,
        event,
        payload,
        update,
        now,
        owner,
        place,
    ));
}

/// Folds one classified event into what is known of the session.
///
/// These are the judgements that decide whether a card is telling the truth:
/// which turn this is, whether the event is a straggler, whether a subagent or
/// the session itself did the work. An event that arrives after a later one
/// still counts, but changes neither the state nor the outcome.
pub fn apply(
    session: &mut Session,
    event: &str,
    payload: &Json,
    update: Update,
    now: u64,
    owner: Option<(u32, u64)>,
    place: &Project,
)
    requires
        has_room(old(session)@, update@, now),
    ensures
        final(session)@ == applied(old(session)@, event@, payload@, update@, now, owner, place@),
{
    let trailing_subagent = is_trailing_subagent(event, session);
    let u = heed(session, event, update);
    let by_subagent = !text(payload, "agent_id").as_str().is_empty();
    proof {
        lemma_steps(session@, event@, payload@, update@, now, owner, place@);
    }
    locate(session, payload, now, owner, place);
    count(session, event, payload, now);
    ask(session, event, by_subagent, trailing_subagent, &u, now);
    answer(session, &u, now);
    delegate(session, payload, &u, now);
    display(session, event, by_subagent, &u, now);
}

// --- one hook, start to end ------------------------------------------------
/// A hook's payload, read.
pub struct Incoming {
    pub event: String,
    pub session_id: String,
    pub payload: Json,
}

/// What a hook's input holds; nothing when it is not JSON.
pub open spec fn payload_spec(raw: Seq<char>) -> JsonView {
    match json::parsed_text(raw) {
        Some(j) => j,
        None => JsonView::Null,
    }
}

/// The event a payload names, or the one the hook was invoked for.
pub open spec fn event_spec(payload: JsonView, fallback: Option<Seq<char>>) -> Seq<char> {
    match payload.text_at("hook_event_name"@) {
        Some(event) => event,
        None => match fallback {
            Some(event) => event,
            None => seq![],
        },
    }
}

pub open spec fn session_spec(payload: JsonView) -> Seq<char> {
    match payload.text_at("session_id"@) {
        Some(id) => id,
        None => "unknown"@,
    }
}

/// What a payload that has been read is about.
pub fn identify(payload: Json, fallback_event: Option<&str>) -> (r: Incoming)
    ensures
        r.payload@ == payload@,
        r.event@ == event_spec(payload@, strings::opt_str(fallback_event)),
        r.session_id@ == session_spec(payload@),
{
    let event = match payload.text_at("hook_event_name") {
        Some(event) => event.to_owned(),
        None => match fallback_event {
            Some(event) => event.to_owned(),
            None => String::new(),
        },
    };
    let session_id = match payload.text_at("session_id") {
        Some(id) => id.to_owned(),
        None => "unknown".to_owned(),
    };
    Incoming { event, session_id, payload }
}

/// Reads what a hook was handed.
pub fn read_payload(raw: &str, fallback_event: Option<&str>) -> (r: Incoming)
    ensures
        r.payload@ == payload_spec(raw@),
        r.event@ == event_spec(payload_spec(raw@), strings::opt_str(fallback_event)),
        r.session_id@ == session_spec(payload_spec(raw@)),
{
    let payload = match json::parse(raw) {
        Some(j) => j,
        None => Json::Null,
    };
    identify(payload, fallback_event)
}

/// The file a session is kept in.
pub fn session_file(session_id: &str) -> (r: String)
    ensures
        r@ == state::sanitized(session_id@) + ".json"@,
{
    strings::concat2(state::sanitize(session_id).as_str(), ".json")
}

/// The folder an event says the session is in, when it is not the one already
/// known. Finding out what project that is walks the filesystem, so it is only
/// done when the session actually moves.
pub fn new_folder(session: &Session, payload: &Json) -> (r: Option<String>)
    ensures
        strings::opt_view(r) == (if text_of(payload@, "cwd"@).len() > 0 && text_of(
            payload@,
            "cwd"@,
        ) != session@.cwd {
            Some(text_of(payload@, "cwd"@))
        } else {
            None
        }),
{
    let cwd = text(payload, "cwd");
    if !cwd.as_str().is_empty() && !strings::same(cwd.as_str(), session.cwd.as_str()) {
        Some(cwd)
    } else {
        None
    }
}

/// What becomes of a session's file.
pub enum Verdict {
    /// It goes.
    Remove,
    /// It stays as it is.
    Leave,
    /// It is written anew.
    Write(Session),
}

pub enum VerdictView {
    Remove,
    Leave,
    Write(SessionView),
}

impl View for Verdict {
    type V = VerdictView;

    open spec fn view(&self) -> VerdictView {
        match self {
            Verdict::Remove => VerdictView::Remove,
            Verdict::Leave => VerdictView::Leave,
            Verdict::Write(session) => VerdictView::Write(session@),
        }
    }
}

pub open spec fn opt_session(s: Option<Session>) -> Option<SessionView> {
    match s {
        Some(x) => Some(x@),
        None => None,
    }
}

/// The session an event is folded into: the one on file, or a new one, but only
/// for the events that genuinely begin work. A straggler that arrives after the
/// session ended must not bring it back.
pub open spec fn subject(event: Seq<char>, stored: Option<SessionView>) -> Option<SessionView> {
    match stored {
        Some(s) => Some(s),
        None => if event == "SessionStart"@ || event == "UserPromptSubmit"@ {
            Some(state::blank())
        } else {
            None
        },
    }
}

/// What one hook does to a session's file.
pub open spec fn verdict(
    event: Seq<char>,
    session_id: Seq<char>,
    payload: JsonView,
    stored: Option<SessionView>,
    background: bool,
    now: u64,
    owner: Option<(u32, u64)>,
    place: ProjectView,
) -> VerdictView {
    if event == "SessionEnd"@ {
        VerdictView::Remove
    } else {
        match (subject(event, stored), classified(event, payload)) {
            (Some(s), Some(update)) => VerdictView::Write(
                SessionView {
                    session_id,
                    ..applied(
                        SessionView { background, ..s },
                        event,
                        payload,
                        update,
                        now,
                        owner,
                        place,
                    )
                },
            ),
            _ => VerdictView::Leave,
        }
    }
}

/// Whether the counters of a session have room for one more event.
pub open spec fn countable(stored: Option<SessionView>, now: u64) -> bool {
    &&& now + SETTLE_MS <= u64::MAX
    &&& stored matches Some(s) ==> s.tools < u64::MAX && s.turn_tools < u64::MAX && s.blocked
        < u64::MAX
}

proof fn lemma_settle(event: Seq<char>, payload: JsonView)
    ensures
        classified(event, payload) matches Some(u) ==> u.settle_ms <= SETTLE_MS,
{
}

/// One hook, start to end: what an event does to the file of its session.
///
/// `background` is asked again on every event and allowed to go both ways: a
/// background session that somebody attaches to really does want to be
/// answered from then on.
pub fn run(
    incoming: &Incoming,
    stored: Option<Session>,
    background: bool,
    now: u64,
    owner: Option<(u32, u64)>,
    place: &Project,
) -> (r: Verdict)
    requires
        countable(opt_session(stored), now),
    ensures
        r@ == verdict(
            incoming.event@,
            incoming.session_id@,
            incoming.payload@,
            opt_session(stored),
            background,
            now,
            owner,
            place@,
        ),
{
    let event = incoming.event.as_str();
    if strings::same(event, "SessionEnd") {
        return Verdict::Remove;
    }
    let mut session = match stored {
        Some(s) => s,
        None => {
            if !strings::same(event, "SessionStart") && !strings::same(event, "UserPromptSubmit") {
                return Verdict::Leave;
            }
            Session::default()
        },
    };
    session.background = background;
    assert(session@ =~= (SessionView {
        background,
        ..subject(incoming.event@, opt_session(stored))->0
    }));
    match classify(event, &incoming.payload) {
        None => Verdict::Leave,
        Some(update) => {
            proof {
                lemma_settle(incoming.event@, incoming.payload@);
            }
            let ghost before = session@;
            apply(&mut session, event, &incoming.payload, update, now, owner, place);
            let ghost after = session@;
            session.session_id = incoming.session_id.clone();
            assert(session@ =~= (SessionView { session_id: incoming.session_id@, ..after }));
            Verdict::Write(session)
        },
    }
}

/// The value of a variable in an environment.
pub open spec fn variable(env: Seq<(String, String)>, name: Seq<char>) -> Option<Seq<char>>
    decreases env.len(),
{
    if env.len() == 0 {
        None
    } else if env[0].0@ == name {
        Some(env[0].1@)
    } else {
        variable(env.skip(1), name)
    }
}

fn lookup(env: &Vec<(String, String)>, name: &str) -> (r: Option<String>)
    ensures
        strings::opt_view(r) == variable(env@, name@),
{
    let mut i: usize = 0;
    assert(env@.skip(0) =~= env@);
    while i < env.len()
        invariant
            i <= env@.len(),
            variable(env@, name@) == variable(env@.skip(i as int), name@),
        decreases env@.len() - i,
    {
        assert(env@.skip(i as int).skip(1) =~= env@.skip(i + 1));
        if strings::same(env[i].0.as_str(), name) {
            return Some(env[i].1.clone());
        }
        i = i + 1;
    }
    None
}

/// Is a hook with this environment running inside a background agent? What hooks of one are given is `CLAUDE_JOB_DIR`, the
/// background job's own directory; `CLAUDE_CODE_SESSION_KIND` is set on the
/// agent process and may one day be passed down.
pub open spec fn background_spec(env: Seq<(String, String)>) -> bool {
    let kind = variable(env, "CLAUDE_CODE_SESSION_KIND"@);
    ||| (variable(env, "CLAUDE_JOB_DIR"@) matches Some(dir) && strings::trimmed(dir).len() > 0)
    ||| kind == Some("bg"@)
    ||| kind == Some("background"@)
}

/// The rule itself, with the environment handed to it so it can be examined.
pub fn reads_as_background(env: &Vec<(String, String)>) -> (r: bool)
    ensures
        r == background_spec(env@),
{
    if let Some(dir) = lookup(env, "CLAUDE_JOB_DIR") {
        if !strings::trim(dir.as_str()).as_str().is_empty() {
            return true;
        }
    }
    match lookup(env, "CLAUDE_CODE_SESSION_KIND") {
        Some(k) => strings::same(k.as_str(), "bg") || strings::same(k.as_str(), "background"),
        None => false,
    }
}

/// The file a raw payload is kept in, when payloads are being kept.
pub fn capture_name(raw: &str, now: u64, pid: u32) -> (r: String)
    ensures
        r@ == strings::decimal_spec(now as nat) + "-"@ + state::sanitized(
            event_spec(payload_spec(raw@), Some("unknown"@)),
        ) + "-"@ + strings::decimal_spec(pid as nat) + ".json"@,
{
    let incoming = read_payload(raw, Some("unknown"));
    let event = state::sanitize(incoming.event.as_str());
    let mut out = strings::decimal(now);
    out.append("-");
    out.append(event.as_str());
    out.append("-");
    out.append(strings::decimal(pid as u64).as_str());
    out.append(".json");
    out
}

} // verus!
