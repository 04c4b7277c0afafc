//! What is known of a session, and the rules that keep it true.
//!
//! The hook writer and the overlay never talk to each other directly: hooks
//! write one small JSON file per session, the overlay polls the directory. That
//! keeps the hook a fire-and-forget process with no port to collide with and no
//! daemon to be running first.

use vstd::prelude::*;
use vstd::string::*;

use crate::agent;
use crate::strings;

verus! {

pub const RECENT_LIMIT: usize = 24;

/// How many subagents are kept track of.
pub const MAX_AGENTS: usize = 64;

/// A session nobody has touched in this long is gone, whatever it last claimed.
/// Generous on purpose: a real prompt left waiting overnight is still true.
pub const STALE_AFTER_MS: u64 = 43_200_000;

/// Work that has produced no event in this long is not happening. A hook fires
/// for every tool call, so silence this long means the turn died without a
/// `Stop`, and the card must stop claiming otherwise.
pub const WORKING_STALE_MS: u64 = 300_000;

#[derive(Clone, Copy, PartialEq, Eq, Structural, Debug)]
pub enum Provider {
    ClaudeCode,
    Codex,
}

pub struct Entry {
    pub ms: u64,
    pub state: String,
    pub text: String,
}

#[verifier::ext_equal]
pub struct EntryView {
    pub ms: u64,
    pub state: Seq<char>,
    pub text: Seq<char>,
}

impl View for Entry {
    type V = EntryView;

    open spec fn view(&self) -> EntryView {
        EntryView { ms: self.ms, state: self.state@, text: self.text@ }
    }
}

pub open spec fn entries(v: Seq<Entry>) -> Seq<EntryView> {
    v.map_values(|e: Entry| e@)
}

fn copy_entries(v: &Vec<Entry>) -> (r: Vec<Entry>)
    ensures
        entries(r@) == entries(v@),
{
    let mut out: Vec<Entry> = Vec::new();
    let mut i: usize = 0;
    while i < v.len()
        invariant
            i <= v@.len(),
            out@.len() == i,
            forall|j: int| 0 <= j < i ==> (#[trigger] out@[j])@ == v@[j]@,
        decreases v@.len() - i,
    {
        out.push(Entry { ms: v[i].ms, state: v[i].state.clone(), text: v[i].text.clone() });
        i = i + 1;
    }
    assert(entries(out@) =~= entries(v@));
    out
}

pub struct Session {
    pub session_id: String,
    /// Whose session it is.
    pub provider: Provider,
    /// idle | thinking | running | compacting. Only forward progress moves it.
    pub state: String,
    /// What this turn is *about*. Set when the turn starts and replaced when it
    /// ends, never by tool events, so it stays readable while tools churn.
    pub headline: String,
    /// The live line: "Editing render.js", "Running: npm test".
    pub activity: String,
    /// The *category* of the current work: Reading, Editing, Running… This
    /// changes far less often than `activity`, which is the point.
    pub kind: String,
    /// Longer text for the expanded panel (assistant summary, error body).
    pub detail: String,
    /// Display name of the owning project: the git repository, not the folder
    /// the session happens to be sitting in.
    pub project: String,
    /// Set only when the session runs somewhere other than the project root
    /// (a worktree, a subdirectory), for a secondary label.
    pub workspace: String,
    pub project_root: String,
    /// True when the project root is a temp directory: throwaway sessions
    /// from scripted runs, which should not compete with real work.
    pub scratch: bool,
    pub cwd: String,
    pub event: String,
    pub updated_ms: u64,
    pub started_ms: u64,
    /// Start of the current turn, for the "3m" on the status line.
    pub turn_started_ms: u64,
    /// When the turn ended, so that its clock stops there. Zero while it runs.
    pub turn_ended_ms: u64,
    /// Tool calls in the current turn.
    pub turn_tools: u64,
    /// The count of the turn's tool calls began somewhere inside the turn.
    pub turn_tools_partial: bool,
    pub tools: u64,
    pub recent: Vec<Entry>,
    /// How the last turn ended: "" | done | failed. Cleared the moment the
    /// next turn starts, so it can never outlive the thing it describes.
    pub outcome: String,
    pub outcome_ms: u64,
    /// A `done` is only real once the clock passes this. The agent sends
    /// `Stop` while background tasks are still finishing, so an immediate
    /// celebration is sometimes premature; holding it briefly lets the next
    /// event cancel it instead.
    pub settles_ms: u64,
    /// Non-zero while the agent is genuinely blocked on a human. Cleared by
    /// any forward progress.
    pub waiting_since: u64,
    pub waiting_reason: String,
    /// A permission prompt that was raised and has not been resolved.
    ///
    /// Recorded rather than believed. Auto-mode and permission hooks settle
    /// most of these in a couple of hundred milliseconds without anyone being
    /// asked, so this only becomes a visible "needs you" once it outlives the
    /// debounce in the frontend.
    pub pending_tool: String,
    pub pending_detail: String,
    pub pending_since: u64,
    /// Why the pending command looks irreversible. A hint for the card only.
    /// Nothing here approves, denies, or blocks anything.
    pub pending_risk: String,
    /// Which subagent raised the prompt, if one did.
    pub pending_agent: String,
    /// Tool failures inside the current turn. A failed grep is not a failed
    /// turn, so this is a marker rather than a state.
    pub hiccups: u64,
    /// Tool calls of the current turn that auto-mode refused.
    pub blocked: u64,
    /// Subagents started but not yet finished.
    pub subagents: u64,
    /// The ids of those subagents.
    pub agents: Vec<String>,
    /// Background tasks that were in flight when the turn last yielded.
    pub tasks: Vec<String>,
    pub tasks_ms: u64,
    /// The sweep gave up on this session: running, but silent for longer than
    /// any real turn goes without firing a hook.
    ///
    /// A flag rather than a message written into the headline. The headline
    /// only changes at turn boundaries, so a sentence dropped into it by the
    /// sweep outlives the situation it describes.
    pub stalled: bool,
    /// The agent process that owns this session, as `(pid, creation time)`.
    /// The creation time is what makes it safe: pids get reused, and a reused
    /// pid would otherwise report a dead session as alive.
    pub agent_pid: u32,
    pub agent_created: u64,
    /// Timestamp of the event this session describes. Matching hooks run in
    /// parallel, so two writers can race; the older one must lose.
    pub event_ms: u64,
    /// Nobody sits in front of this one: its supervisor resumes it.
    pub background: bool,
    /// Where the overlay can read what this session is saying while it works.
    pub transcript: String,
    /// Which turn this is, by the prompt that began it.
    pub prompt_id: String,
    pub prev_prompt_id: String,
    /// The chat in the desktop app that this session is, if it is one.
    pub chat_id: String,
    pub chat_title: String,
    /// What the agent is saying.
    pub narration: String,
    /// Background work still running, by the transcript.
    pub outstanding: u64,
}

#[verifier::ext_equal]
pub struct SessionView {
    pub session_id: Seq<char>,
    pub provider: Provider,
    pub state: Seq<char>,
    pub headline: Seq<char>,
    pub activity: Seq<char>,
    pub kind: Seq<char>,
    pub detail: Seq<char>,
    pub project: Seq<char>,
    pub workspace: Seq<char>,
    pub project_root: Seq<char>,
    pub scratch: bool,
    pub cwd: Seq<char>,
    pub event: Seq<char>,
    pub updated_ms: u64,
    pub started_ms: u64,
    pub turn_started_ms: u64,
    pub turn_ended_ms: u64,
    pub turn_tools: u64,
    pub turn_tools_partial: bool,
    pub tools: u64,
    pub recent: Seq<EntryView>,
    pub outcome: Seq<char>,
    pub outcome_ms: u64,
    pub settles_ms: u64,
    pub waiting_since: u64,
    pub waiting_reason: Seq<char>,
    pub pending_tool: Seq<char>,
    pub pending_detail: Seq<char>,
    pub pending_since: u64,
    pub pending_risk: Seq<char>,
    pub pending_agent: Seq<char>,
    pub hiccups: u64,
    pub blocked: u64,
    pub subagents: u64,
    pub agents: Seq<Seq<char>>,
    pub tasks: Seq<Seq<char>>,
    pub tasks_ms: u64,
    pub stalled: bool,
    pub agent_pid: u32,
    pub agent_created: u64,
    pub event_ms: u64,
    pub background: bool,
    pub transcript: Seq<char>,
    pub prompt_id: Seq<char>,
    pub prev_prompt_id: Seq<char>,
    pub chat_id: Seq<char>,
    pub chat_title: Seq<char>,
    pub narration: Seq<char>,
    pub outstanding: u64,
}

impl View for Session {
    type V = SessionView;

    open spec fn view(&self) -> SessionView {
        SessionView {
            session_id: self.session_id@,
            provider: self.provider,
            state: self.state@,
            headline: self.headline@,
            activity: self.activity@,
            kind: self.kind@,
            detail: self.detail@,
            project: self.project@,
            workspace: self.workspace@,
            project_root: self.project_root@,
            scratch: self.scratch,
            cwd: self.cwd@,
            event: self.event@,
            updated_ms: self.updated_ms,
            started_ms: self.started_ms,
            turn_started_ms: self.turn_started_ms,
            turn_ended_ms: self.turn_ended_ms,
            turn_tools: self.turn_tools,
            turn_tools_partial: self.turn_tools_partial,
            tools: self.tools,
            recent: entries(self.recent@),
            outcome: self.outcome@,
            outcome_ms: self.outcome_ms,
            settles_ms: self.settles_ms,
            waiting_since: self.waiting_since,
            waiting_reason: self.waiting_reason@,
            pending_tool: self.pending_tool@,
            pending_detail: self.pending_detail@,
            pending_since: self.pending_since,
            pending_risk: self.pending_risk@,
            pending_agent: self.pending_agent@,
            hiccups: self.hiccups,
            blocked: self.blocked,
            subagents: self.subagents,
            agents: strings::views(self.agents@),
            tasks: strings::views(self.tasks@),
            tasks_ms: self.tasks_ms,
            stalled: self.stalled,
            agent_pid: self.agent_pid,
            agent_created: self.agent_created,
            event_ms: self.event_ms,
            background: self.background,
            transcript: self.transcript@,
            prompt_id: self.prompt_id@,
            prev_prompt_id: self.prev_prompt_id@,
            chat_id: self.chat_id@,
            chat_title: self.chat_title@,
            narration: self.narration@,
            outstanding: self.outstanding,
        }
    }
}

/// A session of which nothing is known.
pub open spec fn blank() -> SessionView {
    SessionView {
        session_id: seq![],
        provider: Provider::ClaudeCode,
        state: seq![],
        headline: seq![],
        activity: seq![],
        kind: seq![],
        detail: seq![],
        project: seq![],
        workspace: seq![],
        project_root: seq![],
        scratch: false,
        cwd: seq![],
        event: seq![],
        updated_ms: 0,
        started_ms: 0,
        turn_started_ms: 0,
        turn_ended_ms: 0,
        turn_tools: 0,
        turn_tools_partial: false,
        tools: 0,
        recent: seq![],
        outcome: seq![],
        outcome_ms: 0,
        settles_ms: 0,
        waiting_since: 0,
        waiting_reason: seq![],
        pending_tool: seq![],
        pending_detail: seq![],
        pending_since: 0,
        pending_risk: seq![],
        pending_agent: seq![],
        hiccups: 0,
        blocked: 0,
        subagents: 0,
        agents: seq![],
        tasks: seq![],
        tasks_ms: 0,
        stalled: false,
        agent_pid: 0,
        agent_created: 0,
        event_ms: 0,
        background: false,
        transcript: seq![],
        prompt_id: seq![],
        prev_prompt_id: seq![],
        chat_id: seq![],
        chat_title: seq![],
        narration: seq![],
        outstanding: 0,
    }
}

impl Default for Session {
    fn default() -> (r: Session)
        ensures
            r@ == blank(),
    {
        let r = Session {
            session_id: String::new(),
            provider: Provider::ClaudeCode,
            state: String::new(),
            headline: String::new(),
            activity: String::new(),
            kind: String::new(),
            detail: String::new(),
            project: String::new(),
            workspace: String::new(),
            project_root: String::new(),
            scratch: false,
            cwd: String::new(),
            event: String::new(),
            updated_ms: 0,
            started_ms: 0,
            turn_started_ms: 0,
            turn_ended_ms: 0,
            turn_tools: 0,
            turn_tools_partial: false,
            tools: 0,
            recent: Vec::new(),
            outcome: String::new(),
            outcome_ms: 0,
            settles_ms: 0,
            waiting_since: 0,
            waiting_reason: String::new(),
            pending_tool: String::new(),
            pending_detail: String::new(),
            pending_since: 0,
            pending_risk: String::new(),
            pending_agent: String::new(),
            hiccups: 0,
            blocked: 0,
            subagents: 0,
            agents: Vec::new(),
            tasks: Vec::new(),
            tasks_ms: 0,
            stalled: false,
            agent_pid: 0,
            agent_created: 0,
            event_ms: 0,
            background: false,
            transcript: String::new(),
            prompt_id: String::new(),
            prev_prompt_id: String::new(),
            chat_id: String::new(),
            chat_title: String::new(),
            narration: String::new(),
            outstanding: 0,
        };
        assert(r@ =~= blank());
        r
    }
}

impl Session {
    /// A session of its own with the same contents.
    pub fn copy(&self) -> (r: Session)
        ensures
            r@ == self@,
    {
        Session {
            session_id: self.session_id.clone(),
            provider: self.provider,
            state: self.state.clone(),
            headline: self.headline.clone(),
            activity: self.activity.clone(),
            kind: self.kind.clone(),
            detail: self.detail.clone(),
            project: self.project.clone(),
            workspace: self.workspace.clone(),
            project_root: self.project_root.clone(),
            scratch: self.scratch,
            cwd: self.cwd.clone(),
            event: self.event.clone(),
            updated_ms: self.updated_ms,
            started_ms: self.started_ms,
            turn_started_ms: self.turn_started_ms,
            turn_ended_ms: self.turn_ended_ms,
            turn_tools: self.turn_tools,
            turn_tools_partial: self.turn_tools_partial,
            tools: self.tools,
            recent: copy_entries(&self.recent),
            outcome: self.outcome.clone(),
            outcome_ms: self.outcome_ms,
            settles_ms: self.settles_ms,
            waiting_since: self.waiting_since,
            waiting_reason: self.waiting_reason.clone(),
            pending_tool: self.pending_tool.clone(),
            pending_detail: self.pending_detail.clone(),
            pending_since: self.pending_since,
            pending_risk: self.pending_risk.clone(),
            pending_agent: self.pending_agent.clone(),
            hiccups: self.hiccups,
            blocked: self.blocked,
            subagents: self.subagents,
            agents: strings::copy_all(&self.agents),
            tasks: strings::copy_all(&self.tasks),
            tasks_ms: self.tasks_ms,
            stalled: self.stalled,
            agent_pid: self.agent_pid,
            agent_created: self.agent_created,
            event_ms: self.event_ms,
            background: self.background,
            transcript: self.transcript.clone(),
            prompt_id: self.prompt_id.clone(),
            prev_prompt_id: self.prev_prompt_id.clone(),
            chat_id: self.chat_id.clone(),
            chat_title: self.chat_title.clone(),
            narration: self.narration.clone(),
            outstanding: self.outstanding,
        }
    }
}
pub open spec fn session_views(v: Seq<Session>) -> Seq<SessionView> {
    v.map_values(|s: Session| s@)
}

/// The log with one more line, unless it repeats the last one; the oldest lines
/// go once there are more than [`RECENT_LIMIT`].
pub open spec fn logged(recent: Seq<EntryView>, entry: EntryView) -> Seq<EntryView> {
    if recent.len() > 0 && recent.last().state == entry.state && recent.last().text == entry.text {
        recent
    } else {
        let all = recent.push(entry);
        if all.len() > RECENT_LIMIT {
            all.skip(all.len() - RECENT_LIMIT)
        } else {
            all
        }
    }
}

/// The durable states in which a session is doing something.
///
/// They exclude "waiting", "done" and "failed". Those answer different
/// questions (is a human blocking this, and how did the last turn end), and
/// storing them as the state is what lets a card get stuck on an alert forever
/// when the resolving event never arrives.
pub open spec fn running_state(state: Seq<char>) -> bool {
    state == "thinking"@ || state == "running"@ || state == "compacting"@
}

impl SessionView {
    pub open spec fn progressed(self) -> SessionView {
        SessionView {
            outcome: seq![],
            outcome_ms: 0,
            settles_ms: 0,
            waiting_since: 0,
            waiting_reason: seq![],
            ..self
        }
    }

    pub open spec fn unprompted(self) -> SessionView {
        SessionView {
            pending_tool: seq![],
            pending_detail: seq![],
            pending_risk: seq![],
            pending_since: 0,
            ..self
        }
    }

    /// What every event keeps: no subagent is counted twice, their number is
    /// the number of their ids, and neither the ids nor the log grow without
    /// bound.
    pub open spec fn wf(self) -> bool {
        &&& self.agents.no_duplicates()
        &&& self.agents.len() <= MAX_AGENTS
        &&& self.subagents == self.agents.len()
        &&& self.recent.len() <= RECENT_LIMIT
    }
}

impl Session {
    pub fn push_recent(&mut self, state: &str, text: &str, at: u64)
        ensures
            final(self)@ == (SessionView {
                recent: logged(
                    old(self)@.recent,
                    (EntryView { ms: at, state: state@, text: text@ }),
                ),
                ..old(self)@
            }),
    {
        let n: usize = self.recent.len();
        if n > 0 && strings::same(self.recent[n - 1].state.as_str(), state) && strings::same(
            self.recent[n - 1].text.as_str(),
            text,
        ) {
            return ;
        }
        let ghost before = entries(self.recent@);
        let ghost line = EntryView { ms: at, state: state@, text: text@ };
        let entry = Entry { ms: at, state: state.to_owned(), text: text.to_owned() };
        let mut kept: Vec<Entry> = Vec::new();
        let from: usize = if n >= RECENT_LIMIT {
            n - RECENT_LIMIT + 1
        } else {
            0
        };
        let mut i: usize = from;
        while i < n
            invariant
                from <= i <= n,
                n == self.recent@.len(),
                self@ == old(self)@,
                entries(self.recent@) == before,
                kept@.len() == i - from,
                forall|j: int| 0 <= j < kept@.len() ==> (#[trigger] kept@[j])@ == before[from + j],
            decreases n - i,
        {
            kept.push(
                Entry {
                    ms: self.recent[i].ms,
                    state: self.recent[i].state.clone(),
                    text: self.recent[i].text.clone(),
                },
            );
            i = i + 1;
        }
        kept.push(entry);
        assert(entries(kept@) =~= logged(before, line));
        self.recent = kept;
        assert(self@ =~= (SessionView { recent: logged(before, line), ..old(self)@ }));
    }

    pub fn is_running(&self) -> (r: bool)
        ensures
            r == running_state(self@.state),
    {
        let state = self.state.as_str();
        strings::same(state, "thinking") || strings::same(state, "running") || strings::same(
            state,
            "compacting",
        )
    }

    /// Forward progress: whatever the session was blocked on or had finished
    /// is no longer true.
    pub fn clear_pending(&mut self)
        ensures
            final(self)@ == old(self)@.progressed(),
    {
        self.outcome = String::new();
        self.outcome_ms = 0;
        self.settles_ms = 0;
        self.waiting_since = 0;
        self.waiting_reason = String::new();
        assert(self@ =~= old(self)@.progressed());
    }

    pub fn clear_permission(&mut self)
        ensures
            final(self)@ == old(self)@.unprompted(),
    {
        self.pending_tool = String::new();
        self.pending_detail = String::new();
        self.pending_risk = String::new();
        self.pending_since = 0;
        assert(self@ =~= old(self)@.unprompted());
    }
}

/// The log never grows past its limit.
pub proof fn the_log_is_bounded(recent: Seq<EntryView>, entry: EntryView)
    requires
        recent.len() <= RECENT_LIMIT,
    ensures
        logged(recent, entry).len() <= RECENT_LIMIT,
{
}

/// The newest line is the last one, and the lines before it keep their order.
pub proof fn the_log_keeps_the_newest(recent: Seq<EntryView>, entry: EntryView)
    ensures
        logged(recent, entry).len() > 0,
        logged(recent, entry).last().state == entry.state,
        logged(recent, entry).last().text == entry.text,
        logged(recent, entry) == recent || exists|k: int|
            0 <= k <= recent.len() && logged(recent, entry) == #[trigger] recent.skip(k).push(entry),
{
    let all = recent.push(entry);
    if logged(recent, entry) != recent {
        let k = if all.len() > RECENT_LIMIT {
            all.len() - RECENT_LIMIT
        } else {
            0
        };
        assert(logged(recent, entry) =~= recent.skip(k).push(entry));
    }
}

// --- names -----------------------------------------------------------------
pub open spec fn name_char(c: char) -> bool {
    strings::is_ascii_alnum(c) || c == '-' || c == '_'
}

/// The first characters of `id` that may stand in a file's name, `n` at most.
pub open spec fn name_chars(id: Seq<char>, n: nat) -> Seq<char>
    decreases id.len(),
{
    if id.len() == 0 || n == 0 {
        seq![]
    } else if name_char(id[0]) {
        seq![id[0]] + name_chars(id.skip(1), (n - 1) as nat)
    } else {
        name_chars(id.skip(1), n)
    }
}

pub open spec fn sanitized(id: Seq<char>) -> Seq<char> {
    let cleaned = name_chars(id, 96);
    if cleaned.len() == 0 {
        "unknown"@
    } else {
        cleaned
    }
}

/// Session ids come from an external process, so never let one escape the
/// sessions directory.
pub fn sanitize(id: &str) -> (r: String)
    ensures
        r@ == sanitized(id@),
{
    let v = strings::chars_of(id);
    let mut out = String::new();
    let mut kept: usize = 0;
    let mut i: usize = 0;
    assert(v@.skip(0) =~= v@);
    assert(out@ + name_chars(v@, 96) =~= name_chars(v@, 96));
    while i < v.len() && kept < 96
        invariant
            i <= v@.len(),
            kept <= 96,
            out@.len() == kept,
            out@ + name_chars(v@.skip(i as int), (96 - kept) as nat) == name_chars(id@, 96),
        decreases v@.len() - i,
    {
        let c = v[i];
        let ghost before = out@;
        assert(v@.skip(i as int).skip(1) =~= v@.skip(i + 1));
        if strings::ascii_alphanumeric(c) || c == '-' || c == '_' {
            out.push(c);
            kept = kept + 1;
            assert(before + (seq![c] + name_chars(v@.skip(i + 1), (96 - kept) as nat)) =~= out@
                + name_chars(v@.skip(i + 1), (96 - kept) as nat));
        }
        i = i + 1;
    }
    assert(out@ + name_chars(v@.skip(i as int), (96 - kept) as nat) =~= out@);
    if kept == 0 {
        "unknown".to_owned()
    } else {
        out
    }
}

proof fn lemma_name_chars(id: Seq<char>, n: nat)
    ensures
        name_chars(id, n).len() <= n,
        forall|i: int| 0 <= i < name_chars(id, n).len() ==> name_char(#[trigger] name_chars(id, n)[i]),
        id.len() <= n && (forall|i: int| 0 <= i < id.len() ==> name_char(#[trigger] id[i]))
            ==> name_chars(id, n) == id,
    decreases id.len(),
{
    if id.len() > 0 && n > 0 {
        let rest = id.skip(1);
        lemma_name_chars(rest, (n - 1) as nat);
        lemma_name_chars(rest, n);
        if id.len() <= n && (forall|i: int| 0 <= i < id.len() ==> name_char(#[trigger] id[i])) {
            assert forall|i: int| 0 <= i < rest.len() implies name_char(#[trigger] rest[i]) by {
                assert(rest[i] == id[i + 1]);
            }
            assert(name_char(id[0]));
            assert(seq![id[0]] + rest =~= id);
        }
    } else if id.len() == 0 {
        assert(name_chars(id, n) =~= id);
    }
}

/// Whatever an id holds, the name made of it is a plain one: never empty, never
/// long, and without a separator or a dot that would lead out of the directory.
pub proof fn sanitized_names_are_plain(id: Seq<char>)
    ensures
        1 <= sanitized(id).len() <= 96,
        forall|i: int| 0 <= i < sanitized(id).len() ==> name_char(#[trigger] sanitized(id)[i]),
{
    reveal_strlit("unknown");
    lemma_name_chars(id, 96);
}

/// A name that is already plain is left as it is.
pub proof fn sanitizing_twice_changes_nothing(id: Seq<char>)
    ensures
        sanitized(sanitized(id)) == sanitized(id),
{
    sanitized_names_are_plain(id);
    lemma_name_chars(sanitized(id), 96);
}

// --- where things are ----------------------------------------------------------
/// The overlay's own folder. Every path here is below the home directory, one
/// name per step.
pub fn root() -> (r: Vec<String>)
    ensures
        strings::views(r@) == seq![".pipsqueak"@],
{
    let r: Vec<String> = vec![".pipsqueak".to_owned()];
    assert(strings::views(r@) =~= seq![".pipsqueak"@]);
    r
}

/// A file or a folder of the overlay's own.
fn in_root(name: &str) -> (r: Vec<String>)
    ensures
        strings::views(r@) == seq![".pipsqueak"@, name@],
{
    let r: Vec<String> = vec![".pipsqueak".to_owned(), name.to_owned()];
    assert(strings::views(r@) =~= seq![".pipsqueak"@, name@]);
    r
}

pub fn sessions_dir() -> (r: Vec<String>)
    ensures
        strings::views(r@) == seq![".pipsqueak"@, "sessions"@],
{
    in_root("sessions")
}

pub fn pets_dir() -> (r: Vec<String>)
    ensures
        strings::views(r@) == seq![".pipsqueak"@, "pets"@],
{
    in_root("pets")
}

pub fn codex_pets_dir() -> (r: Vec<String>)
    ensures
        strings::views(r@) == seq![".codex"@, "pets"@],
{
    let r: Vec<String> = vec![".codex".to_owned(), "pets".to_owned()];
    assert(strings::views(r@) =~= seq![".codex"@, "pets"@]);
    r
}

pub fn config_path() -> (r: Vec<String>)
    ensures
        strings::views(r@) == seq![".pipsqueak"@, "config.json"@],
{
    in_root("config.json")
}

/// One-shot instruction for a running overlay, written by `pipsqueak control`.
pub fn command_path() -> (r: Vec<String>)
    ensures
        strings::views(r@) == seq![".pipsqueak"@, "command.json"@],
{
    in_root("command.json")
}

/// Written every time the global hotkey fires.
///
/// "The shortcut does nothing" is otherwise unanswerable: registering the chord
/// and receiving the keypress are separate things, and from outside the process
/// they look identical. This makes the second one observable.
pub fn hotkey_log_path() -> (r: Vec<String>)
    ensures
        strings::views(r@) == seq![".pipsqueak"@, "hotkey.json"@],
{
    in_root("hotkey.json")
}

/// Touched by the running overlay so other invocations can tell it is alive.
pub fn heartbeat_path() -> (r: Vec<String>)
    ensures
        strings::views(r@) == seq![".pipsqueak"@, "running.json"@],
{
    in_root("running.json")
}

pub fn claude_settings_path() -> (r: Vec<String>)
    ensures
        strings::views(r@) == seq![agent::folder_spec(), "settings.json"@],
{
    let r: Vec<String> = vec![agent::folder(), "settings.json".to_owned()];
    assert(strings::views(r@) =~= seq![agent::folder_spec(), "settings.json"@]);
    r
}

/// The home directory, given the variable that names it.
pub fn home_dir(variable: Option<&str>) -> (r: String)
    ensures
        r@ == (match variable {
            Some(path) => path@,
            None => "."@,
        }),
{
    match variable {
        Some(path) => path.to_owned(),
        None => ".".to_owned(),
    }
}

/// Milliseconds since the epoch, given the time that has passed since then; a
/// clock that stands before it reads as zero.
pub fn now_ms(elapsed: Option<u128>) -> (r: u64)
    ensures
        r == (match elapsed {
            Some(ms) => ms as u64,
            None => 0u64,
        }),
{
    match elapsed {
        Some(ms) => #[verifier::truncate] (ms as u64),
        None => 0,
    }
}

// --- the order of the cards ------------------------------------------------------
/// How much a session needs a human.
pub open spec fn rank(s: SessionView) -> u8 {
    if s.waiting_since > 0 {
        3
    } else if s.outcome == "failed"@ {
        2
    } else {
        0
    }
}

pub fn attention_rank(session: &Session) -> (r: u8)
    ensures
        r == rank(session@),
{
    if session.waiting_since > 0 {
        3
    } else if strings::same(session.outcome.as_str(), "failed") {
        2
    } else {
        0
    }
}

/// Whether a session goes before another: anything needing a human wins, then
/// the most recently active.
pub open spec fn ahead(a: SessionView, b: SessionView) -> bool {
    rank(a) > rank(b) || (rank(a) == rank(b) && a.updated_ms > b.updated_ms)
}

/// An ordered list with one more session in it, behind those that it does not
/// go before.
pub open spec fn placed(list: Seq<SessionView>, s: SessionView) -> Seq<SessionView>
    decreases list.len(),
{
    if list.len() == 0 || !ahead(s, list.last()) {
        list.push(s)
    } else {
        placed(list.drop_last(), s).push(list.last())
    }
}

pub open spec fn by_attention(list: Seq<SessionView>) -> Seq<SessionView>
    decreases list.len(),
{
    if list.len() == 0 {
        seq![]
    } else {
        placed(by_attention(list.drop_last()), list.last())
    }
}

fn place(sessions: &mut Vec<Session>, s: Session)
    ensures
        session_views(final(sessions)@) == placed(session_views(old(sessions)@), s@),
{
    let ghost all = session_views(sessions@);
    let ghost held = s@;
    let own: u8 = attention_rank(&s);
    let mut at: usize = sessions.len();
    assert(all.take(at as int) =~= all);
    assert(placed(all.take(at as int), held) + all.skip(at as int) =~= placed(all, held));
    while at > 0
        invariant
            at <= sessions@.len(),
            sessions@ == old(sessions)@,
            all == session_views(sessions@),
            held == s@,
            own == rank(held),
            placed(all.take(at as int), held) + all.skip(at as int) == placed(all, held),
        ensures
            at <= sessions@.len(),
            all == session_views(sessions@),
            placed(all.take(at as int), held) + all.skip(at as int) == placed(all, held),
            at == 0 || !ahead(held, all[at - 1]),
        decreases at,
    {
        let last = &sessions[at - 1];
        let other: u8 = attention_rank(last);
        let goes_first = own > other || (own == other && s.updated_ms > last.updated_ms);
        if !goes_first {
            break;
        }
        proof {
            let front = all.take(at as int);
            assert(front.last() == all[at - 1]);
            assert(front.drop_last() =~= all.take(at - 1));
            assert(placed(all.take(at - 1), held).push(all[at - 1]) + all.skip(at as int)
                =~= placed(all.take(at - 1), held) + all.skip(at - 1));
        }
        at = at - 1;
    }
    proof {
        let front = all.take(at as int);
        if at > 0 {
            assert(front.last() == all[at - 1]);
        }
        assert(placed(front, held) == front.push(held));
        assert(front.push(held) + all.skip(at as int) =~= all.insert(at as int, held));
    }
    sessions.insert(at, s);
    assert(session_views(sessions@) =~= all.insert(at as int, held));
}

/// The sessions in the order in which they are shown.
pub fn read_sessions(found: &Vec<Session>) -> (r: Vec<Session>)
    ensures
        session_views(r@) == by_attention(session_views(found@)),
{
    let ghost all = session_views(found@);
    let mut out: Vec<Session> = Vec::new();
    let mut i: usize = 0;
    assert(all.take(0) =~= seq![]);
    assert(session_views(out@) =~= seq![]);
    while i < found.len()
        invariant
            i <= found@.len(),
            all == session_views(found@),
            session_views(out@) == by_attention(all.take(i as int)),
        decreases found@.len() - i,
    {
        assert(all.take(i + 1).drop_last() =~= all.take(i as int));
        assert(all.take(i + 1).last() == found@[i as int]@);
        place(&mut out, found[i].copy());
        i = i + 1;
    }
    assert(all.take(i as int) =~= all);
    out
}

proof fn lemma_placed(list: Seq<SessionView>, s: SessionView)
    requires
        forall|i: int, j: int|
            0 <= i < j < list.len() ==> !ahead(#[trigger] list[j], #[trigger] list[i]),
    ensures
        placed(list, s).to_multiset() == list.to_multiset().insert(s),
        forall|i: int, j: int|
            0 <= i < j < placed(list, s).len() ==> !ahead(
                #[trigger] placed(list, s)[j],
                #[trigger] placed(list, s)[i],
            ),
        placed(list, s).len() == list.len() + 1,
        forall|i: int|
            0 <= i < placed(list, s).len() ==> #[trigger] placed(list, s)[i] == s || list.contains(
                placed(list, s)[i],
            ),
    decreases list.len(),
{
    broadcast use vstd::seq_lib::group_to_multiset_ensures;

    if list.len() > 0 && ahead(s, list.last()) {
        let rest = list.drop_last();
        let last = list.last();
        lemma_placed(rest, s);
        let before = placed(rest, s);
        assert(rest.push(last) =~= list);
        assert(before.push(last).to_multiset() =~= list.to_multiset().insert(s));
        assert forall|i: int| 0 <= i < before.len() implies !ahead(last, #[trigger] before[i]) by {
            if before[i] != s {
                let k = choose|k: int| 0 <= k < rest.len() && rest[k] == before[i];
                assert(list[k] == rest[k]);
                assert(!ahead(list[list.len() - 1], list[k]));
            }
        }
        let after = placed(list, s);
        assert forall|i: int| 0 <= i < after.len() implies #[trigger] after[i] == s
            || list.contains(after[i]) by {
            if i < before.len() {
                if before[i] != s {
                    let k = choose|k: int| 0 <= k < rest.len() && rest[k] == before[i];
                    assert(list[k] == after[i]);
                }
            } else {
                assert(list[list.len() - 1] == after[i]);
            }
        }
    } else {
        let after = list.push(s);
        assert forall|i: int, j: int| 0 <= i < j < after.len() implies !ahead(
            #[trigger] after[j],
            #[trigger] after[i],
        ) by {
            if j == list.len() && list.len() > 0 {
                if i < list.len() - 1 {
                    assert(!ahead(list[list.len() - 1], list[i]));
                }
            }
        }
        assert forall|i: int| 0 <= i < after.len() implies #[trigger] after[i] == s
            || list.contains(after[i]) by {
            if i < list.len() {
                assert(list[i] == after[i]);
            }
        }
    }
}

/// Ordering drops no session and adds none, and nobody who needs a human is
/// behind one who does not.
pub proof fn the_order_keeps_every_session(list: Seq<SessionView>)
    ensures
        by_attention(list).to_multiset() == list.to_multiset(),
        forall|i: int, j: int|
            0 <= i < j < by_attention(list).len() ==> !ahead(
                #[trigger] by_attention(list)[j],
                #[trigger] by_attention(list)[i],
            ),
    decreases list.len(),
{
    broadcast use vstd::seq_lib::group_to_multiset_ensures;

    if list.len() > 0 {
        the_order_keeps_every_session(list.drop_last());
        lemma_placed(by_attention(list.drop_last()), list.last());
        assert(list.drop_last().push(list.last()) =~= list);
    }
}

// --- retiring -------------------------------------------------------------------------
/// What was found on reading a session file.
pub enum Found {
    /// It could not be read just now.
    Unreadable,
    /// It was read, and is no session that this build understands.
    Unparseable,
    Read(Session),
}

/// What becomes of a session file.
pub enum Fate {
    Leave,
    Remove,
    Write(Session),
}

#[verifier::ext_equal]
pub enum FateView {
    Leave,
    Remove,
    Write(SessionView),
}

impl View for Fate {
    type V = FateView;

    open spec fn view(&self) -> FateView {
        match self {
            Fate::Leave => FateView::Leave,
            Fate::Remove => FateView::Remove,
            Fate::Write(s) => FateView::Write(s@),
        }
    }
}

/// Whether a session claims work that is not happening. One that reported how
/// its turn ended is not silently stuck, however long ago that was, and one that
/// is waiting on a human is waiting however long that takes.
pub open spec fn unresponsive(s: SessionView, age: u64) -> bool {
    &&& age > WORKING_STALE_MS
    &&& running_state(s.state)
    &&& s.outcome.len() == 0
    &&& s.waiting_since == 0
    &&& s.pending_since == 0
}

pub fn has_stopped_responding(session: &Session, age: u64) -> (r: bool)
    ensures
        r == unresponsive(session@, age),
{
    age > WORKING_STALE_MS && session.is_running() && session.outcome.as_str().is_empty()
        && session.waiting_since == 0 && session.pending_since == 0
}

/// A session that stopped responding. Not a completion: saying "Done" here would
/// be the same lie in a friendlier voice. The headline is left alone: it still
/// describes what the turn was about, which is true whatever happened next.
pub open spec fn retired(s: SessionView, now: u64) -> SessionView {
    SessionView {
        state: "idle"@,
        kind: "Idle"@,
        activity: seq![],
        subagents: 0,
        agents: seq![],
        turn_ended_ms: now,
        stalled: true,
        ..s
    }
}

pub open spec fn saturated_age(now: u64, then_ms: u64) -> u64 {
    if now > then_ms {
        (now - then_ms) as u64
    } else {
        0u64
    }
}

/// What the sweep does with a session, given whether its agent is alive.
pub open spec fn swept(s: SessionView, now: u64, alive: bool) -> FateView {
    let age = saturated_age(now, s.updated_ms);
    if s.agent_pid != 0 && !alive {
        FateView::Remove
    } else if age > STALE_AFTER_MS {
        FateView::Remove
    } else if unresponsive(s, age) {
        FateView::Write(retired(s, now))
    } else {
        FateView::Leave
    }
}

fn retire(session: &mut Session, now: u64)
    ensures
        final(session)@ == retired(old(session)@, now),
{
    session.state = "idle".to_owned();
    session.kind = "Idle".to_owned();
    session.activity = String::new();
    session.subagents = 0;
    session.agents = Vec::new();
    session.turn_ended_ms = now;
    session.stalled = true;
    assert(session@ =~= retired(old(session)@, now));
}

/// Retires a session that is no longer telling the truth.
///
/// Three rules, in order of how confident each is:
///
/// 1. The agent process is gone. Certain, so delete the session outright.
/// 2. Nothing at all for [`STALE_AFTER_MS`]. Delete.
/// 3. Nothing has happened for [`WORKING_STALE_MS`] while the card claims work
///    is in progress. That silence means the turn died without a word.
///    Downgrade rather than delete, since the session may still be resumed. A
///    session genuinely *waiting* on a human is never downgraded: being asked a
///    question is silence too. It goes by the first two rules like any other.
///
/// A file that cannot be read just now is left for the next sweep; one that was
/// read and makes no sense can only mislead.
pub fn sweep(found: Found, now: u64, alive: bool) -> (r: Fate)
    ensures
        r@ == (match found {
            Found::Unreadable => FateView::Leave,
            Found::Unparseable => FateView::Remove,
            Found::Read(s) => swept(s@, now, alive),
        }),
{
    match found {
        Found::Unreadable => Fate::Leave,
        Found::Unparseable => Fate::Remove,
        Found::Read(s) => {
            let mut session = s;
            let age: u64 = now.saturating_sub(session.updated_ms);
            if session.agent_pid != 0 && !alive {
                Fate::Remove
            } else if age > STALE_AFTER_MS {
                Fate::Remove
            } else if has_stopped_responding(&session, age) {
                retire(&mut session, now);
                Fate::Write(session)
            } else {
                Fate::Leave
            }
        },
    }
}

/// A session that waits on a human, or has a prompt nobody answered, is never
/// said to have stopped responding.
pub proof fn a_waiting_session_is_never_stalled(s: SessionView, now: u64, alive: bool)
    requires
        s.waiting_since > 0 || s.pending_since > 0,
    ensures
        !(swept(s, now, alive) is Write),
{
}

/// The sweep never says how a turn ended, and never touches what it was about.
pub proof fn the_sweep_invents_no_outcome(s: SessionView, now: u64, alive: bool)
    ensures
        swept(s, now, alive) matches FateView::Write(after) ==> {
            &&& after.outcome == s.outcome && after.outcome.len() == 0
            &&& after.headline == s.headline
            &&& after.stalled
            &&& !running_state(after.state)
            &&& swept(after, now, alive) is Leave
        },
{
    lemma_idle();
}

proof fn lemma_idle()
    ensures
        !running_state("idle"@),
{
    reveal_strlit("idle");
    reveal_strlit("thinking");
    reveal_strlit("running");
    reveal_strlit("compacting");
    assert("idle"@.len() == 4 && "thinking"@.len() == 8 && "running"@.len() == 7
        && "compacting"@.len() == 10);
}

/// A live session is only removed for its age.
pub proof fn only_the_dead_and_the_old_are_removed(s: SessionView, now: u64, alive: bool)
    ensures
        swept(s, now, alive) is Remove ==> (s.agent_pid != 0 && !alive) || now - s.updated_ms
            > STALE_AFTER_MS,
{
}

// --- the lock on a session file --------------------------------------------------------
/// Held for the read-modify-write of one session file.
///
/// Hooks for one event run in parallel, so two processes routinely touch the
/// same file at the same moment. Without this, both read the same "before", and
/// whichever renames last silently discards the other's event.
pub struct FileLock {
    /// How often the lock was asked for.
    pub attempts: u32,
    pub held: bool,
}

/// How often a lock is asked for before the work goes on without it. Losing an
/// event is worse than an interleaved write: a hook that gives up writes nothing
/// at all.
pub const LOCK_ATTEMPTS: u32 = 40;

/// What to do after an attempt on a lock.
#[derive(Clone, Copy, PartialEq, Eq, Structural)]
pub enum Step {
    /// The lock is held, or is done without: get on with it.
    Proceed,
    /// Remove the lock that is there and ask again.
    Steal,
    /// Wait a moment and ask again.
    Wait,
}

/// What comes after an attempt on a lock, the first of them being number nought.
pub open spec fn lock_step(attempts: u32, created: bool, age: Option<u64>) -> Step {
    if created {
        Step::Proceed
    } else if attempts == 0 && (age matches Some(seconds) && seconds >= 2) {
        Step::Steal
    } else if attempts + 1 == LOCK_ATTEMPTS {
        Step::Proceed
    } else {
        Step::Wait
    }
}

impl FileLock {
    pub fn new() -> (r: FileLock)
        ensures
            r.attempts == 0,
            !r.held,
    {
        FileLock { attempts: 0, held: false }
    }

    /// What comes after an attempt that did or did not get the lock, given how
    /// many seconds old the lock that was there is, if that can be told.
    ///
    /// A hook killed mid-write would otherwise block every later event for its
    /// session forever, so a lock that is provably old is taken away, on the
    /// first attempt only. One whose age cannot be read is not.
    pub fn acquire(&mut self, created: bool, age: Option<u64>) -> (r: Step)
        requires
            !old(self).held,
            old(self).attempts < LOCK_ATTEMPTS,
        ensures
            final(self).held == created,
            final(self).attempts == old(self).attempts + 1,
            r == lock_step(old(self).attempts, created, age),
    {
        let first = self.attempts == 0;
        self.attempts = self.attempts + 1;
        self.held = created;
        if created {
            return Step::Proceed;
        }
        let expired = match age {
            Some(seconds) => seconds >= 2,
            None => false,
        };
        if first && expired {
            Step::Steal
        } else if self.attempts == LOCK_ATTEMPTS {
            Step::Proceed
        } else {
            Step::Wait
        }
    }

    /// Whether letting go means removing the lock file.
    pub fn release(&self) -> (r: bool)
        ensures
            r == self.held,
    {
        self.held
    }
}

// --- the configuration -------------------------------------------------------------------
/// The shape this build understands. Bumped when a field changes meaning, not
/// when one is merely added.
///
/// 2: the window grew to fit the setup panel, which moved the pet (drawn at the
///    bottom of it) down by the difference.
pub const CONFIG_VERSION: u32 = 2;

/// The bits of the smallest and the largest scale, and of the usual one: 1, 6
/// and 2 as floating-point numbers.
pub const SCALE_MIN: u64 = 0x3FF0_0000_0000_0000;

pub const SCALE_MAX: u64 = 0x4018_0000_0000_0000;

pub const SCALE_USUAL: u64 = 0x4000_0000_0000_0000;

/// The bits from which on a floating-point number is infinite, not a number, or
/// below zero.
pub const SCALE_UNUSABLE: u64 = 0x7FF0_0000_0000_0000;

pub struct Config {
    /// Which build's idea of this file it is. See [`CONFIG_VERSION`].
    pub version: u32,
    /// False until the first run has been acknowledged.
    pub welcomed: bool,
    pub pet: String,
    /// The pet's size, as the bits of a floating-point number.
    pub scale: u64,
    pub click_through: bool,
    pub show_bubble: bool,
    /// Sessions rooted in a temp directory (scripted runs, evals) are hidden
    /// unless asked for. They are not projects and drown out real work.
    pub show_scratch: bool,
    /// Beep when a project starts waiting on you.
    pub alert_on_waiting: bool,
    /// Blink the tray icon when a project finishes. The only channel that
    /// reaches you when the overlay is behind a fullscreen window.
    pub flash_on_finish: bool,
    /// Do not disturb: no sound, no tray flash. The pet still updates.
    pub quiet: bool,
    /// The chord that shows and hides the pet, e.g. "Ctrl+Alt+P". "off" disables
    /// it.
    pub hotkey: String,
    /// Ask whether there is a newer release. Off until asked for.
    pub update_check: bool,
    /// A version the user has already been told about and did not want.
    pub update_dismissed: String,
    /// How much of itself a session is allowed to say.
    pub narrate: String,
    /// Whether it has been decided if the pet starts with the machine.
    pub autostart_initialised: bool,
    pub x: Option<i32>,
    pub y: Option<i32>,
}

#[verifier::ext_equal]
pub struct ConfigView {
    pub version: u32,
    pub welcomed: bool,
    pub pet: Seq<char>,
    pub scale: u64,
    pub click_through: bool,
    pub show_bubble: bool,
    pub show_scratch: bool,
    pub alert_on_waiting: bool,
    pub flash_on_finish: bool,
    pub quiet: bool,
    pub hotkey: Seq<char>,
    pub update_check: bool,
    pub update_dismissed: Seq<char>,
    pub narrate: Seq<char>,
    pub autostart_initialised: bool,
    pub x: Option<i32>,
    pub y: Option<i32>,
}

impl View for Config {
    type V = ConfigView;

    open spec fn view(&self) -> ConfigView {
        ConfigView {
            version: self.version,
            welcomed: self.welcomed,
            pet: self.pet@,
            scale: self.scale,
            click_through: self.click_through,
            show_bubble: self.show_bubble,
            show_scratch: self.show_scratch,
            alert_on_waiting: self.alert_on_waiting,
            flash_on_finish: self.flash_on_finish,
            quiet: self.quiet,
            hotkey: self.hotkey@,
            update_check: self.update_check,
            update_dismissed: self.update_dismissed@,
            narrate: self.narrate@,
            autostart_initialised: self.autostart_initialised,
            x: self.x,
            y: self.y,
        }
    }
}

pub open spec fn usual_config() -> ConfigView {
    ConfigView {
        version: CONFIG_VERSION,
        welcomed: false,
        pet: "byte"@,
        scale: SCALE_USUAL,
        click_through: false,
        show_bubble: true,
        show_scratch: false,
        alert_on_waiting: false,
        flash_on_finish: true,
        quiet: false,
        hotkey: "Ctrl+Alt+P"@,
        update_check: false,
        update_dismissed: seq![],
        narrate: seq![],
        autostart_initialised: false,
        x: None,
        y: None,
    }
}

impl Default for Config {
    fn default() -> (r: Config)
        ensures
            r@ == usual_config(),
    {
        let r = Config {
            version: CONFIG_VERSION,
            welcomed: false,
            pet: "byte".to_owned(),
            scale: SCALE_USUAL,
            click_through: false,
            show_bubble: true,
            show_scratch: false,
            alert_on_waiting: false,
            flash_on_finish: true,
            quiet: false,
            hotkey: "Ctrl+Alt+P".to_owned(),
            update_check: false,
            update_dismissed: String::new(),
            narrate: String::new(),
            autostart_initialised: false,
            x: None,
            y: None,
        };
        assert(r@ =~= usual_config());
        r
    }
}

/// A scale pulled back to something usable.
pub open spec fn usable_scale(bits: u64) -> u64 {
    if bits == 0 || bits >= SCALE_UNUSABLE {
        SCALE_USUAL
    } else if bits < SCALE_MIN {
        SCALE_MIN
    } else if bits > SCALE_MAX {
        SCALE_MAX
    } else {
        bits
    }
}

impl ConfigView {
    /// Every out-of-range value pulled back to something usable.
    pub open spec fn clamped(self) -> ConfigView {
        ConfigView {
            scale: usable_scale(self.scale),
            pet: if strings::trimmed(self.pet).len() == 0 {
                "byte"@
            } else {
                self.pet
            },
            ..self
        }
    }

    /// Brought up to date from an older build's shape.
    pub open spec fn migrated(self) -> ConfigView {
        if self.version < 2 {
            ConfigView { version: 2, ..self }
        } else {
            self
        }
    }
}

impl Config {
    /// Pulls any out-of-range value back to something usable.
    ///
    /// Per field rather than all-or-nothing: one bad number in a hand-edited
    /// file should cost that one setting, not every other one alongside it.
    pub fn clamp(&mut self)
        ensures
            final(self)@ == old(self)@.clamped(),
    {
        if self.scale == 0 || self.scale >= SCALE_UNUSABLE {
            self.scale = SCALE_USUAL;
        } else if self.scale < SCALE_MIN {
            self.scale = SCALE_MIN;
        } else if self.scale > SCALE_MAX {
            self.scale = SCALE_MAX;
        }
        if strings::trim(self.pet.as_str()).as_str().is_empty() {
            self.pet = "byte".to_owned();
        }
        assert(self@ =~= old(self)@.clamped());
    }
}

/// Brings a config written by an older build up to date.
///
/// Each step moves one version forward and nothing else, so a config that has
/// been sitting on disk through several releases arrives correct rather than
/// having the newest step applied to the oldest shape. The saved position is
/// left alone on purpose: correcting it needs the display, which placement has.
pub fn migrate(config: &mut Config)
    ensures
        final(config)@ == old(config)@.migrated(),
{
    if config.version < 2 {
        config.version = 2;
    }
    assert(config@ =~= old(config)@.migrated());
}

/// What was found on reading the config file.
pub enum ConfigFile {
    /// No file yet: a first run, not a problem.
    Missing,
    Unparseable,
    Parsed(Config),
}

pub open spec fn loaded(file: ConfigFile) -> ConfigView {
    match file {
        ConfigFile::Parsed(config) => config@.migrated().clamped(),
        _ => usual_config(),
    }
}

/// Reads the config, surviving anything that might have happened to the file,
/// and says whether the file is to be set aside.
///
/// It gets hand-edited, half-written by a crash, and occasionally written by a
/// newer build than this one. None of those may lose the whole config: an
/// unparseable file is kept, since overwriting it with defaults destroys the
/// only copy of a setting they may have been editing when something went wrong.
pub fn load_config(file: ConfigFile) -> (r: (Config, bool))
    ensures
        r.0@ == loaded(file),
        r.1 == (file is Unparseable),
{
    match file {
        ConfigFile::Missing => (Config::default(), false),
        ConfigFile::Unparseable => (Config::default(), true),
        ConfigFile::Parsed(parsed) => {
            let mut config = parsed;
            migrate(&mut config);
            config.clamp();
            (config, false)
        },
    }
}

/// What is said when a config is not written.
pub fn newer_config() -> (r: &'static str)
    ensures
        r@ == "config.json was written by a newer version of Pipsqueak"@,
{
    "config.json was written by a newer version of Pipsqueak"
}

/// What to write for a config, `None` for one that a newer build wrote: rolling
/// it back to fields this one happens to know about would quietly delete their
/// settings.
pub open spec fn stored_spec(config: ConfigView) -> Option<ConfigView> {
    if config.version > CONFIG_VERSION {
        None
    } else {
        Some(ConfigView { version: CONFIG_VERSION, ..config.clamped() })
    }
}

pub fn save_config(config: Config) -> (r: Option<Config>)
    ensures
        (match r {
            Some(stored) => Some(stored@),
            None => None,
        }) == stored_spec(config@),
{
    if config.version > CONFIG_VERSION {
        return None;
    }
    let ghost given = config@;
    let mut stored = config;
    stored.clamp();
    stored.version = CONFIG_VERSION;
    assert(stored@ =~= (ConfigView { version: CONFIG_VERSION, ..given.clamped() }));
    Some(stored)
}

/// A value once pulled back into range stays there.
pub proof fn clamping_twice_changes_nothing(config: ConfigView)
    ensures
        config.clamped().clamped() == config.clamped(),
        SCALE_MIN <= config.clamped().scale <= SCALE_MAX,
{
    reveal_strlit("byte");
    let byte = "byte"@;
    assert(byte.len() == 4 && byte[0] == 'b' && byte[3] == 'e');
    assert(strings::trimmed_start(byte) == byte);
    assert(strings::trimmed(byte) == byte);
}

/// What is stored is what is loaded again.
pub proof fn a_stored_config_is_loaded_as_it_is(config: ConfigView)
    ensures
        ({
            let stored = ConfigView { version: CONFIG_VERSION, ..config.clamped() };
            stored.migrated().clamped() == stored
        }),
{
    clamping_twice_changes_nothing(config);
    let stored = ConfigView { version: CONFIG_VERSION, ..config.clamped() };
    assert(stored.migrated().clamped() =~= stored);
}

/// Neither reading nor storing a config moves the pet.
pub proof fn the_saved_position_is_left_alone(config: ConfigView)
    ensures
        config.migrated().clamped().x == config.x,
        config.migrated().clamped().y == config.y,
{
}

} // verus!
