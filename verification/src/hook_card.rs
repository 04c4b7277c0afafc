//! What each hook event does to the card of its session.

use vstd::prelude::*;
use vstd::string::*;

use crate::hook;
use crate::json::JsonView;
use crate::project::ProjectView;
use crate::risk;
use crate::state;
use crate::state::{EntryView, SessionView};
use crate::strings;
use crate::text;

verus! {

/// The names of the events are different names: most by their length, the
/// others by a letter.
proof fn lemma_events()
    ensures
        "SessionStart"@.len() == 12,
        "SessionEnd"@.len() == 10,
        "UserPromptSubmit"@.len() == 16,
        "PreToolUse"@.len() == 10,
        "PostToolUse"@.len() == 11,
        "PostToolUseFailure"@.len() == 18,
        "PermissionRequest"@.len() == 17,
        "PermissionDenied"@.len() == 16,
        "Notification"@.len() == 12,
        "Stop"@.len() == 4,
        "StopFailure"@.len() == 11,
        "SubagentStart"@.len() == 13,
        "SubagentStop"@.len() == 12,
        "PreCompact"@.len() == 10,
        "PostCompact"@.len() == 11,
        "SessionStart"@ != "Notification"@,
        "SessionStart"@ != "SubagentStop"@,
        "SessionEnd"@ != "PreToolUse"@,
        "SessionEnd"@ != "PreCompact"@,
        "UserPromptSubmit"@ != "PermissionDenied"@,
        "PreToolUse"@ != "PreCompact"@,
        "PostToolUse"@ != "StopFailure"@,
        "PostToolUse"@ != "PostCompact"@,
        "Notification"@ != "SubagentStop"@,
        "StopFailure"@ != "PostCompact"@,
{
    reveal_strlit("SessionStart");
    reveal_strlit("SessionEnd");
    reveal_strlit("UserPromptSubmit");
    reveal_strlit("PreToolUse");
    reveal_strlit("PostToolUse");
    reveal_strlit("PostToolUseFailure");
    reveal_strlit("PermissionRequest");
    reveal_strlit("PermissionDenied");
    reveal_strlit("Notification");
    reveal_strlit("Stop");
    reveal_strlit("StopFailure");
    reveal_strlit("SubagentStart");
    reveal_strlit("SubagentStop");
    reveal_strlit("PreCompact");
    reveal_strlit("PostCompact");
    assert("SessionStart"@[0] != "Notification"@[0]);
    assert("SessionStart"@[1] != "SubagentStop"@[1]);
    assert("SessionEnd"@[0] != "PreToolUse"@[0]);
    assert("SessionEnd"@[0] != "PreCompact"@[0]);
    assert("UserPromptSubmit"@[0] != "PermissionDenied"@[0]);
    assert("PreToolUse"@[3] != "PreCompact"@[3]);
    assert("PostToolUse"@[0] != "StopFailure"@[0]);
    assert("PostToolUse"@[4] != "PostCompact"@[4]);
    assert("Notification"@[0] != "SubagentStop"@[0]);
    assert("StopFailure"@[0] != "PostCompact"@[0]);
}

/// So are the words that a card uses.
proof fn lemma_states()
    ensures
        "idle"@.len() == 4,
        "thinking"@.len() == 8,
        "running"@.len() == 7,
        "compacting"@.len() == 10,
        "done"@.len() == 4,
        "failed"@.len() == 6,
        "Idle"@.len() == 4,
        "Thinking"@.len() == 8,
        "Done"@.len() == 4,
        "Failed"@.len() == 6,
        "Recovering"@.len() == 10,
        "Delegating"@.len() == 10,
        "Session started"@.len() == 15,
        "Context compacted"@.len() == 17,
        "Compacting context"@.len() == 18,
        "a tool"@.len() == 6,
        "Working"@.len() == 7,
        "Compacting"@.len() == 10,
        "permission_prompt"@.len() == 17,
        "idle_prompt"@.len() == 11,
        "agent_needs_input"@.len() == 17,
        "Waiting for permission"@.len() == 22,
        "Waiting for your reply"@.len() == 22,
        "A teammate needs input"@.len() == 22,
        "Waiting to be resumed"@.len() == 21,
        "blocked"@.len() == 7,
        "waiting"@.len() == 7,
        " failed"@.len() == 7,
        "Auto-mode blocked: "@.len() == 19,
        "Thinking…"@.len() == 9,
        "Subagent: "@.len() == 10,
        "Subagent finished"@.len() == 17,
        "Scheduled work still running"@.len() == 28,
        "Background tasks still running"@.len() == 30,
        "idle"@ != "done"@,
        "idle"@ != "Idle"@,
        "idle"@ != "Done"@,
        "thinking"@ != "Thinking"@,
        "running"@ != "Working"@,
        "running"@ != "blocked"@,
        "running"@ != "waiting"@,
        "running"@ != " failed"@,
        "compacting"@ != "Recovering"@,
        "compacting"@ != "Delegating"@,
        "compacting"@ != "Compacting"@,
        "compacting"@ != "Subagent: "@,
        "done"@ != "Idle"@,
        "done"@ != "Done"@,
        "failed"@ != "Failed"@,
        "failed"@ != "a tool"@,
        "Idle"@ != "Done"@,
        "Failed"@ != "a tool"@,
        "Recovering"@ != "Delegating"@,
        "Recovering"@ != "Compacting"@,
        "Recovering"@ != "Subagent: "@,
        "Delegating"@ != "Compacting"@,
        "Delegating"@ != "Subagent: "@,
        "Context compacted"@ != "permission_prompt"@,
        "Context compacted"@ != "agent_needs_input"@,
        "Context compacted"@ != "Subagent finished"@,
        "Working"@ != "blocked"@,
        "Working"@ != "waiting"@,
        "Working"@ != " failed"@,
        "Compacting"@ != "Subagent: "@,
        "permission_prompt"@ != "agent_needs_input"@,
        "permission_prompt"@ != "Subagent finished"@,
        "agent_needs_input"@ != "Subagent finished"@,
        "Waiting for permission"@ != "Waiting for your reply"@,
        "Waiting for permission"@ != "A teammate needs input"@,
        "Waiting for your reply"@ != "A teammate needs input"@,
        "blocked"@ != "waiting"@,
        "blocked"@ != " failed"@,
        "waiting"@ != " failed"@,
{
    reveal_strlit("idle");
    reveal_strlit("thinking");
    reveal_strlit("running");
    reveal_strlit("compacting");
    reveal_strlit("done");
    reveal_strlit("failed");
    reveal_strlit("Idle");
    reveal_strlit("Thinking");
    reveal_strlit("Done");
    reveal_strlit("Failed");
    reveal_strlit("Recovering");
    reveal_strlit("Delegating");
    reveal_strlit("Session started");
    reveal_strlit("Context compacted");
    reveal_strlit("Compacting context");
    reveal_strlit("a tool");
    reveal_strlit("Working");
    reveal_strlit("Compacting");
    reveal_strlit("permission_prompt");
    reveal_strlit("idle_prompt");
    reveal_strlit("agent_needs_input");
    reveal_strlit("Waiting for permission");
    reveal_strlit("Waiting for your reply");
    reveal_strlit("A teammate needs input");
    reveal_strlit("Waiting to be resumed");
    reveal_strlit("blocked");
    reveal_strlit("waiting");
    reveal_strlit(" failed");
    reveal_strlit("Auto-mode blocked: ");
    reveal_strlit("Thinking…");
    reveal_strlit("Subagent: ");
    reveal_strlit("Subagent finished");
    reveal_strlit("Scheduled work still running");
    reveal_strlit("Background tasks still running");
    assert("idle"@[0] != "done"@[0]);
    assert("idle"@[0] != "Idle"@[0]);
    assert("idle"@[0] != "Done"@[0]);
    assert("thinking"@[0] != "Thinking"@[0]);
    assert("running"@[0] != "Working"@[0]);
    assert("running"@[0] != "blocked"@[0]);
    assert("running"@[0] != "waiting"@[0]);
    assert("running"@[0] != " failed"@[0]);
    assert("compacting"@[0] != "Recovering"@[0]);
    assert("compacting"@[0] != "Delegating"@[0]);
    assert("compacting"@[0] != "Compacting"@[0]);
    assert("compacting"@[0] != "Subagent: "@[0]);
    assert("done"@[0] != "Idle"@[0]);
    assert("done"@[0] != "Done"@[0]);
    assert("failed"@[0] != "Failed"@[0]);
    assert("failed"@[0] != "a tool"@[0]);
    assert("Idle"@[0] != "Done"@[0]);
    assert("Failed"@[0] != "a tool"@[0]);
    assert("Recovering"@[0] != "Delegating"@[0]);
    assert("Recovering"@[0] != "Compacting"@[0]);
    assert("Recovering"@[0] != "Subagent: "@[0]);
    assert("Delegating"@[0] != "Compacting"@[0]);
    assert("Delegating"@[0] != "Subagent: "@[0]);
    assert("Context compacted"@[0] != "permission_prompt"@[0]);
    assert("Context compacted"@[0] != "agent_needs_input"@[0]);
    assert("Context compacted"@[0] != "Subagent finished"@[0]);
    assert("Working"@[0] != "blocked"@[0]);
    assert("Working"@[0] != "waiting"@[0]);
    assert("Working"@[0] != " failed"@[0]);
    assert("Compacting"@[0] != "Subagent: "@[0]);
    assert("permission_prompt"@[0] != "agent_needs_input"@[0]);
    assert("permission_prompt"@[0] != "Subagent finished"@[0]);
    assert("agent_needs_input"@[0] != "Subagent finished"@[0]);
    assert("Waiting for permission"@[12] != "Waiting for your reply"@[12]);
    assert("Waiting for permission"@[0] != "A teammate needs input"@[0]);
    assert("Waiting for your reply"@[0] != "A teammate needs input"@[0]);
    assert("blocked"@[0] != "waiting"@[0]);
    assert("blocked"@[0] != " failed"@[0]);
    assert("waiting"@[0] != " failed"@[0]);
}

/// The card after an event, taken as it reads. An event that says nothing
/// leaves it alone.
pub open spec fn after(
    s: SessionView,
    event: Seq<char>,
    payload: JsonView,
    now: u64,
    owner: Option<(u32, u64)>,
    place: ProjectView,
) -> SessionView {
    match hook::classified(event, payload) {
        Some(update) => hook::applied(s, event, payload, update, now, owner, place),
        None => s,
    }
}

/// A session that moves forward is neither finished nor waiting any more: a
/// prompt, a tool call or a compaction takes the last outcome off the card, and
/// whatever it was said to wait for.
pub proof fn moving_on_takes_the_outcome_off(
    s: SessionView,
    event: Seq<char>,
    payload: JsonView,
    now: u64,
    owner: Option<(u32, u64)>,
    place: ProjectView,
)
    requires
        event == "UserPromptSubmit"@ || event == "PreToolUse"@ || event == "PostToolUse"@
            || event == "PostToolUseFailure"@ || event == "PermissionDenied"@
            || event == "PreCompact"@ || event == "PostCompact"@,
        now >= s.event_ms,
    ensures
        hook::classified(event, payload) is Some,
        ({
            let t = after(s, event, payload, now, owner, place);
            &&& t.outcome == Seq::<char>::empty()
            &&& t.outcome_ms == 0
            &&& t.settles_ms == 0
            &&& t.waiting_since == 0
            &&& t.waiting_reason == Seq::<char>::empty()
        }),
{
    lemma_events();
    lemma_states();
}

/// The turn ending resolves what it was blocked on.
pub proof fn an_ended_turn_waits_for_nothing(
    s: SessionView,
    event: Seq<char>,
    payload: JsonView,
    now: u64,
    owner: Option<(u32, u64)>,
    place: ProjectView,
)
    requires
        event == "Stop"@ || event == "StopFailure"@,
        now >= s.event_ms,
    ensures
        after(s, event, payload, now, owner, place).waiting_since == 0,
        after(s, event, payload, now, owner, place).waiting_reason == Seq::<char>::empty(),
{
    lemma_events();
    lemma_states();
}

/// Nothing else takes an outcome off a card, or ends a wait: neither a session
/// starting again, nor a question, nor what a subagent does.
pub proof fn other_events_leave_the_outcome(
    s: SessionView,
    event: Seq<char>,
    payload: JsonView,
    now: u64,
    owner: Option<(u32, u64)>,
    place: ProjectView,
)
    requires
        event == "SessionStart"@ || event == "PermissionRequest"@ || event == "Notification"@
            || event == "SubagentStart"@ || event == "SubagentStop"@,
    ensures
        ({
            let t = after(s, event, payload, now, owner, place);
            &&& t.outcome == s.outcome
            &&& t.outcome_ms == s.outcome_ms
            &&& t.settles_ms == s.settles_ms
            &&& t.turn_ended_ms == s.turn_ended_ms || t.turn_ended_ms == 0
            &&& s.waiting_since > 0 ==> t.waiting_since == s.waiting_since
            &&& event != "Notification"@ ==> t.waiting_since == s.waiting_since
                && t.waiting_reason == s.waiting_reason
        }),
{
    lemma_events();
    lemma_states();
}

/// An event that proves that the tool ran or was refused, or that the turn is
/// over, takes the prompt off the record, unless it is a subagent's.
pub proof fn an_answered_prompt_is_closed(
    s: SessionView,
    event: Seq<char>,
    payload: JsonView,
    now: u64,
    owner: Option<(u32, u64)>,
    place: ProjectView,
)
    requires
        event == "PreToolUse"@ || event == "PostToolUse"@ || event == "PostToolUseFailure"@
            || event == "PermissionDenied"@ || event == "UserPromptSubmit"@ || event == "Stop"@
            || event == "StopFailure"@,
        s.pending_tool.len() > 0,
    ensures
        ({
            let t = after(s, event, payload, now, owner, place);
            let agent = hook::text_of(payload, "agent_id"@);
            &&& agent.len() == 0 ==> {
                &&& t.pending_tool == Seq::<char>::empty()
                &&& t.pending_detail == Seq::<char>::empty()
                &&& t.pending_risk == Seq::<char>::empty()
                &&& t.pending_since == 0
            }
            &&& agent.len() > 0 ==> {
                &&& t.pending_tool == s.pending_tool
                &&& t.pending_detail == s.pending_detail
                &&& t.pending_risk == s.pending_risk
                &&& t.pending_since == s.pending_since
            }
        }),
{
    lemma_events();
    lemma_states();
}

/// No other event answers a prompt: what is pending stays pending.
pub proof fn an_open_prompt_stays_open(
    s: SessionView,
    event: Seq<char>,
    payload: JsonView,
    now: u64,
    owner: Option<(u32, u64)>,
    place: ProjectView,
)
    requires
        event == "SessionStart"@ || event == "Notification"@ || event == "SubagentStart"@ || event
            == "SubagentStop"@ || event == "PreCompact"@ || event == "PostCompact"@,
    ensures
        ({
            let t = after(s, event, payload, now, owner, place);
            &&& t.pending_tool == s.pending_tool
            &&& t.pending_detail == s.pending_detail
            &&& t.pending_risk == s.pending_risk
            &&& t.pending_since == s.pending_since
        }),
{
    lemma_events();
    lemma_states();
}

/// A permission request puts on the record which tool asks, for what, how
/// dangerous that is and since when; asked again for the same, it keeps the time
/// of the first.
pub proof fn a_request_goes_on_record(
    s: SessionView,
    payload: JsonView,
    now: u64,
    owner: Option<(u32, u64)>,
    place: ProjectView,
)
    ensures
        ({
            let t = after(s, "PermissionRequest"@, payload, now, owner, place);
            let tool = hook::text_of(payload, "tool_name"@);
            let named = if tool.len() == 0 { "a tool"@ } else { tool };
            let detail = hook::phrase_spec(tool, payload.get("tool_input"@)).infinitive;
            &&& t.pending_tool == named
            &&& t.pending_detail == detail
            &&& s.pending_tool == named && s.pending_detail == detail ==> t.pending_since
                == s.pending_since && t.pending_risk == s.pending_risk
            &&& !(s.pending_tool == named && s.pending_detail == detail) ==> t.pending_since == now
                && ((tool == "Bash"@ || tool == "PowerShell"@) ==> {
                let command = payload.field("tool_input"@).text_at("command"@);
                t.pending_risk == (match command {
                    Some(c) => match risk::reason_of(c) {
                        Some(reason) => reason,
                        None => Seq::<char>::empty(),
                    },
                    None => Seq::<char>::empty(),
                })
            }) && (tool != "Bash"@ && tool != "PowerShell"@ ==> t.pending_risk
                == Seq::<char>::empty())
        }),
{
    lemma_events();
    lemma_states();
}

/// A session that starts is idle and says so; one that starts again because its
/// context was compacted is in the middle of a turn.
pub proof fn a_session_starts_idle(
    s: SessionView,
    payload: JsonView,
    now: u64,
    owner: Option<(u32, u64)>,
    place: ProjectView,
)
    requires
        now >= s.event_ms,
    ensures
        ({
            let t = after(s, "SessionStart"@, payload, now, owner, place);
            if hook::text_of(payload, "source"@) == "compact"@ {
                &&& t.state == "thinking"@
                &&& t.headline == s.headline
                &&& t.activity == "Context compacted"@
            } else {
                &&& t.state == "idle"@
                &&& t.headline == "Session started"@
                &&& hook::text_of(payload, "agent_id"@).len() == 0 ==> t.kind == "Idle"@
            }
        }),
{
    lemma_events();
    lemma_states();
}

/// A prompt sets the card thinking, about what the prompt says.
pub proof fn a_prompt_sets_the_card_thinking(
    s: SessionView,
    payload: JsonView,
    now: u64,
    owner: Option<(u32, u64)>,
    place: ProjectView,
)
    requires
        now >= s.event_ms,
    ensures
        ({
            let t = after(s, "UserPromptSubmit"@, payload, now, owner, place);
            let prompt = hook::text_of(payload, "prompt"@);
            &&& t.state == "thinking"@
            &&& hook::text_of(payload, "agent_id"@).len() == 0 ==> t.kind == "Thinking"@
            &&& t.detail == text::truncated(prompt, 400)
            &&& text::summary_spec(prompt, 90) matches Some(told) ==> t.headline == told
        }),
{
    lemma_events();
    lemma_states();
}

/// A tool call is running, before and after it, and says what it does: in the
/// present while it runs, in the past once it has.
pub proof fn a_tool_call_says_what_it_does(
    s: SessionView,
    event: Seq<char>,
    payload: JsonView,
    now: u64,
    owner: Option<(u32, u64)>,
    place: ProjectView,
)
    requires
        event == "PreToolUse"@ || event == "PostToolUse"@,
        now >= s.event_ms,
    ensures
        ({
            let t = after(s, event, payload, now, owner, place);
            let tool = hook::text_of(payload, "tool_name"@);
            let words = hook::phrase_spec(tool, payload.get("tool_input"@));
            &&& t.state == "running"@
            &&& event == "PreToolUse"@ ==> t.activity == words.present
            &&& event == "PostToolUse"@ ==> t.activity == words.past
            &&& t.detail == Seq::<char>::empty()
            &&& t.headline == s.headline
            &&& hook::text_of(payload, "agent_id"@).len() > 0 ==> t.kind == "Delegating"@
            &&& hook::text_of(payload, "agent_id"@).len() == 0 ==> t.kind == hook::kind_spec(tool)
        }),
{
    lemma_events();
    lemma_states();
    lemma_kinds(hook::text_of(payload, "tool_name"@));
}

/// Every kind of work has a name.
proof fn lemma_kinds(tool: Seq<char>)
    ensures
        hook::kind_spec(tool).len() > 0,
        tool == "Task"@ || tool == "Agent"@ ==> hook::kind_spec(tool) == "Delegating"@,
{
    reveal_strlit("Calling ");
    reveal_strlit("Reading");
    reveal_strlit("Editing");
    reveal_strlit("Running");
    reveal_strlit("Browsing");
    reveal_strlit("Delegating");
    reveal_strlit("Running a skill");
    reveal_strlit("Planning");
    reveal_strlit("Working");
    reveal_strlit("Read");
    reveal_strlit("Glob");
    reveal_strlit("Grep");
    reveal_strlit("NotebookRead");
    reveal_strlit("Edit");
    reveal_strlit("Write");
    reveal_strlit("MultiEdit");
    reveal_strlit("NotebookEdit");
    reveal_strlit("Bash");
    reveal_strlit("PowerShell");
    reveal_strlit("WebFetch");
    reveal_strlit("WebSearch");
    reveal_strlit("Task");
    reveal_strlit("Agent");
    reveal_strlit("mcp__");
    if tool == "Task"@ || tool == "Agent"@ {
        assert(tool.len() < 5 || tool[0] != 'm');
        if strings::begins(tool, "mcp__"@) {
            assert(tool.take(5)[0] == 'm');
        }
    }
}

/// A tool that failed is work to recover from, not a turn that failed; one that
/// was refused is counted as blocked.
pub proof fn a_failed_call_is_not_a_failed_turn(
    s: SessionView,
    payload: JsonView,
    now: u64,
    owner: Option<(u32, u64)>,
    place: ProjectView,
)
    requires
        now >= s.event_ms,
        s.blocked < u64::MAX,
    ensures
        ({
            let tool = hook::text_of(payload, "tool_name"@);
            let failed = after(s, "PostToolUseFailure"@, payload, now, owner, place);
            let denied = after(s, "PermissionDenied"@, payload, now, owner, place);
            &&& failed.state == "running"@ && denied.state == "running"@
            &&& failed.outcome == Seq::<char>::empty() && denied.outcome == Seq::<char>::empty()
            &&& tool.len() > 0 ==> failed.activity == tool + " failed"@
            &&& tool.len() == 0 ==> failed.activity == "A tool failed"@
            &&& failed.detail == text::truncated(
                hook::first_line_spec(hook::text_of(payload, "error"@)),
                400,
            )
            &&& hook::text_of(payload, "agent_id"@).len() == 0 ==> failed.kind == "Recovering"@
            &&& denied.activity == "Auto-mode blocked: "@ + hook::phrase_spec(
                tool,
                payload.get("tool_input"@),
            ).infinitive
            &&& denied.blocked > 0 && denied.blocked <= s.blocked + 1
            &&& failed.blocked <= s.blocked
        }),
{
    lemma_events();
    lemma_states();
    reveal_strlit("running");
    reveal_strlit("Recovering");
    reveal_strlit("A tool");
    reveal_strlit(" failed");
    reveal_strlit("A tool failed");
    assert("A tool"@ + " failed"@ =~= "A tool failed"@);
}

/// Compacting is not thinking, and afterwards the turn goes on, unless a person
/// asked for it between turns.
pub proof fn compacting_is_shown_while_it_lasts(
    s: SessionView,
    payload: JsonView,
    now: u64,
    owner: Option<(u32, u64)>,
    place: ProjectView,
)
    requires
        now >= s.event_ms,
    ensures
        after(s, "PreCompact"@, payload, now, owner, place).state == "compacting"@,
        after(s, "PreCompact"@, payload, now, owner, place).activity == "Compacting context"@,
        after(s, "PostCompact"@, payload, now, owner, place).activity == "Context compacted"@,
        after(s, "PostCompact"@, payload, now, owner, place).state == (if hook::text_of(payload, "trigger"@) == "manual"@ {
            "idle"@
        } else {
            "thinking"@
        }),
        after(s, "PreCompact"@, payload, now, owner, place).headline == s.headline,
        after(s, "PostCompact"@, payload, now, owner, place).headline == s.headline,
{
    lemma_events();
    lemma_states();
}

/// A stop ends the turn, two seconds provisional, unless work is scheduled, or
/// tasks are running and nothing was said: then the session carries on.
pub proof fn a_stop_ends_the_turn_or_carries_on(
    s: SessionView,
    payload: JsonView,
    now: u64,
    owner: Option<(u32, u64)>,
    place: ProjectView,
)
    requires
        now >= s.event_ms,
        now + 2000 <= u64::MAX,
    ensures
        ({
            let t = after(s, "Stop"@, payload, now, owner, place);
            let message = hook::text_of(payload, "last_assistant_message"@);
            let scheduled = payload.field("session_crons"@).list() matches Some(l) && l.len() > 0;
            let tasks = payload.field("background_tasks"@).list() matches Some(l) && l.len() > 0;
            let hooked = payload.field("stop_hook_active"@) == JsonView::Bool(true);
            if scheduled || (tasks && !hooked && strings::trimmed(message).len() == 0) {
                &&& t.state == "running"@
                &&& t.outcome == Seq::<char>::empty()
                &&& t.outcome_ms == 0 && t.settles_ms == 0
                &&& t.activity == (if scheduled {
                    "Scheduled work still running"@
                } else {
                    "Background tasks still running"@
                })
            } else {
                &&& t.state == "idle"@
                &&& t.outcome == "done"@
                &&& t.outcome_ms == now
                &&& t.settles_ms == now + 2000
                &&& t.turn_ended_ms == now
                &&& hook::text_of(payload, "agent_id"@).len() == 0 ==> t.kind == "Done"@
                &&& t.detail == text::truncated(message, 600)
                &&& text::summary_spec(message, 90) matches Some(told) ==> t.headline == told
                &&& text::summary_spec(message, 90) is None ==> t.headline == s.headline
            }
        }),
{
    lemma_events();
    lemma_states();
}

/// A turn that failed says so at once, and why.
pub proof fn a_failed_turn_says_so(
    s: SessionView,
    payload: JsonView,
    now: u64,
    owner: Option<(u32, u64)>,
    place: ProjectView,
)
    requires
        now >= s.event_ms,
    ensures
        ({
            let t = after(s, "StopFailure"@, payload, now, owner, place);
            let why = hook::text_of(payload, "error_type"@);
            &&& t.state == "idle"@
            &&& t.outcome == "failed"@
            &&& t.outcome_ms == now && t.settles_ms == now && t.turn_ended_ms == now
            &&& why.len() == 0 ==> t.headline == "Turn failed"@
            &&& why.len() > 0 ==> t.headline == "Turn failed: "@ + Seq::new(
                why.len(),
                |i: int|
                    if why[i] == '_' {
                        ' '
                    } else {
                        why[i]
                    },
            )
            &&& t.detail == text::truncated(
                hook::first_line_spec(hook::text_of(payload, "error"@)),
                400,
            )
            &&& hook::text_of(payload, "agent_id"@).len() == 0 ==> t.kind == "Failed"@
        }),
{
    lemma_events();
    lemma_states();
    let why = hook::text_of(payload, "error_type"@);
    assert(strings::replaced(why, '_', ' ') =~= Seq::new(
        why.len(),
        |i: int|
            if why[i] == '_' {
                ' '
            } else {
                why[i]
            },
    ));
}

/// A notification that a person is needed puts the wait on the card with its
/// reason, from its first moment, whatever else it says of itself.
pub proof fn a_notification_asks_for_a_person(
    s: SessionView,
    payload: JsonView,
    now: u64,
    owner: Option<(u32, u64)>,
    place: ProjectView,
)
    requires
        now > 0,
        !s.background,
    ensures
        ({
            let t = after(s, "Notification"@, payload, now, owner, place);
            let kind = hook::text_of(payload, "notification_type"@);
            let message = text::truncated(hook::text_of(payload, "message"@), 200);
            let lower = strings::lowered(message);
            let since = if s.waiting_since == 0 { now } else { s.waiting_since };
            &&& kind == "permission_prompt"@ ==> t.waiting_since == since && t.waiting_reason == (
            if message.len() == 0 { "Waiting for permission"@ } else { message })
            &&& kind == "idle_prompt"@ ==> t.waiting_since == since && t.waiting_reason
                == "Waiting for your reply"@
            &&& kind == "agent_needs_input"@ ==> t.waiting_since == since && t.waiting_reason
                == "A teammate needs input"@
            &&& kind.len() == 0 && strings::has(lower, "permission"@) && message.len() > 0
                ==> t.waiting_since == since && t.waiting_reason == message
            &&& kind.len() == 0 && message.len() > 0 && strings::has(lower, "permission"@) == false
                && (strings::has(lower, "waiting for your"@) || strings::has(lower, "input"@))
                ==> t.waiting_since == since && t.waiting_reason == "Waiting for your reply"@
        }),
{
    lemma_events();
    lemma_states();
}

/// A notification of any other type, or one without a type that names neither a
/// permission nor a reply, is not looked at.
pub proof fn other_notifications_are_not_looked_at(payload: JsonView)
    requires
        ({
            let kind = hook::text_of(payload, "notification_type"@);
            let message = text::truncated(hook::text_of(payload, "message"@), 200);
            let lower = strings::lowered(message);
            &&& kind != "permission_prompt"@ && kind != "idle_prompt"@ && kind
                != "agent_needs_input"@
            &&& kind.len() > 0 || message.len() == 0 || (strings::has(lower, "permission"@)
                == false && strings::has(lower, "waiting for your"@) == false && strings::has(
                lower,
                "input"@,
            ) == false)
        }),
    ensures
        hook::classified("Notification"@, payload) is None,
{
    lemma_events();
    lemma_states();
}

/// In the background the end of a turn asks nobody: the card is idle and says
/// what it waits for. A question still asks.
pub proof fn in_the_background_only_questions_ask(
    s: SessionView,
    payload: JsonView,
    now: u64,
    owner: Option<(u32, u64)>,
    place: ProjectView,
)
    requires
        s.background,
        s.waiting_since == 0,
        now > 0,
        now >= s.event_ms,
    ensures
        ({
            let t = after(s, "Notification"@, payload, now, owner, place);
            let kind = hook::text_of(payload, "notification_type"@);
            &&& kind == "idle_prompt"@ ==> t.waiting_since == 0 && t.state == "idle"@ && t.activity
                == "Waiting to be resumed"@
            &&& kind == "permission_prompt"@ || kind == "agent_needs_input"@ ==> t.waiting_since
                == now && t.waiting_reason.len() > 0
        }),
{
    lemma_events();
    lemma_states();
}

/// Calls are counted where they start and nowhere else; the turn counts its own
/// alone.
pub proof fn calls_are_counted_where_they_start(
    s: SessionView,
    event: Seq<char>,
    payload: JsonView,
    now: u64,
    owner: Option<(u32, u64)>,
    place: ProjectView,
)
    requires
        s.tools < u64::MAX,
        s.turn_tools < u64::MAX,
        now + 2000 <= u64::MAX,
        hook::text_of(payload, "prompt_id"@) == s.prompt_id,
        s.prompt_id.len() > 0,
        hook::classified(event, payload) is Some,
    ensures
        ({
            let t = after(s, event, payload, now, owner, place);
            let own = hook::text_of(payload, "agent_id"@).len() == 0;
            &&& t.tools == s.tools + (if event == "PreToolUse"@ { 1int } else { 0int })
            &&& t.turn_tools == s.turn_tools + (if event == "PreToolUse"@
                && own { 1int } else { 0int })
            &&& t.turn_started_ms == s.turn_started_ms
        }),
{
    lemma_events();
    lemma_states();
}

/// A turn begins with an event of a turn that was not seen before, or with a
/// prompt where turns have no names: its clock starts, its counters start over
/// and its subagents are its own. Anything else leaves the turn running.
pub proof fn a_new_turn_starts_over(
    s: SessionView,
    event: Seq<char>,
    payload: JsonView,
    now: u64,
    owner: Option<(u32, u64)>,
    place: ProjectView,
)
    requires
        hook::classified(event, payload) is Some,
        s.turn_tools < u64::MAX,
        s.blocked < u64::MAX,
    ensures
        ({
            let t = after(s, event, payload, now, owner, place);
            let id = hook::text_of(payload, "prompt_id"@);
            let unseen = now >= s.event_ms && id.len() > 0 && id != s.prompt_id && id
                != s.prev_prompt_id;
            let own = event == "PreToolUse"@ && hook::text_of(payload, "agent_id"@).len() == 0;
            if unseen || (id.len() == 0 && event == "UserPromptSubmit"@) {
                &&& t.turn_started_ms == now
                &&& t.turn_tools == (if own { 1u64 } else { 0u64 })
                &&& t.blocked == (if event == "PermissionDenied"@ { 1u64 } else { 0u64 })
                &&& t.agents.len() <= 1
                &&& t.turn_ended_ms == 0 || t.turn_ended_ms == now
            } else {
                &&& t.turn_started_ms == s.turn_started_ms
                &&& t.turn_tools == s.turn_tools + (if own { 1int } else { 0int })
                &&& t.blocked == s.blocked + (if event == "PermissionDenied"@ { 1int } else { 0int })
            }
        }),
        ({
            let t = after(s, event, payload, now, owner, place);
            let id = hook::text_of(payload, "prompt_id"@);
            let unseen = now >= s.event_ms && id.len() > 0 && id != s.prompt_id && id
                != s.prev_prompt_id;
            if unseen {
                t.prompt_id == id && t.prev_prompt_id == s.prompt_id
            } else {
                t.prompt_id == s.prompt_id && t.prev_prompt_id == s.prev_prompt_id
            }
        }),
{
    lemma_events();
    lemma_states();
    let id = hook::text_of(payload, "agent_id"@);
    assert(hook::without(seq![], id) =~= seq![]);
}

/// A subagent that starts is at work, and one that stops is not; the number of
/// those at work is what the card shows. Other events change neither.
pub proof fn subagents_come_and_go(
    s: SessionView,
    event: Seq<char>,
    payload: JsonView,
    now: u64,
    owner: Option<(u32, u64)>,
    place: ProjectView,
)
    requires
        s.agents.len() < 64,
        hook::classified(event, payload) is Some,
        hook::text_of(payload, "prompt_id"@) == s.prompt_id,
        s.prompt_id.len() > 0,
    ensures
        ({
            let t = after(s, event, payload, now, owner, place);
            let id = hook::text_of(payload, "agent_id"@);
            let tool = hook::text_of(payload, "tool_name"@);
            let launch = event == "PreToolUse"@ && (tool == "Task"@ || tool == "Agent"@);
            &&& t.subagents == t.agents.len()
            &&& (event == "SubagentStart"@ || launch) && id.len() > 0 ==> t.agents.contains(id)
            &&& (event == "SubagentStart"@ || launch) ==> forall|x: Seq<char>|
                #![trigger t.agents.contains(x)]
                x != id ==> t.agents.contains(x) == s.agents.contains(x)
            &&& event == "SubagentStop"@ ==> forall|x: Seq<char>|
                #![trigger t.agents.contains(x)]
                t.agents.contains(x) <==> s.agents.contains(x) && x != id
            &&& event != "SubagentStart"@ && event != "SubagentStop"@ && !launch ==> t.agents
                == s.agents
        }),
{
    lemma_events();
    lemma_states();
    let id = hook::text_of(payload, "agent_id"@);
    let t = after(s, event, payload, now, owner, place);
    lemma_dropped(s.agents, id);
    let more = s.agents.push(id);
    assert(more[more.len() - 1] == id);
    assert forall|x: Seq<char>| x != id implies more.contains(x) == s.agents.contains(x) by {
        if s.agents.contains(x) {
            let k = choose|k: int| 0 <= k < s.agents.len() && s.agents[k] == x;
            assert(more[k] == x);
        }
        if more.contains(x) {
            let k = choose|k: int| 0 <= k < more.len() && more[k] == x;
            assert(s.agents[k] == x);
        }
    }
}

/// A card counts up to sixty-four subagents.
pub proof fn sixty_four_subagents_are_counted(agents: Seq<Seq<char>>, id: Seq<char>, change: i64)
    requires
        change > 0,
        id.len() > 0,
        !agents.contains(id),
    ensures
        agents.len() < 64 ==> hook::agents_after(agents, change, id) == agents.push(id),
        agents.len() >= 64 ==> hook::agents_after(agents, change, id) == agents,
{
}

/// A subagent that starts or stops once the turn is over says nothing on the card,
/// and neither does one that stops when none is at work; otherwise the card says
/// that it works, or has finished.
pub proof fn a_late_subagent_says_nothing(
    s: SessionView,
    event: Seq<char>,
    payload: JsonView,
    now: u64,
    owner: Option<(u32, u64)>,
    place: ProjectView,
)
    requires
        now >= s.event_ms,
        event == "SubagentStart"@ || event == "SubagentStop"@,
    ensures
        ({
            let t = after(s, event, payload, now, owner, place);
            let late = s.outcome.len() > 0 || (event == "SubagentStop"@ && s.subagents == 0);
            &&& late ==> {
                &&& t.state == s.state && t.kind == s.kind && t.activity == s.activity
                &&& t.headline == s.headline && t.detail == s.detail && t.recent == s.recent
            }
            &&& !late ==> {
                &&& t.state == "running"@ && t.kind == "Delegating"@
                &&& event == "SubagentStop"@ ==> t.activity == "Subagent finished"@
                &&& event == "SubagentStart"@ ==> strings::begins(t.activity, "Subagent: "@)
            }
            &&& t.outcome == s.outcome && t.outcome_ms == s.outcome_ms
            &&& t.waiting_since == s.waiting_since
        }),
{
    lemma_events();
    lemma_states();
    let who = hook::short_spec(hook::text_of(payload, "agent_type"@), "agent"@);
    let said = "Subagent: "@ + who;
    assert(said.take("Subagent: "@.len() as int) =~= "Subagent: "@);
}

proof fn lemma_dropped(ids: Seq<Seq<char>>, id: Seq<char>)
    ensures
        forall|x: Seq<char>|
            #![trigger hook::without(ids, id).contains(x)]
            hook::without(ids, id).contains(x) <==> ids.contains(x) && x != id,
        hook::without(ids, id).len() <= ids.len(),
    decreases ids.len(),
{
    let out = hook::without(ids, id);
    if ids.len() > 0 {
        let rest = ids.drop_last();
        lemma_dropped(rest, id);
        let less = hook::without(rest, id);
        assert forall|x: Seq<char>| #![trigger out.contains(x)] out.contains(x) <==> ids.contains(x)
            && x != id by {
            if out.contains(x) {
                let k = choose|k: int| 0 <= k < out.len() && out[k] == x;
                if k < less.len() {
                    assert(less[k] == x);
                    assert(less.contains(x));
                    let j = choose|j: int| 0 <= j < rest.len() && rest[j] == x;
                    assert(ids[j] == x);
                } else {
                    assert(ids[ids.len() - 1] == x);
                }
            }
            if ids.contains(x) && x != id {
                let j = choose|j: int| 0 <= j < ids.len() && ids[j] == x;
                if j < rest.len() {
                    assert(rest[j] == x);
                    assert(less.contains(x));
                    let k = choose|k: int| 0 <= k < less.len() && less[k] == x;
                    assert(out[k] == x);
                } else {
                    assert(out[out.len() - 1] == x);
                }
            }
        }
    }
}

/// The tasks on record are those that an event lists as running, and an event
/// without a list leaves them.
pub proof fn listed_tasks_are_those_that_run(
    s: SessionView,
    event: Seq<char>,
    payload: JsonView,
    now: u64,
    owner: Option<(u32, u64)>,
    place: ProjectView,
    id: Seq<char>,
)
    requires
        hook::classified(event, payload) is Some,
    ensures
        ({
            let t = after(s, event, payload, now, owner, place);
            match payload.field("background_tasks"@) {
                JsonView::Array(tasks) => {
                    &&& t.tasks_ms == now
                    &&& t.tasks.contains(id) <==> exists|i: int|
                        0 <= i < tasks.len() && (#[trigger] tasks[i]).text_at("status"@) == Some(
                            "running"@,
                        ) && tasks[i].text_at("id"@) == Some(id)
                },
                _ => t.tasks == s.tasks && t.tasks_ms == s.tasks_ms,
            }
        }),
{
    if let JsonView::Array(tasks) = payload.field("background_tasks"@) {
        lemma_running(tasks, id);
    }
}

proof fn lemma_running(tasks: Seq<JsonView>, id: Seq<char>)
    ensures
        hook::running_ids(tasks).contains(id) <==> exists|i: int|
            0 <= i < tasks.len() && (#[trigger] tasks[i]).text_at("status"@) == Some("running"@)
                && tasks[i].text_at("id"@) == Some(id),
    decreases tasks.len(),
{
    let out = hook::running_ids(tasks);
    if tasks.len() > 0 {
        let rest = tasks.drop_last();
        lemma_running(rest, id);
        let less = hook::running_ids(rest);
        if out.contains(id) {
            let k = choose|k: int| 0 <= k < out.len() && out[k] == id;
            if k < less.len() {
                assert(less[k] == id);
                assert(less.contains(id));
                let i = choose|i: int|
                    0 <= i < rest.len() && (#[trigger] rest[i]).text_at("status"@) == Some(
                        "running"@,
                    ) && rest[i].text_at("id"@) == Some(id);
                assert(tasks[i] == rest[i]);
            } else {
                assert(tasks[tasks.len() - 1].text_at("id"@) == Some(id));
            }
        }
        if exists|i: int|
            0 <= i < tasks.len() && (#[trigger] tasks[i]).text_at("status"@) == Some("running"@)
                && tasks[i].text_at("id"@) == Some(id) {
            let i = choose|i: int|
                0 <= i < tasks.len() && (#[trigger] tasks[i]).text_at("status"@) == Some(
                    "running"@,
                ) && tasks[i].text_at("id"@) == Some(id);
            if i < rest.len() {
                assert(rest[i] == tasks[i]);
                assert(less.contains(id));
                let k = choose|k: int| 0 <= k < less.len() && less[k] == id;
                assert(out[k] == id);
            } else {
                assert(out[out.len() - 1] == id);
            }
        }
    } else {
        assert(out.len() == 0);
    }
}

/// Where a session is and whose it is: the folder and the transcript are the
/// last that were told, the owner and the start are the first.
pub proof fn a_session_knows_its_place(
    s: SessionView,
    event: Seq<char>,
    payload: JsonView,
    now: u64,
    owner: Option<(u32, u64)>,
    place: ProjectView,
)
    requires
        hook::classified(event, payload) is Some,
    ensures
        ({
            let t = after(s, event, payload, now, owner, place);
            let cwd = hook::text_of(payload, "cwd"@);
            let transcript = hook::text_of(payload, "transcript_path"@);
            &&& cwd.len() > 0 && cwd != s.cwd ==> t.cwd == cwd && t.project == place.name
                && t.project_root == place.root && t.workspace == place.workspace && t.scratch
                == place.scratch
            &&& cwd.len() == 0 || cwd == s.cwd ==> t.cwd == s.cwd && t.project == s.project
                && t.project_root == s.project_root && t.workspace == s.workspace && t.scratch
                == s.scratch
            &&& t.transcript == (if transcript.len() > 0 { transcript } else { s.transcript })
            &&& s.agent_pid == 0 && owner is Some ==> (t.agent_pid, t.agent_created) == owner->0
            &&& s.agent_pid != 0 || owner is None ==> t.agent_pid == s.agent_pid
                && t.agent_created == s.agent_created
            &&& t.started_ms == (if s.started_ms == 0 { now } else { s.started_ms })
            &&& t.event == event
            &&& t.event_ms == now && t.updated_ms == now
            &&& !t.stalled
            &&& t.background == s.background
        }),
{
}

/// The log of a card ends with what it last said, marked by what that was.
pub proof fn the_log_ends_with_what_was_said(
    s: SessionView,
    event: Seq<char>,
    payload: JsonView,
    now: u64,
    owner: Option<(u32, u64)>,
    place: ProjectView,
)
    requires
        hook::classified(event, payload) is Some,
        s.recent.len() < state::RECENT_LIMIT,
    ensures
        ({
            let t = after(s, event, payload, now, owner, place);
            let marked = |tag: Seq<char>|
                t.recent.len() > 0 && t.recent.last().state == tag && t.recent.last().text
                    == t.activity;
            &&& event == "PermissionDenied"@ ==> marked("blocked"@)
            &&& event == "PostToolUseFailure"@ ==> marked("failed"@)
            &&& event == "UserPromptSubmit"@ ==> marked("thinking"@)
            &&& event == "PreCompact"@ ==> marked("compacting"@)
            &&& event == "Notification"@ && !s.background ==> marked("waiting"@)
            &&& event == "PermissionRequest"@ ==> t.recent == s.recent
            &&& event == "StopFailure"@ ==> t.recent == s.recent
            &&& forall|i: int| 0 <= i < s.recent.len() ==> t.recent[i] == s.recent[i]
            &&& t.recent.len() <= s.recent.len() + 1
            &&& t.recent.len() > s.recent.len() ==> t.recent.last().ms == now
        }),
{
    lemma_events();
    lemma_states();
}

/// The end of a session removes its file whatever it held, and nothing else
/// does.
pub proof fn only_the_end_removes(
    event: Seq<char>,
    id: Seq<char>,
    payload: JsonView,
    stored: Option<SessionView>,
    background: bool,
    now: u64,
    owner: Option<(u32, u64)>,
    place: ProjectView,
)
    ensures
        hook::verdict(event, id, payload, stored, background, now, owner, place) is Remove
            <==> event == "SessionEnd"@,
{
}

/// An event that says something is folded into the session on file, or into a
/// new one where work begins; what is written is that session's, and in the
/// background exactly when the event came from there.
pub proof fn what_is_written_is_the_sessions_own(
    event: Seq<char>,
    id: Seq<char>,
    payload: JsonView,
    stored: Option<SessionView>,
    background: bool,
    now: u64,
    owner: Option<(u32, u64)>,
    place: ProjectView,
)
    requires
        event == "SessionStart"@ || event == "UserPromptSubmit"@ || event == "PreToolUse"@
            || event == "PostToolUse"@ || event == "PostToolUseFailure"@
            || event == "PermissionRequest"@ || event == "PermissionDenied"@ || event == "Stop"@
            || event == "StopFailure"@ || event == "SubagentStart"@ || event == "SubagentStop"@
            || event == "PreCompact"@ || event == "PostCompact"@,
    ensures
        ({
            let v = hook::verdict(event, id, payload, stored, background, now, owner, place);
            &&& stored is Some ==> v is Write
            &&& stored is None && (event == "SessionStart"@
                || event == "UserPromptSubmit"@) ==> v is Write
            &&& v matches hook::VerdictView::Write(t) ==> {
                let s = match stored {
                    Some(s) => s,
                    None => state::blank(),
                };
                &&& t.session_id == id
                &&& t.background == background
                &&& t.event == event
                &&& (SessionView { session_id: s.session_id, ..t }) == after(
                    SessionView { background, ..s },
                    event,
                    payload,
                    now,
                    owner,
                    place,
                )
            }
        }),
{
    lemma_events();
    lemma_states();
}

/// An event that nobody knows leaves the file alone.
pub proof fn an_unknown_event_is_left_alone(
    event: Seq<char>,
    id: Seq<char>,
    payload: JsonView,
    stored: Option<SessionView>,
    background: bool,
    now: u64,
    owner: Option<(u32, u64)>,
    place: ProjectView,
)
    requires
        event != "SessionStart"@,
        event != "SessionEnd"@,
        event != "UserPromptSubmit"@,
        event != "PreToolUse"@,
        event != "PostToolUse"@,
        event != "PostToolUseFailure"@,
        event != "PermissionRequest"@,
        event != "PermissionDenied"@,
        event != "Notification"@,
        event != "Stop"@,
        event != "StopFailure"@,
        event != "SubagentStart"@,
        event != "SubagentStop"@,
        event != "PreCompact"@,
        event != "PostCompact"@,
    ensures
        hook::verdict(event, id, payload, stored, background, now, owner, place) is Leave,
{
}

/// The payload names its event and its session; where it does not, the command
/// line names the event, and the session has no name.
pub proof fn a_payload_names_its_event(payload: JsonView, told: Seq<char>)
    ensures
        payload.text_at("hook_event_name"@) matches Some(name) ==> hook::event_spec(
            payload,
            Some(told),
        ) == name && hook::event_spec(payload, None) == name,
        payload.text_at("hook_event_name"@) is None ==> hook::event_spec(payload, Some(told))
            == told && hook::event_spec(payload, None).len() == 0,
        payload.text_at("session_id"@) matches Some(id) ==> hook::session_spec(payload) == id,
        payload.text_at("session_id"@) is None ==> hook::session_spec(payload) == "unknown"@,
{
}

} // verus!
