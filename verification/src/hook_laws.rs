//! What holds of every hook event, whatever it carries and whatever session it
//! reaches.

use vstd::prelude::*;

use crate::hook;
use crate::hook::UpdateView;
use crate::json::JsonView;
use crate::project::ProjectView;
use crate::state;
use crate::state::SessionView;

verus! {

/// The events a tool call raises.
pub open spec fn is_tool_event(event: Seq<char>) -> bool {
    ||| event == "PreToolUse"@
    ||| event == "PostToolUse"@
    ||| event == "PostToolUseFailure"@
    ||| event == "PermissionDenied"@
}

/// The names of the events are different names: most by their length, the
/// others by a letter.
proof fn lemma_names()
    ensures
        "SessionStart"@.len() == 12,
        "SessionEnd"@.len() == 10,
        "UserPromptSubmit"@.len() == 16,
        "PreToolUse"@.len() == 10,
        "PostToolUse"@.len() == 11,
        "PostToolUseFailure"@.len() == 18,
        "PermissionRequest"@.len() == 17,
        "PermissionDenied"@.len() == 16,
        "Notification"@.len() == 12,
        "Stop"@.len() == 4,
        "StopFailure"@.len() == 11,
        "SubagentStart"@.len() == 13,
        "SubagentStop"@.len() == 12,
        "PreCompact"@.len() == 10,
        "PostCompact"@.len() == 11,
        "SessionStart"@ != "Notification"@,
        "SessionStart"@ != "SubagentStop"@,
        "SessionEnd"@ != "PreToolUse"@,
        "SessionEnd"@ != "PreCompact"@,
        "UserPromptSubmit"@ != "PermissionDenied"@,
        "PreToolUse"@ != "PreCompact"@,
        "PostToolUse"@ != "StopFailure"@,
        "PostToolUse"@ != "PostCompact"@,
        "Notification"@ != "SubagentStop"@,
        "StopFailure"@ != "PostCompact"@,
{
    reveal_strlit("SessionStart");
    reveal_strlit("SessionEnd");
    reveal_strlit("UserPromptSubmit");
    reveal_strlit("PreToolUse");
    reveal_strlit("PostToolUse");
    reveal_strlit("PostToolUseFailure");
    reveal_strlit("PermissionRequest");
    reveal_strlit("PermissionDenied");
    reveal_strlit("Notification");
    reveal_strlit("Stop");
    reveal_strlit("StopFailure");
    reveal_strlit("SubagentStart");
    reveal_strlit("SubagentStop");
    reveal_strlit("PreCompact");
    reveal_strlit("PostCompact");
    assert("SessionStart"@[0] != "Notification"@[0]);
    assert("SessionStart"@[1] != "SubagentStop"@[1]);
    assert("SessionEnd"@[0] != "PreToolUse"@[0]);
    assert("SessionEnd"@[0] != "PreCompact"@[0]);
    assert("UserPromptSubmit"@[0] != "PermissionDenied"@[0]);
    assert("PreToolUse"@[3] != "PreCompact"@[3]);
    assert("PostToolUse"@[0] != "StopFailure"@[0]);
    assert("PostToolUse"@[4] != "PostCompact"@[4]);
    assert("Notification"@[0] != "SubagentStop"@[0]);
    assert("StopFailure"@[0] != "PostCompact"@[0]);
}

/// A permission request alone changes nothing that a card shows. It is recorded
/// and no more: most are settled before anyone is asked.
pub proof fn a_permission_request_shows_nothing(
    s: SessionView,
    payload: JsonView,
    now: u64,
    owner: Option<(u32, u64)>,
    place: ProjectView,
)
    ensures
        ({
            let event = "PermissionRequest"@;
            &&& hook::classified(event, payload) is Some
            &&& ({
                let t = hook::applied(
                    s,
                    event,
                    payload,
                    hook::classified(event, payload)->0,
                    now,
                    owner,
                    place,
                );
                &&& t.state == s.state
                &&& t.headline == s.headline
                &&& t.activity == s.activity
                &&& t.kind == s.kind
                &&& t.detail == s.detail
                &&& t.outcome == s.outcome
                &&& t.waiting_since == s.waiting_since
                &&& t.waiting_reason == s.waiting_reason
                &&& t.recent == s.recent
                &&& t.pending_tool.len() > 0
            })
        }),
{
    lemma_names();
    reveal_strlit("a tool");
}

/// The events of a tool call never touch what the card says the turn is about.
pub proof fn tool_events_leave_the_headline(
    s: SessionView,
    event: Seq<char>,
    payload: JsonView,
    now: u64,
    owner: Option<(u32, u64)>,
    place: ProjectView,
)
    requires
        is_tool_event(event),
        hook::classified(event, payload) is Some,
    ensures
        hook::classified(event, payload)->0.headline is None,
        hook::applied(
            s,
            event,
            payload,
            hook::classified(event, payload)->0,
            now,
            owner,
            place,
        ).headline == s.headline,
{
    lemma_names();
}

/// An event that arrives after a later one can neither finish a turn nor take a
/// finished one back: the state and the outcome stay what they were.
pub proof fn a_straggler_changes_no_outcome(
    s: SessionView,
    event: Seq<char>,
    payload: JsonView,
    update: UpdateView,
    now: u64,
    owner: Option<(u32, u64)>,
    place: ProjectView,
)
    requires
        now < s.event_ms,
    ensures
        ({
            let t = hook::applied(s, event, payload, update, now, owner, place);
            &&& t.state == s.state
            &&& t.outcome == s.outcome
            &&& t.outcome_ms == s.outcome_ms
            &&& t.settles_ms == s.settles_ms
            &&& t.prompt_id == s.prompt_id
        }),
{
}

/// A tool call that really happened is counted, straggler or not.
pub proof fn every_tool_call_is_counted(
    s: SessionView,
    payload: JsonView,
    update: UpdateView,
    now: u64,
    owner: Option<(u32, u64)>,
    place: ProjectView,
)
    requires
        hook::has_room(s, update, now),
    ensures
        hook::applied(s, "PreToolUse"@, payload, update, now, owner, place).tools == s.tools + 1,
{
}

/// A subagent's work is not the turn's: whatever it does, the turn's own count
/// does not go up, the card says no more of it than that work was delegated,
/// and no prompt is taken as answered.
pub proof fn a_subagents_work_is_not_the_turns(
    s: SessionView,
    event: Seq<char>,
    payload: JsonView,
    update: UpdateView,
    now: u64,
    owner: Option<(u32, u64)>,
    place: ProjectView,
)
    requires
        hook::text_of(payload, "agent_id"@).len() > 0,
    ensures
        ({
            let t = hook::applied(s, event, payload, update, now, owner, place);
            &&& t.turn_tools <= s.turn_tools
            &&& t.kind == s.kind || t.kind == "Delegating"@
            &&& update.permission.len() == 0 ==> t.pending_tool == s.pending_tool
                && t.pending_since == s.pending_since
        }),
{
}

/// A subagent that reports in after its turn ended changes nothing on the card:
/// a turn that was announced as done stays done.
pub proof fn a_late_subagent_does_not_unfinish_a_turn(
    s: SessionView,
    event: Seq<char>,
    payload: JsonView,
    now: u64,
    owner: Option<(u32, u64)>,
    place: ProjectView,
)
    requires
        hook::trailing(event, s),
    ensures
        hook::classified(event, payload) is Some,
        ({
            let t = hook::applied(
                s,
                event,
                payload,
                hook::classified(event, payload)->0,
                now,
                owner,
                place,
            );
            &&& t.state == s.state
            &&& t.outcome == s.outcome
            &&& t.headline == s.headline
            &&& t.activity == s.activity
            &&& t.kind == s.kind
            &&& t.waiting_since == s.waiting_since
            &&& t.recent == s.recent
        }),
{
    lemma_names();
}

/// A background session whose turn simply ended is waiting on nobody.
pub proof fn a_background_session_awaits_its_supervisor(
    s: SessionView,
    event: Seq<char>,
    payload: JsonView,
    update: UpdateView,
    now: u64,
    owner: Option<(u32, u64)>,
    place: ProjectView,
)
    requires
        s.background,
        update.resumable,
        s.waiting_since == 0,
    ensures
        hook::applied(s, event, payload, update, now, owner, place).waiting_since == 0,
{
}

/// A permission prompt is never one of those waits: it alerts in the background
/// as it does in the foreground.
pub proof fn a_permission_prompt_always_alerts(
    s: SessionView,
    payload: JsonView,
    now: u64,
    owner: Option<(u32, u64)>,
    place: ProjectView,
)
    requires
        hook::text_of(payload, "notification_type"@) == "permission_prompt"@,
        now > 0,
    ensures
        hook::classified("Notification"@, payload) is Some,
        ({
            let update = hook::classified("Notification"@, payload)->0;
            let t = hook::applied(s, "Notification"@, payload, update, now, owner, place);
            &&& !update.resumable
            &&& t.waiting_since > 0
            &&& t.waiting_reason.len() > 0
        }),
{
    lemma_names();
    reveal_strlit("Waiting for permission");
}

/// A prompt that nobody answered stays on the record until an event proves that
/// the tool ran, was refused, or that the turn is over.
pub proof fn an_unanswered_prompt_survives(
    s: SessionView,
    event: Seq<char>,
    payload: JsonView,
    update: UpdateView,
    now: u64,
    owner: Option<(u32, u64)>,
    place: ProjectView,
)
    requires
        !hook::answers_prompt(event),
        update.permission.len() == 0,
    ensures
        ({
            let t = hook::applied(s, event, payload, update, now, owner, place);
            &&& t.pending_tool == s.pending_tool
            &&& t.pending_detail == s.pending_detail
            &&& t.pending_risk == s.pending_risk
            &&& t.pending_since == s.pending_since
        }),
{
}

/// The debounce of a wait never starts over: a second notification about the
/// same wait keeps the time of the first.
pub proof fn a_wait_keeps_its_first_timestamp(
    s: SessionView,
    event: Seq<char>,
    payload: JsonView,
    update: UpdateView,
    now: u64,
    owner: Option<(u32, u64)>,
    place: ProjectView,
)
    requires
        !hook::resolves(event),
        s.waiting_since > 0,
    ensures
        hook::applied(s, event, payload, update, now, owner, place).waiting_since
            == s.waiting_since,
{
}

/// Only a stop can finish a turn, and only a failed stop can fail one.
pub proof fn only_a_stop_ends_a_turn(event: Seq<char>, payload: JsonView)
    requires
        hook::classified(event, payload) is Some,
        hook::classified(event, payload)->0.outcome.len() > 0,
    ensures
        event == "Stop"@ && hook::classified(event, payload)->0.outcome == "done"@ || event
            == "StopFailure"@ && hook::classified(event, payload)->0.outcome == "failed"@,
{
}

/// A finished turn is held provisional before anyone is told, its clock stops
/// when it ends, and what it was blocked on is no longer asked.
pub proof fn a_finished_turn_settles_first(
    s: SessionView,
    payload: JsonView,
    now: u64,
    owner: Option<(u32, u64)>,
    place: ProjectView,
)
    requires
        hook::classified("Stop"@, payload) is Some,
        hook::classified("Stop"@, payload)->0.outcome.len() > 0,
        now >= s.event_ms,
        now + hook::SETTLE_MS <= u64::MAX,
    ensures
        ({
            let t = hook::applied(
                s,
                "Stop"@,
                payload,
                hook::classified("Stop"@, payload)->0,
                now,
                owner,
                place,
            );
            &&& t.outcome == "done"@
            &&& t.state == "idle"@
            &&& t.settles_ms == now + hook::SETTLE_MS
            &&& t.turn_ended_ms == now
            &&& t.waiting_since == 0
        }),
{
    lemma_names();
    reveal_strlit("done");
    reveal_strlit("idle");
}

/// A turn starts with its counters at zero and its clock running, and whatever
/// the event before it was, the previous turn never starts again.
pub proof fn a_turn_starts_clean(
    s: SessionView,
    event: Seq<char>,
    payload: JsonView,
    update: UpdateView,
    now: u64,
    owner: Option<(u32, u64)>,
    place: ProjectView,
)
    requires
        hook::has_room(s, update, now),
    ensures
        ({
            let t = hook::applied(s, event, payload, update, now, owner, place);
            &&& hook::begins_turn(s, event, payload, now) ==> t.turn_started_ms == now
                && t.turn_tools <= 1 && t.blocked <= 1
            &&& !hook::begins_turn(s, event, payload, now) ==> t.turn_started_ms
                == s.turn_started_ms && t.turn_tools >= s.turn_tools
            &&& hook::changes_turn(s, payload, now) ==> t.prev_prompt_id == s.prompt_id
            &&& hook::text_of(payload, "prompt_id"@) == s.prev_prompt_id && s.prev_prompt_id.len()
                > 0 ==> !hook::begins_turn(s, event, payload, now)
        }),
{
}

/// Any event at all is proof of life.
pub proof fn an_event_is_proof_of_life(
    s: SessionView,
    event: Seq<char>,
    payload: JsonView,
    update: UpdateView,
    now: u64,
    owner: Option<(u32, u64)>,
    place: ProjectView,
)
    ensures
        !hook::applied(s, event, payload, update, now, owner, place).stalled,
{
}

proof fn lemma_without(ids: Seq<Seq<char>>, id: Seq<char>)
    ensures
        hook::without(ids, id).len() <= ids.len(),
        !hook::without(ids, id).contains(id),
        forall|x: Seq<char>| #[trigger] hook::without(ids, id).contains(x) ==> ids.contains(x),
        forall|x: Seq<char>|
            x != id && #[trigger] ids.contains(x) ==> hook::without(ids, id).contains(x),
        ids.no_duplicates() ==> hook::without(ids, id).no_duplicates(),
    decreases ids.len(),
{
    if ids.len() > 0 {
        let rest = ids.drop_last();
        lemma_without(rest, id);
        let less = hook::without(rest, id);
        let r = hook::without(ids, id);
        assert forall|x: Seq<char>| r.contains(x) implies ids.contains(x) by {
            let k = choose|k: int| 0 <= k < r.len() && r[k] == x;
            if k < less.len() {
                assert(less[k] == x);
                assert(less.contains(x));
                let j = choose|j: int| 0 <= j < rest.len() && rest[j] == x;
                assert(ids[j] == x);
            } else {
                assert(ids[ids.len() - 1] == x);
            }
        }
        assert forall|x: Seq<char>| x != id && ids.contains(x) implies r.contains(x) by {
            let j = choose|j: int| 0 <= j < ids.len() && ids[j] == x;
            if j < rest.len() {
                assert(rest[j] == x);
                assert(rest.contains(x));
                assert(less.contains(x));
                let k = choose|k: int| 0 <= k < less.len() && less[k] == x;
                assert(r[k] == x);
            } else {
                assert(r[r.len() - 1] == x);
            }
        }
        assert(!r.contains(id)) by {
            if r.contains(id) {
                let k = choose|k: int| 0 <= k < r.len() && r[k] == id;
                if k < less.len() {
                    assert(less[k] == id);
                    assert(less.contains(id));
                }
            }
        }
        if ids.no_duplicates() {
            assert(rest.no_duplicates());
            if ids.last() != id {
                assert(!less.contains(ids.last())) by {
                    if less.contains(ids.last()) {
                        assert(rest.contains(ids.last()));
                        let j = choose|j: int| 0 <= j < rest.len() && rest[j] == ids.last();
                        assert(ids[j] == ids[ids.len() - 1]);
                    }
                }
                assert forall|i: int, j: int|
                    0 <= i < r.len() && 0 <= j < r.len() && i != j implies r[i] != r[j] by {
                    if i == r.len() - 1 {
                        assert(less[j] == r[j]);
                        assert(less.contains(r[j]));
                    } else if j == r.len() - 1 {
                        assert(less[i] == r[i]);
                        assert(less.contains(r[i]));
                    }
                }
            }
        }
    } else {
        assert(hook::without(ids, id) =~= seq![]);
    }
}

/// What is true of every session stays true: a subagent is counted once however
/// often it is announced, the count is the number of those at work, and nothing
/// grows without bound.
pub proof fn every_event_keeps_the_counts(
    s: SessionView,
    event: Seq<char>,
    payload: JsonView,
    update: UpdateView,
    now: u64,
    owner: Option<(u32, u64)>,
    place: ProjectView,
)
    requires
        s.wf(),
    ensures
        hook::applied(s, event, payload, update, now, owner, place).wf(),
{
    let u = hook::heeded(s, event, update);
    let id = hook::text_of(payload, "agent_id"@);
    let base = if hook::begins_turn(s, event, payload, now) {
        seq![]
    } else {
        s.agents
    };
    assert(base.no_duplicates() && base.len() <= state::MAX_AGENTS);
    lemma_without(base, id);
    let agents = hook::agents_after(base, u.subagents, id);
    assert(agents.no_duplicates()) by {
        if u.subagents > 0 && agents != base {
            assert(agents =~= base.push(id));
            assert forall|i: int, j: int|
                0 <= i < agents.len() && 0 <= j < agents.len() && i != j implies agents[i]
                != agents[j] by {
                if i == base.len() {
                    assert(base.contains(base[j]));
                } else if j == base.len() {
                    assert(base.contains(base[i]));
                }
            }
        }
    }
}

/// A subagent that has finished is no longer at work, and the others still are.
pub proof fn a_finished_subagent_is_gone(agents: Seq<Seq<char>>, id: Seq<char>, other: Seq<char>)
    requires
        agents.contains(other),
        other != id,
    ensures
        !hook::agents_after(agents, -1i64, id).contains(id),
        hook::agents_after(agents, -1i64, id).contains(other),
{
    lemma_without(agents, id);
}

/// A session nobody knows is only ever brought into being by an event that
/// begins work, so a straggler cannot bring an ended session back.
pub proof fn a_straggler_revives_nothing(
    event: Seq<char>,
    session_id: Seq<char>,
    payload: JsonView,
    background: bool,
    now: u64,
    owner: Option<(u32, u64)>,
    place: ProjectView,
)
    requires
        event != "SessionStart"@,
        event != "UserPromptSubmit"@,
    ensures
        hook::verdict(
            event,
            session_id,
            payload,
            None,
            background,
            now,
            owner,
            place,
        ) !is Write,
{
}

/// A new session starts out as it should: nothing in it contradicts itself.
pub proof fn a_new_session_is_consistent()
    ensures
        state::blank().wf(),
{
}

} // verus!
