use pipsqueak::agent::{folder, name};
use pipsqueak::hook::{
    apply, bash_command, capture_name, classify, host_of, identify, is_trailing_subagent, kind_of,
    new_folder, phrase, pretty_tool, read_payload, reads_as_background, run, session_file,
    stop_disposition, Stop, Verdict, SETTLE_MS,
};
use pipsqueak::json::{parse, Json};
use pipsqueak::project::{resolve, Project};
use pipsqueak::state::{sanitize, Session};
use pipsqueak::text::truncate;

fn json(text: &str) -> Json {
    parse(text).expect("the payload is JSON")
}

fn place() -> Project {
    resolve("", None, None)
}

fn activity_of(event: &str, payload: Json) -> String {
    classify(event, &payload)
        .expect("event should be classified")
        .activity
}

#[test]
fn bash_prefers_the_description_over_the_raw_command() {
    let payload = json(r##"{ "tool_name": "Bash", "tool_input": { "command": "npm test -- --run", "description": "Run unit tests" } }"##);
    assert_eq!(
        activity_of("PreToolUse", payload),
        "Running: Run unit tests"
    );
}

#[test]
fn file_tools_show_only_the_basename() {
    let payload = json(r##"{ "tool_name": "Edit", "tool_input": { "file_path": "C:\\code\\app\\src\\render.js" } }"##);
    assert_eq!(activity_of("PreToolUse", payload), "Editing render.js");
}

#[test]
fn finished_tools_are_reported_in_the_past_tense() {
    let payload = json(r##"{ "tool_name": "Edit", "tool_input": { "file_path": "/code/render.js" } }"##);
    assert_eq!(activity_of("PostToolUse", payload), "Edited render.js");
}

#[test]
fn mcp_tools_are_split_into_server_and_call() {
    let payload = json(r##"{ "tool_name": "mcp__github__create_issue" }"##);
    assert_eq!(
        activity_of("PreToolUse", payload),
        "Calling github: create issue"
    );
}

/// PermissionRequest fires before anyone is asked, and auto-mode resolves
/// most of them instantly. Reacting to it made the pet claim to be blocked
/// on turns that were never interrupted, so it is recorded and the card
/// only surfaces prompts that outlive the debounce.
#[test]
fn permission_requests_alone_do_not_mean_blocked() {
    let update = classify(
        "PermissionRequest",
        &json(r##"{ "tool_name": "Bash", "tool_input": { "command": "rm -rf build" } }"##),
    )
    .unwrap();
    assert!(update.silent, "nothing on the card may change yet");
    assert!(update.waiting.is_empty());
    assert!(update.state.is_empty());
    assert_eq!(update.permission, "Bash");
    assert_eq!(update.permission_risk, "Deletes a directory tree");
}

#[test]
fn an_ordinary_prompt_carries_no_warning() {
    let update = classify(
        "PermissionRequest",
        &json(r##"{ "tool_name": "Bash", "tool_input": { "command": "npm test" } }"##),
    )
    .unwrap();
    assert_eq!(update.permission, "Bash");
    assert!(update.permission_risk.is_empty());
}

#[test]
fn only_a_real_prompt_means_blocked() {
    let update = classify(
        "Notification",
        &json(r##"{ "notification_type": "permission_prompt", "message": "Allow Bash?" }"##),
    )
    .unwrap();
    assert_eq!(update.waiting, "Allow Bash?");
    // Not even the word: "Needs you" is the card's name for the *state*,
    // and the state is only blocked once the prompt outlives the debounce.
    // Writing it here put it on cards whose dot was still plainly running.
    assert!(update.kind.is_empty());
    // Being blocked says nothing about what the session was doing, so the
    // durable state is left alone. Overwriting it here is what used to
    // strand a card on "Needs you" when the prompt was answered elsewhere.
    assert!(update.state.is_empty());
}

#[test]
fn related_tools_share_one_status_word() {
    for tool in ["Read", "Glob", "Grep"] {
        assert_eq!(kind_of(tool), "Reading");
    }
    for tool in ["Edit", "Write", "NotebookEdit"] {
        assert_eq!(kind_of(tool), "Editing");
    }
    assert_eq!(kind_of("mcp__github__create_issue"), "Calling github");
}

#[test]
fn stop_reports_the_first_line_of_the_answer_as_the_headline() {
    let payload = json(r##"{ "last_assistant_message": "\n\nFixed the off-by-one.\nDetails follow." }"##);
    let update = classify("Stop", &payload).unwrap();
    assert_eq!(update.outcome, "done");
    // Provisional even when clean: a blocking stop hook can veto this
    // stop, and zero settle time made every vetoed stop flash a Done card.
    assert_eq!(update.settle_ms, 2_000);
    // The turn is over, so the session is not running any more. Leaving it
    // running would have the staleness sweep decide five minutes later
    // that a finished session had stopped responding, and say so over the
    // answer it had already given.
    assert_eq!(update.state, "idle");
    assert_eq!(update.headline.as_deref(), Some("Fixed the off-by-one."));
    // The turn is over, so the live line clears rather than showing a stale tool.
    assert!(update.activity.is_empty());
    assert!(update.detail.contains("Details follow."));
}

/// The ways `Stop` arrives while the agent is about to carry on. Each one used
/// to produce a "Done" card that then sat there for 30 seconds being wrong.
#[test]
fn stop_while_still_working_is_not_a_completion() {
    let cases = [
        json(r##"{ "session_crons": [{ "id": "nightly" }] }"##),
        json(r##"{ "background_tasks": [{ "id": "build" }] }"##),
    ];
    for payload in cases {
        let update = classify("Stop", &payload).unwrap();
        assert!(
            update.outcome.is_empty(),
            "this should not report a completion"
        );
        assert_eq!(update.state, "running");
    }
}

/// A turn a stop hook extended still ends, and the Stop carrying
/// `stop_hook_active` is that ending. Treating the flag as "still working"
/// is why a session with any blocking stop hook installed never went green.
#[test]
fn stop_after_a_hook_extended_the_turn_is_a_completion() {
    let update = classify(
        "Stop",
        &json(r##"{ "stop_hook_active": true, "last_assistant_message": "Wrote the journal entry." }"##),
    )
    .unwrap();
    assert_eq!(update.outcome, "done");
    assert_eq!(update.state, "idle");
    // Held, not announced: another veto is still possible, and any work
    // that follows clears a pending outcome before it is ever shown.
    assert_eq!(update.settle_ms, 2_000);
}

/// The agent said its piece but something is still finishing behind it. That
/// is a real completion, just one worth holding briefly in case a follow
/// up event cancels it.
#[test]
fn stop_with_background_work_and_an_answer_settles_late() {
    let update = classify(
        "Stop",
        &json(r##"{ "background_tasks": [{ "id": "build" }], "last_assistant_message": "Kicked off the build." }"##),
    )
    .unwrap();
    assert_eq!(update.outcome, "done");
    assert_eq!(update.settle_ms, 2_000);
}

/// An automatic compaction happens *inside* a turn; work resumes straight
/// after. Reporting it as a finished turn is a false completion.
#[test]
fn compaction_finishing_is_not_the_turn_finishing() {
    let auto = classify("PostCompact", &json(r##"{ "trigger": "auto" }"##)).unwrap();
    assert_eq!(auto.state, "thinking");
    assert!(auto.outcome.is_empty());

    let manual = classify("PostCompact", &json(r##"{ "trigger": "manual" }"##)).unwrap();
    assert_eq!(manual.state, "idle");
    assert!(manual.outcome.is_empty());
}

/// The agent reports many subagent launches only as a `Task` tool call,
/// so counting `SubagentStart` alone undercounts them.
#[test]
fn a_task_call_counts_as_a_subagent() {
    let update = classify(
        "PreToolUse",
        &json(r##"{ "tool_name": "Task", "tool_input": { "subagent_type": "explore" } }"##),
    )
    .unwrap();
    assert_eq!(update.subagents, 1);
    assert_eq!(update.kind, "Delegating");

    // The paired PostToolUse must not decrement: SubagentStop owns that,
    // and counting both would take the same subagent away twice.
    let done = classify("PostToolUse", &json(r##"{ "tool_name": "Task" }"##)).unwrap();
    assert_eq!(done.subagents, 0);
}

// --- what one event does to the file ---------------------------------
//
// Every number the card shows comes out of `apply`, so these are the tests
// that decide whether the status line is telling the truth.

/// Runs one event against a session, the way `run` would.
fn feed(session: &mut Session, event: &str, payload: Json, now: u64) {
    let update = classify(event, &payload).expect("event should be classified");
    apply(session, event, &payload, update, now, None, &place());
}

fn tool_call(prompt: &str) -> Json {
    json(&format!(
        r#"{{ "tool_name": "Read", "prompt_id": "{prompt}", "tool_input": {{ "file_path": "a.rs" }} }}"#
    ))
}

/// A subagent's tool calls arrive on the *parent's* session id, so without
/// reading `agent_id` the card counted three agents' work as the turn's
/// own and renamed itself after whatever they were doing — "Editing
/// spiralplan.py" while the main agent sat waiting for them to report.
#[test]
fn a_subagents_work_is_not_the_turns_work() {
    let mut session = Session::default();
    feed(
        &mut session,
        "UserPromptSubmit",
        json(r##"{ "prompt_id": "p1", "prompt": "go" }"##),
        1000,
    );

    feed(&mut session, "PreToolUse", tool_call("p1"), 1100);
    assert_eq!(session.turn_tools, 1);
    assert_eq!(session.kind, "Reading");

    let delegated = json(r##"{ "tool_name": "Read", "prompt_id": "p1", "agent_id": "a12345", "tool_input": { "file_path": "a.rs" } }"##);
    feed(&mut session, "PreToolUse", delegated, 1200);
    assert_eq!(
        session.turn_tools, 1,
        "a subagent's call is not the turn's action"
    );
    assert_eq!(
        session.kind, "Delegating",
        "and it is not what the turn is doing"
    );
    // Still counted somewhere: it is real work the session did.
    assert_eq!(session.tools, 2);
}

/// `UserPromptSubmit` is not the only way a turn begins. A stop hook can
/// send one back to work and a resumed session simply carries on, and both
/// used to inherit the previous turn's counters and its clock.
#[test]
fn a_new_turn_starts_wherever_claude_code_says_it_does() {
    let mut session = Session::default();
    feed(
        &mut session,
        "UserPromptSubmit",
        json(r##"{ "prompt_id": "p1", "prompt": "go" }"##),
        1000,
    );
    feed(&mut session, "PreToolUse", tool_call("p1"), 1100);
    feed(&mut session, "PreToolUse", tool_call("p1"), 1200);
    assert_eq!(session.turn_tools, 2);

    // No prompt event at all, just work stamped with a different turn.
    feed(&mut session, "PreToolUse", tool_call("p2"), 5000);
    assert_eq!(session.turn_tools, 1);
    assert_eq!(session.turn_started_ms, 5000);
    assert_eq!(session.turn_ended_ms, 0);

    // And a straggler from the turn just ended does not start it again.
    // A prompt typed mid-turn is submitted then and answered later, so the
    // two turns' events interleave for a while.
    feed(&mut session, "PreToolUse", tool_call("p1"), 5100);
    assert_eq!(session.turn_started_ms, 5000, "the turn is still p2");
    assert_eq!(session.turn_tools, 2);
}

/// The card reads "N actions · 4m", and both belong to the turn. The clock
/// used to run on after the turn ended, so a two-minute turn that finished
/// two minutes ago said "4m" — and went on climbing for as long as anyone
/// looked at it.
#[test]
fn the_turns_clock_stops_when_the_turn_does() {
    let mut session = Session::default();
    feed(
        &mut session,
        "UserPromptSubmit",
        json(r##"{ "prompt_id": "p1", "prompt": "go" }"##),
        1000,
    );
    feed(
        &mut session,
        "Stop",
        json(r##"{ "prompt_id": "p1", "last_assistant_message": "Done." }"##),
        131_000,
    );
    assert_eq!(session.outcome, "done");
    assert_eq!(session.turn_ended_ms, 131_000);
    // And starts again with the next turn.
    feed(&mut session, "PreToolUse", tool_call("p2"), 200_000);
    assert_eq!(session.turn_ended_ms, 0);
}

/// Hooks are installed `async: true`, so the agent neither waits for them
/// nor orders them. A `PreToolUse` that started before the `Stop` and
/// landed after it took the card back off "Done" with nothing running.
#[test]
fn a_straggler_does_not_un_finish_a_finished_turn() {
    let mut session = Session::default();
    feed(
        &mut session,
        "UserPromptSubmit",
        json(r##"{ "prompt_id": "p1", "prompt": "go" }"##),
        1000,
    );
    feed(
        &mut session,
        "Stop",
        json(r##"{ "prompt_id": "p1", "last_assistant_message": "Done." }"##),
        9000,
    );
    assert_eq!(session.outcome, "done");

    // Same turn, earlier timestamp: it left before the Stop did.
    feed(&mut session, "PreToolUse", tool_call("p1"), 8500);
    assert_eq!(session.outcome, "done", "the turn is still over");
    assert_eq!(session.state, "idle");
    // The tool call itself really happened, so it is still counted.
    assert_eq!(session.turn_tools, 1);
}

/// A subagent finishing while the main agent sits at a permission prompt is
/// routine. It used to clear the prompt, so the card stopped saying "Needs
/// you" while the agent was still asking — and the sweep, which reads a
/// cleared prompt as silence, was then free to call the session dead.
#[test]
fn a_prompt_nobody_answered_survives_the_bookkeeping() {
    let mut session = Session::default();
    feed(
        &mut session,
        "UserPromptSubmit",
        json(r##"{ "prompt_id": "p1", "prompt": "go" }"##),
        1000,
    );
    feed(
        &mut session,
        "PermissionRequest",
        json(r##"{ "prompt_id": "p1", "tool_name": "Bash", "tool_input": { "command": "rm -rf build" } }"##),
        2000,
    );
    assert!(session.pending_since > 0);

    for event in ["SubagentStop", "PreCompact", "SessionStart"] {
        feed(&mut session, event, json(r##"{ "prompt_id": "p1" }"##), 3000);
        assert!(
            session.pending_since > 0,
            "{event} must not answer a prompt on the user's behalf"
        );
    }
    // The tool actually running is what proves the prompt was answered.
    feed(
        &mut session,
        "PreToolUse",
        json(r##"{ "prompt_id": "p1", "tool_name": "Bash", "tool_input": { "command": "rm -rf build" } }"##),
        4000,
    );
    assert_eq!(session.pending_since, 0);
}

/// Two sources added a subagent and one took it away, so three launches
/// read as six and the count never came back to zero.
#[test]
fn a_subagent_is_counted_once_however_it_is_announced() {
    let mut session = Session::default();
    feed(
        &mut session,
        "UserPromptSubmit",
        json(r##"{ "prompt_id": "p1", "prompt": "go" }"##),
        1000,
    );
    // The Task call, which cannot name an agent that does not exist yet.
    feed(
        &mut session,
        "PreToolUse",
        json(r##"{ "prompt_id": "p1", "tool_name": "Task", "tool_input": { "description": "audit" } }"##),
        1100,
    );
    // And the subagent announcing itself, twice for good measure.
    for at in [1200, 1300] {
        feed(
            &mut session,
            "SubagentStart",
            json(r##"{ "prompt_id": "p1", "agent_id": "a1", "agent_type": "general-purpose" }"##),
            at,
        );
    }
    assert_eq!(session.subagents, 1);
    feed(
        &mut session,
        "SubagentStop",
        json(r##"{ "prompt_id": "p1", "agent_id": "a1" }"##),
        1400,
    );
    assert_eq!(session.subagents, 0);
}

/// The `Stop` payload carries the agent's own list of what is still
/// running. It arrives at exactly the moment the card is choosing between
/// "Done" and "Finishing", so it is the answer, and anything the overlay
/// inferred from the transcript gives way to it.
#[test]
fn claude_codes_own_list_of_running_work_is_taken_as_the_answer() {
    let mut session = Session::default();
    feed(
        &mut session,
        "UserPromptSubmit",
        json(r##"{ "prompt_id": "p1", "prompt": "go" }"##),
        1000,
    );
    feed(
        &mut session,
        "Stop",
        json(r##"{ "prompt_id": "p1", "last_assistant_message": "Handing off.", "background_tasks": [ { "id": "a111", "type": "subagent", "status": "running" }, { "id": "b222", "type": "shell", "status": "completed" } ] }"##),
        9000,
    );
    assert_eq!(session.tasks, vec!["a111"], "only what is actually running");
    assert_eq!(session.tasks_ms, 9000);
}

/// One tool failing is not the turn failing. The agent nearly always tries
/// something else, and a red card for a failed grep is noise.
#[test]
fn a_failed_tool_marks_the_turn_without_failing_it() {
    let update = classify(
        "PostToolUseFailure",
        &json(r##"{ "tool_name": "Grep", "error": "no matches" }"##),
    )
    .unwrap();
    assert!(update.hiccup);
    assert!(update.outcome.is_empty());
    assert_eq!(update.state, "running");
    // A tool that merely failed is not a tool that was refused. Counting
    // both under one number is what made the card's red chip meaningless.
    assert!(!update.blocked);
}

/// The only thing the red chip counts: the auto-mode classifier refusing a
/// call. It is policy pushing back, which is worth a number, unlike a
/// command that simply errored.
#[test]
fn an_auto_mode_refusal_is_counted_and_named() {
    let update = classify(
        "PermissionDenied",
        &json(r##"{ "tool_name": "Bash", "tool_input": { "command": "git push --force" } }"##),
    )
    .unwrap();
    assert!(update.blocked);
    assert!(update.activity.starts_with("Auto-mode blocked:"));
    // Still running: a refused call is not a failed turn, and the card
    // must not go red over one.
    assert_eq!(update.state, "running");
    assert!(update.outcome.is_empty());
}

#[test]
fn tool_events_never_disturb_the_headline() {
    let payload = json(r##"{ "tool_name": "Read", "tool_input": { "file_path": "/code/clock.js" } }"##);
    for event in [
        "PreToolUse",
        "PostToolUse",
        "PostToolUseFailure",
        "PermissionDenied",
    ] {
        let update = classify(event, &payload).unwrap();
        assert!(
            update.headline.is_none(),
            "{event} should leave the headline alone"
        );
    }
}

/// The opening line of a reply is often a greeting, and a card that says
/// "Tristan," has spent its only line saying nothing.
#[test]
fn a_greeting_is_not_a_summary() {
    let update = classify(
        "Stop",
        &json(r##"{ "last_assistant_message": "Tristan,\n\nFixed the timezone bug." }"##),
    )
    .unwrap();
    assert_eq!(update.headline.as_deref(), Some("Fixed the timezone bug."));
}

/// An answer with nothing quotable in it leaves the headline alone rather
/// than replacing what the turn was about with "Finished".
#[test]
fn an_answer_with_nothing_to_say_keeps_the_question() {
    let update = classify("Stop", &json(r##"{ "last_assistant_message": "Tristan," }"##)).unwrap();
    assert_eq!(update.outcome, "done");
    assert!(update.headline.is_none());
}

/// A dragged-in file arrives as an absolute path, and the path is the
/// least useful part of it.
#[test]
fn hook_a_dropped_file_is_named_not_pathed() {
    let dropped = format!("{} 1.md", name().to_uppercase());
    let update = classify(
        "UserPromptSubmit",
        &json(&format!(
            r##"{{ "prompt": "@\"C:\\Users\\acer\\Downloads\\{dropped}\"" }}"##
        )),
    )
    .unwrap();
    assert_eq!(update.headline.as_deref(), Some(dropped.as_str()));

    let mentioned = classify(
        "UserPromptSubmit",
        &json(r##"{ "prompt": "compare @src/derive.js with ./tools/pixel.mjs please" }"##),
    )
    .unwrap();
    assert_eq!(
        mentioned.headline.as_deref(),
        Some("compare derive.js with pixel.mjs please")
    );
}

/// The `SubagentStop` for work that outlived the answer used to clear the
/// outcome, which turned a card that had just said "Done" back into
/// "Delegating" with nothing running.
#[test]
fn a_late_subagent_does_not_unfinish_a_turn() {
    let with = |outcome: &str, subagents: u64| Session {
        outcome: outcome.to_string(),
        subagents,
        ..Session::default()
    };
    assert!(is_trailing_subagent("SubagentStop", &with("done", 1)));
    assert!(is_trailing_subagent("SubagentStart", &with("failed", 0)));
    assert!(!is_trailing_subagent("SubagentStop", &with("", 2)));
    assert!(!is_trailing_subagent("PreToolUse", &with("done", 0)));
    // A new prompt cleared the outcome, but nothing is outstanding: this
    // stop belongs to the previous turn and must stay bookkeeping.
    assert!(is_trailing_subagent("SubagentStop", &with("", 0)));
    // A genuine stop for a subagent this turn started is progress.
    assert!(!is_trailing_subagent("SubagentStop", &with("", 1)));
}

/// A blocking stop hook can veto this stop and have the turn carry on;
/// the payload only admits that on the *second* Stop. The hold is what
/// keeps the Done card from flashing and vanishing when that happens.
#[test]
fn even_a_clean_stop_is_held_provisional() {
    let update = classify("Stop", &json(r##"{ "last_assistant_message": "Fixed." }"##)).unwrap();
    assert_eq!(update.outcome, "done");
    assert!(
        update.settle_ms >= 1_000,
        "settle_ms was {}",
        update.settle_ms
    );
}

/// Auto-compaction fires `SessionStart` again mid-session with
/// `source: "compact"`. That is a resumption, not a fresh session: the
/// card must not reset to idle or lose its headline mid-turn.
#[test]
fn a_compaction_restart_is_not_a_new_session() {
    let update = classify("SessionStart", &json(r##"{ "source": "compact" }"##)).unwrap();
    assert_eq!(update.state, "thinking");
    assert!(update.headline.is_none());

    let fresh = classify("SessionStart", &json(r##"{ "source": "startup" }"##)).unwrap();
    assert_eq!(fresh.state, "idle");
    assert_eq!(fresh.headline.as_deref(), Some("Session started"));
}

/// `notification_type` is not in the documented payload schema. When it is
/// missing, the message text still has to be able to say "needs you".
#[test]
fn a_notification_without_a_type_still_counts_as_waiting() {
    let payload = json(&format!(
            r##"{{ "message": "{} needs your permission to use Bash" }}"##,
            name()
        ));
    let update = classify("Notification", &payload).unwrap();
    assert!(!update.waiting.is_empty());

    let idle = json(&format!(
            r##"{{ "message": "{} is waiting for your input" }}"##,
            name()
        ));
    assert!(!classify("Notification", &idle).unwrap().waiting.is_empty());

    // A typeless notification that reads like neither stays ignored.
    assert!(classify("Notification", &json(r##"{ "message": "Signed in." }"##)).is_none());
}

#[test]
fn the_prompt_becomes_the_headline() {
    let payload = json(r##"{ "prompt": "Fix the flaky timezone test\n\nIt fails on CI only." }"##);
    let update = classify("UserPromptSubmit", &payload).unwrap();
    assert_eq!(
        update.headline.as_deref(),
        Some("Fix the flaky timezone test")
    );
    assert_eq!(update.activity, "Thinking…");
}

#[test]
fn uninteresting_notifications_are_ignored() {
    let payload = json(r##"{ "notification_type": "auth_success" }"##);
    assert!(classify("Notification", &payload).is_none());
    assert!(classify("MessageDisplay", &json(r##"{}"##)).is_none());
}

#[test]
fn hook_truncation_never_splits_a_character() {
    let truncated = truncate("ααααα", 3);
    assert_eq!(truncated.chars().count(), 3);
    assert!(truncated.ends_with('…'));
}

#[test]
fn session_ids_cannot_escape_the_sessions_directory() {
    assert_eq!(sanitize("../../etc/passwd"), "etcpasswd");
    assert_eq!(sanitize(""), "unknown");
}

/// The bug this whole `background` flag exists for.
///
/// A background leg ends a turn and the agent raises the same idle
/// notification a chat gets. Nobody is being asked anything — the
/// supervisor that started the leg resumes it — and
/// the list of running agents said `busy`/`working` for this very session at
/// the moment the card was saying "Needs you".
#[test]
fn a_background_turn_ending_is_not_a_person_being_asked() {
    let mut session = Session::default();
    session.background = true;
    feed(
        &mut session,
        "UserPromptSubmit",
        json(r##"{ "prompt_id": "p1", "prompt": "work milestone M1" }"##),
        1000,
    );
    feed(
        &mut session,
        "Stop",
        json(r##"{ "prompt_id": "p1", "last_assistant_message": "Handed off." }"##),
        9000,
    );
    feed(
        &mut session,
        "Notification",
        json(r##"{ "notification_type": "idle_prompt", "prompt_id": "p1" }"##),
        9100,
    );
    assert_eq!(session.waiting_reason, "", "nobody is waiting on this");
    assert_eq!(session.waiting_since, 0, "so the debounce never starts");
    assert_eq!(session.activity, "Waiting to be resumed");
    assert_eq!(session.state, "idle");
    // The alert the pet does raise is counted somewhere else entirely, and
    // this must not have quietly invented one.
    assert_eq!(session.blocked, 0);
}

/// The regression the fix has to not cause: an ordinary chat.
#[test]
fn a_foreground_turn_ending_still_asks_for_you() {
    let mut session = Session::default();
    feed(
        &mut session,
        "UserPromptSubmit",
        json(r##"{ "prompt_id": "p1", "prompt": "fix the test" }"##),
        1000,
    );
    feed(
        &mut session,
        "Stop",
        json(r##"{ "prompt_id": "p1", "last_assistant_message": "Fixed it." }"##),
        9000,
    );
    feed(
        &mut session,
        "Notification",
        json(r##"{ "notification_type": "idle_prompt", "prompt_id": "p1" }"##),
        9100,
    );
    assert_eq!(session.waiting_reason, "Waiting for your reply");
    assert_eq!(session.waiting_since, 9100);
}

/// The other direction, and the reason this is gated on *why* the session
/// is waiting rather than on whether it is a background one. A background
/// agent stopped on a permission prompt is stopped for good: no supervisor
/// answers that, and it is exactly the case the alert exists for.
#[test]
fn a_background_session_at_a_permission_prompt_still_alerts() {
    let mut session = Session::default();
    session.background = true;
    feed(
        &mut session,
        "UserPromptSubmit",
        json(r##"{ "prompt_id": "p1", "prompt": "deploy it" }"##),
        1000,
    );
    feed(
        &mut session,
        "PermissionRequest",
        json(r##"{ "prompt_id": "p1", "tool_name": "Bash", "tool_input": { "command": "rm -rf build" } }"##),
        5000,
    );
    feed(
        &mut session,
        "Notification",
        json(&format!(
            r##"{{ "notification_type": "permission_prompt", "prompt_id": "p1", "message": "{} needs your permission to run rm -rf build" }}"##,
            name()
        )),
        5100,
    );
    assert_eq!(session.pending_tool, "Bash", "the prompt is on the record");
    assert_eq!(session.pending_since, 5000);
    assert!(
        session.waiting_reason.contains("permission"),
        "a permission prompt is never resumable: {}",
        session.waiting_reason
    );
    assert_eq!(session.waiting_since, 5100);
}

/// `notification_type` is absent from the published schema, so the message
/// text is the fallback path — and it has to make the same distinction, or
/// the fix has a hole in it the width of one missing field.
#[test]
fn the_message_fallback_knows_the_difference_too() {
    let idle = classify(
        "Notification",
        &json(&format!(
            r##"{{ "message": "{} is waiting for your input" }}"##,
            name()
        )),
    )
    .unwrap();
    assert!(idle.resumable, "a turn simply ending");

    let prompt = classify(
        "Notification",
        &json(&format!(
            r##"{{ "message": "{} needs your permission to use Bash" }}"##,
            name()
        )),
    )
    .unwrap();
    assert!(!prompt.resumable, "a decision, which only a person makes");
}

/// What a hook actually gets handed, both ways, as measured.
///
/// The obvious field — `CLAUDE_CODE_SESSION_KIND=bg` — is on the *agent*
/// process and does not reach its hooks, which is why reading it alone
/// left every background session looking like a chat. `CLAUDE_JOB_DIR` is
/// what does come through, on every event of a background session and on
/// none of a foreground one.
#[test]
fn a_background_hook_is_recognised_by_what_it_is_actually_given() {
    let jobs = format!("/home/tristan/{}/jobs/959c74a7", folder());
    let env = |pairs: Vec<(&str, &str)>| -> Vec<(String, String)> {
        pairs
            .iter()
            .map(|(name, value)| (name.to_string(), value.to_string()))
            .collect()
    };

    // Measured 2026-08-29, version 2.1.251, every event of a
    // background session: SessionStart, UserPromptSubmit, PreToolUse,
    // PostToolUse, Stop and Notification all carried this and nothing else
    // that named the session's kind.
    assert!(reads_as_background(&env(vec![
        ("CLAUDE_JOB_DIR", jobs.as_str()),
        ("CLAUDE_CODE_SESSION_ID", "959c74a7-8f7c-49e4-a782-42645920b8d2"),
    ])));

    // The same events in a foreground chat, which is the regression this
    // whole change has to not cause.
    assert!(!reads_as_background(&env(vec![
        ("CLAUDE_CODE_SESSION_ID", "7a958c6e-dfb0-4e0c-9cd4-f308894c4615"),
        ("CLAUDE_PID", "230772"),
    ])));

    // Kept for the day it is forwarded, and because it is the name
    // the list of running agents uses.
    assert!(reads_as_background(&env(vec![(
        "CLAUDE_CODE_SESSION_KIND",
        "bg"
    )])));
    assert!(!reads_as_background(&env(vec![(
        "CLAUDE_CODE_SESSION_KIND",
        "interactive"
    )])));

    // An empty variable is not a job directory. Shells export those freely.
    assert!(!reads_as_background(&env(vec![("CLAUDE_JOB_DIR", "")])));
}

#[test]
fn a_hook_writes_what_happened() {
    let incoming = read_payload(
        r#"{"session_id":"abc","hook_event_name":"UserPromptSubmit","prompt":"Fix it","prompt_id":"p1"}"#,
        None,
    );
    assert_eq!(session_file("abc"), "abc.json");
    match run(&incoming, None, false, 5_000, Some((7, 9)), &place()) {
        Verdict::Write(session) => {
            assert_eq!(session.session_id, "abc");
            assert_eq!(session.headline, "Fix it");
            assert_eq!(session.agent_pid, 7);
            assert_eq!(session.agent_created, 9);
            assert_eq!(session.turn_started_ms, 5_000);
        }
        _ => panic!("a prompt is written down"),
    }
}

#[test]
fn a_session_that_ends_goes() {
    let incoming = read_payload(
        r#"{"session_id":"abc","hook_event_name":"SessionEnd"}"#,
        None,
    );
    assert!(matches!(
        run(&incoming, Some(Session::default()), false, 1, None, &place()),
        Verdict::Remove
    ));
}

#[test]
fn an_event_nobody_knows_changes_nothing() {
    let incoming = read_payload(r#"{"session_id":"abc"}"#, Some("MessageDisplay"));
    assert!(matches!(
        run(&incoming, None, false, 1, None, &place()),
        Verdict::Leave
    ));
}

#[test]
fn an_event_is_named_by_its_payload_or_by_the_caller() {
    let named = identify(json(r#"{"session_id":"a","hook_event_name":"Stop"}"#), Some("X"));
    assert_eq!(named.event, "Stop");
    let unnamed = identify(json(r#"{"session_id":"a"}"#), Some("Stop"));
    assert_eq!(unnamed.event, "Stop");
}

#[test]
fn a_tool_is_put_into_words() {
    let input = json(r#"{"command":"npm test"}"#);
    assert_eq!(bash_command("Bash", Some(&input)).as_deref(), Some("npm test"));
    assert_eq!(bash_command("Read", Some(&input)), None);
    assert_eq!(host_of("https://example.com/a/b"), "example.com");
    assert_eq!(pretty_tool("Grep"), "Grep");
    assert_eq!(pretty_tool(""), "A tool");
    let words = phrase("Read", Some(&json(r#"{"file_path":"/x/a.rs"}"#)));
    assert_eq!(words.present, "Reading a.rs");
}

#[test]
fn a_turn_that_keeps_working_says_so() {
    let payload = json(r#"{"background_tasks":[{"id":"build"}]}"#);
    assert!(matches!(
        stop_disposition(&payload, ""),
        Stop::KeepWorking(_)
    ));
    match stop_disposition(&json("{}"), "Done.") {
        Stop::Finished { settle_ms } => assert_eq!(settle_ms, SETTLE_MS),
        _ => panic!("the turn is over"),
    }
}

#[test]
fn a_capture_is_named_after_its_event() {
    let name = capture_name(r#"{"hook_event_name":"Stop"}"#, 12, 34);
    assert!(name.contains("Stop") && name.contains("12") && name.contains("34"));
    let mut session = Session::default();
    session.cwd = "/a".into();
    assert_eq!(
        new_folder(&session, &json(r#"{"cwd":"/b"}"#)).as_deref(),
        Some("/b")
    );
    assert_eq!(new_folder(&session, &json(r#"{"cwd":"/a"}"#)), None);
}
