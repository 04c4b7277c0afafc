use pipsqueak::codex::{
    home, plain_id, question_of, tool_kind, Watch, INITIAL_TAIL, MAX_RECORD, READ_BYTES, STALE_MS,
};
use pipsqueak::codex_index::{
    arrange, choose_files, is_rollout, open_address, read_titles, Tracker,
};
use pipsqueak::json::parse;
use pipsqueak::narration::Mode;
use pipsqueak::state::{Provider, Session};

const AT: u64 = 1788770600000;

fn record(kind: &str, payload: &str) -> Vec<u8> {
    format!(
        "{{\"timestamp\":\"2026-09-07T08:43:20Z\",\"type\":\"{kind}\",\"payload\":{payload}}}\n"
    )
    .into_bytes()
}

fn meta(id: &str) -> Vec<u8> {
    record(
        "session_meta",
        &format!(
            r#"{{"id": "{id}", "cwd": "/projects/demo", "source": "vscode", "originator": "Codex Desktop"}}"#
        ),
    )
}

fn watch() -> Watch {
    let mut w = Watch::default();
    w.feed(&meta("same-id"));
    w.feed(&record(
        "event_msg",
        r#"{"type": "task_started", "turn_id": "turn-1"}"#,
    ));
    w
}

#[test]
fn complete_is_explicit_and_new_turn_clears_everything() {
    let mut w = watch();
    w.feed(&record(
        "response_item",
        r#"{"type": "function_call", "name": "apply_patch", "call_id": "call-1"}"#,
    ));
    w.feed(&record("response_item", r#"{"type": "message", "role": "assistant", "phase": "final_answer", "content": [{"text": "The fix is ready."}]}"#));
    assert!(w.session.outcome.is_empty());
    assert_eq!(w.session.turn_tools, 1);
    w.feed(&record("event_msg", r#"{"type": "task_complete", "turn_id": "turn-1", "last_agent_message": "The fix is ready."}"#));
    assert_eq!(w.session.outcome, "done");
    assert!(w.session.turn_ended_ms > 0);
    w.feed(&record(
        "event_msg",
        r#"{"type": "task_started", "turn_id": "turn-2"}"#,
    ));
    let s = w.snapshot(AT, Mode::Thoughts);
    assert!(s.outcome.is_empty() && s.narration.is_empty() && s.detail.is_empty());
    assert_eq!(s.turn_tools, 0);
    assert_eq!(s.turn_ended_ms, 0);
    w.feed(&record(
        "event_msg",
        r#"{"type": "task_complete", "turn_id": "turn-1"}"#,
    ));
    assert!(w.session.outcome.is_empty());
}

#[test]
fn incomplete_and_malformed_records_do_not_change_state() {
    let mut w = watch();
    let complete = record(
        "event_msg",
        r#"{"type": "task_complete", "turn_id": "turn-1"}"#,
    );
    w.feed(b"invalid json\n");
    w.feed(&complete[..complete.len() - 2]);
    assert!(w.session.outcome.is_empty());
    w.feed(&complete[complete.len() - 2..]);
    assert_eq!(w.session.outcome, "done");
}

#[test]
fn raw_and_paginated_messages_narrate_without_double_counting_tools() {
    let mut w = watch();
    let call = record(
        "response_item",
        r#"{"type": "custom_tool_call", "name": "exec", "call_id": "a"}"#,
    );
    w.feed(&call);
    w.feed(&call);
    w.feed(&record(
        "event_msg",
        r#"{"type": "item_completed", "item": {"type": "CommandExecution", "id": "a"}}"#,
    ));
    assert_eq!(w.session.turn_tools, 1);
    w.feed(&record("event_msg", r#"{"type": "item_completed", "item": {"type": "AgentMessage", "content": [{"text": "Checking both agents."}]}}"#));
    assert_eq!(
        w.snapshot(AT, Mode::Speech).narration,
        "Checking both agents."
    );
    w.say("A useful public summary.", AT + 1, true);
    assert_eq!(
        w.snapshot(AT + 1, Mode::Thoughts).narration,
        "A useful public summary."
    );
    assert_eq!(
        w.snapshot(AT + 1, Mode::Speech).narration,
        "Checking both agents."
    );
    assert!(w.snapshot(AT + 1, Mode::Off).narration.is_empty());
}

#[test]
fn questions_wait_for_the_matching_answer() {
    let mut w = watch();
    w.feed(&record("response_item", r#"{"type": "function_call", "name": "request_user_input", "call_id": "q", "arguments": "{\"questions\":[{\"question\":\"Which folder?\"}]}"}"#));
    assert_eq!(w.session.waiting_reason, "Which folder?");
    w.feed(&record(
        "response_item",
        r#"{"type": "function_call_output", "call_id": "unrelated"}"#,
    ));
    assert!(w.session.waiting_since > 0);
    assert!(!w.snapshot(AT + STALE_MS * 2, Mode::Speech).stalled);
    w.feed(&record(
        "response_item",
        r#"{"type": "function_call_output", "call_id": "q"}"#,
    ));
    assert_eq!(w.session.waiting_since, 0);
}

#[test]
fn silence_and_interruptions_never_become_done() {
    let mut w = watch();
    let at = w.session.updated_ms;
    let stale = w.snapshot(at + STALE_MS + 1, Mode::Thoughts);
    assert!(stale.stalled && stale.outcome.is_empty());
    w.feed(&record(
        "event_msg",
        r#"{"type": "turn_aborted", "turn_id": "turn-1"}"#,
    ));
    assert_eq!(w.session.outcome, "failed");
    assert_eq!(w.session.event, "turn_aborted");
}

#[test]
fn legacy_claude_ids_cannot_collide_and_internal_agents_are_excluded() {
    let w = watch();
    let mut legacy = Session::default();
    legacy.session_id = "same-id".into();
    assert!(matches!(legacy.provider, Provider::ClaudeCode));
    assert_ne!(w.session.session_id, legacy.session_id);
    assert_eq!(w.session.chat_id, "same-id");
    let mut internal = Watch::default();
    internal.feed(&record(
        "session_meta",
        r#"{"id": "internal", "source": {"subagent": {"other": "guardian"}}}"#,
    ));
    internal.feed(&record("event_msg", r#"{"type": "task_started"}"#));
    assert!(!internal.accepted);
    assert!(!plain_id("../../escape?new=1"));
}

/// Reads a file on, as it stands.
fn follow(w: &mut Watch, content: &[u8], modified: u64) {
    let length = content.len() as u64;
    w.renew(length, Some(modified));
    if w.offset == 0 {
        let end = content.len().min(MAX_RECORD);
        let head = match content[..end].iter().position(|b| *b == b'\n') {
            Some(i) => &content[..i + 1],
            None => &content[..end],
        };
        if !w.open(head, length) {
            return;
        }
    }
    if let Some(start) = w.settle(length, Some(modified)) {
        let end = (start + READ_BYTES).min(length);
        w.read(&content[start as usize..end as usize], length, Some(modified));
    }
}

#[test]
fn discovers_updates_renames_and_retires_archived_sessions() {
    let path = "sessions/2026/09/07/rollout-fixture.jsonl".to_string();
    let mut bytes = meta("task-one");
    bytes.extend(record(
        "event_msg",
        r#"{"type": "task_started", "turn_id": "t"}"#,
    ));
    let mut tracker = Tracker::new();
    tracker.follow(&vec![path.clone()]);
    tracker.titles = read_titles(
        &b"{\"id\":\"task-one\",\"thread_name\":\"Original title\"}\n".to_vec(),
        0,
    );
    follow(&mut tracker.watches[0].1, &bytes, 1);
    let sessions = tracker.sessions(AT, Mode::Speech);
    assert_eq!(sessions.len(), 1);
    assert_eq!(sessions[0].chat_title, "Original title");
    let completion = record("event_msg", r#"{"type": "task_complete", "turn_id": "t"}"#);
    bytes.extend_from_slice(&completion[..10]);
    follow(&mut tracker.watches[0].1, &bytes, 2);
    assert!(tracker.sessions(AT, Mode::Speech)[0].outcome.is_empty());
    bytes.extend_from_slice(&completion[10..]);
    follow(&mut tracker.watches[0].1, &bytes, 3);
    assert_eq!(tracker.sessions(AT, Mode::Speech)[0].outcome, "done");
    assert!(tracker.is_caught_up());
    tracker.titles = read_titles(
        &b"{\"id\":\"task-one\",\"thread_name\":\"Renamed title\"}\n".to_vec(),
        0,
    );
    assert_eq!(
        tracker.sessions(AT, Mode::Speech)[0].chat_title,
        "Renamed title"
    );
    tracker.follow(&vec![]);
    assert!(tracker.sessions(AT, Mode::Speech).is_empty());
}

#[test]
fn large_logs_start_at_a_bounded_tail_and_recover_after_truncation() {
    let mut content = meta("large");
    content.extend(vec![b'x'; INITIAL_TAIL as usize + 1024]);
    content.push(b'\n');
    content.extend(record(
        "response_item",
        r#"{"type": "function_call", "name": "exec", "call_id": "one"}"#,
    ));
    let mut w = Watch::default();
    for _ in 0..20 {
        follow(&mut w, &content, 1);
    }
    assert!(w.ready && w.session.turn_tools_partial);
    assert_eq!(w.session.turn_tools, 1);
    assert!(w.pending.len() <= MAX_RECORD);
    w.feed(&record(
        "event_msg",
        &format!(
            r#"{{"type": "task_complete", "started_at": {}}}"#,
            AT / 1000 - 120
        ),
    ));
    assert_eq!(w.session.turn_started_ms, AT - 120_000);
    assert!(w.session.turn_tools_partial);
    let mut bytes = meta("large");
    bytes.extend(record(
        "event_msg",
        r#"{"type": "task_started", "turn_id": "new"}"#,
    ));
    follow(&mut w, &bytes, 2);
    assert!(w.ready && !w.session.turn_tools_partial);
    assert_eq!(w.session.turn_tools, 0);
    assert_eq!(w.session.prompt_id, "new");
}

/// Where a log is cut between two reads makes no difference.
#[test]
fn a_log_read_in_pieces_reads_the_same() {
    let mut all = meta("same-id");
    all.extend(record(
        "event_msg",
        r#"{"type": "task_started", "turn_id": "turn-1"}"#,
    ));
    all.extend(record(
        "event_msg",
        r#"{"type": "task_complete", "turn_id": "turn-1"}"#,
    ));
    for cut in [0, 1, 40, all.len() / 2, all.len() - 1] {
        let mut w = Watch::default();
        w.feed(&all[..cut]);
        w.feed(&all[cut..]);
        assert_eq!(w.session.outcome, "done");
        assert_eq!(w.session.session_id, "codex:same-id");
    }
}

/// A record's time is read with its offset from Greenwich.
#[test]
fn a_timestamp_counts_from_the_epoch() {
    let mut w = Watch::default();
    w.feed(&meta("same-id"));
    let line = "{\"timestamp\":\"2026-09-07T10:43:20.500+02:00\",\"type\":\"event_msg\",\"payload\":{\"type\":\"task_started\",\"turn_id\":\"t\"}}\n";
    w.feed(line.as_bytes());
    assert_eq!(w.session.turn_started_ms, AT + 500);
}

#[test]
fn tools_fall_into_kinds() {
    assert_eq!(tool_kind("apply_patch"), "Editing");
    assert_ne!(tool_kind("exec"), tool_kind("apply_patch"));
    let args = parse(r#"{"questions":[{"question":"Which folder?"}]}"#).unwrap();
    assert_eq!(question_of(&args).as_deref(), Some("Which folder?"));
    assert!(question_of(&parse("{}").unwrap()).is_none());
}

#[test]
fn only_rollouts_are_followed_and_the_newest_first() {
    assert!(is_rollout("rollout-2026.jsonl"));
    assert!(!is_rollout("rollout-2026.txt"));
    assert!(!is_rollout("notes.jsonl"));
    let files = vec![
        (AT - 10, "b".to_string()),
        (AT - 5, "a".to_string()),
        (1, "old".to_string()),
    ];
    let chosen = choose_files(&files, AT);
    let names: Vec<&str> = chosen.iter().map(|f| f.1.as_str()).collect();
    assert_eq!(names, ["a", "b"]);
}

#[test]
fn sessions_are_in_the_order_of_their_ids() {
    let mut a = Session::default();
    a.session_id = "codex:b".into();
    let mut b = Session::default();
    b.session_id = "codex:a".into();
    let sorted = arrange(vec![a, b]);
    assert_eq!(sorted[0].session_id, "codex:a");
    assert_eq!(sorted[1].session_id, "codex:b");
}

#[test]
fn titles_from_a_cut_off_line_are_left_out() {
    let bytes =
        b"ne\",\"thread_name\":\"Half\"}\n{\"id\":\"x\",\"thread_name\":\"Whole\"}\n{\"id\":\"y\",\"thr"
            .to_vec();
    let titles = read_titles(&bytes, 100);
    assert_eq!(titles.get("x").unwrap(), "Whole");
    assert!(!titles.contains("y"));
}

#[test]
fn a_task_is_opened_by_its_own_id() {
    let w = watch();
    let sessions = vec![w.snapshot(AT, Mode::Off)];
    let address = open_address("codex:same-id", &sessions).unwrap();
    assert!(address.contains("same-id"));
    assert!(open_address("codex:other", &sessions).is_none());
}

#[test]
fn a_named_folder_wins_over_the_usual_one() {
    assert_eq!(home(Some("/data/codex")).as_deref(), Some("/data/codex"));
    assert_eq!(home(Some("")), None);
    assert_eq!(home(None), None);
}

/// Of files written at once the later path comes first, folder by folder: the
/// folder `a` comes before the folder `a-b`, though a dash comes before a slash.
#[test]
fn files_written_at_once_are_in_the_order_of_their_paths() {
    let files = vec![
        (AT, "/s/a/rollout-9.jsonl".to_string()),
        (AT, "/s/a-b/rollout-1.jsonl".to_string()),
        (AT, "/s/a/rollout-10.jsonl".to_string()),
    ];
    let chosen = choose_files(&files, AT);
    let names: Vec<&str> = chosen.iter().map(|f| f.1.as_str()).collect();
    assert_eq!(
        names,
        [
            "/s/a-b/rollout-1.jsonl",
            "/s/a/rollout-9.jsonl",
            "/s/a/rollout-10.jsonl"
        ]
    );
    let mut sorted: Vec<&std::path::Path> = names.iter().map(std::path::Path::new).collect();
    sorted.sort_by(|a, b| b.cmp(a));
    let expected: Vec<&std::path::Path> = names.iter().map(std::path::Path::new).collect();
    assert_eq!(sorted, expected);
}
