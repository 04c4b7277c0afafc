use pipsqueak::agent::folder;
use pipsqueak::json::parse;
use pipsqueak::names::NameSet;
use pipsqueak::narration::{
    between, decorate, last_thought, mode, plausible_id, set_mode, spoken, spoken_entry,
    track_tasks, unset_mode, usual_transcript, Mode, Watch,
};
use pipsqueak::state::Session;

fn outstanding(lines: &[&str]) -> Vec<String> {
    let mut out = NameSet::new();
    for line in lines {
        track_tasks(line, &mut out);
    }
    out.to_list()
}

/// The shapes below are copied from a real transcript. They are not a
/// documented API, so if the agent changes them these tests are the
/// thing that notices.
#[test]
fn a_background_command_is_outstanding_until_it_reports_back() {
    let launched =
        r#"{"type":"user","toolUseResult":{"stdout":"","backgroundTaskId":"bix46i2qi"}}"#;
    assert_eq!(outstanding(&[launched]), vec!["bix46i2qi"]);

    let finished = r#"{"type":"queue-operation","content":"<task-notification><task-id>bix46i2qi</task-id><status>completed</status><summary>Background command finished</summary>"}"#;
    assert!(outstanding(&[launched, finished]).is_empty());
}

/// A subagent's tool result arrives immediately and means "launched", not
/// "finished" — believing it is how the pet came to say Done over five
/// running agents.
#[test]
fn a_subagent_is_outstanding_from_launch_until_its_notification() {
    let launched = r#"{"toolUseResult":{"isAsync":true,"status":"async_launched","agentId":"a971514006ea69ef6"}}"#;
    assert_eq!(outstanding(&[launched]), vec!["a971514006ea69ef6"]);

    let finished = r#"{"type":"queue-operation","content":"<task-notification><task-id>a971514006ea69ef6</task-id><status>completed</status>"}"#;
    assert!(outstanding(&[launched, finished]).is_empty());
}

#[test]
fn several_at_once_drain_one_at_a_time() {
    let a = r#"{"toolUseResult":{"status":"async_launched","agentId":"aaa111"}}"#;
    let b = r#"{"toolUseResult":{"status":"async_launched","agentId":"bbb222"}}"#;
    let monitor = r#"{"toolUseResult":{"taskId":"ba7xghdk0","timeoutMs":3000000}}"#;
    let done_a =
        r#"{"content":"<task-notification><task-id>aaa111</task-id><status>completed</status>"}"#;
    assert_eq!(outstanding(&[a, b, monitor]).len(), 3);
    assert_eq!(
        outstanding(&[a, b, monitor, done_a]),
        vec!["ba7xghdk0", "bbb222"]
    );
}

/// Work ends four ways in a real transcript, and three of them are not
/// "completed". Counting only completions left a card reading
/// "Finishing · 1 running" for the rest of the session over one agent that
/// had already failed.
#[test]
fn work_that_ends_badly_still_ends() {
    let launch = |id: &str| {
        format!(r#"{{"toolUseResult":{{"status":"async_launched","agentId":"{id}"}}}}"#)
    };
    let notify = |id: &str, status: &str| {
        format!(
            r#"{{"content":"<task-notification><task-id>{id}</task-id><status>{status}</status>"}}"#
        )
    };
    for status in ["completed", "failed", "stopped", "killed"] {
        let lines = [launch("aaa111"), notify("aaa111", status)];
        let refs: Vec<&str> = lines.iter().map(String::as_str).collect();
        assert!(outstanding(&refs).is_empty(), "{status} should end the work");
    }
    // A progress report is not an ending.
    let lines = [launch("aaa111"), notify("aaa111", "running")];
    let refs: Vec<&str> = lines.iter().map(String::as_str).collect();
    assert_eq!(outstanding(&refs), vec!["aaa111"]);
}

#[test]
fn stopping_a_task_by_hand_ends_it_too() {
    let monitor = r#"{"toolUseResult":{"taskId":"ba7xghdk0","timeoutMs":3000}}"#;
    let stopped = r#"{"content":"Successfully stopped task: ba7xghdk0 (prev=…)"}"#;
    assert!(outstanding(&[monitor, stopped]).is_empty());
}

/// `taskId` is overwhelmingly the *to-do list's* field. Each one used to add a
/// background task that could never finish, because no completion notification
/// for a checkbox exists.
#[test]
fn ticking_off_a_to_do_item_is_not_launching_a_task() {
    let created = r#"{"toolUseResult":{"tasks":[{"taskId":"1","title":"Read the code"}]}}"#;
    let updated = r#"{"toolUseResult":{"success":true,"taskId":"1","updatedFields":["status"],"statusChange":{"from":"in_progress","to":"completed"}}}"#;
    // The model *asking* for the change is not the system confirming one.
    let asked = r#"{"message":{"content":[{"type":"tool_use","name":"TaskUpdate","input":{"taskId":"1","status":"completed"}}]}}"#;
    assert!(outstanding(&[created, updated, asked]).is_empty());
    // Belt and braces: nothing the agent launches is numbered.
    assert!(!plausible_id("1"));
    assert!(plausible_id("bix46i2qi"));
}

/// Resuming a session produces one notification listing every task the
/// previous session abandoned — up to ten `<task-id>` tags under a single
/// `<status>`. Reading only the first discarded nine endings.
#[test]
fn one_notification_can_end_more_than_one_task() {
    let launch = |id: &str| format!(r#"{{"toolUseResult":{{"backgroundTaskId":"{id}"}}}}"#);
    let orphans = r#"{"content":"<task-notification><task-id>aaa111</task-id><task-id>bbb222</task-id><task-id>__orphan_summary__:shell</task-id><status>stopped</status><summary>2 background shell command task(s) from the previous session have no completion record</summary></task-notification>"}"#;
    let lines = [launch("aaa111"), launch("bbb222"), orphans.to_string()];
    let refs: Vec<&str> = lines.iter().map(String::as_str).collect();
    assert!(outstanding(&refs).is_empty());
}

/// A finished task whose id is echoed on a later line used to be *added
/// back* by that echo — by the very line saying it had completed — and
/// never removed again.
#[test]
fn an_echo_of_finished_work_does_not_revive_it() {
    let launched = r#"{"toolUseResult":{"status":"async_launched","agentId":"a817eb2d8"}}"#;
    let finished = r#"{"content":"<task-notification><task-id>a817eb2d8</task-id><status>completed</status></task-notification>"}"#;
    let echoed = r#"{"attachment":{"type":"task_status","taskId":"a817eb2d8","description":"Fix the sync","status":"completed"}}"#;
    assert!(outstanding(&[launched, finished, echoed]).is_empty());
    // And the echo alone never counts as a launch.
    assert!(outstanding(&[echoed]).is_empty());
}

/// A subagent called and waited for finishes before its result is written,
/// and its result carries an `agentId` too. Counting that as a launch
/// strands the card on work that was over before the line was written.
#[test]
fn a_subagent_that_already_finished_is_not_outstanding() {
    let sync = r#"{"toolUseResult":{"agentId":"ac8f6ac61","agentType":"Explore","status":"completed"}}"#;
    assert!(outstanding(&[sync]).is_empty());
}

/// An ordinary turn must not leave anything behind, or every card would
/// eventually be stuck reporting work that never existed.
#[test]
fn ordinary_lines_launch_nothing() {
    let said = r#"{"type":"assistant","message":{"content":[{"type":"text","text":"taskId is a field name"}]}}"#;
    let tool = r#"{"type":"user","toolUseResult":{"stdout":"ok","interrupted":false}}"#;
    // A mention with no id, and an id-shaped value that is not one.
    let empty = r#"{"toolUseResult":{"backgroundTaskId":""}}"#;
    let sentence = r#"{"toolUseResult":{"taskId":"not an id, but a sentence with spaces"}}"#;
    assert!(outstanding(&[said, tool, empty, sentence]).is_empty());
}

fn entry(kind: &str, text: &str) -> String {
    format!(
        r#"{{"type":"assistant","message":{{"content":[{{"type":"{kind}","{kind}":"{text}"}}]}}}}"#
    )
}

/// Subagents write into the same transcript, marked `isSidechain`. Their
/// lines on the parent card read as the narration jumping between voices.
#[test]
fn a_sidechain_voice_stays_off_the_card() {
    let line = r#"{"type":"assistant","isSidechain":true,"message":{"content":[{"type":"text","text":"Subagent progress report."}]}}"#;
    assert_eq!(spoken(line, Mode::Speech), None);
}

#[test]
fn speech_is_taken_as_written() {
    let line = entry("text", "Now the frontend: chat titles and the done card.");
    assert_eq!(
        spoken(&line, Mode::Speech).as_deref(),
        Some("Now the frontend: chat titles and the done card.")
    );
}

/// The greeting rule earns its keep here: every reply in this session opens
/// with one, and a pet that narrates "Tristan," is worse than silent.
#[test]
fn a_greeting_is_never_the_narration() {
    let line = entry("text", "Tristan,\\n\\nInstalled and running.");
    assert_eq!(
        spoken(&line, Mode::Speech).as_deref(),
        Some("Installed and running.")
    );
}

#[test]
fn thoughts_are_only_read_when_asked_for() {
    let line = entry(
        "thinking",
        "The poller is the suspect here. Let me check whether it still runs.",
    );
    assert_eq!(spoken(&line, Mode::Speech), None);
    assert_eq!(
        spoken(&line, Mode::Thoughts).as_deref(),
        Some("Let me check whether it still runs.")
    );
}

#[test]
fn tool_calls_say_nothing() {
    let line = r#"{"type":"assistant","message":{"content":[{"type":"tool_use","name":"Read","input":{}}]}}"#;
    assert_eq!(spoken(line, Mode::Thoughts), None);
    let result = r#"{"type":"user","message":{"content":[{"type":"tool_result"}]}}"#;
    assert_eq!(spoken(result, Mode::Thoughts), None);
}

#[test]
fn a_fragment_of_a_thought_is_not_a_sentence() {
    let line = entry("thinking", "Right.\\nOK\\nso");
    assert_eq!(spoken(&line, Mode::Thoughts), None);
}

/// The setting arrives as a string from a hand-editable config file, so
/// the only wrong answer is one that turns narration off by accident.
#[test]
fn an_unreadable_setting_still_narrates() {
    assert_eq!(Mode::parse("off"), Mode::Off);
    assert_eq!(Mode::parse("speech"), Mode::Speech);
    assert_eq!(Mode::parse("thoughts"), Mode::Thoughts);
    assert_eq!(Mode::parse("nonsense"), Mode::Thoughts);
    assert_eq!(Mode::parse(""), Mode::Thoughts);
}

/// Reads a transcript on, as it stands.
fn follow(content: &str, watch: &mut Watch, mode: Mode) {
    let bytes = content.as_bytes();
    if let Some(start) = watch.resume(bytes.len() as u64) {
        watch.read(&bytes[start as usize..].to_vec(), start, mode);
    }
}

#[test]
fn a_half_written_line_is_left_for_next_time() {
    let whole = entry("text", "First thing done.");
    let mut watch = Watch::new();
    follow(
        &format!("{whole}\n{{\"type\":\"assist"),
        &mut watch,
        Mode::Speech,
    );
    assert_eq!(watch.line, "First thing done.");
    assert_eq!(
        watch.offset,
        whole.len() as u64 + 1,
        "the partial line is not consumed"
    );

    // The rest of it arrives, and is read exactly once.
    let second = entry("text", "Second thing done.");
    follow(&format!("{whole}\n{second}\n"), &mut watch, Mode::Speech);
    assert_eq!(watch.line, "Second thing done.");
}

#[test]
fn a_transcript_with_a_broken_byte_is_still_read() {
    let mut bytes = b"\xff not a line\n".to_vec();
    bytes.extend_from_slice(entry("text", "Still here.").as_bytes());
    bytes.push(b'\n');
    let mut watch = Watch::new();
    watch.read(&bytes, 0, Mode::Speech);
    assert_eq!(watch.line, "Still here.");
    assert_eq!(watch.offset, bytes.len() as u64);
}

#[test]
fn the_setting_is_held_as_a_number() {
    let mut held: u8 = 2;
    set_mode(&mut held, Mode::Off);
    assert_eq!(mode(held), Mode::Off);
    set_mode(&mut held, Mode::Speech);
    assert_eq!(mode(held), Mode::Speech);
    set_mode(&mut held, Mode::Thoughts);
    assert_eq!(mode(held), Mode::Thoughts);
}

#[test]
fn a_tag_is_read_up_to_its_end() {
    assert_eq!(
        between("a<b>inside</b>c", "<b>", "</b>").as_deref(),
        Some("inside")
    );
    assert_eq!(between("a<b>inside", "<b>", "</b>"), None);
    assert_eq!(
        last_thought("One here is long enough. Another one follows here.").as_deref(),
        Some("Another one follows here.")
    );
}

#[test]
fn the_count_is_kept_when_the_voice_is_off() {
    let mut session = Session::default();
    let mut watch = Watch::new();
    watch.outstanding.insert("aaa111");
    watch.line = "Working on it.".into();
    decorate(&mut session, &watch, Mode::Off);
    assert_eq!(session.outstanding, 1);
    assert_eq!(session.narration, "");
    decorate(&mut session, &watch, Mode::Speech);
    assert_eq!(session.narration, "Working on it.");
}

#[test]
fn the_agents_own_count_wins() {
    let mut session = Session::default();
    session.tasks = vec!["aaa111".into(), "bbb222".into()];
    session.tasks_ms = 5;
    session.updated_ms = 9;
    let mut watch = Watch::new();
    watch.outstanding.insert("stale1");
    watch.sync(&session);
    assert_eq!(watch.outstanding.to_list(), ["aaa111", "bbb222"]);
    assert!(!watch.is_quiet(&session));
}

#[test]
fn an_entry_that_is_no_speech_is_silent() {
    let value = parse(r#"{"type":"system"}"#).unwrap();
    assert_eq!(spoken_entry(&value, Mode::Thoughts), None);
    assert_eq!(spoken("not json", Mode::Thoughts), None);
}

#[test]
fn a_transcript_has_a_usual_place() {
    let mut session = Session::default();
    assert!(usual_transcript(&session).is_none());
    session.session_id = "abc".into();
    session.cwd = "/home/me/x".into();
    let steps = usual_transcript(&session).unwrap();
    assert_eq!(steps, [folder(), "projects".into(), "-home-me-x".into(), "abc.jsonl".into()]);
}

#[test]
fn until_a_mode_is_set_thoughts_are_shown() {
    assert_eq!(mode(unset_mode()), Mode::Thoughts);
}
