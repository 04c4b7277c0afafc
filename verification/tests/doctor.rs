use pipsqueak::doctor::{
    autostart_check, beat_is_fresh, binary_check, codex_check, fail, fired_summary, hooks_check, hotkey_check,
    markdown, missing_verdict, ok, overall, overlay_check, redact, run, storage_check,
    traffic_check, warn, watch_result, watch_start, CodexFolder, Facts, Program, Report, Settings, Startup,
    Storage,
};
use pipsqueak::install::{install, events};
use pipsqueak::json::parse;
use pipsqueak::state::Session;

#[test]
fn the_report_never_carries_a_home_directory() {
    let home = "/home/somebody";
    let report = Report {
        status: "ok",
        checks: vec![ok(
            "storage",
            "Session folder",
            format!("{home}/.pipsqueak/sessions"),
        )],
        version: "0.0.0",
        platform: "test",
    };
    let text = markdown(&report, home);
    assert!(!text.contains(home), "the home path leaked into the report");
    assert!(text.contains("~/.pipsqueak") || text.contains("~\\.pipsqueak"));
}

#[test]
fn a_table_cell_cannot_break_the_table() {
    let report = Report {
        status: "ok",
        checks: vec![ok("x", "Pipe", "a | b".into())],
        version: "0.0.0",
        platform: "test",
    };
    assert!(markdown(&report, "/home/me").contains("a \\| b"));
}

#[test]
fn a_report_reads_as_a_whole() {
    let report = Report {
        status: "warn",
        checks: vec![warn("x", "Label", "Detail".into())],
        version: "0.9.0",
        platform: "linux",
    };
    assert_eq!(
        markdown(&report, ""),
        "# Pipsqueak diagnostic\n\n- Version: 0.9.0\n- Platform: linux\n- Overall: warn\n\n\
         | Check | Status | Detail |\n|---|---|---|\n| Label | warn | Detail |\n\n\
         Generated locally. Contains no session content, prompts, or file contents.\n"
    );
}

#[test]
fn a_home_directory_is_folded_both_ways_round() {
    assert_eq!(
        redact("C:\\Users\\me\\x and C:/Users/me/y", "C:\\Users\\me"),
        "~\\x and ~/y"
    );
    assert_eq!(redact("/home/me", ""), "/home/me");
    assert_eq!(redact("aaa", "aa"), "~a");
}

#[test]
fn a_report_is_as_bad_as_its_worst_check() {
    let good = || ok("a", "A", "x".into());
    let doubt = || warn("b", "B", "x".into());
    let bad = || fail("c", "C", "x".into(), Some("install"));
    assert_eq!(overall(&vec![good()]), "ok");
    assert_eq!(overall(&vec![good(), doubt()]), "warn");
    assert_eq!(overall(&vec![doubt(), bad(), good()]), "fail");
}

#[test]
fn the_hooks_are_looked_at() {
    let missing = hooks_check(&Settings::Missing);
    assert_eq!((missing.status, missing.fix), ("fail", Some("install")));
    let unreadable = hooks_check(&Settings::Unreadable);
    assert_eq!((unreadable.status, unreadable.fix), ("fail", None));
    let broken = hooks_check(&Settings::Text("{".into()));
    assert_eq!((broken.status, broken.fix), ("fail", None));
    assert!(broken.detail.contains("left alone"));
    let bare = hooks_check(&Settings::Text("{}".into()));
    assert_eq!(
        bare.detail,
        "Not installed. Nothing will ever reach the pet until they are."
    );
    let plan = install(Some("{}"), "/usr/bin/pipsqueak").ok().unwrap();
    let text = String::from_utf8(plan.write.unwrap()).unwrap();
    let whole = hooks_check(&Settings::Text(text));
    assert_eq!(
        (whole.status, whole.detail.as_str()),
        ("ok", "All 15 events registered.")
    );
    let some = missing_verdict(&vec!["Stop".into(), "PreToolUse".into()]);
    assert_eq!(
        some.detail,
        "Missing: Stop, PreToolUse. Something rewrote settings.json."
    );
    assert_eq!(missing_verdict(&events()).status, "fail");
}

fn program(registered: Option<&str>, exists: bool, resolved: Option<bool>) -> Program {
    Program {
        current: Some("C:\\Apps\\pip.exe".into()),
        registered: registered.map(String::from),
        exists,
        resolved,
    }
}

#[test]
fn the_program_that_the_hooks_run_is_looked_at() {
    let unknown = Program {
        current: None,
        registered: None,
        exists: false,
        resolved: None,
    };
    assert_eq!(binary_check(&unknown).status, "warn");
    assert_eq!(binary_check(&program(None, false, None)).status, "ok");
    let gone = binary_check(&program(Some("/x/pip"), false, Some(false)));
    assert_eq!(gone.status, "fail");
    assert!(gone.detail.contains("/x/pip, which no longer exists"));
    let other = binary_check(&program(Some("/x/pip"), true, Some(false)));
    assert_eq!(other.status, "warn");
    // Case and slash direction do not make another copy.
    let same = binary_check(&program(Some("c:/apps/PIP.exe"), true, None));
    assert_eq!(same.detail, "Hooks point at this executable.");
}

#[test]
fn the_session_folder_is_looked_at() {
    assert_eq!(storage_check("/s", &Storage::NoFolder).detail, "Cannot create /s.");
    assert_eq!(storage_check("/s", &Storage::Writable).detail, "/s is writable.");
    assert_eq!(
        storage_check("/s", &Storage::Refused("denied".into())).detail,
        "/s is not writable: denied"
    );
}

#[test]
fn a_heartbeat_is_fresh_for_six_seconds() {
    assert_eq!(overlay_check(Some(r#"{"ms":1000}"#), 6_999).status, "ok");
    assert_eq!(overlay_check(Some(r#"{"ms":1000}"#), 7_000).status, "warn");
    assert_eq!(overlay_check(Some("{"), 1).status, "warn");
    assert_eq!(overlay_check(None, 1).status, "warn");
    assert!(beat_is_fresh(Some(&parse(r#"{"ms":5}"#).unwrap()), 1));
}

#[test]
fn the_shortcut_is_looked_at() {
    assert_eq!(hotkey_check("", "off", None, 1).detail, "Turned off.");
    assert_eq!(hotkey_check("", "Ctrl+Alt+P", None, 1).status, "warn");
    let pressed = hotkey_check(
        "Ctrl+Alt+P",
        " ctrl+alt+p ",
        Some(r#"{"fired":3,"at":1000}"#),
        5_500,
    );
    assert_eq!(pressed.status, "ok");
    assert_eq!(
        pressed.detail,
        "Ctrl+Alt+P shows and hides the pet. Pressed 3 time(s), last 4s ago."
    );
    let other = hotkey_check("Ctrl+Alt+K", "Ctrl+Alt+P", None, 1);
    assert_eq!(
        other.detail,
        "Ctrl+Alt+P was already taken, so Ctrl+Alt+K is being used instead."
    );
    assert_eq!(
        fired_summary(None, 1),
        "Not pressed yet since it was installed."
    );
}

fn startup(registered: Option<&str>, resolved: Option<bool>, present: bool) -> Startup {
    Startup {
        registered: registered.map(String::from),
        current: "/usr/bin/pipsqueak".into(),
        resolved,
        present,
        windows: false,
    }
}

#[test]
fn what_starts_at_login_is_looked_at() {
    let off = autostart_check(&startup(None, None, false));
    assert!(off.detail.starts_with("Will not start when you log in."));
    let on = autostart_check(&startup(Some("/usr/bin/pipsqueak"), None, true));
    assert_eq!((on.status, on.detail.as_str()), ("ok", "Starts when you log in."));
    let wrapper = autostart_check(&startup(Some("/home/me/run.sh"), Some(false), true));
    assert!(wrapper.detail.contains("Left alone"));
    let gone = autostart_check(&startup(Some("/gone"), None, false));
    assert!(gone.detail.contains("not there any more"));
}

fn session(project: &str, id: &str, updated: u64) -> Session {
    Session {
        project: project.into(),
        session_id: id.into(),
        updated_ms: updated,
        ..Session::default()
    }
}

#[test]
fn traffic_that_stopped_an_hour_ago_is_doubtful() {
    assert_eq!(traffic_check(&vec![], 1).status, "warn");
    let sessions = vec![session("a", "1", 60_000), session("b", "2", 120_000)];
    let fresh = traffic_check(&sessions, 120_000 + 60 * 60_000 + 59_999);
    assert_eq!(fresh.status, "ok");
    assert_eq!(
        fresh.detail,
        "2 session(s); last event 60 minute(s) ago."
    );
    assert_eq!(
        traffic_check(&sessions, 120_000 + 61 * 60_000).status,
        "warn"
    );
}

#[test]
fn what_arrived_is_named_once_and_in_order() {
    let since = watch_start(100);
    let sessions = vec![
        session("zoo", "1", 100),
        session("", "bare", 150),
        session("zoo", "2", 160),
        session("old", "3", 99),
    ];
    let (status, detail) = watch_result(&sessions, since);
    assert_eq!(status, "ok");
    assert_eq!(
        detail,
        "3 event(s) arrived from: bare, zoo. The chain works end to end."
    );
    assert_eq!(watch_result(&sessions, 500).0, "none");
}

#[test]
fn every_check_is_in_the_report() {
    let facts = Facts {
        settings: Settings::Text("{}".into()),
        program: program(None, false, None),
        dir: "/s".into(),
        storage: Storage::Writable,
        heartbeat: Some(r#"{"ms":1}"#.into()),
        chord: "Ctrl+Alt+P".into(),
        wanted: "Ctrl+Alt+P".into(),
        presses: None,
        startup: startup(None, None, false),
        sessions: vec![],
        codex_dir: "/c".into(),
        codex: CodexFolder::Readable,
        now: 2,
    };
    let report = run(&facts, "0.9.0", "linux");
    let ids: Vec<&str> = report.checks.iter().map(|c| c.id).collect();
    assert_eq!(
        ids,
        ["hooks", "binary", "storage", "overlay", "hotkey", "autostart", "traffic", "codex"]
    );
    assert_eq!(report.status, "fail");
    assert_eq!((report.version, report.platform), ("0.9.0", "linux"));
}

#[test]
fn a_report_carries_no_home_on_windows_either() {
    let home = "C:\\Users\\me";
    let report = Report {
        status: "ok",
        checks: vec![ok(
            "x",
            "Folder",
            "C:\\Users\\me\\a | C:/Users/me/b | C:\\Users\\|me".into(),
        )],
        version: "0.9.0",
        platform: "windows",
    };
    let text = markdown(&report, home);
    assert!(!text.contains(home));
    assert!(text.contains("~\\a \\| ~/b \\| C:\\Users\\\\|me"));
}

#[test]
fn codexs_folder_is_looked_at() {
    let missing = codex_check("/c", &CodexFolder::Missing);
    assert_eq!(missing.status, "ok");
    assert_eq!(missing.detail, "No /c. Codex has no sessions to follow here.");
    let there = codex_check("/c", &CodexFolder::Readable);
    assert_eq!((there.status, there.detail.as_str()), ("ok", "/c is readable."));
    let shut = codex_check("/c", &CodexFolder::Refused("denied".into()));
    assert_eq!(shut.status, "warn");
    assert_eq!(shut.detail, "/c is not readable: denied");
}
