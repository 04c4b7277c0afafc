use pipsqueak::agent::folder;
use pipsqueak::state::{
    attention_rank, codex_pets_dir, command_path, config_path, claude_settings_path,
    has_stopped_responding, heartbeat_path, home_dir, hotkey_log_path, load_config, migrate,
    newer_config, now_ms, pets_dir, read_sessions, root, sanitize, save_config, sessions_dir,
    sweep, Config, ConfigFile, Fate, FileLock, Found, Session, Step, CONFIG_VERSION,
    LOCK_ATTEMPTS, RECENT_LIMIT, STALE_AFTER_MS, WORKING_STALE_MS,
};

/// Migration leaves the saved position alone on purpose. Correcting it
/// here needs the display scale, which this layer does not have, and
/// getting it wrong is what put the pet below the bottom of the screen.
/// Placement clamps it to the work area instead.
#[test]
fn migration_does_not_touch_the_saved_position() {
    let mut config = Config {
        version: 1,
        x: Some(1326),
        y: Some(649),
        ..Config::default()
    };
    migrate(&mut config);
    assert_eq!(config.version, CONFIG_VERSION);
    assert_eq!((config.x, config.y), (Some(1326), Some(649)));
}

#[test]
fn a_hand_edited_value_costs_only_itself() {
    let mut config = Config {
        scale: (-12.0f64).to_bits(),
        pet: "  ".into(),
        show_scratch: true,
        ..Config::default()
    };
    config.clamp();
    assert_eq!(f64::from_bits(config.scale), 2.0);
    assert_eq!(config.pet, "byte");
    assert!(config.show_scratch, "an unrelated setting must survive");
}

#[test]
fn a_newer_config_is_never_written_over() {
    let config = Config {
        version: CONFIG_VERSION + 1,
        ..Config::default()
    };
    assert!(save_config(config).is_none());
    assert_eq!(
        newer_config(),
        "config.json was written by a newer version of Pipsqueak"
    );
}

#[test]
fn a_scale_is_pulled_back_into_range() {
    for (given, kept) in [
        (0.5, 1.0),
        (1.0, 1.0),
        (3.25, 3.25),
        (6.0, 6.0),
        (7.5, 6.0),
        (0.0, 2.0),
        (-0.0, 2.0),
        (f64::NAN, 2.0),
        (f64::INFINITY, 2.0),
        (f64::NEG_INFINITY, 2.0),
        (f64::MIN_POSITIVE, 1.0),
        (f64::MAX, 6.0),
    ] {
        let mut config = Config {
            scale: f64::to_bits(given),
            ..Config::default()
        };
        config.clamp();
        assert_eq!(f64::from_bits(config.scale), kept, "for {given}");
    }
    assert_eq!(f64::from_bits(Config::default().scale), 2.0);
}

#[test]
fn a_config_that_cannot_be_read_is_set_aside() {
    let (config, aside) = load_config(ConfigFile::Unparseable);
    assert!(aside);
    assert_eq!(config.pet, "byte");
    assert_eq!(config.hotkey, "Ctrl+Alt+P");
    let (_, aside) = load_config(ConfigFile::Missing);
    assert!(!aside);
    let old = Config {
        version: 0,
        pet: "pip".into(),
        ..Config::default()
    };
    let (config, aside) = load_config(ConfigFile::Parsed(old));
    assert!(!aside);
    assert_eq!((config.version, config.pet.as_str()), (2, "pip"));
    let stored = save_config(config).unwrap();
    assert_eq!(stored.pet, "pip");
}

#[test]
fn whoever_needs_a_human_comes_first() {
    let session = |id: &str, updated: u64, waiting: u64, outcome: &str| Session {
        session_id: id.into(),
        updated_ms: updated,
        waiting_since: waiting,
        outcome: outcome.into(),
        ..Session::default()
    };
    let found = vec![
        session("old", 1, 0, ""),
        session("failed", 2, 0, "failed"),
        session("new", 9, 0, "done"),
        session("waiting", 3, 5, ""),
        session("same", 1, 0, ""),
    ];
    assert_eq!(attention_rank(&found[3]), 3);
    assert_eq!(attention_rank(&found[1]), 2);
    let order: Vec<String> = read_sessions(&found)
        .into_iter()
        .map(|s| s.session_id)
        .collect();
    assert_eq!(order, ["waiting", "failed", "new", "old", "same"]);
}

fn running(updated: u64) -> Session {
    Session {
        session_id: "s".into(),
        state: "running".into(),
        headline: "Fix it".into(),
        activity: "Editing a.rs".into(),
        updated_ms: updated,
        subagents: 1,
        agents: vec!["a1".into()],
        ..Session::default()
    }
}

#[test]
fn silence_is_not_a_completion() {
    let now = WORKING_STALE_MS + 2;
    match sweep(Found::Read(running(1)), now, true) {
        Fate::Write(after) => {
            assert_eq!(after.state, "idle");
            assert_eq!(after.kind, "Idle");
            assert!(after.stalled);
            assert!(after.outcome.is_empty());
            assert_eq!(after.headline, "Fix it");
            assert!(after.activity.is_empty());
            assert_eq!(after.subagents, 0);
            assert_eq!(after.turn_ended_ms, now);
        }
        _ => panic!("the card claims work that is not happening"),
    }
    assert!(matches!(
        sweep(Found::Read(running(2)), now, true),
        Fate::Leave
    ));
}

#[test]
fn a_session_waiting_on_a_human_is_not_stalled() {
    let mut waiting = running(1);
    waiting.waiting_since = 1;
    assert!(!has_stopped_responding(&waiting, STALE_AFTER_MS));
    assert!(matches!(
        sweep(Found::Read(waiting), STALE_AFTER_MS, true),
        Fate::Leave
    ));
    let mut pending = running(1);
    pending.pending_since = 1;
    assert!(!has_stopped_responding(&pending, STALE_AFTER_MS));
}

#[test]
fn the_dead_and_the_old_are_removed() {
    let mut owned = running(1);
    owned.agent_pid = 7;
    assert!(matches!(
        sweep(Found::Read(owned), 2, false),
        Fate::Remove
    ));
    // Nobody was recorded, so nobody can be dead.
    assert!(matches!(
        sweep(Found::Read(running(1)), 2, false),
        Fate::Leave
    ));
    assert!(matches!(
        sweep(Found::Read(running(1)), STALE_AFTER_MS + 2, true),
        Fate::Remove
    ));
    assert!(matches!(sweep(Found::Unreadable, 2, true), Fate::Leave));
    assert!(matches!(sweep(Found::Unparseable, 2, true), Fate::Remove));
}

#[test]
fn a_lock_is_only_stolen_when_it_is_provably_old() {
    let mut lock = FileLock::new();
    assert_eq!(lock.acquire(true, None) == Step::Proceed, true);
    assert!(lock.release());

    let mut lock = FileLock::new();
    assert!(lock.acquire(false, Some(2)) == Step::Steal);
    assert!(lock.acquire(false, Some(9)) == Step::Wait);
    assert!(!lock.release());

    let mut lock = FileLock::new();
    assert!(lock.acquire(false, None) == Step::Wait);
    let mut attempts = 1;
    while attempts < LOCK_ATTEMPTS - 1 {
        assert!(lock.acquire(false, Some(1)) == Step::Wait);
        attempts += 1;
    }
    assert!(lock.acquire(false, Some(1)) == Step::Proceed);
    assert!(!lock.release());
}

#[test]
fn the_log_of_a_session_is_bounded() {
    let mut session = Session::default();
    for i in 0..40u64 {
        session.push_recent("running", &format!("line {i}"), i);
    }
    session.push_recent("running", "line 39", 99);
    assert_eq!(session.recent.len(), RECENT_LIMIT);
    assert_eq!(session.recent.last().unwrap().text, "line 39");
    assert_eq!(session.recent[0].text, "line 16");
}

#[test]
fn progress_clears_what_was_blocking() {
    let mut session = running(1);
    assert!(session.is_running());
    session.outcome = "done".into();
    session.waiting_since = 3;
    session.pending_tool = "Bash".into();
    session.pending_since = 4;
    session.clear_pending();
    assert_eq!((session.outcome.as_str(), session.waiting_since), ("", 0));
    assert_eq!(session.pending_since, 4);
    session.clear_permission();
    assert_eq!((session.pending_tool.as_str(), session.pending_since), ("", 0));
}

#[test]
fn paths_are_below_the_home_directory() {
    assert_eq!(root(), [".pipsqueak"]);
    assert_eq!(sessions_dir(), [".pipsqueak", "sessions"]);
    assert_eq!(pets_dir(), [".pipsqueak", "pets"]);
    assert_eq!(codex_pets_dir(), [".codex", "pets"]);
    assert_eq!(config_path(), [".pipsqueak", "config.json"]);
    assert_eq!(command_path(), [".pipsqueak", "command.json"]);
    assert_eq!(hotkey_log_path(), [".pipsqueak", "hotkey.json"]);
    assert_eq!(heartbeat_path(), [".pipsqueak", "running.json"]);
    assert_eq!(claude_settings_path(), [folder(), "settings.json".into()]);
    assert_eq!(home_dir(Some("/home/me")), "/home/me");
    assert_eq!(home_dir(None), ".");
    assert_eq!(now_ms(Some(1_788_770_600_000)), 1_788_770_600_000);
    assert_eq!(now_ms(None), 0);
}

#[test]
fn a_name_is_cut_and_cleaned() {
    assert_eq!(sanitize("a b/c:d_e-f"), "abcd_e-f");
    assert_eq!(sanitize(&"x".repeat(200)).len(), 96);
    assert_eq!(sanitize("…"), "unknown");
}
