use pipsqueak::install::{
    backup_name, event_is_ours, events, install, install_into, install_message, installed,
    missing_events, our_group, read_settings, registered_command, stale_backups, strip_ours,
    uninstall, uninstall_from, uninstall_message, Refusal,
};
use pipsqueak::json::{from_bytes, parse, Json};

fn json(text: &str) -> Json {
    parse(text).unwrap()
}

fn command(entry: &Json) -> &str {
    entry.text_at("command").unwrap()
}

#[test]
fn strip_ours_leaves_other_hooks_untouched() {
    let mut groups = vec![json(
        r#"{
            "matcher": "*",
            "hooks": [
                { "type": "command", "command": "C:\\apps\\Pipsqueak\\pipsqueak.exe", "args": ["hook", "Stop"] },
                { "type": "command", "command": "C:\\tools\\notify.exe" }
            ]
        }"#,
    )];
    assert_eq!(strip_ours(&mut groups), 1);
    let remaining = groups[0].get("hooks").unwrap().as_array().unwrap();
    assert_eq!(remaining.len(), 1);
    assert_eq!(command(&remaining[0]), "C:\\tools\\notify.exe");
}

#[test]
fn groups_that_only_held_our_hooks_are_dropped() {
    let mut groups = vec![
        json(r#"{ "matcher": "*", "hooks": [{ "command": "/usr/local/bin/pipsqueak" }] }"#),
        json(r#"{ "matcher": "Bash", "hooks": [{ "command": "/usr/bin/lint" }] }"#),
    ];
    assert_eq!(strip_ours(&mut groups), 1);
    assert_eq!(groups.len(), 1);
    assert_eq!(groups[0].text_at("matcher"), Some("Bash"));
}

#[test]
fn install_is_idempotent_for_a_given_event() {
    let mut groups = vec![our_group("pipsqueak.exe", "Stop")];
    strip_ours(&mut groups);
    groups.push(our_group("pipsqueak.exe", "Stop"));
    assert_eq!(groups.len(), 1);
}

const EXE: &str = "/usr/bin/pipsqueak";

#[test]
fn what_is_installed_is_what_is_written() {
    let plan = install(None, EXE).ok().unwrap();
    assert!(!plan.backup);
    let written = from_bytes(&plan.write.unwrap()).unwrap();
    for event in events() {
        assert!(event_is_ours(&written, &event), "{event} is missing");
    }
    let text = r#"{"hooks":{}}"#;
    assert_eq!(missing_events(Some(text)).len(), 15);
    assert!(!installed(Some(text)));
}

#[test]
fn installing_twice_writes_nothing() {
    let plan = install(Some(r#"{"theme":"dark"}"#), EXE).ok().unwrap();
    assert!(plan.backup);
    let text = String::from_utf8(plan.write.unwrap()).unwrap();
    assert!(missing_events(Some(&text)).is_empty());
    assert!(installed(Some(&text)));
    assert_eq!(registered_command(Some(&text)).as_deref(), Some(EXE));
    let again = install(Some(&text), EXE).ok().unwrap();
    assert!(again.write.is_none());
    assert!(again.backup);
}

#[test]
fn key_order_survives() {
    let text = r#"{"zeta":1,"hooks":{"Stop":[{"hooks":[{"command":"/bin/x"}]}]},"alpha":2}"#;
    let after = install_into(&json(text), EXE).ok().unwrap();
    match &after {
        Json::Object(fields) => {
            let names: Vec<&str> = fields.iter().map(|f| f.0.as_str()).collect();
            assert_eq!(names, ["zeta", "hooks", "alpha"]);
        }
        _ => panic!("settings are an object"),
    }
    let stop = after.get("hooks").unwrap().get("Stop").unwrap();
    let groups = stop.as_array().unwrap();
    assert_eq!(groups.len(), 2);
    assert!(groups[1].same(&our_group(EXE, "Stop")));
}

/// A name that an older build registered under does not linger.
#[test]
fn hooks_under_a_retired_event_are_taken_out() {
    let text = r#"{"hooks":{"OldEvent":[{"hooks":[{"command":"/old/pipsqueak"}]}],"Mine":[{"hooks":[{"command":"/old/pipsqueak"},{"command":"/bin/x"}]}]}}"#;
    let after = install_into(&json(text), EXE).ok().unwrap();
    let hooks = after.get("hooks").unwrap();
    assert!(hooks.get("OldEvent").is_none());
    assert!(!event_is_ours(&after, "Mine"));
    let mine = hooks.get("Mine").unwrap().as_array().unwrap();
    assert_eq!(mine.len(), 1);
}

#[test]
fn uninstalling_undoes_an_install() {
    let before = json(r#"{"a":1,"hooks":{"Stop":[{"hooks":[{"command":"/bin/x"}]}]}}"#);
    let after = install_into(&before, EXE).ok().unwrap();
    let (rest, removed) = uninstall_from(&after).ok().unwrap();
    assert_eq!(removed, 15);
    assert!(rest.same(&before));

    let bare = json(r#"{"a":1}"#);
    let after = install_into(&bare, EXE).ok().unwrap();
    let (rest, _) = uninstall_from(&after).ok().unwrap();
    assert!(rest.same(&bare), "no empty hooks object is left behind");
    let (same, removed) = uninstall_from(&bare).ok().unwrap();
    assert_eq!(removed, 0);
    assert!(same.same(&bare));
}

#[test]
fn without_a_file_there_is_nothing_to_remove() {
    assert!(uninstall(None).ok().unwrap().is_none());
    let plan = uninstall(Some(r#"{"a":1}"#)).ok().unwrap().unwrap();
    assert!(plan.write.is_none());
    assert!(plan.backup);
    assert_eq!(plan.removed, 0);
}

#[test]
fn a_file_that_makes_no_sense_is_refused() {
    let why = install(Some("{ not json"), EXE).err().unwrap();
    assert!(matches!(why, Refusal::Invalid(_)));
    assert_eq!(
        why.message("settings.json"),
        "settings.json is not valid JSON (key must be a string at line 1 column 3) — refusing to touch it"
    );
    let why = install(Some("[]"), EXE).err().unwrap();
    assert_eq!(
        why.message("settings.json"),
        "settings.json is not a JSON object"
    );
    let why = install(Some(r#"{"hooks":7}"#), EXE).err().unwrap();
    assert_eq!(why.message("x"), "settings.hooks is not an object");
    let why = install(Some(r#"{"hooks":{"Stop":7}}"#), EXE).err().unwrap();
    assert_eq!(why.message("x"), "settings.hooks.Stop is not an array");
    assert!(uninstall(Some("{ not json")).is_err());
    assert_eq!(missing_events(Some("{ not json")).len(), 15);
    assert!(!installed(Some("{ not json")));
    assert_eq!(registered_command(Some("{ not json")), None);
}

#[test]
fn a_blank_file_is_an_empty_one() {
    assert!(read_settings(Some("  \n")).ok().unwrap().same(&json("{}")));
    assert!(read_settings(None).ok().unwrap().same(&json("{}")));
}

#[test]
fn only_the_newest_backups_are_kept() {
    let mut names: Vec<String> = (1..=7u64).map(backup_name).collect();
    assert_eq!(names[0], "settings.json.pipsqueak-backup-1");
    names.push("settings.json".into());
    names.push("settings.json.pipsqueak-backup-x".into());
    assert_eq!(
        stale_backups(&names),
        [
            "settings.json.pipsqueak-backup-1",
            "settings.json.pipsqueak-backup-2"
        ]
    );
}

#[test]
fn a_result_is_put_into_words() {
    assert_eq!(
        install_message("/s.json", Some("/b")),
        "Installed 15 hooks into /s.json. Backup: /b"
    );
    assert_eq!(
        install_message("/s.json", None),
        "Installed 15 hooks into /s.json (new file)."
    );
    assert_eq!(
        uninstall_message(15, "/b"),
        "Removed 15 Pipsqueak hooks. Backup: /b"
    );
}

/// Only what has something of ours in it is touched.
#[test]
fn a_foreign_event_is_left_as_it_is() {
    let text = r#"{"hooks":{"Other":[],"Odd":7,"Bare":[{"matcher":"x","hooks":[]}],"Gone":[{"hooks":[{"command":"/old/pipsqueak"}]}]}}"#;
    let after = install_into(&json(text), EXE).ok().unwrap();
    let hooks = after.get("hooks").unwrap();
    assert!(hooks.get("Other").unwrap().same(&json("[]")));
    assert!(hooks.get("Odd").unwrap().same(&json("7")));
    let bare = json(r#"[{"matcher":"x","hooks":[]}]"#);
    assert!(hooks.get("Bare").unwrap().same(&bare));
    assert!(hooks.get("Gone").is_none());
    match hooks {
        Json::Object(fields) => assert_eq!(fields[0].0, "Other"),
        _ => panic!("hooks are an object"),
    }
    let again = install_into(&after, EXE).ok().unwrap();
    assert!(again.same(&after));
}

#[test]
fn a_removal_leaves_no_event_without_a_hook() {
    let text = r#"{"hooks":{"Other":[],"Stop":[{"hooks":[{"command":"/bin/x"}]}]}}"#;
    let (rest, removed) = uninstall_from(&json(text)).ok().unwrap();
    assert_eq!(removed, 0);
    assert!(rest.same(&json(
        r#"{"hooks":{"Stop":[{"hooks":[{"command":"/bin/x"}]}]}}"#
    )));
}
