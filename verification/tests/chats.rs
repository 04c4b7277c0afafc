use pipsqueak::agent::word;
use pipsqueak::chats::{
    best_by_session, decorate, field, hex4, is_plain_id, is_recent, local_id, lookup, open,
    read_record, store_dir, Chat, Record,
};
use pipsqueak::state::Session;

fn record(modified: u64, cli: &str, id: &str, title: &str) -> Record {
    Record {
        modified,
        cli: cli.into(),
        chat: Chat {
            id: id.into(),
            title: title.into(),
        },
    }
}

#[test]
fn reads_the_fields_the_app_writes_first() {
    let head = r#"{"sessionId": "local_abc", "cliSessionId": "5bb53f69-9c6c", "cwd": "C:\\code", "title": "Pet UI animations", "titleSource": "auto""#;
    assert_eq!(
        field(head, "cliSessionId").as_deref(),
        Some("5bb53f69-9c6c")
    );
    assert_eq!(field(head, "title").as_deref(), Some("Pet UI animations"));
}

#[test]
fn a_truncated_record_gives_up_rather_than_guessing() {
    let head = r#"{"cliSessionId": "5bb53f69", "title": "half a titl"#;
    assert_eq!(field(head, "cliSessionId").as_deref(), Some("5bb53f69"));
    assert_eq!(field(head, "title"), None);
}

#[test]
fn non_string_values_are_not_titles() {
    let head = r#"{"title": 12, "cliSessionId": "abc"}"#;
    assert_eq!(field(head, "title"), None);
}

#[test]
fn escapes_survive_the_trip() {
    let head = r#"{"title": "a \"quoted\" \u2014 name"}"#;
    assert_eq!(field(head, "title").as_deref(), Some("a \"quoted\" — name"));
}

/// The id is spliced into a URL that the shell executes, so the only ids
/// that are ever used are the ones that look exactly like the app's own.
#[test]
fn only_plain_ids_may_reach_the_shell() {
    assert!(is_plain_id("13f92b55-b7ea-43d0-8b03-810355a1c358"));
    assert!(!is_plain_id("a b"));
    assert!(!is_plain_id("x&start=calc.exe"));
    assert!(!is_plain_id(""));
}

#[test]
fn a_chat_id_comes_from_the_file_name() {
    assert_eq!(
        local_id("/store/local_13f92b55-b7ea.json").as_deref(),
        Some("13f92b55-b7ea")
    );
    assert_eq!(local_id("/store/other.json"), None);
}

/// Non-BMP characters arrive as surrogate pairs. An emoji in a chat title
/// used to cost the whole title, and the card fell back to the project name.
#[test]
fn an_emoji_title_survives_as_a_pair() {
    let escaped = "{\"title\": \"Fix \\uD83D\\uDE00 bug\"}";
    assert_eq!(
        field(escaped, "title").as_deref(),
        Some("Fix \u{1F600} bug")
    );
    // A lone half is not a character; give up rather than guess.
    assert_eq!(field(r#"{"title": "bad \uD83D end"}"#, "title"), None);
}

/// Two records claiming one session resolve to the newest, everywhere the
/// question is asked, so the title shown and the chat opened agree.
#[test]
fn duplicate_records_resolve_to_the_newest() {
    let files = vec![
        ("a.json".to_string(), record(100, "session-1", "old", "Old title")),
        ("b.json".to_string(), record(200, "session-1", "new", "New title")),
    ];
    let best = best_by_session(&files);
    assert_eq!(best.get("session-1").unwrap().id, "new");
}

#[test]
fn the_title_shown_and_the_chat_opened_agree() {
    let files = vec![
        ("b.json".to_string(), record(200, "session-1", "new", "New title")),
        ("a.json".to_string(), record(100, "session-1", "old", "Old title")),
    ];
    let mut sessions = vec![Session::default(), Session::default()];
    sessions[0].session_id = "session-1".into();
    sessions[1].session_id = "session-2".into();
    decorate(&files, &mut sessions);
    let chat = lookup(&files, "session-1").unwrap();
    assert_eq!(sessions[0].chat_id, chat.id);
    assert_eq!(sessions[0].chat_title, "New title");
    assert_eq!(sessions[1].chat_id, "");
    assert!(lookup(&files, "session-2").is_none());
}

#[test]
fn four_digits_make_a_unit() {
    let digits: Vec<char> = "00e9".chars().collect();
    assert_eq!(hex4(&digits, 0), Some(0xe9));
    assert_eq!(hex4(&digits, 1), None);
    let bad: Vec<char> = "00g9".chars().collect();
    assert_eq!(hex4(&bad, 0), None);
}

#[test]
fn a_record_needs_a_session_and_a_chat() {
    let head = r#"{"cliSessionId": "abc", "title": "Name"}"#;
    let found = read_record("/s/local_1f.json", 7, head).unwrap();
    assert_eq!(found.modified, 7);
    assert_eq!(found.cli, "abc");
    assert_eq!(found.chat.id, "1f");
    assert_eq!(found.chat.title, "Name");
    assert!(read_record("/s/other.json", 7, head).is_none());
    assert!(read_record("/s/local_1f.json", 7, r#"{"title": "Name"}"#).is_none());
}

#[test]
fn only_a_plain_chat_has_a_link() {
    let link = open("13f92b55-b7ea").unwrap();
    assert_eq!(link, format!("{}://resume?session=13f92b55-b7ea", word()));
    assert!(open("x&start=calc.exe").is_none());
    assert!(is_recent(1_000, 2_000));
}

#[test]
fn the_records_are_in_the_apps_own_folder() {
    let dir = store_dir();
    assert_eq!(dir.len(), 2);
    assert_eq!(dir[0].to_lowercase(), word());
    assert_eq!(dir[1], format!("{}-code-sessions", word()));
}
