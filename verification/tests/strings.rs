use pipsqueak::agent::{folder, name, product, settings, word};
use pipsqueak::json::{from_bytes, parse, Json};
use pipsqueak::names::NameSet;
use pipsqueak::strings::{
    ascii_alphanumeric, comes_before, contains, count, decimal, find, is_whitespace, join_with,
    lines, lower_ascii, number, replace_all, split, strip_prefix, trim, words,
};
use pipsqueak::table::Table;

/// White space is what the standard library says it is.
#[test]
fn white_space_agrees_with_the_standard_library() {
    for n in 0..=0x10FFFFu32 {
        if let Some(c) = char::from_u32(n) {
            assert_eq!(is_whitespace(c), c.is_whitespace(), "U+{n:04X}");
            assert_eq!(ascii_alphanumeric(c), c.is_ascii_alphanumeric());
        }
    }
}

#[test]
fn text_is_taken_apart_like_the_standard_library_does() {
    for text in [
        "",
        "\n",
        "a\r\nb\n\nc",
        "  two  words \t here ",
        "x\ry\r\n",
        "\u{a0}odd\u{2003}space\u{3000}",
        "last\r",
    ] {
        let expected: Vec<&str> = text.lines().collect();
        assert_eq!(lines(text), expected);
        let expected: Vec<&str> = text.split_whitespace().collect();
        assert_eq!(words(text), expected);
        assert_eq!(trim(text), text.trim());
        let expected: Vec<&str> = text.split('o').collect();
        assert_eq!(split(text, 'o'), expected);
        assert_eq!(lower_ascii(text), text.to_ascii_lowercase());
        assert_eq!(replace_all(text, "o", "00"), text.replace("o", "00"));
        assert_eq!(contains(text, "wo"), text.contains("wo"));
    }
}

#[test]
fn numbers_are_read_as_they_are_written() {
    for n in [0, 9, 10, 12_345, u64::MAX] {
        assert_eq!(decimal(n), n.to_string());
        assert_eq!(number(&decimal(n)), Some(n));
    }
    for text in ["", "+", "+7", "-1", "12x", "18446744073709551616", " 1", "007"] {
        assert_eq!(number(text), text.parse::<u64>().ok(), "{text:?}");
    }
}

#[test]
fn places_are_counted_in_characters() {
    assert_eq!(find("äb", "b"), Some(1));
    assert_eq!(find("aXbX", "X"), Some(1));
    assert_eq!(find("abc", "z"), None);
    assert_eq!(strip_prefix("Exec=/bin/x", "Exec=").as_deref(), Some("/bin/x"));
    assert_eq!(strip_prefix("x", "Exec="), None);
    assert_eq!(count("banana", &vec!['a', 'n']), 5);
    assert!(comes_before("a", "ab"));
    assert!(comes_before("Z", "a"));
    assert!(!comes_before("b", "ab"));
    let parts = vec!["a".to_string(), "b".to_string(), "c".to_string()];
    assert_eq!(join_with(&parts, ", "), "a, b, c");
    assert_eq!(join_with(&vec![], ", "), "");
}

#[test]
fn a_name_is_in_a_set_once() {
    let mut names = NameSet::new();
    names.insert("b");
    names.insert("a");
    names.insert("b");
    assert_eq!(names.to_list(), ["a", "b"]);
    assert_eq!(names.len(), 2);
    names.remove("a");
    assert!(!names.contains("a") && names.contains("b"));
    assert_eq!(
        NameSet::of(&vec!["y".to_string(), "x".to_string(), "y".to_string()]).to_list(),
        ["x", "y"]
    );
}

#[test]
fn a_table_holds_the_latest_value() {
    let mut table: Table<u32> = Table::new();
    table.insert("k", 1);
    table.insert("k", 2);
    table.insert("l", 3);
    assert_eq!(table.get("k"), Some(&2));
    assert_eq!(table.remove("k"), Some(2));
    assert_eq!(table.remove("k"), None);
    table.insert("m", 4);
    table.retain_keys(&vec!["m".to_string()]);
    assert_eq!(table.keys(), ["m"]);
}

#[test]
fn a_document_keeps_its_values_and_their_order() {
    let value = parse(r#"{"b":[1,-2,0.5,true,null,"x"],"a":{}}"#).unwrap();
    match &value {
        Json::Object(fields) => {
            assert_eq!(fields[0].0, "b");
            assert_eq!(fields[1].0, "a");
        }
        _ => panic!("an object"),
    }
    let items = value.get("b").unwrap().as_array().unwrap();
    assert_eq!(items[0].as_u64(), Some(1));
    assert!(matches!(items[1], Json::Negative(-2)));
    match &items[2] {
        Json::Decimal(text) => assert_eq!(text, "0.5"),
        _ => panic!("a decimal"),
    }
    assert_eq!(items[3].as_bool(), Some(true));
    assert!(matches!(items[4], Json::Null));
    assert_eq!(items[5].as_str(), Some("x"));
    assert!(value.same(&parse(r#"{"a":{},"b":[1,-2,0.5,true,null,"x"]}"#).unwrap()));
    assert!(parse("{").is_none());
    assert!(from_bytes(b"[1,2").is_none());
    assert!(from_bytes(b" 7 ").unwrap().as_u64() == Some(7));
}

#[test]
fn the_agent_is_called_by_its_name() {
    let variable = "CLAUDE_CODE_SESSION_KIND";
    let parts: Vec<&str> = variable.split('_').collect();
    assert_eq!(word(), parts[0].to_lowercase());
    assert_eq!(name().to_uppercase(), parts[0]);
    assert_eq!(&name()[..1], "C");
    assert_eq!(product().to_uppercase(), format!("{} {}", parts[0], parts[1]));
    assert_eq!(product(), format!("{} Code", name()));
    assert_eq!(folder(), format!(".{}", word()));
    assert_eq!(settings(), format!("~/.{}/settings.json", word()));
}
