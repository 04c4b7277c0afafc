use pipsqueak::agent::name;
use pipsqueak::text::{
    basename, basename_or, first_line, is_throat_clearing, looks_like_path, shorten_paths,
    strip_markup, summary_of, summary_within, truncate,
};

#[test]
fn a_greeting_is_skipped_for_the_line_after_it() {
    assert_eq!(
        summary_of("Tristan,\n\nFixed the timezone bug.").as_deref(),
        Some("Fixed the timezone bug.")
    );
    assert_eq!(summary_of("Tristan,"), None);
}

#[test]
fn text_a_dropped_file_is_named_not_pathed() {
    let dropped = format!("{} 1.md", name().to_uppercase());
    assert_eq!(
        summary_of(&format!("@\"C:\\Users\\acer\\Downloads\\{dropped}\"")).as_deref(),
        Some(dropped.as_str())
    );
}

#[test]
fn urls_survive_intact() {
    assert_eq!(
        shorten_paths("read https://example.com/a/b/c.html"),
        "read https://example.com/a/b/c.html"
    );
    assert_eq!(shorten_paths("either/or"), "either/or");
}

#[test]
fn markdown_structure_is_not_words() {
    assert_eq!(strip_markup("## Now the frontend"), "Now the frontend");
    assert_eq!(strip_markup("- reads the file"), "reads the file");
    assert_eq!(strip_markup("**Done.**"), "Done.");
    assert_eq!(strip_markup("keep **this** one"), "keep **this** one");
}

#[test]
fn text_truncation_never_splits_a_character() {
    let truncated = truncate("ααααα", 3);
    assert_eq!(truncated.chars().count(), 3);
    assert!(truncated.ends_with('…'));
}

#[test]
fn short_text_is_trimmed_and_kept() {
    assert_eq!(truncate("  hello ", 5), "hello");
    assert_eq!(truncate("hello world", 5), "hell…");
}

#[test]
fn a_basename_is_what_follows_the_last_separator() {
    assert_eq!(basename("/home/me/file.rs"), "file.rs");
    assert_eq!(basename("C:\\code\\lib.rs"), "lib.rs");
    assert_eq!(basename("plain"), "plain");
    assert_eq!(basename_or("", "a file"), "a file");
    assert_eq!(basename_or("src/main.rs", "a file"), "main.rs");
}

#[test]
fn paths_are_told_from_prose() {
    assert!(looks_like_path("C:\\code\\lib.rs", false));
    assert!(looks_like_path("/usr/lib/x.so", false));
    assert!(!looks_like_path("either/or", false));
    assert_eq!(shorten_paths("see /home/me/project/src/app.rs"), "see app.rs");
}

#[test]
fn throat_clearing_is_recognised() {
    assert!(is_throat_clearing("Tristan,"));
    assert!(!is_throat_clearing("Fixed the parser."));
}

#[test]
fn a_summary_fits_its_limit() {
    let summary = summary_within("The quick brown fox jumps over the lazy dog", 10).unwrap();
    assert_eq!(summary.chars().count(), 10);
    assert!(summary.ends_with('…'));
    assert_eq!(summary_within("   \n \n", 10), None);
    assert_eq!(first_line("\n\n  one \n two"), "one");
}
