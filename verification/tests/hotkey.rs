use pipsqueak::hotkey::{candidates, is_off, parse, virtual_key, Binding};

const NOREPEAT: u32 = 0x4000;

#[test]
fn the_default_chord_parses() {
    let (modifiers, key) = parse("Ctrl+Alt+P").unwrap();
    assert_eq!(modifiers, NOREPEAT | 0x0002 | 0x0001);
    assert_eq!(key, 'P' as u32);
}

#[test]
fn spelling_and_spacing_are_forgiving() {
    assert_eq!(parse("ctrl + alt + p"), parse("Ctrl+Alt+P"));
    assert_eq!(parse("CONTROL+ALT+p"), parse("Ctrl+Alt+P"));
    assert_eq!(parse("Win+Shift+K"), parse("super + shift + k"));
}

#[test]
fn function_keys_work() {
    assert_eq!(parse("Ctrl+Shift+F10").unwrap().1, 0x79);
    assert_eq!(parse("Ctrl+F1").unwrap().1, 0x70);
    assert!(parse("Ctrl+F25").is_none());
}

/// A chord with no modifier would take that key away from every other
/// program on the machine.
#[test]
fn a_bare_key_is_refused() {
    assert!(parse("P").is_none());
    assert!(parse("F5").is_none());
}

#[test]
fn nonsense_falls_through_rather_than_guessing() {
    assert!(parse("").is_none());
    assert!(parse("Ctrl+").is_none());
    assert!(parse("Ctrl+Alt+Banana").is_none());
    assert!(parse("Ctrl+A+B").is_none(), "two keys is not a chord");
}

#[test]
fn every_modifier_has_its_bit() {
    assert_eq!(parse("Alt+K").unwrap().0, NOREPEAT | 1);
    assert_eq!(parse("Ctrl+K").unwrap().0, NOREPEAT | 2);
    assert_eq!(parse("Shift+K").unwrap().0, NOREPEAT | 4);
    assert_eq!(parse("Meta+K").unwrap().0, NOREPEAT | 8);
    assert_eq!(
        parse("Ctrl+Ctrl+Alt+Shift+Cmd+K").unwrap().0,
        NOREPEAT | 15
    );
}

#[test]
fn keys_have_names() {
    assert_eq!(virtual_key("space"), Some(0x20));
    assert_eq!(virtual_key("tab"), Some(0x09));
    assert_eq!(virtual_key("esc"), Some(0x1B));
    assert_eq!(virtual_key("escape"), Some(0x1B));
    assert_eq!(virtual_key("insert"), Some(0x2D));
    assert_eq!(virtual_key("home"), Some(0x24));
    assert_eq!(virtual_key("end"), Some(0x23));
    assert_eq!(virtual_key("f24"), Some(0x87));
    assert_eq!(virtual_key("f"), Some('F' as u32));
    assert_eq!(virtual_key("7"), Some('7' as u32));
    assert_eq!(virtual_key("?"), None);
    assert_eq!(virtual_key(""), None);
}

#[test]
fn the_preferred_chord_is_tried_first_and_nothing_twice() {
    assert_eq!(
        candidates(" ctrl+alt+k "),
        ["ctrl+alt+k", "Ctrl+Alt+P", "Ctrl+Shift+F10", "Ctrl+Alt+F10"]
    );
    assert_eq!(candidates("Win+Z").len(), 5);
}

#[test]
fn a_shortcut_can_be_turned_off() {
    assert!(is_off(" OFF "));
    assert!(is_off("  "));
    assert!(!is_off("Ctrl+Alt+P"));
    assert_eq!(Binding::default().chord, "");
}
