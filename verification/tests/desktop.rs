use pipsqueak::desktop::{
    at_login, autostart_command, autostart_enabled, autostart_entry, entry_text, focus_window_titled, own_program,
    program_candidates, quote_exec, registry_command, same_path_folded, same_program, unquote_exec,
};

fn list(items: &[&str]) -> Vec<String> {
    items.iter().map(|s| s.to_string()).collect()
}

#[test]
fn a_plain_path_is_left_alone() {
    assert_eq!(quote_exec("/usr/bin/pipsqueak"), "/usr/bin/pipsqueak");
}

#[test]
fn a_path_with_a_space_survives_the_round_trip() {
    let path = "/home/me/My Apps/Pipsqueak_0.7.4_amd64.AppImage";
    assert_eq!(unquote_exec(&quote_exec(path)), path);
}

#[test]
fn quotes_and_backslashes_survive_too() {
    let path = r#"/home/me/it's "here"/pip\squeak"#;
    assert_eq!(unquote_exec(&quote_exec(path)), path);
}

/// The point of reading `Exec=` at all is to compare it with our own path,
/// so a trailing field code must not end up part of the program.
#[test]
fn field_codes_are_not_part_of_the_program() {
    assert_eq!(unquote_exec("/usr/bin/pipsqueak %U"), "/usr/bin/pipsqueak");
    assert_eq!(
        unquote_exec(r#""/usr/bin/pip squeak" %U"#),
        "/usr/bin/pip squeak"
    );
}

#[test]
fn an_entry_starts_the_program_it_was_written_for() {
    for path in ["/usr/bin/pipsqueak", "/home/me/My Apps/pip.AppImage"] {
        let text = entry_text(path);
        assert!(text.starts_with("[Desktop Entry]\nType=Application\n"));
        assert_eq!(autostart_command(Some(&text)).as_deref(), Some(path));
        assert!(autostart_enabled(Some(&text)));
    }
}

#[test]
fn an_entry_that_is_switched_off_starts_nothing() {
    let text = "[Desktop Entry]\nExec=/usr/bin/pipsqueak\nx-gnome-autostart-enabled=FALSE\n";
    assert_eq!(autostart_command(Some(text)), None);
    assert!(!autostart_enabled(Some(text)));
    assert!(!autostart_enabled(None));
    assert_eq!(autostart_command(Some("[Desktop Entry]\n")), None);
    assert_eq!(autostart_command(Some("Exec=\n")), None);
}

#[test]
fn a_registry_line_names_the_program() {
    let output = "\r\nHKEY_CURRENT_USER\\Run\r\n    Pipsqueak    REG_SZ    \"C:\\apps\\pipsqueak.exe\"\r\n";
    assert_eq!(
        registry_command(output).as_deref(),
        Some("C:\\apps\\pipsqueak.exe")
    );
    assert_eq!(registry_command("nothing"), None);
    assert_eq!(registry_command("Pipsqueak REG_SZ \"\""), None);
}

#[test]
fn case_makes_a_program_except_on_windows() {
    assert!(same_program("\"C:/Apps/Pip.exe\"", "c:\\apps\\pip.exe", true));
    assert!(!same_program("/opt/Pip", "/opt/pip", false));
    assert!(same_program(" /opt/pip ", "/opt/pip", false));
    assert!(same_path_folded("C:/Apps/Pip.exe", "c:\\apps\\pip.EXE"));
    assert!(!same_path_folded("/a", "/b"));
    // Beyond ASCII, too.
    assert!(same_program("C:\\ÄPPS\\pip.exe", "c:\\äpps\\pip.exe", true));
}

#[test]
fn a_bundle_is_what_persists() {
    assert_eq!(
        own_program(Some("/home/me/Pip.AppImage"), Some("/tmp/mount/pip")).as_deref(),
        Some("/home/me/Pip.AppImage")
    );
    assert_eq!(
        own_program(Some("relative"), Some("/usr/bin/pip")).as_deref(),
        Some("/usr/bin/pip")
    );
    assert_eq!(own_program(None, None), None);
}

#[test]
fn a_bare_name_is_looked_for_in_the_search_path() {
    assert_eq!(program_candidates("/opt/pip", "/usr/bin:/bin"), ["/opt/pip"]);
    assert_eq!(
        program_candidates("pip", "/usr/bin:/bin"),
        ["/usr/bin/pip", "/bin/pip"]
    );
}

#[test]
fn the_more_specific_window_wins() {
    let titles = list(&["Agent", "site - Editor", "SITE tools"]);
    assert_eq!(
        focus_window_titled(&list(&["", "Tools", "site", "agent"]), &titles),
        Some(2)
    );
    assert_eq!(focus_window_titled(&list(&["site"]), &titles), Some(1));
    assert_eq!(focus_window_titled(&list(&["nowhere"]), &titles), None);
    assert_eq!(focus_window_titled(&list(&[""]), &titles), None);
}

#[test]
fn every_platform_has_its_own_words() {
    assert_eq!(at_login(true), "with Windows");
    assert_eq!(at_login(false), "when you log in");
}

#[test]
fn the_entry_is_below_an_absolute_configuration_folder() {
    assert_eq!(
        autostart_entry(Some("/cfg"), "/home/me"),
        ["/cfg", "autostart", "pipsqueak.desktop"]
    );
    let usual = ["/home/me", ".config", "autostart", "pipsqueak.desktop"];
    assert_eq!(autostart_entry(Some("cfg"), "/home/me"), usual);
    assert_eq!(autostart_entry(None, "/home/me"), usual);
}
