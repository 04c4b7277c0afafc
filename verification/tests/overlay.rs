use pipsqueak::agent::word;
use pipsqueak::attention::{
    alert_icon, blink, may_flash, tidies_up, Attention, Face, BLINKS,
};
use pipsqueak::cli::{
    autostart, autostart_status, autostart_switched, autostart_unknown, invocation, report,
    AutostartOrder, Invocation,
};
use pipsqueak::codex_live::Summary;
use pipsqueak::control::{
    beat, command, full_beat, heartbeat, is_running, judge_beat, run, through_launcher, Beat,
};
use pipsqueak::json::{from_bytes, parse, Json};
use pipsqueak::overlay::{
    base64, clamp_to_display, data_url, default_position, drain_commands, ensure_autostart,
    find_pet, focus_fragments, hit_test_ms, is_builtin, judge_command, list_pets, manifest_id, menu_action,
    mime, read_pet, sprite_name, wrong_size, Autostart, Care, Command, Display, Drain, Emitted, Frontend,
    MenuAction, OwnBinary, PetFolder, PetPlace, PetShelf, Pointer, Proximity,
};
use pipsqueak::process::Sighting;

fn display(x: i32, y: i32, width: u32, height: u32) -> Display {
    Display {
        x,
        y,
        width,
        height,
        area_x: x,
        area_y: y,
        area_width: width,
        area_height: height - 40,
    }
}

#[test]
fn a_position_is_pulled_back_into_view() {
    let screens = vec![display(0, 0, 1920, 1080)];
    assert_eq!(clamp_to_display(&screens, 360, 640, 1700, 700), (1560, 400));
    assert_eq!(clamp_to_display(&screens, 360, 640, -50, -50), (0, 0));
    assert_eq!(clamp_to_display(&screens, 360, 640, 100, 100), (100, 100));
    // What has been placed once stays.
    assert_eq!(clamp_to_display(&screens, 360, 640, 1560, 400), (1560, 400));
}

#[test]
fn a_window_too_large_shows_its_corner() {
    let screens = vec![display(10, 20, 300, 200)];
    assert_eq!(clamp_to_display(&screens, 360, 640, 500, 500), (10, 20));
    assert_eq!(clamp_to_display(&vec![], 360, 640, 5, 6), (5, 6));
}

#[test]
fn a_window_adrift_goes_to_the_nearest_display() {
    let screens = vec![display(0, 0, 1000, 1000), display(1000, 0, 1000, 1000)];
    assert_eq!(clamp_to_display(&screens, 100, 100, 1500, 300), (1500, 300));
    assert_eq!(clamp_to_display(&screens, 100, 100, 5000, 300), (1900, 300));
    assert_eq!(clamp_to_display(&screens, 100, 100, -5000, 300), (0, 300));
}

#[test]
fn the_pet_starts_at_the_bottom_right() {
    let screen = display(0, 0, 1920, 1080);
    assert_eq!(default_position(&screen, 360, 640), (1536, 376));
    assert_eq!(default_position(&display(5, 6, 100, 100), 360, 640), (5, 6));
    assert!(!wrong_size((360, 640), (361, 639)));
    assert!(wrong_size((200, 320), (360, 640)));
}

#[test]
fn bytes_become_text() {
    assert_eq!(base64(&vec![]), "");
    assert_eq!(base64(&b"f".to_vec()), "Zg==");
    assert_eq!(base64(&b"fo".to_vec()), "Zm8=");
    assert_eq!(base64(&b"foo".to_vec()), "Zm9v");
    assert_eq!(base64(&b"foobar".to_vec()), "Zm9vYmFy");
    assert_eq!(base64(&vec![0xfb, 0xff, 0xfe]), "+//+");
    assert_eq!(
        data_url(mime("PNG"), &b"foo".to_vec()),
        "data:image/png;base64,Zm9v"
    );
    assert_eq!(mime("gif"), "image/gif");
    assert_eq!(mime(""), "image/webp");
}

fn folder(name: &str, manifest: &str, source: &str) -> PetFolder {
    PetFolder {
        folder: name.into(),
        manifest: parse(manifest).unwrap(),
        source: source.into(),
    }
}

#[test]
fn the_first_pet_of_an_id_wins() {
    let pets = list_pets(&vec![
        folder("fox", r#"{"displayName":"Fox"}"#, "user"),
        folder("other", r#"{"id":"fox"}"#, "codex"),
        folder("b", r#"{"id":"byte"}"#, "user"),
        folder("cat", r#"{"id":"cat","description":"A cat."}"#, "codex"),
    ]);
    let ids: Vec<&str> = pets.iter().map(|p| p.id.as_str()).collect();
    assert_eq!(ids, ["byte", "pip", "ember", "fox", "cat"]);
    assert_eq!(pets[3].display_name, "Fox");
    assert_eq!(pets[3].description, "");
    assert_eq!(pets[4].display_name, "cat");
    assert_eq!(pets[4].source, "codex");
    assert_eq!(pets[0].source, "builtin");
    assert!(is_builtin("ember") && !is_builtin("fox"));
}

#[test]
fn a_pet_is_found_by_its_folder_or_its_id() {
    let shelf = |direct: bool, ids: Option<Vec<Option<&str>>>| PetShelf {
        direct,
        ids: ids.map(|list| list.iter().map(|id| id.map(String::from)).collect()),
    };
    let shelves = vec![
        shelf(false, Some(vec![None, Some("fox")])),
        shelf(true, Some(vec![])),
    ];
    assert!(matches!(
        find_pet(&shelves, "fox"),
        Some(PetPlace::Listed(0, 1))
    ));
    assert!(matches!(find_pet(&shelves, "cat"), Some(PetPlace::Named(1))));
    assert!(find_pet(&vec![shelf(false, None), shelf(true, None)], "cat").is_none());
    let manifest = parse(r#"{"spritesheetPath":"a.png"}"#).unwrap();
    assert_eq!(sprite_name(&manifest), "a.png");
    assert_eq!(sprite_name(&Json::Null), "spritesheet.webp");
}

#[test]
fn a_silent_page_is_asked_before_it_is_reloaded() {
    let mut page = Frontend::default();
    assert!(matches!(page.watch(100_000, true), Care::Nothing));
    page.seen(100_000);
    assert!(matches!(page.watch(144_999, true), Care::Nothing));
    assert!(matches!(page.watch(145_000, false), Care::Nothing));
    assert!(matches!(page.watch(145_000, true), Care::Ping));
    assert!(matches!(page.watch(147_000, true), Care::Nothing));
    assert!(matches!(page.watch(155_000, true), Care::Reload(55)));
    assert!(matches!(page.watch(165_000, true), Care::Nothing));
    page.seen(166_000);
    assert!(matches!(page.watch(170_000, true), Care::Nothing));
}

#[test]
fn showing_the_window_asks_a_page_that_has_gone_quiet() {
    let mut page = Frontend::default();
    assert!(!page.shown(90_000));
    page.seen(1_000);
    assert!(!page.shown(2_000));
    assert!(page.shown(46_000));
    assert_eq!(page.last_ping_ms, 46_000);
}

#[test]
fn nothing_is_sent_twice_until_the_page_is_back() {
    let mut emitted = Emitted::default();
    assert!(emitted.changed("a"));
    assert!(!emitted.changed("a"));
    emitted.forget();
    assert!(emitted.changed("a"));
}

#[test]
fn a_command_is_obeyed_or_waits() {
    let drain = |text: &str, listening: bool| drain_commands(text, listening);
    assert!(matches!(drain("{", true), Drain::Discard));
    assert!(matches!(drain("{}", true), Drain::Discard));
    let shown = drain(r#"{"action":"show"}"#, false);
    assert!(matches!(shown, Drain::Obey(Command::Show)));
    let hidden = drain(r#"{"action":"hide"}"#, true);
    assert!(matches!(hidden, Drain::Obey(Command::Hide)));
    let toggled = drain(r#"{"action":"toggle"}"#, true);
    assert!(matches!(toggled, Drain::Obey(Command::Toggle)));
    let stopped = drain(r#"{"action":"quit"}"#, true);
    assert!(matches!(stopped, Drain::Obey(Command::Quit)));
    let odd = drain(r#"{"action":"dance"}"#, true);
    assert!(matches!(odd, Drain::Obey(Command::Unknown)));
    assert!(matches!(drain(r#"{"action":"pet:pip"}"#, false), Drain::Later));
    match drain(r#"{"action":"pet:pip"}"#, true) {
        Drain::Obey(Command::Pet(pet)) => assert_eq!(pet, "pip"),
        _ => panic!("a pet is switched to"),
    }
    assert!(matches!(judge_command(None, true), Drain::Discard));
}

#[test]
fn an_entry_that_works_is_left_alone() {
    let decide = |registered: Option<&str>, present: bool, decided: bool| {
        ensure_autostart(registered, "/usr/bin/pip", present, false, decided)
    };
    assert!(matches!(decide(Some("/usr/bin/pip"), true, true), Autostart::Right));
    assert!(matches!(decide(Some("/home/me/run.sh"), true, true), Autostart::Foreign));
    assert!(matches!(decide(Some("/gone/pip"), false, true), Autostart::Correct));
    assert!(matches!(decide(None, false, false), Autostart::Register));
    assert!(matches!(decide(None, false, true), Autostart::Off));
}

#[test]
fn a_missing_program_is_reported_once() {
    let mut own = OwnBinary { reported: false };
    assert!(!own.check(true));
    assert!(own.check(false));
    assert!(!own.check(false));
    assert!(!own.check(true));
    assert!(own.check(false));
}

#[test]
fn the_pointer_is_followed_while_it_is_near() {
    let mut pointer = Pointer::new();
    assert_eq!(pointer.look(true, false), None);
    assert_eq!(pointer.look(false, true), None);
    assert_eq!(pointer.look(true, true), Some(true));
    assert_eq!(pointer.look(true, false), Some(false));
    assert_eq!(pointer.look(true, false), None);
    assert_eq!(pointer.settle(false, true), Some(false));
    assert_eq!(pointer.settle(false, true), None);
    assert_eq!(pointer.settle(true, true), Some(true));
    assert_eq!(pointer.settle(false, false), None);
    assert_eq!(hit_test_ms(Proximity::Near, false), 12);
    assert_eq!(hit_test_ms(Proximity::Approaching, false), 50);
    assert_eq!(hit_test_ms(Proximity::Far, false), 220);
    assert_eq!(hit_test_ms(Proximity::Near, true), 220);
}

#[test]
fn a_menu_entry_means_what_it_says() {
    assert!(matches!(menu_action("toggle"), MenuAction::Toggle));
    assert!(matches!(menu_action("click_through"), MenuAction::ClickThrough));
    assert!(matches!(menu_action("quiet"), MenuAction::Quiet));
    assert!(matches!(menu_action("reload"), MenuAction::Reload));
    assert!(matches!(menu_action("pets"), MenuAction::Pets));
    assert!(matches!(menu_action("hooks"), MenuAction::Hooks));
    assert!(matches!(menu_action("quit"), MenuAction::Quit));
    assert!(matches!(menu_action("?"), MenuAction::Nothing));
    assert_eq!(focus_fragments("site", "tools"), ["tools".to_string(), "site".into(), word()]);
    assert_eq!(focus_fragments("", ""), [word()]);
}

#[test]
fn a_newer_flash_stops_the_older_one() {
    let mut attention = Attention::default();
    let first = attention.next();
    assert!(blink(&attention, first, 0) == Some(Face::Alert));
    assert!(blink(&attention, first, 1) == Some(Face::Normal));
    assert!(blink(&attention, first, BLINKS).is_none());
    let second = attention.next();
    assert_ne!(first, second);
    assert!(blink(&attention, first, 2).is_none());
    assert!(!tidies_up(&attention, first));
    assert!(tidies_up(&attention, second));
    assert_eq!(attention.current(), second);
    assert!(may_flash(false, true));
    assert!(!may_flash(true, true) && !may_flash(false, false));
}

#[test]
fn an_icon_is_pushed_towards_the_alert_colour() {
    let icon = vec![200, 100, 50, 255, 10, 10, 10, 0, 10, 20, 30];
    assert_eq!(
        alert_icon(&icon),
        [255, 60, 20, 255, 10, 10, 10, 0, 10, 20, 30]
    );
}

#[test]
fn an_action_comes_to_a_command() {
    let order = run(Some("HIDE"), true);
    assert_eq!(order.send.as_deref(), Some("hide"));
    assert_eq!(order.message, "Pet hidden.");
    let order = run(Some("stop"), true);
    assert_eq!(order.send.as_deref(), Some("quit"));
    let order = run(Some("stop"), false);
    assert_eq!((order.send, order.launch), (None, false));
    assert_eq!(order.message, "Pipsqueak is not running.");
    let order = run(None, false);
    assert!(order.launch);
    assert_eq!(order.message, "Pipsqueak started.");
    let order = run(None, true);
    assert_eq!(order.send.as_deref(), Some("toggle"));
    let order = run(Some("on"), true);
    assert_eq!(order.send.as_deref(), Some("show"));
    let order = run(Some("Byte"), false);
    assert_eq!(order.send.as_deref(), Some("pet:byte"));
    assert!(order.launch);
    assert_eq!(order.message, "Pet switched to byte.");
    assert_eq!(run(Some("status"), true).message, "Pipsqueak is running.");
}

#[test]
fn a_heartbeat_speaks_for_its_process() {
    let text = String::from_utf8(beat(1_000, 42)).unwrap();
    assert_eq!(text, r#"{"ms":1000,"pid":42}"#);
    assert!(matches!(heartbeat(Some(&text), 6_999), Beat::By(42)));
    assert!(matches!(heartbeat(Some(&text), 7_000), Beat::Gone));
    assert!(matches!(heartbeat(Some(r#"{"ms":1000}"#), 1_000), Beat::Fresh));
    assert!(matches!(heartbeat(Some("{"), 1), Beat::Gone));
    assert!(matches!(heartbeat(None, 1), Beat::Gone));
    assert!(matches!(judge_beat(None, 1), Beat::Gone));
    assert!(is_running(Beat::By(42), &Sighting::Running(5)));
    assert!(!is_running(Beat::By(42), &Sighting::Absent));
    assert!(is_running(Beat::Fresh, &Sighting::Absent));
    assert!(!is_running(Beat::Gone, &Sighting::Running(5)));
}

#[test]
fn a_command_is_read_back_by_the_overlay() {
    let bytes = command("pet:pip", 7);
    let value = from_bytes(&bytes).unwrap();
    assert_eq!(value.text_at("action"), Some("pet:pip"));
    assert_eq!(value.get("ms").unwrap().as_u64(), Some(7));
    match drain_commands(&String::from_utf8(bytes).unwrap(), true) {
        Drain::Obey(Command::Pet(pet)) => assert_eq!(pet, "pip"),
        _ => panic!("it is the command that was written"),
    }
    assert!(through_launcher("/home/me/run.sh", "/usr/bin/pip", true, false));
    assert!(!through_launcher("/home/me/run.sh", "/usr/bin/pip", false, false));
    assert!(!through_launcher("/usr/bin/pip", "/usr/bin/pip", true, false));
}

#[test]
fn the_command_line_is_understood() {
    assert!(matches!(invocation(None), Invocation::Overlay));
    assert!(matches!(invocation(Some("hook")), Invocation::Hook));
    assert!(matches!(invocation(Some("control")), Invocation::Control));
    assert!(matches!(invocation(Some("autostart")), Invocation::Autostart));
    assert!(matches!(invocation(Some("sessions")), Invocation::Sessions));
    assert!(matches!(invocation(Some("--install")), Invocation::Install));
    assert!(matches!(invocation(Some("uninstall")), Invocation::Uninstall));
    assert!(matches!(invocation(Some("-v")), Invocation::Version));
    assert!(matches!(invocation(Some("-h")), Invocation::Help));
    assert!(matches!(invocation(Some("?")), Invocation::Overlay));
    assert!(matches!(autostart(None), AutostartOrder::Status));
    assert!(matches!(autostart(Some("")), AutostartOrder::Status));
    assert!(matches!(autostart(Some("enable")), AutostartOrder::Switch(true)));
    assert!(matches!(autostart(Some("no")), AutostartOrder::Switch(false)));
    match autostart(Some("maybe")) {
        AutostartOrder::Unknown(word) => {
            assert_eq!(autostart_unknown(&word), "unknown autostart option: maybe")
        }
        _ => panic!("an unknown word"),
    }
    assert_eq!(
        autostart_status(Some("/usr/bin/pip"), false),
        "Starts when you log in, running /usr/bin/pip"
    );
    assert_eq!(autostart_status(None, true), "Does not start with Windows.");
    assert_eq!(autostart_switched(true, false), "Will start when you log in.");
    assert_eq!(autostart_switched(false, true), "Will not start with Windows.");
    assert_eq!(report(Ok("done".into())), ("done".to_string(), 0));
    assert_eq!(report(Err("no".into())), ("error: no".to_string(), 1));
}

#[test]
fn a_heartbeat_may_tell_of_the_connection() {
    let summary = Summary {
        connected: true,
        desired_tasks: 3,
        observed_tasks: 2,
        active_tasks: 1,
    };
    let text = String::from_utf8(full_beat(1_000, 42, &summary)).unwrap();
    assert_eq!(
        text,
        r#"{"ms":1000,"pid":42,"codex":{"connected":true,"desired_tasks":3,"observed_tasks":2,"active_tasks":1}}"#
    );
    assert!(matches!(heartbeat(Some(&text), 6_999), Beat::By(42)));
    assert!(matches!(heartbeat(Some(&text), 7_000), Beat::Gone));
}

#[test]
fn a_broken_manifest_is_passed_over() {
    let pet = read_pet("fox", "user", Some(r#"{"id":"f"}"#)).unwrap();
    assert_eq!((pet.folder.as_str(), pet.source.as_str()), ("fox", "user"));
    assert_eq!(pet.manifest.text_at("id"), Some("f"));
    assert!(read_pet("fox", "user", Some("{")).is_none());
    assert!(read_pet("fox", "user", None).is_none());
    assert_eq!(manifest_id(Some(r#"{"id":"f"}"#)).as_deref(), Some("f"));
    assert_eq!(manifest_id(Some(r#"{"id":7}"#)), None);
    assert_eq!(manifest_id(Some("{")), None);
    assert_eq!(manifest_id(None), None);
}
