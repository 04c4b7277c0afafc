use pipsqueak::process::{
    boot_time_from_uptime, boot_time_ms, is_alive, is_passthrough_unix, is_passthrough_windows,
    owner, parent_of, parse_stat, sight, table_owner, Ancestor, Row, Sighting,
};

/// The command name is user-controlled and may contain the separator.
#[test]
fn stat_fields_are_counted_from_the_last_parenthesis() {
    let line = "4242 (a (weird) name) S 1 4242 4242 0 -1 4194560 100 0 0 0 5 3 0 0 20 0 1 0 179528 1000 200 18446744073709551615";
    assert_eq!(parse_stat(line), Some(('S', 179528)));
    assert_eq!(parse_stat("garbage"), None);
}

fn stat(state: char, started: u64) -> String {
    format!("7 (x) {state} 1 1 1 0 -1 1 1 0 0 0 5 3 0 0 20 0 1 0 {started} 1000 200")
}

/// A process is alive under its own identity and dead under any other, which
/// is the whole contract.
#[test]
fn a_process_is_alive_only_as_the_incarnation_recorded() {
    let line = stat('S', 500);
    let seen = sight(Some(&line), true);
    assert!(is_alive(7, 500, &seen));
    assert!(
        is_alive(7, 0, &seen),
        "unknown creation time falls back to the pid"
    );
    assert!(!is_alive(7, 501, &seen), "same pid, different incarnation");
    assert!(!is_alive(7, 0, &sight(None, false)));
}

#[test]
fn a_zombie_is_not_alive_and_a_hidden_process_is() {
    for state in ['Z', 'X', 'x'] {
        assert!(!is_alive(7, 0, &sight(Some(&stat(state, 5)), true)));
    }
    assert!(is_alive(7, 500, &sight(None, true)));
    assert!(is_alive(7, 500, &Sighting::Unknown));
    assert!(is_alive(0, 500, &Sighting::Absent), "nobody was recorded");
}

fn step(parent: u32, name: &str, started: u64) -> Ancestor {
    Ancestor {
        parent: Some(parent),
        name: Some(name.to_string()),
        started: Some(started),
    }
}

/// The walk goes past shells to the first process that could be the agent.
#[test]
fn the_owner_walk_finds_a_live_ancestor() {
    let chain = vec![step(20, "sh", 1), step(15, "bash", 2), step(10, "agent", 3)];
    assert_eq!(owner(30, &chain), Some((10, 3)));
    assert!(is_alive(10, 3, &sight(Some(&stat('S', 3)), true)));
}

#[test]
fn a_walk_that_reaches_init_finds_nobody() {
    assert_eq!(owner(30, &vec![step(20, "sh", 1), step(1, "systemd", 2)]), None);
    assert_eq!(owner(30, &vec![step(30, "agent", 1)]), None);
    let nameless = Ancestor {
        parent: Some(9),
        name: None,
        started: Some(1),
    };
    assert_eq!(owner(30, &vec![nameless]), None);
    let deep: Vec<Ancestor> = (0..9).map(|i| step(100 + i, "sh", 1)).collect();
    assert_eq!(owner(30, &deep), None);
}

#[test]
fn the_process_table_is_walked_in_memory() {
    let row = |pid: u32, parent: u32, name: &str| Row {
        pid,
        parent,
        name: name.to_string(),
    };
    let table = vec![
        row(30, 20, "pipsqueak.exe"),
        row(20, 10, "powershell.exe"),
        row(10, 4, "agent.exe"),
    ];
    assert_eq!(table_owner(&table, 30), Some(10));
    assert_eq!(table_owner(&table, 10), None);
    assert_eq!(table_owner(&table, 99), None);
}

/// Out of the text that a kernel prints.
#[test]
fn boot_time_is_in_the_past_and_after_the_epoch() {
    let text = "cpu  1 2 3\nctxt 99\nbtime 1788770000\nprocesses 5\n";
    let boot = boot_time_ms(text).expect("the text has btime");
    let now = 1_788_770_600_000u64;
    assert!(
        boot > 946_684_800_000,
        "boot {boot} is before the year 2000"
    );
    assert!(boot <= now, "boot {boot} is after now {now}");
    assert_eq!(boot, 1_788_770_000_000);
}

#[test]
fn a_kernel_that_does_not_say_has_no_opinion() {
    assert_eq!(boot_time_ms("cpu 1 2 3\n"), None);
    assert_eq!(boot_time_ms("btime soon\n"), None);
    assert_eq!(boot_time_ms("btime 18446744073709551615\n"), None);
    assert_eq!(boot_time_from_uptime(100, 0), None);
    assert_eq!(boot_time_from_uptime(100, 40), Some(60));
    assert_eq!(boot_time_from_uptime(100, 400), Some(0));
}

#[test]
fn a_parent_is_read_from_the_status() {
    assert_eq!(parent_of("Name:\tsh\nPPid:\t4242\nUid:\t0\n"), Some(4242));
    assert_eq!(parent_of("Name:\tsh\n"), None);
    assert_eq!(parent_of("PPid:\t99999999999\n"), None);
}

#[test]
fn shells_are_told_from_agents() {
    assert!(is_passthrough_unix("bash"));
    assert!(!is_passthrough_unix("agent"));
    assert!(is_passthrough_windows("cmd.exe"));
    assert!(!is_passthrough_windows("agent.exe"));
}
