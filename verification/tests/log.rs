use pipsqueak::log::{date, entry, leap, path, rotate, stamp, MAX_BYTES};

#[test]
fn the_stamp_is_a_real_date() {
    assert_eq!(stamp(0), "1970-01-01 00:00:00Z");
    // 2026-08-04 18:52:56 UTC
    assert_eq!(stamp(1_785_869_576_000), "2026-08-04 18:52:56Z");
}

/// The log carries em dashes and accented home directories, so sooner or
/// later the byte midpoint falls inside a character. Rotation must cut at
/// a line boundary and leave valid text, not abort the process.
#[test]
fn rotation_survives_a_multibyte_midpoint() {
    let line = "— nothing but multibyte punctuation —\n";
    let text = line.repeat((MAX_BYTES / line.len()) + 50);
    let after = rotate(text.as_bytes()).unwrap();
    assert!(after.len() < text.len(), "the file should have been halved");
    let decoded = String::from_utf8(after).expect("rotation must cut on a character boundary");
    assert!(
        decoded.starts_with('—'),
        "the cut should land on a line start"
    );
}

#[test]
fn leap_years_are_counted() {
    assert!(leap(2024));
    assert!(!leap(2100));
    assert!(leap(2000));
    // 2024-02-29, a date that only exists if leap years work.
    assert_eq!(stamp(1_709_164_800_000), "2024-02-29 00:00:00Z");
}

#[test]
fn the_last_day_of_a_year_is_in_it() {
    assert_eq!(date(364), (1970, 12, 31));
    assert_eq!(date(365), (1971, 1, 1));
    assert_eq!(date(19_723), (2024, 1, 1));
    assert_eq!(stamp(1_735_689_599_999), "2024-12-31 23:59:59Z");
}

#[test]
fn a_short_log_is_left_alone() {
    assert!(rotate(b"one\ntwo\n").is_none());
    // Nothing to cut at.
    assert!(rotate(&vec![b'x'; MAX_BYTES + 1]).is_none());
}

#[test]
fn a_line_carries_its_time() {
    assert_eq!(entry("started", 0), "1970-01-01 00:00:00Z started\n");
    assert_eq!(path(), [".pipsqueak", "log.txt"]);
}

#[test]
fn later_times_have_later_stamps() {
    let times = [
        0,
        999,
        1_000,
        59_999,
        60_000,
        86_399_999,
        86_400_000,
        951_782_399_000,
        951_782_400_000,
        1_785_869_576_000,
        253_402_300_799_999,
    ];
    for pair in times.windows(2) {
        let (a, b) = (stamp(pair[0]), stamp(pair[1]));
        assert!(a <= b, "{a} {b}");
        assert_eq!(a == b, pair[0] / 1000 == pair[1] / 1000);
    }
    assert_eq!(stamp(253_402_300_799_999), "9999-12-31 23:59:59Z");
}
