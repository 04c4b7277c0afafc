//! A short record of what the overlay did, so "it just stopped" has an answer.
//!
//! Deliberately small: one line per event, bounded size, no levels, no
//! configuration. It exists to be read once, after something went wrong.

use vstd::prelude::*;
use vstd::string::*;

use crate::strings;

verus! {

/// Kept small enough to read in one sitting and to never matter on disk.
pub const MAX_BYTES: usize = 262_144;

/// Where the log is, below the home directory.
pub fn path() -> (r: Vec<String>)
    ensures
        strings::views(r@) == seq![".pipsqueak"@, "log.txt"@],
{
    let r: Vec<String> = vec![".pipsqueak".to_owned(), "log.txt".to_owned()];
    assert(strings::views(r@) =~= seq![".pipsqueak"@, "log.txt"@]);
    r
}

// --- the calendar ------------------------------------------------------------
pub open spec fn is_leap(year: nat) -> bool {
    (year % 4 == 0 && year % 100 != 0) || year % 400 == 0
}

pub fn leap(year: u64) -> (r: bool)
    ensures
        r == is_leap(year as nat),
{
    (year % 4 == 0 && year % 100 != 0) || year % 400 == 0
}

pub open spec fn year_length(year: nat) -> nat {
    if is_leap(year) {
        366
    } else {
        365
    }
}

/// How long a month is, January being 1.
pub open spec fn month_length(year: nat, month: nat) -> nat {
    if month == 2 {
        if is_leap(year) {
            29
        } else {
            28
        }
    } else if month == 4 || month == 6 || month == 9 || month == 11 {
        30
    } else {
        31
    }
}

/// The days from the first day of 1970 to the first day of a year.
pub open spec fn days_before_year(year: nat) -> nat
    decreases year,
{
    if year <= 1970 {
        0
    } else {
        days_before_year((year - 1) as nat) + year_length((year - 1) as nat)
    }
}

/// The days from the first day of a year to the first day of a month.
pub open spec fn days_before_month(year: nat, month: nat) -> nat
    decreases month,
{
    if month <= 1 {
        0
    } else {
        days_before_month(year, (month - 1) as nat) + month_length(year, (month - 1) as nat)
    }
}

pub open spec fn is_date(year: nat, month: nat, day: nat) -> bool {
    year >= 1970 && 1 <= month <= 12 && 1 <= day <= month_length(year, month)
}

/// How many days lie between the first day of 1970 and a date.
pub open spec fn day_number(year: nat, month: nat, day: nat) -> nat {
    (days_before_year(year) + days_before_month(year, month) + day - 1) as nat
}

proof fn lemma_year(year: nat)
    ensures
        days_before_month(year, 13) == year_length(year),
{
    reveal_with_fuel(days_before_month, 14);
}

proof fn lemma_months_grow(year: nat, a: nat, b: nat)
    requires
        1 <= a < b <= 13,
    ensures
        days_before_month(year, a) + month_length(year, a) <= days_before_month(year, b),
    decreases b,
{
    if a + 1 < b {
        lemma_months_grow(year, a, (b - 1) as nat);
    }
}

proof fn lemma_years_grow(a: nat, b: nat)
    requires
        1970 <= a < b,
    ensures
        days_before_year(a) + year_length(a) <= days_before_year(b),
    decreases b,
{
    if a + 1 < b {
        lemma_years_grow(a, (b - 1) as nat);
    }
}

/// Of two different dates one comes first, so that a day has one date only.
pub proof fn a_day_has_one_date(y: nat, m: nat, d: nat, year: nat, month: nat, day: nat)
    requires
        is_date(y, m, d),
        is_date(year, month, day),
        day_number(y, m, d) == day_number(year, month, day),
    ensures
        y == year && m == month && d == day,
{
    lemma_year(y);
    lemma_year(year);
    lemma_months_grow(y, m, 13);
    lemma_months_grow(year, month, 13);
    if y < year {
        lemma_years_grow(y, year);
    } else if year < y {
        lemma_years_grow(year, y);
    } else if m < month {
        lemma_months_grow(y, m, month);
    } else if month < m {
        lemma_months_grow(y, month, m);
    }
}

// --- the stamp -----------------------------------------------------------------
/// A number in two digits at least.
pub open spec fn padded(n: nat) -> Seq<char> {
    if n < 10 {
        "0"@ + strings::decimal_spec(n)
    } else {
        strings::decimal_spec(n)
    }
}

fn pad(n: u64) -> (r: String)
    ensures
        r@ == padded(n as nat),
{
    let digits = strings::decimal(n);
    if n < 10 {
        strings::concat2("0", digits.as_str())
    } else {
        digits
    }
}

/// A date and the time of its day, in UTC.
pub open spec fn written(year: nat, month: nat, day: nat, second: nat) -> Seq<char> {
    strings::decimal_spec(year) + "-"@ + padded(month) + "-"@ + padded(day) + " "@ + padded(
        (second / 3600) % 24,
    ) + ":"@ + padded((second / 60) % 60) + ":"@ + padded(second % 60) + "Z"@
}

/// Whether a text is the stamp of a time: its date is the one on which that
/// moment falls.
pub open spec fn stamped(ms: u64, text: Seq<char>) -> bool {
    exists|year: nat, month: nat, day: nat|
        {
            &&& is_date(year, month, day)
            &&& day_number(year, month, day) == ms as nat / 86_400_000
            &&& text == #[trigger] written(year, month, day, ms as nat / 1000)
        }
}

fn length_of(year: u64, month: u64) -> (r: u64)
    ensures
        r == month_length(year as nat, month as nat),
{
    if month == 2 {
        if leap(year) {
            29
        } else {
            28
        }
    } else if month == 4 || month == 6 || month == 9 || month == 11 {
        30
    } else {
        31
    }
}

/// The date on which a day falls.
pub fn date(days: u64) -> (r: (u64, u64, u64))
    requires
        days <= u64::MAX / 1000,
    ensures
        is_date(r.0 as nat, r.1 as nat, r.2 as nat),
        day_number(r.0 as nat, r.1 as nat, r.2 as nat) == days,
{
    let mut left: u64 = days;
    let mut year: u64 = 1970;
    loop
        invariant
            days <= u64::MAX / 1000,
            1970 <= year,
            year - 1970 <= days - left,
            left <= days,
            left + days_before_year(year as nat) == days,
        ensures
            1970 <= year,
            left < year_length(year as nat),
            left + days_before_year(year as nat) == days,
        decreases left,
    {
        let length: u64 = if leap(year) {
            366
        } else {
            365
        };
        if left < length {
            break;
        }
        left = left - length;
        year = year + 1;
    }
    let ghost rest = left;
    let mut month: u64 = 1;
    proof {
        lemma_year(year as nat);
    }
    while left >= length_of(year, month)
        invariant
            1 <= month <= 12,
            left + days_before_month(year as nat, month as nat) == rest,
            rest < days_before_month(year as nat, 13),
        decreases 13 - month,
    {
        let length: u64 = length_of(year, month);
        proof {
            if month == 12 {
                assert(days_before_month(year as nat, 13) == days_before_month(year as nat, 12)
                    + month_length(year as nat, 12));
            }
        }
        left = left - length;
        month = month + 1;
    }
    (year, month, left + 1)
}

/// `2026-08-04 18:52:56Z`, in UTC, from milliseconds since the epoch.
pub fn stamp(ms: u64) -> (r: String)
    ensures
        stamped(ms, r@),
{
    let seconds: u64 = ms / 1000;
    let days: u64 = seconds / 86_400;
    let (year, month, day) = date(days);
    let years = strings::decimal(year);
    let months = pad(month);
    let dates = pad(day);
    let hours = pad((seconds / 3600) % 24);
    let minutes = pad((seconds / 60) % 60);
    let rest = pad(seconds % 60);
    let a = strings::concat3(years.as_str(), "-", months.as_str());
    let b = strings::concat3(a.as_str(), "-", dates.as_str());
    let c = strings::concat3(b.as_str(), " ", hours.as_str());
    let d = strings::concat3(c.as_str(), ":", minutes.as_str());
    let e = strings::concat3(d.as_str(), ":", rest.as_str());
    let r = strings::concat2(e.as_str(), "Z");
    assert(r@ == written(year as nat, month as nat, day as nat, ms as nat / 1000));
    r
}

/// A four-digit year, a date in it and a time of day, digit by digit.
spec fn face(year: nat, month: nat, day: nat, hour: nat, minute: nat, second: nat) -> Seq<char> {
    seq![
        strings::digit(year / 100 / 10),
        strings::digit(year / 100 % 10),
        strings::digit(year % 100 / 10),
        strings::digit(year % 100 % 10),
        '-',
        strings::digit(month / 10),
        strings::digit(month % 10),
        '-',
        strings::digit(day / 10),
        strings::digit(day % 10),
        ' ',
        strings::digit(hour / 10),
        strings::digit(hour % 10),
        ':',
        strings::digit(minute / 10),
        strings::digit(minute % 10),
        ':',
        strings::digit(second / 10),
        strings::digit(second % 10),
        'Z',
    ]
}

proof fn lemma_padded(n: nat)
    requires
        n < 100,
    ensures
        padded(n) == seq![strings::digit(n / 10), strings::digit(n % 10)],
{
    reveal_with_fuel(strings::decimal_spec, 2);
    reveal_strlit("0");
    assert("0"@ =~= seq![strings::digit(0)]);
    assert(padded(n) =~= seq![strings::digit(n / 10), strings::digit(n % 10)]);
}

proof fn lemma_face(year: nat, month: nat, day: nat, second: nat)
    requires
        1000 <= year <= 9999,
        month < 100,
        day < 100,
    ensures
        written(year, month, day, second) == face(
            year,
            month,
            day,
            second / 3600 % 24,
            second / 60 % 60,
            second % 60,
        ),
{
    reveal_with_fuel(strings::decimal_spec, 4);
    reveal_strlit("-");
    reveal_strlit(" ");
    reveal_strlit(":");
    reveal_strlit("Z");
    lemma_padded(month);
    lemma_padded(day);
    lemma_padded(second / 3600 % 24);
    lemma_padded(second / 60 % 60);
    lemma_padded(second % 60);
    assert(strings::decimal_spec(year) =~= seq![
        strings::digit(year / 100 / 10),
        strings::digit(year / 100 % 10),
        strings::digit(year % 100 / 10),
        strings::digit(year % 100 % 10),
    ]);
    assert(written(year, month, day, second) =~= face(
        year,
        month,
        day,
        second / 3600 % 24,
        second / 60 % 60,
        second % 60,
    ));
}

/// Two texts are in the order of the first characters in which they differ.
proof fn lemma_first_difference(s: Seq<char>, t: Seq<char>, at: int)
    requires
        0 <= at < s.len(),
        at < t.len(),
        s.take(at) == t.take(at),
        (s[at] as int) < (t[at] as int),
    ensures
        strings::precedes(s, t),
    decreases at,
{
    if at > 0 {
        assert(s[0] == s.take(at)[0] && t[0] == t.take(at)[0]);
        assert(s.skip(1).take(at - 1) =~= s.take(at).skip(1));
        assert(t.skip(1).take(at - 1) =~= t.take(at).skip(1));
        lemma_first_difference(s.skip(1), t.skip(1), at - 1);
    }
}

/// So are two texts of which the first difference is in a number of two digits.
proof fn lemma_first_number(s: Seq<char>, t: Seq<char>, at: int, m: nat, n: nat)
    requires
        0 <= at,
        at + 2 <= s.len(),
        at + 2 <= t.len(),
        s.take(at) == t.take(at),
        s[at] == strings::digit(m / 10) && s[at + 1] == strings::digit(m % 10),
        t[at] == strings::digit(n / 10) && t[at + 1] == strings::digit(n % 10),
        m < n < 100,
    ensures
        strings::precedes(s, t),
{
    if m / 10 < n / 10 {
        lemma_first_difference(s, t, at);
    } else {
        assert(s.take(at + 1) =~= s.take(at).push(s[at]));
        assert(t.take(at + 1) =~= t.take(at).push(t[at]));
        lemma_first_difference(s, t, at + 1);
    }
}

/// The first of two moments has the first of two faces.
proof fn lemma_faces_in_order(
    y: nat,
    m: nat,
    d: nat,
    h: nat,
    i: nat,
    s: nat,
    year: nat,
    month: nat,
    day: nat,
    hour: nat,
    minute: nat,
    second: nat,
)
    requires
        y <= 9999 && m < 100 && d < 100 && h < 100 && i < 100 && s < 100,
        year <= 9999 && month < 100 && day < 100 && hour < 100 && minute < 100 && second < 100,
        y < year || (y == year && (m < month || (m == month && (d < day || (d == day && (h < hour
            || (h == hour && (i < minute || (i == minute && s < second))))))))),
    ensures
        strings::precedes(
            face(y, m, d, h, i, s),
            face(year, month, day, hour, minute, second),
        ),
{
    let a = face(y, m, d, h, i, s);
    let b = face(year, month, day, hour, minute, second);
    if y / 100 < year / 100 {
        assert(a.take(0) =~= b.take(0));
        lemma_first_number(a, b, 0, y / 100, year / 100);
    } else if y < year {
        assert(a.take(2) =~= b.take(2));
        lemma_first_number(a, b, 2, y % 100, year % 100);
    } else if m < month {
        assert(a.take(5) =~= b.take(5));
        lemma_first_number(a, b, 5, m, month);
    } else if d < day {
        assert(a.take(8) =~= b.take(8));
        lemma_first_number(a, b, 8, d, day);
    } else if h < hour {
        assert(a.take(11) =~= b.take(11));
        lemma_first_number(a, b, 11, h, hour);
    } else if i < minute {
        assert(a.take(14) =~= b.take(14));
        lemma_first_number(a, b, 14, i, minute);
    } else {
        assert(a.take(17) =~= b.take(17));
        lemma_first_number(a, b, 17, s, second);
    }
}

proof fn lemma_leap_days(year: nat)
    requires
        year >= 1970,
    ensures
        days_before_year(year) + 477 == 365 * (year - 1970) + (year - 1) / 4 - (year - 1) / 100 + (
        year - 1) / 400,
    decreases year,
{
    if year > 1970 {
        lemma_leap_days((year - 1) as nat);
    }
}

/// Dates are in the order of their days.
proof fn lemma_dates_in_order(y: nat, m: nat, d: nat, year: nat, month: nat, day: nat)
    requires
        is_date(y, m, d),
        is_date(year, month, day),
        day_number(y, m, d) < day_number(year, month, day),
    ensures
        y < year || (y == year && (m < month || (m == month && d < day))),
{
    lemma_year(y);
    lemma_year(year);
    lemma_months_grow(y, m, 13);
    lemma_months_grow(year, month, 13);
    if year < y {
        lemma_years_grow(year, y);
    } else if y == year && month < m {
        lemma_months_grow(y, month, m);
    }
}

/// A time in days, hours, minutes and seconds.
proof fn lemma_clock(second: nat)
    ensures
        second == second / 86_400 * 86_400 + second / 3600 % 24 * 3600 + second / 60 % 60 * 60
            + second % 60,
        second / 3600 % 24 < 24,
        second / 60 % 60 < 60,
        second % 60 < 60,
{
    assert(second / 60 / 60 == second / 3600);
    assert(second / 3600 / 24 == second / 86_400);
}

/// A day before the year 10000 has a date before it.
proof fn lemma_four_digits(y: nat, m: nat, d: nat)
    requires
        is_date(y, m, d),
        day_number(y, m, d) < 2_932_897,
    ensures
        y <= 9999,
{
    lemma_leap_days(10000);
    if y > 10000 {
        lemma_years_grow(10000, y);
    }
}

/// Stamps are in the order of their seconds.
proof fn lemma_stamps_in_order(
    y: nat,
    m: nat,
    d: nat,
    p: nat,
    year: nat,
    month: nat,
    day: nat,
    q: nat,
)
    requires
        is_date(y, m, d) && day_number(y, m, d) == p / 86_400,
        is_date(year, month, day) && day_number(year, month, day) == q / 86_400,
        p < q < 253_402_300_800,
    ensures
        strings::precedes(written(y, m, d, p), written(year, month, day, q)),
{
    lemma_four_digits(y, m, d);
    lemma_four_digits(year, month, day);
    lemma_face(y, m, d, p);
    lemma_face(year, month, day, q);
    lemma_clock(p);
    lemma_clock(q);
    if p / 86_400 == q / 86_400 {
        a_day_has_one_date(y, m, d, year, month, day);
    } else {
        lemma_dates_in_order(y, m, d, year, month, day);
    }
    lemma_faces_in_order(
        y,
        m,
        d,
        p / 3600 % 24,
        p / 60 % 60,
        p % 60,
        year,
        month,
        day,
        q / 3600 % 24,
        q / 60 % 60,
        q % 60,
    );
}

/// Later times have later stamps, and two times share one only within a second,
/// through the year 9999.
pub proof fn later_times_have_later_stamps(a: u64, b: u64, s: Seq<char>, t: Seq<char>)
    requires
        a <= b < 253_402_300_800_000,
        stamped(a, s),
        stamped(b, t),
    ensures
        s == t || strings::precedes(s, t),
        s == t <==> a / 1000 == b / 1000,
{
    let p = a as nat / 1000;
    let q = b as nat / 1000;
    assert(a as nat / 86_400_000 == p / 86_400);
    assert(b as nat / 86_400_000 == q / 86_400);
    let (y, m, d) = choose|y: nat, m: nat, d: nat|
        {
            &&& is_date(y, m, d)
            &&& day_number(y, m, d) == a as nat / 86_400_000
            &&& s == #[trigger] written(y, m, d, a as nat / 1000)
        };
    let (year, month, day) = choose|year: nat, month: nat, day: nat|
        {
            &&& is_date(year, month, day)
            &&& day_number(year, month, day) == b as nat / 86_400_000
            &&& t == #[trigger] written(year, month, day, b as nat / 1000)
        };
    if p < q {
        lemma_stamps_in_order(y, m, d, p, year, month, day, q);
        strings::lemma_order(s, t);
    } else {
        a_day_has_one_date(y, m, d, year, month, day);
    }
}

/// One line of the log.
pub fn entry(line: &str, now: u64) -> (r: String)
    ensures
        exists|at: Seq<char>| #[trigger] stamped(now, at) && r@ == at + " "@ + line@ + "\n"@,
{
    let at = stamp(now);
    let head = strings::concat3(at.as_str(), " ", line);
    let r = strings::concat2(head.as_str(), "\n");
    assert(stamped(now, at@) && r@ == at@ + " "@ + line@ + "\n"@);
    r
}

// --- rotation --------------------------------------------------------------------
/// Where the first line break at or after `i` stands.
pub open spec fn break_from(bytes: Seq<u8>, i: int) -> Option<int>
    decreases bytes.len() - i,
{
    if i < 0 || i >= bytes.len() {
        None
    } else if bytes[i] == 10 {
        Some(i)
    } else {
        break_from(bytes, i + 1)
    }
}

/// What is left of a log that has grown too long: its newer half, from the
/// start of a line. `None` where it stays as it is.
pub open spec fn rotated(bytes: Seq<u8>) -> Option<Seq<u8>> {
    if bytes.len() <= MAX_BYTES {
        None
    } else {
        match break_from(bytes, (bytes.len() / 2) as int) {
            Some(i) => Some(bytes.skip(i + 1)),
            None => None,
        }
    }
}

/// Keeps the newest half, cut at a line boundary.
///
/// Halving rather than truncating means the trim happens rarely, and cutting at
/// a newline means the oldest surviving line is a whole one. Bytes, not text: a
/// line break is never inside a character, and one corrupt byte cannot disable
/// rotation forever.
pub fn rotate(bytes: &[u8]) -> (r: Option<Vec<u8>>)
    ensures
        match r {
            Some(kept) => rotated(bytes@) == Some(kept@),
            None => rotated(bytes@) is None,
        },
{
    if bytes.len() <= MAX_BYTES {
        return None;
    }
    let mut i: usize = bytes.len() / 2;
    while i < bytes.len() && bytes[i] != 10
        invariant
            i <= bytes@.len(),
            break_from(bytes@, (bytes@.len() / 2) as int) == break_from(bytes@, i as int),
        decreases bytes@.len() - i,
    {
        i = i + 1;
    }
    if i == bytes.len() {
        return None;
    }
    let mut kept: Vec<u8> = Vec::new();
    kept.extend_from_slice(vstd::slice::slice_subrange(bytes, i + 1, bytes.len()));
    assert(kept@ =~= bytes@.skip(i + 1));
    Some(kept)
}

proof fn lemma_break(bytes: Seq<u8>, i: int)
    requires
        0 <= i,
    ensures
        break_from(bytes, i) matches Some(j) ==> i <= j < bytes.len() && bytes[j] == 10,
    decreases bytes.len() - i,
{
    if i < bytes.len() && bytes[i] != 10 {
        lemma_break(bytes, i + 1);
    }
}

/// Rotation only ever drops whole lines off the front, and at least half of
/// them by size.
pub proof fn rotation_keeps_the_newest_lines(bytes: Seq<u8>)
    ensures
        rotated(bytes) matches Some(kept) ==> {
            let cut = bytes.len() - kept.len();
            &&& 0 < cut <= bytes.len()
            &&& kept == bytes.skip(cut)
            &&& bytes[cut - 1] == 10
            &&& 2 * kept.len() <= bytes.len()
        },
{
    lemma_break(bytes, (bytes.len() / 2) as int);
}

} // verus!
