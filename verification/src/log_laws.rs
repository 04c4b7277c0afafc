//! When the log is cut, and how its stamps are written.

use vstd::prelude::*;
use vstd::string::*;

use crate::log;
use crate::strings;

verus! {

/// A log of more than a quarter of a megabyte is cut behind the first line end of its
/// second half.
pub proof fn a_long_log_is_cut_in_its_middle(bytes: Seq<u8>, k: int)
    requires
        bytes.len() / 2 <= k < bytes.len(),
        bytes[k] == 0x0a,
        forall|j: int| bytes.len() / 2 <= j < k ==> bytes[j] != 0x0a,
    ensures
        bytes.len() > 256 * 1024 ==> log::rotated(bytes) == Some(bytes.skip(k + 1)),
        bytes.len() <= 256 * 1024 ==> log::rotated(bytes) is None,
{
    lemma_break(bytes, (bytes.len() / 2) as int, k);
}

proof fn lemma_break(bytes: Seq<u8>, i: int, k: int)
    requires
        0 <= i <= k < bytes.len(),
        bytes[k] == 0x0a,
        forall|j: int| i <= j < k ==> bytes[j] != 0x0a,
    ensures
        log::break_from(bytes, i) == Some(k),
    decreases k - i,
{
    if i < k {
        lemma_break(bytes, i + 1, k);
    }
}

/// A month has its days, February a day more in every fourth year but for three
/// centuries out of four.
pub proof fn a_month_has_its_days(year: nat, month: nat)
    requires
        1 <= month <= 12,
    ensures
        ({
            let days = log::month_length(year, month);
            let leap = (year % 4 == 0 && year % 100 != 0) || year % 400 == 0;
            &&& month == 1 || month == 3 || month == 5 || month == 7 || month == 8 || month == 10
                || month == 12 ==> days == 31
            &&& month == 4 || month == 6 || month == 9 || month == 11 ==> days == 30
            &&& month == 2 && leap ==> days == 29
            &&& month == 2 && !leap ==> days == 28
            &&& log::year_length(year) == (if leap { 366nat } else { 365nat })
        }),
{
}

/// The day after is numbered one higher, over the ends of months and years, and the
/// first of January 1970 is nought.
pub proof fn the_next_day_is_one_more(year: nat, month: nat, day: nat)
    requires
        log::is_date(year, month, day),
    ensures
        log::day_number(1970, 1, 1) == 0,
        day < log::month_length(year, month) ==> log::day_number(year, month, day + 1)
            == log::day_number(year, month, day) + 1,
        day == log::month_length(year, month) && month < 12 ==> log::day_number(
            year,
            month + 1,
            1,
        ) == log::day_number(year, month, day) + 1,
        day == log::month_length(year, month) && month == 12 ==> log::day_number(
            (year + 1) as nat,
            1,
            1,
        ) == log::day_number(year, month, day) + 1,
{
    if day == log::month_length(year, month) && month == 12 {
        reveal_with_fuel(log::days_before_month, 13);
        reveal_with_fuel(log::days_before_year, 2);
    }
}

/// A stamp is a date and a time of day, each part in two digits but for the year.
pub proof fn a_stamp_is_a_date_and_a_time(
    year: nat,
    month: nat,
    day: nat,
    hour: nat,
    minute: nat,
    second: nat,
    days: nat,
)
    requires
        hour < 24,
        minute < 60,
        second < 60,
    ensures
        log::written(year, month, day, days * 86400 + hour * 3600 + minute * 60 + second)
            == strings::decimal_spec(year) + "-"@ + log::padded(month) + "-"@ + log::padded(day)
            + " "@ + log::padded(hour) + ":"@ + log::padded(minute) + ":"@ + log::padded(second)
            + "Z"@,
{
    let s = days * 86400 + hour * 3600 + minute * 60 + second;
    assert(s / 3600 == days * 24 + hour && (days * 24 + hour) % 24 == hour && s / 60 == days * 1440
        + hour * 60 + minute && (days * 1440 + hour * 60 + minute) % 60 == minute && s % 60
        == second) by (nonlinear_arith)
        requires
            s == days * 86400 + hour * 3600 + minute * 60 + second,
            hour < 24,
            minute < 60,
            second < 60,
    ;
}

/// Two digits it is, from nought to ninety-nine.
pub proof fn a_number_takes_two_digits(n: nat)
    requires
        n < 100,
    ensures
        log::padded(n) == seq![strings::digit(n / 10), strings::digit(n % 10)],
{
    reveal_strlit("0");
    reveal_with_fuel(strings::decimal_spec, 2);
    if n < 10 {
        assert("0"@ =~= seq![strings::digit(0)]);
    }
}

} // verus!
