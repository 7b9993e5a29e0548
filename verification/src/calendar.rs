//! The proleptic Gregorian calendar, counted in days and seconds from the
//! start of 1970 in UTC.

use vstd::prelude::*;

use crate::number::{
    all_digits, decimal, lemma_front_digits, lemma_padded_digits, push_padded, zero_padded,
};
use crate::order::{at_most, lemma_at_most_number, lemma_at_most_prefix};
use crate::text::push_str;

verus! {

/// The year has a 29th of February.
pub open spec fn leap_year(y: int) -> bool {
    y % 4 == 0 && (y % 100 != 0 || y % 400 == 0)
}

pub open spec fn days_in_month(y: int, m: int) -> int {
    if m == 2 {
        if leap_year(y) {
            29
        } else {
            28
        }
    } else if m == 4 || m == 6 || m == 9 || m == 11 {
        30
    } else {
        31
    }
}

/// There is such a date.
pub open spec fn valid_date(y: int, m: int, d: int) -> bool {
    1 <= m <= 12 && 1 <= d <= days_in_month(y, m)
}

/// The days from the start of the year one to the start of the year `y`: 365
/// for each year, and one for each leap year.
pub open spec fn days_before_year(y: int) -> int {
    365 * (y - 1) + (y - 1) / 4 - (y - 1) / 100 + (y - 1) / 400
}

/// The days of the year `y` before its month `m`.
pub open spec fn days_before_month(y: int, m: int) -> int
    decreases m,
{
    if m <= 1 {
        0
    } else {
        days_before_month(y, m - 1) + days_in_month(y, m - 1)
    }
}

/// The days from the first of January 1970 to a date.
pub open spec fn day_number(y: int, m: int, d: int) -> int {
    days_before_year(y) + days_before_month(y, m) + (d - 1) - days_before_year(1970)
}

/// Every year has 365 days, and a leap year one more.
proof fn lemma_year_length(y: int)
    ensures
        days_before_year(y + 1) - days_before_year(y) == if leap_year(y) {
            366int
        } else {
            365int
        },
{
}

/// The days before each month, counted out.
proof fn lemma_before_month(y: int)
    ensures
        ({
            let l: int = if leap_year(y) {
                1
            } else {
                0
            };
            &&& days_before_month(y, 1) == 0
            &&& days_before_month(y, 2) == 31
            &&& days_before_month(y, 3) == 59 + l
            &&& days_before_month(y, 4) == 90 + l
            &&& days_before_month(y, 5) == 120 + l
            &&& days_before_month(y, 6) == 151 + l
            &&& days_before_month(y, 7) == 181 + l
            &&& days_before_month(y, 8) == 212 + l
            &&& days_before_month(y, 9) == 243 + l
            &&& days_before_month(y, 10) == 273 + l
            &&& days_before_month(y, 11) == 304 + l
            &&& days_before_month(y, 12) == 334 + l
            &&& days_before_month(y, 13) == 365 + l
        }),
{
    reveal_with_fuel(days_before_month, 13);
}

proof fn lemma_month_within(y: int, m: int, n: int)
    requires
        1 <= m < n <= 13,
    ensures
        days_before_month(y, m) + days_in_month(y, m) <= days_before_month(y, n),
    decreases n - m,
{
    if m + 1 < n {
        lemma_month_within(y, m, n - 1);
    }
}

proof fn lemma_years_within(y: int, z: int)
    requires
        y < z,
    ensures
        days_before_year(y + 1) <= days_before_year(z),
    decreases z - y,
{
    if y + 1 < z {
        lemma_years_within(y, z - 1);
        lemma_year_length(z - 1);
    }
}

/// Later dates have larger numbers: by year, then month, then day.
pub proof fn dates_are_numbered_in_order(y: int, m: int, d: int, y2: int, m2: int, d2: int)
    requires
        valid_date(y, m, d),
        valid_date(y2, m2, d2),
        y < y2 || (y == y2 && (m < m2 || (m == m2 && d < d2))),
    ensures
        day_number(y, m, d) < day_number(y2, m2, d2),
{
    lemma_before_month(y);
    lemma_before_month(y2);
    if y < y2 {
        lemma_month_within(y, m, 13);
        lemma_year_length(y);
        lemma_years_within(y, y2);
        if m2 > 1 {
            lemma_month_within(y2, 1, m2);
        }
    } else if m < m2 {
        lemma_month_within(y, m, m2);
    }
}

/// A day has one date.
pub proof fn a_day_has_one_date(y: int, m: int, d: int, y2: int, m2: int, d2: int)
    requires
        valid_date(y, m, d),
        valid_date(y2, m2, d2),
        day_number(y, m, d) == day_number(y2, m2, d2),
    ensures
        y == y2 && m == m2 && d == d2,
{
    if y < y2 || (y == y2 && (m < m2 || (m == m2 && d < d2))) {
        dates_are_numbered_in_order(y, m, d, y2, m2, d2);
    }
    if y2 < y || (y == y2 && (m2 < m || (m == m2 && d2 < d))) {
        dates_are_numbered_in_order(y2, m2, d2, y, m, d);
    }
}

/// The days of `n` years that start with a March, of which the first belongs
/// to a year that 400 divides.
pub open spec fn march_days(n: int) -> int {
    365 * n + n / 4 - n / 100 + n / 400
}

/// The year of a day within four centuries that start with a March.
proof fn lemma_year_of_era(doe: int, yoe: int)
    requires
        0 <= doe <= 146096,
        yoe == (doe - doe / 1460 + doe / 36524 - doe / 146096) / 365,
    ensures
        0 <= yoe <= 399,
        march_days(yoe) <= doe < march_days(yoe + 1),
{
    let c = doe / 36524;
    assert(0 <= c <= 4);
}

/// Which day the March of a year starts with, in days from a March of a year
/// that 400 divides.
proof fn lemma_march_start(era: int, yoe: int)
    requires
        0 <= yoe <= 399,
    ensures
        day_number(400 * era + yoe, 3, 1) + 719_468 == 146_097 * era + march_days(yoe),
{
    let y = 400 * era + yoe;
    lemma_before_month(y);
    assert((y - 1) / 4 == 100 * era + (yoe - 1) / 4);
    assert((y - 1) / 100 == 4 * era + (yoe - 1) / 100);
    assert((y - 1) / 400 == era + (yoe - 1) / 400);
    lemma_leap_shift(era, yoe);
}

/// The month of a day within a year that starts with a March, and the day
/// within the month.
proof fn lemma_month_of_year(y: int, doy: int, mp: int, day: int)
    requires
        0 <= doy <= 365,
        doy == 365 ==> leap_year(y + 1),
        mp == (5 * doy + 2) / 153,
        day == doy - (153 * mp + 2) / 5 + 1,
    ensures
        0 <= mp <= 11,
        mp < 10 ==> valid_date(y, mp + 3, day) && day_number(y, mp + 3, day) == day_number(y, 3, 1)
            + doy,
        mp >= 10 ==> valid_date(y + 1, mp - 9, day) && day_number(y + 1, mp - 9, day)
            == day_number(y, 3, 1) + doy,
{
    lemma_before_month(y);
    lemma_before_month(y + 1);
    lemma_year_length(y);
    assert(0 <= mp <= 11);
    let t = (153 * mp + 2) / 5;
    if mp == 0 {
        assert(t == 0);
    } else if mp == 1 {
        assert(t == 31);
    } else if mp == 2 {
        assert(t == 61);
    } else if mp == 3 {
        assert(t == 92);
    } else if mp == 4 {
        assert(t == 122);
    } else if mp == 5 {
        assert(t == 153);
    } else if mp == 6 {
        assert(t == 184);
    } else if mp == 7 {
        assert(t == 214);
    } else if mp == 8 {
        assert(t == 245);
    } else if mp == 9 {
        assert(t == 275);
    } else if mp == 10 {
        assert(t == 306);
    } else {
        assert(t == 337);
    }
}

/// A date lies in 1970 or later exactly when its number is not negative.
proof fn lemma_epoch(y: int, m: int, d: int)
    requires
        valid_date(y, m, d),
    ensures
        y >= 1970 <==> day_number(y, m, d) >= 0,
{
    reveal_with_fuel(days_before_month, 2);
    if y < 1970 {
        dates_are_numbered_in_order(y, m, d, 1970, 1, 1);
    } else if y > 1970 || m > 1 || d > 1 {
        dates_are_numbered_in_order(1970, 1, 1, y, m, d);
    }
}

/// A year that starts with a March has a 366th day only where its February is
/// a leap year's.
proof fn lemma_day_of_year(doe: int, yoe: int)
    requires
        0 <= yoe <= 399,
        march_days(yoe) <= doe < march_days(yoe + 1),
    ensures
        0 <= doe - march_days(yoe) <= 365,
        doe - march_days(yoe) == 365 ==> leap_year(yoe + 1),
{
}

/// Leap years repeat every 400 years.
proof fn lemma_leap_shift(era: int, k: int)
    ensures
        leap_year(400 * era + k) == leap_year(k),
{
    let y = 400 * era + k;
    assert(y % 4 == k % 4);
    assert(y % 100 == k % 100);
    assert(y % 400 == k % 400);
}

/// The steps from a day's number to its date.
#[verifier::spinoff_prover]
#[verifier::rlimit(40)]
proof fn lemma_civil(days: int, era: int, doe: int, yoe: int, doy: int, mp: int, day: int)
    requires
        era == (days + 719_468) / 146_097,
        doe == days + 719_468 - era * 146_097,
        yoe == (doe - doe / 1460 + doe / 36_524 - doe / 146_096) / 365,
        doy == doe - (365 * yoe + yoe / 4 - yoe / 100),
        mp == (5 * doy + 2) / 153,
        day == doy - (153 * mp + 2) / 5 + 1,
    ensures
        0 <= doe <= 146_096,
        0 <= yoe <= 399,
        0 <= doy <= 365,
        0 <= mp <= 11,
        1 <= day <= 31,
        ({
            let y = yoe + era * 400;
            let m = if mp < 10 {
                mp + 3
            } else {
                mp - 9
            };
            let year = if m <= 2 {
                y + 1
            } else {
                y
            };
            &&& valid_date(year, m, day)
            &&& day_number(year, m, day) == days
            &&& year >= 1970 <==> days >= 0
        }),
{
    let y = yoe + era * 400;
    assert(0 <= doe <= 146_096);
    lemma_year_of_era(doe, yoe);
    assert(doy == doe - march_days(yoe));
    lemma_day_of_year(doe, yoe);
    lemma_leap_shift(era, yoe + 1);
    assert(y + 1 == 400 * era + (yoe + 1));
    lemma_month_of_year(y, doy, mp, day);
    assert(day_number(y, 3, 1) + doy == days) by {
        lemma_march_start(era, yoe);
        assert(y == 400 * era + yoe);
    }
    if mp < 10 {
        lemma_epoch(y, mp + 3, day);
    } else {
        lemma_epoch(y + 1, mp - 9, day);
    }
}

/// The date of a day, by its number.
pub fn civil_from_days(days: i64) -> (r: (i64, u32, u32))
    requires
        days <= i64::MAX - 719_468,
    ensures
        valid_date(r.0 as int, r.1 as int, r.2 as int),
        day_number(r.0 as int, r.1 as int, r.2 as int) == days,
        r.0 >= 1970 <==> days >= 0,
{
    let z: i64 = days + 719_468;
    let era: i64 = if z >= 0 {
        z / 146_097
    } else {
        (z - 146_096) / 146_097
    };
    assert(era == (z as int) / 146_097);
    let doe: i64 = z - era * 146_097;
    assert(0 <= doe <= 146_096);
    proof {
        let g_yoe = (doe - doe as int / 1460 + doe as int / 36_524 - doe as int / 146_096) / 365;
        let g_doy = doe - (365 * g_yoe + g_yoe / 4 - g_yoe / 100);
        let g_mp = (5 * g_doy + 2) / 153;
        lemma_civil(
            days as int,
            era as int,
            doe as int,
            g_yoe,
            g_doy,
            g_mp,
            g_doy - (153 * g_mp + 2) / 5 + 1,
        );
    }
    let yoe: i64 = (doe - doe / 1460 + doe / 36_524 - doe / 146_096) / 365;
    let y: i64 = yoe + era * 400;
    let doy: i64 = doe - (365 * yoe + yoe / 4 - yoe / 100);
    let mp: i64 = (5 * doy + 2) / 153;
    let day: i64 = doy - (153 * mp + 2) / 5 + 1;
    let month: i64 = if mp < 10 {
        mp + 3
    } else {
        mp - 9
    };
    let year: i64 = if month <= 2 {
        y + 1
    } else {
        y
    };
    (year, month as u32, day as u32)
}

/// The date with a number.
pub open spec fn date_of(days: int) -> (int, int, int) {
    choose|y: int, m: int, d: int| valid_date(y, m, d) && #[trigger] day_number(y, m, d) == days
}

proof fn lemma_date_of(y: int, m: int, d: int)
    requires
        valid_date(y, m, d),
    ensures
        date_of(day_number(y, m, d)) == (y, m, d),
{
    let days = day_number(y, m, d);
    let (y2, m2, d2) = date_of(days);
    assert(valid_date(y2, m2, d2) && day_number(y2, m2, d2) == days);
    a_day_has_one_date(y, m, d, y2, m2, d2);
}

/// The date and the time of day at a number of seconds from the epoch: year,
/// month, day, hour, minute, second.
pub open spec fn moment(secs: int) -> (int, int, int, int, int, int) {
    let (y, m, d) = date_of(secs / 86400);
    let t = secs % 86400;
    (y, m, d, t / 3600, (t % 3600) / 60, t % 60)
}

/// A number with at least `width` digits.
pub open spec fn digits(n: int, width: nat) -> Seq<char> {
    zero_padded(decimal(n as nat), width)
}

/// `YYYY-MM-DDTHH:MM:SSZ`.
pub open spec fn iso_text(secs: int) -> Seq<char> {
    let (y, m, d, h, min, s) = moment(secs);
    digits(y, 4) + "-"@ + digits(m, 2) + "-"@ + digits(d, 2) + "T"@ + digits(h, 2) + ":"@ + digits(
        min,
        2,
    ) + ":"@ + digits(s, 2) + "Z"@
}

/// `YYYYMMDD-HHMMSS`.
pub open spec fn compact_text(secs: int) -> Seq<char> {
    let (y, m, d, h, min, s) = moment(secs);
    digits(y, 4) + digits(m, 2) + digits(d, 2) + "-"@ + digits(h, 2) + digits(min, 2) + digits(s, 2)
}

/// The date and the time of day at a number of seconds from the epoch.
pub fn ymd_hms(secs: u64) -> (r: (u64, u64, u64, u64, u64, u64))
    requires
        secs <= i64::MAX,
    ensures
        (r.0 as int, r.1 as int, r.2 as int, r.3 as int, r.4 as int, r.5 as int) == moment(
            secs as int,
        ),
{
    let days: u64 = secs / 86_400;
    let time_of_day: u64 = secs % 86_400;
    let (year, month, day) = civil_from_days(days as i64);
    proof {
        lemma_date_of(year as int, month as int, day as int);
    }
    (
        year as u64,
        month as u64,
        day as u64,
        time_of_day / 3600,
        (time_of_day % 3600) / 60,
        time_of_day % 60,
    )
}

/// The time as `YYYY-MM-DDTHH:MM:SSZ`.
pub fn iso(secs: u64) -> (r: String)
    requires
        secs <= i64::MAX,
    ensures
        r@ == iso_text(secs as int),
{
    let (year, month, day, hour, minute, second) = ymd_hms(secs);
    let mut out: String = String::new();
    push_padded(&mut out, year, 4);
    push_str(&mut out, "-");
    push_padded(&mut out, month, 2);
    push_str(&mut out, "-");
    push_padded(&mut out, day, 2);
    push_str(&mut out, "T");
    push_padded(&mut out, hour, 2);
    push_str(&mut out, ":");
    push_padded(&mut out, minute, 2);
    push_str(&mut out, ":");
    push_padded(&mut out, second, 2);
    push_str(&mut out, "Z");
    assert(out@ == iso_text(secs as int));
    out
}

/// The time as `YYYYMMDD-HHMMSS`.
pub fn compact(secs: u64) -> (r: String)
    requires
        secs <= i64::MAX,
    ensures
        r@ == compact_text(secs as int),
{
    let (year, month, day, hour, minute, second) = ymd_hms(secs);
    let mut out: String = String::new();
    push_padded(&mut out, year, 4);
    push_padded(&mut out, month, 2);
    push_padded(&mut out, day, 2);
    push_str(&mut out, "-");
    push_padded(&mut out, hour, 2);
    push_padded(&mut out, minute, 2);
    push_padded(&mut out, second, 2);
    assert(out@ == compact_text(secs as int));
    out
}

/// The decimal digits of a text, in order.
pub open spec fn digits_of(s: Seq<char>) -> Seq<char>
    decreases s.len(),
{
    if s.len() == 0 {
        s
    } else if '0' <= s.last() <= '9' {
        digits_of(s.drop_last()).push(s.last())
    } else {
        digits_of(s.drop_last())
    }
}

proof fn lemma_digits_of_sum(a: Seq<char>, b: Seq<char>)
    ensures
        digits_of(a + b) == digits_of(a) + digits_of(b),
    decreases b.len(),
{
    if b.len() == 0 {
        assert(a + b == a);
    } else {
        assert((a + b).drop_last() == a + b.drop_last());
        lemma_digits_of_sum(a, b.drop_last());
    }
}

proof fn lemma_no_digits(s: Seq<char>)
    requires
        s.len() == 1,
        !('0' <= s[0] <= '9'),
    ensures
        digits_of(s) == Seq::<char>::empty(),
{
    reveal_with_fuel(digits_of, 2);
    assert(s.drop_last() == Seq::<char>::empty());
}

/// Both forms of a time have the same digits in the same order.
pub proof fn the_compact_form_has_the_same_digits(secs: int)
    ensures
        digits_of(iso_text(secs)) == digits_of(compact_text(secs)),
{
    reveal_strlit("-");
    reveal_strlit("T");
    reveal_strlit(":");
    reveal_strlit("Z");
    lemma_no_digits("-"@);
    lemma_no_digits("T"@);
    lemma_no_digits(":"@);
    lemma_no_digits("Z"@);
    let (y, m, d, h, min, s) = moment(secs);
    let (a, b, c, e, f, g) = (
        digits(y, 4),
        digits(m, 2),
        digits(d, 2),
        digits(h, 2),
        digits(min, 2),
        digits(s, 2),
    );
    lemma_digits_of_sum(a, "-"@);
    lemma_digits_of_sum(a + "-"@, b);
    lemma_digits_of_sum(a + "-"@ + b, "-"@);
    lemma_digits_of_sum(a + "-"@ + b + "-"@, c);
    lemma_digits_of_sum(a + "-"@ + b + "-"@ + c, "T"@);
    lemma_digits_of_sum(a + "-"@ + b + "-"@ + c + "T"@, e);
    lemma_digits_of_sum(a + "-"@ + b + "-"@ + c + "T"@ + e, ":"@);
    lemma_digits_of_sum(a + "-"@ + b + "-"@ + c + "T"@ + e + ":"@, f);
    lemma_digits_of_sum(a + "-"@ + b + "-"@ + c + "T"@ + e + ":"@ + f, ":"@);
    lemma_digits_of_sum(a + "-"@ + b + "-"@ + c + "T"@ + e + ":"@ + f + ":"@, g);
    lemma_digits_of_sum(a + "-"@ + b + "-"@ + c + "T"@ + e + ":"@ + f + ":"@ + g, "Z"@);
    lemma_digits_of_sum(a, b);
    lemma_digits_of_sum(a + b, c);
    lemma_digits_of_sum(a + b + c, "-"@);
    lemma_digits_of_sum(a + b + c + "-"@, e);
    lemma_digits_of_sum(a + b + c + "-"@ + e, f);
    lemma_digits_of_sum(a + b + c + "-"@ + e + f, g);
    assert(digits_of(iso_text(secs)) == digits_of(a) + digits_of(b) + digits_of(c) + digits_of(e)
        + digits_of(f) + digits_of(g));
    assert(digits_of(compact_text(secs)) == digits_of(a) + digits_of(b) + digits_of(c) + digits_of(e)
        + digits_of(f) + digits_of(g));
}

// ---------------------------------------------------------------------------
// Both forms of a time
// ---------------------------------------------------------------------------
/// `s` without `-`, `:` and `Z`, and with a `-` for each `T`.
pub open spec fn packed(s: Seq<char>) -> Seq<char>
    decreases s.len(),
{
    if s.len() == 0 {
        s
    } else if s.last() == '-' || s.last() == ':' || s.last() == 'Z' {
        packed(s.drop_last())
    } else if s.last() == 'T' {
        packed(s.drop_last()).push('-')
    } else {
        packed(s.drop_last()).push(s.last())
    }
}

proof fn lemma_packed_sum(a: Seq<char>, b: Seq<char>)
    ensures
        packed(a + b) == packed(a) + packed(b),
    decreases b.len(),
{
    if b.len() == 0 {
        assert(a + b == a);
    } else {
        assert((a + b).drop_last() == a + b.drop_last());
        lemma_packed_sum(a, b.drop_last());
    }
}

proof fn lemma_packed_digits(s: Seq<char>)
    requires
        all_digits(s, 10),
    ensures
        packed(s) == s,
    decreases s.len(),
{
    if s.len() > 0 {
        lemma_front_digits(s);
        lemma_packed_digits(s.drop_last());
        assert(s == s.drop_last().push(s.last()));
    }
}

proof fn lemma_packed_separators()
    ensures
        packed("-"@) == Seq::<char>::empty(),
        packed(":"@) == Seq::<char>::empty(),
        packed("Z"@) == Seq::<char>::empty(),
        packed("T"@) == "-"@,
{
    reveal_strlit("-");
    reveal_strlit("T");
    reveal_strlit(":");
    reveal_strlit("Z");
    reveal_with_fuel(packed, 2);
    assert("-"@.drop_last() == Seq::<char>::empty());
    assert(":"@.drop_last() == Seq::<char>::empty());
    assert("Z"@.drop_last() == Seq::<char>::empty());
    assert("T"@.drop_last() == Seq::<char>::empty());
}

/// The compact form is the other one without its separators: `-`, `:` and `Z`
/// are gone, and the `T` has become a `-`.
pub proof fn the_compact_form_is_the_iso_form_packed(secs: int)
    ensures
        packed(iso_text(secs)) == compact_text(secs),
{
    lemma_packed_separators();
    let (y, m, d, h, min, s) = moment(secs);
    let (a, b, c, e, f, g) = (
        digits(y, 4),
        digits(m, 2),
        digits(d, 2),
        digits(h, 2),
        digits(min, 2),
        digits(s, 2),
    );
    lemma_padded_digits(y as nat, 4);
    lemma_padded_digits(m as nat, 2);
    lemma_padded_digits(d as nat, 2);
    lemma_padded_digits(h as nat, 2);
    lemma_padded_digits(min as nat, 2);
    lemma_padded_digits(s as nat, 2);
    lemma_packed_digits(a);
    lemma_packed_digits(b);
    lemma_packed_digits(c);
    lemma_packed_digits(e);
    lemma_packed_digits(f);
    lemma_packed_digits(g);
    lemma_packed_sum(a, "-"@);
    lemma_packed_sum(a + "-"@, b);
    lemma_packed_sum(a + "-"@ + b, "-"@);
    lemma_packed_sum(a + "-"@ + b + "-"@, c);
    lemma_packed_sum(a + "-"@ + b + "-"@ + c, "T"@);
    lemma_packed_sum(a + "-"@ + b + "-"@ + c + "T"@, e);
    lemma_packed_sum(a + "-"@ + b + "-"@ + c + "T"@ + e, ":"@);
    lemma_packed_sum(a + "-"@ + b + "-"@ + c + "T"@ + e + ":"@, f);
    lemma_packed_sum(a + "-"@ + b + "-"@ + c + "T"@ + e + ":"@ + f, ":"@);
    lemma_packed_sum(a + "-"@ + b + "-"@ + c + "T"@ + e + ":"@ + f + ":"@, g);
    lemma_packed_sum(a + "-"@ + b + "-"@ + c + "T"@ + e + ":"@ + f + ":"@ + g, "Z"@);
    assert(packed(iso_text(secs)) == compact_text(secs));
}

/// The date of a moment is a date, and the moment gives back its seconds.
proof fn lemma_moment(secs: int)
    requires
        secs >= 0,
    ensures
        ({
            let (y, m, d, h, min, s) = moment(secs);
            &&& valid_date(y, m, d)
            &&& y >= 1970
            &&& 0 <= h < 24
            &&& 0 <= min < 60
            &&& 0 <= s < 60
            &&& day_number(y, m, d) == secs / 86400
            &&& secs == day_number(y, m, d) * 86400 + h * 3600 + min * 60 + s
        }),
{
    let days = secs / 86400;
    let era = (days + 719_468) / 146_097;
    let doe = days + 719_468 - era * 146_097;
    let yoe = (doe - doe / 1460 + doe / 36_524 - doe / 146_096) / 365;
    let doy = doe - (365 * yoe + yoe / 4 - yoe / 100);
    let mp = (5 * doy + 2) / 153;
    let day = doy - (153 * mp + 2) / 5 + 1;
    lemma_civil(days, era, doe, yoe, doy, mp, day);
    let month = if mp < 10 {
        mp + 3
    } else {
        mp - 9
    };
    let year = if month <= 2 {
        yoe + era * 400 + 1
    } else {
        yoe + era * 400
    };
    lemma_date_of(year, month, day);
}

proof fn lemma_two_digits(n: int)
    requires
        0 <= n < 100,
    ensures
        digits(n, 2).len() == 2,
{
    reveal_with_fuel(decimal, 3);
}

proof fn lemma_four_digits(n: int)
    requires
        0 <= n < 10_000,
    ensures
        digits(n, 4).len() == 4,
{
    reveal_with_fuel(decimal, 5);
}

proof fn lemma_fields(secs: int)
    requires
        secs >= 0,
    ensures
        ({
            let (y, m, d, h, min, s) = moment(secs);
            &&& digits(m, 2).len() == 2
            &&& digits(d, 2).len() == 2
            &&& digits(h, 2).len() == 2
            &&& digits(min, 2).len() == 2
            &&& digits(s, 2).len() == 2
        }),
{
    lemma_moment(secs);
    let (y, m, d, h, min, s) = moment(secs);
    lemma_two_digits(m);
    lemma_two_digits(d);
    lemma_two_digits(h);
    lemma_two_digits(min);
    lemma_two_digits(s);
}

proof fn lemma_same_digits(a: int, b: int, width: nat)
    requires
        0 <= a,
        0 <= b,
        digits(a, width) == digits(b, width),
    ensures
        a == b,
{
    lemma_padded_digits(a as nat, width);
    lemma_padded_digits(b as nat, width);
}

/// Two seconds never share a compact name.
pub proof fn a_compact_name_has_one_second(a: int, b: int)
    requires
        0 <= a,
        0 <= b,
        compact_text(a) == compact_text(b),
    ensures
        a == b,
{
    reveal_strlit("-");
    lemma_moment(a);
    lemma_moment(b);
    lemma_fields(a);
    lemma_fields(b);
    let (y, m, d, h, min, s) = moment(a);
    let (y2, m2, d2, h2, min2, s2) = moment(b);
    let t = compact_text(a);
    let n = t.len() as int;
    assert(t.subrange(0, n - 11) == digits(y, 4));
    assert(t.subrange(n - 11, n - 9) == digits(m, 2));
    assert(t.subrange(n - 9, n - 7) == digits(d, 2));
    assert(t.subrange(n - 6, n - 4) == digits(h, 2));
    assert(t.subrange(n - 4, n - 2) == digits(min, 2));
    assert(t.subrange(n - 2, n) == digits(s, 2));
    let u = compact_text(b);
    assert(u.subrange(0, n - 11) == digits(y2, 4));
    assert(u.subrange(n - 11, n - 9) == digits(m2, 2));
    assert(u.subrange(n - 9, n - 7) == digits(d2, 2));
    assert(u.subrange(n - 6, n - 4) == digits(h2, 2));
    assert(u.subrange(n - 4, n - 2) == digits(min2, 2));
    assert(u.subrange(n - 2, n) == digits(s2, 2));
    lemma_same_digits(y, y2, 4);
    lemma_same_digits(m, m2, 2);
    lemma_same_digits(d, d2, 2);
    lemma_same_digits(h, h2, 2);
    lemma_same_digits(min, min2, 2);
    lemma_same_digits(s, s2, 2);
}

/// Fields of digits are ordered as their numbers are, and by what follows where
/// these are equal.
proof fn lemma_field_order(x: int, y: int, width: nat, a: Seq<char>, b: Seq<char>)
    requires
        0 <= x <= y,
        digits(x, width).len() == digits(y, width).len(),
        x == y ==> at_most(a, b),
    ensures
        at_most(digits(x, width) + a, digits(y, width) + b),
{
    lemma_padded_digits(x as nat, width);
    lemma_padded_digits(y as nat, width);
    if x < y {
        lemma_at_most_number(digits(x, width), digits(y, width), a, b);
    } else {
        lemma_at_most_prefix(digits(x, width), a, b);
    }
}

/// The hour, the minute and the second of a time with what stands around them.
spec fn clock_text(h: int, min: int, s: int) -> Seq<char> {
    "T"@ + (digits(h, 2) + (":"@ + (digits(min, 2) + (":"@ + (digits(s, 2) + "Z"@)))))
}

proof fn lemma_clock_order(h: int, min: int, s: int, h2: int, min2: int, s2: int)
    requires
        0 <= h <= h2 < 24,
        0 <= min < 60,
        0 <= min2 < 60,
        0 <= s < 60,
        0 <= s2 < 60,
        h == h2 ==> min <= min2,
        h == h2 && min == min2 ==> s <= s2,
    ensures
        at_most(clock_text(h, min, s), clock_text(h2, min2, s2)),
{
    lemma_two_digits(h);
    lemma_two_digits(h2);
    lemma_two_digits(min);
    lemma_two_digits(min2);
    lemma_two_digits(s);
    lemma_two_digits(s2);
    let (a, a2) = (digits(s, 2) + "Z"@, digits(s2, 2) + "Z"@);
    let (b, b2) = (digits(min, 2) + (":"@ + a), digits(min2, 2) + (":"@ + a2));
    if h == h2 {
        if min == min2 {
            lemma_at_most_prefix("Z"@, seq![], seq![]);
            assert("Z"@ + Seq::<char>::empty() == "Z"@);
            lemma_field_order(s, s2, 2, "Z"@, "Z"@);
            lemma_at_most_prefix(":"@, a, a2);
        }
        lemma_field_order(min, min2, 2, ":"@ + a, ":"@ + a2);
        lemma_at_most_prefix(":"@, b, b2);
    }
    lemma_field_order(h, h2, 2, ":"@ + b, ":"@ + b2);
    lemma_at_most_prefix("T"@, digits(h, 2) + (":"@ + b), digits(h2, 2) + (":"@ + b2));
}

/// The date and the time of day of a later time are not earlier.
proof fn lemma_moments_in_order(a: int, b: int)
    requires
        0 <= a <= b,
    ensures
        ({
            let (y, m, d, h, min, s) = moment(a);
            let (y2, m2, d2, h2, min2, s2) = moment(b);
            &&& y <= y2
            &&& y == y2 ==> m <= m2
            &&& y == y2 && m == m2 ==> d <= d2
            &&& y == y2 && m == m2 && d == d2 ==> h <= h2
            &&& y == y2 && m == m2 && d == d2 && h == h2 ==> min <= min2
            &&& y == y2 && m == m2 && d == d2 && h == h2 && min == min2 ==> s <= s2
        }),
{
    lemma_moment(a);
    lemma_moment(b);
    let (y, m, d, h, min, s) = moment(a);
    let (y2, m2, d2, h2, min2, s2) = moment(b);
    if y2 < y || (y == y2 && (m2 < m || (m == m2 && d2 < d))) {
        dates_are_numbered_in_order(y2, m2, d2, y, m, d);
    }
}

/// The month and the day of a time, and what follows, with what stands before.
spec fn behind_year(m: int, d: int, clock: Seq<char>) -> Seq<char> {
    "-"@ + (digits(m, 2) + ("-"@ + (digits(d, 2) + clock)))
}

proof fn lemma_iso_shape(secs: int)
    ensures
        ({
            let (y, m, d, h, min, s) = moment(secs);
            iso_text(secs) == digits(y, 4) + behind_year(m, d, clock_text(h, min, s))
        }),
{
    let (y, m, d, h, min, s) = moment(secs);
    let front = digits(y, 4) + "-"@ + digits(m, 2) + "-"@ + digits(d, 2);
    let clock = "T"@ + digits(h, 2) + ":"@ + digits(min, 2) + ":"@ + digits(s, 2) + "Z"@;
    assert(iso_text(secs) == front + clock);
    assert(clock == clock_text(h, min, s));
    assert(front + clock == digits(y, 4) + behind_year(m, d, clock));
}

proof fn lemma_behind_year_order(m: int, d: int, c: Seq<char>, m2: int, d2: int, c2: Seq<char>)
    requires
        1 <= m <= m2 <= 12,
        1 <= d <= 31,
        1 <= d2 <= 31,
        m == m2 ==> d <= d2,
        m == m2 && d == d2 ==> at_most(c, c2),
    ensures
        at_most(behind_year(m, d, c), behind_year(m2, d2, c2)),
{
    lemma_two_digits(m);
    lemma_two_digits(m2);
    lemma_two_digits(d);
    lemma_two_digits(d2);
    let (e, e2) = (digits(d, 2) + c, digits(d2, 2) + c2);
    if m == m2 {
        lemma_field_order(d, d2, 2, c, c2);
        lemma_at_most_prefix("-"@, e, e2);
    }
    lemma_field_order(m, m2, 2, "-"@ + e, "-"@ + e2);
    lemma_at_most_prefix("-"@, digits(m, 2) + ("-"@ + e), digits(m2, 2) + ("-"@ + e2));
}

/// Up to the year 9999, a later time does not read earlier: the texts are in
/// the order of the times.
pub proof fn times_read_in_order(a: int, b: int)
    requires
        0 <= a <= b,
        moment(b).0 < 10_000,
    ensures
        at_most(iso_text(a), iso_text(b)),
{
    lemma_moment(a);
    lemma_moment(b);
    lemma_moments_in_order(a, b);
    lemma_iso_shape(a);
    lemma_iso_shape(b);
    let (y, m, d, h, min, s) = moment(a);
    let (y2, m2, d2, h2, min2, s2) = moment(b);
    lemma_four_digits(y);
    lemma_four_digits(y2);
    let (c, c2) = (clock_text(h, min, s), clock_text(h2, min2, s2));
    if y == y2 {
        if m == m2 && d == d2 {
            lemma_clock_order(h, min, s, h2, min2, s2);
        }
        lemma_behind_year_order(m, d, c, m2, d2, c2);
    }
    lemma_field_order(y, y2, 4, behind_year(m, d, c), behind_year(m2, d2, c2));
}

/// Counting starts with the first of January 1970, at midnight.
pub proof fn the_first_day_is_the_first_of_january_1970(secs: int)
    requires
        0 <= secs < 86400,
    ensures
        ({
            let (y, m, d, h, min, s) = moment(secs);
            &&& (y, m, d) == (1970int, 1int, 1int)
            &&& h * 3600 + min * 60 + s == secs
        }),
{
    lemma_moment(secs);
    let (y, m, d, h, min, s) = moment(secs);
    assert(day_number(1970, 1, 1) == 0);
    a_day_has_one_date(y, m, d, 1970, 1, 1);
}

/// A day later it is the next date at the same time of day: the next of the month,
/// or behind its last the first of the next month, or behind December the first of
/// January. A February has a 29th in the years that 4 divides, without those that
/// 100 divides and 400 does not.
pub proof fn the_next_date_comes_a_day_later(secs: int)
    requires
        0 <= secs,
    ensures
        ({
            let (y, m, d, h, min, s) = moment(secs);
            let (y2, m2, d2, h2, min2, s2) = moment(secs + 86400);
            let short = m == 4 || m == 6 || m == 9 || m == 11;
            let leap = y % 400 == 0 || (y % 4 == 0 && y % 100 != 0);
            let ends = if m == 2 {
                d == 29 || (d == 28 && !leap)
            } else {
                d == 31 || (d == 30 && short)
            };
            &&& (h2, min2, s2) == (h, min, s)
            &&& !ends ==> (y2, m2, d2) == (y, m, d + 1)
            &&& ends && m < 12 ==> (y2, m2, d2) == (y, m + 1, 1int)
            &&& ends && m == 12 ==> (y2, m2, d2) == (y + 1, 1int, 1int)
        }),
{
    lemma_moment(secs);
    lemma_moment(secs + 86400);
    let (y, m, d, h, min, s) = moment(secs);
    let (y2, m2, d2, h2, min2, s2) = moment(secs + 86400);
    assert((secs + 86400) / 86400 == secs / 86400 + 1);
    assert((secs + 86400) % 86400 == secs % 86400);
    lemma_before_month(y);
    lemma_before_month(y + 1);
    lemma_year_length(y);
    if d < days_in_month(y, m) {
        a_day_has_one_date(y2, m2, d2, y, m, d + 1);
    } else if m < 12 {
        a_day_has_one_date(y2, m2, d2, y, m + 1, 1);
    } else {
        a_day_has_one_date(y2, m2, d2, y + 1, 1, 1);
    }
}

/// A second later the clock shows a second more.
pub proof fn the_clock_goes_by_seconds(secs: int)
    requires
        0 <= secs,
    ensures
        ({
            let (y, m, d, h, min, s) = moment(secs);
            let (y2, m2, d2, h2, min2, s2) = moment(secs + 1);
            &&& s < 59 ==> (y2, m2, d2, h2, min2, s2) == (y, m, d, h, min, s + 1)
            &&& s == 59 && min < 59 ==> (y2, m2, d2, h2, min2, s2) == (y, m, d, h, min + 1, 0int)
            &&& s == 59 && min == 59 && h < 23 ==> (y2, m2, d2, h2, min2, s2) == (
                y,
                m,
                d,
                h + 1,
                0int,
                0int,
            )
            &&& s == 59 && min == 59 && h == 23 ==> (h2, min2, s2) == (0int, 0int, 0int)
        }),
{
    lemma_moment(secs);
    lemma_moment(secs + 1);
    let (y, m, d, h, min, s) = moment(secs);
    let t = secs % 86400;
    if t < 86399 {
        assert((secs + 1) / 86400 == secs / 86400);
        assert((secs + 1) % 86400 == t + 1);
    } else {
        assert((secs + 1) % 86400 == 0);
    }
}

} // verus!
