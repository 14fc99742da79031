//! Moments in time and the civil calendar.

use vstd::prelude::*;

use crate::notation::{push_zero_padded, zero_padded};
use crate::text::push_str;

verus! {

/// A moment, `nanos` nanoseconds after the second `secs` of the Unix epoch.
#[derive(Debug, Clone, Copy, PartialEq, Eq, Structural)]
pub struct WallTime {
    pub secs: i64,
    pub nanos: u32,
}

/// The whole seconds between a moment and the epoch, negative before it.
pub open spec fn whole_seconds(t: WallTime) -> int {
    if t.secs < 0 && t.nanos > 0 {
        t.secs + 1
    } else {
        t.secs as int
    }
}

/// Whether a year has a leap day.
pub open spec fn is_leap(y: int) -> bool {
    y % 4 == 0 && (y % 100 != 0 || y % 400 == 0)
}

/// The number of days of a month.
pub open spec fn days_in_month(y: int, m: int) -> int {
    if m == 2 {
        if is_leap(y) {
            29
        } else {
            28
        }
    } else if m == 4 || m == 6 || m == 9 || m == 11 {
        30
    } else {
        31
    }
}

/// The number of days of a year before a month.
pub open spec fn days_before_month(y: int, m: int) -> int
    decreases m,
{
    if m <= 1 {
        0
    } else {
        days_before_month(y, m - 1) + days_in_month(y, m - 1)
    }
}

/// How many leap years there are from the year 1 to a year.
pub open spec fn leap_years(y: int) -> int {
    y / 4 - y / 100 + y / 400
}

/// The number of days from 1970-01-01 to the first day of a year.
pub open spec fn days_before_year(y: int) -> int {
    365 * (y - 1970) + leap_years(y - 1) - leap_years(1969)
}

/// The number of days from 1970-01-01 to a date.
pub open spec fn day_number(y: int, m: int, d: int) -> int {
    days_before_year(y) + days_before_month(y, m) + d - 1
}

/// Whether a date is in the calendar.
pub open spec fn is_date(y: int, m: int, d: int) -> bool {
    1 <= m <= 12 && 1 <= d <= days_in_month(y, m)
}

/// The count of days starts with 1970-01-01, and each year has 365 days, or
/// 366 where it is a leap year.
pub proof fn years_follow_one_another(y: int)
    ensures
        days_before_year(1970) == 0,
        days_before_year(y + 1) == days_before_year(y) + (if is_leap(y) {
            366int
        } else {
            365int
        }),
{
    lemma_next_quotient(y, 4);
    lemma_next_quotient(y, 100);
    lemma_next_quotient(y, 400);
    if y % 400 == 0 {
        lemma_shift(0, 4 * (y / 400), 100);
        lemma_division(y, 400);
    }
    if y % 100 == 0 {
        lemma_shift(0, 25 * (y / 100), 4);
        lemma_division(y, 100);
    }
}

proof fn lemma_next_quotient(y: int, d: int)
    requires
        d > 1,
    ensures
        y / d - (y - 1) / d == (if y % d == 0 {
            1int
        } else {
            0int
        }),
{
    lemma_division(y, d);
    let q = y / d;
    let r = y % d;
    if r == 0 {
        assert(y - 1 == (q - 1) * d + (d - 1)) by (nonlinear_arith)
            requires
                y == d * q + r,
                r == 0,
        ;
        vstd::arithmetic::div_mod::lemma_fundamental_div_mod_converse(y - 1, d, q - 1, d - 1);
    } else {
        assert(y - 1 == q * d + (r - 1)) by (nonlinear_arith)
            requires
                y == d * q + r,
        ;
        vstd::arithmetic::div_mod::lemma_fundamental_div_mod_converse(y - 1, d, q, r - 1);
    }
}

/// The day after the last one of a month is the first one of the next month,
/// also at the end of a year.
pub proof fn months_follow_one_another(y: int, m: int)
    requires
        1 <= m <= 12,
    ensures
        m < 12 ==> day_number(y, m, days_in_month(y, m)) + 1 == day_number(y, m + 1, 1),
        m == 12 ==> day_number(y, m, days_in_month(y, m)) + 1 == day_number(y + 1, 1, 1),
{
    lemma_days_before_month(y);
    years_follow_one_another(y);
}

proof fn lemma_years_in_order(a: int, b: int)
    requires
        a <= b,
    ensures
        days_before_year(a) <= days_before_year(b),
    decreases b - a,
{
    if a < b {
        lemma_years_in_order(a, b - 1);
        years_follow_one_another(b - 1);
    }
}

proof fn lemma_date_within_year(y: int, m: int, d: int)
    requires
        is_date(y, m, d),
    ensures
        days_before_year(y) <= day_number(y, m, d) < days_before_year(y + 1),
{
    lemma_days_before_month(y);
    years_follow_one_another(y);
    assert(m == 1 || m == 2 || m == 3 || m == 4 || m == 5 || m == 6 || m == 7 || m == 8 || m == 9
        || m == 10 || m == 11 || m == 12);
}

/// A day has one date.
pub proof fn a_day_has_one_date(y: int, m: int, d: int, y2: int, m2: int, d2: int)
    requires
        is_date(y, m, d),
        is_date(y2, m2, d2),
        day_number(y, m, d) == day_number(y2, m2, d2),
    ensures
        y == y2 && m == m2 && d == d2,
{
    lemma_date_within_year(y, m, d);
    lemma_date_within_year(y2, m2, d2);
    if y < y2 {
        lemma_years_in_order(y + 1, y2);
    } else if y2 < y {
        lemma_years_in_order(y2 + 1, y);
    }
    if m < m2 {
        lemma_months_in_order(y, m, m2);
    } else if m2 < m {
        lemma_months_in_order(y, m2, m);
    }
}

proof fn lemma_months_in_order(y: int, m: int, m2: int)
    requires
        1 <= m,
        m < m2,
        m2 <= 12,
    ensures
        days_before_month(y, m) + days_in_month(y, m) <= days_before_month(y, m2),
    decreases m2 - m,
{
    if m + 1 < m2 {
        lemma_months_in_order(y, m, m2 - 1);
    }
}

/// The date of a day, counted from 1970-01-01.
pub open spec fn date_of(day: int) -> (int, int, int) {
    choose|p: (int, int, int)| #[trigger]
        is_date(p.0, p.1, p.2) && day_number(p.0, p.1, p.2) == day
}

/// The days of a span of four hundred years that begins in March before a year
/// of the span.
spec fn march_years(y: int) -> int {
    365 * y + y / 4 - y / 100
}

proof fn lemma_year_of_span(doe: int, yoe: int)
    requires
        0 <= doe < 146097,
        yoe == (doe - doe / 1460 + doe / 36524 - doe / 146096) / 365,
    ensures
        0 <= yoe < 400,
        march_years(yoe) <= doe <= march_years(yoe) + 365,
        doe == march_years(yoe) + 365 ==> is_leap(yoe + 1),
{
    let c = doe / 36524;
    assert(0 <= c <= 4);
    let d1 = doe / 1460;
    let d3 = doe / 146096;
    assert(0 <= d3 <= 1);
    let q = doe - d1 + c - d3;
    assert(365 * yoe <= q < 365 * yoe + 365);
    if c == 0 {
        assert(march_years(yoe) <= doe <= march_years(yoe) + 365);
    } else if c == 1 {
        assert(march_years(yoe) <= doe <= march_years(yoe) + 365);
    } else if c == 2 {
        assert(march_years(yoe) <= doe <= march_years(yoe) + 365);
    } else if c == 3 {
        assert(march_years(yoe) <= doe <= march_years(yoe) + 365);
    } else {
        assert(doe == 146096);
        assert(yoe == 399);
    }
}

proof fn lemma_month_of_year(doy: int, mp: int)
    requires
        0 <= doy <= 365,
        mp == (5 * doy + 2) / 153,
    ensures
        0 <= mp <= 11,
        ({
            let before = (153 * mp + 2) / 5;
            let len = if mp == 11 {
                29int
            } else if mp == 1 || mp == 3 || mp == 6 || mp == 8 {
                30
            } else {
                31
            };
            &&& before <= doy < before + len
            &&& doy - before + 1 == 29 && mp == 11 <==> doy == 365
        }),
{
}

proof fn lemma_date_of_span(era: int, yoe: int, doy: int, mp: int)
    requires
        0 <= yoe < 400,
        0 <= doy <= 365,
        doy == 365 ==> is_leap(yoe + 1),
        mp == (5 * doy + 2) / 153,
    ensures
        ({
            let d = doy - (153 * mp + 2) / 5 + 1;
            let m = if mp < 10 {
                mp + 3
            } else {
                mp - 9
            };
            let y = yoe + era * 400 + (if m <= 2 {
                1int
            } else {
                0int
            });
            &&& is_date(y, m, d)
            &&& day_number(y, m, d) == era * 146097 + march_years(yoe) + doy - 719468
        }),
{
    lemma_month_of_year(doy, mp);
    let start = yoe + era * 400;
    lemma_span(era, yoe);
    lemma_days_before_month(start);
    lemma_days_before_month(start + 1);
    years_follow_one_another(start);
}

/// Years of a span, counted from its beginning and from the year 0.
proof fn lemma_span(era: int, yoe: int)
    requires
        0 <= yoe < 400,
    ensures
        leap_years(yoe + era * 400) == yoe / 4 - yoe / 100 + era * 97,
        is_leap(yoe + era * 400 + 1) == is_leap(yoe + 1),
{
    lemma_shift(yoe, era * 100, 4);
    lemma_shift(yoe, era * 4, 100);
    lemma_shift(yoe, era, 400);
    lemma_shift(yoe + 1, era * 100, 4);
    lemma_shift(yoe + 1, era * 4, 100);
    lemma_shift(yoe + 1, era, 400);
    assert(yoe / 400 == 0);
}

proof fn lemma_shift(x: int, n: int, d: int)
    requires
        d > 0,
    ensures
        (x + n * d) / d == x / d + n,
        (x + n * d) % d == x % d,
{
    lemma_division(x, d);
    assert(x + n * d == (x / d + n) * d + x % d) by (nonlinear_arith)
        requires
            x == d * (x / d) + x % d,
    ;
    vstd::arithmetic::div_mod::lemma_fundamental_div_mod_converse(x + n * d, d, x / d + n, x % d);
}

proof fn lemma_division(x: int, d: int)
    requires
        d > 0,
    ensures
        x == d * (x / d) + x % d,
        0 <= x % d < d,
{
    vstd::arithmetic::div_mod::lemma_fundamental_div_mod(x, d);
    vstd::arithmetic::div_mod::lemma_mod_bound(x, d);
}

proof fn lemma_days_before_month(y: int)
    ensures
        ({
            let feb = if is_leap(y) {
                29int
            } else {
                28int
            };
            &&& days_before_month(y, 1) == 0
            &&& days_before_month(y, 2) == 31
            &&& days_before_month(y, 3) == 31 + feb
            &&& days_before_month(y, 4) == 62 + feb
            &&& days_before_month(y, 5) == 92 + feb
            &&& days_before_month(y, 6) == 123 + feb
            &&& days_before_month(y, 7) == 153 + feb
            &&& days_before_month(y, 8) == 184 + feb
            &&& days_before_month(y, 9) == 215 + feb
            &&& days_before_month(y, 10) == 245 + feb
            &&& days_before_month(y, 11) == 276 + feb
            &&& days_before_month(y, 12) == 306 + feb
        }),
{
    reveal_with_fuel(days_before_month, 13);
}

/// The quotient of a division by a positive number, rounded down.
fn floor_div(a: i64, b: i64) -> (q: i64)
    requires
        b > 0,
    ensures
        q == a as int / b as int,
{
    proof {
        vstd::arithmetic::div_mod::lemma_fundamental_div_mod(a as int, b as int);
        let q = a as int / b as int;
        let r = a as int % b as int;
        assert(i64::MIN <= q <= i64::MAX) by (nonlinear_arith)
            requires
                a == b * q + r,
                0 <= r < b,
                b > 0,
                i64::MIN <= a <= i64::MAX,
        ;
    }
    match a.checked_div_euclid(b) {
        Some(q) => q,
        None => 0,
    }
}

/// The date of a day, counted from 1970-01-01.
pub fn civil_from_days(z: i64) -> (r: (i64, u32, u32))
    requires
        z <= i64::MAX - 719_468,
    ensures
        is_date(r.0 as int, r.1 as int, r.2 as int),
        day_number(r.0 as int, r.1 as int, r.2 as int) == z,
        (r.0 as int, r.1 as int, r.2 as int) == date_of(z as int),
{
    let days: i64 = z + 719_468;
    let era: i64 = floor_div(days, 146_097);
    let doe: i64 = days - era * 146_097;
    let yoe: i64 = (doe - doe / 1460 + doe / 36_524 - doe / 146_096) / 365;
    let y: i64 = yoe + era * 400;
    proof {
        lemma_year_of_span(doe as int, yoe as int);
    }
    let doy: i64 = doe - (365 * yoe + yoe / 4 - yoe / 100);
    let mp: i64 = (5 * doy + 2) / 153;
    proof {
        lemma_month_of_year(doy as int, mp as int);
    }
    let d: u32 = (doy - (153 * mp + 2) / 5 + 1) as u32;
    let m: u32 = (if mp < 10 {
        mp + 3
    } else {
        mp - 9
    }) as u32;
    proof {
        let year = if m <= 2 {
            y + 1
        } else {
            y as int
        };
        lemma_date_of_span(era as int, yoe as int, doy as int, mp as int);
        assert(day_number(year, m as int, d as int) == z);
        let p = (year, m as int, d as int);
        assert(is_date(p.0, p.1, p.2));
        let q = date_of(z as int);
        a_day_has_one_date(p.0, p.1, p.2, q.0, q.1, q.2);
    }
    (
        if m <= 2 {
            y + 1
        } else {
            y
        },
        m,
        d,
    )
}

/// A date and a time of day as `YYYY-MM-DD hh:mm:ss`.
pub open spec fn stamp(y: int, m: int, d: int, secs: int) -> Seq<char> {
    zero_padded(y, 4) + "-"@ + zero_padded(m, 2) + "-"@ + zero_padded(d, 2) + " "@ + zero_padded(
        secs / 3600,
        2,
    ) + ":"@ + zero_padded(secs % 3600 / 60, 2) + ":"@ + zero_padded(secs % 60, 2)
}

fn write_stamp(y: i64, m: u32, d: u32, secs: i64) -> (s: String)
    requires
        0 <= secs < 86_400,
    ensures
        s@ == stamp(y as int, m as int, d as int, secs as int),
{
    let mut s = String::new();
    push_zero_padded(&mut s, y, 4);
    push_str(&mut s, "-");
    push_zero_padded(&mut s, m as i64, 2);
    push_str(&mut s, "-");
    push_zero_padded(&mut s, d as i64, 2);
    push_str(&mut s, " ");
    push_zero_padded(&mut s, secs / 3600, 2);
    push_str(&mut s, ":");
    push_zero_padded(&mut s, secs % 3600 / 60, 2);
    push_str(&mut s, ":");
    push_zero_padded(&mut s, secs % 60, 2);
    assert(Seq::<char>::empty() + zero_padded(y as int, 4) =~= zero_padded(y as int, 4));
    s
}

/// A moment as `YYYY-MM-DD hh:mm:ss` in UTC, and as many blanks where there is
/// none.
pub open spec fn time_text(t: Option<WallTime>) -> Seq<char> {
    match t {
        None => "                   "@,
        Some(t) => {
            let secs = whole_seconds(t);
            let date = date_of(secs / 86_400);
            stamp(date.0, date.1, date.2, secs % 86_400)
        },
    }
}

/// Formats a timestamp as `YYYY-MM-DD hh:mm:ss` in UTC.
pub fn fmt_time(t: Option<WallTime>) -> (s: String)
    ensures
        s@ == time_text(t),
{
    match t {
        None => "                   ".to_owned(),
        Some(t) => {
            let secs: i64 = if t.secs < 0 && t.nanos > 0 {
                t.secs + 1
            } else {
                t.secs
            };
            let days: i64 = floor_div(secs, 86_400);
            let rem: i64 = match secs.checked_rem_euclid(86_400) {
                Some(r) => r,
                None => 0,
            };
            let (y, m, d) = civil_from_days(days);
            write_stamp(y, m, d, rem)
        },
    }
}

/// A moment is written with the date and the time of day on which it falls.
pub proof fn a_moment_is_written_as_it_falls(
    t: WallTime,
    y: int,
    m: int,
    d: int,
    hour: int,
    minute: int,
    second: int,
)
    requires
        is_date(y, m, d),
        0 <= hour < 24,
        0 <= minute < 60,
        0 <= second < 60,
        t.secs == (day_number(y, m, d) * 24 + hour) * 3600 + minute * 60 + second,
        t.secs >= 0 || t.nanos == 0,
    ensures
        time_text(Some(t)) == zero_padded(y, 4) + "-"@ + zero_padded(m, 2) + "-"@ + zero_padded(
            d,
            2,
        ) + " "@ + zero_padded(hour, 2) + ":"@ + zero_padded(minute, 2) + ":"@ + zero_padded(
            second,
            2,
        ),
{
    let day = day_number(y, m, d);
    let secs = t.secs as int;
    assert(secs == day * 86_400 + (hour * 3600 + minute * 60 + second));
    assert(secs / 86_400 == day && secs % 86_400 == hour * 3600 + minute * 60 + second);
    let p = (y, m, d);
    assert(is_date(p.0, p.1, p.2));
    let q = date_of(day);
    a_day_has_one_date(y, m, d, q.0, q.1, q.2);
    let rest = secs % 86_400;
    assert(rest / 3600 == hour && rest % 3600 / 60 == minute && rest % 60 == second);
}

/// What is beyond the whole second is cut off, towards the epoch.
pub proof fn a_part_of_a_second_is_cut_off(t: WallTime)
    requires
        t.nanos < 1_000_000_000,
    ensures
        t.secs >= 0 ==> whole_seconds(t) * 1_000_000_000 <= t.secs * 1_000_000_000 + t.nanos < (
        whole_seconds(t) + 1) * 1_000_000_000,
        t.secs < 0 ==> (whole_seconds(t) - 1) * 1_000_000_000 < t.secs * 1_000_000_000 + t.nanos
            <= whole_seconds(t) * 1_000_000_000,
{
}

/// What has no time takes as much room as a time does.
pub proof fn a_missing_time_is_as_wide(i: int)
    ensures
        time_text(None).len() == 19,
        0 <= i < 19 ==> time_text(None)[i] == ' ',
{
    reveal_strlit("                   ");
}

/// Every fourth year is a leap year, but for those of the centuries, of which
/// every fourth is.
pub proof fn leap_years_come_every_fourth(y: int)
    ensures
        is_leap(4 * y) <==> y % 25 != 0 || y % 100 == 0,
        !is_leap(4 * y + 1),
        !is_leap(4 * y + 2),
        !is_leap(4 * y + 3),
{
}

/// The months have their usual lengths.
pub proof fn months_have_their_lengths(y: int, m: int)
    requires
        1 <= m <= 12,
    ensures
        days_in_month(y, m) == if m == 2 && is_leap(y) {
            29int
        } else {
            seq![31int, 28, 31, 30, 31, 30, 31, 31, 30, 31, 30, 31][m - 1]
        },
{
}

} // verus!
