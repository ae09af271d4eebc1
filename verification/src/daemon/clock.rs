//! The timestamps the daemon writes into its records.

use vstd::prelude::*;
use vstd::string::StringExecFns;
use crate::decimal::{digits, signed_padded, zero_padded, push_decimal, push_signed_padded, push_zero_padded};

verus! {

/// Whether `y` is a leap year of the (proleptic) Gregorian calendar.
pub open spec fn is_leap(y: int) -> bool {
    (y % 4 == 0 && y % 100 != 0) || y % 400 == 0
}

/// The number of days of year `y`.
pub open spec fn year_days(y: int) -> int {
    if is_leap(y) {
        366
    } else {
        365
    }
}

/// The leap years from year 1 up to year `y - 1` (fewer than none before
/// year 1, as the count runs backwards).
pub open spec fn leaps_before(y: int) -> int {
    (y - 1) / 4 - (y - 1) / 100 + (y - 1) / 400
}

/// The days from 1970-01-01 to the first day of year `y` (negative for the
/// years before 1970).
pub open spec fn year_start(y: int) -> int {
    365 * (y - 1970) + leaps_before(y) - leaps_before(1970)
}

/// The number of days of month `m` (1 to 12) of a year, leap or not.
pub open spec fn month_length(leap: bool, m: int) -> int {
    if m == 2 {
        if leap {
            29
        } else {
            28
        }
    } else if m == 4 || m == 6 || m == 9 || m == 11 {
        30
    } else {
        31
    }
}

/// The number of days of month `m` (1 to 12) of year `y`.
pub open spec fn month_days(y: int, m: int) -> int {
    month_length(is_leap(y), m)
}

/// The days of year `y` before the first of month `m` (1 to 12).
pub open spec fn month_start(y: int, m: int) -> int {
    let l: int = if is_leap(y) {
        1
    } else {
        0
    };
    if m <= 1 {
        0
    } else if m == 2 {
        31
    } else if m == 3 {
        59 + l
    } else if m == 4 {
        90 + l
    } else if m == 5 {
        120 + l
    } else if m == 6 {
        151 + l
    } else if m == 7 {
        181 + l
    } else if m == 8 {
        212 + l
    } else if m == 9 {
        243 + l
    } else if m == 10 {
        273 + l
    } else if m == 11 {
        304 + l
    } else {
        334 + l
    }
}

/// The day `days` days after 1970-01-01 is day `d` of month `m` of year
/// `y`.
pub open spec fn is_date(days: int, y: int, m: int, d: int) -> bool {
    &&& 1 <= m <= 12
    &&& 1 <= d <= month_days(y, m)
    &&& year_start(y) + month_start(y, m) + d - 1 == days
}

/// The calendar date (year, month, day) of the day `days` days after
/// 1970-01-01.
pub open spec fn civil_date(days: int) -> (int, int, int) {
    choose|t: (int, int, int)| is_date(days, t.0, t.1, t.2)
}

/// The ISO-8601 UTC text of the instant `ms` milliseconds after the epoch,
/// to the millisecond: `YYYY-MM-DDTHH:MM:SS.mmmZ`, the year written as
/// `{:04}` writes it.
pub open spec fn timestamp_text(ms: int) -> Seq<char> {
    let days = ms / 86_400_000;
    let t = ms % 86_400_000;
    let date = civil_date(days);
    signed_padded(date.0, 4) + "-"@ + zero_padded(date.1 as nat, 2) + "-"@ + zero_padded(date.2 as nat, 2)
        + "T"@ + zero_padded((t / 3_600_000) as nat, 2) + ":"@ + zero_padded(((t / 60_000) % 60) as nat, 2)
        + ":"@ + zero_padded(((t / 1000) % 60) as nat, 2) + "."@ + zero_padded((t % 1000) as nat, 3) + "Z"@
}

/// A year is followed by the next after its days.
pub proof fn lemma_year_step(y: int)
    ensures
        year_start(y + 1) == year_start(y) + year_days(y),
{
    assert(y / 4 - (y - 1) / 4 == if y % 4 == 0 { 1int } else { 0int }) by (nonlinear_arith);
    assert(y / 100 - (y - 1) / 100 == if y % 100 == 0 { 1int } else { 0int }) by (nonlinear_arith);
    assert(y / 400 - (y - 1) / 400 == if y % 400 == 0 { 1int } else { 0int }) by (nonlinear_arith);
    assert(y % 400 == 0 ==> y % 100 == 0 && y % 4 == 0) by (nonlinear_arith);
    assert(y % 100 == 0 ==> y % 4 == 0) by (nonlinear_arith);
}

/// Later years start later: a year starts no earlier than the day after the
/// last day of any earlier year.
pub proof fn lemma_year_start_grows(a: int, b: int)
    requires
        a < b,
    ensures
        year_start(a + 1) <= year_start(b),
        year_start(a) < year_start(b),
    decreases b - a,
{
    lemma_year_step(a);
    if a + 1 < b {
        lemma_year_start_grows(a + 1, b);
    }
}

/// Four hundred years are 146097 days.
pub proof fn lemma_four_centuries(q: int)
    ensures
        year_start(1970 + 400 * q) == 146097 * q,
{
    assert((1969 + 400 * q) / 4 == 492 + 100 * q) by (nonlinear_arith);
    assert((1969 + 400 * q) / 100 == 19 + 4 * q) by (nonlinear_arith);
    assert((1969 + 400 * q) / 400 == 4 + q) by (nonlinear_arith);
}

/// The months of a year follow one another and fill it.
pub proof fn lemma_months(y: int, m: int)
    requires
        1 <= m <= 12,
    ensures
        m < 12 ==> month_start(y, m + 1) == month_start(y, m) + month_days(y, m),
        m == 12 ==> month_start(y, m) + month_days(y, m) == year_days(y),
        month_start(y, m) + month_days(y, m) <= year_days(y),
        month_start(y, m) >= 0,
{
}

/// A day has one date.
pub proof fn lemma_date_unique(days: int, y1: int, m1: int, d1: int, y2: int, m2: int, d2: int)
    requires
        is_date(days, y1, m1, d1),
        is_date(days, y2, m2, d2),
    ensures
        y1 == y2 && m1 == m2 && d1 == d2,
{
    lemma_months(y1, m1);
    lemma_months(y2, m2);
    if y1 < y2 {
        lemma_year_start_grows(y1, y2);
        lemma_year_step(y1);
    } else if y2 < y1 {
        lemma_year_start_grows(y2, y1);
        lemma_year_step(y2);
    }
    assert(y1 == y2);
    if m1 < m2 {
        lemma_month_order(y1, m1, m2);
    } else if m2 < m1 {
        lemma_month_order(y1, m2, m1);
    }
}

/// A later month starts after the days of an earlier one.
proof fn lemma_month_order(y: int, a: int, b: int)
    requires
        1 <= a < b <= 12,
    ensures
        month_start(y, a) + month_days(y, a) <= month_start(y, b),
    decreases b - a,
{
    lemma_months(y, a);
    if a + 1 < b {
        lemma_month_order(y, a + 1, b);
        lemma_months(y, a + 1);
    }
}

/// The date of a day is the one it has.
pub proof fn lemma_civil_date(days: int, y: int, m: int, d: int)
    requires
        is_date(days, y, m, d),
    ensures
        civil_date(days) == (y, m, d),
{
    let w = (y, m, d);
    assert(is_date(days, w.0, w.1, w.2));
    let t = civil_date(days);
    assert(is_date(days, t.0, t.1, t.2));
    lemma_date_unique(days, t.0, t.1, t.2, y, m, d);
}

/// Whole four-century cycles and the days left over.
fn split_cycles(days: i64) -> (r: (i64, i64))
    requires
        -200_000_000_000 <= days <= 200_000_000_000,
    ensures
        r.0 * 146097 + r.1 == days,
        0 <= r.1 < 146097,
        -2_000_000 <= r.0 <= 2_000_000,
{
    let cycle: i64 = 146097;
    let (q, rest) = if days >= 0 {
        (days / cycle, days % cycle)
    } else {
        let a = -days;
        let q0 = a / cycle;
        let r0 = a % cycle;
        if r0 == 0 {
            (-q0, 0)
        } else {
            (-q0 - 1, cycle - r0)
        }
    };
    proof {
        if days >= 0 {
            assert(q * 146097 + rest == days && 0 <= rest < 146097) by (nonlinear_arith)
                requires
                    days >= 0,
                    q == days / 146097,
                    rest == days % 146097,
            ;
        } else {
            let a = -days;
            assert(q * 146097 + rest == days && 0 <= rest < 146097) by (nonlinear_arith)
                requires
                    a == -days,
                    a > 0,
                    a % 146097 == 0 ==> q == -(a / 146097) && rest == 0,
                    a % 146097 != 0 ==> q == -(a / 146097) - 1 && rest == 146097 - a % 146097,
            ;
        }
        assert(-2_000_000 <= q <= 2_000_000) by (nonlinear_arith)
            requires
                q * 146097 + rest == days,
                0 <= rest < 146097,
                -200_000_000_000 <= days <= 200_000_000_000,
        ;
    }
    (q, rest)
}

/// The year of day `days` after 1970-01-01, and the days of that year
/// before it.
fn year_of_day(days: i64) -> (r: (i64, i64))
    requires
        -200_000_000_000 <= days <= 200_000_000_000,
    ensures
        year_start(r.0 as int) + r.1 == days,
        0 <= r.1 < year_days(r.0 as int),
{
    let (q, r0) = split_cycles(days);
    let base: i64 = 1970 + 400 * q;
    proof {
        lemma_four_centuries(q as int);
        lemma_four_centuries(q as int + 1);
    }
    let mut y = base;
    let mut rest = r0;
    while rest >= year_len(y)
        invariant
            year_start(y as int) + rest == days,
            0 <= rest,
            base <= y < base + 400,
            base == 1970 + 400 * q,
            -2_000_000 <= q <= 2_000_000,
            year_start(base as int) + r0 == days,
            year_start(base as int + 400) == year_start(base as int) + 146097,
            0 <= r0 < 146097,
        decreases rest,
    {
        proof {
            lemma_year_step(y as int);
            if y as int + 1 >= base as int + 400 {
                if y as int + 1 > base as int + 400 {
                    lemma_year_start_grows(base as int + 400, y as int + 1);
                }
                assert(false);
            }
        }
        rest = rest - year_len(y);
        y = y + 1;
    }
    (y, rest)
}

/// The month and day of the day `rest` days after the first of year `y`.
fn month_of_day(y: i64, rest: i64) -> (r: (u64, u64))
    requires
        -900_000_000 <= y <= 900_000_000,
        0 <= rest < year_days(y as int),
    ensures
        1 <= r.0 <= 12,
        1 <= r.1 <= month_days(y as int, r.0 as int),
        month_start(y as int, r.0 as int) + r.1 - 1 == rest,
{
    let leap = leap_year(y);
    let mut m: u64 = 1;
    let mut left = rest;
    while m < 12 && left >= month_len(leap, m)
        invariant
            1 <= m <= 12,
            leap == is_leap(y as int),
            0 <= left,
            month_start(y as int, m as int) + left == rest,
            rest < year_days(y as int),
        decreases 12 - m,
    {
        proof {
            lemma_months(y as int, m as int);
        }
        left = left - month_len(leap, m);
        m = m + 1;
    }
    proof {
        lemma_months(y as int, m as int);
    }
    (m, (left + 1) as u64)
}

/// The date of day `days` after 1970-01-01, for the days an `i64` count of
/// milliseconds reaches.
fn date_of_day(days: i64) -> (r: (i64, u64, u64))
    requires
        -200_000_000_000 <= days <= 200_000_000_000,
    ensures
        is_date(days as int, r.0 as int, r.1 as int, r.2 as int),
{
    let (y, rest) = year_of_day(days);
    let (m, d) = month_of_day(y, rest);
    (y, m, d)
}

/// Whether year `y` is a leap year.
fn leap_year(y: i64) -> (r: bool)
    requires
        -900_000_000 <= y <= 900_000_000,
    ensures
        r == is_leap(y as int),
{
    let z: u64 = (y + 1_000_000_000) as u64;
    proof {
        let w = y as int;
        vstd::arithmetic::div_mod::lemma_mod_multiples_vanish(250_000_000, w, 4);
        vstd::arithmetic::div_mod::lemma_mod_multiples_vanish(10_000_000, w, 100);
        vstd::arithmetic::div_mod::lemma_mod_multiples_vanish(2_500_000, w, 400);
        assert(4 * 250_000_000 + w == w + 1_000_000_000);
        assert(100 * 10_000_000 + w == w + 1_000_000_000);
        assert(400 * 2_500_000 + w == w + 1_000_000_000);
    }
    z % 4 == 0 && (z % 100 != 0 || z % 400 == 0)
}

/// The number of days of year `y`.
fn year_len(y: i64) -> (r: i64)
    requires
        -900_000_000 <= y <= 900_000_000,
    ensures
        r == year_days(y as int),
{
    if leap_year(y) {
        366
    } else {
        365
    }
}

/// The number of days of month `m` of a year, leap or not.
fn month_len(leap: bool, m: u64) -> (r: i64)
    requires
        1 <= m <= 12,
    ensures
        r == month_length(leap, m as int),
{
    if m == 2 {
        if leap {
            29
        } else {
            28
        }
    } else if m == 4 || m == 6 || m == 9 || m == 11 {
        30
    } else {
        31
    }
}

/// Renders `ms` milliseconds since the epoch as the ISO-8601 UTC timestamp
/// `YYYY-MM-DDTHH:MM:SS.mmmZ`.
pub fn format_timestamp_ms(ms: i64) -> (r: String)
    ensures
        r@ == timestamp_text(ms as int),
{
    let day: i64 = 86_400_000;
    let (days, t) = if ms >= 0 {
        (ms / day, ms % day)
    } else {
        let a: i128 = -(ms as i128);
        let q0: i128 = a / 86_400_000;
        let r0: i128 = a % 86_400_000;
        if r0 == 0 {
            ((-q0) as i64, 0i64)
        } else {
            ((-q0 - 1) as i64, (86_400_000 - r0) as i64)
        }
    };
    proof {
        let x = ms as int;
        if x >= 0 {
            assert(days as int * 86_400_000 + t == x && 0 <= t < 86_400_000) by (nonlinear_arith)
                requires
                    days == x / 86_400_000,
                    t == x % 86_400_000,
                    x >= 0,
            ;
        } else {
            let a = -x;
            assert(days as int * 86_400_000 + t == x && 0 <= t < 86_400_000) by (nonlinear_arith)
                requires
                    a == -x,
                    a > 0,
                    a % 86_400_000 == 0 ==> days == -(a / 86_400_000) && t == 0,
                    a % 86_400_000 != 0 ==> days == -(a / 86_400_000) - 1 && t == 86_400_000 - a % 86_400_000,
            ;
        }
        vstd::arithmetic::div_mod::lemma_fundamental_div_mod_converse(x, 86_400_000, days as int, t as int);
        assert(-200_000_000_000 <= days <= 200_000_000_000) by (nonlinear_arith)
            requires
                days as int * 86_400_000 + t == x,
                0 <= t < 86_400_000,
                i64::MIN <= x <= i64::MAX,
        ;
    }
    let (y, m, d) = date_of_day(days);
    proof {
        lemma_civil_date(days as int, y as int, m as int, d as int);
    }
    let tu = t as u64;
    let mut r = String::new();
    push_signed_padded(&mut r, y, 4);
    r.append("-");
    push_zero_padded(&mut r, m, 2);
    r.append("-");
    push_zero_padded(&mut r, d, 2);
    r.append("T");
    push_zero_padded(&mut r, tu / 3_600_000, 2);
    r.append(":");
    push_zero_padded(&mut r, (tu / 60_000) % 60, 2);
    r.append(":");
    push_zero_padded(&mut r, (tu / 1000) % 60, 2);
    r.append(".");
    push_zero_padded(&mut r, tu % 1000, 3);
    r.append("Z");
    r
}

/// The creation stamp written for `ms` milliseconds since the epoch: its
/// ISO-8601 UTC timestamp.
pub open spec fn chrono_text(ms: int) -> Seq<char> {
    timestamp_text(ms)
}

/// The creation stamp written for `ms` milliseconds since the epoch.
pub fn chrono_stamp(ms: i64) -> (r: String)
    ensures
        r@ == chrono_text(ms as int),
{
    format_timestamp_ms(ms)
}

/// The event stamp written for `ms` milliseconds since the epoch: its
/// ISO-8601 UTC timestamp.
pub open spec fn iso_text(ms: int) -> Seq<char> {
    timestamp_text(ms)
}

/// The event stamp written for `ms` milliseconds since the epoch.
pub fn iso_stamp(ms: i64) -> (r: String)
    ensures
        r@ == iso_text(ms as int),
{
    format_timestamp_ms(ms)
}

/// A reading of the system clock.
#[verifier::external_type_specification]
#[verifier::external_body]
pub struct ExSystemTime(std::time::SystemTime);

/// Calls `SystemTime::now`: the system clock's reading. Nothing is claimed
/// of it: it is the time.
#[verifier::external_body]
fn clock_reading() -> (r: std::time::SystemTime) {
    std::time::SystemTime::now()
}

/// Calls `SystemTime::duration_since` with `UNIX_EPOCH`: how long after the
/// epoch the reading `t` lies; `None` where it lies before. Nothing more is
/// claimed of it.
#[verifier::external_body]
fn since_epoch(t: std::time::SystemTime) -> (r: Option<core::time::Duration>) {
    t.duration_since(std::time::UNIX_EPOCH).ok()
}

/// Calls `Duration::as_millis`: the whole milliseconds of `d`. Nothing is
/// claimed of the number, since nothing is known of `d`.
#[verifier::external_body]
fn whole_millis(d: &core::time::Duration) -> (r: u128) {
    d.as_millis()
}

/// Milliseconds since the Unix epoch by the system clock; `None` where the
/// clock reads before the epoch.
pub fn unix_millis() -> (r: Option<u128>) {
    match since_epoch(clock_reading()) {
        Some(d) => Some(whole_millis(&d)),
        None => None,
    }
}

/// The stamp of the current time is the clock's reading in whole seconds:
/// where `seconds_now` gave a stamp, the clock read some `ms` milliseconds
/// after the epoch and the stamp is the decimal number of whole seconds in
/// `ms`, then `Z`.
pub proof fn lemma_seconds_now_is_the_reading(r: Option<String>)
    requires
        call_ensures(seconds_now, (), r),
    ensures
        r matches Some(s) ==> exists|ms: u128| #[trigger] call_ensures(unix_millis, (), Some(ms))
            && s@ == digits((ms / 1000) as nat) + "Z"@,
{
}

/// The event stamp of the current time is the clock's reading: where
/// `iso_now` gave a stamp, the clock read some `ms` milliseconds after the
/// epoch and the stamp is the ISO-8601 timestamp of `ms`.
pub proof fn lemma_iso_now_is_the_reading(r: Option<String>)
    requires
        call_ensures(iso_now, (), r),
    ensures
        r matches Some(s) ==> exists|ms: u128| #[trigger] call_ensures(unix_millis, (), Some(ms))
            && s@ == timestamp_text(ms as int),
{
}

/// The stamp of `secs` seconds since the epoch: the number and `Z`.
pub fn seconds_stamp(secs: u64) -> (r: String)
    ensures
        r@ == digits(secs as nat) + "Z"@,
{
    let mut r = String::new();
    push_decimal(&mut r, secs);
    r.append("Z");
    r
}

/// The seconds-since-the-epoch stamp of the current time: the clock's
/// reading in whole seconds; `None` where the clock reads before the epoch.
pub fn seconds_now() -> (r: Option<String>)
    ensures
        r matches Some(s) ==> exists|secs: u64| s@ == digits(secs as nat) + "Z"@,
        r matches Some(s) ==> exists|ms: u128| #[trigger] call_ensures(unix_millis, (), Some(ms))
            && s@ == digits((ms / 1000) as nat) + "Z"@,
        r is None ==> exists|m: Option<u128>| #[trigger] call_ensures(unix_millis, (), m) && match m {
            Some(ms) => ms / 1000 > u64::MAX,
            None => true,
        },
{
    let reading = unix_millis();
    assert(call_ensures(unix_millis, (), reading));
    match reading {
        Some(ms) => {
            let secs = ms / 1000;
            if secs <= u64::MAX as u128 {
                Some(seconds_stamp(secs as u64))
            } else {
                None
            }
        },
        None => None,
    }
}

/// The creation stamp of the current time; `None` where the clock reads
/// before the epoch.
pub fn chrono_now() -> (r: Option<String>)
    ensures
        r matches Some(s) ==> exists|ms: i64| s@ == chrono_text(ms as int),
        r matches Some(s) ==> exists|ms: u128| #[trigger] call_ensures(unix_millis, (), Some(ms))
            && s@ == chrono_text((ms as i64) as int),
        r is None ==> call_ensures(unix_millis, (), None),
{
    let reading = unix_millis();
    assert(call_ensures(unix_millis, (), reading));
    match reading {
        Some(ms) => {
            #[verifier::truncate]
            let t = ms as i64;
            Some(chrono_stamp(t))
        },
        None => None,
    }
}

/// The event stamp of the current time; `None` where the clock reads before
/// the epoch, or later than an `i64` of milliseconds reaches.
pub fn iso_now() -> (r: Option<String>)
    ensures
        r matches Some(s) ==> exists|ms: i64| s@ == iso_text(ms as int),
        r matches Some(s) ==> exists|ms: u128| #[trigger] call_ensures(unix_millis, (), Some(ms)) && ms
            <= i64::MAX && s@ == iso_text(ms as int),
        r is None ==> exists|m: Option<u128>| #[trigger] call_ensures(unix_millis, (), m) && match m {
            Some(ms) => ms > i64::MAX,
            None => true,
        },
{
    let reading = unix_millis();
    assert(call_ensures(unix_millis, (), reading));
    match reading {
        Some(ms) => {
            if ms <= i64::MAX as u128 {
                Some(iso_stamp(ms as i64))
            } else {
                None
            }
        },
        None => None,
    }
}

} // verus!
