//! Points in time as calendar dates in UTC.
use crate::num_text::{padded_decimal, padded_decimal_text};
use vstd::arithmetic::div_mod::lemma_fundamental_div_mod_converse;
use vstd::prelude::*;
use vstd::string::*;

verus! {

/// A point in time: whole seconds since the start of 1970, and nanoseconds on
/// top of them.
#[derive(Clone, Copy, Debug, PartialEq, Eq, Structural)]
pub struct FileTime {
    pub secs: i64,
    pub nanos: u32,
}

/// Whether `a` lies before `b`.
pub open spec fn earlier(a: FileTime, b: FileTime) -> bool {
    a.secs < b.secs || (a.secs == b.secs && a.nanos < b.nanos)
}

impl FileTime {
    /// The start of 1970.
    pub fn epoch() -> (r: Self)
        ensures
            r == (FileTime { secs: 0, nanos: 0 }),
    {
        FileTime { secs: 0, nanos: 0 }
    }

    /// Whether the time lies before another.
    pub fn before(&self, other: &FileTime) -> (r: bool)
        ensures
            r == earlier(*self, *other),
    {
        self.secs < other.secs || (self.secs == other.secs && self.nanos < other.nanos)
    }
}

/// Whether a year of the Gregorian calendar is a leap year.
pub open spec fn leap(y: int) -> bool {
    y % 4 == 0 && (y % 100 != 0 || y % 400 == 0)
}

/// How many days lie between the start of 1970 and the start of year `y`.
pub open spec fn year_start(y: int) -> int {
    365 * (y - 1970) + (y - 1) / 4 - (y - 1) / 100 + (y - 1) / 400 - 477
}

/// How many days of a year that is no leap year lie before month `m`.
pub open spec fn common_month_start(m: int) -> int {
    if m <= 1 {
        0
    } else if m == 2 {
        31
    } else if m == 3 {
        59
    } else if m == 4 {
        90
    } else if m == 5 {
        120
    } else if m == 6 {
        151
    } else if m == 7 {
        181
    } else if m == 8 {
        212
    } else if m == 9 {
        243
    } else if m == 10 {
        273
    } else if m == 11 {
        304
    } else if m == 12 {
        334
    } else {
        365
    }
}

/// How many days of year `y` lie before month `m`; month 13 is the year's end.
pub open spec fn month_start(y: int, m: int) -> int {
    common_month_start(m) + if m > 2 && leap(y) {
        1int
    } else {
        0
    }
}

/// How many days lie between the start of 1970 and the given day.
pub open spec fn day_number(y: int, m: int, d: int) -> int {
    year_start(y) + month_start(y, m) + d - 1
}

/// Whether the year, month and day name a day of the calendar.
pub open spec fn is_date(y: int, m: int, d: int) -> bool {
    1 <= m <= 12 && 1 <= d <= month_start(y, m + 1) - month_start(y, m)
}

/// The length of a year is 366 days in leap years and 365 in others.
pub proof fn years_follow_each_other(y: int)
    ensures
        year_start(y + 1) - year_start(y) == if leap(y) {
            366int
        } else {
            365
        },
        year_start(y + 1) == year_start(y) + month_start(y, 13),
        year_start(1970) == 0,
{
    lemma_leap_steps(y);
}

proof fn lemma_leap_steps(y: int)
    ensures
        y / 4 - y / 100 + y / 400 == (y - 1) / 4 - (y - 1) / 100 + (y - 1) / 400 + if leap(y) {
            1int
        } else {
            0
        },
{
    lemma_quotient_step(y, 4);
    lemma_quotient_step(y, 100);
    lemma_quotient_step(y, 400);
    lemma_multiples(y);
}

proof fn lemma_multiples(y: int)
    ensures
        y % 100 == 0 ==> y % 4 == 0,
        y % 400 == 0 ==> y % 100 == 0,
{
}

proof fn lemma_quotient_step(y: int, n: int)
    requires
        n == 4 || n == 100 || n == 400,
    ensures
        y / n - (y - 1) / n == if y % n == 0 {
            1int
        } else {
            0
        },
{
}

proof fn lemma_later_year(a: int, b: int)
    requires
        a <= b,
    ensures
        year_start(a) + 365 * (b - a) <= year_start(b),
    decreases b - a,
{
    if a < b {
        lemma_later_year(a, b - 1);
        years_follow_each_other(b - 1);
    }
}

/// Different days have different numbers.
pub proof fn dates_are_unique(y: int, m: int, d: int, y2: int, m2: int, d2: int)
    requires
        is_date(y, m, d),
        is_date(y2, m2, d2),
        day_number(y, m, d) == day_number(y2, m2, d2),
    ensures
        y == y2,
        m == m2,
        d == d2,
{
    years_follow_each_other(y);
    years_follow_each_other(y2);
    if y < y2 {
        lemma_later_year(y + 1, y2);
    } else if y2 < y {
        lemma_later_year(y2 + 1, y);
    }
}

/// The year of a four-century cycle, counted from March, in which day `doe`
/// lies.
proof fn lemma_year_of_era(doe: int)
    requires
        0 <= doe < 146_097,
    ensures
        ({
            let yoe = (doe - doe / 1460 + doe / 36_524 - doe / 146_096) / 365;
            let start = 365 * yoe + yoe / 4 - yoe / 100;
            &&& 0 <= yoe < 400
            &&& 0 <= doe - start
            &&& doe - start <= 365
            &&& doe - start == 365 ==> (yoe + 1) % 4 == 0 && ((yoe + 1) % 100 != 0 || yoe == 399)
        }),
{
    let c = doe / 36_524;
    let yoe = (doe - doe / 1460 + c - doe / 146_096) / 365;
    if doe == 146_096 {
        assert(yoe == 399);
    } else {
        assert(doe / 146_096 == 0);
        let r = doe - 36_524 * c;
        assert(0 <= c <= 3 && 0 <= r < 36_524);
        // Four-year groups within the century.
        let q = r / 1461;
        let t = r - 1461 * q;
        assert(0 <= q <= 24 && 0 <= t < 1461);
        let n = if t == 1460 {
            3
        } else {
            t / 365
        };
        assert(yoe == 100 * c + 4 * q + n) by {
            let w = doe - doe / 1460 + c;
            let y = 100 * c + 4 * q + n;
            assert(365 * y <= w < 365 * y + 365);
        }
        assert((100 * c + 4 * q + n) / 100 == c);
        assert((100 * c + 4 * q + n) / 4 == 25 * c + q);
    }
}

/// How many days of a year counted from March lie before its month `mp`.
spec fn march_month_start(mp: int) -> int {
    (153 * mp + 2) / 5
}

proof fn lemma_month_of_year(doy: int)
    requires
        0 <= doy <= 365,
    ensures
        ({
            let mp = (5 * doy + 2) / 153;
            &&& 0 <= mp <= 11
            &&& march_month_start(mp) <= doy
            &&& mp < 11 ==> doy < march_month_start(mp + 1)
        }),
{
}

/// A year counted from March starts 306 days after its January would, or 59 or
/// 60 days after the January of the calendar year.
proof fn lemma_march_date(my: int, mp: int, doy: int)
    requires
        0 <= mp <= 11,
        0 <= doy <= 365,
        march_month_start(mp) <= doy,
        mp < 11 ==> doy < march_month_start(mp + 1),
        doy == 365 ==> leap(my + 1),
    ensures
        ({
            let m = if mp < 10 {
                mp + 3
            } else {
                mp - 9
            };
            let y = if m <= 2 {
                my + 1
            } else {
                my
            };
            let d = doy - march_month_start(mp) + 1;
            &&& is_date(y, m, d)
            &&& day_number(y, m, d) == 365 * my + my / 4 - my / 100 + my / 400 + doy - 719_468
        }),
{
    lemma_leap_steps(my);
    let d = doy - march_month_start(mp) + 1;
    if mp < 10 {
        let m = mp + 3;
        assert(month_start(my, m) == march_month_start(mp) + 59 + if leap(my) {
            1int
        } else {
            0
        });
        assert(is_date(my, m, d));
    } else {
        let m = mp - 9;
        assert(month_start(my + 1, m) == march_month_start(mp) - 306);
        assert(is_date(my + 1, m, d));
        assert(year_start(my + 1) == 365 * (my - 1969) + my / 4 - my / 100 + my / 400 - 477);
    }
}

proof fn lemma_eras(yoe: int, era: int)
    requires
        0 <= yoe < 400,
    ensures
        ({
            let my = yoe + 400 * era;
            &&& my / 4 - my / 100 + my / 400 == 97 * era + yoe / 4 - yoe / 100
            &&& (my + 1) % 4 == (yoe + 1) % 4
            &&& (my + 1) % 100 == (yoe + 1) % 100
            &&& yoe == 399 ==> (my + 1) % 400 == 0
        }),
{
    let my = yoe + 400 * era;
    lemma_fundamental_div_mod_converse(my, 4, 100 * era + yoe / 4, yoe % 4);
    lemma_fundamental_div_mod_converse(my, 100, 4 * era + yoe / 100, yoe % 100);
    lemma_fundamental_div_mod_converse(my, 400, era, yoe);
    lemma_fundamental_div_mod_converse(my + 1, 4, 100 * era + (yoe + 1) / 4, (yoe + 1) % 4);
    lemma_fundamental_div_mod_converse(my + 1, 100, 4 * era + (yoe + 1) / 100, (yoe + 1) % 100);
    if yoe == 399 {
        lemma_fundamental_div_mod_converse(my + 1, 400, era + 1, 0);
    }
}

proof fn lemma_shift(secs: int)
    ensures
        (secs + 10_098_224_640_000_000_000) / 86_400 == secs / 86_400 + 116_877_600_000_000,
        (secs + 10_098_224_640_000_000_000) % 86_400 == secs % 86_400,
        secs % 86_400 % 3600 == secs % 3600,
{
    let days = secs / 86_400;
    let rest = secs % 86_400;
    lemma_fundamental_div_mod_converse(
        secs + 10_098_224_640_000_000_000,
        86_400,
        days + 116_877_600_000_000,
        rest,
    );
    lemma_fundamental_div_mod_converse(secs, 3600, 24 * days + rest / 3600, rest % 3600);
}

/// Splits a time in seconds into year, month, day, hour and minute.
pub fn epoch_to_ymdhm(secs: i64) -> (r: (i64, u32, u32, u32, u32))
    ensures
        is_date(r.0 as int, r.1 as int, r.2 as int),
        day_number(r.0 as int, r.1 as int, r.2 as int) == secs as int / 86_400,
        r.3 == secs as int % 86_400 / 3600,
        r.4 == secs as int % 3600 / 60,
{
    // Counted from far enough back that no number is negative.
    let shifted: u128 = (secs as i128 + 10_098_224_640_000_000_000i128) as u128;
    let days: u128 = shifted / 86_400;
    let day_secs: u32 = (shifted % 86_400) as u32;
    let h: u32 = day_secs / 3600;
    let mi: u32 = (day_secs % 3600) / 60;
    let z: u128 = days + 719_468;
    assert(z <= 300_000_000_000_000);
    let era: u128 = z / 146_097;
    let doe: u32 = (z % 146_097) as u32;
    proof {
        lemma_year_of_era(doe as int);
    }
    let yoe: u32 = (doe - doe / 1460 + doe / 36_524 - doe / 146_096) / 365;
    let doy: u32 = doe - (365 * yoe + yoe / 4 - yoe / 100);
    proof {
        lemma_month_of_year(doy as int);
    }
    let mp: u32 = (5 * doy + 2) / 153;
    let day: u32 = doy - (153 * mp + 2) / 5 + 1;
    let month: u32 = if mp < 10 {
        mp + 3
    } else {
        mp - 9
    };
    let march_year: i64 = yoe as i64 + (era as i64 - 800_000_000) * 400;
    proof {
        let e = era as int - 800_000_000;
        lemma_eras(yoe as int, e);
        lemma_march_date(march_year as int, mp as int, doy as int);
        lemma_shift(secs as int);
        assert(shifted as int == secs as int + 10_098_224_640_000_000_000);
        assert(z == 146_097 * era + doe);
    }
    let year: i64 = if month <= 2 {
        march_year + 1
    } else {
        march_year
    };
    (year, month, day, h, mi)
}

/// Whether `t` is the year, month and day with the number `n`.
pub open spec fn dated(t: (int, int, int), n: int) -> bool {
    is_date(t.0, t.1, t.2) && day_number(t.0, t.1, t.2) == n
}

/// The year, month and day with the number `n`.
pub open spec fn date_of(n: int) -> (int, int, int) {
    choose|t: (int, int, int)| dated(t, n)
}

/// A number reduced to 32 bits, as two's complement.
pub open spec fn wrap_i32(y: int) -> int {
    (y + 0x8000_0000) % 0x1_0000_0000 - 0x8000_0000
}

/// A year with at least four characters.
pub open spec fn year_text(y: int) -> Seq<char> {
    if y >= 0 {
        padded_decimal(y as nat, 4)
    } else {
        "-"@ + padded_decimal((-y) as nat, 3)
    }
}

/// A time as `YYYY-MM-DD HH:MM` in UTC; nothing for times before 1970.
pub open spec fn mtime_text(t: FileTime) -> Seq<char> {
    if t.secs < 0 {
        Seq::empty()
    } else {
        let (y, m, d) = date_of(t.secs as int / 86_400);
        let h = t.secs as int % 86_400 / 3600;
        let mi = t.secs as int % 3600 / 60;
        year_text(wrap_i32(y)) + "-"@ + padded_decimal(m as nat, 2) + "-"@ + padded_decimal(
            d as nat,
            2,
        ) + " "@ + padded_decimal(h as nat, 2) + ":"@ + padded_decimal(mi as nat, 2)
    }
}

fn wrapped_year(y: i64) -> (r: i64)
    ensures
        r == wrap_i32(y as int),
        -0x8000_0000 <= r < 0x8000_0000,
{
    let up: u128 = (y as i128 + 0x8000_0000 + 0x1_0000_0000_0000_0000) as u128;
    proof {
        let x = y as int + 0x8000_0000;
        lemma_fundamental_div_mod_converse(
            up as int,
            0x1_0000_0000,
            x / 0x1_0000_0000 + 0x1_0000_0000,
            x % 0x1_0000_0000,
        );
    }
    (up % 0x1_0000_0000) as i64 - 0x8000_0000
}

/// Writes a time.
pub fn human_mtime(t: FileTime) -> (r: String)
    ensures
        r@ == mtime_text(t),
{
    if t.secs < 0 {
        return String::new();
    }
    let (y, m, d, h, mi) = epoch_to_ymdhm(t.secs);
    proof {
        let n = t.secs as int / 86_400;
        let u = (y as int, m as int, d as int);
        assert(dated(u, n));
        let v = date_of(n);
        assert(dated(v, n));
        dates_are_unique(u.0, u.1, u.2, v.0, v.1, v.2);
    }
    let wrapped: i64 = wrapped_year(y);
    let mut s: String = if wrapped >= 0 {
        padded_decimal_text(wrapped as u64, 4)
    } else {
        let mut minus: String = "-".to_owned();
        minus.append(padded_decimal_text((-wrapped) as u64, 3).as_str());
        minus
    };
    s.append("-");
    s.append(padded_decimal_text(m as u64, 2).as_str());
    s.append("-");
    s.append(padded_decimal_text(d as u64, 2).as_str());
    s.append(" ");
    s.append(padded_decimal_text(h as u64, 2).as_str());
    s.append(":");
    s.append(padded_decimal_text(mi as u64, 2).as_str());
    s
}

} // verus!
