//! Civil (proleptic Gregorian, UTC) date-times and their relation to
//! Unix epoch counts.
//!
//! A `CivilDateTime` holds the plain year/month/day/hour/minute/second
//! fields of a UTC instant.  `days_from_civil` is the standard
//! day-number formula for the proleptic Gregorian calendar, written
//! here in a shifted form so that every intermediate value is
//! non-negative for the supported years 0..=9999.

use vstd::prelude::*;

verus! {

/// A UTC date-time broken into calendar fields.
#[derive(Clone, Copy, Debug, PartialEq, Eq, Structural)]
pub struct CivilDateTime {
    pub year: u32,
    pub month: u32,
    pub day: u32,
    pub hour: u32,
    pub minute: u32,
    pub second: u32,
}

/// Gregorian leap-year rule.
pub open spec fn is_leap_year(y: int) -> bool {
    y % 4 == 0 && (y % 100 != 0 || y % 400 == 0)
}

/// Number of days in month `m` (1-based) of year `y`.
pub open spec fn days_in_month(y: int, m: int) -> int {
    if m == 2 {
        if is_leap_year(y) {
            29
        } else {
            28
        }
    } else if m == 4 || m == 6 || m == 9 || m == 11 {
        30
    } else {
        31
    }
}

/// A real calendar date with a four-digit year.
pub open spec fn valid_ymd(y: int, m: int, d: int) -> bool {
    &&& 0 <= y <= 9999
    &&& 1 <= m <= 12
    &&& 1 <= d <= days_in_month(y, m)
}

/// The calendar fields that this library supports: four-digit years,
/// real months and days, and in-range time-of-day fields.
pub open spec fn valid_civil(c: CivilDateTime) -> bool {
    &&& valid_ymd(c.year as int, c.month as int, c.day as int)
    &&& 0 <= c.hour <= 23
    &&& 0 <= c.minute <= 59
    &&& 0 <= c.second <= 59
}

/// Days since 1970-01-01 of the civil date `y-m-d`, by the standard
/// era/year-of-era/day-of-year decomposition of the proleptic
/// Gregorian calendar.  The year is shifted by 400 so that all
/// divisions act on non-negative values when `y >= 0`; the extra era
/// (146097 days) is folded into the final constant: 719468 is the day
/// number of 1970-01-01 counted from 0000-03-01, and 865565 is
/// 719468 + 146097.
pub open spec fn days_from_civil(y: int, m: int, d: int) -> int {
    let yy = if m <= 2 {
        y + 399
    } else {
        y + 400
    };
    let mm = if m <= 2 {
        m + 9
    } else {
        m - 3
    };
    let era = yy / 400;
    let yoe = yy % 400;
    let doy = (153 * mm + 2) / 5 + d - 1;
    let doe = yoe * 365 + yoe / 4 - yoe / 100 + doy;
    era * 146097 + doe - 865565
}

/// Seconds since the Unix epoch of the civil date-time `c`.
pub open spec fn epoch_seconds_of_civil(c: CivilDateTime) -> int {
    days_from_civil(c.year as int, c.month as int, c.day as int) * 86400 + (c.hour as int) * 3600
        + (c.minute as int) * 60 + (c.second as int)
}

/// Milliseconds since the Unix epoch of the civil date-time `c`.
pub open spec fn epoch_millis_of_civil(c: CivilDateTime) -> int {
    epoch_seconds_of_civil(c) * 1000
}

/// Smallest epoch-second count with a supported civil form
/// (0000-01-01 00:00:00 UTC).
pub const MIN_EPOCH_SECONDS: i64 = -62167219200;

/// Largest epoch-second count with a supported civil form
/// (9999-12-31 23:59:59 UTC).
pub const MAX_EPOCH_SECONDS: i64 = 253402300799;

/// Epoch seconds of 2099-12-31 00:00:00 UTC: integers above this
/// threshold are read as milliseconds, the rest as seconds.
pub const MILLIS_THRESHOLD: i64 = 4102358400;

/// The three named epoch-second constants are what the day-number
/// formula gives for their calendar dates.
pub proof fn lemma_epoch_constants()
    ensures
        MIN_EPOCH_SECONDS == days_from_civil(0, 1, 1) * 86400,
        MAX_EPOCH_SECONDS == days_from_civil(9999, 12, 31) * 86400 + 86399,
        MILLIS_THRESHOLD == days_from_civil(2099, 12, 31) * 86400,
{
    assert(days_from_civil(0, 1, 1) == -719528);
    assert(days_from_civil(9999, 12, 31) == 2932896);
    assert(days_from_civil(2099, 12, 31) == 47481);
}

/// Day-of-era contribution of a year-of-era: its days together with
/// the leap days of the completed years before it.
pub open spec fn gfun(yoe: int) -> int {
    yoe * 365 + yoe / 4 - yoe / 100
}

/// Day of the shifted (March-first) year for calendar month `m` and
/// day `d`.
pub open spec fn doy_of(m: int, d: int) -> int {
    (153 * (if m <= 2 {
        m + 9
    } else {
        m - 3
    }) + 2) / 5 + d - 1
}

proof fn lemma_div_steps(a: int)
    requires
        a >= 0,
    ensures
        (a + 1) / 4 - a / 4 == if (a + 1) % 4 == 0 {
            1int
        } else {
            0int
        },
        (a + 1) / 100 - a / 100 == if (a + 1) % 100 == 0 {
            1int
        } else {
            0int
        },
        (a + 1) % 100 == 0 ==> (a + 1) % 4 == 0,
{
    if (a + 1) % 100 == 0 {
        let q = (a + 1) / 100;
        assert(a + 1 == 100 * q);
        assert((100 * q) % 4 == 0) by (nonlinear_arith);
    }
}

/// One year adds 365 days, or 366 exactly when the next year-of-era
/// is a leap year within its century (year-of-era 400 never arises as
/// a successor here).
proof fn lemma_g_step(a: int)
    requires
        0 <= a <= 398,
    ensures
        365 <= gfun(a + 1) - gfun(a) <= 366,
        (gfun(a + 1) - gfun(a) == 366) <==> ((a + 1) % 4 == 0 && (a + 1) % 100 != 0),
{
    lemma_div_steps(a);
}

/// `gfun` grows by at least 365 per year-of-era.
proof fn lemma_g_mono(a: int, b: int)
    requires
        0 <= a <= b <= 399,
    ensures
        gfun(b) - gfun(a) >= 365 * (b - a),
    decreases b - a,
{
    if a < b {
        lemma_g_step(a);
        lemma_g_mono(a + 1, b);
    }
}

/// Where each month's days fall within the shifted year: the formula
/// base of each month, the month lengths, and the fact that day 365
/// is exactly the leap day.
proof fn lemma_doy_interval(y: int, m: int, d: int)
    requires
        valid_ymd(y, m, d),
    ensures
        0 <= doy_of(m, d) <= 365,
        doy_of(m, d) == 365 ==> m == 2 && d == 29 && is_leap_year(y),
        m == 1 ==> doy_of(m, d) == 306 + d - 1 && d <= 31,
        m == 2 ==> doy_of(m, d) == 337 + d - 1 && d <= 29,
        m == 3 ==> doy_of(m, d) == 0 + d - 1 && d <= 31,
        m == 4 ==> doy_of(m, d) == 31 + d - 1 && d <= 30,
        m == 5 ==> doy_of(m, d) == 61 + d - 1 && d <= 31,
        m == 6 ==> doy_of(m, d) == 92 + d - 1 && d <= 30,
        m == 7 ==> doy_of(m, d) == 122 + d - 1 && d <= 31,
        m == 8 ==> doy_of(m, d) == 153 + d - 1 && d <= 31,
        m == 9 ==> doy_of(m, d) == 184 + d - 1 && d <= 30,
        m == 10 ==> doy_of(m, d) == 214 + d - 1 && d <= 31,
        m == 11 ==> doy_of(m, d) == 245 + d - 1 && d <= 30,
        m == 12 ==> doy_of(m, d) == 275 + d - 1 && d <= 31,
        m >= 3 ==> doy_of(m, d) <= 305,
{
}

/// A day-of-era splits uniquely into a year-of-era and a day of that
/// year, provided day 365 is claimed only for leap years.
proof fn lemma_yoe_unique(a: int, da: int, b: int, db: int)
    requires
        0 <= a <= 399,
        0 <= b <= 399,
        0 <= da <= 365,
        0 <= db <= 365,
        da == 365 ==> ((a + 1) % 4 == 0 && ((a + 1) % 100 != 0 || a + 1 == 400)),
        db == 365 ==> ((b + 1) % 4 == 0 && ((b + 1) % 100 != 0 || b + 1 == 400)),
        gfun(a) + da == gfun(b) + db,
    ensures
        a == b,
        da == db,
{
    if a < b {
        lemma_g_step(a);
        lemma_g_mono(a + 1, b);
        if da == 365 {
            assert(a + 1 <= 399);
            assert((a + 1) % 100 != 0);
            assert(gfun(a + 1) == gfun(a) + 366);
        }
        assert(false);
    }
    if b < a {
        lemma_g_step(b);
        lemma_g_mono(b + 1, a);
        if db == 365 {
            assert(b + 1 <= 399);
            assert((b + 1) % 100 != 0);
            assert(gfun(b + 1) == gfun(b) + 366);
        }
        assert(false);
    }
}

/// No two valid calendar dates share a day number.
pub proof fn lemma_days_from_civil_injective(
    y1: int,
    m1: int,
    d1: int,
    y2: int,
    m2: int,
    d2: int,
)
    requires
        valid_ymd(y1, m1, d1),
        valid_ymd(y2, m2, d2),
        days_from_civil(y1, m1, d1) == days_from_civil(y2, m2, d2),
    ensures
        y1 == y2,
        m1 == m2,
        d1 == d2,
{
    let yy1 = if m1 <= 2 {
        y1 + 399
    } else {
        y1 + 400
    };
    let era1 = yy1 / 400;
    let yoe1 = yy1 % 400;
    let doy1 = doy_of(m1, d1);
    let yy2 = if m2 <= 2 {
        y2 + 399
    } else {
        y2 + 400
    };
    let era2 = yy2 / 400;
    let yoe2 = yy2 % 400;
    let doy2 = doy_of(m2, d2);
    assert(days_from_civil(y1, m1, d1) == era1 * 146097 + gfun(yoe1) + doy1 - 865565);
    assert(days_from_civil(y2, m2, d2) == era2 * 146097 + gfun(yoe2) + doy2 - 865565);
    lemma_doy_interval(y1, m1, d1);
    lemma_doy_interval(y2, m2, d2);
    assert(0 <= yoe1 < 400 && 0 <= yoe2 < 400);
    lemma_g_mono(0, yoe1);
    lemma_g_mono(yoe1, 399);
    lemma_g_mono(0, yoe2);
    lemma_g_mono(yoe2, 399);
    assert(gfun(0) == 0 && gfun(399) == 145731);
    // the day-of-era lies in [0, 146097), so era and day-of-era match
    assert(era1 == era2) by {
        assert(0 <= gfun(yoe1) + doy1 <= 146096);
        assert(0 <= gfun(yoe2) + doy2 <= 146096);
    }
    assert(gfun(yoe1) + doy1 == gfun(yoe2) + doy2);
    // a claimed leap day means the following year-of-era is leap
    if doy1 == 365 {
        assert(y1 == (era1 - 1) * 400 + (yoe1 + 1));
        lemma_mod_shift_multiple(era1 - 1, yoe1 + 1, y1);
    }
    if doy2 == 365 {
        assert(y2 == (era2 - 1) * 400 + (yoe2 + 1));
        lemma_mod_shift_multiple(era2 - 1, yoe2 + 1, y2);
    }
    lemma_yoe_unique(yoe1, doy1, yoe2, doy2);
    assert(m1 == m2);
    assert(d1 == d2);
    assert(yy1 == yy2);
    assert(y1 == y2);
}

/// No two valid civil date-times share an epoch second count.
pub proof fn lemma_epoch_seconds_injective(c1: CivilDateTime, c2: CivilDateTime)
    requires
        valid_civil(c1),
        valid_civil(c2),
        epoch_seconds_of_civil(c1) == epoch_seconds_of_civil(c2),
    ensures
        c1 == c2,
{
    let days1 = days_from_civil(c1.year as int, c1.month as int, c1.day as int);
    let days2 = days_from_civil(c2.year as int, c2.month as int, c2.day as int);
    let tod1 = (c1.hour as int) * 3600 + (c1.minute as int) * 60 + (c1.second as int);
    let tod2 = (c2.hour as int) * 3600 + (c2.minute as int) * 60 + (c2.second as int);
    assert(0 <= tod1 <= 86399 && 0 <= tod2 <= 86399);
    assert(days1 == days2 && tod1 == tod2);
    lemma_days_from_civil_injective(
        c1.year as int,
        c1.month as int,
        c1.day as int,
        c2.year as int,
        c2.month as int,
        c2.day as int,
    );
    assert(c1.hour == c2.hour && c1.minute == c2.minute && c1.second == c2.second);
}

/// Every valid civil date-time has its epoch seconds between those of
/// 0000-01-01 00:00:00 and 9999-12-31 23:59:59.
pub proof fn lemma_epoch_seconds_in_range(c: CivilDateTime)
    requires
        valid_civil(c),
    ensures
        MIN_EPOCH_SECONDS <= epoch_seconds_of_civil(c) <= MAX_EPOCH_SECONDS,
{
    let y = c.year as int;
    let m = c.month as int;
    let d = c.day as int;
    let yy = if m <= 2 {
        y + 399
    } else {
        y + 400
    };
    let era = yy / 400;
    let yoe = yy % 400;
    let doy = doy_of(m, d);
    assert(days_from_civil(y, m, d) == era * 146097 + gfun(yoe) + doy - 865565);
    lemma_doy_interval(y, m, d);
    lemma_g_mono(0, yoe);
    lemma_g_mono(yoe, 399);
    assert(gfun(0) == 0 && gfun(399) == 145731);
    assert(0 <= era <= 25);
    if era == 0 {
        assert(yy == 399);
        assert(m <= 2 && y == 0);
        assert(doy >= 306);
    }
    if era == 25 && m <= 2 {
        assert(yy <= 10398);
        assert(yoe <= 398);
        lemma_g_mono(yoe, 398);
        assert(gfun(398) == 145366);
    }
    assert(-719528 <= days_from_civil(y, m, d) <= 2932896);
}

/// For `y == 400k + r`, the year shares its leap pattern with `r`:
/// the remainders by 4, 100 and 400 agree.
proof fn lemma_mod_shift_multiple(k: int, r: int, y: int)
    requires
        y == 400 * k + r,
        1 <= r <= 400,
        y >= 0,
    ensures
        y % 4 == r % 4,
        y % 100 == r % 100,
        y % 400 == 0 <==> r == 400,
{
    vstd::arithmetic::div_mod::lemma_mod_multiples_vanish(100 * k, r, 4);
    vstd::arithmetic::div_mod::lemma_mod_multiples_vanish(4 * k, r, 100);
    vstd::arithmetic::div_mod::lemma_mod_multiples_vanish(k, r, 400);
    assert(400 * k + r == 4 * (100 * k) + r);
    assert(400 * k + r == 100 * (4 * k) + r);
    if r == 400 {
        assert(r % 400 == 0);
    } else {
        assert(r % 400 == r);
    }
}

/// Computes `days_from_civil` on in-range calendar fields.
pub fn days_from_civil_exec(y: u32, m: u32, d: u32) -> (r: i64)
    requires
        y <= 9999,
        1 <= m <= 12,
        1 <= d <= days_in_month(y as int, m as int),
    ensures
        r == days_from_civil(y as int, m as int, d as int),
        -719528 <= r <= 2932896,
{
    let yy: u64 = if m <= 2 {
        y as u64 + 399
    } else {
        y as u64 + 400
    };
    let mm: u64 = if m <= 2 {
        m as u64 + 9
    } else {
        m as u64 - 3
    };
    let era: u64 = yy / 400;
    let yoe: u64 = yy % 400;
    let doy: u64 = (153 * mm + 2) / 5 + d as u64 - 1;
    let doe: u64 = yoe * 365 + yoe / 4 - yoe / 100 + doy;
    (era * 146097 + doe) as i64 - 865565
}

} // verus!
