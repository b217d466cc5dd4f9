//! Calendar arithmetic for the `--watch` header: days since the Unix epoch to
//! a proleptic Gregorian date, and the UTC timestamp line.
use vstd::prelude::*;
use crate::strings::{dec, pad_zeros, push_padded, push_str};

verus! {

/// Leap years of the Gregorian calendar.
pub open spec fn is_leap(y: int) -> bool {
    y % 4 == 0 && (y % 100 != 0 || y % 400 == 0)
}

/// Days in month `m` (1 = January) of year `y`.
pub open spec fn month_len(y: int, m: int) -> int {
    if m == 2 {
        if is_leap(y) {
            29
        } else {
            28
        }
    } else if m == 4 || m == 6 || m == 9 || m == 11 {
        30
    } else {
        31
    }
}

/// `(y, m, d)` names a day of the calendar.
pub open spec fn valid_date(y: int, m: int, d: int) -> bool {
    1 <= m <= 12 && 1 <= d <= month_len(y, m)
}

/// Leap years among `1..=n` (counted with floor division, so the count also
/// works below year 1 as an offset).
pub open spec fn leaps_through(n: int) -> int {
    n / 4 - n / 100 + n / 400
}

/// Days from January 1st to the first day of month `m` in a common year.
pub open spec fn days_before_month(m: int) -> int {
    if m == 1 {
        0
    } else if m == 2 {
        31
    } else if m == 3 {
        59
    } else if m == 4 {
        90
    } else if m == 5 {
        120
    } else if m == 6 {
        151
    } else if m == 7 {
        181
    } else if m == 8 {
        212
    } else if m == 9 {
        243
    } else if m == 10 {
        273
    } else if m == 11 {
        304
    } else {
        334
    }
}

/// The number of days from 1970-01-01 to `(y, m, d)`; negative before 1970.
pub open spec fn days_from_civil(y: int, m: int, d: int) -> int {
    365 * (y - 1970) + leaps_through(y - 1) - leaps_through(1969) + days_before_month(m) + (if m
        > 2 && is_leap(y) {
        1int
    } else {
        0int
    }) + d - 1
}

/// The date `days` days after 1970-01-01.
pub open spec fn civil_from_days(days: int) -> (int, int, int) {
    choose|t: (int, int, int)| valid_date(t.0, t.1, t.2) && days_from_civil(t.0, t.1, t.2) == days
}

// Years counted from March: the year that starts on March 1st of `y` ends
// with the February of `y + 1`, so a leap day is always its last day.
spec fn march_start(y: int) -> int {
    365 * y + leaps_through(y)
}

spec fn march_offset(m: int) -> int {
    if m >= 3 {
        days_before_month(m) - 59
    } else {
        days_before_month(m) + 306
    }
}

proof fn lemma_leap_step(y: int)
    ensures
        leaps_through(y) - leaps_through(y - 1) == (if is_leap(y) {
            1int
        } else {
            0int
        }),
{
    assert(y / 4 - (y - 1) / 4 == (if y % 4 == 0 { 1int } else { 0int })) by (nonlinear_arith);
    assert(y / 100 - (y - 1) / 100 == (if y % 100 == 0 { 1int } else { 0int })) by (nonlinear_arith);
    assert(y / 400 - (y - 1) / 400 == (if y % 400 == 0 { 1int } else { 0int })) by (nonlinear_arith);
    assert(y % 400 == 0 ==> y % 100 == 0 && y % 4 == 0) by (nonlinear_arith);
    assert(y % 100 == 0 ==> y % 4 == 0) by (nonlinear_arith);
}

proof fn lemma_civil_march(y: int, m: int, d: int)
    requires
        1 <= m <= 12,
    ensures
        days_from_civil(y, m, d) + 719_468 == march_start(if m <= 2 {
            y - 1
        } else {
            y
        }) + march_offset(m) + d - 1,
{
    lemma_leap_step(y);
    assert(leaps_through(1969) == 477);
}

proof fn lemma_march_step(y: int)
    ensures
        march_start(y + 1) - march_start(y) == 365 + (if is_leap(y + 1) {
            1int
        } else {
            0int
        }),
{
    lemma_leap_step(y + 1);
}

proof fn lemma_era_start(era: int, yoe: int)
    requires
        0 <= yoe < 400,
    ensures
        march_start(400 * era + yoe) == 146_097 * era + 365 * yoe + yoe / 4 - yoe / 100,
        is_leap(400 * era + yoe + 1) == is_leap(yoe + 1),
{
    assert((400 * era + yoe) / 4 == 100 * era + yoe / 4) by (nonlinear_arith)
        requires
            0 <= yoe < 400,
    ;
    assert((400 * era + yoe) / 100 == 4 * era + yoe / 100) by (nonlinear_arith)
        requires
            0 <= yoe < 400,
    ;
    assert((400 * era + yoe) / 400 == era) by (nonlinear_arith)
        requires
            0 <= yoe < 400,
    ;
    assert((400 * era + yoe + 1) % 4 == (yoe + 1) % 4) by (nonlinear_arith);
    assert((400 * era + yoe + 1) % 100 == (yoe + 1) % 100) by (nonlinear_arith);
    assert((400 * era + yoe + 1) % 400 == (yoe + 1) % 400) by (nonlinear_arith);
}

/// The month of a day `doy` days after March 1st, counted as `mp` months
/// after March, and the day within it.
proof fn lemma_month(doy: int)
    requires
        0 <= doy <= 365,
    ensures
        ({
            let mp = (5 * doy + 2) / 153;
            let d = doy - (153 * mp + 2) / 5 + 1;
            let m = if mp < 10 {
                mp + 3
            } else {
                mp - 9
            };
            &&& 0 <= mp <= 11
            &&& march_offset(m) == (153 * mp + 2) / 5
            &&& 1 <= d
            &&& m != 2 ==> d <= month_len(1, m)
            &&& m == 2 ==> d <= 28 || (d == 29 && doy == 365)
        }),
{
    let mp = (5 * doy + 2) / 153;
    assert(153 * mp <= 5 * doy + 2 && 5 * doy + 2 < 153 * mp + 153) by (nonlinear_arith)
        requires
            mp == (5 * doy + 2) / 153,
            0 <= doy,
    ;
    assert(0 <= mp <= 11);
    let q = (153 * mp + 2) / 5;
    assert(5 * q <= 153 * mp + 2 && 153 * mp + 2 < 5 * q + 5) by (nonlinear_arith)
        requires
            q == (153 * mp + 2) / 5,
            0 <= mp,
    ;
    if mp == 0 {
        assert(q == 0);
    } else if mp == 1 {
        assert(q == 31);
    } else if mp == 2 {
        assert(q == 61);
    } else if mp == 3 {
        assert(q == 92);
    } else if mp == 4 {
        assert(q == 122);
    } else if mp == 5 {
        assert(q == 153);
    } else if mp == 6 {
        assert(q == 184);
    } else if mp == 7 {
        assert(q == 214);
    } else if mp == 8 {
        assert(q == 245);
    } else if mp == 9 {
        assert(q == 275);
    } else if mp == 10 {
        assert(q == 306);
    } else {
        assert(q == 337);
    }
}

/// Within a 400-year era, the year-of-era formula finds the March-based year
/// holding day `doe`, and the day within that year is in range; day 365 only
/// occurs in a year ending with a leap day.
proof fn lemma_year_of_era(doe: int)
    requires
        0 <= doe <= 146_096,
    ensures
        ({
            let yoe = (doe - doe / 1460 + doe / 36_524 - doe / 146_096) / 365;
            let doy = doe - (365 * yoe + yoe / 4 - yoe / 100);
            &&& 0 <= yoe <= 399
            &&& 0 <= doy <= 365
            &&& doy == 365 ==> is_leap(yoe + 1)
        }),
{
    if doe == 146_096 {
        assert(doe / 1460 == 100);
        assert(doe / 36_524 == 4);
        assert(doe / 146_096 == 1);
        assert((doe - doe / 1460 + doe / 36_524 - doe / 146_096) / 365 == 399);
        assert(is_leap(400));
    } else {
        let k = doe / 36_524;
        let r = doe % 36_524;
        let b = r / 1461;
        let e = r % 1461;
        assert(doe == 36_524 * k + r && 0 <= r < 36_524) by (nonlinear_arith)
            requires
                k == doe / 36_524,
                r == doe % 36_524,
        ;
        assert(0 <= k <= 3) by (nonlinear_arith)
            requires
                doe == 36_524 * k + r,
                0 <= r < 36_524,
                0 <= doe < 146_096,
        ;
        assert(r == 1461 * b + e && 0 <= e < 1461) by (nonlinear_arith)
            requires
                b == r / 1461,
                e == r % 1461,
                0 <= r,
        ;
        assert(0 <= b <= 24 && (b == 24 ==> e <= 1459)) by (nonlinear_arith)
            requires
                r == 1461 * b + e,
                0 <= e < 1461,
                0 <= r < 36_524,
        ;
        let t = 24 * k + b + e;
        let delta: int = if t >= 1460 {
            1
        } else {
            0
        };
        assert(doe / 1460 == 25 * k + b + delta) by (nonlinear_arith)
            requires
                doe == 36_524 * k + 1461 * b + e,
                t == 24 * k + b + e,
                0 <= t < 2920,
                delta == (if t >= 1460 {
                    1int
                } else {
                    0int
                }),
        ;
        assert(doe / 36_524 == k);
        assert(doe / 146_096 == 0);
        let n = doe - doe / 1460 + doe / 36_524 - doe / 146_096;
        assert(n == 36_500 * k + 1460 * b + e - delta);
        let j: int = if e == 1460 {
            3
        } else {
            e / 365
        };
        assert(0 <= j <= 3 && 365 * j <= e - delta && e - delta < 365 * j + 365) by (nonlinear_arith)
            requires
                0 <= e <= 1460,
                j == (if e == 1460 {
                    3
                } else {
                    e / 365
                }),
                delta == 0 || delta == 1,
                delta == 1 ==> e >= 1364,
                e == 1460 ==> delta == 1,
        ;
        let yoe = n / 365;
        assert(yoe == 100 * k + 4 * b + j) by (nonlinear_arith)
            requires
                n == 36_500 * k + 1460 * b + e - delta,
                365 * j <= e - delta,
                e - delta < 365 * j + 365,
                yoe == n / 365,
        ;
        assert(yoe / 4 == 25 * k + b) by (nonlinear_arith)
            requires
                yoe == 100 * k + 4 * b + j,
                0 <= j <= 3,
        ;
        assert(yoe / 100 == k) by (nonlinear_arith)
            requires
                yoe == 100 * k + 4 * b + j,
                0 <= j <= 3,
                0 <= b <= 24,
        ;
        if e == 1460 {
            assert((yoe + 1) % 4 == 0 && (yoe + 1) % 100 != 0) by (nonlinear_arith)
                requires
                    yoe + 1 == 100 * k + 4 * (b + 1),
                    0 <= b <= 23,
            ;
        }
    }
}

proof fn lemma_march_mono(a: int, b: int)
    requires
        a < b,
    ensures
        march_start(a + 1) <= march_start(b),
    decreases b - a,
{
    if a + 1 < b {
        lemma_march_mono(a, b - 1);
        lemma_march_step(b - 1);
    }
}

/// The offset of a valid date within its March-based year.
proof fn lemma_offset_in_year(y: int, m: int, d: int)
    requires
        valid_date(y, m, d),
    ensures
        ({
            let ym = if m <= 2 {
                y - 1
            } else {
                y
            };
            0 <= march_offset(m) + d - 1 < march_start(ym + 1) - march_start(ym)
        }),
{
    let ym = if m <= 2 {
        y - 1
    } else {
        y
    };
    lemma_march_step(ym);
}

/// Distinct calendar dates are distinct days: `days_from_civil` is one to one
/// on valid dates.
pub proof fn law_civil_dates_unique(y1: int, m1: int, d1: int, y2: int, m2: int, d2: int)
    requires
        valid_date(y1, m1, d1),
        valid_date(y2, m2, d2),
        days_from_civil(y1, m1, d1) == days_from_civil(y2, m2, d2),
    ensures
        y1 == y2 && m1 == m2 && d1 == d2,
{
    let a = if m1 <= 2 {
        y1 - 1
    } else {
        y1
    };
    let b = if m2 <= 2 {
        y2 - 1
    } else {
        y2
    };
    lemma_civil_march(y1, m1, d1);
    lemma_civil_march(y2, m2, d2);
    lemma_offset_in_year(y1, m1, d1);
    lemma_offset_in_year(y2, m2, d2);
    if a < b {
        lemma_march_mono(a, b);
    } else if b < a {
        lemma_march_mono(b, a);
    }
    assert(a == b);
    assert(march_offset(m1) + d1 == march_offset(m2) + d2);
}

/// The day-count algorithm, on mathematical integers: `z` is the number of
/// days since 0000-03-01.
#[verifier::opaque]
spec fn ymd_era(z: int) -> int {
    z / 146_097
}

#[verifier::opaque]
spec fn ymd_doe(z: int) -> int {
    z - ymd_era(z) * 146_097
}

#[verifier::opaque]
spec fn ymd_yoe(z: int) -> int {
    let doe = ymd_doe(z);
    (doe - doe / 1460 + doe / 36_524 - doe / 146_096) / 365
}

#[verifier::opaque]
spec fn ymd_doy(z: int) -> int {
    let yoe = ymd_yoe(z);
    ymd_doe(z) - (365 * yoe + yoe / 4 - yoe / 100)
}

#[verifier::opaque]
spec fn ymd_mp(z: int) -> int {
    (5 * ymd_doy(z) + 2) / 153
}

#[verifier::opaque]
spec fn ymd_day(z: int) -> int {
    ymd_doy(z) - (153 * ymd_mp(z) + 2) / 5 + 1
}

#[verifier::opaque]
spec fn ymd_month(z: int) -> int {
    if ymd_mp(z) < 10 {
        ymd_mp(z) + 3
    } else {
        ymd_mp(z) - 9
    }
}

#[verifier::opaque]
spec fn ymd_year(z: int) -> int {
    ymd_yoe(z) + 400 * ymd_era(z) + (if ymd_month(z) <= 2 {
        1int
    } else {
        0int
    })
}

proof fn lemma_ymd(z: int)
    ensures
        0 <= ymd_doe(z) <= 146_096,
        0 <= ymd_yoe(z) <= 399,
        0 <= ymd_doy(z) <= 365,
        0 <= ymd_mp(z) <= 11,
        1 <= ymd_day(z) <= 31,
        1 <= ymd_month(z) <= 12,
        civil_from_days(z - 719_468) == (ymd_year(z), ymd_month(z), ymd_day(z)),
        valid_date(ymd_year(z), ymd_month(z), ymd_day(z)),
        days_from_civil(ymd_year(z), ymd_month(z), ymd_day(z)) == z - 719_468,
{
    reveal(ymd_era);
    reveal(ymd_doe);
    reveal(ymd_yoe);
    reveal(ymd_doy);
    reveal(ymd_mp);
    reveal(ymd_day);
    reveal(ymd_month);
    reveal(ymd_year);
    let era = ymd_era(z);
    let doe = ymd_doe(z);
    assert(0 <= doe < 146_097) by (nonlinear_arith)
        requires
            era == z / 146_097,
            doe == z - era * 146_097,
    ;
    let yoe = ymd_yoe(z);
    lemma_year_of_era(doe);
    lemma_era_start(era, yoe);
    let doy = ymd_doy(z);
    lemma_month(doy);
    let m = ymd_month(z);
    let d = ymd_day(z);
    let yy = ymd_year(z);
    lemma_civil_march(yy, m, d);
    assert(valid_date(yy, m, d));
    assert(days_from_civil(yy, m, d) == z - 719_468);
    let w = (yy, m, d);
    assert(valid_date(w.0, w.1, w.2) && days_from_civil(w.0, w.1, w.2) == z - 719_468);
    let t = civil_from_days(z - 719_468);
    law_civil_dates_unique(t.0, t.1, t.2, yy, m, d);
}

proof fn lemma_ymd_result(z: int, days: int, year: i32, m: u32, d: u32)
    requires
        z - 719_468 == days,
        year == ymd_year(z) as i32,
        m == ymd_month(z),
        d == ymd_day(z),
    ensures
        ({
            let t = civil_from_days(days);
            &&& valid_date(t.0, t.1, t.2)
            &&& days_from_civil(t.0, t.1, t.2) == days
            &&& year == t.0 as i32
            &&& m == t.1
            &&& d == t.2
        }),
{
    lemma_ymd(z);
}

/// Converts days since 1970-01-01 to the (year, month, day) of the
/// proleptic Gregorian calendar; the year wraps as `as i32` does.
#[verifier::rlimit(50)]
pub fn days_to_ymd(days: i64) -> (res: (i32, u32, u32))
    requires
        days <= i64::MAX - 719_468,
    ensures
        ({
            let t = civil_from_days(days as int);
            &&& valid_date(t.0, t.1, t.2)
            &&& days_from_civil(t.0, t.1, t.2) == days
            &&& res.0 == t.0 as i32
            &&& res.1 == t.1
            &&& res.2 == t.2
        }),
{
    let shifted = days + 719_468;
    let ghost z = shifted as int;
    proof {
        lemma_ymd(z);
    }
    let era = if shifted >= 0 {
        shifted / 146_097
    } else {
        (shifted - 146_096) / 146_097
    };
    assert(era == ymd_era(z)) by {
        reveal(ymd_era);
        assert(era == z / 146_097) by (nonlinear_arith)
            requires
                z < 0 ==> era == -((146_096 - z) / 146_097),
                z >= 0 ==> era == z / 146_097,
        ;
    }
    assert(shifted - era * 146_097 == ymd_doe(z)) by {
        reveal(ymd_doe);
    }
    let doe = (shifted - era * 146_097) as u64;
    let yoe = (doe - doe / 1_460 + doe / 36_524 - doe / 146_096) / 365;
    assert(yoe == ymd_yoe(z)) by {
        reveal(ymd_yoe);
    }
    let y = yoe as i64 + era * 400;
    let doy = doe - (365 * yoe + yoe / 4 - yoe / 100);
    assert(doy == ymd_doy(z)) by {
        reveal(ymd_doy);
    }
    let mp = (5 * doy + 2) / 153;
    assert(mp == ymd_mp(z)) by {
        reveal(ymd_mp);
    }
    let d = (doy - (153 * mp + 2) / 5 + 1) as u32;
    assert(d == ymd_day(z)) by {
        reveal(ymd_day);
    }
    let m = (if mp < 10 {
        mp + 3
    } else {
        mp - 9
    }) as u32;
    assert(m == ymd_month(z)) by {
        reveal(ymd_month);
    }
    let year = (y + (if m <= 2 {
        1
    } else {
        0
    })) as i32;
    assert(y + (if m <= 2 { 1int } else { 0int }) == ymd_year(z)) by {
        reveal(ymd_year);
    }
    proof {
        lemma_ymd_result(z, days as int, year, m, d);
    }
    (year, m, d)
}

/// `n` in decimal, zero-padded to `width` characters after its sign, as
/// `{:0width$}` formats a signed integer.
pub open spec fn signed_padded(n: int, width: nat) -> Seq<char> {
    if n < 0 {
        "-"@ + pad_zeros(dec((-n) as nat), if width > 0 {
            (width - 1) as nat
        } else {
            0
        })
    } else {
        pad_zeros(dec(n as nat), width)
    }
}

fn push_signed_padded(s: &mut String, n: i32, width: usize)
    ensures
        final(s)@ == old(s)@ + signed_padded(n as int, width as nat),
{
    if n < 0 {
        push_str(s, "-");
        let w = if width > 0 {
            width - 1
        } else {
            0
        };
        push_padded(s, (-(n as i64)) as u64, 10, w, false);
    } else {
        push_padded(s, n as u64, 10, width, false);
    }
}

/// The `--watch` header's clock line for `secs` seconds after the epoch:
/// `YYYY-MM-DD hh:mm:ss UTC`.
pub open spec fn timestamp_text(secs: nat) -> Seq<char> {
    let t = civil_from_days((secs / 86_400) as int);
    let ds = secs % 86_400;
    signed_padded((t.0 as i32) as int, 4) + "-"@ + pad_zeros(dec(t.1 as nat), 2) + "-"@ + pad_zeros(
        dec(t.2 as nat),
        2,
    ) + " "@ + pad_zeros(dec(ds / 3600), 2) + ":"@ + pad_zeros(dec((ds / 60) % 60), 2) + ":"@
        + pad_zeros(dec(ds % 60), 2) + " UTC"@
}

/// The UTC date and time `secs` seconds after the Unix epoch, as the
/// `--watch` header shows it.
pub fn utc_timestamp(secs: u64) -> (res: String)
    ensures
        res@ == timestamp_text(secs as nat),
{
    let days = secs / 86_400;
    let day_secs = secs % 86_400;
    let h = day_secs / 3600;
    let m = (day_secs / 60) % 60;
    let s = day_secs % 60;
    let (year, month, day) = days_to_ymd(days as i64);
    let mut out = String::new();
    push_signed_padded(&mut out, year, 4);
    push_str(&mut out, "-");
    push_padded(&mut out, month as u64, 10, 2, false);
    push_str(&mut out, "-");
    push_padded(&mut out, day as u64, 10, 2, false);
    push_str(&mut out, " ");
    push_padded(&mut out, h, 10, 2, false);
    push_str(&mut out, ":");
    push_padded(&mut out, m, 10, 2, false);
    push_str(&mut out, ":");
    push_padded(&mut out, s, 10, 2, false);
    push_str(&mut out, " UTC");
    assert(out@ =~= timestamp_text(secs as nat));
    out
}

} // verus!
