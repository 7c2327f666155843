//! Proleptic Gregorian calendar arithmetic.
//!
//! Two exact inverse conversions: a civil date to its day count since the
//! Unix epoch, and a day count (with seconds) back to a civil date and
//! clock time. Both are closed-form; the backward direction uses the
//! 400-year-era technique anchored at March 1 of year 0.

use vstd::prelude::*;

verus! {

/// Whether `y` is a leap year of the proleptic Gregorian calendar.
pub open spec fn is_leap_year(y: int) -> bool {
    (y % 4 == 0 && y % 100 != 0) || y % 400 == 0
}

/// Day count of month `m` in year `y`.
pub open spec fn days_in_month_of(y: int, m: int) -> int
    recommends
        1 <= m <= 12,
{
    if m == 2 {
        if is_leap_year(y) {
            29
        } else {
            28
        }
    } else if m == 4 || m == 6 || m == 9 || m == 11 {
        30
    } else {
        31
    }
}

/// Days of year `y` that pass before month `m` begins, not counting a
/// possible leap day.
pub open spec fn days_before_month(m: int) -> int
    recommends
        1 <= m <= 12,
{
    if m == 1 {
        0
    } else if m == 2 {
        31
    } else if m == 3 {
        59
    } else if m == 4 {
        90
    } else if m == 5 {
        120
    } else if m == 6 {
        151
    } else if m == 7 {
        181
    } else if m == 8 {
        212
    } else if m == 9 {
        243
    } else if m == 10 {
        273
    } else if m == 11 {
        304
    } else {
        334
    }
}

/// Days from the start of year 0 to the start of year `y`, counting the
/// completed years only: `365*(y-1) + (y-1)/4 - (y-1)/100 + (y-1)/400`.
pub open spec fn days_from_year_zero(y: int) -> int
    recommends
        y >= 1,
{
    365 * (y - 1) + (y - 1) / 4 - (y - 1) / 100 + (y - 1) / 400
}

/// Days between 1970-01-01 and the start of year 0, so that
/// `epoch_days_of_date(1970, 1, 1) == 0`.
pub const DAYS_YEAR_ZERO_TO_EPOCH: u64 = 719162;

/// Signed day count of the civil date `(y, m, d)` relative to 1970-01-01.
pub open spec fn epoch_days_of_date(y: int, m: int, d: int) -> int
    recommends
        valid_civil_date(y, m, d),
{
    days_from_year_zero(y) - (DAYS_YEAR_ZERO_TO_EPOCH as int) + days_before_month(m) + (
    if m > 2 && is_leap_year(y) {
        1int
    } else {
        0int
    }) + (d - 1)
}

/// A well-formed civil date of the proleptic Gregorian calendar.
pub open spec fn valid_civil_date(y: int, m: int, d: int) -> bool {
    &&& 1 <= m <= 12
    &&& 1 <= d <= days_in_month_of(y, m)
    &&& 1 <= y
}

/// Whether `y` is a leap year. Mirrors `is_leap_year`.
pub fn is_leap(year: u64) -> (r: bool)
    ensures
        r == is_leap_year(year as int),
{
    (year % 4 == 0 && year % 100 != 0) || year % 400 == 0
}

/// Days from the start of year 0 to the start of year `y` (completed
/// years only).
pub fn days_from_civil(y: u64) -> (r: u64)
    requires
        1 <= y <= 9999,
    ensures
        r == days_from_year_zero(y as int),
{
    let c = y - 1;
    365 * c + c / 4 + c / 400 - c / 100
}

/// Day count of the civil date `(y, m, d)` since 1970-01-01.
pub fn date_to_days(y: u64, m: u64, d: u64) -> (r: u64)
    requires
        1970 <= y <= 9999,
        1 <= m <= 12,
        1 <= d <= days_in_month_of(y as int, m as int),
    ensures
        r == epoch_days_of_date(y as int, m as int, d as int),
{
    let mut days = days_from_civil(y);
    proof {
        lemma_year_start_in_order(1970, y as int);
        assert(days_from_year_zero(1970) == 719162);
    }
    days = days - DAYS_YEAR_ZERO_TO_EPOCH;
    let before: u64 = if m == 1 {
        0
    } else if m == 2 {
        31
    } else if m == 3 {
        59
    } else if m == 4 {
        90
    } else if m == 5 {
        120
    } else if m == 6 {
        151
    } else if m == 7 {
        181
    } else if m == 8 {
        212
    } else if m == 9 {
        243
    } else if m == 10 {
        273
    } else if m == 11 {
        304
    } else {
        334
    };
    days = days + before;
    if m > 2 && is_leap(y) {
        days = days + 1;
    }
    days + (d - 1)
}

/// Day count of month `m` in year `y`. Mirrors `days_in_month_of`.
pub fn days_in_month(y: u64, m: u64) -> (r: u64)
    requires
        1 <= y,
        1 <= m <= 12,
    ensures
        r == days_in_month_of(y as int, m as int),
{
    if m == 2 {
        if is_leap(y) {
            29
        } else {
            28
        }
    } else if m == 4 || m == 6 || m == 9 || m == 11 {
        30
    } else {
        31
    }
}

/// No day count of a supported civil date overruns the year-9999 bound.
pub proof fn lemma_epoch_days_upper(y: int, m: int, d: int)
    requires
        valid_civil_date(y, m, d),
        y <= 9999,
    ensures
        epoch_days_of_date(y, m, d) < 2_933_000,
{
    lemma_year_start_in_order(y, 9999);
    assert(days_from_year_zero(9999) == 3651694);
}

/// Later years never start earlier: `days_from_year_zero` is monotone.
pub proof fn lemma_year_start_in_order(y1: int, y2: int)
    requires
        1 <= y1 <= y2,
    ensures
        days_from_year_zero(y1) <= days_from_year_zero(y2),
    decreases y2 - y1,
{
    if y1 < y2 {
        lemma_year_start_in_order(y1, y2 - 1);
        lemma_year_length(y2 - 1);
    }
}

/// One year advances the closed-form day count by 365 or 366 days,
/// 366 exactly in a leap year.
proof fn lemma_year_length(y: int)
    requires
        y >= 1,
    ensures
        days_from_year_zero(y + 1) - days_from_year_zero(y) == 365 + if is_leap_year(y) {
            1int
        } else {
            0int
        },
{
    lemma_div_step_up(y - 1, 4);
    lemma_div_step_up(y - 1, 100);
    lemma_div_step_up(y - 1, 400);
}

/// Days of a 400-year era that pass before its March-year `y` begins, for
/// `y` up to 399. A "March-year" runs from March 1 to the last day of the
/// following February, so every leap day falls at a March-year's end.
pub open spec fn era_days_before_march_year(y: int) -> int
    recommends
        0 <= y <= 399,
{
    365 * y + y / 4 - y / 100
}

/// The March-year within its era that the era's day `doe` falls in,
/// recovered by the closed-form rule of the era algorithm.
pub open spec fn march_year_of_era(doe: int) -> int
    recommends
        0 <= doe <= 146096,
{
    (doe - doe / 1460 + doe / 36524 - doe / 146096) / 365
}

/// The month counted from March (0 is March, 11 is February) that the
/// March-year's day `doy` falls in.
pub open spec fn march_month_of_doy(doy: int) -> int
    recommends
        0 <= doy <= 365,
{
    (5 * doy + 2) / 153
}

/// The first day, within a March-year, of the month counted from March.
pub open spec fn march_month_start(mp: int) -> int
    recommends
        0 <= mp <= 11,
{
    (153 * mp + 2) / 5
}

/// Division and remainder at once, from an explicit decomposition.
pub proof fn lemma_div_parts(x: int, d: int, q: int, r: int)
    requires
        d > 0,
        0 <= r < d,
        x == d * q + r,
    ensures
        x / d == q,
        x % d == r,
{
    assert(d * q == q * d) by (nonlinear_arith);
    vstd::arithmetic::div_mod::lemma_fundamental_div_mod_converse(x, d, q, r);
}

/// The closed-form March-year rule is exact: the recovered year is in
/// range, day `doe` lies inside it, and its length is 365 days, or 366
/// exactly when the leap rule grants its February a 29th day.
proof fn lemma_march_year_of_era(doe: int)
    requires
        0 <= doe <= 146096,
    ensures
        ({
            let yoe = march_year_of_era(doe);
            let doy = doe - era_days_before_march_year(yoe);
            &&& 0 <= yoe <= 399
            &&& 0 <= doy <= 365
            &&& (doy == 365 ==> is_leap_year(yoe + 1))
        }),
{
    if doe == 146096 {
        lemma_div_parts(146096, 1460, 100, 96);
        lemma_div_parts(146096, 36524, 4, 0);
        lemma_div_parts(146096, 146096, 1, 0);
        lemma_div_parts(146096 - 100 + 4 - 1, 365, 399, 364);
        lemma_div_parts(399, 4, 99, 3);
        lemma_div_parts(399, 100, 3, 99);
        assert(march_year_of_era(doe) == 399);
        assert(era_days_before_march_year(399) == 145731);
        assert(is_leap_year(400)) by (nonlinear_arith);
    } else {
        lemma_div_parts(doe, 146096, 0, doe);
        let cc = doe / 36524;
        let r2 = doe % 36524;
        vstd::arithmetic::div_mod::lemma_fundamental_div_mod(doe, 36524);
        assert(0 <= r2 < 36524);
        assert(0 <= cc <= 3) by {
            if cc >= 4 {
                assert(doe == 36524 * cc + r2);
            }
            if cc < 0 {
                assert(doe == 36524 * cc + r2);
            }
        }
        let q = r2 / 1461;
        let r1 = r2 % 1461;
        vstd::arithmetic::div_mod::lemma_fundamental_div_mod(r2, 1461);
        assert(0 <= r1 < 1461);
        assert(0 <= q <= 24) by {
            if q >= 25 || q < 0 {
                assert(r2 == 1461 * q + r1);
            }
        }
        let s: int = if r1 == 1460 {
            3
        } else {
            r1 / 365
        };
        let doy = r1 - 365 * s;
        if r1 == 1460 {
            assert(doy == 365);
        } else {
            vstd::arithmetic::div_mod::lemma_fundamental_div_mod(r1, 365);
            assert(0 <= s <= 3) by {
                if s >= 4 || s < 0 {
                    assert(r1 == 365 * s + r1 % 365);
                }
            }
            assert(0 <= doy <= 364);
        }
        // doe laid out over century, four-year block, plain year, and day.
        assert(doe == 36524 * cc + 1461 * q + 365 * s + doy);
        let ystar = 100 * cc + 4 * q + s;
        // The 1460-day rule counts one extra at a completed leap day.
        let t = 24 * cc + q + 365 * s + doy;
        let d1: int = if t >= 1460 {
            1
        } else {
            0
        };
        assert(doe == 1460 * (25 * cc + q + d1) + (t - 1460 * d1));
        lemma_div_parts(doe, 1460, 25 * cc + q + d1, t - 1460 * d1);
        // The 36524-day rule recovers the century exactly here.
        assert(doe / 36524 == cc);
        let adjusted = doe - doe / 1460 + doe / 36524 - doe / 146096;
        assert(adjusted == doe - (25 * cc + q + d1) + cc);
        assert(adjusted == 365 * ystar + (doy - d1));
        assert(d1 == 1 ==> doy >= 269);
        assert(doy == 365 ==> d1 == 1);
        lemma_div_parts(adjusted, 365, ystar, doy - d1);
        assert(march_year_of_era(doe) == ystar);
        // The day-count formula before `ystar`, with its divisions resolved.
        lemma_div_parts(ystar, 4, 25 * cc + q, s);
        lemma_div_parts(ystar, 100, cc, 4 * q + s);
        assert(era_days_before_march_year(ystar) == 365 * ystar + 24 * cc + q);
        assert(doe - era_days_before_march_year(ystar) == doy);
        if doy == 365 {
            // A 366th day occurs only when the following civil year is leap.
            assert(r1 == 1460 && s == 3);
            assert(q <= 23) by {
                if q == 24 {
                    assert(r2 == 1461 * 24 + 1460);
                }
            }
            lemma_div_parts(ystar + 1, 4, 25 * cc + q + 1, 0);
            lemma_div_parts(ystar + 1, 100, cc, 4 * q + 4);
            assert((ystar + 1) % 4 == 0);
            assert((ystar + 1) % 100 == 4 * q + 4);
            assert(is_leap_year(ystar + 1));
        }
    }
}

/// Length of the month counted from March, with a leap-long February.
pub open spec fn march_month_len(mp: int) -> int
    recommends
        0 <= mp <= 11,
{
    if mp == 1 || mp == 3 || mp == 6 || mp == 8 {
        30
    } else if mp == 11 {
        29
    } else {
        31
    }
}

/// The linear month rule is exact: day `doy` of a March-year falls in the
/// recovered month, at a day-of-month within that month's length, and the
/// month's first day stands in the fixed relation to the civil
/// days-before-month table.
proof fn lemma_month_of_doy(doy: int)
    requires
        0 <= doy <= 365,
    ensures
        ({
            let mp = march_month_of_doy(doy);
            let st = march_month_start(mp);
            let d = doy - st + 1;
            &&& 0 <= mp <= 11
            &&& 1 <= d <= march_month_len(mp)
            &&& (mp <= 9 ==> days_before_month(mp + 3) == st + 59)
            &&& (mp >= 10 ==> days_before_month(mp - 9) == st - 306)
            &&& (mp == 11 && doy <= 364 ==> d <= 28)
        }),
{
    if doy <= 30 {
        lemma_div_parts(5 * doy + 2, 153, 0, 5 * doy + 2);
        lemma_div_parts(2, 5, 0, 2);
    } else if doy <= 60 {
        lemma_div_parts(5 * doy + 2, 153, 1, 5 * doy + 2 - 153);
        lemma_div_parts(155, 5, 31, 0);
    } else if doy <= 91 {
        lemma_div_parts(5 * doy + 2, 153, 2, 5 * doy + 2 - 306);
        lemma_div_parts(308, 5, 61, 3);
    } else if doy <= 121 {
        lemma_div_parts(5 * doy + 2, 153, 3, 5 * doy + 2 - 459);
        lemma_div_parts(461, 5, 92, 1);
    } else if doy <= 152 {
        lemma_div_parts(5 * doy + 2, 153, 4, 5 * doy + 2 - 612);
        lemma_div_parts(614, 5, 122, 4);
    } else if doy <= 183 {
        lemma_div_parts(5 * doy + 2, 153, 5, 5 * doy + 2 - 765);
        lemma_div_parts(767, 5, 153, 2);
    } else if doy <= 213 {
        lemma_div_parts(5 * doy + 2, 153, 6, 5 * doy + 2 - 918);
        lemma_div_parts(920, 5, 184, 0);
    } else if doy <= 244 {
        lemma_div_parts(5 * doy + 2, 153, 7, 5 * doy + 2 - 1071);
        lemma_div_parts(1073, 5, 214, 3);
    } else if doy <= 274 {
        lemma_div_parts(5 * doy + 2, 153, 8, 5 * doy + 2 - 1224);
        lemma_div_parts(1226, 5, 245, 1);
    } else if doy <= 305 {
        lemma_div_parts(5 * doy + 2, 153, 9, 5 * doy + 2 - 1377);
        lemma_div_parts(1379, 5, 275, 4);
    } else if doy <= 336 {
        lemma_div_parts(5 * doy + 2, 153, 10, 5 * doy + 2 - 1530);
        lemma_div_parts(1532, 5, 306, 2);
    } else {
        lemma_div_parts(5 * doy + 2, 153, 11, 5 * doy + 2 - 1683);
        lemma_div_parts(1685, 5, 337, 0);
    }
}

/// The leap rule repeats every 400 years.
proof fn lemma_leap_every_400(e: int, k: int)
    ensures
        is_leap_year(400 * e + k) == is_leap_year(k),
{
    vstd::arithmetic::div_mod::lemma_mod_multiples_vanish(100 * e, k, 4);
    vstd::arithmetic::div_mod::lemma_mod_multiples_vanish(4 * e, k, 100);
    vstd::arithmetic::div_mod::lemma_mod_multiples_vanish(e, k, 400);
    assert(4 * (100 * e) == 400 * e) by (nonlinear_arith);
    assert(100 * (4 * e) == 400 * e) by (nonlinear_arith);
}

/// A March-anchored position names one civil date exactly, and the civil
/// day-count formula agrees with the era day count at that date.
proof fn lemma_civil_anchor(e: int, ys: int, doy: int)
    requires
        4 <= e <= 6,
        0 <= ys <= 399,
        0 <= doy <= 365,
        doy == 365 ==> is_leap_year(ys + 1),
    ensures
        ({
            let mp = march_month_of_doy(doy);
            let d = doy - march_month_start(mp) + 1;
            let m = if mp < 10 {
                mp + 3
            } else {
                mp - 9
            };
            let y = 400 * e + ys + if mp >= 10 {
                1int
            } else {
                0int
            };
            &&& valid_civil_date(y, m, d)
            &&& epoch_days_of_date(y, m, d) == 146097 * e + era_days_before_march_year(ys) + doy
                - 719468
        }),
{
    lemma_month_of_doy(doy);
    let mp = march_month_of_doy(doy);
    let st = march_month_start(mp);
    let d = doy - st + 1;
    let m = if mp < 10 {
        mp + 3
    } else {
        mp - 9
    };
    // Residues of the March-year under the 4-, 100- and 400-year rules.
    let cc = ys / 100;
    let rr = ys % 100;
    vstd::arithmetic::div_mod::lemma_fundamental_div_mod(ys, 100);
    assert(0 <= cc <= 3) by {
        if cc >= 4 || cc < 0 {
            assert(ys == 100 * cc + rr);
        }
    }
    let q = rr / 4;
    let s = rr % 4;
    vstd::arithmetic::div_mod::lemma_fundamental_div_mod(rr, 4);
    assert(0 <= q <= 24) by {
        if q >= 25 || q < 0 {
            assert(rr == 4 * q + s);
        }
    }
    assert(ys == 100 * cc + 4 * q + s);
    lemma_div_parts(ys, 4, 25 * cc + q, s);
    assert(era_days_before_march_year(ys) == 365 * ys + 24 * cc + q);
    if mp >= 10 {
        // January or February: the civil year is the one after the
        // March-year's first civil year.
        let y = 400 * e + ys + 1;
        let p = y - 1;
        assert(p == 400 * e + ys);
        lemma_div_parts(p, 4, 100 * e + 25 * cc + q, s);
        lemma_div_parts(p, 100, 4 * e + cc, 4 * q + s);
        lemma_div_parts(p, 400, e, ys);
        assert(days_from_year_zero(y) == 365 * p + (100 * e + 25 * cc + q) - (4 * e + cc) + e);
        if mp == 11 && doy == 365 {
            // A February 29th: the leap rule carries over from the era.
            lemma_leap_every_400(e, ys + 1);
            assert(is_leap_year(y));
        }
        assert(valid_civil_date(y, m, d));
        assert(epoch_days_of_date(y, m, d) == 146097 * e + era_days_before_march_year(ys) + doy
            - 719468);
    } else {
        // March through December: the civil year is the March-year's own.
        let y = 400 * e + ys;
        let p = y - 1;
        // Resolve the completed-year divisions one rule at a time.
        if s >= 1 {
            lemma_div_parts(p, 4, 100 * e + 25 * cc + q, s - 1);
        } else {
            lemma_div_parts(p, 4, 100 * e + 25 * cc + q - 1, 3);
        }
        if 4 * q + s >= 1 {
            lemma_div_parts(p, 100, 4 * e + cc, 4 * q + s - 1);
        } else {
            lemma_div_parts(p, 100, 4 * e + cc - 1, 99);
        }
        if ys >= 1 {
            lemma_div_parts(p, 400, e, ys - 1);
        } else {
            lemma_div_parts(p, 400, e - 1, 399);
        }
        // Whether the March-year's own civil year is leap.
        lemma_leap_every_400(e, ys);
        lemma_div_parts(ys, 100, cc, rr);
        if ys >= 1 {
            vstd::arithmetic::div_mod::lemma_small_mod(ys as nat, 400nat);
        } else {
            vstd::arithmetic::div_mod::lemma_small_mod(0nat, 400nat);
        }
        assert(is_leap_year(y) == ((s == 0 && rr != 0) || ys == 0));
        assert(valid_civil_date(y, m, d));
        assert(epoch_days_of_date(y, m, d) == 146097 * e + era_days_before_march_year(ys) + doy
            - 719468);
    }
}

/// A date's offset into its year lies within the year's length.
proof fn lemma_offset_in_year(y: int, m: int, d: int)
    requires
        valid_civil_date(y, m, d),
    ensures
        0 <= epoch_days_of_date(y, m, d) - (days_from_year_zero(y) - 719162) <= 364 + if is_leap_year(
            y,
        ) {
            1int
        } else {
            0int
        },
{
}

/// The civil day-count formula names each day once: two well-formed
/// dates with one day count are one date.
pub proof fn lemma_epoch_days_injective(y1: int, m1: int, d1: int, y2: int, m2: int, d2: int)
    requires
        valid_civil_date(y1, m1, d1),
        valid_civil_date(y2, m2, d2),
        epoch_days_of_date(y1, m1, d1) == epoch_days_of_date(y2, m2, d2),
    ensures
        y1 == y2,
        m1 == m2,
        d1 == d2,
{
    lemma_offset_in_year(y1, m1, d1);
    lemma_offset_in_year(y2, m2, d2);
    // Years apart give disjoint day-count ranges.
    assert(y1 == y2) by {
        if y1 < y2 {
            lemma_year_length(y1);
            lemma_year_start_in_order(y1 + 1, y2);
        }
        if y2 < y1 {
            lemma_year_length(y2);
            lemma_year_start_in_order(y2 + 1, y1);
        }
    }
    // Within one year, the month intervals of the table tile the year.
    assert(m1 == m2 && d1 == d2);
}

/// No civil date of 1969 or an earlier year lies on or after the epoch day.
proof fn lemma_epoch_days_before_1970(y: int, m: int, d: int)
    requires
        valid_civil_date(y, m, d),
        y <= 1969,
    ensures
        epoch_days_of_date(y, m, d) < 0,
{
    lemma_year_length(y);
    lemma_year_start_in_order(y + 1, 1970);
    assert(days_from_year_zero(1970) == 719162);
}

/// The whole backward conversion is exact: for any day count `z` from the
/// March-1-of-year-0 anchor, the era algorithm names a well-formed civil
/// date on or after 1970 whose civil day-count formula gives back
/// `z - 719468`, the day count since the epoch.
proof fn lemma_civil_from_days(z: int)
    requires
        719468 <= z <= 1022678,
    ensures
        ({
            let era = z / 146097;
            let doe = z - 146097 * era;
            let yoe = march_year_of_era(doe);
            let doy = doe - era_days_before_march_year(yoe);
            let mp = march_month_of_doy(doy);
            let d = doy - march_month_start(mp) + 1;
            let m = if mp < 10 {
                mp + 3
            } else {
                mp - 9
            };
            let y = 400 * era + yoe + if mp >= 10 {
                1int
            } else {
                0int
            };
            &&& valid_civil_date(y, m, d)
            &&& 1970 <= y <= 2800
            &&& epoch_days_of_date(y, m, d) == z - 719468
        }),
{
    let era = z / 146097;
    let doe = z - 146097 * era;
    vstd::arithmetic::div_mod::lemma_fundamental_div_mod(z, 146097);
    assert(4 <= era <= 6) by {
        if era <= 3 || era >= 7 {
            assert(z == 146097 * era + z % 146097);
        }
    }
    assert(0 <= doe <= 146096);
    lemma_march_year_of_era(doe);
    let yoe = march_year_of_era(doe);
    let doy = doe - era_days_before_march_year(yoe);
    lemma_civil_anchor(era, yoe, doy);
    let mp = march_month_of_doy(doy);
    let d = doy - march_month_start(mp) + 1;
    let m = if mp < 10 {
        mp + 3
    } else {
        mp - 9
    };
    let y = 400 * era + yoe + if mp >= 10 {
        1int
    } else {
        0int
    };
    if y <= 1969 {
        lemma_epoch_days_before_1970(y, m, d);
    }
}

/// The largest whole-second timestamp the 54-bit microsecond budget can
/// reach: `(2^54 - 1) / 1_000_000`.
pub const MAX_UNIX_SECS: u64 = 18_014_398_509;

/// Splits a Unix timestamp in seconds into a civil date and a clock time,
/// `(year, month, day, hour, minute, second)`, by the 400-year-era
/// algorithm anchored at March 1 of year 0.
pub fn unix_to_civil(ts: u64) -> (r: (u64, u64, u64, u64, u64, u64))
    requires
        ts <= MAX_UNIX_SECS,
    ensures
        ({
            let (y, m, d, hour, minute, second) = r;
            &&& valid_civil_date(y as int, m as int, d as int)
            &&& 1970 <= y <= 2800
            &&& epoch_days_of_date(y as int, m as int, d as int) == ts as int / 86400
            &&& hour <= 23
            &&& minute <= 59
            &&& second <= 59
            &&& hour * 3600 + minute * 60 + second == ts as int % 86400
        }),
{
    let days = ts / 86400;
    let rem = ts % 86400;
    let hour = rem / 3600;
    let r3 = rem % 3600;
    let minute = r3 / 60;
    let second = r3 % 60;
    proof {
        vstd::arithmetic::div_mod::lemma_fundamental_div_mod(ts as int, 86400);
        vstd::arithmetic::div_mod::lemma_fundamental_div_mod(rem as int, 3600);
        vstd::arithmetic::div_mod::lemma_fundamental_div_mod(r3 as int, 60);
    }
    // Shift the epoch to March 1 of year 0, the start of a 400-year era.
    let z = days + 719468;
    let era = z / 146097;
    let doe = z - 146097 * era;
    proof {
        vstd::arithmetic::div_mod::lemma_fundamental_div_mod(z as int, 146097);
        assert(4 <= era <= 6) by {
            if era <= 3 || era >= 7 {
                assert(z as int == 146097 * (era as int) + z as int % 146097);
            }
        }
    }
    // Year of era by the closed-form rule, then day of that March-year.
    let a1 = doe / 1460;
    let a2 = doe / 36524;
    let a3 = doe / 146096;
    proof {
        vstd::arithmetic::div_mod::lemma_div_nonincreasing(doe as int, 1460);
        vstd::arithmetic::div_mod::lemma_div_nonincreasing(doe as int, 36524);
        if doe < 146096 {
            lemma_div_parts(doe as int, 146096, 0, doe as int);
        } else {
            lemma_div_parts(146096, 1460, 100, 96);
            lemma_div_parts(146096, 146096, 1, 0);
        }
        lemma_march_year_of_era(doe as int);
    }
    let yoe = (doe - a1 + a2 - a3) / 365;
    proof {
        assert(yoe == march_year_of_era(doe as int));
        vstd::arithmetic::div_mod::lemma_div_nonincreasing(yoe as int, 4);
    }
    let doy = doe - (365 * yoe + yoe / 4 - yoe / 100);
    proof {
        lemma_month_of_doy(doy as int);
    }
    // Month counted from March, then the day within it.
    let mp = (5 * doy + 2) / 153;
    let d = doy - (153 * mp + 2) / 5 + 1;
    let m = if mp < 10 {
        mp + 3
    } else {
        mp - 9
    };
    let y = 400 * era + yoe + if m <= 2 {
        1
    } else {
        0
    };
    proof {
        lemma_civil_from_days(z as int);
    }
    (y, m, d, hour, minute, second)
}

/// How integer division by a positive constant moves by one step of the
/// dividend: it gains one exactly at the multiples.
proof fn lemma_div_step_up(x: int, d: int)
    requires
        x >= 0,
        d >= 1,
    ensures
        (x + 1) % d == 0 ==> (x + 1) / d == x / d + 1,
        (x + 1) % d != 0 ==> (x + 1) / d == x / d,
        (x + 1) % d == 0 <==> x % d == d - 1,
{
    let q = x / d;
    let r = x % d;
    vstd::arithmetic::div_mod::lemma_fundamental_div_mod(x, d);
    if r == d - 1 {
        assert((q + 1) * d == q * d + d) by (nonlinear_arith);
        vstd::arithmetic::div_mod::lemma_fundamental_div_mod_converse(x + 1, d, q + 1, 0);
    } else {
        vstd::arithmetic::div_mod::lemma_fundamental_div_mod_converse(x + 1, d, q, r + 1);
    }
}

} // verus!
