//! Calendar dates of the profiling log files: the proleptic Gregorian date
//! of a day count since 1970-01-01, and its `YYYY-MM-DD` form.

use vstd::prelude::*;

use crate::text::{chars_of, decimal, push_char, push_chars, push_decimal};

verus! {

pub open spec fn is_leap_year(y: int) -> bool {
    (y % 4 == 0 && y % 100 != 0) || y % 400 == 0
}

pub open spec fn days_in_year(y: int) -> int {
    if is_leap_year(y) {
        366
    } else {
        365
    }
}

pub open spec fn days_in_month(y: int, m: int) -> int {
    if m == 2 {
        if is_leap_year(y) {
            29
        } else {
            28
        }
    } else if m == 4 || m == 6 || m == 9 || m == 11 {
        30
    } else {
        31
    }
}

/// Days of year `y` before the first of month `m`.
pub open spec fn days_before_month(y: int, m: int) -> int
    decreases m,
{
    if m <= 1 {
        0
    } else {
        days_before_month(y, m - 1) + days_in_month(y, m - 1)
    }
}

/// Days from 1970-01-01 to the first of January of year `y`; negative for
/// years before 1970.
pub open spec fn days_before_year(y: int) -> int
    decreases if y >= 1970 {
        y - 1970
    } else {
        1970 - y
    },
{
    if y > 1970 {
        days_before_year(y - 1) + days_in_year(y - 1)
    } else if y < 1970 {
        days_before_year(y + 1) - days_in_year(y)
    } else {
        0
    }
}

/// The day number of a date: days since 1970-01-01.
pub open spec fn days_since_epoch(y: int, m: int, d: int) -> int {
    days_before_year(y) + days_before_month(y, m) + d - 1
}

/// A date of the proleptic Gregorian calendar (any year, with year 0 and
/// negative years as astronomical years).
pub open spec fn is_valid_date(y: int, m: int, d: int) -> bool {
    1 <= m <= 12 && 1 <= d <= days_in_month(y, m)
}

/// Leap days among years 1..=n.
spec fn leaps(n: int) -> int {
    n / 4 - n / 100 + n / 400
}

proof fn lemma_div_step(y: int, k: int)
    requires
        k > 0,
    ensures
        y / k - (y - 1) / k == if y % k == 0 {
            1int
        } else {
            0int
        },
{
    vstd::arithmetic::div_mod::lemma_fundamental_div_mod(y - 1, k);
    vstd::arithmetic::div_mod::lemma_mod_bound(y - 1, k);
    let p = (y - 1) / k;
    let r = (y - 1) % k;
    assert(y - 1 == p * k + r) by (nonlinear_arith)
        requires
            y - 1 == k * p + r,
    ;
    if r + 1 < k {
        vstd::arithmetic::div_mod::lemma_fundamental_div_mod_converse(y, k, p, r + 1);
    } else {
        assert(y == (p + 1) * k + 0) by (nonlinear_arith)
            requires
                y - 1 == p * k + r,
                r + 1 == k,
        ;
        vstd::arithmetic::div_mod::lemma_fundamental_div_mod_converse(y, k, p + 1, 0);
    }
}

proof fn lemma_leaps_step(y: int)
    ensures
        leaps(y) == leaps(y - 1) + if is_leap_year(y) {
            1int
        } else {
            0int
        },
{
    lemma_div_step(y, 4);
    lemma_div_step(y, 100);
    lemma_div_step(y, 400);
    assert(y % 400 == 0 ==> y % 100 == 0 && y % 4 == 0);
    assert(y % 100 == 0 ==> y % 4 == 0);
}

proof fn lemma_days_before_year_closed(y: int)
    ensures
        days_before_year(y) == 365 * (y - 1970) + leaps(y - 1) - leaps(1969int),
    decreases if y >= 1970 {
        y - 1970
    } else {
        1970 - y
    },
{
    if y > 1970 {
        lemma_days_before_year_closed(y - 1);
        lemma_leaps_step(y - 1);
    } else if y < 1970 {
        lemma_days_before_year_closed(y + 1);
        lemma_leaps_step(y);
    }
}

/// The days of the March-based year `yp` (March of `yp` to February of
/// `yp + 1`) before day `d` of its month `mp` (0 = March .. 11 = February),
/// counted from 0000-03-01.
spec fn march_days(yp: int, mp: int, d: int) -> int {
    365 * yp + leaps(yp) + (153 * mp + 2) / 5 + d - 1
}

proof fn lemma_month_offsets(y: int, m: int)
    requires
        1 <= m <= 12,
    ensures
        m >= 3 ==> days_before_month(y, m) == 59 + (if is_leap_year(y) {
            1int
        } else {
            0int
        }) + (153 * (m - 3) + 2) / 5,
        m == 1 ==> days_before_month(y, m) == 0,
        m == 2 ==> days_before_month(y, m) == 31,
{
    reveal_with_fuel(days_before_month, 13);
}

proof fn lemma_epoch_to_march(y: int, m: int, d: int)
    requires
        1 <= m <= 12,
    ensures
        days_since_epoch(y, m, d) + 719468 == (if m <= 2 {
            march_days(y - 1, m + 9, d)
        } else {
            march_days(y, m - 3, d)
        }),
{
    lemma_days_before_year_closed(y);
    lemma_month_offsets(y, m);
    lemma_leaps_step(y);
    assert(leaps(1969int) == 477);
}

/// The date at day `doe` of era `era` (eras of 400 March-based years,
/// era 0 starting on 0000-03-01).
spec fn civil_of_era(era: int, doe: int) -> (int, int, int) {
    let yoe = (doe - doe / 1460 + doe / 36524 - doe / 146_096) / 365;
    let doy = doe - (365 * yoe + yoe / 4 - yoe / 100);
    let mp = (5 * doy + 2) / 153;
    let d = doy - (153 * mp + 2) / 5 + 1;
    let m = if mp < 10 {
        mp + 3
    } else {
        mp - 9
    };
    let y = yoe + era * 400 + if m <= 2 {
        1int
    } else {
        0int
    };
    (y, m, d)
}

/// The steps of the day-number-to-date computation, over integers.
spec fn civil_steps(days: int) -> (int, int, int) {
    let z = days + 719_468;
    let era = z / 146_097;
    civil_of_era(era, z - era * 146_097)
}

#[verifier::spinoff_prover]
proof fn lemma_civil_of_era(era: int, doe: u32)
    requires
        doe < 146_097,
    ensures
        ({
            let (y, m, d) = civil_of_era(era, doe as int);
            &&& is_valid_date(y, m, d)
            &&& days_since_epoch(y, m, d) + 719_468 == era * 146_097 + doe
        }),
{
    lemma_year_of_era(doe);
    let yoe = (doe - doe / 1460 + doe / 36524 - doe / 146_096) / 365;
    let doy = doe - (365 * yoe + yoe / 4 - yoe / 100);
    let leap = (yoe + 1) % 4 == 0 && ((yoe + 1) % 100 != 0 || yoe == 399);
    lemma_month_of_year(doy as u32, leap);
    let mp = (5 * doy + 2) / 153;
    let d = doy - (153 * mp + 2) / 5 + 1;
    let m = if mp < 10 {
        mp + 3
    } else {
        mp - 9
    };
    let yp = era * 400 + yoe;
    let y = yp + if m <= 2 {
        1int
    } else {
        0int
    };
    assert(civil_of_era(era, doe as int) == (y, m, d));
    assert(is_leap_year(yp + 1) == leap) by {
        assert(yp + 1 == era * 400 + (yoe + 1));
        lemma_leap_in_era(era, yoe + 1);
    }
    assert(d <= days_in_month(y, m)) by {
        if mp == 11 {
            assert(y == yp + 1 && m == 2);
        }
    }
    assert(march_days(yp, mp, d) == era * 146_097 + doe) by {
        lemma_era_days(era, yoe as int);
    }
    lemma_epoch_to_march(y, m, d);
}

/// Whether a year is a leap year does not change by whole eras.
proof fn lemma_leap_in_era(era: int, k: int)
    requires
        0 <= k <= 400,
    ensures
        is_leap_year(era * 400 + k) == ((k % 4 == 0 && k % 100 != 0) || k % 400 == 0),
{
    let n = era * 400 + k;
    vstd::arithmetic::div_mod::lemma_mod_multiples_vanish(era * 100, k, 4);
    vstd::arithmetic::div_mod::lemma_mod_multiples_vanish(era * 4, k, 100);
    vstd::arithmetic::div_mod::lemma_mod_multiples_vanish(era, k, 400);
    assert(n == 4 * (era * 100) + k);
    assert(n == 100 * (era * 4) + k);
    assert(n == 400 * era + k);
}

proof fn lemma_civil_steps(days: int)
    ensures
        is_valid_date(civil_steps(days).0, civil_steps(days).1, civil_steps(days).2),
        days_since_epoch(civil_steps(days).0, civil_steps(days).1, civil_steps(days).2) == days,
{
    let z = days + 719_468;
    let era = z / 146_097;
    vstd::arithmetic::div_mod::lemma_fundamental_div_mod(z, 146_097);
    vstd::arithmetic::div_mod::lemma_mod_bound(z, 146_097);
    let doe = z - era * 146_097;
    assert(0 <= doe < 146_097);
    lemma_civil_of_era(era, doe as u32);
}

/// The date of day number `days` (days since 1970-01-01; negative before).
pub fn civil_from_days(days: i64) -> (r: (i64, u32, u32))
    requires
        days <= i64::MAX - 719_468,
    ensures
        is_valid_date(r.0 as int, r.1 as int, r.2 as int),
        days_since_epoch(r.0 as int, r.1 as int, r.2 as int) == days,
{
    proof {
        lemma_civil_steps(days as int);
    }
    let z = days + 719_468;
    let era = (if z >= 0 {
        z
    } else {
        z - 146_096
    }) / 146_097;
    assert(era == z / 146_097);
    let doe = (z - era * 146_097) as u32;
    let yoe = (doe - doe / 1460 + doe / 36524 - doe / 146_096) / 365;
    proof {
        lemma_year_of_era(doe);
    }
    let y = yoe as i64 + era * 400;
    let doy = doe - (365 * yoe + yoe / 4 - yoe / 100);
    let mp = (5 * doy + 2) / 153;
    let d = doy - (153 * mp + 2) / 5 + 1;
    proof {
        lemma_month_of_year(doy, (yoe + 1) % 4 == 0 && ((yoe + 1) % 100 != 0 || yoe == 399));
    }
    let m = if mp < 10 {
        mp + 3
    } else {
        mp - 9
    };
    let y = if m <= 2 {
        y + 1
    } else {
        y
    };
    assert((y as int, m as int, d as int) == civil_steps(days as int));
    (y, m, d)
}

/// Days before March-based year `yoe` of an era, and the length of that
/// year: Hinnant's year-of-era formula inverts it.
proof fn lemma_year_of_era(doe: u32)
    requires
        doe < 146_097,
    ensures
        ({
            let yoe = (doe - doe / 1460 + doe / 36524 - doe / 146_096) / 365;
            let start = 365 * yoe + yoe / 4 - yoe / 100;
            let leap = (yoe + 1) % 4 == 0 && ((yoe + 1) % 100 != 0 || yoe == 399);
            &&& yoe <= 399
            &&& start <= doe
            &&& doe - start < 365 + if leap {
                1int
            } else {
                0int
            }
        }),
{
}

/// Month and day within a March-based year from the day of that year.
proof fn lemma_month_of_year(doy: u32, leap: bool)
    requires
        doy < 365 + if leap {
            1int
        } else {
            0int
        },
    ensures
        ({
            let mp = (5 * doy + 2) / 153;
            let d = doy - (153 * mp + 2) / 5 + 1;
            &&& mp <= 11
            &&& 1 <= d
            &&& d <= (if mp == 11 {
                if leap {
                    29int
                } else {
                    28int
                }
            } else if mp == 1 || mp == 3 || mp == 6 || mp == 8 {
                30int
            } else {
                31int
            })
        }),
{
}

/// The days before March-based year `era * 400 + yoe`, counted from
/// 0000-03-01, split into whole eras and the years of the era.
proof fn lemma_era_days(era: int, yoe: int)
    requires
        0 <= yoe <= 399,
    ensures
        365 * (era * 400 + yoe) + leaps(era * 400 + yoe) == era * 146_097 + 365 * yoe + yoe / 4 - yoe
            / 100,
{
    let n = era * 400 + yoe;
    vstd::arithmetic::div_mod::lemma_fundamental_div_mod(yoe, 4);
    vstd::arithmetic::div_mod::lemma_fundamental_div_mod(yoe, 100);
    vstd::arithmetic::div_mod::lemma_mod_bound(yoe, 4);
    vstd::arithmetic::div_mod::lemma_mod_bound(yoe, 100);
    assert(n == (era * 100 + yoe / 4) * 4 + yoe % 4);
    assert(n == (era * 4 + yoe / 100) * 100 + yoe % 100);
    assert(n == era * 400 + yoe);
    vstd::arithmetic::div_mod::lemma_fundamental_div_mod_converse(n, 4, era * 100 + yoe / 4, yoe % 4);
    vstd::arithmetic::div_mod::lemma_fundamental_div_mod_converse(
        n,
        100,
        era * 4 + yoe / 100,
        yoe % 100,
    );
    vstd::arithmetic::div_mod::lemma_fundamental_div_mod_converse(n, 400, era, yoe);
}

/// `s` left-padded with zeros to width `w`, as `{:0w}` formats a
/// non-negative number.
pub open spec fn zero_pad(s: Seq<char>, w: nat) -> Seq<char> {
    if s.len() < w {
        Seq::new((w - s.len()) as nat, |i: int| '0') + s
    } else {
        s
    }
}

/// `YYYY-MM-DD`: year, month and day, zero-padded to 4, 2 and 2 digits.
pub open spec fn date_text(y: nat, m: nat, d: nat) -> Seq<char> {
    zero_pad(decimal(y), 4) + "-"@ + zero_pad(decimal(m), 2) + "-"@ + zero_pad(decimal(d), 2)
}

/// Appends `n` in decimal, zero-padded to `width` digits.
fn push_padded(out: &mut String, n: u64, width: usize)
    ensures
        final(out)@ == old(out)@ + zero_pad(decimal(n as nat), width as nat),
{
    let mut digits = String::new();
    push_decimal(&mut digits, n);
    let cs = chars_of(digits.as_str());
    assert(cs@ == decimal(n as nat));
    let mut pad: usize = 0;
    if cs.len() < width {
        pad = width - cs.len();
    }
    let ghost zeros = Seq::new(pad as nat, |i: int| '0');
    let mut k: usize = 0;
    while k < pad
        invariant
            k <= pad,
            zeros == Seq::new(pad as nat, |i: int| '0'),
            out@ == old(out)@ + zeros.take(k as int),
        decreases pad - k,
    {
        push_char(out, '0');
        k += 1;
        assert(zeros.take(k as int) =~= zeros.take(k - 1).push('0'));
    }
    push_chars(out, &cs, 0, cs.len());
    assert(zeros.take(pad as int) =~= zeros);
    assert(cs@.subrange(0, cs.len() as int) =~= cs@);
    assert(old(out)@ + zero_pad(decimal(n as nat), width as nat) =~= old(out)@ + zeros + cs@);
}

/// The date of the day that `secs` seconds after 1970-01-01 falls on, as
/// `YYYY-MM-DD`.
pub fn date_string_from_secs(secs: u64) -> (r: String)
    ensures
        exists|y: int, m: int, d: int|
            y >= 1970 && is_valid_date(y, m, d) && days_since_epoch(y, m, d) == secs / 86400 && r@
                == date_text(
                y as nat,
                m as nat,
                d as nat,
            ),
{
    let days = (secs / 86400) as i64;
    let (y, m, d) = civil_from_days(days);
    proof {
        lemma_day_numbers_from_1970(y as int, m as int, d as int);
    }
    let mut r = String::new();
    push_padded(&mut r, y as u64, 4);
    r.append("-");
    push_padded(&mut r, m as u64, 2);
    r.append("-");
    push_padded(&mut r, d as u64, 2);
    assert(r@ =~= date_text(y as nat, m as nat, d as nat));
    r
}

proof fn lemma_days_before_year_step(y: int)
    ensures
        days_before_year(y + 1) == days_before_year(y) + days_in_year(y),
{
}

proof fn lemma_days_before_year_monotone(a: int, b: int)
    requires
        a <= b,
    ensures
        days_before_year(a) + (b - a) * 365 <= days_before_year(b),
    decreases b - a,
{
    if a < b {
        lemma_days_before_year_monotone(a, b - 1);
        lemma_days_before_year_step(b - 1);
    }
}

proof fn lemma_month_bounds(y: int, m: int)
    requires
        1 <= m <= 12,
    ensures
        days_before_month(y, m) + days_in_month(y, m) == days_before_month(y, m + 1),
        days_before_month(y, 13) == days_in_year(y),
{
    reveal_with_fuel(days_before_month, 14);
}

proof fn lemma_days_before_month_monotone(y: int, j: int, k: int)
    requires
        j <= k,
    ensures
        days_before_month(y, j) <= days_before_month(y, k),
    decreases k - j,
{
    if j < k {
        lemma_days_before_month_monotone(y, j, k - 1);
        if k - 1 >= 1 {
        }
    }
}

/// Dates with a non-negative day number are from 1970 on.
proof fn lemma_day_numbers_from_1970(y: int, m: int, d: int)
    requires
        is_valid_date(y, m, d),
        days_since_epoch(y, m, d) >= 0,
    ensures
        y >= 1970,
{
    if y < 1970 {
        lemma_month_bounds(y, m);
        lemma_days_before_month_monotone(y, m + 1, 13);
        lemma_days_before_year_step(y);
        lemma_days_before_year_monotone(y + 1, 1970);
    }
}

/// A day number names one date: two valid dates with the same day number
/// are the same date.
pub proof fn law_day_number_names_one_date(y1: int, m1: int, d1: int, y2: int, m2: int, d2: int)
    requires
        is_valid_date(y1, m1, d1),
        is_valid_date(y2, m2, d2),
        days_since_epoch(y1, m1, d1) == days_since_epoch(y2, m2, d2),
    ensures
        y1 == y2 && m1 == m2 && d1 == d2,
{
    lemma_month_bounds(y1, m1);
    lemma_month_bounds(y2, m2);
    lemma_days_before_month_monotone(y1, m1 + 1, 13);
    lemma_days_before_month_monotone(y2, m2 + 1, 13);
    lemma_days_before_month_monotone(y1, 1, m1);
    lemma_days_before_month_monotone(y2, 1, m2);
    lemma_days_before_year_step(y1);
    lemma_days_before_year_step(y2);
    if y1 < y2 {
        lemma_days_before_year_monotone(y1 + 1, y2);
    } else if y2 < y1 {
        lemma_days_before_year_monotone(y2 + 1, y1);
    }
    assert(y1 == y2);
    if m1 < m2 {
        lemma_days_before_month_monotone(y1, m1 + 1, m2);
    } else if m2 < m1 {
        lemma_days_before_month_monotone(y1, m2 + 1, m1);
    }
}

/// `civil_from_days` undoes `days_since_epoch`: the day number of a date
/// gives that date back.
pub proof fn law_civil_from_days_round_trip(y: int, m: int, d: int, r: (i64, u32, u32))
    requires
        is_valid_date(y, m, d),
        is_valid_date(r.0 as int, r.1 as int, r.2 as int),
        days_since_epoch(r.0 as int, r.1 as int, r.2 as int) == days_since_epoch(y, m, d),
    ensures
        r.0 == y && r.1 == m && r.2 == d,
{
    law_day_number_names_one_date(r.0 as int, r.1 as int, r.2 as int, y, m, d);
}

} // verus!
