//! The round-trip laws of the conversion graph: on valid dates, every
//! composition of conversions that returns to the starting representation
//! is the identity.
//!
//! At the two extreme representable years the rollover at the year boundary
//! saturates instead of leaving `i16`, so the week/ordinal round trips
//! exclude exactly the dates whose rollover saturates (see
//! `ord_to_week_representable` and `week_to_ord_representable`).

use vstd::prelude::*;

verus! {

use vstd::arithmetic::div_mod::lemma_fundamental_div_mod;
use vstd::arithmetic::div_mod::lemma_fundamental_div_mod_converse_div;
use vstd::arithmetic::div_mod::lemma_fundamental_div_mod_converse_mod;
use vstd::arithmetic::div_mod::lemma_mod_multiples_vanish;
use vstd::arithmetic::div_mod::lemma_add_mod_noop_right;
use vstd::arithmetic::div_mod::lemma_mod_bound;
use crate::year::is_leap_year;
use crate::year::days_in_year;
use crate::year::week_p;
use crate::year::weeks_in_year;
use crate::valid::Valid;
use crate::date::YmdDate;
use crate::date::WeekDate;
use crate::date::OrdinalDate;
use crate::date::jan1_gauss;
use crate::date::jan1_iso;
use crate::date::jan4_iso;
use crate::date::iso_weekday;
use crate::date::spec_ymd_to_ord;
use crate::date::spec_ord_to_ymd;
use crate::date::spec_ord_to_week;
use crate::date::spec_week_to_ord;
use crate::date::spec_ymd_to_week;
use crate::date::spec_week_to_ymd;

/// The sum inside `week_p`, before reduction mod 7.
spec fn psum(y: int) -> int {
    y + y / 4 - y / 100 + y / 400
}

/// The leap-year indicator as an integer.
spec fn leap_n(y: int) -> int {
    if is_leap_year(y) {
        1
    } else {
        0
    }
}

/// Evaluates `x % 7` for small non-negative `x`.
proof fn lemma_mod7_small(x: int)
    requires
        0 <= x < 21,
    ensures
        x % 7 == if x < 7 { x } else if x < 14 { x - 7 } else { x - 14 },
{
    if x < 7 {
        lemma_fundamental_div_mod_converse_mod(x, 7, 0, x);
    } else if x < 14 {
        lemma_fundamental_div_mod_converse_mod(x, 7, 1, x - 7);
    } else {
        lemma_fundamental_div_mod_converse_mod(x, 7, 2, x - 14);
    }
}

/// A floor quotient steps by one exactly at the multiples of the divisor.
proof fn lemma_div_step(y: int, k: int)
    requires
        k > 0,
    ensures
        y / k - (y - 1) / k == if y % k == 0 { 1int } else { 0 },
{
    lemma_fundamental_div_mod(y, k);
    lemma_mod_bound(y, k);
    let q = y / k;
    let r = y % k;
    if r == 0 {
        assert(y - 1 == (q - 1) * k + (k - 1)) by (nonlinear_arith)
            requires
                y == k * q + r,
                r == 0,
        ;
        lemma_fundamental_div_mod_converse_div(y - 1, k, q - 1, k - 1);
    } else {
        assert(y - 1 == q * k + (r - 1)) by (nonlinear_arith)
            requires
                y == k * q + r,
        ;
        lemma_fundamental_div_mod_converse_div(y - 1, k, q, r - 1);
    }
}

/// Divisibility by 100 implies divisibility by 4; by 400, by 100.
proof fn lemma_divides(y: int)
    ensures
        y % 100 == 0 ==> y % 4 == 0,
        y % 400 == 0 ==> y % 100 == 0,
{
    if y % 100 == 0 {
        lemma_fundamental_div_mod(y, 100);
        let q = y / 100;
        assert(y == 4 * (25 * q) + 0) by (nonlinear_arith)
            requires
                y == 100 * q + 0,
        ;
        lemma_mod_multiples_vanish(25 * q, 0, 4);
    }
    if y % 400 == 0 {
        lemma_fundamental_div_mod(y, 400);
        let q = y / 400;
        assert(y == 100 * (4 * q) + 0) by (nonlinear_arith)
            requires
                y == 400 * q + 0,
        ;
        lemma_mod_multiples_vanish(4 * q, 0, 100);
    }
}

/// The `week_p` sum grows by one per year, plus one more over a leap year.
proof fn lemma_p_step(y: int)
    ensures
        psum(y) == psum(y - 1) + 1 + leap_n(y),
{
    lemma_div_step(y, 4);
    lemma_div_step(y, 100);
    lemma_div_step(y, 400);
    lemma_divides(y);
}

/// Gauss's 1 January value is the previous year's `week_p` shifted by one.
proof fn lemma_gauss_p(y: int)
    ensures
        jan1_gauss(y) == (week_p(y - 1) + 1) % 7,
{
    let x = y - 1;
    lemma_fundamental_div_mod(x, 4);
    lemma_fundamental_div_mod(x, 100);
    lemma_fundamental_div_mod(x, 400);
    let d4 = x / 4;
    let d100 = x / 100;
    let d400 = x / 400;
    let s = 1 + 5 * (x % 4) + 4 * (x % 100) + 6 * (x % 400);
    let t = 2 * x - 3 * d4 - 57 * d100 - 343 * d400;
    assert(s == 7 * t + (psum(x) + 1));
    lemma_mod_multiples_vanish(t, psum(x) + 1, 7);
    lemma_add_mod_noop_right(1, psum(x), 7);
}

/// Gauss's 1 January value advances by the year's length, mod 7.
proof fn lemma_gauss_step(y: int)
    ensures
        jan1_gauss(y + 1) == (jan1_gauss(y) + days_in_year(y)) % 7,
{
    lemma_gauss_p(y + 1);
    lemma_gauss_p(y);
    lemma_p_step(y);
    lemma_add_mod_noop_right(1, psum(y - 1), 7);
    lemma_add_mod_noop_right(1, psum(y), 7);
    lemma_add_mod_noop_right(days_in_year(y), psum(y - 1) + 1, 7);
    lemma_mod_multiples_vanish(52, psum(y - 1) + 2 + leap_n(y), 7);
}

/// The 52/53-week rule restated over the weekday of 1 January: a year has
/// 53 ISO weeks iff 1 January is a Thursday, or a Wednesday in a leap year.
proof fn lemma_53(y: int)
    ensures
        weeks_in_year(y) == (if jan1_gauss(y) == 4 || (is_leap_year(y) && jan1_gauss(y) == 3) {
            53int
        } else {
            52
        }),
{
    lemma_gauss_p(y);
    lemma_p_step(y);
    lemma_add_mod_noop_right(1, psum(y - 1), 7);
    lemma_add_mod_noop_right(1 + leap_n(y), psum(y - 1), 7);
    let p0 = week_p(y - 1);
    lemma_mod_bound(psum(y - 1), 7);
    lemma_mod7_small(p0 + 1);
    lemma_mod7_small(p0 + 1 + leap_n(y));
}

/// The number of ISO weeks, bracketed by the year's length and the weekday
/// of 4 January.
proof fn lemma_nw_bounds(y: int)
    ensures
        days_in_year(y) + jan4_iso(y) - 7 <= 7 * weeks_in_year(y) <= days_in_year(y) + jan4_iso(
            y,
        ) - 1,
        1 <= jan4_iso(y) <= 7,
        52 <= weeks_in_year(y) <= 53,
{
    lemma_53(y);
    lemma_mod_bound(1 + 5 * ((y - 1) % 4) + 4 * ((y - 1) % 100) + 6 * ((y - 1) % 400), 7);
    lemma_mod7_small(jan1_gauss(y) + 3);
}

/// The week/weekday decomposition is exact: week number times seven, plus
/// the weekday, minus the 4-January anchor, recovers the ordinal day.
proof fn lemma_alg(y: int, d: int)
    ensures
        1 <= iso_weekday(y, d) <= 7,
        7 * ((d - iso_weekday(y, d) + 10) / 7) + iso_weekday(y, d) - (jan4_iso(y) + 3) == d,
{
    let g = jan1_gauss(y);
    lemma_mod_bound(1 + 5 * ((y - 1) % 4) + 4 * ((y - 1) % 100) + 6 * ((y - 1) % 400), 7);
    let j = jan1_iso(y);
    lemma_mod_bound(j + d - 2, 7);
    lemma_fundamental_div_mod(j + d - 2, 7);
    let m = (j + d - 2) % 7;
    let q = (j + d - 2) / 7;
    let wd = iso_weekday(y, d);
    let a = d - wd + 10;
    lemma_mod7_small(g + 3);
    if j <= 4 {
        lemma_fundamental_div_mod_converse_div(a, 7, q + 1, 4 - j);
    } else {
        lemma_fundamental_div_mod_converse_div(a, 7, q, 11 - j);
    }
}

/// The ISO weekday is unchanged when a day count is re-expressed from the
/// following year.
proof fn lemma_wd_shift(y: int, d: int)
    ensures
        iso_weekday(y + 1, d - days_in_year(y)) == iso_weekday(y, d),
{
    lemma_gauss_step(y);
    let g = jan1_gauss(y);
    let g1 = jan1_gauss(y + 1);
    let j = jan1_iso(y);
    let j1 = jan1_iso(y + 1);
    let nd = days_in_year(y);
    // strip the 0-vs-7 offsets of the two ISO values, then shift by nd
    lemma_mod_multiples_vanish(if j1 == 7 && g1 == 0 { 1int } else { 0 }, g1 + (d - nd) - 2, 7);
    assert(j1 + (d - nd) - 2 == 7 * (if j1 == 7 && g1 == 0 { 1int } else { 0 }) + (g1 + (d - nd)
        - 2));
    lemma_add_mod_noop_right(d - nd - 2, g + nd, 7);
    lemma_mod_multiples_vanish(if j == 7 && g == 0 { 1int } else { 0 }, g + d - 2, 7);
    assert(j + d - 2 == 7 * (if j == 7 && g == 0 { 1int } else { 0 }) + (g + d - 2));
}

/// The weekday stored in a week date is recovered from the ordinal day that
/// the week/weekday pair denotes.
proof fn lemma_wd_of_week(y: int, w: int, wdy: int)
    requires
        1 <= wdy <= 7,
    ensures
        iso_weekday(y, 7 * w + wdy - (jan4_iso(y) + 3)) == wdy,
{
    let g = jan1_gauss(y);
    lemma_mod_bound(1 + 5 * ((y - 1) % 4) + 4 * ((y - 1) % 100) + 6 * ((y - 1) % 400), 7);
    let j = jan1_iso(y);
    let j4 = jan4_iso(y);
    lemma_mod7_small(g + 3);
    let d0 = 7 * w + wdy - (j4 + 3);
    if j <= 4 {
        assert(j4 == j + 3);
        assert(j + d0 - 2 == 7 * (w - 1) + (wdy - 1));
        lemma_mod_multiples_vanish(w - 1, wdy - 1, 7);
        lemma_mod7_small(wdy - 1);
    } else {
        assert(j4 == j - 4);
        assert(j + d0 - 2 == 7 * w + (wdy - 1));
        lemma_mod_multiples_vanish(w, wdy - 1, 7);
        lemma_mod7_small(wdy - 1);
    }
}

/// The week form of the ordinal date stays representable: at the two
/// extreme representable years, the date must not belong to the
/// neighbouring ISO year, whose number would leave `i16` (the conversion
/// then saturates and the round trip cannot return).  For every other year
/// this holds trivially.
pub open spec fn ord_to_week_representable(d: OrdinalDate) -> bool {
    let w0 = (d.day - iso_weekday(d.year as int, d.day as int) + 10) / 7;
    (d.year == i16::MIN ==> w0 >= 1) && (d.year == i16::MAX ==> w0 <= weeks_in_year(
        d.year as int,
    ))
}

/// The ordinal form of the week date stays representable: at the two
/// extreme representable years, the day must not fall in the neighbouring
/// calendar year, whose number would leave `i16`.  For every other year
/// this holds trivially.
pub open spec fn week_to_ord_representable(d: WeekDate) -> bool {
    let d0 = 7 * d.week + d.day - (jan4_iso(d.year as int) + 3);
    (d.year == i16::MIN ==> d0 >= 1) && (d.year == i16::MAX ==> d0 <= days_in_year(
        d.year as int,
    ))
}

/// Round trip: a valid calendar date survives conversion to ordinal and
/// back, and its ordinal form is valid.
pub proof fn lemma_ymd_ord_round_trip(d: YmdDate)
    requires
        d.spec_valid(),
    ensures
        spec_ord_to_ymd(spec_ymd_to_ord(d)) == d,
        spec_ymd_to_ord(d).spec_valid(),
{
}

/// Round trip: a valid ordinal date survives conversion to calendar and
/// back, and its calendar form is valid.
pub proof fn lemma_ord_ymd_round_trip(d: OrdinalDate)
    requires
        d.spec_valid(),
    ensures
        spec_ymd_to_ord(spec_ord_to_ymd(d)) == d,
        spec_ord_to_ymd(d).spec_valid(),
{
}

/// Round trip: a valid ordinal date survives conversion to the week form
/// and back, and its week form is valid.
pub proof fn lemma_ord_week_round_trip(d: OrdinalDate)
    requires
        d.spec_valid(),
        ord_to_week_representable(d),
    ensures
        spec_week_to_ord(spec_ord_to_week(d)) == d,
        spec_ord_to_week(d).spec_valid(),
{
    let y = d.year as int;
    let dd = d.day as int;
    let nd = days_in_year(y);
    let wd = iso_weekday(y, dd);
    let w0 = (dd - wd + 10) / 7;
    let nw = weeks_in_year(y);
    lemma_alg(y, dd);
    lemma_nw_bounds(y);
    if w0 < 1 {
        let yb = y - 1;
        lemma_nw_bounds(yb);
        let nwb = weeks_in_year(yb);
        let ddp = days_in_year(yb) + dd;
        lemma_wd_shift(yb, ddp);
        lemma_alg(yb, ddp);
        let w0p = (ddp - wd + 10) / 7;
        assert(w0 == 0);
        assert(7 * w0p == days_in_year(yb) - jan4_iso(y) + jan4_iso(yb));
        assert(7 * nwb - 6 <= 7 * w0p <= 7 * nwb + 6);
        assert(w0p == nwb);
        assert(spec_week_to_ord(spec_ord_to_week(d)) == d);
    } else if w0 > nw {
        let ya = y + 1;
        lemma_nw_bounds(ya);
        let ddm = dd - nd;
        lemma_wd_shift(y, dd);
        lemma_alg(ya, ddm);
        let w0m = (ddm - wd + 10) / 7;
        assert(7 * w0m == 7 * w0 - jan4_iso(y) - nd + jan4_iso(ya));
        assert(7 * w0 >= 7 * nw + 7);
        assert(1 <= 7 * w0m <= 9);
        assert(w0m == 1);
        assert(spec_week_to_ord(spec_ord_to_week(d)) == d);
    } else {
        assert(spec_week_to_ord(spec_ord_to_week(d)) == d);
    }
}

/// Round trip: a valid week date survives conversion to the ordinal form
/// and back, and its ordinal form is valid.
pub proof fn lemma_week_ord_round_trip(d: WeekDate)
    requires
        d.spec_valid(),
        week_to_ord_representable(d),
    ensures
        spec_ord_to_week(spec_week_to_ord(d)) == d,
        spec_week_to_ord(d).spec_valid(),
{
    let y = d.year as int;
    let w = d.week as int;
    let wdy = d.day as int;
    let nd = days_in_year(y);
    let nw = weeks_in_year(y);
    let d0 = 7 * w + wdy - (jan4_iso(y) + 3);
    lemma_wd_of_week(y, w, wdy);
    lemma_nw_bounds(y);
    if d0 < 1 {
        assert(w == 1);
        let yb = y - 1;
        let dp = d0 + days_in_year(yb);
        lemma_nw_bounds(yb);
        lemma_wd_shift(yb, dp);
        lemma_alg(yb, dp);
        let w0p = (dp - wdy + 10) / 7;
        assert(iso_weekday(yb, dp) == wdy);
        assert(7 * w0p == days_in_year(yb) + jan4_iso(yb) + 7 - jan4_iso(y));
        assert(7 * w0p >= 7 * weeks_in_year(yb) + 1);
        assert(w0p > weeks_in_year(yb));
        assert(spec_ord_to_week(spec_week_to_ord(d)) == d);
    } else if d0 > nd {
        assert(7 * w > nd + jan4_iso(y) - 4);
        assert(7 * w >= 7 * nw - 2);
        assert(w == nw);
        let ya = y + 1;
        let dp = d0 - nd;
        lemma_nw_bounds(ya);
        lemma_wd_shift(y, d0);
        lemma_alg(ya, dp);
        let w0m = (dp - wdy + 10) / 7;
        assert(iso_weekday(ya, dp) == wdy);
        assert(7 * w0m == 7 * w - nd - jan4_iso(y) + jan4_iso(ya));
        assert(7 * w0m <= jan4_iso(ya) - 1);
        assert(w0m < 1);
        assert(spec_ord_to_week(spec_week_to_ord(d)) == d);
    } else {
        lemma_alg(y, d0);
        let w0 = (d0 - wdy + 10) / 7;
        assert(7 * w0 == 7 * w);
        assert(spec_ord_to_week(spec_week_to_ord(d)) == d);
    }
}

/// Round trip: a valid calendar date survives the composition through the
/// week form, `YMD(Week(Ordinal(d))) == d`.
pub proof fn lemma_ymd_week_round_trip(d: YmdDate)
    requires
        d.spec_valid(),
        ord_to_week_representable(spec_ymd_to_ord(d)),
    ensures
        spec_week_to_ymd(spec_ymd_to_week(d)) == d,
{
    lemma_ymd_ord_round_trip(d);
    lemma_ord_week_round_trip(spec_ymd_to_ord(d));
}

/// Round trip: a valid week date survives the composition through the
/// calendar form, `Week(Ordinal(YMD-of(d))) == d`.
pub proof fn lemma_week_ymd_round_trip(d: WeekDate)
    requires
        d.spec_valid(),
        week_to_ord_representable(d),
    ensures
        spec_ymd_to_week(spec_week_to_ymd(d)) == d,
{
    lemma_week_ord_round_trip(d);
    lemma_ord_ymd_round_trip(spec_week_to_ord(d));
}

} // verus!
