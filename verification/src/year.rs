//! The year capability: leap-year test, ISO week count and day count, shared
//! by every year-bearing entity and available for several integer widths.

use vstd::prelude::*;

verus! {

use vstd::arithmetic::div_mod::lemma_fundamental_div_mod;
use vstd::arithmetic::div_mod::lemma_fundamental_div_mod_converse_div;
use vstd::arithmetic::div_mod::lemma_fundamental_div_mod_converse_mod;

/// A year is a leap year iff it is divisible by 4 and, when divisible by 100,
/// also by 400 (proleptic Gregorian rule).
pub open spec fn is_leap_year(y: int) -> bool {
    y % 4 == 0 && (y % 100 != 0 || y % 400 == 0)
}

/// Number of calendar days in the year: 366 in a leap year, else 365.
pub open spec fn days_in_year(y: int) -> int {
    if is_leap_year(y) { 366 } else { 365 }
}

/// ISO week-count helper `p(y) = (y + ⌊y/4⌋ − ⌊y/100⌋ + ⌊y/400⌋) mod 7`,
/// with mathematical (floor) division and a non-negative remainder.
pub open spec fn week_p(y: int) -> int {
    (y + y / 4 - y / 100 + y / 400) % 7
}

/// A year has 53 ISO weeks iff `p(y) == 4` or `p(y − 1) == 3`, else 52.
pub open spec fn weeks_in_year(y: int) -> int {
    if week_p(y) == 4 || week_p(y - 1) == 3 { 53 } else { 52 }
}

/// Floor division for possibly negative numerators, so that the executable
/// code agrees with the mathematical `/` used in the specifications.
pub(crate) fn floor_div(a: i128, b: i128) -> (q: i128)
    requires
        0 < b <= 1000000,
        -1000000000000000000000000 <= a <= 1000000000000000000000000,
    ensures
        q == a as int / b as int,
{
    if a >= 0 {
        let au: u128 = a as u128;
        let bu: u128 = b as u128;
        let q0: u128 = au / bu;
        proof {
            assert(q0 as int <= au as int) by (nonlinear_arith)
                requires
                    q0 == au as int / bu as int,
                    bu >= 1,
                    au >= 0,
            ;
        }
        q0 as i128
    } else {
        let n: u128 = (-a) as u128;
        let bu: u128 = b as u128;
        let q0: u128 = n / bu;
        let r0: u128 = n % bu;
        proof {
            lemma_fundamental_div_mod(n as int, bu as int);
            assert(q0 as int <= n as int) by (nonlinear_arith)
                requires
                    q0 == n as int / bu as int,
                    bu >= 1,
                    n >= 0,
            ;
            if r0 == 0 {
                assert(a as int == (-(q0 as int)) * (b as int) + 0) by (nonlinear_arith)
                    requires
                        n as int == bu as int * (q0 as int) + r0 as int,
                        a as int == -(n as int),
                        bu as int == b as int,
                        r0 == 0,
                ;
                lemma_fundamental_div_mod_converse_div(a as int, b as int, -(q0 as int), 0);
            } else {
                assert(a as int == (-(q0 as int) - 1) * (b as int) + (b as int - r0 as int))
                    by (nonlinear_arith)
                    requires
                        n as int == bu as int * (q0 as int) + r0 as int,
                        a as int == -(n as int),
                        bu as int == b as int,
                ;
                lemma_fundamental_div_mod_converse_div(
                    a as int,
                    b as int,
                    -(q0 as int) - 1,
                    b as int - r0 as int,
                );
            }
        }
        if r0 == 0 {
            -(q0 as i128)
        } else {
            -(q0 as i128) - 1
        }
    }
}

/// Euclidean remainder for possibly negative numerators, agreeing with the
/// mathematical `%` used in the specifications (always in `[0, b)`).
pub(crate) fn mod_euclid(a: i128, b: i128) -> (r: i128)
    requires
        0 < b <= 1000000,
        -1000000000000000000000000 <= a <= 1000000000000000000000000,
    ensures
        r == a as int % b as int,
{
    if a >= 0 {
        let au: u128 = a as u128;
        let bu: u128 = b as u128;
        let m: u128 = au % bu;
        m as i128
    } else {
        let n: u128 = (-a) as u128;
        let bu: u128 = b as u128;
        let m: u128 = n % bu;
        proof {
            lemma_fundamental_div_mod(n as int, bu as int);
            let ghost qq: int = n as int / bu as int;
            if m == 0 {
                assert(a as int == (-qq) * (b as int) + 0) by (nonlinear_arith)
                    requires
                        n as int == bu as int * qq + m as int,
                        a as int == -(n as int),
                        bu as int == b as int,
                        m == 0,
                ;
                lemma_fundamental_div_mod_converse_mod(a as int, b as int, -qq, 0);
            } else {
                assert(a as int == (-qq - 1) * (b as int) + (b as int - m as int))
                    by (nonlinear_arith)
                    requires
                        n as int == bu as int * qq + m as int,
                        a as int == -(n as int),
                        bu as int == b as int,
                ;
                lemma_fundamental_div_mod_converse_mod(
                    a as int,
                    b as int,
                    -qq - 1,
                    b as int - m as int,
                );
            }
        }
        if m == 0 {
            0
        } else {
            b - (m as i128)
        }
    }
}

/// Leap-year test over a wide integer, shared by all `Year` impls.
pub(crate) fn leap_exec(y: i128) -> (r: bool)
    requires
        -1000000000000000000000 <= y <= 1000000000000000000000,
    ensures
        r == is_leap_year(y as int),
{
    let m4: i128 = mod_euclid(y, 4);
    let m100: i128 = mod_euclid(y, 100);
    let m400: i128 = mod_euclid(y, 400);
    m4 == 0 && (m100 != 0 || m400 == 0)
}

/// `week_p` over a wide integer, shared by all `Year` impls.
pub(crate) fn week_p_exec(y: i128) -> (r: i128)
    requires
        -2000000000000000000000 <= y <= 2000000000000000000000,
    ensures
        r == week_p(y as int),
{
    let d4: i128 = floor_div(y, 4);
    let d100: i128 = floor_div(y, 100);
    let d400: i128 = floor_div(y, 400);
    mod_euclid(y + d4 - d100 + d400, 7)
}

/// `weeks_in_year` over a wide integer, shared by all `Year` impls.
pub(crate) fn weeks_exec(y: i128) -> (r: u8)
    requires
        -1000000000000000000000 <= y <= 1000000000000000000000,
    ensures
        r == weeks_in_year(y as int),
{
    let p1: i128 = week_p_exec(y);
    let p0: i128 = week_p_exec(y - 1);
    if p1 == 4 || p0 == 3 {
        53
    } else {
        52
    }
}

/// `days_in_year` over a wide integer, shared by all `Year` impls.
pub(crate) fn days_exec(y: i128) -> (r: u16)
    requires
        -1000000000000000000000 <= y <= 1000000000000000000000,
    ensures
        r == days_in_year(y as int),
{
    if leap_exec(y) {
        366
    } else {
        365
    }
}

/// Capability set of year-like integers: every conversion and validity rule
/// derives what it needs about a year from these three operations, whose
/// results are pinned to the shared mathematical definitions above.
pub trait Year: Sized {
    /// The year as a mathematical integer.
    spec fn year_int(&self) -> int;

    fn is_leap(&self) -> (r: bool)
        ensures
            r == is_leap_year(self.year_int()),
    ;

    fn num_weeks(&self) -> (r: u8)
        ensures
            r == weeks_in_year(self.year_int()),
    ;

    fn num_days(&self) -> (r: u16)
        ensures
            r == days_in_year(self.year_int()),
    ;
}

impl Year for i16 {
    open spec fn year_int(&self) -> int {
        *self as int
    }

    fn is_leap(&self) -> (r: bool) {
        leap_exec(*self as i128)
    }

    fn num_weeks(&self) -> (r: u8) {
        weeks_exec(*self as i128)
    }

    fn num_days(&self) -> (r: u16) {
        days_exec(*self as i128)
    }
}

impl Year for i32 {
    open spec fn year_int(&self) -> int {
        *self as int
    }

    fn is_leap(&self) -> (r: bool) {
        leap_exec(*self as i128)
    }

    fn num_weeks(&self) -> (r: u8) {
        weeks_exec(*self as i128)
    }

    fn num_days(&self) -> (r: u16) {
        days_exec(*self as i128)
    }
}

impl Year for i64 {
    open spec fn year_int(&self) -> int {
        *self as int
    }

    fn is_leap(&self) -> (r: bool) {
        leap_exec(*self as i128)
    }

    fn num_weeks(&self) -> (r: u8) {
        weeks_exec(*self as i128)
    }

    fn num_days(&self) -> (r: u16) {
        days_exec(*self as i128)
    }
}

impl Year for u16 {
    open spec fn year_int(&self) -> int {
        *self as int
    }

    fn is_leap(&self) -> (r: bool) {
        leap_exec(*self as i128)
    }

    fn num_weeks(&self) -> (r: u8) {
        weeks_exec(*self as i128)
    }

    fn num_days(&self) -> (r: u16) {
        days_exec(*self as i128)
    }
}

impl Year for u32 {
    open spec fn year_int(&self) -> int {
        *self as int
    }

    fn is_leap(&self) -> (r: bool) {
        leap_exec(*self as i128)
    }

    fn num_weeks(&self) -> (r: u8) {
        weeks_exec(*self as i128)
    }

    fn num_days(&self) -> (r: u16) {
        days_exec(*self as i128)
    }
}

impl Year for u64 {
    open spec fn year_int(&self) -> int {
        *self as int
    }

    fn is_leap(&self) -> (r: bool) {
        leap_exec(*self as i128)
    }

    fn num_weeks(&self) -> (r: u8) {
        weeks_exec(*self as i128)
    }

    fn num_days(&self) -> (r: u16) {
        days_exec(*self as i128)
    }
}

} // verus!
