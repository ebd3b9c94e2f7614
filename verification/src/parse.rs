//! The ISO 8601 textual grammar: dates (calendar, week and ordinal, basic
//! and extended), times with optional fractional seconds and timezone, and
//! combined date-times.
//!
//! Every parser follows the partial-parse contract: on success it returns
//! the value together with the number of bytes consumed, leaving any
//! trailing bytes to the caller; on failure it reports either a syntax error
//! with the offending position, or `Incomplete` when more input could still
//! complete a match.  Alternatives are tried in a fixed order — calendar,
//! week, ordinal — and the first that matches wins; an `Incomplete` from an
//! alternative is reported at once rather than masked by a later one.
//! Parsing checks shape only: out-of-range fields are produced faithfully
//! and left for `Valid` to reject.
//!
//! Each entry point is pinned to a specification-level model of the same
//! grammar (`sp_date`, `sp_time_local`, `sp_time`, `sp_datetime`), which is
//! the authoritative written form of the grammar.

use vstd::prelude::*;

verus! {

use vstd::slice::slice_subrange;
use vstd::string::StringSliceAdditionalSpecFns;
use crate::date::Date;
use crate::date::YmdDate;
use crate::date::WeekDate;
use crate::date::OrdinalDate;
use crate::time::LocalTime;
use crate::time::Time;
use crate::time::DateTime;

/// How a parse failed.
#[derive(PartialEq, Eq, Structural, Clone, Copy, Debug)]
pub enum ParseError {
    /// The input is a proper prefix of some accepted string: more bytes
    /// could complete a match.
    Incomplete,
    /// No extension of the input matches; carries the position of the byte
    /// at which the attempted rule gave up.
    Syntax(usize),
}

/// ASCII decimal digit.
pub open spec fn is_digit(b: u8) -> bool {
    48 <= b && b <= 57
}

/// Value of a digit run, most significant digit first.
pub open spec fn digits_val(s: Seq<u8>) -> int
    decreases s.len(),
{
    if s.len() == 0 {
        0
    } else {
        digits_val(s.drop_last()) * 10 + (s.last() - 48)
    }
}

/// Length of the digit run starting at `i`.
pub open spec fn digit_run_len(s: Seq<u8>, i: int) -> int
    decreases s.len() - i,
{
    if i < 0 || i >= s.len() {
        0
    } else if is_digit(s[i]) {
        1 + digit_run_len(s, i + 1)
    } else {
        0
    }
}

/// Ten to the `n`.
pub open spec fn pow10(n: nat) -> int
    decreases n,
{
    if n == 0 {
        1
    } else {
        10 * pow10((n - 1) as nat)
    }
}

/// A run of exactly `n` digits: its value and the position after it.
pub open spec fn sp_digits(s: Seq<u8>, i: int, n: int) -> Result<(int, int), ParseError> {
    let run = digit_run_len(s, i);
    if run >= n {
        Ok((digits_val(s.subrange(i, i + n)), i + n))
    } else if i + run >= s.len() {
        Err(ParseError::Incomplete)
    } else {
        Err(ParseError::Syntax((i + run) as usize))
    }
}

/// A sign token: `+` is +1; `-`, the Unicode minus sign and the Unicode
/// hyphen are -1.
pub open spec fn sp_sign(s: Seq<u8>, i: int) -> Result<(i8, int), ParseError> {
    if i >= s.len() {
        Err(ParseError::Incomplete)
    } else if s[i] == 43 {
        Ok((1i8, i + 1))
    } else if s[i] == 45 {
        Ok((-1i8, i + 1))
    } else if s[i] == 226 {
        if i + 1 >= s.len() {
            Err(ParseError::Incomplete)
        } else if s[i + 1] == 136 {
            if i + 2 >= s.len() {
                Err(ParseError::Incomplete)
            } else if s[i + 2] == 146 {
                Ok((-1i8, i + 3))
            } else {
                Err(ParseError::Syntax((i + 2) as usize))
            }
        } else if s[i + 1] == 128 {
            if i + 2 >= s.len() {
                Err(ParseError::Incomplete)
            } else if s[i + 2] == 144 {
                Ok((-1i8, i + 3))
            } else {
                Err(ParseError::Syntax((i + 2) as usize))
            }
        } else {
            Err(ParseError::Syntax((i + 1) as usize))
        }
    } else {
        Err(ParseError::Syntax(i as usize))
    }
}

/// A year: an optional sign, then four digits.
pub open spec fn sp_year(s: Seq<u8>, i: int) -> Result<(i16, int), ParseError> {
    match sp_sign(s, i) {
        Ok((sg, j)) => match sp_digits(s, j, 4) {
            Ok((v, k)) => Ok((((sg as int) * v) as i16, k)),
            Err(e) => Err(e),
        },
        Err(ParseError::Incomplete) => Err(ParseError::Incomplete),
        Err(ParseError::Syntax(_)) => match sp_digits(s, i, 4) {
            Ok((v, k)) => Ok((v as i16, k)),
            Err(e) => Err(e),
        },
    }
}

/// After the year: `-MM-DD` (extended) or `MMDD` (basic).
pub open spec fn sp_cal_tail(s: Seq<u8>, j: int, yr: i16) -> Result<(YmdDate, int), ParseError> {
    if j >= s.len() {
        Err(ParseError::Incomplete)
    } else if s[j] == 45 {
        match sp_digits(s, j + 1, 2) {
            Ok((mm, k)) => if k >= s.len() {
                Err(ParseError::Incomplete)
            } else if s[k] == 45 {
                match sp_digits(s, k + 1, 2) {
                    Ok((dd, l)) => Ok(
                        (YmdDate { year: yr, month: mm as u8, day: dd as u8 }, l),
                    ),
                    Err(e) => Err(e),
                }
            } else {
                Err(ParseError::Syntax(k as usize))
            },
            Err(e) => Err(e),
        }
    } else {
        match sp_digits(s, j, 2) {
            Ok((mm, k)) => match sp_digits(s, k, 2) {
                Ok((dd, l)) => Ok((YmdDate { year: yr, month: mm as u8, day: dd as u8 }, l)),
                Err(e) => Err(e),
            },
            Err(e) => Err(e),
        }
    }
}

/// After the year: `-Www-D` (extended) or `WwwD` (basic).
pub open spec fn sp_week_tail(s: Seq<u8>, j: int, yr: i16) -> Result<(WeekDate, int), ParseError> {
    if j >= s.len() {
        Err(ParseError::Incomplete)
    } else {
        let ext = s[j] == 45;
        let j2 = if ext { j + 1 } else { j };
        if j2 >= s.len() {
            Err(ParseError::Incomplete)
        } else if s[j2] != 87 {
            Err(ParseError::Syntax(j2 as usize))
        } else {
            match sp_digits(s, j2 + 1, 2) {
                Ok((ww, k)) => if ext {
                    if k >= s.len() {
                        Err(ParseError::Incomplete)
                    } else if s[k] != 45 {
                        Err(ParseError::Syntax(k as usize))
                    } else {
                        match sp_digits(s, k + 1, 1) {
                            Ok((dd, l)) => Ok(
                                (WeekDate { year: yr, week: ww as u8, day: dd as u8 }, l),
                            ),
                            Err(e) => Err(e),
                        }
                    }
                } else {
                    match sp_digits(s, k, 1) {
                        Ok((dd, l)) => Ok(
                            (WeekDate { year: yr, week: ww as u8, day: dd as u8 }, l),
                        ),
                        Err(e) => Err(e),
                    }
                },
                Err(e) => Err(e),
            }
        }
    }
}

/// After the year: `-DDD` (extended) or `DDD` (basic).
pub open spec fn sp_ord_tail(s: Seq<u8>, j: int, yr: i16) -> Result<
    (OrdinalDate, int),
    ParseError,
> {
    if j >= s.len() {
        Err(ParseError::Incomplete)
    } else {
        let j2 = if s[j] == 45 { j + 1 } else { j };
        match sp_digits(s, j2, 3) {
            Ok((dd, l)) => Ok((OrdinalDate { year: yr, day: dd as u16 }, l)),
            Err(e) => Err(e),
        }
    }
}

/// A date: a year, then the calendar, week and ordinal alternatives tried
/// in that order; the first whose shape matches wins, and an `Incomplete`
/// is reported at once.
pub open spec fn sp_date(s: Seq<u8>, i: int) -> Result<(Date, int), ParseError> {
    match sp_year(s, i) {
        Err(e) => Err(e),
        Ok((yr, j)) => match sp_cal_tail(s, j, yr) {
            Ok((d, k)) => Ok((Date::YMD(d), k)),
            Err(ParseError::Incomplete) => Err(ParseError::Incomplete),
            Err(ParseError::Syntax(_)) => match sp_week_tail(s, j, yr) {
                Ok((d, k)) => Ok((Date::Week(d), k)),
                Err(ParseError::Incomplete) => Err(ParseError::Incomplete),
                Err(ParseError::Syntax(_)) => match sp_ord_tail(s, j, yr) {
                    Ok((d, k)) => Ok((Date::Ordinal(d), k)),
                    Err(e) => Err(e),
                },
            },
        },
    }
}

/// Nanoseconds denoted by a fraction's digit run: the first nine digits
/// scaled up to nine places; digits beyond the ninth are consumed but add
/// nothing.
pub open spec fn frac_nanos(s: Seq<u8>) -> int {
    let k = if s.len() > 9 { 9int } else { s.len() as int };
    digits_val(s.subrange(0, k)) * pow10((9 - k) as nat)
}

/// A fraction: a literal `.`, then at least one digit.
pub open spec fn sp_frac(s: Seq<u8>, i: int) -> Result<(u32, int), ParseError> {
    if i >= s.len() {
        Err(ParseError::Incomplete)
    } else if s[i] != 46 {
        Err(ParseError::Syntax(i as usize))
    } else if i + 1 >= s.len() {
        Err(ParseError::Incomplete)
    } else if !is_digit(s[i + 1]) {
        Err(ParseError::Syntax((i + 1) as usize))
    } else {
        let run = digit_run_len(s, i + 1);
        Ok((frac_nanos(s.subrange(i + 1, i + 1 + run)) as u32, i + 1 + run))
    }
}

/// Builds a local time from parsed fields.
pub open spec fn sp_local(h: int, m: int, sec: int, ns: u32) -> LocalTime {
    LocalTime { hour: h as u8, minute: m as u8, second: sec as u8, nanos: ns }
}

/// A local time: `hh[:mm[:ss[.f…]]]` or the basic `hh[mm[ss[.f…]]]`;
/// missing trailing fields default to 0.
pub open spec fn sp_time_local(s: Seq<u8>, i: int) -> Result<(LocalTime, int), ParseError> {
    match sp_digits(s, i, 2) {
        Err(e) => Err(e),
        Ok((hh, j)) => if j >= s.len() {
            Ok((sp_local(hh, 0, 0, 0), j))
        } else if s[j] == 58 {
            match sp_digits(s, j + 1, 2) {
                Err(e) => Err(e),
                Ok((mm, k)) => if k >= s.len() {
                    Ok((sp_local(hh, mm, 0, 0), k))
                } else if s[k] == 58 {
                    match sp_digits(s, k + 1, 2) {
                        Err(e) => Err(e),
                        Ok((ss, l)) => if l < s.len() && s[l] == 46 {
                            match sp_frac(s, l) {
                                Ok((ns, m)) => Ok((sp_local(hh, mm, ss, ns), m)),
                                Err(e) => Err(e),
                            }
                        } else {
                            Ok((sp_local(hh, mm, ss, 0), l))
                        },
                    }
                } else {
                    Ok((sp_local(hh, mm, 0, 0), k))
                },
            }
        } else if is_digit(s[j]) {
            match sp_digits(s, j, 2) {
                Err(e) => Err(e),
                Ok((mm, k)) => if k < s.len() && is_digit(s[k]) {
                    match sp_digits(s, k, 2) {
                        Err(e) => Err(e),
                        Ok((ss, l)) => if l < s.len() && s[l] == 46 {
                            match sp_frac(s, l) {
                                Ok((ns, m)) => Ok((sp_local(hh, mm, ss, ns), m)),
                                Err(e) => Err(e),
                            }
                        } else {
                            Ok((sp_local(hh, mm, ss, 0), l))
                        },
                    }
                } else {
                    Ok((sp_local(hh, mm, 0, 0), k))
                },
            }
        } else {
            Ok((sp_local(hh, 0, 0, 0), j))
        },
    }
}

/// A time: a local time, then an optional timezone — `Z`/`z` for UTC, or a
/// signed `hh[[:]mm]` offset; a missing timezone means offset 0.
pub open spec fn sp_time(s: Seq<u8>, i: int) -> Result<(Time, int), ParseError> {
    match sp_time_local(s, i) {
        Err(e) => Err(e),
        Ok((loc, j)) => if j >= s.len() {
            Ok((Time { local: loc, tz_offset: 0 }, j))
        } else if s[j] == 90 || s[j] == 122 {
            Ok((Time { local: loc, tz_offset: 0 }, j + 1))
        } else {
            match sp_sign(s, j) {
                Err(ParseError::Incomplete) => Err(ParseError::Incomplete),
                Err(ParseError::Syntax(_)) => Ok((Time { local: loc, tz_offset: 0 }, j)),
                Ok((sg, k)) => match sp_digits(s, k, 2) {
                    Err(e) => Err(e),
                    Ok((oh, l)) => if l < s.len() && s[l] == 58 {
                        match sp_digits(s, l + 1, 2) {
                            Err(e) => Err(e),
                            Ok((om, m)) => Ok(
                                (
                                    Time {
                                        local: loc,
                                        tz_offset: ((sg as int) * (oh * 60 + om)) as i16,
                                    },
                                    m,
                                ),
                            ),
                        }
                    } else if l < s.len() && is_digit(s[l]) {
                        match sp_digits(s, l, 2) {
                            Err(e) => Err(e),
                            Ok((om, m)) => Ok(
                                (
                                    Time {
                                        local: loc,
                                        tz_offset: ((sg as int) * (oh * 60 + om)) as i16,
                                    },
                                    m,
                                ),
                            ),
                        }
                    } else {
                        Ok((Time { local: loc, tz_offset: ((sg as int) * (oh * 60)) as i16 }, l))
                    },
                },
            }
        },
    }
}

/// A date-time: a date, a `T`/`t`/blank separator, then a time.
pub open spec fn sp_datetime(s: Seq<u8>, i: int) -> Result<(DateTime, int), ParseError> {
    match sp_date(s, i) {
        Err(e) => Err(e),
        Ok((d, j)) => if j >= s.len() {
            Err(ParseError::Incomplete)
        } else if s[j] == 84 || s[j] == 116 || s[j] == 32 {
            match sp_time(s, j + 1) {
                Err(e) => Err(e),
                Ok((t, k)) => Ok((DateTime { date: d, time: t }, k)),
            }
        } else {
            Err(ParseError::Syntax(j as usize))
        },
    }
}

proof fn lemma_pow10_vals()
    ensures
        pow10(0) == 1,
        pow10(1) == 10,
        pow10(2) == 100,
        pow10(3) == 1000,
        pow10(4) == 10000,
        pow10(5) == 100000,
        pow10(6) == 1000000,
        pow10(7) == 10000000,
        pow10(8) == 100000000,
        pow10(9) == 1000000000,
{
    reveal_with_fuel(pow10, 11);
}

proof fn lemma_pow10_mono(a: nat, b: nat)
    requires
        a <= b,
    ensures
        1 <= pow10(a) <= pow10(b),
    decreases b,
{
    if b == 0 {
    } else if a == b {
        lemma_pow10_mono((a - 1) as nat, (b - 1) as nat);
    } else {
        lemma_pow10_mono(a, (b - 1) as nat);
    }
}

proof fn lemma_pow10_add(a: nat, b: nat)
    ensures
        pow10(a + b) == pow10(a) * pow10(b),
    decreases a,
{
    if a == 0 {
    } else {
        lemma_pow10_add((a - 1) as nat, b);
        assert(pow10((a + b - 1) as nat) == pow10((a - 1) as nat) * pow10(b));
        assert(pow10(a) * pow10(b) == 10 * pow10((a - 1) as nat) * pow10(b))
            by (nonlinear_arith)
            requires
                pow10(a) == 10 * pow10((a - 1) as nat),
        ;
        assert(10 * (pow10((a - 1) as nat) * pow10(b)) == 10 * pow10((a - 1) as nat) * pow10(
            b,
        )) by (nonlinear_arith);
    }
}

/// A digit run is never negative in length.
proof fn lemma_run_nonneg(s: Seq<u8>, i: int)
    ensures
        digit_run_len(s, i) >= 0,
    decreases s.len() - i,
{
    if 0 <= i && i < s.len() && is_digit(s[i]) {
        lemma_run_nonneg(s, i + 1);
    }
}

/// The digit run starting at `i` has length exactly `k`.
proof fn lemma_digit_run(s: Seq<u8>, i: int, k: int)
    requires
        0 <= i,
        0 <= k,
        i + k <= s.len(),
        forall|t: int| i <= t < i + k ==> is_digit(#[trigger] s[t]),
        i + k == s.len() || !is_digit(s[i + k]),
    ensures
        digit_run_len(s, i) == k,
    decreases k,
{
    if k > 0 {
        assert(is_digit(s[i]));
        lemma_digit_run(s, i + 1, k - 1);
    }
}

/// The digit run starting at `i` has length at least `k`.
proof fn lemma_digit_run_at_least(s: Seq<u8>, i: int, k: int)
    requires
        0 <= i,
        0 <= k,
        i + k <= s.len(),
        forall|t: int| i <= t < i + k ==> is_digit(#[trigger] s[t]),
    ensures
        digit_run_len(s, i) >= k,
    decreases k,
{
    if k > 0 {
        assert(is_digit(s[i]));
        lemma_digit_run_at_least(s, i + 1, k - 1);
    } else {
        lemma_run_nonneg(s, i);
    }
}

/// Accumulates a run of ASCII digits into an integer, most significant
/// digit first, by repeated multiply-by-ten and add.
pub fn buf_to_int(buf: &[u8]) -> (r: u32)
    requires
        forall|k: int| 0 <= k < buf@.len() ==> is_digit(#[trigger] buf@[k]),
        buf@.len() <= 9,
    ensures
        r == digits_val(buf@),
        r < pow10(buf@.len() as nat),
{
    let mut sum: u32 = 0;
    let mut idx: usize = 0;
    proof {
        assert(buf@.subrange(0, 0) =~= Seq::<u8>::empty());
    }
    while idx < buf.len()
        invariant
            idx <= buf@.len() <= 9,
            forall|k: int| 0 <= k < buf@.len() ==> is_digit(#[trigger] buf@[k]),
            sum == digits_val(buf@.subrange(0, idx as int)),
            sum < pow10(idx as nat),
        decreases buf@.len() - idx,
    {
        proof {
            lemma_pow10_mono(idx as nat, 8);
            lemma_pow10_vals();
        }
        let d: u8 = buf[idx];
        assert(is_digit(buf@[idx as int]));
        sum = sum * 10 + ((d - 48) as u32);
        idx = idx + 1;
        proof {
            assert(buf@.subrange(0, idx as int).drop_last() =~= buf@.subrange(0, idx - 1));
            assert(buf@.subrange(0, idx as int).last() == buf@[idx - 1]);
        }
    }
    proof {
        assert(buf@.subrange(0, buf@.len() as int) =~= buf@);
    }
    sum
}

/// A run of exactly `n` digits starting at `i`, as a number.
fn digits(s: &[u8], i: usize, n: usize) -> (r: Result<(u32, usize), ParseError>)
    requires
        i <= s@.len(),
        1 <= n <= 9,
    ensures
        match r {
            Ok((v, j)) => sp_digits(s@, i as int, n as int) == Ok::<(int, int), ParseError>(
                (v as int, j as int),
            ) && j == i + n && j <= s@.len() && v < pow10(n as nat),
            Err(e) => sp_digits(s@, i as int, n as int) == Err::<(int, int), ParseError>(e),
        },
{
    let slen: usize = s.len();
    let mut k: usize = 0;
    while k < n
        invariant
            k <= n <= 9,
            i <= s@.len(),
            i + k <= slen,
            slen == s@.len(),
            forall|t: int| i <= t < i + k ==> is_digit(#[trigger] s@[t]),
        decreases n - k,
    {
        if i + k >= slen {
            proof {
                lemma_digit_run(s@, i as int, k as int);
            }
            return Err(ParseError::Incomplete);
        }
        let b: u8 = s[i + k];
        if !(b >= 48 && b <= 57) {
            proof {
                lemma_digit_run(s@, i as int, k as int);
            }
            return Err(ParseError::Syntax(i + k));
        }
        k = k + 1;
    }
    proof {
        lemma_digit_run_at_least(s@, i as int, n as int);
    }
    let sub: &[u8] = slice_subrange(s, i, i + n);
    let v: u32 = buf_to_int(sub);
    Ok((v, i + n))
}

/// A sign token at position `i`.
fn sign_at(s: &[u8], i: usize) -> (r: Result<(i8, usize), ParseError>)
    requires
        i <= s@.len(),
    ensures
        match r {
            Ok((v, j)) => sp_sign(s@, i as int) == Ok::<(i8, int), ParseError>((v, j as int))
                && j <= s@.len() && (v == 1i8 || v == -1i8),
            Err(e) => sp_sign(s@, i as int) == Err::<(i8, int), ParseError>(e),
        },
{
    if i >= s.len() {
        return Err(ParseError::Incomplete);
    }
    let b: u8 = s[i];
    if b == 43 {
        Ok((1, i + 1))
    } else if b == 45 {
        Ok((-1, i + 1))
    } else if b == 226 {
        if i + 1 >= s.len() {
            return Err(ParseError::Incomplete);
        }
        let b1: u8 = s[i + 1];
        if b1 == 136 {
            if i + 2 >= s.len() {
                return Err(ParseError::Incomplete);
            }
            if s[i + 2] == 146 {
                Ok((-1, i + 3))
            } else {
                Err(ParseError::Syntax(i + 2))
            }
        } else if b1 == 128 {
            if i + 2 >= s.len() {
                return Err(ParseError::Incomplete);
            }
            if s[i + 2] == 144 {
                Ok((-1, i + 3))
            } else {
                Err(ParseError::Syntax(i + 2))
            }
        } else {
            Err(ParseError::Syntax(i + 1))
        }
    } else {
        Err(ParseError::Syntax(i))
    }
}

/// The sign token at the start of the input: `+` is +1; `-` and its Unicode
/// variants are -1.
pub fn sign(s: &[u8]) -> (r: Result<(i8, usize), ParseError>)
    ensures
        match r {
            Ok((v, j)) => sp_sign(s@, 0) == Ok::<(i8, int), ParseError>((v, j as int)),
            Err(e) => sp_sign(s@, 0) == Err::<(i8, int), ParseError>(e),
        },
{
    sign_at(s, 0)
}

/// A year at position `i`: an optional sign, then four digits.
fn year_at(s: &[u8], i: usize) -> (r: Result<(i16, usize), ParseError>)
    requires
        i <= s@.len(),
    ensures
        match r {
            Ok((v, j)) => sp_year(s@, i as int) == Ok::<(i16, int), ParseError>((v, j as int))
                && j <= s@.len(),
            Err(e) => sp_year(s@, i as int) == Err::<(i16, int), ParseError>(e),
        },
{
    match sign_at(s, i) {
        Ok((sg, j)) => match digits(s, j, 4) {
            Ok((v, k)) => {
                proof {
                    lemma_pow10_vals();
                }
                let vi: i16 = v as i16;
                let y: i16 = if sg < 0 {
                    -vi
                } else {
                    vi
                };
                Ok((y, k))
            },
            Err(e) => Err(e),
        },
        Err(ParseError::Incomplete) => Err(ParseError::Incomplete),
        Err(ParseError::Syntax(_)) => match digits(s, i, 4) {
            Ok((v, k)) => {
                proof {
                    lemma_pow10_vals();
                }
                Ok((v as i16, k))
            },
            Err(e) => Err(e),
        },
    }
}

/// The calendar alternative after the year.
fn cal_tail(s: &[u8], j: usize, yr: i16) -> (r: Result<(YmdDate, usize), ParseError>)
    requires
        j <= s@.len(),
    ensures
        match r {
            Ok((v, k)) => sp_cal_tail(s@, j as int, yr) == Ok::<(YmdDate, int), ParseError>(
                (v, k as int),
            ) && k <= s@.len(),
            Err(e) => sp_cal_tail(s@, j as int, yr) == Err::<(YmdDate, int), ParseError>(e),
        },
{
    if j >= s.len() {
        return Err(ParseError::Incomplete);
    }
    proof {
        lemma_pow10_vals();
    }
    if s[j] == 45 {
        let (mm, k): (u32, usize) = match digits(s, j + 1, 2) {
            Ok(p) => p,
            Err(e) => { return Err(e); },
        };
        if k >= s.len() {
            return Err(ParseError::Incomplete);
        }
        if s[k] == 45 {
            let (dd, l): (u32, usize) = match digits(s, k + 1, 2) {
                Ok(p) => p,
                Err(e) => { return Err(e); },
            };
            Ok((YmdDate { year: yr, month: mm as u8, day: dd as u8 }, l))
        } else {
            Err(ParseError::Syntax(k))
        }
    } else {
        let (mm, k): (u32, usize) = match digits(s, j, 2) {
            Ok(p) => p,
            Err(e) => { return Err(e); },
        };
        let (dd, l): (u32, usize) = match digits(s, k, 2) {
            Ok(p) => p,
            Err(e) => { return Err(e); },
        };
        Ok((YmdDate { year: yr, month: mm as u8, day: dd as u8 }, l))
    }
}

/// The week alternative after the year.
fn week_tail(s: &[u8], j: usize, yr: i16) -> (r: Result<(WeekDate, usize), ParseError>)
    requires
        j <= s@.len(),
    ensures
        match r {
            Ok((v, k)) => sp_week_tail(s@, j as int, yr) == Ok::<(WeekDate, int), ParseError>(
                (v, k as int),
            ) && k <= s@.len(),
            Err(e) => sp_week_tail(s@, j as int, yr) == Err::<(WeekDate, int), ParseError>(e),
        },
{
    if j >= s.len() {
        return Err(ParseError::Incomplete);
    }
    proof {
        lemma_pow10_vals();
    }
    let ext: bool = s[j] == 45;
    let j2: usize = if ext {
        j + 1
    } else {
        j
    };
    if j2 >= s.len() {
        return Err(ParseError::Incomplete);
    }
    if s[j2] != 87 {
        return Err(ParseError::Syntax(j2));
    }
    let (ww, k): (u32, usize) = match digits(s, j2 + 1, 2) {
        Ok(p) => p,
        Err(e) => { return Err(e); },
    };
    if ext {
        if k >= s.len() {
            return Err(ParseError::Incomplete);
        }
        if s[k] != 45 {
            return Err(ParseError::Syntax(k));
        }
        let (dd, l): (u32, usize) = match digits(s, k + 1, 1) {
            Ok(p) => p,
            Err(e) => { return Err(e); },
        };
        Ok((WeekDate { year: yr, week: ww as u8, day: dd as u8 }, l))
    } else {
        let (dd, l): (u32, usize) = match digits(s, k, 1) {
            Ok(p) => p,
            Err(e) => { return Err(e); },
        };
        Ok((WeekDate { year: yr, week: ww as u8, day: dd as u8 }, l))
    }
}

/// The ordinal alternative after the year.
fn ord_tail(s: &[u8], j: usize, yr: i16) -> (r: Result<(OrdinalDate, usize), ParseError>)
    requires
        j <= s@.len(),
    ensures
        match r {
            Ok((v, k)) => sp_ord_tail(s@, j as int, yr) == Ok::<(OrdinalDate, int), ParseError>(
                (v, k as int),
            ) && k <= s@.len(),
            Err(e) => sp_ord_tail(s@, j as int, yr) == Err::<(OrdinalDate, int), ParseError>(e),
        },
{
    if j >= s.len() {
        return Err(ParseError::Incomplete);
    }
    proof {
        lemma_pow10_vals();
    }
    let j2: usize = if s[j] == 45 {
        j + 1
    } else {
        j
    };
    let (dd, l): (u32, usize) = match digits(s, j2, 3) {
        Ok(p) => p,
        Err(e) => { return Err(e); },
    };
    Ok((OrdinalDate { year: yr, day: dd as u16 }, l))
}

/// A date at position `i`.
fn date_at(s: &[u8], i: usize) -> (r: Result<(Date, usize), ParseError>)
    requires
        i <= s@.len(),
    ensures
        match r {
            Ok((v, j)) => sp_date(s@, i as int) == Ok::<(Date, int), ParseError>((v, j as int))
                && j <= s@.len(),
            Err(e) => sp_date(s@, i as int) == Err::<(Date, int), ParseError>(e),
        },
{
    let (yr, j): (i16, usize) = match year_at(s, i) {
        Ok(p) => p,
        Err(e) => { return Err(e); },
    };
    match cal_tail(s, j, yr) {
        Ok((d, k)) => { return Ok((Date::YMD(d), k)); },
        Err(ParseError::Incomplete) => { return Err(ParseError::Incomplete); },
        Err(ParseError::Syntax(_)) => {},
    }
    match week_tail(s, j, yr) {
        Ok((d, k)) => { return Ok((Date::Week(d), k)); },
        Err(ParseError::Incomplete) => { return Err(ParseError::Incomplete); },
        Err(ParseError::Syntax(_)) => {},
    }
    match ord_tail(s, j, yr) {
        Ok((d, k)) => Ok((Date::Ordinal(d), k)),
        Err(e) => Err(e),
    }
}

/// Parses an ISO 8601 date from the start of `s`, returning the date and
/// the number of bytes consumed (trailing bytes are left to the caller).
pub fn date(s: &[u8]) -> (r: Result<(Date, usize), ParseError>)
    ensures
        match r {
            Ok((v, j)) => sp_date(s@, 0) == Ok::<(Date, int), ParseError>((v, j as int)) && j
                <= s@.len(),
            Err(e) => sp_date(s@, 0) == Err::<(Date, int), ParseError>(e),
        },
{
    date_at(s, 0)
}

/// The position right after the digit run starting at `i`.
fn digit_run_end(s: &[u8], i: usize) -> (e: usize)
    requires
        i <= s@.len(),
    ensures
        i <= e <= s@.len(),
        e as int == i + digit_run_len(s@, i as int),
{
    let mut e: usize = i;
    while e < s.len() && s[e] >= 48 && s[e] <= 57
        invariant
            i <= e <= s@.len(),
            forall|t: int| i <= t < e ==> is_digit(#[trigger] s@[t]),
        decreases s@.len() - e,
    {
        e = e + 1;
    }
    proof {
        lemma_digit_run(s@, i as int, e - i);
    }
    e
}

/// A fraction at position `i`: nanoseconds and the position after the run.
fn frac_at(s: &[u8], i: usize) -> (r: Result<(u32, usize), ParseError>)
    requires
        i <= s@.len(),
    ensures
        match r {
            Ok((v, j)) => sp_frac(s@, i as int) == Ok::<(u32, int), ParseError>((v, j as int))
                && j <= s@.len(),
            Err(e) => sp_frac(s@, i as int) == Err::<(u32, int), ParseError>(e),
        },
{
    if i >= s.len() {
        return Err(ParseError::Incomplete);
    }
    if s[i] != 46 {
        return Err(ParseError::Syntax(i));
    }
    if i + 1 >= s.len() {
        return Err(ParseError::Incomplete);
    }
    let b1: u8 = s[i + 1];
    if !(b1 >= 48 && b1 <= 57) {
        return Err(ParseError::Syntax(i + 1));
    }
    let e: usize = digit_run_end(s, i + 1);
    let run: usize = e - (i + 1);
    let k: usize = if run > 9 {
        9
    } else {
        run
    };
    proof {
        assert(is_digit(s@[i + 1]));
        lemma_digit_run_at_least(s@, i + 1, 1);
        lemma_run_digits(s@, i + 1, digit_run_len(s@, i + 1));
    }
    let sub: &[u8] = slice_subrange(s, i + 1, i + 1 + k);
    let v: u32 = buf_to_int(sub);
    let scale: u32 = pow10_exec((9 - k) as usize);
    proof {
        lemma_pow10_add(k as nat, (9 - k) as nat);
        lemma_pow10_vals();
        assert(v * scale < 1000000000) by (nonlinear_arith)
            requires
                v < pow10(k as nat),
                scale == pow10((9 - k) as nat),
                pow10(k as nat) * pow10((9 - k) as nat) == 1000000000,
                scale >= 1,
                v >= 0,
        ;
        assert(s@.subrange(i + 1, i + 1 + run).subrange(0, k as int) =~= s@.subrange(
            i + 1,
            i + 1 + k,
        ));
    }
    let ns: u32 = v * scale;
    Ok((ns, e))
}

/// Every position inside the digit run holds a digit.
proof fn lemma_run_digits(s: Seq<u8>, i: int, k: int)
    requires
        0 <= i <= s.len(),
        k == digit_run_len(s, i),
    ensures
        i + k <= s.len(),
        forall|t: int| i <= t < i + k ==> is_digit(#[trigger] s[t]),
    decreases k,
{
    if k > 0 {
        lemma_run_digits(s, i + 1, digit_run_len(s, i + 1));
    }
}

/// Ten to the `n`, for small `n`.
fn pow10_exec(n: usize) -> (r: u32)
    requires
        n <= 9,
    ensures
        r == pow10(n as nat),
{
    proof {
        lemma_pow10_vals();
    }
    if n == 0 {
        1
    } else if n == 1 {
        10
    } else if n == 2 {
        100
    } else if n == 3 {
        1000
    } else if n == 4 {
        10000
    } else if n == 5 {
        100000
    } else if n == 6 {
        1000000
    } else if n == 7 {
        10000000
    } else if n == 8 {
        100000000
    } else {
        1000000000
    }
}

/// A local time at position `i`.
fn time_local_at(s: &[u8], i: usize) -> (r: Result<(LocalTime, usize), ParseError>)
    requires
        i <= s@.len(),
    ensures
        match r {
            Ok((v, j)) => sp_time_local(s@, i as int) == Ok::<(LocalTime, int), ParseError>(
                (v, j as int),
            ) && j <= s@.len(),
            Err(e) => sp_time_local(s@, i as int) == Err::<(LocalTime, int), ParseError>(e),
        },
{
    let (hh, j): (u32, usize) = match digits(s, i, 2) {
        Ok(p) => p,
        Err(e) => { return Err(e); },
    };
    proof {
        lemma_pow10_vals();
    }
    if j >= s.len() {
        return Ok((LocalTime { hour: hh as u8, minute: 0, second: 0, nanos: 0 }, j));
    }
    let bj: u8 = s[j];
    if bj == 58 {
        let (mm, k): (u32, usize) = match digits(s, j + 1, 2) {
            Ok(p) => p,
            Err(e) => { return Err(e); },
        };
        if k >= s.len() {
            return Ok((LocalTime { hour: hh as u8, minute: mm as u8, second: 0, nanos: 0 }, k));
        }
        if s[k] == 58 {
            let (ss, l): (u32, usize) = match digits(s, k + 1, 2) {
                Ok(p) => p,
                Err(e) => { return Err(e); },
            };
            if l < s.len() {
                if s[l] == 46 {
                    let (ns, m): (u32, usize) = match frac_at(s, l) {
                        Ok(p) => p,
                        Err(e) => { return Err(e); },
                    };
                    return Ok(
                        (
                            LocalTime {
                                hour: hh as u8,
                                minute: mm as u8,
                                second: ss as u8,
                                nanos: ns,
                            },
                            m,
                        ),
                    );
                }
            }
            return Ok(
                (LocalTime { hour: hh as u8, minute: mm as u8, second: ss as u8, nanos: 0 }, l),
            );
        }
        return Ok((LocalTime { hour: hh as u8, minute: mm as u8, second: 0, nanos: 0 }, k));
    }
    if bj >= 48 && bj <= 57 {
        let (mm, k): (u32, usize) = match digits(s, j, 2) {
            Ok(p) => p,
            Err(e) => { return Err(e); },
        };
        if k < s.len() {
            let bk: u8 = s[k];
            if bk >= 48 && bk <= 57 {
                let (ss, l): (u32, usize) = match digits(s, k, 2) {
                    Ok(p) => p,
                    Err(e) => { return Err(e); },
                };
                if l < s.len() {
                    if s[l] == 46 {
                        let (ns, m): (u32, usize) = match frac_at(s, l) {
                            Ok(p) => p,
                            Err(e) => { return Err(e); },
                        };
                        return Ok(
                            (
                                LocalTime {
                                    hour: hh as u8,
                                    minute: mm as u8,
                                    second: ss as u8,
                                    nanos: ns,
                                },
                                m,
                            ),
                        );
                    }
                }
                return Ok(
                    (
                        LocalTime { hour: hh as u8, minute: mm as u8, second: ss as u8, nanos: 0 },
                        l,
                    ),
                );
            }
        }
        return Ok((LocalTime { hour: hh as u8, minute: mm as u8, second: 0, nanos: 0 }, k));
    }
    Ok((LocalTime { hour: hh as u8, minute: 0, second: 0, nanos: 0 }, j))
}

/// Parses a local time from the start of `s`.
pub fn time_local(s: &[u8]) -> (r: Result<(LocalTime, usize), ParseError>)
    ensures
        match r {
            Ok((v, j)) => sp_time_local(s@, 0) == Ok::<(LocalTime, int), ParseError>(
                (v, j as int),
            ) && j <= s@.len(),
            Err(e) => sp_time_local(s@, 0) == Err::<(LocalTime, int), ParseError>(e),
        },
{
    time_local_at(s, 0)
}

/// A time with optional timezone at position `i`.
fn time_at(s: &[u8], i: usize) -> (r: Result<(Time, usize), ParseError>)
    requires
        i <= s@.len(),
    ensures
        match r {
            Ok((v, j)) => sp_time(s@, i as int) == Ok::<(Time, int), ParseError>((v, j as int))
                && j <= s@.len(),
            Err(e) => sp_time(s@, i as int) == Err::<(Time, int), ParseError>(e),
        },
{
    let (loc, j): (LocalTime, usize) = match time_local_at(s, i) {
        Ok(p) => p,
        Err(e) => { return Err(e); },
    };
    if j >= s.len() {
        return Ok((Time { local: loc, tz_offset: 0 }, j));
    }
    let bj: u8 = s[j];
    if bj == 90 || bj == 122 {
        return Ok((Time { local: loc, tz_offset: 0 }, j + 1));
    }
    let (sg, k): (i8, usize) = match sign_at(s, j) {
        Ok(p) => p,
        Err(ParseError::Incomplete) => { return Err(ParseError::Incomplete); },
        Err(ParseError::Syntax(_)) => { return Ok((Time { local: loc, tz_offset: 0 }, j)); },
    };
    let (oh, l): (u32, usize) = match digits(s, k, 2) {
        Ok(p) => p,
        Err(e) => { return Err(e); },
    };
    proof {
        lemma_pow10_vals();
    }
    if l < s.len() {
        if s[l] == 58 {
            let (om, m): (u32, usize) = match digits(s, l + 1, 2) {
                Ok(p) => p,
                Err(e) => { return Err(e); },
            };
            let abs: u32 = oh * 60 + om;
            let off: i16 = if sg < 0 {
                -(abs as i16)
            } else {
                abs as i16
            };
            proof {
                assert(off as int == (sg as int) * ((oh as int) * 60 + (om as int)));
                assert(sp_time(s@, i as int) is Ok);
                assert(sp_time(s@, i as int)->Ok_0.0.tz_offset as int == (sg as int) * ((
                oh as int) * 60 + (om as int)));
            }
            return Ok((Time { local: loc, tz_offset: off }, m));
        }
        let bl: u8 = s[l];
        if bl >= 48 && bl <= 57 {
            let (om, m): (u32, usize) = match digits(s, l, 2) {
                Ok(p) => p,
                Err(e) => { return Err(e); },
            };
            let abs: u32 = oh * 60 + om;
            let off: i16 = if sg < 0 {
                -(abs as i16)
            } else {
                abs as i16
            };
            proof {
                assert(off as int == (sg as int) * ((oh as int) * 60 + (om as int)));
                assert(sp_time(s@, i as int) is Ok);
                assert(sp_time(s@, i as int)->Ok_0.0.tz_offset as int == (sg as int) * ((
                oh as int) * 60 + (om as int)));
            }
            return Ok((Time { local: loc, tz_offset: off }, m));
        }
    }
    let abs: u32 = oh * 60;
    let off: i16 = if sg < 0 {
        -(abs as i16)
    } else {
        abs as i16
    };
    proof {
        assert(off as int == (sg as int) * ((oh as int) * 60));
        assert(sp_time(s@, i as int) is Ok);
        assert(sp_time(s@, i as int)->Ok_0.0.tz_offset as int == (sg as int) * ((oh as int)
            * 60));
    }
    Ok((Time { local: loc, tz_offset: off }, l))
}

/// Parses a time (with optional timezone) from the start of `s`.
pub fn time(s: &[u8]) -> (r: Result<(Time, usize), ParseError>)
    ensures
        match r {
            Ok((v, j)) => sp_time(s@, 0) == Ok::<(Time, int), ParseError>((v, j as int)) && j
                <= s@.len(),
            Err(e) => sp_time(s@, 0) == Err::<(Time, int), ParseError>(e),
        },
{
    time_at(s, 0)
}

/// A date-time at position `i`.
fn datetime_at(s: &[u8], i: usize) -> (r: Result<(DateTime, usize), ParseError>)
    requires
        i <= s@.len(),
    ensures
        match r {
            Ok((v, j)) => sp_datetime(s@, i as int) == Ok::<(DateTime, int), ParseError>(
                (v, j as int),
            ) && j <= s@.len(),
            Err(e) => sp_datetime(s@, i as int) == Err::<(DateTime, int), ParseError>(e),
        },
{
    let (d, j): (Date, usize) = match date_at(s, i) {
        Ok(p) => p,
        Err(e) => { return Err(e); },
    };
    if j >= s.len() {
        return Err(ParseError::Incomplete);
    }
    let bj: u8 = s[j];
    if bj == 84 || bj == 116 || bj == 32 {
        let (t, k): (Time, usize) = match time_at(s, j + 1) {
            Ok(p) => p,
            Err(e) => { return Err(e); },
        };
        return Ok((DateTime { date: d, time: t }, k));
    }
    Err(ParseError::Syntax(j))
}

/// Parses a date-time from the start of `s`.
pub fn datetime(s: &[u8]) -> (r: Result<(DateTime, usize), ParseError>)
    ensures
        match r {
            Ok((v, j)) => sp_datetime(s@, 0) == Ok::<(DateTime, int), ParseError>((v, j as int))
                && j <= s@.len(),
            Err(e) => sp_datetime(s@, 0) == Err::<(DateTime, int), ParseError>(e),
        },
{
    datetime_at(s, 0)
}

impl Date {
    /// Strict entry point: the whole input must parse as a date; all error
    /// detail is collapsed into a single failure signal.
    pub fn from_str(s: &str) -> (r: Result<Date, ()>)
        ensures
            r == (match sp_date(s.spec_bytes(), 0) {
                Ok((d, j)) => if j == s.spec_bytes().len() {
                    Ok::<Date, ()>(d)
                } else {
                    Err::<Date, ()>(())
                },
                Err(_) => Err::<Date, ()>(()),
            }),
    {
        let b: &[u8] = s.as_bytes();
        match date(b) {
            Ok((d, j)) => if j == b.len() {
                Ok(d)
            } else {
                Err(())
            },
            Err(_) => Err(()),
        }
    }
}

impl LocalTime {
    /// Strict entry point: the whole input must parse as a local time.
    pub fn from_str(s: &str) -> (r: Result<LocalTime, ()>)
        ensures
            r == (match sp_time_local(s.spec_bytes(), 0) {
                Ok((t, j)) => if j == s.spec_bytes().len() {
                    Ok::<LocalTime, ()>(t)
                } else {
                    Err::<LocalTime, ()>(())
                },
                Err(_) => Err::<LocalTime, ()>(()),
            }),
    {
        let b: &[u8] = s.as_bytes();
        match time_local(b) {
            Ok((t, j)) => if j == b.len() {
                Ok(t)
            } else {
                Err(())
            },
            Err(_) => Err(()),
        }
    }
}

impl Time {
    /// Strict entry point: the whole input must parse as a time.
    pub fn from_str(s: &str) -> (r: Result<Time, ()>)
        ensures
            r == (match sp_time(s.spec_bytes(), 0) {
                Ok((t, j)) => if j == s.spec_bytes().len() {
                    Ok::<Time, ()>(t)
                } else {
                    Err::<Time, ()>(())
                },
                Err(_) => Err::<Time, ()>(()),
            }),
    {
        let b: &[u8] = s.as_bytes();
        match time(b) {
            Ok((t, j)) => if j == b.len() {
                Ok(t)
            } else {
                Err(())
            },
            Err(_) => Err(()),
        }
    }
}

impl DateTime {
    /// Strict entry point: the whole input must parse as a date-time.
    pub fn from_str(s: &str) -> (r: Result<DateTime, ()>)
        ensures
            r == (match sp_datetime(s.spec_bytes(), 0) {
                Ok((t, j)) => if j == s.spec_bytes().len() {
                    Ok::<DateTime, ()>(t)
                } else {
                    Err::<DateTime, ()>(())
                },
                Err(_) => Err::<DateTime, ()>(()),
            }),
    {
        let b: &[u8] = s.as_bytes();
        match datetime(b) {
            Ok((t, j)) => if j == b.len() {
                Ok(t)
            } else {
                Err(())
            },
            Err(_) => Err(()),
        }
    }
}

} // verus!
