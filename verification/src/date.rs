//! The three ISO 8601 date representations and the closed graph of total
//! conversions between them, with the ordinal form as the pivot.
//!
//! Conversions never fail: out-of-range fields are clipped into the year's
//! range before the calendar math, so garbage in gives a deterministic value
//! out, and `Valid` remains the only gate.  On valid inputs every conversion
//! is exact and the round-trip laws of `laws` hold.  At the two extreme
//! representable years the week/ordinal rollover saturates instead of
//! leaving `i16`.

use vstd::prelude::*;

verus! {

use crate::year::Year;
use crate::year::is_leap_year;
use crate::year::days_in_year;
use crate::year::weeks_in_year;
use crate::year::mod_euclid;
use crate::valid::Valid;

/// A date in exactly one of the three ISO 8601 representations.  The three
/// forms of the same calendar day are equal under conversion but are distinct
/// values of this sum type.
#[derive(PartialEq, Eq, Structural, Clone, Copy, Debug)]
pub enum Date {
    YMD(YmdDate),
    Week(WeekDate),
    Ordinal(OrdinalDate),
}

/// Calendar date: year, month and day of month.
#[derive(PartialEq, Eq, Structural, Clone, Copy, Debug)]
pub struct YmdDate {
    pub year: i16,
    pub month: u8,
    pub day: u8,
}

/// Week date: ISO week-numbering year, week and weekday (Monday = 1).
#[derive(PartialEq, Eq, Structural, Clone, Copy, Debug)]
pub struct WeekDate {
    pub year: i16,
    pub week: u8,
    pub day: u8,
}

/// Ordinal date: year and day of year.
#[derive(PartialEq, Eq, Structural, Clone, Copy, Debug)]
pub struct OrdinalDate {
    pub year: i16,
    pub day: u16,
}

/// `x` forced into `[lo, hi]`.
pub open spec fn clip(x: int, lo: int, hi: int) -> int {
    if x < lo {
        lo
    } else if x > hi {
        hi
    } else {
        x
    }
}

/// Days of the year that precede month `m` (months outside `[1, 12]` count
/// as the nearest of the two).
pub open spec fn month_days_before(leap: bool, m: int) -> int {
    if m <= 1 {
        0
    } else if m == 2 {
        31
    } else if m == 3 {
        if leap { 60 } else { 59 }
    } else if m == 4 {
        if leap { 91 } else { 90 }
    } else if m == 5 {
        if leap { 121 } else { 120 }
    } else if m == 6 {
        if leap { 152 } else { 151 }
    } else if m == 7 {
        if leap { 182 } else { 181 }
    } else if m == 8 {
        if leap { 213 } else { 212 }
    } else if m == 9 {
        if leap { 244 } else { 243 }
    } else if m == 10 {
        if leap { 274 } else { 273 }
    } else if m == 11 {
        if leap { 305 } else { 304 }
    } else {
        if leap { 335 } else { 334 }
    }
}

/// Length of month `m` of year `y`.
pub open spec fn days_in_month(y: int, m: int) -> int {
    if m == 2 {
        if is_leap_year(y) { 29 } else { 28 }
    } else if m == 4 || m == 6 || m == 9 || m == 11 {
        30
    } else {
        31
    }
}

/// Gauss's day-of-week value of 1 January of year `y` (0 = Sunday .. 6 = Saturday).
pub open spec fn jan1_gauss(y: int) -> int {
    (1 + 5 * ((y - 1) % 4) + 4 * ((y - 1) % 100) + 6 * ((y - 1) % 400)) % 7
}

/// ISO weekday of 1 January of year `y` (Monday = 1 .. Sunday = 7).
pub open spec fn jan1_iso(y: int) -> int {
    if jan1_gauss(y) == 0 {
        7
    } else {
        jan1_gauss(y)
    }
}

/// ISO weekday of 4 January of year `y` (Monday = 1 .. Sunday = 7).
pub open spec fn jan4_iso(y: int) -> int {
    let t = (jan1_gauss(y) + 3) % 7;
    if t == 0 {
        7
    } else {
        t
    }
}

/// ISO weekday of the day with ordinal number `d` of year `y`.
pub open spec fn iso_weekday(y: int, d: int) -> int {
    (jan1_iso(y) - 1 + d - 1) % 7 + 1
}

/// The year before `y`, saturating at the smallest representable year.
pub open spec fn year_before(y: i16) -> i16 {
    if y == i16::MIN {
        y
    } else {
        (y - 1) as i16
    }
}

/// The year after `y`, saturating at the largest representable year.
pub open spec fn year_after(y: i16) -> i16 {
    if y == i16::MAX {
        y
    } else {
        (y + 1) as i16
    }
}

/// Calendar to ordinal: cumulative days of the prior months plus the day of
/// the month (the day field is carried over unclipped).
pub open spec fn spec_ymd_to_ord(d: YmdDate) -> OrdinalDate {
    OrdinalDate {
        year: d.year,
        day: (month_days_before(is_leap_year(d.year as int), d.month as int) + d.day) as u16,
    }
}

/// The month whose day range contains day-of-year `dd` (for `dd` in the
/// year's range).
pub open spec fn ord_month(leap: bool, dd: int) -> int {
    if dd <= month_days_before(leap, 2) {
        1
    } else if dd <= month_days_before(leap, 3) {
        2
    } else if dd <= month_days_before(leap, 4) {
        3
    } else if dd <= month_days_before(leap, 5) {
        4
    } else if dd <= month_days_before(leap, 6) {
        5
    } else if dd <= month_days_before(leap, 7) {
        6
    } else if dd <= month_days_before(leap, 8) {
        7
    } else if dd <= month_days_before(leap, 9) {
        8
    } else if dd <= month_days_before(leap, 10) {
        9
    } else if dd <= month_days_before(leap, 11) {
        10
    } else if dd <= month_days_before(leap, 12) {
        11
    } else {
        12
    }
}

/// Ordinal to calendar: inverse table lookup, after clipping the day into
/// the year's range.
pub open spec fn spec_ord_to_ymd(d: OrdinalDate) -> YmdDate {
    let leap = is_leap_year(d.year as int);
    let dd = clip(d.day as int, 1, days_in_year(d.year as int));
    let m = ord_month(leap, dd);
    YmdDate { year: d.year, month: m as u8, day: (dd - month_days_before(leap, m)) as u8 }
}

/// Ordinal to week: the ISO week algorithm.  A day in the days before the
/// first ISO week belongs to the last week of the previous year; one past the
/// last ISO week belongs to week 1 of the next year.
pub open spec fn spec_ord_to_week(d: OrdinalDate) -> WeekDate {
    let y = d.year as int;
    let dd = clip(d.day as int, 1, days_in_year(y));
    let wd = iso_weekday(y, dd);
    let w0 = (dd - wd + 10) / 7;
    if w0 < 1 {
        WeekDate {
            year: year_before(d.year),
            week: weeks_in_year(year_before(d.year) as int) as u8,
            day: wd as u8,
        }
    } else if w0 > weeks_in_year(y) {
        WeekDate { year: year_after(d.year), week: 1, day: wd as u8 }
    } else {
        WeekDate { year: d.year, week: w0 as u8, day: wd as u8 }
    }
}

/// Week to ordinal: inverse of the week algorithm, with the same rollover at
/// the year boundaries.  Week and weekday are clipped into range first.
pub open spec fn spec_week_to_ord(d: WeekDate) -> OrdinalDate {
    let y = d.year as int;
    let w = clip(d.week as int, 1, weeks_in_year(y));
    let wd = clip(d.day as int, 1, 7);
    let d0 = 7 * w + wd - (jan4_iso(y) + 3);
    if d0 < 1 {
        OrdinalDate {
            year: year_before(d.year),
            day: (d0 + days_in_year(year_before(d.year) as int)) as u16,
        }
    } else if d0 > days_in_year(y) {
        OrdinalDate { year: year_after(d.year), day: (d0 - days_in_year(y)) as u16 }
    } else {
        OrdinalDate { year: d.year, day: d0 as u16 }
    }
}

/// Calendar to week, composed through the ordinal pivot.
pub open spec fn spec_ymd_to_week(d: YmdDate) -> WeekDate {
    spec_ord_to_week(spec_ymd_to_ord(d))
}

/// Week to calendar, composed through the ordinal pivot.
pub open spec fn spec_week_to_ymd(d: WeekDate) -> YmdDate {
    spec_ord_to_ymd(spec_week_to_ord(d))
}

/// The sum type converted to the calendar form.
pub open spec fn spec_date_to_ymd(date: Date) -> YmdDate {
    match date {
        Date::YMD(d) => d,
        Date::Week(d) => spec_week_to_ymd(d),
        Date::Ordinal(d) => spec_ord_to_ymd(d),
    }
}

/// The sum type converted to the week form.
pub open spec fn spec_date_to_week(date: Date) -> WeekDate {
    match date {
        Date::YMD(d) => spec_ymd_to_week(d),
        Date::Week(d) => d,
        Date::Ordinal(d) => spec_ord_to_week(d),
    }
}

/// The sum type converted to the ordinal form.
pub open spec fn spec_date_to_ord(date: Date) -> OrdinalDate {
    match date {
        Date::YMD(d) => spec_ymd_to_ord(d),
        Date::Week(d) => spec_week_to_ord(d),
        Date::Ordinal(d) => d,
    }
}

/// Gauss's day-of-week value of 1 January (0 = Sunday .. 6 = Saturday).
fn gauss_jan1_exec(y: i16) -> (r: u8)
    ensures
        r as int == jan1_gauss(y as int),
        r < 7,
{
    let x: i128 = (y as i128) - 1;
    let m4: i128 = mod_euclid(x, 4);
    let m100: i128 = mod_euclid(x, 100);
    let m400: i128 = mod_euclid(x, 400);
    let s: i128 = 1 + 5 * m4 + 4 * m100 + 6 * m400;
    let g: i128 = mod_euclid(s, 7);
    g as u8
}

/// ISO weekday of 1 January (Monday = 1 .. Sunday = 7).
fn iso_jan1_exec(y: i16) -> (r: u8)
    ensures
        r as int == jan1_iso(y as int),
        1 <= r <= 7,
{
    let g: u8 = gauss_jan1_exec(y);
    if g == 0 {
        7
    } else {
        g
    }
}

/// ISO weekday of 4 January (Monday = 1 .. Sunday = 7).
fn iso_jan4_exec(y: i16) -> (r: u8)
    ensures
        r as int == jan4_iso(y as int),
        1 <= r <= 7,
{
    let g: u8 = gauss_jan1_exec(y);
    let t: u8 = (g + 3) % 7;
    if t == 0 {
        7
    } else {
        t
    }
}

impl Valid for YmdDate {
    /// Valid iff the month exists and the day lies within that month's
    /// length for that year.
    open spec fn spec_valid(&self) -> bool {
        1 <= self.month <= 12 && 1 <= self.day
            && self.day as int <= days_in_month(self.year as int, self.month as int)
    }

    fn is_valid(&self) -> (r: bool) {
        if self.month < 1 || self.month > 12 {
            return false;
        }
        let dm: u8 = if self.month == 2 {
            if self.year.is_leap() {
                29
            } else {
                28
            }
        } else if self.month == 4 || self.month == 6 || self.month == 9 || self.month == 11 {
            30
        } else {
            31
        };
        self.day >= 1 && self.day <= dm
    }
}

impl Valid for WeekDate {
    /// Valid iff the week exists in that ISO year and the weekday is in
    /// `[1, 7]`.
    open spec fn spec_valid(&self) -> bool {
        1 <= self.week && self.week as int <= weeks_in_year(self.year as int) && 1 <= self.day
            <= 7
    }

    fn is_valid(&self) -> (r: bool) {
        self.week >= 1 && self.week <= self.year.num_weeks() && self.day >= 1 && self.day <= 7
    }
}

impl Valid for OrdinalDate {
    /// Valid iff the day of year is in `[1, 365]`, or `[1, 366]` in a leap
    /// year.
    open spec fn spec_valid(&self) -> bool {
        1 <= self.day && self.day as int <= days_in_year(self.year as int)
    }

    fn is_valid(&self) -> (r: bool) {
        self.day >= 1 && self.day <= self.year.num_days()
    }
}

impl Valid for Date {
    /// Valid iff the carried representation is.
    open spec fn spec_valid(&self) -> bool {
        match self {
            Date::YMD(d) => d.spec_valid(),
            Date::Week(d) => d.spec_valid(),
            Date::Ordinal(d) => d.spec_valid(),
        }
    }

    fn is_valid(&self) -> (r: bool) {
        match self {
            Date::YMD(d) => d.is_valid(),
            Date::Week(d) => d.is_valid(),
            Date::Ordinal(d) => d.is_valid(),
        }
    }
}

impl From<YmdDate> for OrdinalDate {
    fn from(d: YmdDate) -> (r: OrdinalDate)
        ensures
            r == spec_ymd_to_ord(d),
    {
        let leap: bool = d.year.is_leap();
        let b: u16 = if leap { 1 } else { 0 };
        let off: u16 = if d.month <= 1 {
            0
        } else if d.month == 2 {
            31
        } else if d.month == 3 {
            59 + b
        } else if d.month == 4 {
            90 + b
        } else if d.month == 5 {
            120 + b
        } else if d.month == 6 {
            151 + b
        } else if d.month == 7 {
            181 + b
        } else if d.month == 8 {
            212 + b
        } else if d.month == 9 {
            243 + b
        } else if d.month == 10 {
            273 + b
        } else if d.month == 11 {
            304 + b
        } else {
            334 + b
        };
        OrdinalDate { year: d.year, day: off + d.day as u16 }
    }
}

impl vstd::std_specs::convert::FromSpecImpl<YmdDate> for OrdinalDate {
    open spec fn obeys_from_spec() -> bool {
        true
    }

    open spec fn from_spec(d: YmdDate) -> OrdinalDate {
        spec_ymd_to_ord(d)
    }
}

impl From<OrdinalDate> for YmdDate {
    fn from(d: OrdinalDate) -> (r: YmdDate)
        ensures
            r == spec_ord_to_ymd(d),
    {
        let leap: bool = d.year.is_leap();
        let n: u16 = d.year.num_days();
        let dd: u16 = if d.day < 1 {
            1
        } else if d.day > n {
            n
        } else {
            d.day
        };
        let b: u16 = if leap { 1 } else { 0 };
        let m: u8 = if dd <= 31 {
            1
        } else if dd <= 59 + b {
            2
        } else if dd <= 90 + b {
            3
        } else if dd <= 120 + b {
            4
        } else if dd <= 151 + b {
            5
        } else if dd <= 181 + b {
            6
        } else if dd <= 212 + b {
            7
        } else if dd <= 243 + b {
            8
        } else if dd <= 273 + b {
            9
        } else if dd <= 304 + b {
            10
        } else if dd <= 334 + b {
            11
        } else {
            12
        };
        let off: u16 = if m <= 1 {
            0
        } else if m == 2 {
            31
        } else if m == 3 {
            59 + b
        } else if m == 4 {
            90 + b
        } else if m == 5 {
            120 + b
        } else if m == 6 {
            151 + b
        } else if m == 7 {
            181 + b
        } else if m == 8 {
            212 + b
        } else if m == 9 {
            243 + b
        } else if m == 10 {
            273 + b
        } else if m == 11 {
            304 + b
        } else {
            334 + b
        };
        YmdDate { year: d.year, month: m, day: (dd - off) as u8 }
    }
}

impl vstd::std_specs::convert::FromSpecImpl<OrdinalDate> for YmdDate {
    open spec fn obeys_from_spec() -> bool {
        true
    }

    open spec fn from_spec(d: OrdinalDate) -> YmdDate {
        spec_ord_to_ymd(d)
    }
}

impl From<OrdinalDate> for WeekDate {
    fn from(d: OrdinalDate) -> (r: WeekDate)
        ensures
            r == spec_ord_to_week(d),
    {
        let n: u16 = d.year.num_days();
        let dd: u16 = if d.day < 1 {
            1
        } else if d.day > n {
            n
        } else {
            d.day
        };
        let j1: u8 = iso_jan1_exec(d.year);
        let wd: u8 = ((((j1 as u16) - 1 + dd - 1) % 7) + 1) as u8;
        let w0: u16 = (dd + 10 - (wd as u16)) / 7;
        let nw: u8 = d.year.num_weeks();
        if w0 < 1 {
            let yb: i16 = if d.year == i16::MIN {
                d.year
            } else {
                d.year - 1
            };
            let wb: u8 = yb.num_weeks();
            WeekDate { year: yb, week: wb, day: wd }
        } else if w0 > nw as u16 {
            let ya: i16 = if d.year == i16::MAX {
                d.year
            } else {
                d.year + 1
            };
            WeekDate { year: ya, week: 1, day: wd }
        } else {
            WeekDate { year: d.year, week: w0 as u8, day: wd }
        }
    }
}

impl vstd::std_specs::convert::FromSpecImpl<OrdinalDate> for WeekDate {
    open spec fn obeys_from_spec() -> bool {
        true
    }

    open spec fn from_spec(d: OrdinalDate) -> WeekDate {
        spec_ord_to_week(d)
    }
}

impl From<WeekDate> for OrdinalDate {
    fn from(d: WeekDate) -> (r: OrdinalDate)
        ensures
            r == spec_week_to_ord(d),
    {
        let nw: u8 = d.year.num_weeks();
        let w: u8 = if d.week < 1 {
            1
        } else if d.week > nw {
            nw
        } else {
            d.week
        };
        let wd: u8 = if d.day < 1 {
            1
        } else if d.day > 7 {
            7
        } else {
            d.day
        };
        let wj4: u8 = iso_jan4_exec(d.year);
        let d0: i32 = 7 * (w as i32) + (wd as i32) - ((wj4 as i32) + 3);
        let nd: u16 = d.year.num_days();
        if d0 < 1 {
            let yb: i16 = if d.year == i16::MIN {
                d.year
            } else {
                d.year - 1
            };
            let ndb: u16 = yb.num_days();
            OrdinalDate { year: yb, day: (d0 + ndb as i32) as u16 }
        } else if d0 > nd as i32 {
            let ya: i16 = if d.year == i16::MAX {
                d.year
            } else {
                d.year + 1
            };
            OrdinalDate { year: ya, day: (d0 - nd as i32) as u16 }
        } else {
            OrdinalDate { year: d.year, day: d0 as u16 }
        }
    }
}

impl vstd::std_specs::convert::FromSpecImpl<WeekDate> for OrdinalDate {
    open spec fn obeys_from_spec() -> bool {
        true
    }

    open spec fn from_spec(d: WeekDate) -> OrdinalDate {
        spec_week_to_ord(d)
    }
}

impl From<YmdDate> for WeekDate {
    fn from(d: YmdDate) -> (r: WeekDate)
        ensures
            r == spec_ymd_to_week(d),
    {
        WeekDate::from(OrdinalDate::from(d))
    }
}

impl vstd::std_specs::convert::FromSpecImpl<YmdDate> for WeekDate {
    open spec fn obeys_from_spec() -> bool {
        true
    }

    open spec fn from_spec(d: YmdDate) -> WeekDate {
        spec_ymd_to_week(d)
    }
}

impl From<WeekDate> for YmdDate {
    fn from(d: WeekDate) -> (r: YmdDate)
        ensures
            r == spec_week_to_ymd(d),
    {
        YmdDate::from(OrdinalDate::from(d))
    }
}

impl vstd::std_specs::convert::FromSpecImpl<WeekDate> for YmdDate {
    open spec fn obeys_from_spec() -> bool {
        true
    }

    open spec fn from_spec(d: WeekDate) -> YmdDate {
        spec_week_to_ymd(d)
    }
}

impl From<Date> for YmdDate {
    fn from(date: Date) -> (r: YmdDate)
        ensures
            r == spec_date_to_ymd(date),
    {
        match date {
            Date::YMD(d) => d,
            Date::Week(d) => YmdDate::from(d),
            Date::Ordinal(d) => YmdDate::from(d),
        }
    }
}

impl vstd::std_specs::convert::FromSpecImpl<Date> for YmdDate {
    open spec fn obeys_from_spec() -> bool {
        true
    }

    open spec fn from_spec(date: Date) -> YmdDate {
        spec_date_to_ymd(date)
    }
}

impl From<Date> for WeekDate {
    fn from(date: Date) -> (r: WeekDate)
        ensures
            r == spec_date_to_week(date),
    {
        match date {
            Date::YMD(d) => WeekDate::from(d),
            Date::Week(d) => d,
            Date::Ordinal(d) => WeekDate::from(d),
        }
    }
}

impl vstd::std_specs::convert::FromSpecImpl<Date> for WeekDate {
    open spec fn obeys_from_spec() -> bool {
        true
    }

    open spec fn from_spec(date: Date) -> WeekDate {
        spec_date_to_week(date)
    }
}

impl From<Date> for OrdinalDate {
    fn from(date: Date) -> (r: OrdinalDate)
        ensures
            r == spec_date_to_ord(date),
    {
        match date {
            Date::YMD(d) => OrdinalDate::from(d),
            Date::Week(d) => OrdinalDate::from(d),
            Date::Ordinal(d) => d,
        }
    }
}

impl vstd::std_specs::convert::FromSpecImpl<Date> for OrdinalDate {
    open spec fn obeys_from_spec() -> bool {
        true
    }

    open spec fn from_spec(date: Date) -> OrdinalDate {
        spec_date_to_ord(date)
    }
}

} // verus!
