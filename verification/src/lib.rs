//! ISO 8601 dates, times and date-times.
//!
//! The calendar model offers three representations of a date — calendar
//! (year/month/day), week (year/week/weekday) and ordinal (year/day-of-year) —
//! with total, lossless conversions between them, validity predicates for
//! every entity, and a parser for the ISO 8601 textual grammar.  Parsing and
//! validity are deliberately separate: a string may parse into a value that
//! `is_valid` then rejects.

use vstd::prelude::*;

mod year;
mod valid;
mod date;
mod time;
pub mod parse;
pub mod laws;

pub use crate::year::Year;
pub use crate::year::is_leap_year;
pub use crate::year::days_in_year;
pub use crate::year::week_p;
pub use crate::year::weeks_in_year;
pub use crate::valid::Valid;
pub use crate::date::Date;
pub use crate::date::YmdDate;
pub use crate::date::WeekDate;
pub use crate::date::OrdinalDate;
pub use crate::date::clip;
pub use crate::date::ord_month;
pub use crate::date::days_in_month;
pub use crate::date::month_days_before;
pub use crate::date::jan1_gauss;
pub use crate::date::jan1_iso;
pub use crate::date::jan4_iso;
pub use crate::date::iso_weekday;
pub use crate::date::year_before;
pub use crate::date::year_after;
pub use crate::date::spec_ymd_to_ord;
pub use crate::date::spec_ord_to_ymd;
pub use crate::date::spec_ord_to_week;
pub use crate::date::spec_week_to_ord;
pub use crate::date::spec_ymd_to_week;
pub use crate::date::spec_week_to_ymd;
pub use crate::date::spec_date_to_ymd;
pub use crate::date::spec_date_to_week;
pub use crate::date::spec_date_to_ord;
pub use crate::time::LocalTime;
pub use crate::time::Time;
pub use crate::time::DateTime;
pub use crate::parse::ParseError;
