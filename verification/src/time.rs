//! Time of day, timezone-aware time, and the combined date-time.

use vstd::prelude::*;

verus! {

use crate::valid::Valid;
use crate::date::Date;

/// A local time of day.  Hour 24 (end of day) and second 60 (leap second)
/// are representable; validity tolerates both, since a leap second cannot be
/// predicted from the date alone.
#[derive(PartialEq, Eq, Structural, Clone, Copy, Debug)]
pub struct LocalTime {
    pub hour: u8,
    pub minute: u8,
    pub second: u8,
    pub nanos: u32,
}

/// A local time together with its timezone offset in minutes.
#[derive(PartialEq, Eq, Structural, Clone, Copy, Debug)]
pub struct Time {
    pub local: LocalTime,
    /// minutes
    pub tz_offset: i16,
}

/// A date together with a time.
#[derive(PartialEq, Eq, Structural, Clone, Copy, Debug)]
pub struct DateTime {
    pub date: Date,
    pub time: Time,
}

impl Valid for LocalTime {
    /// Leap seconds are accepted on any day since they are not predictable.
    open spec fn spec_valid(&self) -> bool {
        self.hour <= 24 && self.minute <= 59 && self.second <= 60 && self.nanos < 1000000000
    }

    fn is_valid(&self) -> (r: bool) {
        self.hour <= 24 && self.minute <= 59 && self.second <= 60 && self.nanos < 1000000000
    }
}

impl Valid for Time {
    /// Valid iff the local time is and the offset is strictly within a day.
    open spec fn spec_valid(&self) -> bool {
        self.local.spec_valid() && -1440 < self.tz_offset < 1440
    }

    fn is_valid(&self) -> (r: bool) {
        self.local.is_valid() && self.tz_offset < 1440 && self.tz_offset > -1440
    }
}

impl Valid for DateTime {
    /// Valid iff both parts are.
    open spec fn spec_valid(&self) -> bool {
        self.date.spec_valid() && self.time.spec_valid()
    }

    fn is_valid(&self) -> (r: bool) {
        self.date.is_valid() && self.time.is_valid()
    }
}

} // verus!
