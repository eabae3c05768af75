//! Calendar dates and points in time, by their fields.
use vstd::prelude::*;

verus! {

/// A day of the calendar.
#[derive(Clone, Copy, Debug, PartialEq, Eq, Structural)]
pub struct Date {
    pub year: i32,
    pub month: u8,
    pub day: u8,
}

/// A point in time, as the fields of a clock that is `offset_seconds` ahead of UTC.
#[derive(Clone, Copy, Debug, PartialEq, Eq, Structural)]
pub struct DateTime {
    pub date: Date,
    pub hour: u8,
    pub minute: u8,
    pub second: u8,
    pub nanosecond: u32,
    pub offset_seconds: i32,
}

/// A full hour of a day, in UTC.
pub open spec fn utc_hour(date: Date, hour: u8) -> DateTime {
    DateTime { date, hour, minute: 0, second: 0, nanosecond: 0, offset_seconds: 0 }
}

impl DateTime {
    /// A full hour of a day, in UTC.
    pub fn at_utc_hour(date: Date, hour: u8) -> (r: DateTime)
        ensures
            r == utc_hour(date, hour),
    {
        DateTime { date, hour, minute: 0, second: 0, nanosecond: 0, offset_seconds: 0 }
    }
}

} // verus!
