//! Calendar timestamps in UTC, as plain fields.

use chrono::{Datelike, TimeZone, Timelike};
use vstd::prelude::*;

verus! {

/// A date and time of day in UTC, without a zone.
#[derive(Clone, Copy, Debug, PartialEq, Eq, Structural)]
pub struct CalendarTime {
    pub year: i32,
    pub month: u32,
    pub day: u32,
    pub hour: u32,
    pub minute: u32,
    pub second: u32,
    pub nanosecond: u32,
}

/// The UTC calendar fields of the instant `secs` whole seconds after
/// 1970-01-01 00:00:00, or `None` where the calendar cannot represent it.
pub uninterp spec fn utc_calendar(secs: int) -> Option<CalendarTime>;

/// Calls chrono's `Utc.timestamp_opt(secs, 0)` and reads the fields of the
/// single date-time it maps to. The contract names that result: it is
/// `utc_calendar` of the seconds, and `None` exactly when chrono reports the
/// seconds as out of range.
#[verifier::external_body]
pub(crate) fn utc_fields(secs: i64) -> (r: Option<CalendarTime>)
    ensures
        r == utc_calendar(secs as int),
{
    match chrono::Utc.timestamp_opt(secs, 0).single() {
        Some(t) => Some(CalendarTime {
            year: t.year(), month: t.month(), day: t.day(),
            hour: t.hour(), minute: t.minute(), second: t.second(),
            nanosecond: t.nanosecond(),
        }),
        None => None,
    }
}

} // verus!
