//! Points in time as they are written at the start of a log line.

use chrono::{Datelike, Timelike};
use vstd::prelude::*;

verus! {

/// A calendar date and wall-clock time together with the offset from UTC
/// under which they were written.
///
/// The date and time fields are local to `offset_seconds`: the instant in UTC
/// lies `offset_seconds` seconds before them.
#[derive(Debug, Clone, Copy, PartialEq, Eq, Structural)]
pub struct Timestamp {
    pub year: i32,
    pub month: u32,
    pub day: u32,
    pub hour: u32,
    pub minute: u32,
    pub second: u32,
    /// Nanoseconds past `second`.
    pub nanosecond: u32,
    /// Seconds east of UTC.
    pub offset_seconds: i32,
}

impl Timestamp {
    /// The fraction of the second in whole milliseconds.
    pub open spec fn spec_millisecond(&self) -> u32 {
        (self.nanosecond / 1_000_000) as u32
    }

    /// The fraction of the second, cut down to whole milliseconds.
    #[verifier::when_used_as_spec(spec_millisecond)]
    pub fn millisecond(&self) -> (ms: u32)
        ensures
            ms == self.spec_millisecond(),
    {
        self.nanosecond / 1_000_000
    }
}

/// The layout in which a log line writes its timestamp: date, `T`, time with
/// an optional fraction of a second, and a numeric offset from UTC.
pub const TIMESTAMP_LAYOUT: &'static str = "%Y-%m-%dT%H:%M:%S%.f%z";

/// [`TIMESTAMP_LAYOUT`] as a sequence of characters.
pub open spec fn timestamp_layout() -> Seq<char> {
    TIMESTAMP_LAYOUT@
}

/// What `chrono` makes of `text` when it reads it under the strftime-like
/// `layout`: the timestamp it finds, or `None` where the text does not fit
/// the layout or names no valid instant.
pub uninterp spec fn chrono_timestamp(text: Seq<char>, layout: Seq<char>) -> Option<Timestamp>;

/// Calls `chrono::DateTime::<FixedOffset>::parse_from_str`, for the one
/// layout that a log line uses.
///
/// The contract only names the outcome: it is `chrono_timestamp` of the two
/// arguments. The fields of the result are those that chrono reports for the
/// parsed value in its own offset.
#[verifier::external_body]
pub(crate) fn chrono_parse(text: &str, layout: &str) -> (parsed: Option<Timestamp>)
    requires
        layout@ == timestamp_layout(),
    ensures
        parsed == chrono_timestamp(text@, layout@),
{
    match chrono::DateTime::parse_from_str(text, layout) {
        Ok(t) => Some(Timestamp {
            year: t.year(),
            month: t.month(),
            day: t.day(),
            hour: t.hour(),
            minute: t.minute(),
            second: t.second(),
            nanosecond: t.nanosecond(),
            offset_seconds: t.offset().local_minus_utc(),
        }),
        Err(_) => None,
    }
}

/// Reads a timestamp written in [`timestamp_layout`].
pub fn parse_timestamp(text: &str) -> (parsed: Option<Timestamp>)
    ensures
        parsed == chrono_timestamp(text@, timestamp_layout()),
{
    chrono_parse(text, TIMESTAMP_LAYOUT)
}

} // verus!
