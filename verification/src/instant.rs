//! Points in time on the UTC time line, at nanosecond resolution.

use std::fmt::Write;
use vstd::prelude::*;

verus! {

/// An instant of the UTC time line: whole seconds since the Unix epoch and
/// the nanoseconds into that second.
#[derive(Clone, Copy, Debug, PartialEq, Eq, Structural)]
pub struct Timestamp {
    pub secs: i64,
    pub nanos: u32,
}

impl Timestamp {
    /// `self` lies strictly before `other` on the time line.
    pub open spec fn lt(self, other: Timestamp) -> bool {
        self.secs < other.secs || (self.secs == other.secs && self.nanos < other.nanos)
    }

    /// `self` lies before `other` or coincides with it.
    pub open spec fn le(self, other: Timestamp) -> bool {
        self.lt(other) || self == other
    }

    /// The instant `secs` whole seconds after the epoch.
    pub fn from_secs(secs: i64) -> (t: Timestamp)
        ensures
            t.secs == secs,
            t.nanos == 0,
    {
        Timestamp { secs, nanos: 0 }
    }

    /// Decides whether `self` lies strictly before `other`.
    pub fn is_before(&self, other: &Timestamp) -> (b: bool)
        ensures
            b == self.lt(*other),
    {
        self.secs < other.secs || (self.secs == other.secs && self.nanos < other.nanos)
    }

    /// Decides whether `self` lies before `other` or coincides with it.
    pub fn is_at_or_before(&self, other: &Timestamp) -> (b: bool)
        ensures
            b == self.le(*other),
    {
        self.secs < other.secs || (self.secs == other.secs && self.nanos <= other.nanos)
    }
}

/// The instant that the `chrono` crate makes of `secs` whole seconds after
/// the epoch, where its calendar reaches that far.
pub uninterp spec fn utc_instant(secs: int) -> Option<Timestamp>;

/// The text that the `chrono` crate writes for an instant under the format
/// `pattern`; `None` where it cannot represent the instant or cannot
/// write it in that format.
pub uninterp spec fn stamp_text(secs: int, nanos: int, pattern: Seq<char>) -> Option<Seq<char>>;

/// The last second of the year 9999.
pub const LAST_SECOND_OF_9999: i64 = 253_402_300_799;

/// Wraps `chrono::Utc::now`: the present instant by the system clock.
/// Nothing is promised of it. (`chrono` gives up where the clock stands
/// before the epoch.)
#[verifier::external_body]
pub(crate) fn utc_now() -> (t: Timestamp) {
    let now = chrono::Utc::now();
    Timestamp { secs: now.timestamp(), nanos: now.timestamp_subsec_nanos() }
}

/// Wraps `chrono::DateTime::from_timestamp` with no nanoseconds: `None`
/// where `secs` lies outside the calendar of `chrono`, else an instant that
/// reads back as `secs` whole seconds. The calendar runs from the year
/// -262143 to the year 262142, so it holds every second from the epoch to
/// the end of the year 9999.
#[verifier::external_body]
pub(crate) fn instant_from_secs(secs: i64) -> (r: Option<Timestamp>)
    ensures
        r == utc_instant(secs as int),
        r matches Some(t) ==> t.secs == secs && t.nanos == 0,
        0 <= secs <= LAST_SECOND_OF_9999 ==> r is Some,
{
    match chrono::DateTime::from_timestamp(secs, 0) {
        Some(dt) => Some(Timestamp { secs: dt.timestamp(), nanos: dt.timestamp_subsec_nanos() }),
        None => None,
    }
}

/// Wraps `chrono::DateTime::format`, written out through `write!`: the
/// text for `t` under the format `pattern`, or `None` where `chrono`
/// cannot represent `t` or reports that it cannot write the format.
#[verifier::external_body]
pub(crate) fn format_stamp(t: &Timestamp, pattern: &str) -> (r: Option<String>)
    ensures
        r.deep_view() == stamp_text(t.secs as int, t.nanos as int, pattern@),
{
    let dt = chrono::DateTime::from_timestamp(t.secs, t.nanos)?;
    let mut text = String::new();
    match write!(text, "{}", dt.format(pattern)) {
        Ok(()) => Some(text),
        Err(_) => None,
    }
}

} // verus!
