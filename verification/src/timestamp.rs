//! Timezone-aware creation timestamps, held as plain values: seconds and
//! nanoseconds since the Unix epoch, plus the local offset from UTC in
//! seconds. Parsing from the upstream RFC 3339 strings is done by chrono
//! behind a trusted wrapper.

use vstd::prelude::*;

verus! {

/// A timezone-aware instant: the moment `seconds` + `nanos` after the Unix
/// epoch, displayed at an offset of `offset_seconds` from UTC.
#[derive(Clone, Copy, Debug, PartialEq, Eq, Structural)]
pub struct Timestamp {
    pub seconds: i64,
    pub nanos: u32,
    pub offset_seconds: i32,
}

impl Timestamp {
    /// The Unix epoch at UTC, the fallback for unparsable post timestamps.
    pub fn epoch() -> (r: Timestamp)
        ensures
            r == (Timestamp { seconds: 0, nanos: 0, offset_seconds: 0 }),
    {
        Timestamp { seconds: 0, nanos: 0, offset_seconds: 0 }
    }
}

/// What chrono reads out of an RFC 3339 string: `None` when the string is
/// not a valid RFC 3339 date-and-time, the instant and offset otherwise.
/// The result depends on the characters alone.
pub uninterp spec fn rfc3339_of(s: Seq<char>) -> Option<Timestamp>;

/// Relies on chrono's `DateTime::parse_from_rfc3339`, which accepts exactly
/// the valid RFC 3339 date-and-time strings, and on its `timestamp`,
/// `timestamp_subsec_nanos` and `FixedOffset::local_minus_utc` accessors for
/// the parsed instant and offset.
#[verifier::external_body]
pub(crate) fn parse_rfc3339(s: &str) -> (r: Option<Timestamp>)
    ensures
        r == rfc3339_of(s@),
{
    match chrono::DateTime::parse_from_rfc3339(s) {
        Ok(dt) => Some(
            Timestamp {
                seconds: dt.timestamp(),
                nanos: dt.timestamp_subsec_nanos(),
                offset_seconds: dt.offset().local_minus_utc(),
            },
        ),
        Err(_) => None,
    }
}

} // verus!
