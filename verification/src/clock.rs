//! Points in time.
use vstd::prelude::*;

verus! {

/// A point in time: whole seconds since the beginning of 1970 in universal time, and the
/// nanoseconds beyond them.
#[derive(Debug, Clone, Copy, PartialEq, Eq, Structural)]
pub struct Timestamp {
    pub seconds: i64,
    pub nanos: u32,
}

/// The point in time that `chrono::Utc::now` reads off the system's clock, as the whole seconds
/// and the nanoseconds that `DateTime::timestamp` and `DateTime::timestamp_subsec_nanos` give. The
/// nanoseconds stay below two thousand million: chrono counts a leap second beyond the first
/// thousand million.
#[verifier::external_body]
pub(crate) fn now() -> (t: Timestamp)
    ensures
        t.nanos < 2_000_000_000,
{
    let instant = chrono::Utc::now();
    Timestamp { seconds: instant.timestamp(), nanos: instant.timestamp_subsec_nanos() }
}

/// A point in time in words; nothing where there is no such point in time.
pub uninterp spec fn utc_text(seconds: i64, nanos: u32) -> Option<Seq<char>>;

/// `chrono::DateTime::from_timestamp` gives the point in time, or nothing where the seconds or the
/// nanoseconds are out of range, and its `Display` writes it in universal time, such as
/// `2015-05-15 00:00:00 UTC`. What it writes for given numbers is named, not stated.
#[verifier::external_body]
pub(crate) fn time_text(t: Timestamp) -> (r: Option<String>)
    ensures
        match r {
            Some(text) => utc_text(t.seconds, t.nanos) == Some(text@),
            None => utc_text(t.seconds, t.nanos) is None,
        },
{
    chrono::DateTime::from_timestamp(t.seconds, t.nanos).map(|instant| instant.to_string())
}

}
