//! Points in time, as the session history shows them.

use crate::diff::opt_text;
use crate::text::{signed_decimal, signed_number};
use vstd::prelude::*;

verus! {

/// A point in time, and the offset from UTC it was recorded with.
#[derive(Clone, Copy, Debug, PartialEq, Eq, Structural)]
pub struct Timestamp {
    /// Seconds since 1970-01-01 UTC.
    pub seconds: i64,
    pub nanos: u32,
    /// Seconds east of UTC.
    pub offset: i32,
}

/// What `OffsetDateTime::format` of `time` writes for a point in time with its
/// `Rfc3339` format; `None` where that fails.
pub uninterp spec fn rfc3339(seconds: i64, nanos: u32, offset: i32) -> Option<Seq<char>>;

/// `OffsetDateTime::format` of `time`, with its `Rfc3339` format: a text that
/// depends on the point in time alone, or nothing for one that the calendar or
/// the format cannot hold.
#[verifier::external_body]
fn format_rfc3339(seconds: i64, nanos: u32, offset: i32) -> (r: Option<String>)
    ensures
        opt_text(r) == rfc3339(seconds, nanos, offset),
{
    time::OffsetDateTime::from_unix_timestamp(seconds)
        .ok()?
        .replace_nanosecond(nanos)
        .ok()?
        .checked_to_offset(time::UtcOffset::from_whole_seconds(offset).ok()?)?
        .format(&time::format_description::well_known::Rfc3339)
        .ok()
}

/// A formatted time, or the seconds where formatting failed.
pub fn or_seconds(formatted: Option<String>, seconds: i64) -> (s: String)
    ensures
        s@ == (match formatted {
            Some(text) => text@,
            None => signed_decimal(seconds as int),
        }),
{
    match formatted {
        Some(text) => text,
        None => signed_number(seconds),
    }
}

/// A point in time as it is shown: in RFC 3339, or as a count of seconds where
/// that cannot be written.
pub fn format_timestamp(t: Timestamp) -> (s: String)
    ensures
        s@ == (match rfc3339(t.seconds, t.nanos, t.offset) {
            Some(text) => text,
            None => signed_decimal(t.seconds as int),
        }),
{
    or_seconds(format_rfc3339(t.seconds, t.nanos, t.offset), t.seconds)
}

} // verus!
