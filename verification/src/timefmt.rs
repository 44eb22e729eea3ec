//! Calendar rendering and parsing of timestamps.
//!
//! Timestamps are carried through the library as plain seconds since the
//! Unix epoch; only the rendering to and parsing from calendar text is done
//! by the `chrono` crate, behind the two trusted functions below.

use vstd::prelude::*;

verus! {

/// The recovery id that a creation time renders to: the calendar form
/// `YYYY-MM-DD_HH-MM-SS` of the given epoch seconds, in UTC.
pub uninterp spec fn manifest_id_of(secs: u64) -> Seq<char>;

/// The latest epoch second the library renders: the end of year 9999, which
/// keeps the year four digits wide.
pub const MAX_RENDERED_SECS: u64 = 253402300800;

/// Relies on `chrono::DateTime::<Utc>::from_timestamp` and `format`: within
/// the required range the timestamp is valid, the rendering is a pure
/// function of the seconds, and `%Y-%m-%d_%H-%M-%S` with a four-digit year
/// takes exactly 19 characters.
#[verifier::external_body]
pub(crate) fn format_manifest_id(secs: u64) -> (r: String)
    requires
        secs < MAX_RENDERED_SECS,
    ensures
        r@ == manifest_id_of(secs),
        r@.len() == 19,
{
    let dt = chrono::DateTime::<chrono::Utc>::from_timestamp(secs as i64, 0)
        .expect("timestamp in rendering range");
    dt.format("%Y-%m-%d_%H-%M-%S").to_string()
}

/// The epoch seconds that `chrono` reads out of a calendar text under a
/// format string, when the text parses fully.
pub uninterp spec fn parsed_secs_of(s: Seq<char>, fmt: Seq<char>) -> Option<int>;

/// Relies on `chrono::NaiveDateTime::parse_from_str` and
/// `NaiveDateTime::and_utc`: parsing is a pure function of the text and the
/// format, and a parsed date-time converts to its epoch seconds.
#[verifier::external_body]
pub(crate) fn parse_datetime_secs(s: &str, fmt: &str) -> (r: Option<i64>)
    ensures
        match r {
            Some(v) => parsed_secs_of(s@, fmt@) == Some(v as int),
            None => parsed_secs_of(s@, fmt@) is None,
        },
{
    match chrono::NaiveDateTime::parse_from_str(s, fmt) {
        Ok(dt) => Some(dt.and_utc().timestamp()),
        Err(_) => None,
    }
}

} // verus!
