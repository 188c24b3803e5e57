//! RFC 3339 timestamps, read and written by `chrono`.
use vstd::prelude::*;
use crate::ast::Timestamp;

verus! {

/// What `chrono::DateTime::parse_from_rfc3339` gives for `text`, taken to
/// UTC as (seconds since the epoch, sub-second nanoseconds), or the text
/// of its parse error.
pub uninterp spec fn rfc3339_instant(text: Seq<char>) -> Result<(i64, u32), Seq<char>>;

/// Reads an RFC 3339 date-time with `chrono::DateTime::parse_from_rfc3339`
/// and converts it to UTC seconds and nanoseconds; on failure the error's
/// text. The contract names the result; nothing more of chrono's parser is
/// stated here.
#[verifier::external_body]
pub(crate) fn parse_rfc3339(text: &str) -> (r: Result<Timestamp, String>)
    ensures
        match rfc3339_instant(text@) {
            Ok((s, n)) => r matches Ok(t) && t.seconds == s && t.nanos == n,
            Err(e) => r matches Err(m) && m@ == e,
        },
{
    match chrono::DateTime::parse_from_rfc3339(text) {
        Ok(dt) => {
            let utc = dt.with_timezone(&chrono::Utc);
            Ok(Timestamp { seconds: utc.timestamp(), nanos: utc.timestamp_subsec_nanos() })
        },
        Err(e) => Err(e.to_string()),
    }
}

/// What `chrono::DateTime::<Utc>::to_rfc3339` writes for the instant
/// `(seconds, nanos)`, or `None` where `DateTime::from_timestamp` has no
/// such instant.
pub uninterp spec fn rfc3339_text(seconds: i64, nanos: u32) -> Option<Seq<char>>;

/// Writes an instant as RFC 3339 text with `chrono`'s `to_rfc3339`
/// (offset `+00:00`); `None` when `DateTime::from_timestamp` rejects it.
#[verifier::external_body]
pub(crate) fn format_rfc3339(t: Timestamp) -> (r: Option<String>)
    ensures
        match rfc3339_text(t.seconds, t.nanos) {
            Some(s) => r matches Some(m) && m@ == s,
            None => r is None,
        },
{
    match chrono::DateTime::<chrono::Utc>::from_timestamp(t.seconds, t.nanos) {
        Some(dt) => Some(dt.to_rfc3339()),
        None => None,
    }
}

} // verus!
