//! The crate's trusted boundary: thin wrappers around outside functions,
//! believed on the strength of their documented behaviour and read source.
//!
//! Each wrapper names its result through an uninterpreted spec function where
//! the result is a pure function of the arguments but too large to state.

use vstd::prelude::*;

verus! {

/// What `String::from_utf8_lossy` returns for the given bytes: valid UTF-8
/// decoded as is, invalid sequences replaced with U+FFFD.
pub uninterp spec fn lossy_of(b: Seq<u8>) -> Seq<char>;

/// Relies on `String::from_utf8_lossy`: the result is a function of the
/// bytes alone, and empty input decodes to the empty string.
#[verifier::external_body]
pub(crate) fn utf8_lossy(b: &[u8]) -> (r: String)
    ensures
        r@ == lossy_of(b@),
        b@.len() == 0 ==> r@.len() == 0,
{
    String::from_utf8_lossy(b).to_string()
}

/// What `str::to_lowercase` returns for the given characters.
pub uninterp spec fn lower_of(s: Seq<char>) -> Seq<char>;

/// Relies on `str::to_lowercase`: the Unicode lowercase mapping, a function
/// of the characters alone.
#[verifier::external_body]
pub(crate) fn lowercase(s: &str) -> (r: String)
    ensures
        r@ == lower_of(s@),
{
    s.to_lowercase()
}

/// What formatting the given Unix-seconds timestamp as a UTC datetime with
/// second precision ("%Y-%m-%dT%H:%M:%S") yields.
pub uninterp spec fn datetime_string_of(ts: u64) -> Seq<char>;

/// Whether `chrono::DateTime::from_timestamp(ts as i64, 0)` yields a
/// datetime.  chrono represents years -262143..=262142, that is the seconds
/// -8334601228800 (-262143-01-01T00:00:00) through 8210266876799
/// (+262142-12-31T23:59:59); the cast of `ts` to `i64` wraps, so the
/// representable inputs are the small values up to the range's upper end
/// together with the huge values that wrap to at least the range's lower
/// end.
pub open spec fn timestamp_in_range(ts: u64) -> bool {
    ts <= 8210266876799 || ts >= 18446735739108322816
}

/// Relies on `chrono::DateTime::from_timestamp` and `DateTime::format` with
/// `"%Y-%m-%dT%H:%M:%S"`: `from_timestamp` returns `Some` exactly for the
/// in-range seconds values above, and the formatted UTC datetime is a
/// function of the timestamp alone.
#[verifier::external_body]
pub(crate) fn format_utc_datetime(ts: u64) -> (r: Option<String>)
    ensures
        r is Some <==> timestamp_in_range(ts),
        r matches Some(s) ==> s@ == datetime_string_of(ts),
{
    match chrono::DateTime::from_timestamp(ts as i64, 0) {
        Some(dt) => Some(dt.format("%Y-%m-%dT%H:%M:%S").to_string()),
        None => None,
    }
}

} // verus!
