//! The clock: the single source of the timestamps that mutations record,
//! ISO 8601 UTC to the second (`YYYY-MM-DDTHH:MM:SSZ`).

use vstd::prelude::*;
use crate::error::{AppError, ErrorView};

verus! {

/// `c` is an ASCII decimal digit.
pub open spec fn is_ascii_digit(c: char) -> bool {
    '0' <= c <= '9'
}

/// `s` has the shape of a timestamp `…YYYY-MM-DDTHH:MM:SSZ`, read from its
/// end: at least 20 characters, the separators `-`, `-`, `T`, `:`, `:` and
/// `Z` in their places, and digits in every other of the last 20 places (a
/// year past 9999 takes more characters in front).
pub open spec fn is_utc_timestamp(s: Seq<char>) -> bool {
    let n = s.len() as int;
    &&& n >= 20
    &&& s[n - 1] == 'Z'
    &&& s[n - 4] == ':'
    &&& s[n - 7] == ':'
    &&& s[n - 10] == 'T'
    &&& s[n - 13] == '-'
    &&& s[n - 16] == '-'
    &&& forall|k: int|
        1 <= k <= 20 && k != 1 && k != 4 && k != 7 && k != 10 && k != 13 && k != 16 ==> is_ascii_digit(
            #[trigger] s[n - k],
        )
}

/// The text that chrono's `%Y-%m-%dT%H:%M:%SZ` format gives for the UTC time
/// `secs` seconds after 1970-01-01T00:00:00Z.
pub uninterp spec fn utc_iso8601(secs: i64) -> Seq<char>;

/// The system clock's reading, `std::time::SystemTime`, carried as it is.
#[verifier::external_type_specification]
#[verifier::external_body]
pub struct ExSystemTime(std::time::SystemTime);

/// Calls `SystemTime::now()`. Trusted; nothing is claimed of the reading: it
/// depends on the clock.
#[verifier::external_body]
fn system_now() -> std::time::SystemTime {
    std::time::SystemTime::now()
}

/// Calls `t.duration_since(UNIX_EPOCH)`, turning its error into `None`.
/// Trusted; nothing is claimed of the result (the documentation says it is
/// an error exactly when `t` is before the epoch, which no clause here can
/// state, as the reading is opaque).
#[verifier::external_body]
fn since_epoch(t: &std::time::SystemTime) -> Option<core::time::Duration> {
    t.duration_since(std::time::UNIX_EPOCH).ok()
}

/// Calls `Duration::as_secs`: the whole seconds of `d`. Trusted; nothing is
/// claimed of the count, as the duration is opaque.
#[verifier::external_body]
fn whole_seconds(d: &core::time::Duration) -> u64 {
    d.as_secs()
}

/// Whole seconds since the Unix epoch by the system clock; `None` when the
/// clock reads a time before 1970 or a count past `i64::MAX`.
fn unix_seconds() -> (r: Option<i64>)
    ensures
        r matches Some(secs) ==> secs >= 0,
{
    let now = system_now();
    match since_epoch(&now) {
        None => None,
        Some(d) => {
            let secs = whole_seconds(&d);
            if secs <= 9223372036854775807u64 {
                Some(secs as i64)
            } else {
                None
            }
        },
    }
}

/// Calls chrono's `DateTime::from_timestamp(secs, 0)` and formats the result
/// with `%Y-%m-%dT%H:%M:%SZ`. Trusted: `from_timestamp` returns `None` only
/// for a count of seconds outside chrono's range of dates, which holds every
/// time up to 9999-12-31T23:59:59Z; the format writes the year with at least
/// four digits, then month, day, hour, minute and second with two each.
#[verifier::external_body]
fn format_utc_iso8601(secs: i64) -> (r: Option<String>)
    ensures
        r matches Some(s) ==> s@ == utc_iso8601(secs) && is_utc_timestamp(s@),
        r matches Some(s) ==> (0 <= secs <= 253402300799 ==> s@.len() == 20),
        r is None ==> secs < 0 || secs > 253402300799,
{
    chrono::DateTime::from_timestamp(secs, 0).map(|t| t.format("%Y-%m-%dT%H:%M:%SZ").to_string())
}

/// The current UTC time to the second, in ISO 8601; `None` when the system
/// clock reads a time before 1970 or past what can be written.
pub fn now_iso8601() -> (r: Option<String>)
    ensures
        r matches Some(s) ==> is_utc_timestamp(s@),
        r matches Some(s) ==> exists|secs: i64| secs >= 0 && s@ == #[trigger] utc_iso8601(secs),
{
    match unix_seconds() {
        Some(secs) => format_utc_iso8601(secs),
        None => None,
    }
}

/// The error of a request that found the clock unreadable.
pub open spec fn clock_error() -> ErrorView {
    ErrorView::Db("system clock reads a time that cannot be recorded"@)
}

/// The error `clock_error` says.
pub fn clock_unreadable() -> (e: AppError)
    ensures
        e@ == clock_error(),
{
    AppError::Db("system clock reads a time that cannot be recorded".to_owned())
}

} // verus!
