//! What the library asks of the machine it runs on: the time and the user's
//! home directory.

use vstd::prelude::*;
use vstd::string::*;

verus! {

/// The moment at which time is counted from, written as a timestamp.
pub open spec fn epoch_text() -> Seq<char> {
    "1970-01-01T00:00:00+00:00"@
}

/// The timestamp to use, given the clock's reading as a timestamp where it
/// could be written as one: that timestamp, else the moment at which time is
/// counted from.
pub open spec fn timestamp_or_epoch_spec(written: Option<Seq<char>>) -> Seq<char> {
    match written {
        Some(text) => text,
        None => epoch_text(),
    }
}

/// The RFC 3339 timestamp that `chrono` writes for the moment `seconds` and
/// `nanos` after the start of the year 1970 in UTC, or nothing where it
/// writes none.
pub uninterp spec fn rfc3339_text(seconds: i64, nanos: u32) -> Option<Seq<char>>;

/// The timestamp for a reading of the clock: what `chrono` writes for the
/// moment read, and the moment at which time is counted from where the
/// clock stands before that moment or beyond the dates that can be written.
pub open spec fn timestamp_spec(reading: Option<(u64, u32)>) -> Seq<char> {
    match reading {
        Some((seconds, nanos)) => if seconds <= i64::MAX {
            timestamp_or_epoch_spec(rfc3339_text(seconds as i64, nanos))
        } else {
            epoch_text()
        },
        None => epoch_text(),
    }
}

/// How long after the start of the year 1970 it is now, in whole seconds and
/// billionths of a second, or nothing where the clock stands before that.
///
/// Reads the clock with `std::time::SystemTime::now` and measures it against
/// `std::time::UNIX_EPOCH`. The answer depends on when the call is made, so
/// nothing is claimed about it: callers are verified for every answer.
#[verifier::external_body]
pub(crate) fn clock_reading() -> (reading: Option<(u64, u32)>) {
    match std::time::SystemTime::now().duration_since(std::time::UNIX_EPOCH) {
        Ok(elapsed) => Some((elapsed.as_secs(), elapsed.subsec_nanos())),
        Err(_) => None,
    }
}

/// The moment `seconds` and `nanos` after the start of the year 1970 in
/// UTC, written as an RFC 3339 timestamp, or nothing where that moment lies
/// outside the dates that can be written.
///
/// Calls `chrono::DateTime::from_timestamp`, which answers with nothing for
/// a moment out of its range, and renders the moment with
/// `chrono::DateTime::to_rfc3339`, which writes into a string. The text
/// depends on the two numbers alone; nothing else is claimed about it.
#[verifier::external_body]
pub(crate) fn rfc3339(seconds: i64, nanos: u32) -> (written: Option<String>)
    ensures
        (match written {
            Some(text) => Some(text@),
            None => None,
        }) == rfc3339_text(seconds, nanos),
{
    match chrono::DateTime::from_timestamp(seconds, nanos) {
        Some(moment) => Some(moment.to_rfc3339()),
        None => None,
    }
}

/// The timestamp to use, given the clock's reading as a timestamp where it
/// could be written as one.
pub(crate) fn timestamp_or_epoch(written: Option<String>) -> (text: String)
    ensures
        text@ == timestamp_or_epoch_spec(
            match written {
                Some(text) => Some(text@),
                None => None,
            },
        ),
{
    match written {
        Some(text) => text,
        None => String::from_str("1970-01-01T00:00:00+00:00"),
    }
}

/// The present moment in UTC, written as an RFC 3339 timestamp. A clock
/// whose reading cannot be written as a date counts as standing at the
/// moment at which time is counted from.
pub fn current_timestamp() -> (now: String)
    ensures
        exists|reading: Option<(u64, u32)>| now@ == timestamp_spec(reading),
{
    let reading = clock_reading();
    let written = match reading {
        Some((seconds, nanos)) => if seconds <= 0x7fff_ffff_ffff_ffff {
            rfc3339(seconds as i64, nanos)
        } else {
            None
        },
        None => None,
    };
    let now = timestamp_or_epoch(written);
    assert(now@ == timestamp_spec(reading));
    now
}

/// The home directory of the current user, as `dirs::home_dir` finds it, or
/// nothing where it finds none or the path is not valid Unicode.
///
/// The answer depends on the environment of the process, so nothing is
/// claimed about it: callers are verified for every answer.
#[verifier::external_body]
pub(crate) fn home_directory() -> (home: Option<String>) {
    match dirs::home_dir() {
        Some(path) => path.into_os_string().into_string().ok(),
        None => None,
    }
}

} // verus!
