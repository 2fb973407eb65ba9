//! Timestamps as text. The calendar arithmetic is `chrono`'s.

use chrono::{DateTime, LocalResult, TimeZone, Utc};
use vstd::prelude::*;

verus! {

/// The UTC date and time, to the minute, of an instant given in milliseconds
/// since 1970-01-01 00:00:00 UTC, written as `chrono` formats it with
/// `%Y-%m-%d %H:%M`; nothing where `chrono` cannot represent the instant.
pub uninterp spec fn utc_minute_text(millis: i64) -> Option<Seq<char>>;

/// Calls `Utc.timestamp_millis_opt` and, where it yields a single instant,
/// `DateTime::format` with `%Y-%m-%d %H:%M`. The result is named
/// `utc_minute_text`.
#[verifier::external_body]
fn format_utc_minute(millis: i64) -> (r: Option<String>)
    ensures
        text_view(r) == utc_minute_text(millis),
{
    match Utc.timestamp_millis_opt(millis) {
        LocalResult::Single(at) => Some(at.format("%Y-%m-%d %H:%M").to_string()),
        _ => None,
    }
}

/// The UTC date and time, to the second, of an instant given in whole
/// seconds since 1970-01-01 00:00:00 UTC, written as `chrono` formats it
/// with `%Y-%m-%d %H:%M:%S`; nothing where `chrono` cannot represent the
/// instant.
pub uninterp spec fn utc_second_text(seconds: i64) -> Option<Seq<char>>;

/// Calls `DateTime::from_timestamp` with no nanoseconds and, where it yields
/// an instant, `DateTime::format` with `%Y-%m-%d %H:%M:%S`. The result is
/// named `utc_second_text`.
#[verifier::external_body]
fn format_utc_second(seconds: i64) -> (r: Option<String>)
    ensures
        text_view(r) == utc_second_text(seconds),
{
    match DateTime::from_timestamp(seconds, 0) {
        Some(at) => Some(at.format("%Y-%m-%d %H:%M:%S").to_string()),
        None => None,
    }
}

/// Calls `SystemTime::elapsed` on `UNIX_EPOCH`: the whole seconds that the
/// system clock counts since 1970, or nothing where the clock stands before
/// that. Nothing is claimed of the number: it depends on the clock.
#[verifier::external_body]
fn seconds_since_epoch() -> Option<u64> {
    match std::time::UNIX_EPOCH.elapsed() {
        Ok(since) => Some(since.as_secs()),
        Err(_) => None,
    }
}

/// The characters of an optional string.
pub open spec fn text_view(s: Option<String>) -> Option<Seq<char>> {
    match s {
        Some(t) => Some(t@),
        None => None,
    }
}

/// The characters of an optional string slice.
pub open spec fn str_view(s: Option<&str>) -> Option<Seq<char>> {
    match s {
        Some(t) => Some(t@),
        None => None,
    }
}

/// The text shown for a timestamp in milliseconds: absent for a timestamp
/// that is not positive or that lies outside the calendar.
pub open spec fn timestamp_text(ts: i64) -> Option<Seq<char>> {
    if ts <= 0 {
        None
    } else {
        utc_minute_text(ts)
    }
}

/// Formats a timestamp in milliseconds as `YYYY-MM-DD HH:MM` in UTC.
pub fn timestamp_to_string(ts: i64) -> (r: Option<String>)
    ensures
        text_view(r) == timestamp_text(ts),
{
    if ts <= 0 {
        return None;
    }
    format_utc_minute(ts)
}

/// The text that stamps a reading of the clock, given in whole seconds
/// since 1970: the instant as `YYYY-MM-DD HH:MM:SS` in UTC; empty where the
/// clock gave no reading or one outside the calendar.
pub open spec fn stamp_text(reading: Option<u64>) -> Seq<char> {
    match reading {
        Some(seconds) => if seconds <= i64::MAX {
            match utc_second_text(seconds as i64) {
                Some(text) => text,
                None => Seq::empty(),
            }
        } else {
            Seq::empty()
        },
        None => Seq::empty(),
    }
}

/// Writes the stamp for a reading of the clock.
pub fn timestamp_of_reading(reading: Option<u64>) -> (r: String)
    ensures
        r@ == stamp_text(reading),
{
    match reading {
        Some(seconds) => if seconds <= 0x7fff_ffff_ffff_ffffu64 {
            match format_utc_second(seconds as i64) {
                Some(text) => text,
                None => String::new(),
            }
        } else {
            String::new()
        },
        None => String::new(),
    }
}

/// Reads the system clock: the whole seconds since 1970, or nothing where
/// the clock stands before that.
pub fn read_clock() -> Option<u64> {
    seconds_since_epoch()
}

} // verus!
