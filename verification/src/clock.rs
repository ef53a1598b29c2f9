//! Timestamps as text, for reports.

use chrono::{NaiveDateTime, TimeZone};
use chrono_tz::Asia::Shanghai;
use vstd::prelude::*;
use crate::arith::{floor_div, floor_rem};

verus! {

/// Nanoseconds in one second.
pub const NANOS_PER_SECOND: i64 = 1_000_000_000;

/// The wall-clock time in Shanghai at `secs` seconds and `nsecs` nanoseconds
/// after the Unix epoch, written as month-day, a space, and
/// hour:minute:second with nine decimals.
pub uninterp spec fn shanghai_time_text(secs: i64, nsecs: u32) -> Seq<char>;

/// Formats an instant as Shanghai wall-clock time.
///
/// Calls `chrono::NaiveDateTime::from_timestamp`, converts the result with
/// `chrono::TimeZone::from_utc_datetime` of `chrono_tz::Asia::Shanghai`, and
/// formats it with `chrono::DateTime::format` under `%m-%d %H:%M:%S%.9f`.
/// Nothing of this is proved: the contract only names the text that these
/// calls give for the instant. The instants admitted are those that chrono
/// takes without panicking: whole seconds within 292 years of the epoch and
/// less than a second of nanoseconds.
#[verifier::external_body]
fn shanghai_text(secs: i64, nsecs: u32) -> (r: String)
    requires
        nsecs < 1_000_000_000,
        -9_223_372_037 <= secs <= 9_223_372_036,
    ensures
        r@ == shanghai_time_text(secs, nsecs),
{
    #[allow(deprecated)]
    let naive = NaiveDateTime::from_timestamp(secs, nsecs);
    Shanghai.from_utc_datetime(&naive).format("%m-%d %H:%M:%S%.9f").to_string()
}

/// The Shanghai wall-clock time of a timestamp in nanoseconds since the
/// Unix epoch, as `MM-DD HH:MM:SS.nnnnnnnnn`.
pub fn nanos_to_ymdhms(nanos: i64) -> (r: String)
    ensures
        r@ == shanghai_time_text(
            (nanos as int / NANOS_PER_SECOND as int) as i64,
            (nanos as int % NANOS_PER_SECOND as int) as u32,
        ),
{
    let secs: i64 = floor_div(nanos, NANOS_PER_SECOND);
    let nsecs: i64 = floor_rem(nanos, NANOS_PER_SECOND);
    shanghai_text(secs, nsecs as u32)
}

} // verus!
