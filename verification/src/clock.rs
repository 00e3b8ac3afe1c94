//! The invocation clock's calendar reading: one timestamp per invocation,
//! read as a date either in the machine's local time zone or in UTC shifted by
//! an engine-requested whole-hour offset.

use vstd::prelude::*;

use chrono::Datelike;
use chrono::TimeZone;

verus! {

/// What the proleptic Gregorian calendar says for an epoch timestamp shifted
/// by whole hours: year, month and day — a function of the arguments alone.
pub uninterp spec fn utc_shifted_ymd_of(epoch_secs: i64, hours: i64) -> Option<(i32, u8, u8)>;

/// Relies on chrono's UTC calendar arithmetic (`DateTime::from_timestamp`,
/// `Duration::try_hours`, `Datelike`): deterministic in its arguments, months
/// one to twelve and days one to thirty-one.
#[verifier::external_body]
fn utc_shifted_ymd(epoch_secs: i64, hours: i64) -> (r: Option<(i32, u8, u8)>)
    ensures
        r == utc_shifted_ymd_of(epoch_secs, hours),
        r is Some ==> 1 <= (r->0).1 <= 12 && 1 <= (r->0).2 <= 31,
{
    let base = match chrono::DateTime::from_timestamp(epoch_secs, 0) {
        Some(b) => b,
        None => return None,
    };
    let dur = match chrono::Duration::try_hours(hours) {
        Some(d) => d,
        None => return None,
    };
    let shifted = match base.naive_utc().checked_add_signed(dur) {
        Some(s) => s,
        None => return None,
    };
    Some((shifted.year(), shifted.month() as u8, shifted.day() as u8))
}

/// Relies on chrono's local-time conversion: the calendar date of the epoch
/// timestamp in the machine's time zone. The value depends on the
/// environment, so only the calendar ranges are promised.
#[verifier::external_body]
fn local_ymd(epoch_secs: i64) -> (r: Option<(i32, u8, u8)>)
    ensures
        r is Some ==> 1 <= (r->0).1 <= 12 && 1 <= (r->0).2 <= 31,
{
    let dt = match chrono::Local.timestamp_opt(epoch_secs, 0).single() {
        Some(d) => d,
        None => return None,
    };
    Some((dt.year(), dt.month() as u8, dt.day() as u8))
}

/// The date the engine's clock query gets from the invocation's single
/// timestamp: with no offset, the local calendar date; with an offset, the UTC
/// date shifted by that many whole hours.
pub fn today_ymd(epoch_secs: i64, offset_hours: Option<i64>) -> (r: Option<(i32, u8, u8)>)
    ensures
        offset_hours is Some ==> r == utc_shifted_ymd_of(epoch_secs, offset_hours->0),
        r is Some ==> 1 <= (r->0).1 <= 12 && 1 <= (r->0).2 <= 31,
{
    match offset_hours {
        None => local_ymd(epoch_secs),
        Some(hours) => utc_shifted_ymd(epoch_secs, hours),
    }
}

} // verus!
