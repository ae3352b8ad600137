//! Calendar readings of unix timestamps, taken from the `chrono` library
//! through trusted wrappers, and the conversion from system clock values to
//! unix seconds.
//!
//! The day-of-year and year of a timestamp are pure functions of the
//! timestamp alone; their values are named by uninterpreted spec functions,
//! and everything the selector concludes from them is proved from the
//! wrappers' contracts.

use vstd::prelude::*;

verus! {

/// The largest timestamp the calendar wrappers are relied upon for:
/// 9999-12-31T23:59:59 UTC, far inside chrono's own range.
pub const MAX_CIVIL_TS: i64 = 253402300799;

/// The day of the year (1 through 366) of a unix timestamp on the UTC
/// calendar, as chrono computes it.
pub uninterp spec fn spec_utc_day_of_year(ts: int) -> int;

/// The calendar year of a unix timestamp on the UTC calendar, as chrono
/// computes it.
pub uninterp spec fn spec_utc_year(ts: int) -> int;

/// Relies on chrono's `DateTime::from_timestamp` and `Datelike::ordinal`:
/// the day of the year of `ts` on the UTC calendar. `from_timestamp`
/// returns a value for every timestamp whose date fits chrono's calendar,
/// which covers every `ts` between 0 and [`MAX_CIVIL_TS`]; `ordinal` is
/// documented to lie in 1 through 366.
#[verifier::external_body]
pub fn utc_day_of_year(ts: i64) -> (r: Option<u32>)
    ensures
        0 <= ts <= MAX_CIVIL_TS ==> r.is_some(),
        match r {
            Some(d) => 1 <= d <= 366 && d == spec_utc_day_of_year(ts as int),
            None => true,
        },
{
    chrono::DateTime::from_timestamp(ts, 0).map(|d| chrono::Datelike::ordinal(&d))
}

/// Relies on chrono's `DateTime::from_timestamp` and `Datelike::year`: the
/// calendar year of `ts` on the UTC calendar, defined on the same range as
/// [`utc_day_of_year`].
#[verifier::external_body]
pub fn utc_year(ts: i64) -> (r: Option<i32>)
    ensures
        0 <= ts <= MAX_CIVIL_TS ==> r.is_some(),
        match r {
            Some(y) => y == spec_utc_year(ts as int),
            None => true,
        },
{
    chrono::DateTime::from_timestamp(ts, 0).map(|d| chrono::Datelike::year(&d))
}

#[verifier::external_type_specification]
#[verifier::external_body]
pub struct ExSystemTime(std::time::SystemTime);

/// Relies on std's `SystemTime::duration_since` and `Duration::as_secs`:
/// the whole seconds from the unix epoch to `time`, zero for clock values
/// before the epoch.
#[verifier::external_body]
fn unix_seconds_of(time: std::time::SystemTime) -> (r: u64)
{
    time.duration_since(std::time::UNIX_EPOCH).unwrap_or_default().as_secs()
}

/// The whole seconds from the unix epoch to a system clock value: zero for
/// times before the epoch, saturated at the largest signed count (a bound
/// the calendar itself passed long before any real clock reaches it).
pub fn system_time_to_unix(time: std::time::SystemTime) -> (r: i64)
    ensures
        r >= 0,
{
    let s = unix_seconds_of(time);
    if s > i64::MAX as u64 {
        i64::MAX
    } else {
        s as i64
    }
}

} // verus!
