use vstd::prelude::*;

use crate::civil::CivilDate;
use chrono::Datelike;

verus! {

/// Relies on chrono's `Utc::now` and `DateTime::timestamp`: the current
/// instant as whole seconds since the Unix epoch; nothing can be promised
/// of a clock reading.
#[verifier::external_body]
pub(crate) fn now_utc_seconds() -> i64 {
    chrono::Utc::now().timestamp()
}

/// Relies on chrono's `Local::now`, `DateTime::date_naive` and the
/// `Datelike` accessors: the current local calendar day. A `NaiveDate` is
/// a valid proleptic Gregorian date whose year lies between -262143 and
/// 262142, so its month is 1 to 12 and its day names a real day of that
/// month.
#[verifier::external_body]
pub(crate) fn local_today() -> (r: (i32, u32, u32))
    ensures
        -262143 <= r.0 <= 262142,
        1 <= r.1 <= 12,
        1 <= r.2 <= 31,
        r.0 >= 0 ==> (CivilDate { year: r.0 as u32, month: r.1, day: r.2 }).valid(),
{
    let d = chrono::Local::now().date_naive();
    (d.year(), d.month(), d.day())
}

/// Relies on chrono's `NaiveDate::from_ymd_opt`, `NaiveDate::and_hms_opt`
/// and `TimeZone::from_local_datetime` for the `Local` zone: reads the
/// given wall-clock fields in the machine's time zone and returns the UTC
/// instant as whole seconds; None when the fields name no date or time, or
/// when the zone maps the reading to no single instant (a reading skipped
/// or repeated around an offset change). The result depends on the
/// machine's time zone, so nothing more can be promised of it.
#[verifier::external_body]
pub(crate) fn local_civil_to_utc_seconds(
    year: i32,
    month: u32,
    day: u32,
    hour: u32,
    minute: u32,
    second: u32,
) -> Option<i64> {
    let date = match chrono::NaiveDate::from_ymd_opt(year, month, day) {
        Option::Some(d) => d,
        Option::None => return Option::None,
    };
    let ndt = match date.and_hms_opt(hour, minute, second) {
        Option::Some(t) => t,
        Option::None => return Option::None,
    };
    match chrono::TimeZone::from_local_datetime(&chrono::Local, &ndt).single() {
        Option::Some(dt) => Option::Some(dt.timestamp()),
        Option::None => Option::None,
    }
}

} // verus!
