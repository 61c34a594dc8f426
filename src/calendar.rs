//! The UTC calendar date of an instant.
use vstd::prelude::*;

verus! {

/// Instants are taken within this many seconds of the epoch: 10^15 s, about
/// 3.2 * 10^7 years, so that the year always fits in the C `int` that the
/// platform's calendar conversion fills (that limit lies near 6.7 * 10^16 s).
pub const MAX_INSTANT_SECS: i64 = 1_000_000 * 1_000_000_000;

/// The (year, month 1..=12, day 1..=31) of the proleptic Gregorian calendar
/// on which the UTC instant `secs` seconds after 1970-01-01T00:00:00Z falls.
pub open spec fn civil_date(secs: int) -> (int, int, int) {
    let days = secs / 86400;
    let z = days + 719468;
    let era = z / 146097;
    let doe = z - era * 146097;
    let yoe = (doe - doe / 1460 + doe / 36524 - doe / 146096) / 365;
    let doy = doe - (365 * yoe + yoe / 4 - yoe / 100);
    let mp = (5 * doy + 2) / 153;
    let d = doy - (153 * mp + 2) / 5 + 1;
    let m = if mp < 10 { mp + 3 } else { mp - 9 };
    let y = yoe + era * 400 + if m <= 2 { 1int } else { 0int };
    (y, m, d)
}

/// Relies on `time::at_utc`: the broken-down UTC time of an instant, of which
/// this hands on `tm_year` (years since 1900), `tm_mon` (months since January)
/// and `tm_mday` (day of the month). On unix it calls `gmtime_r` and panics
/// when that fails, which happens only when the year does not fit in an
/// `int`, beyond about 6.7 * 10^16 s; the `requires` admits 10^15 s at most.
#[verifier::external_body]
fn utc_tm_fields(secs: i64) -> (r: (i32, i32, i32))
    requires
        -MAX_INSTANT_SECS <= secs <= MAX_INSTANT_SECS,
    ensures
        r.0 as int + 1900 == civil_date(secs as int).0,
        r.1 as int + 1 == civil_date(secs as int).1,
        r.2 as int == civil_date(secs as int).2,
{
    let tm = time::at_utc(time::Timespec::new(secs, 0));
    (tm.tm_year, tm.tm_mon, tm.tm_mday)
}

/// The UTC calendar date (year, month, day) of an instant given in seconds
/// since the epoch.
pub fn utc_date(secs: i64) -> (r: (i64, i64, i64))
    requires
        -MAX_INSTANT_SECS <= secs <= MAX_INSTANT_SECS,
    ensures
        (r.0 as int, r.1 as int, r.2 as int) == civil_date(secs as int),
{
    let (y, m, d) = utc_tm_fields(secs);
    (y as i64 + 1900, m as i64 + 1, d as i64)
}

} // verus!
