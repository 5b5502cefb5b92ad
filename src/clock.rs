//! Local wall-clock readings, as plain calendar fields.

use vstd::prelude::*;
use chrono::{Datelike, Timelike};

verus! {

/// A local date and time, with the offset from UTC in seconds.
#[derive(Debug, Clone, Copy, PartialEq, Eq, Structural)]
pub struct LocalStamp {
    pub year: i32,
    pub month: u32,
    pub day: u32,
    pub hour: u32,
    pub minute: u32,
    pub second: u32,
    pub offset: i32,
}

/// The ranges a calendar reading keeps to.
pub open spec fn stamp_ok(t: LocalStamp) -> bool {
    &&& 1 <= t.month <= 12
    &&& 1 <= t.day <= 31
    &&& t.hour < 24
    &&& t.minute < 60
    &&& t.second < 60
    &&& -86400 < t.offset < 86400
}

/// Days from 1970-01-01 to a date of the proleptic Gregorian calendar.
pub open spec fn days_from_civil(y: int, m: int, d: int) -> int {
    let ya = if m <= 2 { y - 1 } else { y };
    let era = ya / 400;
    let yoe = ya - era * 400;
    let mp = if m > 2 { m - 3 } else { m + 9 };
    let doy = (153 * mp + 2) / 5 + d - 1;
    let doe = yoe * 365 + yoe / 4 - yoe / 100 + doy;
    era * 146097 + doe - 719468
}

/// The reading's seconds since 1970-01-01 00:00:00 on its own calendar.
pub open spec fn civil_seconds(t: LocalStamp) -> int {
    days_from_civil(t.year as int, t.month as int, t.day as int) * 86400 + t.hour as int * 3600
        + t.minute as int * 60 + t.second as int
}

/// The first and last UNIX times of the calendar range that a local reading
/// covers: 1 January of the year -262143 and 31 December 262142, 23:59:59.
pub const FIRST_TS: i64 = -8_334_601_228_800;
pub const LAST_TS: i64 = 8_210_266_876_799;

/// The UNIX time that a reading of `ts` shows: `ts` as a signed 64-bit value
/// (so values past `i64::MAX` wrap to negative), or the epoch where that
/// falls outside the calendar range.
pub open spec fn shown_ts(ts: u64) -> int {
    let v = if ts <= i64::MAX { ts as int } else { ts as int - 0x1_0000_0000_0000_0000 };
    if FIRST_TS <= v <= LAST_TS { v } else { 0 }
}

/// Whether a reading shows UNIX time `ts`: its calendar is `shown_ts(ts)`
/// shifted by its offset from UTC.
pub open spec fn reads_as(t: LocalStamp, ts: u64) -> bool {
    civil_seconds(t) == shown_ts(ts) + t.offset
}

/// Relies on chrono's `DateTime::from_timestamp` (a timestamp outside its date
/// range gives `None`, which `unwrap_or_default` turns into the UNIX epoch) and `with_timezone(&Local)`
/// for the machine's local calendar reading of a UNIX time; on `Datelike` and
/// `Timelike` for the field ranges, and on `FixedOffset` holding less than a
/// day either way; and on the local calendar being the UTC calendar of the
/// timestamp shifted by the offset. The offset depends on the machine's time
/// zone.
#[verifier::external_body]
pub(crate) fn local_stamp_of(ts: u64) -> (t: LocalStamp)
    ensures
        stamp_ok(t),
        reads_as(t, ts),
{
    let d = chrono::DateTime::from_timestamp(ts as i64, 0).unwrap_or_default().with_timezone(&chrono::Local);
    LocalStamp {
        year: d.year(),
        month: d.month(),
        day: d.day(),
        hour: d.hour(),
        minute: d.minute(),
        second: d.second(),
        offset: d.offset().local_minus_utc(),
    }
}

/// Relies on chrono's `Local::now` for the current local calendar reading, with
/// the same field ranges as `local_stamp_of`.
#[verifier::external_body]
pub(crate) fn local_now() -> (t: LocalStamp)
    ensures
        stamp_ok(t),
{
    let d = chrono::Local::now();
    LocalStamp {
        year: d.year(),
        month: d.month(),
        day: d.day(),
        hour: d.hour(),
        minute: d.minute(),
        second: d.second(),
        offset: d.offset().local_minus_utc(),
    }
}

} // verus!
