use vstd::prelude::*;

use crate::timestamp::Timestamp;

use chrono::Datelike;
use chrono::Timelike;

verus! {

/// Relies on chrono's `Utc::now` together with the `Datelike` and
/// `Timelike` accessors: `month` is 1..=12, `day` is 1..=31, `hour` is
/// 0..=23, `minute` and `second` are 0..=59. Nothing is promised of the
/// year, and nothing of which instant the clock reports.
#[verifier::external_body]
fn now_fields() -> (r: (i32, u32, u32, u32, u32, u32))
    ensures
        1 <= r.1 <= 12,
        1 <= r.2 <= 31,
        r.3 <= 23,
        r.4 <= 59,
        r.5 <= 59,
{
    let d = chrono::Utc::now();
    (d.year(), d.month(), d.day(), d.hour(), d.minute(), d.second())
}

/// Reads the current UTC time from the system clock.
///
/// The instant itself is outside any contract (two calls may differ);
/// what is guaranteed is that the returned fields are a well-formed
/// calendar time. A year outside 0..=9999 — which no real clock
/// reports — is clamped to that span so that the result always
/// serializes to a four-digit year.
pub fn now_utc() -> (t: Timestamp)
    ensures
        t.wf(),
{
    let (y, mo, d, h, mi, s) = now_fields();
    let year: u16 = if y < 0 {
        0
    } else if y > 9999 {
        9999
    } else {
        y as u16
    };
    Timestamp {
        year,
        month: mo as u8,
        day: d as u8,
        hour: h as u8,
        minute: mi as u8,
        second: s as u8,
    }
}

} // verus!
