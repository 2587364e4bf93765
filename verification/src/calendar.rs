//! Calendar days as chrono counts them: a date is its number of days
//! since 1970-01-01 (chrono's "epoch days").  Everything that needs the
//! Gregorian calendar itself is delegated to chrono.

use chrono::Datelike;
use vstd::prelude::*;

verus! {

/// Epoch day of chrono's earliest date, -262143-01-01.
pub const MIN_EPOCH_DAY: i32 = -96465292;

/// Epoch day of chrono's latest date, 262142-12-31.
pub const MAX_EPOCH_DAY: i32 = 95026236;

/// Seconds in a UTC day.
pub const SECS_PER_DAY: i64 = 86400;

/// `day` is a date chrono can represent.
pub open spec fn in_calendar(day: int) -> bool {
    MIN_EPOCH_DAY <= day <= MAX_EPOCH_DAY
}

/// Unix timestamp of midnight UTC at the start of epoch day `day`.
pub open spec fn midnight(day: int) -> int {
    day * 86400
}

/// The epoch day that Rust's truncating division `time / 86400` gives.
pub open spec fn day_of_timestamp(time: int) -> int {
    if time >= 0 {
        time / 86400
    } else {
        -((-time) / 86400)
    }
}

/// `time / 86400` with Rust's truncation toward zero.
pub fn epoch_day_of_timestamp(time: i64) -> (day: i64)
    ensures
        day == day_of_timestamp(time as int),
{
    if time >= 0 {
        time / SECS_PER_DAY
    } else {
        let magnitude: u64 = ((-(time + 1)) as u64) + 1;
        let q: u64 = magnitude / 86400;
        -(q as i64)
    }
}

/// Timestamp of midnight UTC starting epoch day `day`.
pub fn midnight_timestamp(day: i64) -> (t: i64)
    requires
        -100_000_000 <= day <= 100_000_000,
    ensures
        t == midnight(day as int),
{
    day * SECS_PER_DAY
}

/// chrono's `YYYY-MM-DD` text of an epoch day.
pub uninterp spec fn ymd_text_of(day: i32) -> Seq<char>;

/// chrono's parse of `text` with format `%Y-%m-%d`: the epoch day, or the
/// text of chrono's parse error.
pub uninterp spec fn ymd_parse_of(text: Seq<char>) -> Result<i32, Seq<char>>;

/// chrono's first day of the month that contains an epoch day.
pub uninterp spec fn month_start_of(day: i32) -> i32;

/// `NaiveDate::from_epoch_days(day)` formatted with `format("%Y-%m-%d")`.
/// The text is whatever chrono renders; this contract only names it.
#[verifier::external_body]
pub fn ymd_text(day: i32) -> (text: String)
    requires
        in_calendar(day as int),
    ensures
        text@ == ymd_text_of(day),
{
    chrono::NaiveDate::from_epoch_days(day).unwrap().format("%Y-%m-%d").to_string()
}

/// `NaiveDate::parse_from_str(text, "%Y-%m-%d")`, the date taken as its
/// epoch day and the error as its display text.  Any date chrono returns
/// lies in its calendar.
#[verifier::external_body]
pub fn parse_ymd(text: &str) -> (r: Result<i32, String>)
    ensures
        match r {
            Ok(day) => ymd_parse_of(text@) == Ok::<i32, Seq<char>>(day) && in_calendar(day as int),
            Err(e) => ymd_parse_of(text@) == Err::<i32, Seq<char>>(e@),
        },
{
    match chrono::NaiveDate::parse_from_str(text, "%Y-%m-%d") {
        Ok(date) => Ok(date.to_epoch_days()),
        Err(e) => Err(e.to_string()),
    }
}

/// `Datelike::with_day(1)` on the date of an epoch day: the first day of
/// its month, which lies at most 30 days earlier.
#[verifier::external_body]
pub fn month_start(day: i32) -> (first: i32)
    requires
        in_calendar(day as int),
    ensures
        first == month_start_of(day),
        day - 30 <= first <= day,
        in_calendar(first as int),
{
    chrono::NaiveDate::from_epoch_days(day).unwrap().with_day(1).unwrap().to_epoch_days()
}

/// `SystemTime::now().duration_since(UNIX_EPOCH)` in whole seconds, or
/// `None` when the system clock reads earlier than the Unix epoch.  The
/// reading depends on the clock; nothing more is stated of it.
#[verifier::external_body]
pub(crate) fn clock_seconds() -> (r: Option<u64>) {
    match std::time::SystemTime::now().duration_since(std::time::UNIX_EPOCH) {
        Ok(d) => Some(d.as_secs()),
        Err(_) => None,
    }
}

/// The UTC epoch day of a clock reading in seconds since the epoch, when
/// it lies in the calendar and is not its last day (whose next day
/// cannot be formed).
pub open spec fn clock_day(clock: Option<u64>) -> Option<int> {
    match clock {
        Some(secs) => if secs / 86400 < MAX_EPOCH_DAY {
            Some((secs / 86400) as int)
        } else {
            None
        },
        None => None,
    }
}

/// The epoch day of a clock reading (see `clock_day`).
pub fn day_of_clock(clock: Option<u64>) -> (r: Option<i32>)
    ensures
        match r {
            Some(d) => clock_day(clock) == Some(d as int),
            None => clock_day(clock) is None,
        },
{
    match clock {
        Some(secs) => {
            let day = secs / 86400;
            if day < MAX_EPOCH_DAY as u64 {
                Some(day as i32)
            } else {
                None
            }
        },
        None => None,
    }
}

/// Today's UTC epoch day by the system clock, or `None` when the clock
/// reads before 1970 or at or after the calendar's last day.
pub fn today_epoch_day() -> (r: Option<i32>)
    ensures
        r matches Some(d) ==> 0 <= d < MAX_EPOCH_DAY,
{
    day_of_clock(clock_seconds())
}

} // verus!
