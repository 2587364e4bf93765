//! Decisions of the `status` command: which time range to report on.

use crate::calendar::{in_calendar, midnight, midnight_timestamp, parse_ymd, MAX_EPOCH_DAY, MIN_EPOCH_DAY};
use crate::error::DeepSeekError;
use crate::text::{chars_of, find_substring, has_substring, occurs_at, string_of_range, trim, trim_seq};
use crate::usage::{compute_time_range, compute_time_range_from_dates, dates_range, dates_range_overflows, period_range};
use vstd::prelude::*;
use vstd::string::StringExecFns;

verus! {

/// The longest range the platform reports on, in days.
pub const MAX_RANGE_DAYS: i64 = 30;

/// How the time range of a `status` run is obtained.
pub enum RangePlan {
    /// The range, or why the arguments are refused.
    Ready(Result<(i64, i64), DeepSeekError>),
    /// No argument decides: ask the user.
    Prompt,
    /// The end date is chrono's last date; the day after it cannot be formed.
    EndDateOverflow,
    /// The system clock gives no usable day (before 1970, or at the
    /// calendar's end).
    ClockUnusable,
}

pub open spec fn parse_error_is(r: Result<(i64, i64), DeepSeekError>, text: Seq<char>) -> bool {
    r matches Err(DeepSeekError::Parse(m)) && m@ == text
}

/// The range of explicit dates, refused when it spans more than 30 days.
pub open spec fn checked_dates_range(start: Seq<char>, end: Seq<char>) -> Result<(int, int), Seq<char>> {
    match dates_range(start, end) {
        Ok(r) => if (r.1 - r.0) / 86400 > 30 {
            Err("date range cannot exceed 30 days"@)
        } else {
            Ok(r)
        },
        Err(e) => Err(e),
    }
}

/// Chooses the time range: explicit `--start`/`--end` first (both or
/// neither, at most 30 days), then `--period`, then today when prompts are
/// off (`--json`, `--no-interactive`), else a prompt.
pub fn plan_time_range(
    period: Option<String>,
    start: Option<String>,
    end: Option<String>,
    no_interactive: bool,
    json: bool,
) -> (plan: RangePlan)
    ensures
        match (start, end) {
            (Some(s), Some(e)) => if dates_range_overflows(s@, e@) {
                plan is EndDateOverflow
            } else {
                plan matches RangePlan::Ready(r) && match (r, checked_dates_range(s@, e@)) {
                    (Ok(got), Ok(want)) => (got.0 as int, got.1 as int) == want,
                    (Err(DeepSeekError::Parse(m)), Err(want)) => m@ == want,
                    _ => false,
                }
            },
            (Some(_), None) | (None, Some(_)) => plan matches RangePlan::Ready(r) && parse_error_is(
                r,
                "--start and --end must be used together"@,
            ),
            (None, None) => match period {
                Some(p) => plan is ClockUnusable || (plan matches RangePlan::Ready(Ok(got)) && exists|today: int|
                    0 <= today < MAX_EPOCH_DAY && (got.0 as int, got.1 as int) == period_range(p@, today)),
                None => if json || no_interactive {
                    plan is ClockUnusable || (plan matches RangePlan::Ready(Ok(got)) && exists|today: int|
                        0 <= today < MAX_EPOCH_DAY && (got.0 as int, got.1 as int) == period_range("today"@, today))
                } else {
                    plan is Prompt
                },
            },
        },
{
    match (&start, &end) {
        (Some(s), Some(e)) => {
            let overflow = match (parse_ymd(s.as_str()), parse_ymd(e.as_str())) {
                (Ok(_), Ok(d)) => d == MAX_EPOCH_DAY,
                _ => false,
            };
            if overflow {
                return RangePlan::EndDateOverflow;
            }
            let range = match compute_time_range_from_dates(s.as_str(), e.as_str()) {
                Ok(r) => r,
                Err(err) => return RangePlan::Ready(Err(err)),
            };
            let days = (range.1 - range.0) / 86400;
            if days > MAX_RANGE_DAYS {
                return RangePlan::Ready(Err(DeepSeekError::Parse(String::from_str("date range cannot exceed 30 days"))));
            }
            return RangePlan::Ready(Ok(range));
        },
        (None, None) => {},
        _ => {
            return RangePlan::Ready(
                Err(DeepSeekError::Parse(String::from_str("--start and --end must be used together"))),
            );
        },
    }
    let key = match &period {
        Some(p) => p.as_str(),
        None => if json || no_interactive {
            "today"
        } else {
            return RangePlan::Prompt;
        },
    };
    match compute_time_range(key) {
        Some(r) => RangePlan::Ready(Ok(r)),
        None => RangePlan::ClockUnusable,
    }
}

/// The text before the first occurrence of `sep` (all of `s` without one).
pub open spec fn before_separator(s: Seq<char>, sep: Seq<char>) -> Seq<char> {
    if has_substring(s, sep) {
        s.take(choose|i: int| occurs_at(s, sep, i) && forall|j: int| 0 <= j < i ==> !occurs_at(s, sep, j))
    } else {
        s
    }
}

/// The period key of a menu line `"<key> — <description>"`: the trimmed text
/// before the first `" — "`.
pub fn menu_choice_key(selected: &str) -> (key: String)
    ensures
        key@ == trim_seq(before_separator(selected@, " — "@)),
{
    let v = chars_of(selected);
    let sep = chars_of(" — ");
    let head = match find_substring(&v, &sep) {
        Some(i) => {
            let ghost c = choose|k: int| occurs_at(v@, sep@, k) && forall|j: int| 0 <= j < k ==> !occurs_at(v@, sep@, j);
            assert(c == i as int) by {
                if c < i {
                } else if c > i {
                }
            }
            assert(v@.subrange(0, i as int) =~= v@.take(i as int));
            string_of_range(&v, 0, i)
        },
        None => {
            assert(v@.subrange(0, v@.len() as int) =~= v@);
            string_of_range(&v, 0, v.len())
        },
    };
    trim(head.as_str())
}

/// The start-date prompt on epoch day `today`: the earliest date offered
/// (a year back), the date shown first (29 days back) and the latest (today).
pub fn start_date_bounds(today: i32) -> (r: (i32, i32, i32))
    requires
        MIN_EPOCH_DAY + 365 <= today,
    ensures
        r.0 == today - 365,
        r.1 == today - 29,
        r.2 == today,
{
    (today - 365, today - 29, today)
}

/// The latest end date the end-date prompt offers after `start`: 29 days
/// on (a range of 30 days, both ends counted), but never after today.
pub fn end_date_limit(start: i32, today: i32) -> (r: i32)
    requires
        start + 29 <= MAX_EPOCH_DAY,
    ensures
        r as int == if start + 29 > today {
            today as int
        } else {
            start + 29
        },
{
    let max_end = start + 29;
    if max_end > today {
        today
    } else {
        max_end
    }
}

/// The range picked with the date prompts: at most 30 days, both ends
/// counted (the end at most 29 days after the start), as for `--start` and
/// `--end`; the end exclusive (midnight after the end date).
pub open spec fn picked_range(start_day: int, end_day: int) -> Result<(int, int), Seq<char>> {
    if end_day - start_day > 29 {
        Err("date range cannot exceed 30 days"@)
    } else {
        Ok((midnight(start_day), midnight(end_day + 1)))
    }
}

/// The range of two picked dates (epoch days).
pub fn custom_range(start_day: i32, end_day: i32) -> (r: Result<(i64, i64), DeepSeekError>)
    requires
        in_calendar(start_day as int),
        in_calendar(end_day as int),
        end_day < MAX_EPOCH_DAY,
    ensures
        match (r, picked_range(start_day as int, end_day as int)) {
            (Ok(got), Ok(want)) => (got.0 as int, got.1 as int) == want,
            (Err(DeepSeekError::Parse(m)), Err(want)) => m@ == want,
            _ => false,
        },
{
    if end_day as i64 - start_day as i64 >= MAX_RANGE_DAYS {
        return Err(DeepSeekError::Parse(String::from_str("date range cannot exceed 30 days")));
    }
    Ok((midnight_timestamp(start_day as i64), midnight_timestamp(end_day as i64 + 1)))
}


/// A range given with `--start`/`--end` that is accepted spans at most 30
/// whole days.
pub proof fn law_explicit_range_at_most_30_days(start: Seq<char>, end: Seq<char>)
    ensures
        checked_dates_range(start, end) matches Ok(r) ==> 0 < r.1 - r.0 <= 30 * 86400,
{
    crate::usage::law_dates_range_whole_days(start, end);
    if let Ok(r) = checked_dates_range(start, end) {
        let w = r.1 - r.0;
        assert(w % 86400 == 0);
        assert(w / 86400 <= 30);
        assert(w <= 30 * 86400) by (nonlinear_arith)
            requires
                w / 86400 <= 30,
                w % 86400 == 0,
                w > 0,
        ;
    }
}

/// Dates picked with the prompts span at most 30 whole days, as an
/// accepted `--start`/`--end` range does.
pub proof fn law_picked_range_at_most_30_days(start_day: int, end_day: int)
    requires
        start_day <= end_day,
    ensures
        picked_range(start_day, end_day) matches Ok(r) ==> 0 < r.1 - r.0 <= 30 * 86400,
{
    if let Ok(r) = picked_range(start_day, end_day) {
        assert(r.1 - r.0 == (end_day + 1 - start_day) * 86400);
    }
}

} // verus!
