//! How long ago a commit was made, in words.

use vstd::prelude::*;
use vstd::string::StringExecFns;
use crate::decimal::{decimal_text, to_decimal};

verus! {

pub const SECONDS_PER_MINUTE: u64 = 60;

pub const SECONDS_PER_HOUR: u64 = 3_600;

pub const SECONDS_PER_DAY: u64 = 86_400;

pub const DAYS_PER_MONTH: u64 = 30;

pub const DAYS_PER_YEAR: u64 = 365;

/// `a` divided by `b`, rounded toward zero.
pub open spec fn truncated_quotient(a: int, b: int) -> int
    recommends
        b > 0,
{
    if a >= 0 {
        a / b
    } else {
        -((-a) / b)
    }
}

/// The whole seconds from the instant `timestamp` to the instant `now`, both
/// in seconds since the Unix epoch. Negative where `timestamp` is the later one.
pub open spec fn elapsed_seconds(now: i64, timestamp: i64) -> int {
    now - timestamp
}

/// The whole minutes in `elapsed` seconds.
pub open spec fn whole_minutes(elapsed: int) -> int {
    truncated_quotient(elapsed, SECONDS_PER_MINUTE as int)
}

/// The whole hours in `elapsed` seconds.
pub open spec fn whole_hours(elapsed: int) -> int {
    truncated_quotient(elapsed, SECONDS_PER_HOUR as int)
}

/// The whole days in `elapsed` seconds.
pub open spec fn whole_days(elapsed: int) -> int {
    truncated_quotient(elapsed, SECONDS_PER_DAY as int)
}

/// `count` in decimal notation, followed by `unit`.
pub open spec fn counted(count: int, unit: Seq<char>) -> Seq<char> {
    decimal_text(count as nat) + unit
}

/// The age of something that happened `elapsed` seconds ago. It is counted in
/// whole days: more than 365 of them are given as years of 365 days, more than
/// 30 as months of 30 days, and any others as days. Within the first day it is
/// counted in whole hours, within the first hour in whole minutes. Within the
/// first minute, and for a time still to come, it is "just now".
pub open spec fn age_phrase(elapsed: int) -> Seq<char> {
    let days = whole_days(elapsed);
    if days > DAYS_PER_YEAR {
        counted(truncated_quotient(days, DAYS_PER_YEAR as int), " years ago"@)
    } else if days > DAYS_PER_MONTH {
        counted(truncated_quotient(days, DAYS_PER_MONTH as int), " months ago"@)
    } else if days > 0 {
        counted(days, " days ago"@)
    } else if whole_hours(elapsed) > 0 {
        counted(whole_hours(elapsed), " hours ago"@)
    } else if whole_minutes(elapsed) > 0 {
        counted(whole_minutes(elapsed), " minutes ago"@)
    } else {
        "just now"@
    }
}

/// The age phrase by the seconds elapsed: where each unit begins, and what is
/// counted in it.
pub proof fn lemma_age_phrase_by_seconds(elapsed: int)
    ensures
        elapsed < 60 ==> age_phrase(elapsed) == "just now"@,
        60 <= elapsed < 3_600 ==> age_phrase(elapsed) == counted(elapsed / 60, " minutes ago"@),
        3_600 <= elapsed < 86_400 ==> age_phrase(elapsed) == counted(
            elapsed / 3_600,
            " hours ago"@,
        ),
        86_400 <= elapsed < 31 * 86_400 ==> age_phrase(elapsed) == counted(
            elapsed / 86_400,
            " days ago"@,
        ),
        31 * 86_400 <= elapsed < 366 * 86_400 ==> age_phrase(elapsed) == counted(
            elapsed / 86_400 / 30,
            " months ago"@,
        ),
        366 * 86_400 <= elapsed ==> age_phrase(elapsed) == counted(
            elapsed / 86_400 / 365,
            " years ago"@,
        ),
{
}

/// The current time in whole seconds since the Unix epoch: the system clock,
/// read with `std::time::SystemTime::now`, turned into a `chrono::DateTime`
/// by its `From<SystemTime>` and into seconds by `chrono::DateTime::timestamp`.
/// The conversion takes a clock that stands before the epoch as well, and
/// gives a negative number for it; it refuses only a time outside the years
/// that chrono can hold, further off than any system clock goes. Nothing is
/// claimed of what comes back: the clock moves between two calls, and it may
/// be set to any time.
#[verifier::external_body]
fn current_timestamp() -> (now: i64) {
    chrono::DateTime::<chrono::Utc>::from(std::time::SystemTime::now()).timestamp()
}

fn counted_text(count: u64, unit: &str) -> (phrase: String)
    ensures
        phrase@ == counted(count as int, unit@),
{
    let mut phrase = to_decimal(count);
    phrase.append(unit);
    phrase
}

/// The age at the instant `now` of a commit made at `timestamp`, both in
/// seconds since the Unix epoch.
pub fn relative_age(now: i64, timestamp: i64) -> (phrase: String)
    ensures
        phrase@ == age_phrase(elapsed_seconds(now, timestamp)),
{
    let elapsed: i128 = now as i128 - timestamp as i128;
    if elapsed < SECONDS_PER_MINUTE as i128 {
        return String::from_str("just now");
    }
    let seconds: u64 = elapsed as u64;
    let days: u64 = seconds / SECONDS_PER_DAY;
    if days > DAYS_PER_YEAR {
        counted_text(days / DAYS_PER_YEAR, " years ago")
    } else if days > DAYS_PER_MONTH {
        counted_text(days / DAYS_PER_MONTH, " months ago")
    } else if days > 0 {
        counted_text(days, " days ago")
    } else if seconds >= SECONDS_PER_HOUR {
        counted_text(seconds / SECONDS_PER_HOUR, " hours ago")
    } else {
        counted_text(seconds / SECONDS_PER_MINUTE, " minutes ago")
    }
}

/// The age, at the time of the call, of a commit made at `timestamp` seconds
/// since the Unix epoch.
pub fn format_duration(timestamp: i64) -> (phrase: String)
    ensures
        exists|now: i64| phrase@ == age_phrase(#[trigger] elapsed_seconds(now, timestamp)),
{
    let now: i64 = current_timestamp();
    relative_age(now, timestamp)
}

} // verus!
