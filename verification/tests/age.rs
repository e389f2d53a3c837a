use chrono::{DateTime, TimeZone, Utc};
use file_ages::age::{format_duration, relative_age};

const NOW: i64 = 1_700_000_000;

const DAY: i64 = 86_400;

/// The phrase as chrono's own durations give it.
fn phrase_by_chrono(now: i64, nanos: u32, timestamp: i64) -> String {
    let now = DateTime::from_timestamp(now, nanos).unwrap();
    let commit_time = Utc.timestamp_opt(timestamp, 0).unwrap();
    let duration = now.signed_duration_since(commit_time);
    if duration.num_days() > 365 {
        format!("{} years ago", duration.num_days() / 365)
    } else if duration.num_days() > 30 {
        format!("{} months ago", duration.num_days() / 30)
    } else if duration.num_days() > 0 {
        format!("{} days ago", duration.num_days())
    } else if duration.num_hours() > 0 {
        format!("{} hours ago", duration.num_hours())
    } else if duration.num_minutes() > 0 {
        format!("{} minutes ago", duration.num_minutes())
    } else {
        "just now".to_string()
    }
}

#[test]
fn commit_made_now_is_just_now() {
    assert_eq!(relative_age(NOW, NOW), "just now");
    assert_eq!(relative_age(0, 0), "just now");
    assert_eq!(relative_age(-5, -5), "just now");
    assert_eq!(relative_age(i64::MAX, i64::MAX), "just now");
    assert_eq!(relative_age(i64::MIN, i64::MIN), "just now");
}

#[test]
fn twenty_five_hours_are_one_day() {
    assert_eq!(relative_age(NOW, NOW - 90_000), "1 days ago");
}

#[test]
fn forty_days_are_one_month() {
    assert_eq!(relative_age(NOW, NOW - 40 * DAY), "1 months ago");
}

#[test]
fn four_hundred_days_are_one_year() {
    assert_eq!(relative_age(NOW, NOW - 400 * DAY), "1 years ago");
}

#[test]
fn less_than_a_minute_is_just_now() {
    assert_eq!(relative_age(NOW, NOW - 1), "just now");
    assert_eq!(relative_age(NOW, NOW - 59), "just now");
}

#[test]
fn minutes_start_at_sixty_seconds() {
    assert_eq!(relative_age(NOW, NOW - 60), "1 minutes ago");
    assert_eq!(relative_age(NOW, NOW - 119), "1 minutes ago");
    assert_eq!(relative_age(NOW, NOW - 120), "2 minutes ago");
    assert_eq!(relative_age(NOW, NOW - 3_599), "59 minutes ago");
}

#[test]
fn hours_start_at_sixty_minutes() {
    assert_eq!(relative_age(NOW, NOW - 3_600), "1 hours ago");
    assert_eq!(relative_age(NOW, NOW - 7_199), "1 hours ago");
    assert_eq!(relative_age(NOW, NOW - 7_200), "2 hours ago");
    assert_eq!(relative_age(NOW, NOW - (DAY - 1)), "23 hours ago");
}

#[test]
fn days_start_at_twenty_four_hours() {
    assert_eq!(relative_age(NOW, NOW - DAY), "1 days ago");
    assert_eq!(relative_age(NOW, NOW - 3 * DAY), "3 days ago");
    assert_eq!(relative_age(NOW, NOW - 30 * DAY), "30 days ago");
    assert_eq!(relative_age(NOW, NOW - (31 * DAY - 1)), "30 days ago");
}

#[test]
fn months_start_after_thirty_days() {
    assert_eq!(relative_age(NOW, NOW - 31 * DAY), "1 months ago");
    assert_eq!(relative_age(NOW, NOW - 59 * DAY), "1 months ago");
    assert_eq!(relative_age(NOW, NOW - 60 * DAY), "2 months ago");
    assert_eq!(relative_age(NOW, NOW - 365 * DAY), "12 months ago");
    assert_eq!(relative_age(NOW, NOW - (366 * DAY - 1)), "12 months ago");
}

#[test]
fn years_start_after_three_hundred_and_sixty_five_days() {
    assert_eq!(relative_age(NOW, NOW - 366 * DAY), "1 years ago");
    assert_eq!(relative_age(NOW, NOW - 729 * DAY), "1 years ago");
    assert_eq!(relative_age(NOW, NOW - 730 * DAY), "2 years ago");
    assert_eq!(relative_age(NOW, 0), "53 years ago");
}

#[test]
fn commit_still_to_come_is_just_now() {
    assert_eq!(relative_age(NOW, NOW + 1), "just now");
    assert_eq!(relative_age(NOW, NOW + 59), "just now");
    assert_eq!(relative_age(NOW, NOW + 60), "just now");
    assert_eq!(relative_age(NOW, NOW + 400 * DAY), "just now");
    assert_eq!(relative_age(i64::MIN, i64::MAX), "just now");
}

#[test]
fn widest_span_is_counted_in_full() {
    assert_eq!(relative_age(i64::MAX, i64::MIN), "584942417355 years ago");
    assert_eq!(relative_age(i64::MAX, 0), "292471208677 years ago");
    assert_eq!(relative_age(0, i64::MIN), "292471208677 years ago");
}

#[test]
fn phrases_agree_with_chrono_durations() {
    let spans: [i64; 24] = [
        0, 1, 59, 60, 61, 3_599, 3_600, 3_601, 86_399, 86_400, 86_401, 90_000, 2_591_999,
        2_592_000, 2_678_399, 2_678_400, 3_456_000, 31_535_999, 31_536_000, 31_622_399,
        31_622_400, 34_560_000, 63_072_000, 1_000_000_000,
    ];
    let nows: [i64; 4] = [0, 951_782_400, NOW, 4_102_444_800];
    for now in nows {
        for span in spans {
            for nanos in [0u32, 1, 999_999_999] {
                assert_eq!(
                    relative_age(now, now - span),
                    phrase_by_chrono(now, nanos, now - span),
                    "{} seconds before {}",
                    span,
                    now
                );
                assert_eq!(
                    relative_age(now, now + span),
                    phrase_by_chrono(now, nanos, now + span),
                    "{} seconds after {}",
                    span,
                    now
                );
            }
        }
    }
}

#[test]
fn phrases_agree_with_chrono_at_the_ends_of_its_range() {
    let first: i64 = DateTime::<Utc>::MIN_UTC.timestamp();
    let last: i64 = DateTime::<Utc>::MAX_UTC.timestamp();
    assert_eq!(relative_age(last, first), phrase_by_chrono(last, 0, first));
    assert_eq!(relative_age(first, last), phrase_by_chrono(first, 0, last));
    assert_eq!(relative_age(NOW, first), phrase_by_chrono(NOW, 0, first));
    assert_eq!(relative_age(NOW, last), phrase_by_chrono(NOW, 0, last));
}

#[test]
fn format_duration_reads_the_clock() {
    let before: i64 = Utc::now().timestamp();
    let phrase = format_duration(0);
    let after: i64 = Utc::now().timestamp();
    assert!(phrase == relative_age(before, 0) || phrase == relative_age(after, 0));
    assert!(phrase.ends_with(" years ago"));
}

#[test]
fn format_duration_of_a_fresh_commit() {
    let now: i64 = Utc::now().timestamp();
    assert_eq!(format_duration(now), "just now");
    assert_eq!(format_duration(now + 3_600), "just now");
    assert_eq!(format_duration(now - 2 * DAY - 30), "2 days ago");
}
