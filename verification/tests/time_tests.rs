use tsk::instant::Instant;
use tsk::format::{format_completed_time, format_deadline, is_due_this_week, is_due_today};
use tsk::parse::parse_time;

fn at(year: u32, month: u32, day: u32, hour: u32, minute: u32) -> Instant {
    Instant { year, month, day, hour, minute }
}

#[test]
fn relative_two_hours() {
    let now = at(2024, 6, 1, 10, 30);
    assert_eq!(parse_time("in 2 hours", &now), Some(at(2024, 6, 1, 12, 30)));
}

#[test]
fn relative_units() {
    let now = at(2024, 6, 1, 10, 30);
    assert_eq!(parse_time("in 30 minutes", &now), Some(at(2024, 6, 1, 11, 0)));
    assert_eq!(parse_time("in 90 min", &now), Some(at(2024, 6, 1, 12, 0)));
    assert_eq!(parse_time("in 1 h", &now), Some(at(2024, 6, 1, 11, 30)));
    assert_eq!(parse_time("in 3 days", &now), Some(at(2024, 6, 4, 10, 30)));
    assert_eq!(parse_time("in 1 week", &now), Some(at(2024, 6, 8, 10, 30)));
    assert_eq!(parse_time("in 2 w", &now), Some(at(2024, 6, 15, 10, 30)));
}

#[test]
fn relative_negative_amount() {
    let now = at(2024, 6, 1, 10, 30);
    assert_eq!(parse_time("in -1 days", &now), Some(at(2024, 5, 31, 10, 30)));
}

#[test]
fn relative_extra_spaces() {
    let now = at(2024, 6, 1, 10, 30);
    assert_eq!(parse_time("in  2   hours", &now), Some(at(2024, 6, 1, 12, 30)));
}

#[test]
fn relative_rejects_unknown_unit_or_shape() {
    let now = at(2024, 6, 1, 10, 30);
    assert_eq!(parse_time("in 2 fortnights", &now), None);
    assert_eq!(parse_time("in 2", &now), None);
    assert_eq!(parse_time("in two hours", &now), None);
    assert_eq!(parse_time("in 2 hours sharp", &now), None);
    assert_eq!(parse_time("in 99999999999999999999 hours", &now), None);
}

#[test]
fn today_bare_is_end_of_day() {
    let now = at(2024, 6, 1, 10, 30);
    assert_eq!(parse_time("today", &now), Some(at(2024, 6, 1, 23, 59)));
}

#[test]
fn today_with_time() {
    let now = at(2024, 6, 1, 10, 30);
    assert_eq!(parse_time("today 3pm", &now), Some(at(2024, 6, 1, 15, 0)));
    assert_eq!(parse_time("today 12am", &now), Some(at(2024, 6, 1, 0, 0)));
    assert_eq!(parse_time("today 12pm", &now), Some(at(2024, 6, 1, 12, 0)));
    assert_eq!(parse_time("today  9:15am", &now), Some(at(2024, 6, 1, 9, 15)));
    assert_eq!(parse_time("today 25pm", &now), None);
}

#[test]
fn tomorrow_bare_is_nine() {
    let now = at(2024, 6, 1, 10, 30);
    assert_eq!(parse_time("tomorrow", &now), Some(at(2024, 6, 2, 9, 0)));
}

#[test]
fn tomorrow_with_time() {
    let now = at(2024, 6, 1, 10, 30);
    assert_eq!(parse_time("tomorrow 3pm", &now), Some(at(2024, 6, 2, 15, 0)));
}

#[test]
fn tomorrow_rolls_over_month_year_and_leap_day() {
    assert_eq!(
        parse_time("tomorrow", &at(2024, 1, 31, 8, 0)),
        Some(at(2024, 2, 1, 9, 0))
    );
    assert_eq!(
        parse_time("tomorrow", &at(2024, 12, 31, 8, 0)),
        Some(at(2025, 1, 1, 9, 0))
    );
    assert_eq!(
        parse_time("tomorrow", &at(2024, 2, 28, 8, 0)),
        Some(at(2024, 2, 29, 9, 0))
    );
    assert_eq!(
        parse_time("tomorrow", &at(2023, 2, 28, 8, 0)),
        Some(at(2023, 3, 1, 9, 0))
    );
}

// 2024-06-01 is a Saturday.
#[test]
fn weekday_resolves_to_next_occurrence() {
    let now = at(2024, 6, 1, 10, 30);
    assert_eq!(parse_time("sunday", &now), Some(at(2024, 6, 2, 9, 0)));
    assert_eq!(parse_time("sun", &now), Some(at(2024, 6, 2, 9, 0)));
    assert_eq!(parse_time("monday", &now), Some(at(2024, 6, 3, 9, 0)));
    assert_eq!(parse_time("fri 3pm", &now), Some(at(2024, 6, 7, 15, 0)));
}

#[test]
fn weekday_of_today_means_a_week_out() {
    let now = at(2024, 6, 1, 10, 30);
    assert_eq!(parse_time("saturday", &now), Some(at(2024, 6, 8, 9, 0)));
    assert_eq!(parse_time("sat", &now), Some(at(2024, 6, 8, 9, 0)));
}

#[test]
fn weekday_with_bad_time_fails() {
    let now = at(2024, 6, 1, 10, 30);
    assert_eq!(parse_time("mon 25pm", &now), None);
    assert_eq!(parse_time("mon noonish", &now), None);
}

#[test]
fn bare_time_is_today() {
    let now = at(2024, 6, 1, 10, 30);
    assert_eq!(parse_time("11am", &now), Some(at(2024, 6, 1, 11, 0)));
    assert_eq!(parse_time("3:30pm", &now), Some(at(2024, 6, 1, 15, 30)));
    assert_eq!(parse_time("14:00", &now), Some(at(2024, 6, 1, 14, 0)));
    assert_eq!(parse_time("9:30", &now), Some(at(2024, 6, 1, 9, 30)));
    // already past this morning: still today, no roll to tomorrow
    assert_eq!(parse_time("8am", &now), Some(at(2024, 6, 1, 8, 0)));
}

#[test]
fn invalid_hours_and_minutes_rejected() {
    let now = at(2024, 6, 1, 10, 30);
    assert_eq!(parse_time("25:00", &now), None);
    assert_eq!(parse_time("3:70pm", &now), None);
    assert_eq!(parse_time("13pm", &now), None);
    assert_eq!(parse_time("12:60", &now), None);
}

#[test]
fn short_date_takes_current_year() {
    let now = at(2024, 6, 1, 10, 30);
    assert_eq!(parse_time("12/25", &now), Some(at(2024, 12, 25, 9, 0)));
    assert_eq!(parse_time("12-25", &now), Some(at(2024, 12, 25, 9, 0)));
    assert_eq!(parse_time("2/29", &now), Some(at(2024, 2, 29, 9, 0)));
    assert_eq!(parse_time("2/29", &at(2023, 6, 1, 10, 30)), None);
    assert_eq!(parse_time("2/30", &now), None);
}

#[test]
fn short_date_in_december_still_means_this_year() {
    let now = at(2024, 12, 1, 10, 30);
    assert_eq!(parse_time("1/1", &now), Some(at(2024, 1, 1, 9, 0)));
}

#[test]
fn full_date() {
    let now = at(2024, 6, 1, 10, 30);
    assert_eq!(parse_time("2024-12-25", &now), Some(at(2024, 12, 25, 9, 0)));
    assert_eq!(parse_time("2025-01-31", &now), Some(at(2025, 1, 31, 9, 0)));
    assert_eq!(parse_time("2024-02-30", &now), None);
    assert_eq!(parse_time("2024-13-01", &now), None);
    assert_eq!(parse_time("2024/12/25", &now), None);
}

#[test]
fn unsigned_numbers_accept_a_plus_sign() {
    let now = at(2024, 6, 1, 10, 30);
    assert_eq!(parse_time("+3pm", &now), Some(at(2024, 6, 1, 15, 0)));
}

#[test]
fn empty_and_garbage_fail() {
    let now = at(2024, 6, 1, 10, 30);
    assert_eq!(parse_time("", &now), None);
    assert_eq!(parse_time("   ", &now), None);
    assert_eq!(parse_time("soonish", &now), None);
}

#[test]
fn case_and_whitespace_are_normalized() {
    let now = at(2024, 6, 1, 10, 30);
    assert_eq!(parse_time("   TODAY  ", &now), parse_time("today", &now));
    assert_eq!(parse_time("  ToMoRrOw 3PM ", &now), Some(at(2024, 6, 2, 15, 0)));
    assert_eq!(parse_time("FRI", &now), Some(at(2024, 6, 7, 9, 0)));
}

#[test]
fn end_to_end_parse_then_format() {
    let now = at(2024, 6, 1, 10, 30);
    let parsed = parse_time("2024-12-25", &now).unwrap();
    assert_eq!(parsed, at(2024, 12, 25, 9, 0));
    assert_eq!(format_deadline(&parsed, &now, false), "dec 25");
    let next_year = at(2025, 1, 1, 10, 30);
    assert_eq!(format_deadline(&parsed, &next_year, false), "2024-12-25");
}

#[test]
fn overdue_phrases() {
    let now = at(2024, 6, 1, 12, 0);
    assert_eq!(format_deadline(&at(2024, 6, 1, 11, 30), &now, true), "⚠ 30m ago");
    assert_eq!(format_deadline(&at(2024, 6, 1, 11, 0), &now, true), "⚠ 1h ago");
    assert_eq!(format_deadline(&at(2024, 5, 31, 12, 0), &now, true), "⚠ yesterday");
    assert_eq!(format_deadline(&at(2024, 5, 30, 12, 1), &now, true), "⚠ yesterday");
    assert_eq!(format_deadline(&at(2024, 5, 30, 12, 0), &now, true), "⚠ 2d ago");
}

#[test]
fn day_boundary_stays_in_hours() {
    let now = at(2024, 6, 1, 12, 0);
    // 23 hours 59 minutes past: still an hours phrase
    assert_eq!(format_deadline(&at(2024, 5, 31, 12, 1), &now, true), "⚠ 23h ago");
}

#[test]
fn aging_magnitude_never_shrinks_for_older_deadlines() {
    let now = at(2024, 6, 1, 12, 0);
    let newer = at(2024, 6, 1, 11, 55);
    let older = at(2024, 6, 1, 9, 0);
    assert_eq!(format_deadline(&newer, &now, true), "⚠ 5m ago");
    assert_eq!(format_deadline(&older, &now, true), "⚠ 3h ago");
}

#[test]
fn upcoming_phrases() {
    let now = at(2024, 6, 1, 12, 0);
    assert_eq!(format_deadline(&at(2024, 6, 1, 15, 5), &now, false), "today 3:05pm");
    assert_eq!(format_deadline(&at(2024, 6, 1, 0, 0), &now, false), "today 12:00am");
    assert_eq!(format_deadline(&at(2024, 6, 2, 9, 0), &now, false), "tomorrow 9:00am");
    // 2024-06-04 is a Tuesday
    assert_eq!(format_deadline(&at(2024, 6, 4, 14, 0), &now, false), "tue 2:00pm");
    // seven days out already leaves the weekday window
    assert_eq!(format_deadline(&at(2024, 6, 8, 9, 0), &now, false), "jun 8");
    assert_eq!(format_deadline(&at(2024, 11, 3, 9, 0), &now, false), "nov 3");
    assert_eq!(format_deadline(&at(2025, 6, 1, 9, 0), &now, false), "2025-06-01");
}

#[test]
fn past_deadline_without_overdue_flag_keeps_calendar_phrases() {
    let now = at(2025, 1, 1, 12, 0);
    // a week in the past and another year: the ISO branch, not a weekday
    assert_eq!(format_deadline(&at(2024, 12, 25, 9, 0), &now, false), "2024-12-25");
}

#[test]
fn completed_phrases() {
    let now = at(2024, 6, 1, 12, 0);
    assert_eq!(format_completed_time(&at(2024, 6, 1, 12, 0), &now), "done just now");
    assert_eq!(format_completed_time(&at(2024, 6, 1, 11, 30), &now), "done 30m ago");
    assert_eq!(format_completed_time(&at(2024, 6, 1, 9, 0), &now), "done 3h ago");
    assert_eq!(format_completed_time(&at(2024, 5, 31, 12, 1), &now), "done 23h ago");
    assert_eq!(format_completed_time(&at(2024, 5, 30, 11, 0), &now), "done 2d ago");
}

#[test]
fn due_predicates() {
    let now = at(2024, 6, 1, 12, 0);
    assert!(is_due_today(&at(2024, 6, 1, 23, 0), &now));
    assert!(!is_due_today(&at(2024, 6, 2, 0, 0), &now));
    assert!(is_due_this_week(&at(2024, 6, 1, 0, 0), &now));
    assert!(is_due_this_week(&at(2024, 6, 8, 23, 0), &now));
    assert!(!is_due_this_week(&at(2024, 6, 9, 0, 0), &now));
    assert!(!is_due_this_week(&at(2024, 5, 31, 23, 0), &now));
}

#[test]
fn checked_construction_validates_fields() {
    assert_eq!(
        Instant::checked_new(2024, 2, 29, 12, 0),
        Some(at(2024, 2, 29, 12, 0))
    );
    assert_eq!(Instant::checked_new(2023, 2, 29, 12, 0), None);
    assert_eq!(Instant::checked_new(2024, 13, 1, 12, 0), None);
    assert_eq!(Instant::checked_new(2024, 6, 1, 24, 0), None);
    assert_eq!(Instant::checked_new(2024, 6, 1, 12, 60), None);
    assert_eq!(Instant::checked_new(10000, 1, 1, 0, 0), None);
}

#[test]
fn years_far_out_are_accepted() {
    let now = at(2024, 6, 1, 12, 0);
    assert_eq!(parse_time("9999-12-31", &now), Some(at(9999, 12, 31, 9, 0)));
    assert_eq!(format_deadline(&at(9999, 12, 31, 9, 0), &now, false), "9999-12-31");
}
