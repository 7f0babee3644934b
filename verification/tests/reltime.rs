use space::reltime::{format_delta, relative_time, relative_time_at};

#[test]
fn format_delta_just_now() {
    assert_eq!(format_delta(30), "just now");
}

#[test]
fn format_delta_negative_is_just_now() {
    assert_eq!(format_delta(-100), "just now");
}

#[test]
fn format_delta_minutes() {
    assert_eq!(format_delta(300), "5 minutes ago");
}

#[test]
fn format_delta_singular_minute() {
    assert_eq!(format_delta(90), "1 minute ago");
}

#[test]
fn format_delta_hours() {
    assert_eq!(format_delta(7200), "2 hours ago");
}

#[test]
fn format_delta_days() {
    assert_eq!(format_delta(259200), "3 days ago");
}

#[test]
fn format_delta_weeks() {
    assert_eq!(format_delta(1209600), "2 weeks ago");
}

#[test]
fn format_delta_months() {
    assert_eq!(format_delta(7776000), "3 months ago");
}

#[test]
fn format_delta_years() {
    assert_eq!(format_delta(63072000), "2 years ago");
}

#[test]
fn relative_time_zero_timestamp() {
    assert_eq!(relative_time(0), "unknown");
}

#[test]
fn relative_time_negative_timestamp() {
    assert_eq!(relative_time(-1), "unknown");
}

#[test]
fn relative_time_at_measures_from_the_given_now() {
    assert_eq!(relative_time_at(1_000, 1_000 + 3 * 3600), "3 hours ago");
    assert_eq!(relative_time_at(5_000, 1_000), "just now");
    assert_eq!(relative_time_at(0, 1_000), "unknown");
}

#[test]
fn format_delta_boundaries() {
    assert_eq!(format_delta(59), "just now");
    assert_eq!(format_delta(60), "1 minute ago");
    assert_eq!(format_delta(3599), "59 minutes ago");
    assert_eq!(format_delta(3600), "1 hour ago");
    assert_eq!(format_delta(86400), "1 day ago");
    assert_eq!(format_delta(i64::MAX).ends_with("years ago"), true);
}
