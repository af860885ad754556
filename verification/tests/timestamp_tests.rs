use mbox_extractor::timestamp::parse_and_format_timestamp;

#[test]
fn morning_with_negative_offset() {
    assert_eq!(
        parse_and_format_timestamp("January 5, 2024 at 9:15:00 AM GMT-8"),
        "2024-01-05T09:15:00-08:00"
    );
}

#[test]
fn noon_pm_zero_offset() {
    assert_eq!(
        parse_and_format_timestamp("January 5, 2024 at 12:00:00 PM GMT+0"),
        "2024-01-05T12:00:00+00:00"
    );
}

#[test]
fn midnight_am_zero_offset() {
    assert_eq!(
        parse_and_format_timestamp("January 5, 2024 at 12:00:00 AM GMT+0"),
        "2024-01-05T00:00:00+00:00"
    );
}

#[test]
fn malformed_passes_through_unchanged() {
    assert_eq!(parse_and_format_timestamp("yesterday"), "yesterday");
    assert_eq!(parse_and_format_timestamp(""), "");
    assert_eq!(parse_and_format_timestamp("No timestamp"), "No timestamp");
}

#[test]
fn narrow_no_break_space_is_cleaned() {
    assert_eq!(
        parse_and_format_timestamp("January 5, 2024 at 9:15:00\u{202f}AM GMT-8"),
        "2024-01-05T09:15:00-08:00"
    );
}

#[test]
fn template_found_inside_longer_text() {
    assert_eq!(
        parse_and_format_timestamp("sent January 5, 2024 at 9:15:00 AM GMT-8 indeed"),
        "2024-01-05T09:15:00-08:00"
    );
}

#[test]
fn invalid_calendar_date_passes_through() {
    assert_eq!(
        parse_and_format_timestamp("February 30, 2024 at 9:15:00 AM GMT-8"),
        "February 30, 2024 at 9:15:00 AM GMT-8"
    );
}

#[test]
fn unknown_month_word_passes_through() {
    assert_eq!(
        parse_and_format_timestamp("Snowuary 5, 2024 at 9:15:00 AM GMT-8"),
        "Snowuary 5, 2024 at 9:15:00 AM GMT-8"
    );
}

#[test]
fn invalid_clock_falls_back_to_midnight() {
    assert_eq!(
        parse_and_format_timestamp("January 5, 2024 at 13:00:00 PM GMT+0"),
        "2024-01-05T00:00:00+00:00"
    );
}

#[test]
fn oversized_offset_falls_back_to_zero() {
    assert_eq!(
        parse_and_format_timestamp("January 5, 2024 at 9:15:00 AM GMT+99"),
        "2024-01-05T09:15:00+00:00"
    );
}

#[test]
fn pm_hours_gain_twelve() {
    assert_eq!(
        parse_and_format_timestamp("December 31, 1999 at 11:59:59 PM GMT+5"),
        "1999-12-31T23:59:59+05:00"
    );
}

#[test]
fn month_abbreviation_is_accepted() {
    assert_eq!(
        parse_and_format_timestamp("Jan 5, 2024 at 9:15:00 AM GMT-8"),
        "2024-01-05T09:15:00-08:00"
    );
}

#[test]
fn month_name_case_is_ignored() {
    assert_eq!(
        parse_and_format_timestamp("JANUARY 5, 2024 at 9:15:00 AM GMT-8"),
        "2024-01-05T09:15:00-08:00"
    );
}
