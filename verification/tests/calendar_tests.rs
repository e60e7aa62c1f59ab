use minishell::calendar::format_time;

#[test]
fn epoch_start_formats_as_january_first() {
    assert_eq!(format_time(0), "Jan  1 00:00");
}

// 2023-03-01T00:00:00 is 19417 days after the epoch. The year walk leaves 59
// days; January and February consume them exactly, so March 1 comes out.
#[test]
fn civil_date_in_a_common_year() {
    assert_eq!(format_time(1_677_628_800), "Mar  1 00:00");
}

// 2024-03-01T00:00:00 is 19783 days after the epoch. 2024 is a leap year, so
// the year walk leaves 60 days rather than 59; the month table carries no
// leap day, so the date renders one day ahead of the civil calendar.
#[test]
fn leap_year_shifts_the_day_count() {
    assert_eq!(format_time(1_709_251_200), "Mar  2 00:00");
}

#[test]
fn hours_and_minutes_are_zero_padded() {
    // 2023-03-01T05:07:00.
    assert_eq!(format_time(1_677_628_800 + 5 * 3600 + 7 * 60), "Mar  1 05:07");
}

#[test]
fn two_digit_day_fills_its_field() {
    // 2023-03-15T00:00:00: 19431 days after the epoch.
    assert_eq!(format_time(1_678_838_400), "Mar 15 00:00");
}

#[test]
fn seconds_within_a_minute_are_dropped() {
    assert_eq!(format_time(59), "Jan  1 00:00");
    assert_eq!(format_time(60), "Jan  1 00:01");
}

#[test]
fn last_minute_of_a_day_wraps_no_field() {
    // 1970-01-01T23:59:00.
    assert_eq!(format_time(23 * 3600 + 59 * 60), "Jan  1 23:59");
    // One minute later is the next day.
    assert_eq!(format_time(24 * 3600), "Jan  2 00:00");
}
