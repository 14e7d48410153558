use time_bandit::format::format_elapsed_time;

#[test]
fn zero_seconds() {
    assert_eq!(format_elapsed_time(0), "00h:00m:00s");
}

#[test]
fn one_of_each_unit() {
    assert_eq!(format_elapsed_time(3661), "01h:01m:01s");
}

#[test]
fn seconds_only() {
    assert_eq!(format_elapsed_time(59), "00h:00m:59s");
}

#[test]
fn full_minutes() {
    assert_eq!(format_elapsed_time(600), "00h:10m:00s");
}

#[test]
fn hours_wider_than_two_digits() {
    assert_eq!(format_elapsed_time(360000), "100h:00m:00s");
}

#[test]
fn just_under_an_hour() {
    assert_eq!(format_elapsed_time(3599), "00h:59m:59s");
}
