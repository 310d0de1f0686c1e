use nba::date::{parse_schedule_date, Date, MAX_DAY, MIN_DAY};

#[test]
fn schedule_dates_are_read_as_month_day_year() {
    let d = parse_schedule_date("10/22/2024 00:00:00").unwrap();
    assert_eq!(d.day, 739181);
    assert_eq!(parse_schedule_date("10/22/2024").unwrap(), d);
    assert_eq!(parse_schedule_date("02/30/2024 00:00:00"), None);
    assert_eq!(parse_schedule_date("2024-10-22"), None);
    assert_eq!(parse_schedule_date(""), None);
}

#[test]
fn dates_are_written_in_the_formats_asked_for() {
    let d = Date::from_day_number(739181).unwrap();
    assert_eq!(d.format("%m/%d/%Y"), "10/22/2024");
    assert_eq!(d.format("%a %m/%d"), "Tue 10/22");
    assert_eq!(d.format("%Y-%m-%d"), "2024-10-22");
    assert_eq!(d.format("%Y-%m-%d  %A"), "2024-10-22  Tuesday");
}

#[test]
fn parse_with_other_format() {
    let d = Date::parse("2024-10-22", "%Y-%m-%d").unwrap();
    assert_eq!(d.day, 739181);
    assert_eq!(Date::parse("22/10/2024", "%Y-%m-%d"), None);
}

#[test]
fn day_numbers_in_range() {
    assert!(Date::from_day_number(MIN_DAY).is_some());
    assert!(Date::from_day_number(MAX_DAY).is_some());
    assert!(Date::from_day_number(MIN_DAY - 1).is_none());
    assert!(Date::from_day_number(MAX_DAY + 1).is_none());
    assert_eq!(Date::from_day_number(1).unwrap().format("%Y-%m-%d"), "0001-01-01");
}

#[test]
fn adding_days() {
    let d = Date::from_day_number(739181).unwrap();
    assert_eq!(d.checked_add_days(7).unwrap().day, 739188);
    assert_eq!(d.checked_add_days(7).unwrap().format("%m/%d/%Y"), "10/29/2024");
    let last = Date::from_day_number(MAX_DAY).unwrap();
    assert_eq!(last.checked_add_days(1), None);
    assert_eq!(last.checked_add_days(0), Some(last));
    assert_eq!(d.checked_add_days(u64::MAX), None);
}

#[test]
fn today_is_in_range() {
    let t = Date::today();
    assert!(t.day >= MIN_DAY && t.day <= MAX_DAY);
    assert!(t.day > 739000);
}
