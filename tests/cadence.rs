use rituals::date::{count_days_between, month_length, CalendarDate};
use rituals::error::CoreError;
use rituals::repeatable::{is_due, RepeatFrequency};

fn ymd(y: i32, m: u32, d: u32) -> CalendarDate {
    CalendarDate::from_ymd(y, m, d).unwrap()
}

#[test]
fn weekly_cadence_from_a_monday() {
    let anchor = ymd(2024, 1, 1);
    assert!(is_due(RepeatFrequency::Weekly, &anchor, &ymd(2024, 1, 8)));
    assert!(is_due(RepeatFrequency::Weekly, &anchor, &ymd(2024, 1, 15)));
    assert!(!is_due(RepeatFrequency::Weekly, &anchor, &ymd(2024, 1, 9)));
}

#[test]
fn monthly_cadence_clamps_to_month_end() {
    let anchor = ymd(2024, 1, 31);
    assert!(is_due(RepeatFrequency::Monthly, &anchor, &ymd(2024, 2, 29)));
    assert!(!is_due(RepeatFrequency::Monthly, &anchor, &ymd(2024, 2, 28)));
    assert!(is_due(RepeatFrequency::Monthly, &anchor, &ymd(2025, 2, 28)));
    assert!(is_due(RepeatFrequency::Monthly, &anchor, &ymd(2024, 4, 30)));
    assert!(is_due(RepeatFrequency::Monthly, &anchor, &ymd(2024, 3, 31)));
    assert!(!is_due(RepeatFrequency::Monthly, &anchor, &ymd(2023, 12, 31)));
}

#[test]
fn yearly_cadence_from_leap_day() {
    let anchor = ymd(2024, 2, 29);
    assert!(is_due(RepeatFrequency::Yearly, &anchor, &ymd(2025, 2, 28)));
    assert!(is_due(RepeatFrequency::Yearly, &anchor, &ymd(2028, 2, 29)));
    assert!(!is_due(RepeatFrequency::Yearly, &anchor, &ymd(2028, 2, 28)));
    assert!(!is_due(RepeatFrequency::Yearly, &anchor, &ymd(2023, 2, 28)));
}

#[test]
fn biweekly_and_daily_cadence() {
    let anchor = ymd(2024, 1, 1);
    assert!(is_due(RepeatFrequency::BiWeekly, &anchor, &ymd(2024, 1, 15)));
    assert!(!is_due(RepeatFrequency::BiWeekly, &anchor, &ymd(2024, 1, 8)));
    assert!(is_due(RepeatFrequency::BiWeekly, &anchor, &ymd(2023, 12, 18)));
    assert!(is_due(RepeatFrequency::Daily, &anchor, &anchor));
    assert!(is_due(RepeatFrequency::Daily, &anchor, &ymd(2030, 6, 17)));
}

#[test]
fn day_numbers_and_distances() {
    assert_eq!(ymd(1, 1, 1).day_number(), 0);
    assert_eq!(ymd(2024, 1, 1).day_number(), 738885);
    assert_eq!(ymd(2024, 3, 1).day_number(), 738945);
    assert_eq!(ymd(9999, 12, 31).day_number(), 3652058);
    assert_eq!(count_days_between(&ymd(2024, 3, 1), &ymd(2024, 1, 1)), 60);
    assert_eq!(month_length(2024, 2), 29);
    assert_eq!(month_length(1900, 2), 28);
    assert_eq!(month_length(2000, 2), 29);
}

#[test]
fn invalid_dates_are_rejected() {
    assert_eq!(CalendarDate::from_ymd(2023, 2, 29), Err(CoreError::Validation));
    assert_eq!(CalendarDate::from_ymd(2024, 13, 1), Err(CoreError::Validation));
    assert_eq!(CalendarDate::from_ymd(2024, 4, 31), Err(CoreError::Validation));
    assert_eq!(CalendarDate::from_ymd(2024, 1, 0), Err(CoreError::Validation));
    assert_eq!(CalendarDate::from_ymd(0, 1, 1), Err(CoreError::Validation));
    assert_eq!(
        CalendarDate::from_ymd(2024, 2, 29),
        Ok(CalendarDate { year: 2024, month: 2, day: 29 })
    );
}

#[test]
fn frequency_names() {
    assert_eq!(RepeatFrequency::Daily.to_string(), "Daily");
    assert_eq!(RepeatFrequency::Weekly.to_string(), "Weekly");
    assert_eq!(RepeatFrequency::BiWeekly.to_string(), "Bi-Weekly");
    assert_eq!(RepeatFrequency::Monthly.to_string(), "Monthly");
    assert_eq!(RepeatFrequency::Yearly.to_string(), "Yearly");
    assert_eq!(RepeatFrequency::default(), RepeatFrequency::Daily);
}

#[test]
fn parse_iso_dates() {
    assert_eq!(
        CalendarDate::parse("2024-03-01"),
        Ok(CalendarDate { year: 2024, month: 3, day: 1 })
    );
    assert_eq!(
        CalendarDate::parse("0001-01-01"),
        Ok(CalendarDate { year: 1, month: 1, day: 1 })
    );
    assert_eq!(CalendarDate::parse("2023-02-29"), Err(CoreError::Validation));
    assert_eq!(CalendarDate::parse("2024-3-01"), Err(CoreError::Validation));
    assert_eq!(CalendarDate::parse("2024/03/01"), Err(CoreError::Validation));
    assert_eq!(CalendarDate::parse("2024-03-0x"), Err(CoreError::Validation));
    assert_eq!(CalendarDate::parse(""), Err(CoreError::Validation));
    assert_eq!(CalendarDate::parse("0000-01-01"), Err(CoreError::Validation));
}
