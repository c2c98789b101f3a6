use parse_message::domain::dates::local;
use parse_message::domain::models::LocalDateTime;

#[test]
fn local_date_time_uses_the_zone_rules() {
    assert_eq!(
        local("2026-06-30T15:30:00Z", "Asia/Tokyo").unwrap(),
        LocalDateTime {
            date: "2026-07-01".into(),
            month: "2026-07".into(),
            week: "2026-W27".into(),
            time: "00:30".into(),
            file_timestamp: "20260701_003000".into(),
        }
    );
}

#[test]
fn iso_week_years_differ_from_calendar_years_at_the_boundary() {
    let l = local("2027-01-01T12:00:00Z", "UTC").unwrap();
    assert_eq!(l.date, "2027-01-01");
    assert_eq!(l.week, "2026-W53");
    let l = local("2024-12-30T00:00:00Z", "UTC").unwrap();
    assert_eq!(l.week, "2025-W01");
}

#[test]
fn daylight_saving_and_leap_days() {
    let l = local("2024-02-29T23:59:59Z", "Europe/Berlin").unwrap();
    assert_eq!(l.file_timestamp, "20240301_005959");
    let winter = local("2026-01-15T12:00:00Z", "America/New_York").unwrap();
    let summer = local("2026-07-15T12:00:00Z", "America/New_York").unwrap();
    assert_eq!(winter.time, "07:00");
    assert_eq!(summer.time, "08:00");
    let l = local("2026-01-01T00:00:00Z", "Asia/Kolkata").unwrap();
    assert_eq!(l.time, "05:30");
}

#[test]
fn invalid_inputs_are_reported() {
    assert_eq!(local("nope", "UTC").unwrap_err(), "Invalid timestamp: nope");
    assert_eq!(local("2026-06-30T15:30:00Z", "Nowhere").unwrap_err(), "Invalid time zone: Nowhere");
}
