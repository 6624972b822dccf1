use iris::rtc::civil_from_days;
use iris::rtc::days_from_civil;
use iris::rtc::days_in_month;
use iris::rtc::format_unix_utc;
use iris::rtc::is_leap_year;
use iris::rtc::RtcOffset;
use iris::rtc::RTC_MAX_UNIX;
use iris::rtc::RTC_MIN_UNIX;

/// Unix time for a UTC date, via the same helper the offset uses.
fn t(y: i64, mo: i64, d: i64, h: i64, mi: i64, s: i64) -> i64 {
    days_from_civil(y, mo, d) * 86_400 + h * 3600 + mi * 60 + s
}

#[test]
fn civil_round_trip_and_known_epochs() {
    assert_eq!(t(1970, 1, 1, 0, 0, 0), 0);
    assert_eq!(t(2000, 3, 1, 0, 0, 0), 951_868_800);
    assert_eq!(t(2039, 12, 31, 23, 59, 59), RTC_MAX_UNIX);
    for days in [-1_000_000i64, -1, 0, 59, 60, 11_016, 25_567, 1_000_000] {
        let (y, m, d) = civil_from_days(days);
        assert_eq!(days_from_civil(y, m, d), days);
    }
}

#[test]
fn zero_offset_is_identity() {
    let now = t(2026, 9, 19, 14, 22, 5);
    assert_eq!(RtcOffset::default().apply(now), now);
    assert!(RtcOffset::default().is_zero());
}

#[test]
fn years_back_keeps_date_and_time() {
    let off = RtcOffset { years: -18, ..Default::default() };
    assert_eq!(off.apply(t(2026, 9, 19, 14, 22, 5)), t(2008, 9, 19, 14, 22, 5));
}

#[test]
fn mixed_offset() {
    let off = RtcOffset { years: -3, months: -4, days: -2, hours: -13, minutes: -4, seconds: -27 };
    // 2026-09-19 14:22:05 → 2023-05-19 14:22:05 → minus 2d 13:04:27
    assert_eq!(off.apply(t(2026, 9, 19, 14, 22, 5)), t(2023, 5, 17, 1, 17, 38));
    assert_eq!(off.describe(), "-3y -4mo -2d -13h -4m -27s");
}

#[test]
fn month_step_clamps_day() {
    let back1 = RtcOffset { months: -1, ..Default::default() };
    assert_eq!(back1.apply(t(2024, 3, 31, 12, 0, 0)), t(2024, 2, 29, 12, 0, 0));
    assert_eq!(back1.apply(t(2023, 3, 31, 12, 0, 0)), t(2023, 2, 28, 12, 0, 0));
    let fwd1y = RtcOffset { years: 1, ..Default::default() };
    assert_eq!(fwd1y.apply(t(2024, 2, 29, 0, 0, 0)), t(2025, 2, 28, 0, 0, 0));
    // Months roll the year in both directions.
    let m = RtcOffset { months: 5, ..Default::default() };
    assert_eq!(m.apply(t(2026, 9, 19, 0, 0, 0)), t(2027, 2, 19, 0, 0, 0));
    let m = RtcOffset { months: -10, ..Default::default() };
    assert_eq!(m.apply(t(2026, 9, 19, 0, 0, 0)), t(2025, 11, 19, 0, 0, 0));
}

#[test]
fn positive_small_units_carry() {
    let off = RtcOffset { hours: 30, minutes: 90, seconds: 3_700, ..Default::default() };
    assert_eq!(off.apply(t(2026, 12, 31, 20, 0, 0)), t(2027, 1, 2, 4, 31, 40));
}

#[test]
fn clamped_to_rtc_range() {
    let now = t(2026, 9, 19, 0, 0, 0);
    let (v, c) = RtcOffset { years: 20, ..Default::default() }.apply_clamped(now);
    assert_eq!((v, c), (RTC_MAX_UNIX, true));
    let (v, c) = RtcOffset { years: -60, ..Default::default() }.apply_clamped(now);
    assert_eq!((v, c), (RTC_MIN_UNIX, true));
    // Absurd values saturate instead of overflowing.
    let (v, c) = RtcOffset { years: i64::MAX, seconds: i64::MIN, ..Default::default() }.apply_clamped(now);
    assert!(c && (RTC_MIN_UNIX..=RTC_MAX_UNIX).contains(&v));
    let (_, c) = RtcOffset { years: -18, ..Default::default() }.apply_clamped(now);
    assert!(!c);
}

#[test]
fn month_lengths_follow_the_calendar() {
    assert!(is_leap_year(2000) && is_leap_year(2024));
    assert!(!is_leap_year(1900) && !is_leap_year(2023));
    assert_eq!(days_in_month(2024, 2), 29);
    assert_eq!(days_in_month(2023, 2), 28);
    assert_eq!(days_in_month(2023, 4), 30);
    assert_eq!(days_in_month(2023, 12), 31);
}

#[test]
fn consecutive_days_have_consecutive_numbers() {
    assert_eq!(days_from_civil(2024, 2, 29) + 1, days_from_civil(2024, 3, 1));
    assert_eq!(days_from_civil(2023, 12, 31) + 1, days_from_civil(2024, 1, 1));
    assert_eq!(days_from_civil(1969, 12, 31), -1);
}

#[test]
fn a_year_is_twelve_months() {
    let now = t(2024, 2, 29, 1, 2, 3);
    let year = RtcOffset { years: 1, ..Default::default() };
    let months = RtcOffset { months: 12, ..Default::default() };
    assert_eq!(year.apply(now), months.apply(now));
}

#[test]
fn descriptions_name_what_is_set() {
    assert_eq!(RtcOffset::default().describe(), "+0");
    assert_eq!(RtcOffset { hours: 2, ..Default::default() }.describe(), "+2h");
}

#[test]
fn times_are_written_in_utc() {
    assert_eq!(format_unix_utc(0), "1970-01-01 00:00:00");
    assert_eq!(format_unix_utc(t(2008, 9, 19, 14, 22, 5)), "2008-09-19 14:22:05");
}
