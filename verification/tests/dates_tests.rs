use deskflow::dates::{
    day_label, day_of_week, days_in_month, first_and_last_day_of_month, format_mdy,
    format_ymd_dashed, is_weekend, month_str, sheet_name_for, Ymd,
};

#[test]
fn days_in_month_handles_leap_years() {
    assert_eq!(days_in_month(2024, 2), 29);
    assert_eq!(days_in_month(2023, 2), 28);
    assert_eq!(days_in_month(1900, 2), 28);
    assert_eq!(days_in_month(2000, 2), 29);
    assert_eq!(days_in_month(2026, 4), 30);
    assert_eq!(days_in_month(2026, 10), 31);
}

#[test]
fn day_of_week_matches_the_calendar() {
    // 0 is Sunday
    assert_eq!(day_of_week(2026, 10, 1), 4); // Thursday
    assert_eq!(day_of_week(2026, 10, 3), 6); // Saturday
    assert_eq!(day_of_week(2026, 10, 4), 0); // Sunday
    assert_eq!(day_of_week(2026, 10, 9), 5); // Friday
    assert_eq!(day_of_week(2026, 10, 12), 1); // Monday
    assert_eq!(day_of_week(2024, 2, 29), 4); // Thursday
    assert_eq!(day_of_week(2000, 1, 1), 6); // Saturday
    assert_eq!(day_of_week(1999, 12, 31), 5); // Friday
}

#[test]
fn weekend_is_saturday_or_sunday() {
    assert!(is_weekend(2026, 10, 3));
    assert!(is_weekend(2026, 10, 4));
    assert!(!is_weekend(2026, 10, 9));
}

#[test]
fn first_and_last_day_span_the_month() {
    let today = Ymd { year: 2026, month: 2, day: 17 };
    let (first, last) = first_and_last_day_of_month(today);
    assert_eq!(first, Ymd { year: 2026, month: 2, day: 1 });
    assert_eq!(last, Ymd { year: 2026, month: 2, day: 28 });
}

#[test]
fn mdy_format_is_zero_padded() {
    assert_eq!(format_mdy(Ymd { year: 2026, month: 3, day: 7 }), "03/07/2026");
    assert_eq!(format_mdy(Ymd { year: 987, month: 12, day: 31 }), "12/31/0987");
}

#[test]
fn dashed_format_is_zero_padded() {
    assert_eq!(format_ymd_dashed(Ymd { year: 2026, month: 10, day: 9 }), "2026-10-09");
    assert_eq!(format_ymd_dashed(Ymd { year: 7, month: 1, day: 2 }), "0007-01-02");
}

#[test]
fn month_names_match() {
    assert_eq!(month_str(1), "Jan");
    assert_eq!(month_str(10), "Oct");
    assert_eq!(month_str(12), "Dec");
}

#[test]
fn day_labels_carry_the_right_suffix() {
    assert_eq!(day_label(10, 8), "Oct 08th");
    assert_eq!(day_label(3, 1), "Mar 01st");
    assert_eq!(day_label(5, 22), "May 22nd");
    assert_eq!(day_label(1, 23), "Jan 23rd");
    assert_eq!(day_label(7, 31), "Jul 31st");
    assert_eq!(day_label(2, 11), "Feb 11th");
}

#[test]
fn sheet_names_carry_month_and_year() {
    assert_eq!(sheet_name_for(2026, 10), "Oct(2026)");
    assert_eq!(sheet_name_for(2024, 2), "Feb(2024)");
}

#[test]
fn checked_rejects_out_of_range_dates() {
    assert!(Ymd::checked(2026, 10, 9).is_some());
    assert!(Ymd::checked(-1, 10, 9).is_none());
    assert!(Ymd::checked(10000, 1, 1).is_none());
    assert!(Ymd::checked(2026, 0, 1).is_none());
    assert!(Ymd::checked(2026, 13, 1).is_none());
    assert!(Ymd::checked(2026, 1, 0).is_none());
    assert!(Ymd::checked(2026, 1, 32).is_none());
}
