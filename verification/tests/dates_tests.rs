use chrono::Datelike;
use stockgo::dates::{format_ymd, parse_ymd};

#[test]
fn compact_dates_read_and_write() {
    let d = chrono::NaiveDate::from_ymd_opt(2024, 2, 29).unwrap().num_days_from_ce();
    assert_eq!(parse_ymd("20240229"), Some(d));
    assert_eq!(format_ymd(d), "20240229");
    assert_eq!(parse_ymd("20230229"), None);
    assert_eq!(parse_ymd("2024-02-29"), None);
}
