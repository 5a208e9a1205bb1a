use cost_reporter::date::{build_date_range, last_day_of_month, parse_year_month};
use cost_reporter::ReportError;

#[test]
fn build_date_range_full_year_tests() {
    //arrange
    let start_date: &str = "2023-02";
    let end_date: &str = "2024-01";

    //act
    let date_range: Vec<(String, String)> = build_date_range(start_date, end_date).unwrap();

    //assert
    assert!(date_range.len() == 12);
    assert!(date_range[0].0 == "2023-02-01T00:00:00Z" && date_range[0].1 == "2023-02-28T00:00:00Z");
    assert!(date_range[1].0 == "2023-03-01T00:00:00Z" && date_range[1].1 == "2023-03-31T00:00:00Z");
    assert!(date_range[11].0 == "2024-01-01T00:00:00Z" && date_range[11].1 == "2024-01-31T00:00:00Z");
}

#[test]
fn build_date_range_leap_year_tests() {
    //arrange
    let start_date: &str = "2024-02";
    let end_date: &str = "2024-04";

    //act
    let date_range: Vec<(String, String)> = build_date_range(start_date, end_date).unwrap();

    //assert
    assert!(date_range.len() == 3);
    assert!(date_range[0].0 == "2024-02-01T00:00:00Z" && date_range[0].1 == "2024-02-29T00:00:00Z");
    assert!(date_range[1].0 == "2024-03-01T00:00:00Z" && date_range[1].1 == "2024-03-31T00:00:00Z");
    assert!(date_range[2].0 == "2024-04-01T00:00:00Z" && date_range[2].1 == "2024-04-30T00:00:00Z");
}

#[test]
fn build_date_range_counts_months_in_ascending_order() {
    let range = build_date_range("2021-11", "2022-02").unwrap();
    assert_eq!(range.len(), 4);
    let expected_starts = [
        "2021-11-01T00:00:00Z",
        "2021-12-01T00:00:00Z",
        "2022-01-01T00:00:00Z",
        "2022-02-01T00:00:00Z",
    ];
    for (bucket, expected) in range.iter().zip(expected_starts.iter()) {
        assert_eq!(bucket.0, *expected);
    }
    // no gaps: each bucket ends the day before the next bucket starts
    assert_eq!(range[0].1, "2021-11-30T00:00:00Z");
    assert_eq!(range[1].1, "2021-12-31T00:00:00Z");
    assert_eq!(range[2].1, "2022-01-31T00:00:00Z");
}

#[test]
fn build_date_range_single_month() {
    let range = build_date_range("2020-02", "2020-02").unwrap();
    assert_eq!(range.len(), 1);
    assert_eq!(range[0].0, "2020-02-01T00:00:00Z");
    assert_eq!(range[0].1, "2020-02-29T00:00:00Z");
}

#[test]
fn build_date_range_rejects_malformed_months() {
    assert_eq!(
        build_date_range("2023-13", "2023-12").unwrap_err(),
        ReportError::InvalidDateFormat
    );
    assert!(build_date_range("2023-00", "2023-12").is_err());
    assert!(build_date_range("2023-1", "2023-12").is_err());
    assert!(build_date_range("2023/01", "2023-12").is_err());
    assert!(build_date_range("2023-01", "abcd-ef").is_err());
    assert!(build_date_range("", "2023-12").is_err());
}

#[test]
fn build_date_range_empty_when_start_after_end() {
    let range = build_date_range("2024-05", "2024-01").unwrap();
    assert!(range.is_empty());
}

#[test]
fn last_day_of_month_handles_century_leap_rules() {
    assert_eq!(last_day_of_month(2024, 2), 29);
    assert_eq!(last_day_of_month(2023, 2), 28);
    assert_eq!(last_day_of_month(2000, 2), 29);
    assert_eq!(last_day_of_month(1900, 2), 28);
    assert_eq!(last_day_of_month(2024, 4), 30);
    assert_eq!(last_day_of_month(2024, 12), 31);
}

#[test]
fn parse_year_month_reads_both_parts() {
    assert_eq!(parse_year_month("2024-07"), Some((2024, 7)));
    assert_eq!(parse_year_month("0001-01"), Some((1, 1)));
    assert_eq!(parse_year_month("2024-7"), None);
    assert_eq!(parse_year_month("2024-07-01"), None);
}
