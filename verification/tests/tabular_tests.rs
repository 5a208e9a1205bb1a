use cost_reporter::decimal::{parse_micro, render_micro};
use cost_reporter::fixed::{Fixed, PctChange, MAX_MICRO, RATIO_MAX};
use cost_reporter::record::{combine_record, AccountReportRecord};
use cost_reporter::tabular::{
    parse_report, parse_row, render_account_row, render_report, render_row,
};

#[test]
fn render_micro_drops_trailing_zeros() {
    assert_eq!(render_micro(0), "0");
    assert_eq!(render_micro(3_000_000), "3");
    assert_eq!(render_micro(10_500_000), "10.5");
    assert_eq!(render_micro(123_450_000), "123.45");
    assert_eq!(render_micro(1), "0.000001");
    assert_eq!(render_micro(2_500_000), "2.5");
}

#[test]
fn parse_micro_reads_decimal_text() {
    assert_eq!(parse_micro("123.45", MAX_MICRO), Some(123_450_000));
    assert_eq!(parse_micro("0.000001", MAX_MICRO), Some(1));
    assert_eq!(parse_micro("7", MAX_MICRO), Some(7_000_000));
    assert_eq!(parse_micro("007.10", MAX_MICRO), Some(7_100_000));
    // digits beyond the sixth are truncated
    assert_eq!(parse_micro("0.12345678", MAX_MICRO), Some(123_456));
}

#[test]
fn parse_micro_rejects_malformed_text() {
    assert_eq!(parse_micro("", MAX_MICRO), None);
    assert_eq!(parse_micro("1.2.3", MAX_MICRO), None);
    assert_eq!(parse_micro("abc", MAX_MICRO), None);
    assert_eq!(parse_micro("12.", MAX_MICRO), None);
    assert_eq!(parse_micro(".5", MAX_MICRO), None);
    assert_eq!(parse_micro("-1", MAX_MICRO), None);
    assert_eq!(parse_micro("1e5", MAX_MICRO), None);
    // over the cap
    assert_eq!(parse_micro("2", 1_000_000), None);
}

#[test]
fn parse_render_round_trip_on_values() {
    for micro in [0u128, 1, 9, 999_999, 1_000_000, 123_450_000, RATIO_MAX] {
        let text = render_micro(micro);
        assert_eq!(parse_micro(&text, RATIO_MAX), Some(micro));
    }
}

#[test]
fn render_row_fixed_column_order() {
    let record = combine_record(
        String::from("2024-07-01T00:00:00Z"),
        Fixed::from_whole(10),
        Fixed::from_whole(5),
        Fixed { micro: 2_500_000 },
    );
    let line = render_row("app-x", &record);
    assert_eq!(line, "app-x,2024-07-01T00:00:00Z,10,5,2.5,200000000");
}

#[test]
fn render_row_writes_nan_for_undefined_ratio() {
    let record = combine_record(
        String::from("2024-08-01T00:00:00Z"),
        Fixed::from_whole(10),
        Fixed::zero(),
        Fixed::zero(),
    );
    let line = render_row("app-x", &record);
    assert_eq!(line, "app-x,2024-08-01T00:00:00Z,10,0,0,NaN");
}

#[test]
fn render_account_row_three_columns() {
    let up = AccountReportRecord {
        period_start: String::from("2024-02-01T00:00:00Z"),
        cost: Fixed::from_whole(150),
        change: Some(PctChange { negative: false, micro: 50_000_000 }),
    };
    assert_eq!(render_account_row(&up), "2024-02-01T00:00:00Z,150,50");

    let down = AccountReportRecord {
        period_start: String::from("2024-03-01T00:00:00Z"),
        cost: Fixed::from_whole(100),
        change: Some(PctChange { negative: true, micro: 33_333_333 }),
    };
    assert_eq!(render_account_row(&down), "2024-03-01T00:00:00Z,100,-33.333333");

    let undefined = AccountReportRecord {
        period_start: String::from("2024-04-01T00:00:00Z"),
        cost: Fixed::from_whole(10),
        change: None,
    };
    assert_eq!(render_account_row(&undefined), "2024-04-01T00:00:00Z,10,NaN");
}

#[test]
fn tabular_round_trip_keeps_all_column_values() {
    let records = vec![
        combine_record(
            String::from("2024-01-01T00:00:00Z"),
            Fixed::from_whole(10),
            Fixed::from_whole(5),
            Fixed { micro: 2_500_000 },
        ),
        combine_record(
            String::from("2024-02-01T00:00:00Z"),
            Fixed { micro: 123_456 },
            Fixed::zero(),
            Fixed::zero(),
        ),
        combine_record(
            String::from("2024-03-01T00:00:00Z"),
            Fixed::zero(),
            Fixed::from_whole(1_000_000),
            Fixed::from_whole(400),
        ),
    ];
    let lines = render_report("my-function", &records);
    assert_eq!(lines.len(), records.len() + 1);
    assert_eq!(
        lines[0],
        "function-name,timestamp,monthly-cost,invocations,average-duration,cost-per-100m-requests"
    );

    let parsed = parse_report(&lines).unwrap();
    assert_eq!(parsed.len(), records.len());
    for (row, original) in parsed.iter().zip(records.iter()) {
        assert_eq!(row.0, "my-function");
        assert_eq!(row.1.period_start, original.period_start);
        assert_eq!(row.1.cost, original.cost);
        assert_eq!(row.1.invocations, original.invocations);
        assert_eq!(row.1.average_duration, original.average_duration);
        assert_eq!(row.1.cost_per_100m, original.cost_per_100m);
    }
}

#[test]
fn parse_report_rejects_missing_header_or_bad_row() {
    let no_lines: Vec<String> = vec![];
    assert!(parse_report(&no_lines).is_none());

    let bad_header = vec![String::from("timestamp,cost")];
    assert!(parse_report(&bad_header).is_none());

    let bad_row = vec![
        String::from(
            "function-name,timestamp,monthly-cost,invocations,average-duration,cost-per-100m-requests",
        ),
        String::from("app-x,2024-01-01T00:00:00Z,ten,5,2.5,NaN"),
    ];
    assert!(parse_report(&bad_row).is_none());
}

#[test]
fn parse_row_requires_six_columns() {
    assert!(parse_row("a,b,c").is_none());
    assert!(parse_row("app-x,2024-01-01T00:00:00Z,1,2,3,NaN,extra").is_none());
    let row = parse_row("app-x,2024-01-01T00:00:00Z,1,2,3,NaN").unwrap();
    assert_eq!(row.0, "app-x");
    assert_eq!(row.1.cost, Fixed::from_whole(1));
    assert_eq!(row.1.cost_per_100m, None);
}
