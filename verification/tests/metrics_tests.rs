use cost_reporter::decimal::render_micro;
use cost_reporter::fixed::{cost_pct_change, cost_per_100m, Fixed, PctChange, Ratio};
use cost_reporter::record::{
    assemble_account_records, assemble_records, combine_record, extract_sample,
    parse_cost_results, BucketData, CombinedRecord,
};
use cost_reporter::search_doc::{build_id, CostMetricsDoc};
use cost_reporter::stop_watch::StopWatch;
use cost_reporter::ReportError;

#[test]
fn construct_new_metrics_doc() {
    //arrange
    let record = CombinedRecord {
        period_start: String::from("2024-07-01T00:00:00Z"),
        cost: Fixed::from_whole(1000),
        invocations: Fixed::from_whole(2000),
        average_duration: Fixed::from_whole(3000),
        cost_per_100m: Some(Ratio { micro: 4000 * 1_000_000 }),
    };
    let lambda_name = "tf-ecom-web-app-prodb-shop-service";

    //act
    let doc = CostMetricsDoc::new(lambda_name, &record);

    //assert
    assert_eq!(doc.id, "tf-ecom-web-app-prodb-shop-service-2024-7");
}

#[test]
fn build_id_strips_month_padding() {
    let id = build_id("app-x", "2024-07-01T00:00:00Z");
    assert_eq!(id, "app-x-2024-7");
    let id2 = build_id("app-x", "2024-11-01T00:00:00Z");
    assert_eq!(id2, "app-x-2024-11");
}

#[test]
fn same_bucket_yields_same_document_id() {
    let record = combine_record(
        String::from("2024-07-01T00:00:00Z"),
        Fixed::from_whole(10),
        Fixed::from_whole(5),
        Fixed::from_whole(3),
    );
    let first = CostMetricsDoc::new("app-x", &record);
    let second = CostMetricsDoc::new("app-x", &record);
    // an upsert under the same id overwrites: re-running the sink cannot
    // create a second document for the bucket
    assert_eq!(first.id, second.id);
}

#[test]
fn derived_ratio_exact_value() {
    // cost 10.0 over 5.0 invocations: (10 / 5) * 1e8 = 200000000.0
    let ratio = cost_per_100m(Fixed::from_whole(10), Fixed::from_whole(5)).unwrap();
    assert_eq!(ratio.micro, 200_000_000_000_000);
    assert_eq!(render_micro(ratio.micro), "200000000");
}

#[test]
fn derived_ratio_undefined_for_zero_invocations() {
    assert!(cost_per_100m(Fixed::from_whole(10), Fixed::zero()).is_none());
}

#[test]
fn account_percentage_change_values() {
    // first bucket always 0; from 100.0 to 150.0 the change is 50.0
    let periods = vec![
        String::from("2024-01-01T00:00:00Z"),
        String::from("2024-02-01T00:00:00Z"),
    ];
    let costs = vec![Fixed::from_whole(100), Fixed::from_whole(150)];
    let records = assemble_account_records(&periods, &costs);
    assert_eq!(records.len(), 2);
    assert_eq!(records[0].change, Some(PctChange { negative: false, micro: 0 }));
    assert_eq!(records[1].change, Some(PctChange { negative: false, micro: 50_000_000 }));
    assert_eq!(records[0].cost, Fixed::from_whole(100));
}

#[test]
fn account_percentage_change_negative_and_undefined() {
    let periods = vec![
        String::from("2024-01-01T00:00:00Z"),
        String::from("2024-02-01T00:00:00Z"),
        String::from("2024-03-01T00:00:00Z"),
    ];
    let costs = vec![Fixed::from_whole(200), Fixed::from_whole(150), Fixed::zero()];
    let records = assemble_account_records(&periods, &costs);
    // 200 -> 150 is a drop of 25%
    assert_eq!(records[1].change, Some(PctChange { negative: true, micro: 25_000_000 }));
    // the prior bucket of the third record is 150, not zero
    assert_eq!(records[2].change, Some(PctChange { negative: true, micro: 100_000_000 }));
    // a zero prior leaves the change undefined
    assert_eq!(cost_pct_change(Fixed::zero(), Fixed::from_whole(5)), None);
}

#[test]
fn extract_sample_takes_first_point_of_last_nonempty_series() {
    let results = vec![
        vec![Fixed::from_whole(7), Fixed::from_whole(8)],
        vec![],
        vec![Fixed::from_whole(9)],
        vec![],
    ];
    assert_eq!(extract_sample(&results), Fixed::from_whole(9));
    let empty: Vec<Vec<Fixed>> = vec![];
    assert_eq!(extract_sample(&empty), Fixed::zero());
}

#[test]
fn parse_cost_results_takes_last_amount_and_defaults_to_zero() {
    let amounts = vec![String::from("10.5"), String::from("3")];
    assert_eq!(parse_cost_results(&amounts).unwrap(), Fixed { micro: 3_000_000 });
    let none: Vec<String> = vec![];
    assert_eq!(parse_cost_results(&none).unwrap(), Fixed::zero());
}

#[test]
fn parse_cost_results_rejects_malformed_amounts() {
    let amounts = vec![String::from("10.5"), String::from("not-a-number")];
    assert_eq!(
        parse_cost_results(&amounts).unwrap_err(),
        ReportError::UpstreamQueryFailure
    );
}

#[test]
fn assemble_records_joins_all_buckets_in_order() {
    let buckets = vec![
        BucketData {
            period_start: String::from("2024-01-01T00:00:00Z"),
            invocation_results: vec![vec![Fixed::from_whole(5)]],
            duration_results: vec![vec![Fixed { micro: 2_500_000 }]],
            cost_amounts: vec![String::from("10")],
        },
        BucketData {
            period_start: String::from("2024-02-01T00:00:00Z"),
            invocation_results: vec![],
            duration_results: vec![],
            cost_amounts: vec![],
        },
    ];
    let records = assemble_records(&buckets).unwrap();
    assert_eq!(records.len(), 2);
    assert_eq!(records[0].period_start, "2024-01-01T00:00:00Z");
    assert_eq!(records[0].cost, Fixed::from_whole(10));
    assert_eq!(records[0].invocations, Fixed::from_whole(5));
    assert_eq!(records[0].average_duration, Fixed { micro: 2_500_000 });
    assert_eq!(records[0].cost_per_100m, Some(Ratio { micro: 200_000_000_000_000 }));
    // a bucket with no data still yields a record, with zero samples and an
    // undefined ratio
    assert_eq!(records[1].cost, Fixed::zero());
    assert_eq!(records[1].invocations, Fixed::zero());
    assert_eq!(records[1].cost_per_100m, None);
}

#[test]
fn assemble_records_fails_whole_run_on_bad_amount() {
    let buckets = vec![
        BucketData {
            period_start: String::from("2024-01-01T00:00:00Z"),
            invocation_results: vec![vec![Fixed::from_whole(5)]],
            duration_results: vec![],
            cost_amounts: vec![String::from("1.2.3")],
        },
    ];
    assert_eq!(
        assemble_records(&buckets).unwrap_err(),
        ReportError::UpstreamQueryFailure
    );
}

#[test]
fn stop_watch_reports_elapsed_milliseconds() {
    let sw = StopWatch::new();
    let first = sw.get_ms_duration();
    let second = sw.get_ms_duration();
    assert!(second >= first);
}
