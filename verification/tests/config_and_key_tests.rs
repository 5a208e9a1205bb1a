use cost_reporter::object_key::build_object_key_from_csv_path;
use cost_reporter::report_config::{ReportConfig, ReportConfigManager, TagKeyValues};

fn sample_configs() -> Vec<ReportConfig> {
    vec![
        ReportConfig {
            region: String::from("us-west-2"),
            report_query_role_arn: String::from("arn:aws:iam::111111:role/cost-aware-arch-reporter"),
            lambda_name: String::from("test-lambda"),
            cost_allocation_tags: vec![TagKeyValues {
                key: String::from("application"),
                values: vec![String::from("web-app")],
            }],
        },
        ReportConfig {
            region: String::from("eu-west-1"),
            report_query_role_arn: String::from("arn:aws:iam::222222:role/other-reporter"),
            lambda_name: String::from("other-lambda"),
            cost_allocation_tags: vec![],
        },
    ]
}

#[test]
fn config_manager_query_by_lambda_name_tests() {
    let lambda_name = "test-lambda";
    let manager = ReportConfigManager::new(sample_configs());

    let config = manager.get_config(lambda_name).unwrap();

    assert_eq!(config.lambda_name, lambda_name);
    assert_eq!(config.region, "us-west-2");
    assert_eq!(config.cost_allocation_tags[0].key, "application",);
    assert_eq!(config.cost_allocation_tags[0].values[0], "web-app",);
    assert_eq!(
        config.report_query_role_arn,
        "arn:aws:iam::111111:role/cost-aware-arch-reporter"
    );
}

#[test]
fn config_manager_query_by_lambda_name_err_result_tests() {
    let lambda_name = "lambda_name_does_not_exist";
    let manager = ReportConfigManager::new(sample_configs());

    let err = manager.get_config(lambda_name).unwrap_err();

    assert_eq!(err, "No matching configuration found");
}

#[test]
fn config_manager_returns_first_match() {
    let mut configs = sample_configs();
    let mut duplicate = sample_configs().remove(0);
    duplicate.region = String::from("ap-southeast-1");
    configs.push(duplicate);
    let manager = ReportConfigManager::new(configs);

    let config = manager.get_config("test-lambda").unwrap();
    assert_eq!(config.region, "us-west-2");
}

#[test]
fn error_messages_name_each_failure() {
    assert_eq!(
        cost_reporter::ReportError::ConfigNotFound.message(),
        "No matching configuration found"
    );
    assert_eq!(
        cost_reporter::ReportError::InvalidDateFormat.message(),
        "Date is not of the form YYYY-MM"
    );
    assert_eq!(
        cost_reporter::ReportError::UpstreamQueryFailure.message(),
        "Upstream source returned a malformed response"
    );
}

#[test]
fn build_object_key_from_csv_path_tests() {
    let path = "./this-is-an-object-key-output.csv";
    let key = build_object_key_from_csv_path(path);
    assert!(key == "lambda-costs/this-is-an-object-key.csv")
}

#[test]
fn build_object_key_uses_first_suffix_occurrence() {
    let path = "./report-2023-01-2023-12-output.csv-output.csv";
    let key = build_object_key_from_csv_path(path);
    assert_eq!(key, "lambda-costs/report-2023-01-2023-12.csv");
}
