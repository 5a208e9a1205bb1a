//! Cost-efficiency reports for serverless workloads: a caller-given month
//! range is partitioned into calendar-month buckets; for each bucket the
//! invocation count, average duration and amortized cost of a resource are
//! gathered from external sources, joined into one record with a derived
//! cost-per-100M-requests metric, and the ordered records are rendered for
//! a tabular file, a search index or an object store.
//!
//! This crate holds the verified pipeline: date partitioning, the numeric
//! model (micro-unit fixed point in place of floating point), the per-bucket
//! join with its missing-data defaults, the account-level percentage-change
//! chain, the sink renderings and parsers, and the configuration lookup.
//! The unverified shell around it — command line, HTTP, cloud clients —
//! lives outside and exchanges plain values with these modules.

use vstd::prelude::*;

pub mod date;
pub mod decimal;
pub mod fixed;
pub mod object_key;
pub mod record;
pub mod report_config;
pub mod search_doc;
pub mod stop_watch;
pub mod tabular;
pub mod text;

verus! {

/// The fatal failure kinds of a report run.
#[derive(Clone, Copy, Debug, PartialEq, Eq, Structural)]
pub enum ReportError {
    /// A date bound could not be read as "YYYY-MM".
    InvalidDateFormat,
    /// No configuration entry matches the requested resource.
    ConfigNotFound,
    /// An upstream source handed back a malformed response.
    UpstreamQueryFailure,
}

impl ReportError {
    /// The failure as words for the user.
    pub fn message(&self) -> (r: &'static str)
        ensures
            *self is InvalidDateFormat ==> r@ == "Date is not of the form YYYY-MM"@,
            *self is ConfigNotFound ==> r@ == "No matching configuration found"@,
            *self is UpstreamQueryFailure ==> r@ == "Upstream source returned a malformed response"@,
    {
        match self {
            ReportError::InvalidDateFormat => "Date is not of the form YYYY-MM",
            ReportError::ConfigNotFound => "No matching configuration found",
            ReportError::UpstreamQueryFailure => "Upstream source returned a malformed response",
        }
    }
}

} // verus!
