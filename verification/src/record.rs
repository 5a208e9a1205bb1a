//! Per-bucket aggregation: joining the usage samples and the cost sample of
//! one calendar-month bucket into a combined record, assembling the records
//! of a whole run in bucket order, and the account-level variant with its
//! percentage-change chain.

use vstd::prelude::*;

use crate::ReportError;
use crate::decimal::{decimal_micro, is_decimal_chars, parse_micro};
use crate::fixed::{
    cost_pct_change, cost_per_100m, pct_change_micro, ratio_micro, Fixed, PctChange, Ratio,
    MAX_MICRO,
};

verus! {

/// One report row: the bucket's start timestamp, its three source values and
/// the derived cost-per-100M-requests metric (absent for a bucket without
/// invocations).
#[derive(Debug)]
pub struct CombinedRecord {
    pub period_start: String,
    pub cost: Fixed,
    pub invocations: Fixed,
    pub average_duration: Fixed,
    pub cost_per_100m: Option<Ratio>,
}

/// The value a metric query yields for one bucket: the sources hand back a
/// list of result series; the first point of the last non-empty series
/// counts, and a bucket without data points counts as zero.
pub open spec fn last_sample(results: Seq<Vec<Fixed>>) -> Fixed
    decreases results.len(),
{
    if results.len() == 0 {
        Fixed { micro: 0 }
    } else if results.last()@.len() > 0 {
        results.last()@[0]
    } else {
        last_sample(results.drop_last())
    }
}

/// Resolves a metric response to one sample, substituting zero when no
/// series has a data point (absence of data is valid, not an error).
pub fn extract_sample(results: &Vec<Vec<Fixed>>) -> (r: Fixed)
    ensures
        r == last_sample(results@),
{
    let mut out = Fixed::zero();
    let mut i: usize = 0;
    while i < results.len()
        invariant
            0 <= i <= results@.len(),
            out == last_sample(results@.subrange(0, i as int)),
        decreases results@.len() - i,
    {
        proof {
            assert(results@.subrange(0, i + 1).drop_last() =~= results@.subrange(0, i as int));
            assert(results@.subrange(0, i + 1).last() == results@[i as int]);
        }
        let series = &results[i];
        if series.len() > 0 {
            out = series[0];
        }
        i = i + 1;
    }
    proof {
        assert(results@.subrange(0, i as int) =~= results@);
    }
    out
}

/// Every billing amount of the response is well-formed decimal text within
/// the pipeline's range.
pub open spec fn cost_results_ok(amounts: Seq<Seq<char>>) -> bool {
    forall|i: int|
        0 <= i < amounts.len() ==> is_decimal_chars(#[trigger] amounts[i]) && decimal_micro(
            amounts[i],
        ) <= MAX_MICRO as nat
}

/// The cost a billing response yields for one bucket: the last period's
/// amount, or zero when the response has no period.
pub open spec fn last_cost(amounts: Seq<Seq<char>>) -> nat {
    if amounts.len() == 0 {
        0
    } else {
        decimal_micro(amounts.last())
    }
}

/// Parses the amount strings of one bucket's billing response. A malformed
/// or out-of-range amount is fatal; an empty response is the zero default.
pub fn parse_cost_results(amounts: &Vec<String>) -> (r: Result<Fixed, ReportError>)
    ensures
        r is Ok <==> cost_results_ok(amounts.deep_view()),
        r matches Ok(c) ==> c.micro == last_cost(amounts.deep_view()) && c.wf(),
        r matches Err(e) ==> e == ReportError::UpstreamQueryFailure,
{
    let mut out = Fixed::zero();
    let mut i: usize = 0;
    while i < amounts.len()
        invariant
            0 <= i <= amounts@.len(),
            amounts.deep_view().len() == amounts@.len(),
            forall|j: int|
                0 <= j < i ==> is_decimal_chars(#[trigger] amounts.deep_view()[j]) && decimal_micro(
                    amounts.deep_view()[j],
                ) <= MAX_MICRO as nat,
            out.micro == last_cost(amounts.deep_view().subrange(0, i as int)),
            out.wf(),
        decreases amounts@.len() - i,
    {
        proof {
            assert(amounts.deep_view()[i as int] == amounts@[i as int]@);
        }
        match parse_micro(amounts[i].as_str(), MAX_MICRO) {
            None => {
                return Err(ReportError::UpstreamQueryFailure);
            },
            Some(v) => {
                out = Fixed { micro: v };
            },
        }
        proof {
            assert(amounts.deep_view().subrange(0, i + 1).last() == amounts.deep_view()[i as int]);
        }
        i = i + 1;
    }
    proof {
        assert(amounts.deep_view().subrange(0, i as int) =~= amounts.deep_view());
    }
    Ok(out)
}

/// Joins one bucket's cost and usage samples into a combined record with the
/// derived ratio.
pub fn combine_record(
    period_start: String,
    cost: Fixed,
    invocations: Fixed,
    average_duration: Fixed,
) -> (r: CombinedRecord)
    requires
        cost.wf(),
    ensures
        r.period_start == period_start,
        r.cost == cost,
        r.invocations == invocations,
        r.average_duration == average_duration,
        r.cost_per_100m is None <==> invocations.micro == 0,
        r.cost_per_100m matches Some(q) ==> q.micro == ratio_micro(
            cost.micro as nat,
            invocations.micro as nat,
        ) && q.wf(),
{
    let ratio = cost_per_100m(cost, invocations);
    CombinedRecord { period_start, cost, invocations, average_duration, cost_per_100m: ratio }
}

/// Everything gathered for one bucket before the join: the bucket's start
/// timestamp and the raw values of the three concurrent queries.
#[derive(Debug)]
pub struct BucketData {
    pub period_start: String,
    pub invocation_results: Vec<Vec<Fixed>>,
    pub duration_results: Vec<Vec<Fixed>>,
    pub cost_amounts: Vec<String>,
}

/// The combined record a bucket's data must produce.
pub open spec fn record_matches_bucket(r: CombinedRecord, b: BucketData) -> bool {
    &&& r.period_start@ == b.period_start@
    &&& r.cost.micro == last_cost(b.cost_amounts.deep_view())
    &&& r.invocations == last_sample(b.invocation_results@)
    &&& r.average_duration == last_sample(b.duration_results@)
    &&& (r.cost_per_100m is None <==> r.invocations.micro == 0)
    &&& (r.cost_per_100m matches Some(q) ==> q.micro == ratio_micro(
        r.cost.micro as nat,
        r.invocations.micro as nat,
    ))
}

/// Drives the per-bucket join across all buckets, in bucket order, one
/// record per bucket unconditionally; a malformed billing amount anywhere
/// aborts the whole run with no partial result.
pub fn assemble_records(buckets: &Vec<BucketData>) -> (r: Result<Vec<CombinedRecord>, ReportError>)
    ensures
        r is Ok <==> (forall|k: int|
            0 <= k < buckets@.len() ==> cost_results_ok(
                (#[trigger] buckets@[k]).cost_amounts.deep_view(),
            )),
        r matches Ok(v) ==> v@.len() == buckets@.len() && (forall|k: int|
            0 <= k < buckets@.len() ==> record_matches_bucket(
                #[trigger] v@[k],
                buckets@[k],
            )),
        r matches Err(e) ==> e == ReportError::UpstreamQueryFailure,
{
    let mut out: Vec<CombinedRecord> = Vec::new();
    let mut i: usize = 0;
    while i < buckets.len()
        invariant
            0 <= i <= buckets@.len(),
            out@.len() == i,
            forall|k: int|
                0 <= k < i ==> cost_results_ok((#[trigger] buckets@[k]).cost_amounts.deep_view()),
            forall|k: int|
                0 <= k < i ==> record_matches_bucket(#[trigger] out@[k], buckets@[k]),
        decreases buckets@.len() - i,
    {
        let b = &buckets[i];
        let invocations = extract_sample(&b.invocation_results);
        let duration = extract_sample(&b.duration_results);
        let cost = match parse_cost_results(&b.cost_amounts) {
            Ok(c) => c,
            Err(e) => {
                return Err(e);
            },
        };
        let rec = combine_record(b.period_start.clone(), cost, invocations, duration);
        out.push(rec);
        i = i + 1;
    }
    Ok(out)
}

/// One account-level report row: the bucket's start timestamp, the account
/// cost, and the percentage change from the prior bucket (absent when the
/// prior cost is zero, so that no undefined division is reported).
#[derive(Debug)]
pub struct AccountReportRecord {
    pub period_start: String,
    pub cost: Fixed,
    pub change: Option<PctChange>,
}

/// The percentage-change value owed at position k of a cost series: zero for
/// the first bucket (no prior value exists), then the change from the prior
/// bucket, carried strictly one bucket at a time in traversal order.
pub open spec fn account_change_at(costs: Seq<Fixed>, k: int) -> Option<PctChange> {
    if k == 0 {
        Some(PctChange { negative: false, micro: 0 })
    } else if costs[k - 1].micro == 0 {
        None
    } else {
        Some(
            PctChange {
                negative: costs[k].micro < costs[k - 1].micro,
                micro: pct_change_micro(costs[k - 1].micro as nat, costs[k].micro as nat) as u128,
            },
        )
    }
}

/// The first bucket of an account report always carries a change of zero.
pub proof fn lemma_first_bucket_change_is_zero(costs: Seq<Fixed>)
    ensures
        account_change_at(costs, 0) == Some(PctChange { negative: false, micro: 0 }),
{
}

/// Builds the account-level report: one record per bucket in order, each
/// with the percentage change from its prior bucket.
pub fn assemble_account_records(periods: &Vec<String>, costs: &Vec<Fixed>) -> (r: Vec<
    AccountReportRecord,
>)
    requires
        periods@.len() == costs@.len(),
        forall|k: int| 0 <= k < costs@.len() ==> (#[trigger] costs@[k]).wf(),
    ensures
        r@.len() == costs@.len(),
        forall|k: int|
            0 <= k < r@.len() ==> (#[trigger] r@[k]).period_start@ == periods@[k]@ && r@[k].cost
                == costs@[k] && r@[k].change == account_change_at(costs@, k),
{
    let mut out: Vec<AccountReportRecord> = Vec::new();
    let mut i: usize = 0;
    while i < costs.len()
        invariant
            0 <= i <= costs@.len(),
            periods@.len() == costs@.len(),
            forall|k: int| 0 <= k < costs@.len() ==> (#[trigger] costs@[k]).wf(),
            out@.len() == i,
            forall|k: int|
                0 <= k < i ==> (#[trigger] out@[k]).period_start@ == periods@[k]@ && out@[k].cost
                    == costs@[k] && out@[k].change == account_change_at(costs@, k),
        decreases costs@.len() - i,
    {
        let change: Option<PctChange> = if i == 0 {
            Some(PctChange { negative: false, micro: 0 })
        } else {
            cost_pct_change(costs[i - 1], costs[i])
        };
        out.push(
            AccountReportRecord { period_start: periods[i].clone(), cost: costs[i], change },
        );
        i = i + 1;
    }
    out
}

} // verus!
