//! Search-index documents: one document per bucket, whose identifier is
//! derived from the resource name and the bucket's year and month (month not
//! zero padded), so that repeated runs over the same bucket upsert the same
//! document instead of adding a second one.

use vstd::prelude::*;

use crate::date::{valid_year_month, ym_month, ym_year};
use crate::fixed::{Fixed, Ratio};
use crate::record::CombinedRecord;
use crate::text::{dec_str, lemma_dec_val_bound, parse_u128_range, pow10, render_u128};

verus! {

/// The document written for one bucket.
#[derive(Clone, Debug)]
pub struct CostMetricsDoc {
    pub id: String,
    pub lambda_name: String,
    pub timestamp: String,
    pub cost: Fixed,
    pub invocations: Fixed,
    pub duration: Fixed,
    pub cost_per_request: Option<Ratio>,
}

/// "{name}-{year}-{month}" for the year and month opening the timestamp;
/// the year and month are decimal numbers without padding.
pub open spec fn doc_id_chars(name: Seq<char>, ts: Seq<char>) -> Seq<char> {
    name + seq!['-'] + dec_str(ym_year(ts.subrange(0, 7))) + seq!['-'] + dec_str(
        ym_month(ts.subrange(0, 7)),
    )
}

/// Derives the document identifier from the resource name and the bucket
/// timestamp ("YYYY-MM-..."). The month keeps no leading zero.
pub fn build_id(lambda_name: &str, timestamp: &str) -> (r: String)
    requires
        timestamp@.len() >= 7,
        valid_year_month(timestamp@.subrange(0, 7)),
    ensures
        r@ == doc_id_chars(lambda_name@, timestamp@),
{
    let ghost ym = timestamp@.subrange(0, 7);
    proof {
        assert(ym.subrange(0, 4) =~= timestamp@.subrange(0, 4));
        assert(ym.subrange(5, 7) =~= timestamp@.subrange(5, 7));
        lemma_dec_val_bound(timestamp@.subrange(0, 4));
        assert(pow10(0) == 1);
        assert(pow10(1) == 10);
        assert(pow10(2) == 100);
        assert(pow10(3) == 1000);
        assert(pow10(4) == 10000);
    }
    let year = match parse_u128_range(timestamp, 0, 4, 9999) {
        Some(y) => y,
        None => {
            proof {
                assert(false);
            }
            0
        },
    };
    let month = match parse_u128_range(timestamp, 5, 7, 99) {
        Some(m) => m,
        None => {
            proof {
                lemma_dec_val_bound(timestamp@.subrange(5, 7));
                assert(false);
            }
            0
        },
    };
    let year_str = render_u128(year);
    let month_str = render_u128(month);
    let r = lambda_name
        .to_owned()
        .concat("-")
        .concat(year_str.as_str())
        .concat("-")
        .concat(month_str.as_str());
    proof {
        reveal_strlit("-");
        assert(r@ =~= doc_id_chars(lambda_name@, timestamp@));
    }
    r
}

impl CostMetricsDoc {
    /// Builds the document for one combined record.
    pub fn new(lambda_name: &str, record: &CombinedRecord) -> (r: CostMetricsDoc)
        requires
            record.period_start@.len() >= 7,
            valid_year_month(record.period_start@.subrange(0, 7)),
        ensures
            r.id@ == doc_id_chars(lambda_name@, record.period_start@),
            r.lambda_name@ == lambda_name@,
            r.timestamp@ == record.period_start@,
            r.cost == record.cost,
            r.invocations == record.invocations,
            r.duration == record.average_duration,
            r.cost_per_request == record.cost_per_100m,
    {
        CostMetricsDoc {
            id: build_id(lambda_name, record.period_start.as_str()),
            lambda_name: lambda_name.to_owned(),
            timestamp: record.period_start.clone(),
            cost: record.cost,
            invocations: record.invocations,
            duration: record.average_duration,
            cost_per_request: record.cost_per_100m,
        }
    }
}

/// The search index, modelled as a map from document identifier to document:
/// writing a document upserts it under its id.
pub open spec fn upsert_all(
    index: Map<Seq<char>, CostMetricsDoc>,
    docs: Seq<CostMetricsDoc>,
) -> Map<Seq<char>, CostMetricsDoc>
    decreases docs.len(),
{
    if docs.len() == 0 {
        index
    } else {
        upsert_all(index, docs.drop_last()).insert(docs.last().id@, docs.last())
    }
}

/// The identifiers of a batch of documents.
pub open spec fn doc_ids(docs: Seq<CostMetricsDoc>) -> Set<Seq<char>>
    decreases docs.len(),
{
    if docs.len() == 0 {
        Set::empty()
    } else {
        doc_ids(docs.drop_last()).insert(docs.last().id@)
    }
}

proof fn lemma_upsert_union(index: Map<Seq<char>, CostMetricsDoc>, docs: Seq<CostMetricsDoc>)
    ensures
        upsert_all(index, docs) == index.union_prefer_right(
            upsert_all(Map::empty(), docs),
        ),
    decreases docs.len(),
{
    if docs.len() == 0 {
        assert(upsert_all(index, docs) =~= index.union_prefer_right(
            upsert_all(Map::empty(), docs),
        ));
    } else {
        lemma_upsert_union(index, docs.drop_last());
        assert(upsert_all(index, docs) =~= index.union_prefer_right(
            upsert_all(Map::empty(), docs),
        ));
    }
}

/// Re-running the search-index sink over the same documents leaves the index
/// exactly as one run left it: a repeated id overwrites its document, it
/// never adds a second one.
pub proof fn lemma_upsert_idempotent(
    index: Map<Seq<char>, CostMetricsDoc>,
    docs: Seq<CostMetricsDoc>,
)
    ensures
        upsert_all(upsert_all(index, docs), docs) == upsert_all(index, docs),
{
    lemma_upsert_union(index, docs);
    lemma_upsert_union(upsert_all(index, docs), docs);
    assert(index.union_prefer_right(upsert_all(Map::empty(), docs)).union_prefer_right(
        upsert_all(Map::empty(), docs),
    ) =~= index.union_prefer_right(upsert_all(Map::empty(), docs)));
}

/// After a run, the index holds exactly the documents it already had plus
/// one entry per distinct written id.
pub proof fn lemma_upsert_domain(index: Map<Seq<char>, CostMetricsDoc>, docs: Seq<CostMetricsDoc>)
    ensures
        upsert_all(index, docs).dom() == index.dom() + doc_ids(docs),
    decreases docs.len(),
{
    if docs.len() == 0 {
        assert(upsert_all(index, docs).dom() =~= index.dom() + doc_ids(docs));
    } else {
        lemma_upsert_domain(index, docs.drop_last());
        assert(upsert_all(index, docs).dom() =~= index.dom() + doc_ids(docs));
    }
}

} // verus!
