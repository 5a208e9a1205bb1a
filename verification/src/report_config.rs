//! Static report configuration: one entry per resource, resolved by exact
//! resource-name match. The configuration is built once from plain values
//! and read for the rest of the run.

use vstd::prelude::*;

use crate::text::str_eq;

verus! {

/// One cost-allocation tag: a key and the values the billing filter accepts.
#[derive(Clone, Debug)]
pub struct TagKeyValues {
    pub key: String,
    pub values: Vec<String>,
}

/// The configuration of one resource: where it lives, which role may query
/// for it, and the tags its costs are filtered by.
#[derive(Clone, Debug)]
pub struct ReportConfig {
    pub region: String,
    pub report_query_role_arn: String,
    pub lambda_name: String,
    pub cost_allocation_tags: Vec<TagKeyValues>,
}

/// The account-level configuration: no resource, no tag filter.
#[derive(Clone, Debug)]
pub struct AccountReportConfig {
    pub region: String,
    pub report_query_role_arn: String,
    pub account_name: String,
}

/// Two tags with the same key and the same values.
pub open spec fn tag_like(a: TagKeyValues, b: TagKeyValues) -> bool {
    a.key == b.key && a.values@ == b.values@
}

/// Two configurations with the same content.
pub open spec fn config_like(a: ReportConfig, b: ReportConfig) -> bool {
    &&& a.region == b.region
    &&& a.report_query_role_arn == b.report_query_role_arn
    &&& a.lambda_name == b.lambda_name
    &&& a.cost_allocation_tags@.len() == b.cost_allocation_tags@.len()
    &&& forall|i: int|
        0 <= i < a.cost_allocation_tags@.len() ==> tag_like(
            #[trigger] a.cost_allocation_tags@[i],
            b.cost_allocation_tags@[i],
        )
}

fn clone_string_vec(v: &Vec<String>) -> (r: Vec<String>)
    ensures
        r@ == v@,
{
    let mut out: Vec<String> = Vec::new();
    let mut i: usize = 0;
    while i < v.len()
        invariant
            0 <= i <= v@.len(),
            out@ == v@.subrange(0, i as int),
        decreases v@.len() - i,
    {
        out.push(v[i].clone());
        proof {
            assert(out@ =~= v@.subrange(0, i + 1));
        }
        i = i + 1;
    }
    proof {
        assert(v@.subrange(0, i as int) =~= v@);
    }
    out
}

fn clone_tag(t: &TagKeyValues) -> (r: TagKeyValues)
    ensures
        tag_like(r, *t),
{
    TagKeyValues { key: t.key.clone(), values: clone_string_vec(&t.values) }
}

fn clone_config(c: &ReportConfig) -> (r: ReportConfig)
    ensures
        config_like(r, *c),
{
    let mut tags: Vec<TagKeyValues> = Vec::new();
    let mut i: usize = 0;
    while i < c.cost_allocation_tags.len()
        invariant
            0 <= i <= c.cost_allocation_tags@.len(),
            tags@.len() == i,
            forall|k: int|
                0 <= k < i ==> tag_like(#[trigger] tags@[k], c.cost_allocation_tags@[k]),
        decreases c.cost_allocation_tags@.len() - i,
    {
        tags.push(clone_tag(&c.cost_allocation_tags[i]));
        i = i + 1;
    }
    ReportConfig {
        region: c.region.clone(),
        report_query_role_arn: c.report_query_role_arn.clone(),
        lambda_name: c.lambda_name.clone(),
        cost_allocation_tags: tags,
    }
}

/// Whether a configuration entry is for the named resource.
pub open spec fn matches_name(c: ReportConfig, name: Seq<char>) -> bool {
    c.lambda_name@ == name
}

/// Holds the loaded configuration entries for the duration of one run.
pub struct ReportConfigManager {
    pub report_config: Vec<ReportConfig>,
}

impl ReportConfigManager {
    pub fn new(report_config: Vec<ReportConfig>) -> (r: ReportConfigManager)
        ensures
            r.report_config == report_config,
    {
        ReportConfigManager { report_config }
    }

    /// Resolves a resource name to its configuration: the first entry whose
    /// resource name matches exactly, or an error when none does.
    pub fn get_config(&self, lambda_name: &str) -> (r: Result<ReportConfig, &'static str>)
        ensures
            r is Ok <==> exists|i: int|
                0 <= i < self.report_config@.len() && matches_name(
                    #[trigger] self.report_config@[i],
                    lambda_name@,
                ),
            r matches Ok(c) ==> exists|i: int|
                {
                    &&& 0 <= i < self.report_config@.len()
                    &&& matches_name(#[trigger] self.report_config@[i], lambda_name@)
                    &&& forall|j: int|
                        0 <= j < i ==> !matches_name(#[trigger] self.report_config@[j], lambda_name@)
                    &&& config_like(c, self.report_config@[i])
                },
            r matches Err(e) ==> e@ == "No matching configuration found"@,
    {
        let mut i: usize = 0;
        while i < self.report_config.len()
            invariant
                0 <= i <= self.report_config@.len(),
                forall|j: int|
                    0 <= j < i ==> !matches_name(#[trigger] self.report_config@[j], lambda_name@),
            decreases self.report_config@.len() - i,
        {
            if str_eq(self.report_config[i].lambda_name.as_str(), lambda_name) {
                return Ok(clone_config(&self.report_config[i]));
            }
            i = i + 1;
        }
        Err("No matching configuration found")
    }
}

} // verus!
