//! The k-way merge of per-mission finding collections into one deterministic
//! output sequence.

use crate::finding::{finding_le, findings_sorted, Finding};
use crate::finding_collection::FindingCollection;
use vstd::multiset::Multiset;
use vstd::prelude::*;

verus! {

/// The findings of all collections, as a multiset.
pub open spec fn all_findings(colls: Seq<FindingCollection>) -> Multiset<Finding>
    decreases colls.len(),
{
    if colls.len() == 0 {
        Multiset::empty()
    } else {
        colls[0].v@.to_multiset().add(all_findings(colls.skip(1)))
    }
}

/// Relies on `itertools::kmerge`: merges the sorted per-collection finding
/// vectors into one sequence, comparing findings with this library's
/// `PartialOrd` for `Finding`; the result carries exactly the findings of
/// the collections, and it is sorted whenever every input vector is.
#[verifier::external_body]
fn kmerge_findings(colls: &Vec<FindingCollection>) -> (r: Vec<Finding>)
    ensures
        r@.to_multiset() == all_findings(colls@),
        (forall|i: int| 0 <= i < colls@.len() ==> findings_sorted(#[trigger] colls@[i].v@))
            ==> findings_sorted(r@),
{
    itertools::kmerge(colls.iter().map(|c| c.v.clone())).collect()
}

/// Merges the collections of one input window — one per mission, each
/// sorted by the scan — into the single output order: by position, then
/// mission id, then the filter halves.
pub fn merge_collections(colls: &Vec<FindingCollection>) -> (r: Vec<Finding>)
    requires
        forall|i: int| 0 <= i < colls@.len() ==> findings_sorted(#[trigger] colls@[i].v@),
    ensures
        findings_sorted(r@),
        r@.to_multiset() == all_findings(colls@),
{
    kmerge_findings(colls)
}

} // verus!
