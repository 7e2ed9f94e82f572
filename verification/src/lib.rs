pub mod branches;
pub mod filter;
pub mod model;
pub mod narrative;
pub mod spiral;

use vstd::prelude::*;

use crate::branches::{
    distribution_ok, lemma_filter_ids_len, quantum_collapse, tree_ids, BranchProbability,
};
use crate::filter::{filter_flow_tree, filter_model, lemma_filter_counts, lemma_filter_wf};
use crate::model::{db_count, node_count, node_wf, CallNodeView, FlowTree};
use crate::narrative::{
    generate_steps, generate_summary, lemma_step_count, step_descs, summary_text, Step,
};
use crate::spiral::{generate_spiral_points, spiral_points, SpiralPoint};

verus! {

// ---------------------------------------------------------------------------
// Pipeline orchestration
//
// One ingested trace runs through the fixed stage order: filter the call
// tree against the excluded package prefixes, aggregate branch frequencies,
// lay out the spiral, and generate the narrative — the last three stages all
// consuming the filtered tree, never the original.
// ---------------------------------------------------------------------------

/// The assembled explanation of one trace.
pub struct ExplanationResponse {
    pub summary: String,
    pub steps: Vec<Step>,
    pub spiral_points: Vec<SpiralPoint>,
    pub branch_probabilities: Vec<BranchProbability>,
}

/// What the response owes to the filtered tree `fm`: the summary sentence,
/// the full pre-order step log with 1-based gap-free indices, the spiral
/// placement of every node, and the exact branch-frequency distribution.
pub open spec fn response_ok(fm: CallNodeView, r: ExplanationResponse) -> bool {
    &&& r.summary@ == summary_text(fm)
    &&& r.steps@.len() == step_descs(fm).len()
    &&& forall|i: int| 0 <= i < r.steps@.len() ==> (#[trigger] r.steps@[i]).step == i + 1
    &&& forall|i: int|
        0 <= i < r.steps@.len() ==> (#[trigger] r.steps@[i]).description@ == step_descs(fm)[i]
    &&& r.spiral_points@.len() == node_count(fm)
    &&& forall|i: int|
        0 <= i < r.spiral_points@.len() ==> (#[trigger] r.spiral_points@[i])@ == spiral_points(
            fm,
            0,
            0,
        )[i]
    &&& distribution_ok(tree_ids(fm), r.branch_probabilities@)
}

/// Explain one trace: filter the tree by the excluded package prefixes, then
/// derive the branch-frequency distribution, the spiral layout and the
/// narrative from the filtered tree.
pub fn explain(tree: &FlowTree, exclude_packages: &Vec<String>) -> (r: ExplanationResponse)
    requires
        node_wf(tree@.root_node),
        tree_ids(tree@.root_node).len() <= u64::MAX,
        node_count(tree@.root_node) + db_count(tree@.root_node) < usize::MAX,
    ensures
        response_ok(filter_model(tree@.root_node, exclude_packages.deep_view()), r),
{
    let ghost p = exclude_packages.deep_view();
    let ghost fm = filter_model(tree@.root_node, p);
    proof {
        lemma_filter_wf(tree@.root_node, p);
        lemma_filter_counts(tree@.root_node, p);
        lemma_filter_ids_len(tree@.root_node, p);
        lemma_step_count(fm);
    }
    let filtered = filter_flow_tree(tree, exclude_packages);
    let branch_probabilities = quantum_collapse(&filtered);
    let points = generate_spiral_points(&filtered.root_node, 0, 0);
    let summary = generate_summary(&filtered.root_node);
    let mut step_counter: usize = 1;
    let steps = generate_steps(&filtered.root_node, &mut step_counter);
    ExplanationResponse { summary, steps, spiral_points: points, branch_probabilities }
}

} // verus!
