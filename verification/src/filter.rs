use vstd::prelude::*;

use crate::model::{
    CallNodeView, CodeAnalysis, DbQueryEvent, FlowCallNode, FlowTree, FlowTreeView, MethodDetails,
    ExecutionDetails, ThreadInfo,
};
use crate::model::{
    children_count, children_db_count, db_count, lemma_children_view, lemma_children_view_push,
    node_count, node_wf,
};

verus! {

// ---------------------------------------------------------------------------
// Tree filter
//
// Drops every subtree whose root's declaring-type name starts with one of a
// list of excluded package prefixes.  The root of the filtered tree itself is
// never dropped; only children are tested, recursively.  The result is a
// structurally independent copy of the input.
// ---------------------------------------------------------------------------

/// The declaring-type name of `m` starts with one of the excluded prefixes
/// (prefix match includes equality of the whole name).
pub open spec fn class_excluded(m: CallNodeView, prefixes: Seq<Seq<char>>) -> bool {
    exists|k: int|
        0 <= k < prefixes.len() && (#[trigger] prefixes[k]).is_prefix_of(
            m.method_details.class_name,
        )
}

/// The filtered form of one call node: all non-child fields unchanged,
/// children restricted to the non-excluded ones, each filtered in turn.
pub open spec fn filter_model(m: CallNodeView, prefixes: Seq<Seq<char>>) -> CallNodeView
    decreases m,
{
    CallNodeView { children: filter_children_model(m.children, prefixes), ..m }
}

/// The filtered form of a forest of sibling subtrees, order preserved.
pub open spec fn filter_children_model(
    cs: Seq<CallNodeView>,
    prefixes: Seq<Seq<char>>,
) -> Seq<CallNodeView>
    decreases cs,
{
    if cs.len() == 0 {
        Seq::empty()
    } else {
        let rest = filter_children_model(cs.subrange(1, cs.len() as int), prefixes);
        if class_excluded(cs[0], prefixes) {
            rest
        } else {
            seq![filter_model(cs[0], prefixes)] + rest
        }
    }
}

/// Appending a node to a forest appends its filtered form (or nothing).
pub proof fn lemma_filter_children_push(
    cs: Seq<CallNodeView>,
    x: CallNodeView,
    prefixes: Seq<Seq<char>>,
)
    ensures
        filter_children_model(cs.push(x), prefixes) == if class_excluded(x, prefixes) {
            filter_children_model(cs, prefixes)
        } else {
            filter_children_model(cs, prefixes) + seq![filter_model(x, prefixes)]
        },
    decreases cs,
{
    let whole = cs.push(x);
    if cs.len() == 0 {
        assert(whole.subrange(1, 1) =~= Seq::<CallNodeView>::empty());
        assert(whole[0] == x);
        assert(filter_children_model(Seq::<CallNodeView>::empty(), prefixes)
            =~= Seq::<CallNodeView>::empty());
        if !class_excluded(x, prefixes) {
            assert(filter_children_model(whole, prefixes) =~= filter_children_model(cs, prefixes)
                + seq![filter_model(x, prefixes)]);
        }
    } else {
        assert(whole.subrange(1, whole.len() as int) =~= cs.subrange(1, cs.len() as int).push(x));
        lemma_filter_children_push(cs.subrange(1, cs.len() as int), x, prefixes);
        if !class_excluded(x, prefixes) {
            if !class_excluded(cs[0], prefixes) {
                assert(filter_children_model(whole, prefixes) =~= filter_children_model(
                    cs,
                    prefixes,
                ) + seq![filter_model(x, prefixes)]);
            }
        }
    }
}

// ---------------------------------------------------------------------------
// Executable filtering
// ---------------------------------------------------------------------------

/// Character-wise prefix test between two strings.
pub fn str_starts_with(s: &str, prefix: &str) -> (r: bool)
    ensures
        r == prefix@.is_prefix_of(s@),
{
    let n = prefix.unicode_len();
    let m = s.unicode_len();
    if n > m {
        return false;
    }
    let mut i: usize = 0;
    while i < n
        invariant
            0 <= i <= n,
            n == prefix@.len(),
            m == s@.len(),
            n <= m,
            forall|j: int| 0 <= j < i ==> s@[j] == prefix@[j],
        decreases n - i,
    {
        if s.get_char(i) != prefix.get_char(i) {
            assert(!prefix@.is_prefix_of(s@)) by {
                if prefix@.is_prefix_of(s@) {
                    assert(prefix@[i as int] == s@.subrange(0, n as int)[i as int]);
                }
            };
            return false;
        }
        i += 1;
    }
    proof {
        assert(s@.subrange(0, n as int) =~= prefix@);
    }
    true
}

/// Whether this node's declaring-type name falls under an excluded prefix.
fn is_excluded(node: &FlowCallNode, exclude_packages: &Vec<String>) -> (r: bool)
    ensures
        r == class_excluded(node@, exclude_packages.deep_view()),
{
    let ghost p = exclude_packages.deep_view();
    let mut k: usize = 0;
    while k < exclude_packages.len()
        invariant
            0 <= k <= exclude_packages.len(),
            p == exclude_packages.deep_view(),
            p.len() == exclude_packages.len(),
            forall|j: int|
                0 <= j < k ==> !(#[trigger] p[j]).is_prefix_of(node@.method_details.class_name),
        decreases exclude_packages.len() - k,
    {
        proof {
            assert(p[k as int] == exclude_packages@[k as int]@);
        }
        if str_starts_with(node.method_details.class_name.as_str(), exclude_packages[k].as_str()) {
            return true;
        }
        k += 1;
    }
    false
}

// ---------------------------------------------------------------------------
// Field-wise copying (each copy provably carries the same view)
// ---------------------------------------------------------------------------

fn clone_string_vec(v: &Vec<String>) -> (r: Vec<String>)
    ensures
        r@ == v@,
{
    let r = v.clone();
    proof {
        assert forall|i: int| 0 <= i < v@.len() implies r@[i] == v@[i] by {
            assert(cloned(v@[i], r@[i]));
        }
        assert(r@ =~= v@);
    }
    r
}

fn clone_opt_string(v: &Option<String>) -> (r: Option<String>)
    ensures
        r == *v,
{
    match v {
        Some(s) => Some(s.clone()),
        None => None,
    }
}

fn clone_method_details(md: &MethodDetails) -> (r: MethodDetails)
    ensures
        r@ == md@,
{
    let mut parameters: Vec<(String, String)> = Vec::new();
    let mut i: usize = 0;
    while i < md.parameters.len()
        invariant
            0 <= i <= md.parameters.len(),
            parameters@.len() == i,
            forall|j: int| 0 <= j < i ==> parameters@[j] == md.parameters@[j],
        decreases md.parameters.len() - i,
    {
        let name = md.parameters[i].0.clone();
        let value = md.parameters[i].1.clone();
        parameters.push((name, value));
        i += 1;
    }
    proof {
        assert(parameters@ =~= md.parameters@);
    }
    MethodDetails {
        class_name: md.class_name.clone(),
        method_name: md.method_name.clone(),
        method_signature: md.method_signature.clone(),
        parameters,
    }
}

fn clone_execution_details(ed: &ExecutionDetails) -> (r: ExecutionDetails)
    ensures
        r == *ed,
{
    ExecutionDetails {
        start_nanos: ed.start_nanos,
        end_nanos: ed.end_nanos,
        thread_info: ThreadInfo {
            thread_id: ed.thread_info.thread_id,
            thread_name: ed.thread_info.thread_name.clone(),
            is_virtual: ed.thread_info.is_virtual,
        },
    }
}

fn clone_code_analysis(ca: &CodeAnalysis) -> (r: CodeAnalysis)
    ensures
        r@ == ca@,
{
    CodeAnalysis {
        instruction_count: ca.instruction_count,
        max_local_variables: ca.max_local_variables,
        conditional_branches: clone_string_vec(&ca.conditional_branches),
    }
}

fn clone_db_events(v: &Vec<DbQueryEvent>) -> (r: Vec<DbQueryEvent>)
    ensures
        r@ == v@,
{
    let mut r: Vec<DbQueryEvent> = Vec::new();
    let mut i: usize = 0;
    while i < v.len()
        invariant
            0 <= i <= v.len(),
            r@.len() == i,
            forall|j: int| 0 <= j < i ==> r@[j] == v@[j],
        decreases v.len() - i,
    {
        r.push(
            DbQueryEvent {
                sql: v[i].sql.clone(),
                duration_nanos: v[i].duration_nanos,
                row_count: v[i].row_count,
            },
        );
        i += 1;
    }
    proof {
        assert(r@ =~= v@);
    }
    r
}

/// Filter one call node: children whose declaring-type name starts with an
/// excluded prefix are dropped with their whole subtrees; the remaining
/// children are filtered recursively.  All other fields are copied unchanged;
/// the input is not touched.
pub fn filter_node(node: &FlowCallNode, exclude_packages: &Vec<String>) -> (r: FlowCallNode)
    ensures
        r@ == filter_model(node@, exclude_packages.deep_view()),
    decreases *node,
{
    let ghost p = exclude_packages.deep_view();
    let mut filtered_children: Vec<FlowCallNode> = Vec::new();
    let mut i: usize = 0;
    proof {
        lemma_children_view(node.children@);
        assert(node@.children.subrange(0, 0) =~= Seq::<CallNodeView>::empty());
    }
    while i < node.children.len()
        invariant
            0 <= i <= node.children.len(),
            p == exclude_packages.deep_view(),
            node@.children == FlowCallNode::children_view(node.children@),
            node@.children.len() == node.children.len(),
            forall|j: int| 0 <= j < node.children.len() ==> node@.children[j] == #[trigger] node.children@[j]@,
            FlowCallNode::children_view(filtered_children@) == filter_children_model(
                node@.children.subrange(0, i as int),
                p,
            ),
        decreases node.children.len() - i,
    {
        let ghost prefix = node@.children.subrange(0, i as int);
        let excluded = is_excluded(&node.children[i], exclude_packages);
        if !excluded {
            let filtered_child = filter_node(&node.children[i], exclude_packages);
            proof {
                lemma_children_view_push(filtered_children@, filtered_child);
            }
            filtered_children.push(filtered_child);
        }
        proof {
            lemma_filter_children_push(prefix, node@.children[i as int], p);
            assert(prefix.push(node@.children[i as int]) =~= node@.children.subrange(
                0,
                i as int + 1,
            ));
        }
        i += 1;
    }
    proof {
        assert(node@.children.subrange(0, node.children.len() as int) =~= node@.children);
    }
    let r = FlowCallNode {
        method_details: clone_method_details(&node.method_details),
        execution_details: clone_execution_details(&node.execution_details),
        code_analysis: clone_code_analysis(&node.code_analysis),
        children: filtered_children,
        db_events: clone_db_events(&node.db_events),
        return_value: clone_opt_string(&node.return_value),
        exception: clone_opt_string(&node.exception),
        branches_taken: clone_string_vec(&node.branches_taken),
        loops_entered: clone_string_vec(&node.loops_entered),
    };
    proof {
        assert(r@ =~= filter_model(node@, p));
    }
    r
}

/// Filter a whole trace: the root node is filtered (never itself dropped);
/// the trace identifier and trace-level timestamps are copied unchanged.
pub fn filter_flow_tree(tree: &FlowTree, exclude_packages: &Vec<String>) -> (r: FlowTree)
    ensures
        r@ == (FlowTreeView {
            root_node: filter_model(tree@.root_node, exclude_packages.deep_view()),
            ..tree@
        }),
{
    let r = FlowTree {
        trace_id: tree.trace_id.clone(),
        root_node: filter_node(&tree.root_node, exclude_packages),
        start_nanos: tree.start_nanos,
        end_nanos: tree.end_nanos,
    };
    proof {
        assert(r@ =~= (FlowTreeView {
            root_node: filter_model(tree@.root_node, exclude_packages.deep_view()),
            ..tree@
        }));
    }
    r
}

// ---------------------------------------------------------------------------
// Laws of the filter
// ---------------------------------------------------------------------------

/// No node below the root of `m` falls under an excluded prefix, anywhere in
/// the tree (the root itself is exempt).
pub open spec fn no_excluded_below(m: CallNodeView, prefixes: Seq<Seq<char>>) -> bool
    decreases m,
{
    forall|i: int|
        0 <= i < m.children.len() ==> !class_excluded(#[trigger] m.children[i], prefixes)
            && no_excluded_below(m.children[i], prefixes)
}

/// Filtering leaves the declaring type of a node unchanged, so exclusion of
/// a filtered node agrees with exclusion of the original.
pub proof fn lemma_filter_preserves_exclusion(m: CallNodeView, prefixes: Seq<Seq<char>>)
    ensures
        class_excluded(filter_model(m, prefixes), prefixes) == class_excluded(m, prefixes),
{
}

/// Filter exclusion law: in a filtered tree, no node other than the root
/// has a declaring-type name under an excluded prefix.
pub proof fn lemma_filter_excludes(m: CallNodeView, prefixes: Seq<Seq<char>>)
    ensures
        no_excluded_below(filter_model(m, prefixes), prefixes),
    decreases m,
{
    lemma_filter_children_excludes(m.children, prefixes);
    let fm = filter_model(m, prefixes);
    assert forall|i: int| 0 <= i < fm.children.len() implies !class_excluded(
        #[trigger] fm.children[i],
        prefixes,
    ) && no_excluded_below(fm.children[i], prefixes) by {
        assert(fm.children[i] == filter_children_model(m.children, prefixes)[i]);
    }
}

/// Forest form of the exclusion law: every root of a filtered forest is
/// non-excluded and clean below.
pub proof fn lemma_filter_children_excludes(cs: Seq<CallNodeView>, prefixes: Seq<Seq<char>>)
    ensures
        forall|j: int|
            0 <= j < filter_children_model(cs, prefixes).len() ==> !class_excluded(
                #[trigger] filter_children_model(cs, prefixes)[j],
                prefixes,
            ) && no_excluded_below(filter_children_model(cs, prefixes)[j], prefixes),
    decreases cs,
{
    if cs.len() > 0 {
        let rest = cs.subrange(1, cs.len() as int);
        lemma_filter_children_excludes(rest, prefixes);
        let out = filter_children_model(cs, prefixes);
        if !class_excluded(cs[0], prefixes) {
            lemma_filter_excludes(cs[0], prefixes);
            lemma_filter_preserves_exclusion(cs[0], prefixes);
            assert forall|j: int| 0 <= j < out.len() implies !class_excluded(
                #[trigger] out[j],
                prefixes,
            ) && no_excluded_below(out[j], prefixes) by {
                if j == 0 {
                    assert(out[j] == filter_model(cs[0], prefixes));
                } else {
                    assert(out[j] == filter_children_model(rest, prefixes)[j - 1]);
                }
            }
        } else {
            assert forall|j: int| 0 <= j < out.len() implies !class_excluded(
                #[trigger] out[j],
                prefixes,
            ) && no_excluded_below(out[j], prefixes) by {
                assert(out[j] == filter_children_model(rest, prefixes)[j]);
            }
        }
    }
}

/// Filtering preserves well-formedness of the tree.
pub proof fn lemma_filter_wf(m: CallNodeView, prefixes: Seq<Seq<char>>)
    requires
        node_wf(m),
    ensures
        node_wf(filter_model(m, prefixes)),
    decreases m,
{
    lemma_filter_children_wf(m.children, prefixes);
    let fm = filter_model(m, prefixes);
    assert forall|i: int| 0 <= i < fm.children.len() implies node_wf(
        #[trigger] fm.children[i],
    ) by {
        assert(fm.children[i] == filter_children_model(m.children, prefixes)[i]);
    }
}

/// Forest form of well-formedness preservation.
pub proof fn lemma_filter_children_wf(cs: Seq<CallNodeView>, prefixes: Seq<Seq<char>>)
    requires
        forall|i: int| 0 <= i < cs.len() ==> node_wf(#[trigger] cs[i]),
    ensures
        forall|j: int|
            0 <= j < filter_children_model(cs, prefixes).len() ==> node_wf(
                #[trigger] filter_children_model(cs, prefixes)[j],
            ),
    decreases cs,
{
    if cs.len() > 0 {
        let rest = cs.subrange(1, cs.len() as int);
        lemma_filter_children_wf(rest, prefixes);
        let out = filter_children_model(cs, prefixes);
        if !class_excluded(cs[0], prefixes) {
            lemma_filter_wf(cs[0], prefixes);
            assert forall|j: int| 0 <= j < out.len() implies node_wf(#[trigger] out[j]) by {
                if j == 0 {
                    assert(out[j] == filter_model(cs[0], prefixes));
                } else {
                    assert(out[j] == filter_children_model(rest, prefixes)[j - 1]);
                }
            }
        } else {
            assert forall|j: int| 0 <= j < out.len() implies node_wf(#[trigger] out[j]) by {
                assert(out[j] == filter_children_model(rest, prefixes)[j]);
            }
        }
    }
}

/// Filtering never grows the tree: node and database-event counts at most
/// those of the input.
pub proof fn lemma_filter_counts(m: CallNodeView, prefixes: Seq<Seq<char>>)
    ensures
        node_count(filter_model(m, prefixes)) <= node_count(m),
        db_count(filter_model(m, prefixes)) <= db_count(m),
    decreases m,
{
    lemma_filter_children_counts(m.children, prefixes);
}

/// Forest form of the count bounds.
pub proof fn lemma_filter_children_counts(cs: Seq<CallNodeView>, prefixes: Seq<Seq<char>>)
    ensures
        children_count(filter_children_model(cs, prefixes)) <= children_count(cs),
        children_db_count(filter_children_model(cs, prefixes)) <= children_db_count(cs),
    decreases cs,
{
    if cs.len() > 0 {
        let rest = cs.subrange(1, cs.len() as int);
        lemma_filter_children_counts(rest, prefixes);
        if !class_excluded(cs[0], prefixes) {
            lemma_filter_counts(cs[0], prefixes);
            let head = filter_model(cs[0], prefixes);
            let out = seq![head] + filter_children_model(rest, prefixes);
            assert(out[0] == head);
            assert(out.subrange(1, out.len() as int) =~= filter_children_model(rest, prefixes));
            assert(children_count(out) == node_count(head) + children_count(
                filter_children_model(rest, prefixes),
            ));
            assert(children_db_count(out) == db_count(head) + children_db_count(
                filter_children_model(rest, prefixes),
            ));
        }
    }
}

/// Filter idempotence law: filtering an already-filtered tree with the same
/// prefix list yields the identical tree.
pub proof fn lemma_filter_idempotent(m: CallNodeView, prefixes: Seq<Seq<char>>)
    ensures
        filter_model(filter_model(m, prefixes), prefixes) == filter_model(m, prefixes),
    decreases m,
{
    lemma_filter_children_idempotent(m.children, prefixes);
    assert(filter_model(filter_model(m, prefixes), prefixes) =~= filter_model(m, prefixes));
}

/// Forest form of the idempotence law.
pub proof fn lemma_filter_children_idempotent(cs: Seq<CallNodeView>, prefixes: Seq<Seq<char>>)
    ensures
        filter_children_model(filter_children_model(cs, prefixes), prefixes)
            == filter_children_model(cs, prefixes),
    decreases cs,
{
    if cs.len() > 0 {
        let rest = cs.subrange(1, cs.len() as int);
        lemma_filter_children_idempotent(rest, prefixes);
        if !class_excluded(cs[0], prefixes) {
            lemma_filter_idempotent(cs[0], prefixes);
            lemma_filter_preserves_exclusion(cs[0], prefixes);
            let head = filter_model(cs[0], prefixes);
            let out = seq![head] + filter_children_model(rest, prefixes);
            assert(out[0] == head);
            assert(out.subrange(1, out.len() as int) =~= filter_children_model(rest, prefixes));
            assert(filter_children_model(out, prefixes) =~= filter_children_model(cs, prefixes));
        }
    }
}

} // verus!
