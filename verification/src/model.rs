use vstd::prelude::*;

verus! {

// ---------------------------------------------------------------------------
// Executable trace model
//
// One ingested execution trace: a tree of recorded method calls, each with
// its timing, thread, static-analysis facts, database events and runtime
// branch/loop observations.  The wire payloads that may accompany a call
// (`return_value`, `exception`, parameter snapshots) are opaque to every
// stage of the pipeline beyond a presence check, so they are carried as the
// raw JSON text they arrived as.
// ---------------------------------------------------------------------------

#[derive(Debug, PartialEq)]
pub struct FlowTree {
    pub trace_id: String,
    pub root_node: FlowCallNode,
    pub start_nanos: u64,
    pub end_nanos: u64,
}

#[derive(Debug, PartialEq)]
pub struct FlowCallNode {
    pub method_details: MethodDetails,
    pub execution_details: ExecutionDetails,
    pub code_analysis: CodeAnalysis,
    pub children: Vec<FlowCallNode>,
    pub db_events: Vec<DbQueryEvent>,
    pub return_value: Option<String>,
    pub exception: Option<String>,
    pub branches_taken: Vec<String>,
    pub loops_entered: Vec<String>,
}

#[derive(Debug, PartialEq)]
pub struct MethodDetails {
    pub class_name: String,
    pub method_name: String,
    pub method_signature: String,
    pub parameters: Vec<(String, String)>,
}

#[derive(Debug, PartialEq)]
pub struct ExecutionDetails {
    pub start_nanos: u64,
    pub end_nanos: u64,
    pub thread_info: ThreadInfo,
}

#[derive(Debug, PartialEq)]
pub struct CodeAnalysis {
    pub instruction_count: i32,
    pub max_local_variables: i32,
    pub conditional_branches: Vec<String>,
}

#[derive(Debug, PartialEq)]
pub struct ThreadInfo {
    pub thread_id: u64,
    pub thread_name: String,
    pub is_virtual: bool,
}

#[derive(Debug, PartialEq)]
pub struct DbQueryEvent {
    pub sql: String,
    pub duration_nanos: u64,
    pub row_count: i32,
}

// ---------------------------------------------------------------------------
// Mathematical views
//
// Each executable type has a ghost counterpart over `Seq` and plain values;
// every contract in the crate speaks of these.
// ---------------------------------------------------------------------------

#[verifier::ext_equal]
pub ghost struct FlowTreeView {
    pub trace_id: Seq<char>,
    pub root_node: CallNodeView,
    pub start_nanos: u64,
    pub end_nanos: u64,
}

#[verifier::ext_equal]
pub ghost struct CallNodeView {
    pub method_details: MethodDetailsView,
    pub execution_details: ExecutionDetailsView,
    pub code_analysis: CodeAnalysisView,
    pub children: Seq<CallNodeView>,
    pub db_events: Seq<DbQueryEventView>,
    pub return_value: Option<Seq<char>>,
    pub exception: Option<Seq<char>>,
    pub branches_taken: Seq<Seq<char>>,
    pub loops_entered: Seq<Seq<char>>,
}

#[verifier::ext_equal]
pub ghost struct MethodDetailsView {
    pub class_name: Seq<char>,
    pub method_name: Seq<char>,
    pub method_signature: Seq<char>,
    pub parameters: Seq<(Seq<char>, Seq<char>)>,
}

#[verifier::ext_equal]
pub ghost struct ExecutionDetailsView {
    pub start_nanos: u64,
    pub end_nanos: u64,
    pub thread_info: ThreadInfoView,
}

#[verifier::ext_equal]
pub ghost struct CodeAnalysisView {
    pub instruction_count: i32,
    pub max_local_variables: i32,
    pub conditional_branches: Seq<Seq<char>>,
}

#[verifier::ext_equal]
pub ghost struct ThreadInfoView {
    pub thread_id: u64,
    pub thread_name: Seq<char>,
    pub is_virtual: bool,
}

#[verifier::ext_equal]
pub ghost struct DbQueryEventView {
    pub sql: Seq<char>,
    pub duration_nanos: u64,
    pub row_count: i32,
}

impl MethodDetails {
    pub open spec fn view(&self) -> MethodDetailsView {
        MethodDetailsView {
            class_name: self.class_name@,
            method_name: self.method_name@,
            method_signature: self.method_signature@,
            parameters: self.parameters.deep_view(),
        }
    }
}

impl ThreadInfo {
    pub open spec fn view(&self) -> ThreadInfoView {
        ThreadInfoView {
            thread_id: self.thread_id,
            thread_name: self.thread_name@,
            is_virtual: self.is_virtual,
        }
    }
}

impl ExecutionDetails {
    pub open spec fn view(&self) -> ExecutionDetailsView {
        ExecutionDetailsView {
            start_nanos: self.start_nanos,
            end_nanos: self.end_nanos,
            thread_info: self.thread_info@,
        }
    }
}

impl CodeAnalysis {
    pub open spec fn view(&self) -> CodeAnalysisView {
        CodeAnalysisView {
            instruction_count: self.instruction_count,
            max_local_variables: self.max_local_variables,
            conditional_branches: self.conditional_branches.deep_view(),
        }
    }
}

impl DbQueryEvent {
    pub open spec fn view(&self) -> DbQueryEventView {
        DbQueryEventView {
            sql: self.sql@,
            duration_nanos: self.duration_nanos,
            row_count: self.row_count,
        }
    }
}

impl FlowCallNode {
    pub open spec fn view(&self) -> CallNodeView
        decreases *self,
    {
        CallNodeView {
            method_details: self.method_details@,
            execution_details: self.execution_details@,
            code_analysis: self.code_analysis@,
            children: Self::children_view(self.children@),
            db_events: self.db_events@.map_values(|e: DbQueryEvent| e@),
            return_value: self.return_value.deep_view(),
            exception: self.exception.deep_view(),
            branches_taken: self.branches_taken.deep_view(),
            loops_entered: self.loops_entered.deep_view(),
        }
    }

    pub open spec fn children_view(cs: Seq<FlowCallNode>) -> Seq<CallNodeView>
        decreases cs,
    {
        if cs.len() == 0 {
            Seq::empty()
        } else {
            seq![cs[0]@] + Self::children_view(cs.subrange(1, cs.len() as int))
        }
    }
}

impl FlowTree {
    pub open spec fn view(&self) -> FlowTreeView {
        FlowTreeView {
            trace_id: self.trace_id@,
            root_node: self.root_node@,
            start_nanos: self.start_nanos,
            end_nanos: self.end_nanos,
        }
    }
}

/// `children_view` is the element-wise view of a sequence of nodes.
pub proof fn lemma_children_view(cs: Seq<FlowCallNode>)
    ensures
        FlowCallNode::children_view(cs).len() == cs.len(),
        forall|i: int|
            0 <= i < cs.len() ==> FlowCallNode::children_view(cs)[i] == #[trigger] cs[i]@,
    decreases cs,
{
    if cs.len() > 0 {
        lemma_children_view(cs.subrange(1, cs.len() as int));
        assert forall|i: int| 0 <= i < cs.len() implies FlowCallNode::children_view(cs)[i]
            == #[trigger] cs[i]@ by {
            if i > 0 {
                assert(cs.subrange(1, cs.len() as int)[i - 1] == cs[i]);
            }
        }
    }
}

// ---------------------------------------------------------------------------
// Structural measures and well-formedness
// ---------------------------------------------------------------------------

/// A recorded call is well formed when every node's end timestamp is no
/// earlier than its start timestamp.
pub open spec fn node_wf(m: CallNodeView) -> bool
    decreases m,
{
    &&& m.execution_details.start_nanos <= m.execution_details.end_nanos
    &&& forall|i: int| 0 <= i < m.children.len() ==> node_wf(#[trigger] m.children[i])
}

/// Number of call nodes in the tree rooted at `m`.
pub open spec fn node_count(m: CallNodeView) -> nat
    decreases m,
{
    1 + children_count(m.children)
}

/// Total node count over a forest of sibling subtrees.
pub open spec fn children_count(cs: Seq<CallNodeView>) -> nat
    decreases cs,
{
    if cs.len() == 0 {
        0
    } else {
        node_count(cs[0]) + children_count(cs.subrange(1, cs.len() as int))
    }
}

/// Number of database events in the whole tree rooted at `m`.
pub open spec fn db_count(m: CallNodeView) -> nat
    decreases m,
{
    m.db_events.len() + children_db_count(m.children)
}

/// Total database-event count over a forest of sibling subtrees.
pub open spec fn children_db_count(cs: Seq<CallNodeView>) -> nat
    decreases cs,
{
    if cs.len() == 0 {
        0
    } else {
        db_count(cs[0]) + children_db_count(cs.subrange(1, cs.len() as int))
    }
}

/// Appending one node to a forest extends its element-wise view.
pub proof fn lemma_children_view_push(cs: Seq<FlowCallNode>, x: FlowCallNode)
    ensures
        FlowCallNode::children_view(cs.push(x)) == FlowCallNode::children_view(cs) + seq![x@],
    decreases cs,
{
    if cs.len() == 0 {
        assert(cs.push(x).subrange(1, 1) =~= cs);
        assert(cs.push(x)[0] == x);
        assert(FlowCallNode::children_view(cs) =~= Seq::<CallNodeView>::empty());
        assert(FlowCallNode::children_view(cs.push(x)) == seq![x@] + FlowCallNode::children_view(
            cs,
        ));
        assert(FlowCallNode::children_view(cs.push(x)) =~= FlowCallNode::children_view(cs)
            + seq![x@]);
    } else {
        assert(cs.push(x).subrange(1, cs.len() as int + 1) =~= cs.subrange(
            1,
            cs.len() as int,
        ).push(x));
        lemma_children_view_push(cs.subrange(1, cs.len() as int), x);
        assert(FlowCallNode::children_view(cs.push(x)) =~= FlowCallNode::children_view(cs)
            + seq![x@]);
    }
}

/// Node counts add up across a forest split at any index.
pub proof fn lemma_children_count_split(cs: Seq<CallNodeView>, i: int)
    requires
        0 <= i < cs.len(),
    ensures
        children_count(cs) == children_count(cs.subrange(0, i)) + node_count(cs[i])
            + children_count(cs.subrange(i + 1, cs.len() as int)),
    decreases cs,
{
    if i == 0 {
        assert(cs.subrange(0, 0) =~= Seq::<CallNodeView>::empty());
    } else {
        let rest = cs.subrange(1, cs.len() as int);
        lemma_children_count_split(rest, i - 1);
        assert(rest.subrange(0, i - 1) =~= cs.subrange(1, i));
        assert(rest.subrange(i, rest.len() as int) =~= cs.subrange(i + 1, cs.len() as int));
        assert(cs.subrange(0, i).subrange(1, i) =~= cs.subrange(1, i));
        assert(cs.subrange(0, i)[0] == cs[0]);
        assert(children_count(cs.subrange(0, i)) == node_count(cs[0]) + children_count(
            cs.subrange(1, i),
        ));
    }
}

/// A forest holds at least as many nodes as it has roots.
pub proof fn lemma_children_count_ge_len(cs: Seq<CallNodeView>)
    ensures
        children_count(cs) >= cs.len(),
    decreases cs,
{
    if cs.len() > 0 {
        lemma_children_count_ge_len(cs.subrange(1, cs.len() as int));
        assert(node_count(cs[0]) >= 1);
    }
}

} // verus!
