use vstd::prelude::*;
use vstd::string::{StrSliceExecFns, StringExecFns};

use crate::model::{
    children_count, children_db_count, db_count, lemma_children_view, node_count, node_wf,
    CallNodeView, DbQueryEventView, FlowCallNode,
};

verus! {

// ---------------------------------------------------------------------------
// Narrative generation
//
// A one-sentence summary of the root call, and an ordered step log: one line
// per call and one per database event, indices global, 1-based and gap-free,
// in pre-order — a node's own line first, then its database events in order,
// then each child's subtree in call order.
// ---------------------------------------------------------------------------

/// One emitted narrative step.
pub struct Step {
    pub step: usize,
    pub description: String,
}

/// The decimal digit character for `d` (0 through 9).
pub open spec fn digit_char(d: nat) -> char {
    if d == 0 {
        '0'
    } else if d == 1 {
        '1'
    } else if d == 2 {
        '2'
    } else if d == 3 {
        '3'
    } else if d == 4 {
        '4'
    } else if d == 5 {
        '5'
    } else if d == 6 {
        '6'
    } else if d == 7 {
        '7'
    } else if d == 8 {
        '8'
    } else {
        '9'
    }
}

/// The decimal rendering of `n`, most significant digit first, no leading
/// zeros (a single `'0'` for zero).
pub open spec fn dec_str(n: nat) -> Seq<char>
    decreases n,
{
    if n < 10 {
        seq![digit_char(n)]
    } else {
        dec_str(n / 10).push(digit_char(n % 10))
    }
}

fn digit_str(d: u64) -> (r: &'static str)
    requires
        d < 10,
    ensures
        r@ == seq![digit_char(d as nat)],
{
    proof {
        reveal_strlit("0");
        reveal_strlit("1");
        reveal_strlit("2");
        reveal_strlit("3");
        reveal_strlit("4");
        reveal_strlit("5");
        reveal_strlit("6");
        reveal_strlit("7");
        reveal_strlit("8");
        reveal_strlit("9");
    }
    let r: &'static str = if d == 0 {
        "0"
    } else if d == 1 {
        "1"
    } else if d == 2 {
        "2"
    } else if d == 3 {
        "3"
    } else if d == 4 {
        "4"
    } else if d == 5 {
        "5"
    } else if d == 6 {
        "6"
    } else if d == 7 {
        "7"
    } else if d == 8 {
        "8"
    } else {
        "9"
    };
    proof {
        assert(r@ =~= seq![digit_char(d as nat)]);
    }
    r
}

/// Render `n` in decimal.
pub fn u64_to_string(n: u64) -> (r: String)
    ensures
        r@ == dec_str(n as nat),
    decreases n,
{
    let d = n % 10;
    let ds = digit_str(d);
    if n < 10 {
        let r = String::from_str(ds);
        proof {
            assert(r@ =~= dec_str(n as nat));
        }
        r
    } else {
        let high = u64_to_string(n / 10);
        let r = high.concat(ds);
        proof {
            assert(r@ =~= dec_str(n as nat));
        }
        r
    }
}

/// Whole milliseconds spanned by the node's own call, truncating.
pub open spec fn node_ms(m: CallNodeView) -> nat {
    (((m.execution_details.end_nanos - m.execution_details.start_nanos)) / 1_000_000) as nat
}

/// The one-sentence narrative for the root of a (filtered) tree.
pub open spec fn summary_text(m: CallNodeView) -> Seq<char> {
    "The request was handled by the entry point `"@ + m.method_details.method_name
        + "` in class `"@ + m.method_details.class_name + "`. It took "@ + dec_str(node_ms(m))
        + " ms and "@ + (if m.exception is Some {
        "failed"@
    } else {
        "completed successfully"@
    }) + "."@
}

/// Produce the summary sentence for the root call: entry point, class,
/// truncated millisecond duration, and whether the call failed (exception
/// present) or completed successfully.
pub fn generate_summary(root: &FlowCallNode) -> (r: String)
    requires
        root@.execution_details.start_nanos <= root@.execution_details.end_nanos,
    ensures
        r@ == summary_text(root@),
{
    let duration_ms = (root.execution_details.end_nanos - root.execution_details.start_nanos)
        / 1_000_000;
    let mut s = String::new();
    s.append("The request was handled by the entry point `");
    s.append(root.method_details.method_name.as_str());
    s.append("` in class `");
    s.append(root.method_details.class_name.as_str());
    s.append("`. It took ");
    let ms = u64_to_string(duration_ms);
    s.append(ms.as_str());
    s.append(" ms and ");
    if root.exception.is_some() {
        s.append("failed");
    } else {
        s.append("completed successfully");
    }
    s.append(".");
    proof {
        assert(s@ =~= summary_text(root@));
    }
    s
}

/// The step line for a node's own call.
pub open spec fn call_desc(m: CallNodeView) -> Seq<char> {
    "Call to `"@ + m.method_details.method_name + "` on thread `"@
        + m.execution_details.thread_info.thread_name + "` took "@ + dec_str(node_ms(m))
        + " ms."@
}

/// The first 80 characters of the SQL text (all of it when shorter).
pub open spec fn sql_prefix(sql: Seq<char>) -> Seq<char> {
    if sql.len() <= 80 {
        sql
    } else {
        sql.subrange(0, 80)
    }
}

/// The indented step line for one database event.
pub open spec fn db_desc(e: DbQueryEventView) -> Seq<char> {
    "  └─ DB query took "@ + dec_str((e.duration_nanos / 1_000_000) as nat) + " ms. SQL: `"@
        + sql_prefix(e.sql) + "...`"@
}

pub open spec fn db_descs(es: Seq<DbQueryEventView>) -> Seq<Seq<char>> {
    es.map_values(|e: DbQueryEventView| db_desc(e))
}

/// All step descriptions of the tree rooted at `m`, in emission order:
/// the node's own line, its database-event lines in order, then each child's
/// subtree in call order.
pub open spec fn step_descs(m: CallNodeView) -> Seq<Seq<char>>
    decreases m,
{
    seq![call_desc(m)] + db_descs(m.db_events) + children_descs(m.children)
}

/// Step descriptions of a forest of sibling subtrees, in order.
pub open spec fn children_descs(cs: Seq<CallNodeView>) -> Seq<Seq<char>>
    decreases cs,
{
    if cs.len() == 0 {
        Seq::empty()
    } else {
        step_descs(cs[0]) + children_descs(cs.subrange(1, cs.len() as int))
    }
}

/// Step-count law: a tree emits exactly one step per call node plus one per
/// database event.
pub proof fn lemma_step_count(m: CallNodeView)
    ensures
        step_descs(m).len() == node_count(m) + db_count(m),
    decreases m,
{
    lemma_children_descs_count(m.children);
}

/// Forest form of the step-count law.
pub proof fn lemma_children_descs_count(cs: Seq<CallNodeView>)
    ensures
        children_descs(cs).len() == children_count(cs) + children_db_count(cs),
    decreases cs,
{
    if cs.len() > 0 {
        lemma_step_count(cs[0]);
        lemma_children_descs_count(cs.subrange(1, cs.len() as int));
    }
}

/// A forest's step descriptions split at any boundary index.
pub proof fn lemma_children_descs_cat(cs: Seq<CallNodeView>, i: int)
    requires
        0 <= i <= cs.len(),
    ensures
        children_descs(cs) == children_descs(cs.subrange(0, i)) + children_descs(
            cs.subrange(i, cs.len() as int),
        ),
    decreases i,
{
    if i == 0 {
        assert(cs.subrange(0, 0) =~= Seq::<CallNodeView>::empty());
        assert(cs.subrange(0, cs.len() as int) =~= cs);
        assert(children_descs(cs) =~= children_descs(cs.subrange(0, 0)) + children_descs(
            cs.subrange(0, cs.len() as int),
        ));
    } else {
        let rest = cs.subrange(1, cs.len() as int);
        lemma_children_descs_cat(rest, i - 1);
        assert(rest.subrange(0, i - 1) =~= cs.subrange(1, i));
        assert(rest.subrange(i - 1, rest.len() as int) =~= cs.subrange(i, cs.len() as int));
        assert(cs.subrange(0, i).subrange(1, i) =~= cs.subrange(1, i));
        assert(cs.subrange(0, i)[0] == cs[0]);
        assert(children_descs(cs.subrange(0, i)) == step_descs(cs[0]) + children_descs(
            cs.subrange(1, i),
        ));
        assert(children_descs(cs) =~= children_descs(cs.subrange(0, i)) + children_descs(
            cs.subrange(i, cs.len() as int),
        ));
    }
}

fn describe_call(node: &FlowCallNode) -> (r: String)
    requires
        node@.execution_details.start_nanos <= node@.execution_details.end_nanos,
    ensures
        r@ == call_desc(node@),
{
    let duration_ms = (node.execution_details.end_nanos - node.execution_details.start_nanos)
        / 1_000_000;
    let mut s = String::new();
    s.append("Call to `");
    s.append(node.method_details.method_name.as_str());
    s.append("` on thread `");
    s.append(node.execution_details.thread_info.thread_name.as_str());
    s.append("` took ");
    let ms = u64_to_string(duration_ms);
    s.append(ms.as_str());
    s.append(" ms.");
    proof {
        assert(s@ =~= call_desc(node@));
    }
    s
}

fn describe_db_event(e: &crate::model::DbQueryEvent) -> (r: String)
    ensures
        r@ == db_desc(e@),
{
    let db_ms = e.duration_nanos / 1_000_000;
    let mut s = String::new();
    s.append("  └─ DB query took ");
    let ms = u64_to_string(db_ms);
    s.append(ms.as_str());
    s.append(" ms. SQL: `");
    if e.sql.as_str().unicode_len() > 80 {
        let snippet = e.sql.as_str().substring_char(0, 80);
        s.append(snippet);
    } else {
        s.append(e.sql.as_str());
    }
    s.append("...`");
    proof {
        assert(s@ =~= db_desc(e@));
    }
    s
}

/// Emit the step log of the tree rooted at `node`, numbering steps from
/// `*step_counter` upward; the counter leaves the call advanced past the
/// last index used, so indices stay globally unique and strictly increasing
/// across the whole walk.
#[verifier::rlimit(50)]
pub fn generate_steps(node: &FlowCallNode, step_counter: &mut usize) -> (r: Vec<Step>)
    requires
        node_wf(node@),
        *old(step_counter) + step_descs(node@).len() <= usize::MAX,
    ensures
        r@.len() == step_descs(node@).len(),
        *final(step_counter) == *old(step_counter) + r@.len(),
        forall|i: int| 0 <= i < r@.len() ==> (#[trigger] r@[i]).step == *old(step_counter) + i,
        forall|i: int|
            0 <= i < r@.len() ==> (#[trigger] r@[i]).description@ == step_descs(node@)[i],
    decreases *node,
{
    let ghost start = *step_counter;
    let ghost dbs = node@.db_events;
    let ghost kids = node@.children;
    let ghost whole = step_descs(node@);
    proof {
        assert(whole == seq![call_desc(node@)] + db_descs(dbs) + children_descs(kids));
        assert(whole.len() == 1 + dbs.len() + children_descs(kids).len());
        lemma_children_descs_count(kids);
        lemma_children_view(node.children@);
    }
    let mut r: Vec<Step> = Vec::new();
    let description = describe_call(node);
    r.push(Step { step: *step_counter, description });
    *step_counter = *step_counter + 1;

    let mut i: usize = 0;
    while i < node.db_events.len()
        invariant
            0 <= i <= node.db_events.len(),
            dbs == node@.db_events,
            dbs.len() == node.db_events.len(),
            whole == step_descs(node@),
            whole == seq![call_desc(node@)] + db_descs(dbs) + children_descs(kids),
            whole.len() == 1 + dbs.len() + children_descs(kids).len(),
            start + whole.len() <= usize::MAX,
            r@.len() == 1 + i,
            *step_counter == start + r@.len(),
            forall|t: int| 0 <= t < r@.len() ==> (#[trigger] r@[t]).step == start + t,
            forall|t: int| 0 <= t < r@.len() ==> (#[trigger] r@[t]).description@ == whole[t],
        decreases node.db_events.len() - i,
    {
        let description = describe_db_event(&node.db_events[i]);
        proof {
            assert(dbs[i as int] == node.db_events@[i as int]@);
            assert(db_descs(dbs)[i as int] == db_desc(dbs[i as int]));
            assert(whole[1 + i as int] == db_descs(dbs)[i as int]);
        }
        r.push(Step { step: *step_counter, description });
        *step_counter = *step_counter + 1;
        i += 1;
    }

    let mut i: usize = 0;
    proof {
        assert(kids.subrange(0, 0) =~= Seq::<CallNodeView>::empty());
        assert(children_descs(kids.subrange(0, 0)) =~= Seq::<Seq<char>>::empty());
    }
    while i < node.children.len()
        invariant
            0 <= i <= node.children.len(),
            node_wf(node@),
            kids == node@.children,
            kids == FlowCallNode::children_view(node.children@),
            kids.len() == node.children.len(),
            forall|j: int| 0 <= j < kids.len() ==> kids[j] == #[trigger] node.children@[j]@,
            dbs == node@.db_events,
            whole == step_descs(node@),
            whole == seq![call_desc(node@)] + db_descs(dbs) + children_descs(kids),
            start + whole.len() <= usize::MAX,
            r@.len() == 1 + dbs.len() + children_descs(kids.subrange(0, i as int)).len(),
            r@.len() <= whole.len(),
            *step_counter == start + r@.len(),
            forall|t: int| 0 <= t < r@.len() ==> (#[trigger] r@[t]).step == start + t,
            forall|t: int| 0 <= t < r@.len() ==> (#[trigger] r@[t]).description@ == whole[t],
        decreases node.children.len() - i,
    {
        let ghost pre = r@;
        let ghost done = kids.subrange(0, i as int);
        proof {
            lemma_children_descs_cat(kids, i as int);
            assert(kids.subrange(i as int, kids.len() as int)[0] == kids[i as int]);
            assert(kids.subrange(i as int, kids.len() as int).subrange(
                1,
                kids.len() as int - i,
            ) =~= kids.subrange(i as int + 1, kids.len() as int));
            assert(children_descs(kids.subrange(i as int, kids.len() as int)) == step_descs(
                kids[i as int],
            ) + children_descs(kids.subrange(i as int + 1, kids.len() as int)));
            assert(node_wf(kids[i as int]));
        }
        let mut child_steps = generate_steps(&node.children[i], step_counter);
        let ghost child_descs = step_descs(kids[i as int]);
        let ghost csnap = child_steps@;
        r.append(&mut child_steps);
        proof {
            lemma_children_descs_cat(kids.subrange(0, i as int + 1), i as int);
            assert(kids.subrange(0, i as int + 1).subrange(0, i as int) =~= done);
            assert(kids.subrange(0, i as int + 1).subrange(i as int, i as int + 1)
                =~= seq![kids[i as int]]);
            assert(seq![kids[i as int]].subrange(1, 1) =~= Seq::<CallNodeView>::empty());
            assert(seq![kids[i as int]][0] == kids[i as int]);
            assert(children_descs(Seq::<CallNodeView>::empty()) =~= Seq::<Seq<char>>::empty());
            assert(children_descs(seq![kids[i as int]]) == child_descs + children_descs(
                Seq::<CallNodeView>::empty(),
            ));
            assert(children_descs(seq![kids[i as int]]) =~= child_descs);
            assert(children_descs(kids.subrange(0, i as int + 1)) =~= children_descs(done)
                + child_descs);
            let after = children_descs(kids.subrange(i as int + 1, kids.len() as int));
            assert(children_descs(kids) =~= children_descs(done) + child_descs + after);
            assert(whole =~= (seq![call_desc(node@)] + db_descs(dbs) + children_descs(done))
                + child_descs + after);
            assert(pre.len() == (seq![call_desc(node@)] + db_descs(dbs) + children_descs(
                done,
            )).len());
            assert forall|t: int| 0 <= t < r@.len() implies (#[trigger] r@[t]).description@
                == whole[t] && r@[t].step == start + t by {
                if t < pre.len() {
                    assert(r@[t] == pre[t]);
                } else {
                    let u = t - pre.len();
                    assert(r@[t] == csnap[u]);
                    assert(csnap[u].description@ == child_descs[u]);
                    assert(whole[t] == child_descs[u]);
                }
            }
        }
        i += 1;
    }
    proof {
        assert(kids.subrange(0, kids.len() as int) =~= kids);
    }
    r
}

} // verus!
