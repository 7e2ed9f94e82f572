use vstd::prelude::*;
use vstd::pervasive::VecAdditionalExecFns;

use crate::model::{lemma_children_view, CallNodeView, FlowCallNode, FlowTree};

verus! {

// ---------------------------------------------------------------------------
// Branch probability aggregation
//
// Every branch identifier of the tree — the statically discovered conditional
// branches and the branches actually taken at runtime, with no deduplication
// between the two sources — contributes one increment to a counter keyed by
// the literal identifier.  The relative frequency of an identifier is its
// count over the running total; the pair (count, total) is emitted as an
// exact rational, so the quotient is left to the rendering layer.
// ---------------------------------------------------------------------------

/// One emitted record: `count` occurrences of `branch` out of `total`
/// increments over the whole tree, so its probability is `count / total`.
pub struct BranchProbability {
    pub branch: String,
    pub count: u64,
    pub total: u64,
}

/// All branch identifiers contributed by the tree rooted at `m`, in the
/// order the walk tallies them.
pub open spec fn tree_ids(m: CallNodeView) -> Seq<Seq<char>>
    decreases m,
{
    m.code_analysis.conditional_branches + m.branches_taken + children_ids(m.children)
}

/// Branch identifiers contributed by a forest of sibling subtrees.
pub open spec fn children_ids(cs: Seq<CallNodeView>) -> Seq<Seq<char>>
    decreases cs,
{
    if cs.len() == 0 {
        Seq::empty()
    } else {
        tree_ids(cs[0]) + children_ids(cs.subrange(1, cs.len() as int))
    }
}

/// Number of occurrences of `k` in `ids`.
pub open spec fn count_occ(ids: Seq<Seq<char>>, k: Seq<char>) -> nat
    decreases ids,
{
    if ids.len() == 0 {
        0
    } else {
        count_occ(ids.drop_last(), k) + if ids.last() == k {
            1nat
        } else {
            0nat
        }
    }
}

pub proof fn lemma_count_occ_push(ids: Seq<Seq<char>>, x: Seq<char>, k: Seq<char>)
    ensures
        count_occ(ids.push(x), k) == count_occ(ids, k) + if x == k {
            1nat
        } else {
            0nat
        },
{
    assert(ids.push(x).drop_last() =~= ids);
    assert(ids.push(x).last() == x);
}

pub proof fn lemma_count_occ_concat(a: Seq<Seq<char>>, b: Seq<Seq<char>>, k: Seq<char>)
    ensures
        count_occ(a + b, k) == count_occ(a, k) + count_occ(b, k),
    decreases b,
{
    if b.len() == 0 {
        assert(a + b =~= a);
    } else {
        lemma_count_occ_concat(a, b.drop_last(), k);
        assert((a + b).drop_last() =~= a + b.drop_last());
        assert((a + b).last() == b.last());
    }
}

/// A forest's identifiers split at any boundary index.
pub proof fn lemma_children_ids_cat(cs: Seq<CallNodeView>, i: int)
    requires
        0 <= i <= cs.len(),
    ensures
        children_ids(cs) == children_ids(cs.subrange(0, i)) + children_ids(
            cs.subrange(i, cs.len() as int),
        ),
    decreases i,
{
    if i == 0 {
        assert(cs.subrange(0, 0) =~= Seq::<CallNodeView>::empty());
        assert(cs.subrange(0, cs.len() as int) =~= cs);
        assert(children_ids(cs) =~= children_ids(cs.subrange(0, 0)) + children_ids(
            cs.subrange(0, cs.len() as int),
        ));
    } else {
        let rest = cs.subrange(1, cs.len() as int);
        lemma_children_ids_cat(rest, i - 1);
        assert(rest.subrange(0, i - 1) =~= cs.subrange(1, i));
        assert(rest.subrange(i - 1, rest.len() as int) =~= cs.subrange(i, cs.len() as int));
        assert(cs.subrange(0, i).subrange(1, i) =~= cs.subrange(1, i));
        assert(cs.subrange(0, i)[0] == cs[0]);
        assert(children_ids(cs.subrange(0, i)) == tree_ids(cs[0]) + children_ids(
            cs.subrange(1, i),
        ));
        assert(children_ids(cs) =~= children_ids(cs.subrange(0, i)) + children_ids(
            cs.subrange(i, cs.len() as int),
        ));
    }
}

/// Filtering never grows the identifier listing.
pub proof fn lemma_filter_ids_len(m: CallNodeView, prefixes: Seq<Seq<char>>)
    ensures
        tree_ids(crate::filter::filter_model(m, prefixes)).len() <= tree_ids(m).len(),
    decreases m,
{
    lemma_filter_children_ids_len(m.children, prefixes);
}

/// Forest form of the identifier-count bound.
pub proof fn lemma_filter_children_ids_len(cs: Seq<CallNodeView>, prefixes: Seq<Seq<char>>)
    ensures
        children_ids(crate::filter::filter_children_model(cs, prefixes)).len() <= children_ids(
            cs,
        ).len(),
    decreases cs,
{
    if cs.len() > 0 {
        let rest = cs.subrange(1, cs.len() as int);
        lemma_filter_children_ids_len(rest, prefixes);
        if !crate::filter::class_excluded(cs[0], prefixes) {
            lemma_filter_ids_len(cs[0], prefixes);
            let head = crate::filter::filter_model(cs[0], prefixes);
            let out = seq![head] + crate::filter::filter_children_model(rest, prefixes);
            assert(out[0] == head);
            assert(out.subrange(1, out.len() as int) =~= crate::filter::filter_children_model(
                rest,
                prefixes,
            ));
            assert(children_ids(out) == tree_ids(head) + children_ids(
                crate::filter::filter_children_model(rest, prefixes),
            ));
        }
    }
}

// ---------------------------------------------------------------------------
// The tally: an association list of distinct identifiers with their counts
// ---------------------------------------------------------------------------

/// No identifier occurs under two entries.
pub open spec fn keys_distinct(entries: Seq<(String, u64)>) -> bool {
    forall|i: int, j: int|
        0 <= i < j < entries.len() ==> (#[trigger] entries[i]).0@ != (#[trigger] entries[j]).0@
}

/// Every entry holds a strictly positive count.
pub open spec fn counts_positive(entries: Seq<(String, u64)>) -> bool {
    forall|i: int| 0 <= i < entries.len() ==> (#[trigger] entries[i]).1 >= 1
}

pub open spec fn tally_wf(entries: Seq<(String, u64)>) -> bool {
    keys_distinct(entries) && counts_positive(entries)
}

/// The count recorded for identifier `k` (0 when absent).
pub open spec fn tally_count(entries: Seq<(String, u64)>, k: Seq<char>) -> nat
    decreases entries,
{
    if entries.len() == 0 {
        0
    } else if entries.last().0@ == k {
        entries.last().1 as nat
    } else {
        tally_count(entries.drop_last(), k)
    }
}

/// The sum of all recorded counts.
pub open spec fn sum_counts(entries: Seq<(String, u64)>) -> int
    decreases entries,
{
    if entries.len() == 0 {
        0
    } else {
        sum_counts(entries.drop_last()) + entries.last().1
    }
}

pub proof fn lemma_tally_absent(entries: Seq<(String, u64)>, k: Seq<char>)
    requires
        forall|i: int| 0 <= i < entries.len() ==> (#[trigger] entries[i]).0@ != k,
    ensures
        tally_count(entries, k) == 0,
    decreases entries,
{
    if entries.len() > 0 {
        lemma_tally_absent(entries.drop_last(), k);
    }
}

/// With distinct keys, the tally of an entry's own key is that entry's count.
pub proof fn lemma_tally_at(entries: Seq<(String, u64)>, j: int)
    requires
        keys_distinct(entries),
        0 <= j < entries.len(),
    ensures
        tally_count(entries, entries[j].0@) == entries[j].1,
    decreases entries,
{
    if j == entries.len() - 1 {
    } else {
        assert(entries.drop_last()[j] == entries[j]);
        lemma_tally_at(entries.drop_last(), j);
    }
}

/// Replacing entry `j` with one of the same key re-points only that key.
pub proof fn lemma_tally_update(entries: Seq<(String, u64)>, j: int, e: (String, u64))
    requires
        keys_distinct(entries),
        0 <= j < entries.len(),
        e.0@ == entries[j].0@,
    ensures
        keys_distinct(entries.update(j, e)),
        forall|k: Seq<char>|
            #[trigger] tally_count(entries.update(j, e), k) == if k == entries[j].0@ {
                e.1 as nat
            } else {
                tally_count(entries, k)
            },
        sum_counts(entries.update(j, e)) == sum_counts(entries) - entries[j].1 + e.1,
    decreases entries,
{
    let upd = entries.update(j, e);
    assert forall|i1: int, i2: int| 0 <= i1 < i2 < upd.len() implies (#[trigger] upd[i1]).0@ != (
    #[trigger] upd[i2]).0@ by {
        assert(entries[i1].0@ != entries[i2].0@);
    }
    if j == entries.len() - 1 {
        assert(upd.drop_last() =~= entries.drop_last());
        assert(upd.last() == e);
        assert forall|k: Seq<char>| #[trigger] tally_count(upd, k) == (if k == entries[j].0@ {
            e.1 as nat
        } else {
            tally_count(entries, k)
        }) by {
            if k != entries[j].0@ {
                assert(tally_count(upd, k) == tally_count(upd.drop_last(), k));
            }
        }
    } else {
        assert(upd.drop_last() =~= entries.drop_last().update(j, e));
        assert(entries.drop_last()[j] == entries[j]);
        lemma_tally_update(entries.drop_last(), j, e);
        assert(upd.last() == entries.last());
        assert forall|k: Seq<char>| #[trigger] tally_count(upd, k) == (if k == entries[j].0@ {
            e.1 as nat
        } else {
            tally_count(entries, k)
        }) by {
            if entries.last().0@ != k {
                assert(tally_count(upd, k) == tally_count(entries.drop_last().update(j, e), k));
            } else {
                assert(k != entries[j].0@);
            }
        }
    }
}

/// Every single count is bounded by the sum of all counts.
pub proof fn lemma_count_le_sum(entries: Seq<(String, u64)>, j: int)
    requires
        counts_positive(entries),
        0 <= j < entries.len(),
    ensures
        entries[j].1 <= sum_counts(entries),
    decreases entries,
{
    lemma_sum_nonneg(entries.drop_last());
    if j == entries.len() - 1 {
    } else {
        assert(entries.drop_last()[j] == entries[j]);
        lemma_count_le_sum(entries.drop_last(), j);
    }
}

pub proof fn lemma_sum_nonneg(entries: Seq<(String, u64)>)
    ensures
        sum_counts(entries) >= 0,
    decreases entries,
{
    if entries.len() > 0 {
        lemma_sum_nonneg(entries.drop_last());
    }
}

/// With positive counts, the sum dominates the number of entries.
pub proof fn lemma_sum_ge_len(entries: Seq<(String, u64)>)
    requires
        counts_positive(entries),
    ensures
        sum_counts(entries) >= entries.len(),
    decreases entries,
{
    if entries.len() > 0 {
        assert forall|i: int| 0 <= i < entries.drop_last().len() implies (#[trigger] entries.drop_last()[i]).1 >= 1 by {
            assert(entries.drop_last()[i] == entries[i]);
        }
        lemma_sum_ge_len(entries.drop_last());
    }
}

/// Record one more occurrence of `id`: bump its entry, or open one at 1.
fn bump(entries: &mut Vec<(String, u64)>, id: &String)
    requires
        tally_wf(old(entries)@),
        sum_counts(old(entries)@) < u64::MAX,
    ensures
        tally_wf(final(entries)@),
        sum_counts(final(entries)@) == sum_counts(old(entries)@) + 1,
        forall|k: Seq<char>|
            #[trigger] tally_count(final(entries)@, k) == tally_count(old(entries)@, k) + if k == id@ {
                1nat
            } else {
                0nat
            },
{
    let ghost orig = entries@;
    let mut j: usize = 0;
    while j < entries.len()
        invariant
            0 <= j <= entries.len(),
            entries@ == orig,
            orig == old(entries)@,
            tally_wf(orig),
            sum_counts(orig) < u64::MAX,
            forall|i: int| 0 <= i < j ==> (#[trigger] orig[i]).0@ != id@,
        decreases entries.len() - j,
    {
        if entries[j].0.eq(id) {
            let c = entries[j].1;
            proof {
                lemma_count_le_sum(orig, j as int);
                lemma_sum_nonneg(orig);
            }
            let name = entries[j].0.clone();
            let e = (name, c + 1);
            proof {
                lemma_tally_update(orig, j as int, e);
                lemma_tally_at(orig, j as int);
            }
            entries.set(j, e);
            proof {
                assert(entries@ == orig.update(j as int, e));
                assert(sum_counts(entries@) == sum_counts(orig) + 1);
                assert forall|k: Seq<char>| #[trigger] tally_count(entries@, k) == tally_count(
                    orig,
                    k,
                ) + (if k == id@ {
                    1nat
                } else {
                    0nat
                }) by {
                    assert(tally_count(orig.update(j as int, e), k) == if k == orig[j as int].0@ {
                        e.1 as nat
                    } else {
                        tally_count(orig, k)
                    });
                }
            }
            assert forall|i: int| 0 <= i < entries@.len() implies (#[trigger] entries@[i]).1
                >= 1 by {
                if i != j {
                    assert(entries@[i] == orig[i]);
                }
            }
            return ;
        }
        j += 1;
    }
    proof {
        lemma_tally_absent(orig, id@);
    }
    let name = id.clone();
    entries.push((name, 1));
    proof {
        assert(entries@.drop_last() =~= orig);
        assert(entries@.last().0@ == id@);
        assert forall|k: Seq<char>| #[trigger] tally_count(entries@, k) == tally_count(orig, k)
            + (if k == id@ {
            1nat
        } else {
            0nat
        }) by {}
        assert forall|i1: int, i2: int| 0 <= i1 < i2 < entries@.len() implies (
        #[trigger] entries@[i1]).0@ != (#[trigger] entries@[i2]).0@ by {
            if i2 == entries@.len() - 1 {
                assert(entries@[i1] == orig[i1]);
            } else {
                assert(entries@[i1] == orig[i1]);
                assert(entries@[i2] == orig[i2]);
            }
        }
        assert forall|i: int| 0 <= i < entries@.len() implies (#[trigger] entries@[i]).1 >= 1 by {
            if i < entries@.len() - 1 {
                assert(entries@[i] == orig[i]);
            }
        }
    }
}

/// Walk the tree rooted at `node` and add one increment per branch
/// identifier — conditional branches first, then branches taken, then the
/// children in order — to the tally and to the running total.
pub fn count_branches_recursive(
    node: &FlowCallNode,
    branch_counts: &mut Vec<(String, u64)>,
    total: &mut u64,
)
    requires
        tally_wf(old(branch_counts)@),
        sum_counts(old(branch_counts)@) == *old(total),
        *old(total) + tree_ids(node@).len() <= u64::MAX,
    ensures
        tally_wf(final(branch_counts)@),
        sum_counts(final(branch_counts)@) == *final(total),
        *final(total) == *old(total) + tree_ids(node@).len(),
        forall|k: Seq<char>|
            #[trigger] tally_count(final(branch_counts)@, k) == tally_count(old(branch_counts)@, k)
                + count_occ(tree_ids(node@), k),
    decreases *node,
{
    let ghost orig = branch_counts@;
    let ghost start = *total;
    let ghost cb = node@.code_analysis.conditional_branches;
    let ghost bt = node@.branches_taken;
    let ghost kids = node@.children;
    proof {
        assert(tree_ids(node@).len() == cb.len() + bt.len() + children_ids(kids).len());
    }

    let mut i: usize = 0;
    proof {
        assert(cb.subrange(0, 0) =~= Seq::<Seq<char>>::empty());
    }
    while i < node.code_analysis.conditional_branches.len()
        invariant
            0 <= i <= node.code_analysis.conditional_branches.len(),
            cb == node@.code_analysis.conditional_branches,
            cb.len() == node.code_analysis.conditional_branches.len(),
            start + tree_ids(node@).len() <= u64::MAX,
            tree_ids(node@).len() == cb.len() + bt.len() + children_ids(kids).len(),
            *total == start + i,
            tally_wf(branch_counts@),
            sum_counts(branch_counts@) == *total,
            forall|k: Seq<char>|
                #[trigger] tally_count(branch_counts@, k) == tally_count(orig, k) + count_occ(
                    cb.subrange(0, i as int),
                    k,
                ),
        decreases node.code_analysis.conditional_branches.len() - i,
    {
        let ghost pre = branch_counts@;
        bump(branch_counts, &node.code_analysis.conditional_branches[i]);
        *total = *total + 1;
        proof {
            assert(cb[i as int] == node.code_analysis.conditional_branches@[i as int]@);
            assert(cb.subrange(0, i as int + 1) =~= cb.subrange(0, i as int).push(cb[i as int]));
            assert forall|k: Seq<char>| #[trigger] tally_count(branch_counts@, k) == tally_count(
                orig,
                k,
            ) + count_occ(cb.subrange(0, i as int + 1), k) by {
                lemma_count_occ_push(cb.subrange(0, i as int), cb[i as int], k);
                assert(tally_count(branch_counts@, k) == tally_count(pre, k) + if k == cb[
                    i as int
                ] {
                    1nat
                } else {
                    0nat
                });
            }
        }
        i += 1;
    }
    proof {
        assert(cb.subrange(0, cb.len() as int) =~= cb);
    }

    let mut i: usize = 0;
    proof {
        assert(bt.subrange(0, 0) =~= Seq::<Seq<char>>::empty());
    }
    while i < node.branches_taken.len()
        invariant
            0 <= i <= node.branches_taken.len(),
            bt == node@.branches_taken,
            bt.len() == node.branches_taken.len(),
            cb == node@.code_analysis.conditional_branches,
            start + tree_ids(node@).len() <= u64::MAX,
            tree_ids(node@).len() == cb.len() + bt.len() + children_ids(kids).len(),
            *total == start + cb.len() + i,
            tally_wf(branch_counts@),
            sum_counts(branch_counts@) == *total,
            forall|k: Seq<char>|
                #[trigger] tally_count(branch_counts@, k) == tally_count(orig, k) + count_occ(
                    cb,
                    k,
                ) + count_occ(bt.subrange(0, i as int), k),
        decreases node.branches_taken.len() - i,
    {
        let ghost pre = branch_counts@;
        bump(branch_counts, &node.branches_taken[i]);
        *total = *total + 1;
        proof {
            assert(bt[i as int] == node.branches_taken@[i as int]@);
            assert(bt.subrange(0, i as int + 1) =~= bt.subrange(0, i as int).push(bt[i as int]));
            assert forall|k: Seq<char>| #[trigger] tally_count(branch_counts@, k) == tally_count(
                orig,
                k,
            ) + count_occ(cb, k) + count_occ(bt.subrange(0, i as int + 1), k) by {
                lemma_count_occ_push(bt.subrange(0, i as int), bt[i as int], k);
                assert(tally_count(branch_counts@, k) == tally_count(pre, k) + if k == bt[
                    i as int
                ] {
                    1nat
                } else {
                    0nat
                });
            }
        }
        i += 1;
    }
    proof {
        assert(bt.subrange(0, bt.len() as int) =~= bt);
    }

    let mut i: usize = 0;
    proof {
        lemma_children_view(node.children@);
        assert(kids.subrange(0, 0) =~= Seq::<CallNodeView>::empty());
    }
    while i < node.children.len()
        invariant
            0 <= i <= node.children.len(),
            kids == node@.children,
            kids == FlowCallNode::children_view(node.children@),
            kids.len() == node.children.len(),
            forall|j: int| 0 <= j < kids.len() ==> kids[j] == #[trigger] node.children@[j]@,
            cb == node@.code_analysis.conditional_branches,
            bt == node@.branches_taken,
            start + tree_ids(node@).len() <= u64::MAX,
            tree_ids(node@).len() == cb.len() + bt.len() + children_ids(kids).len(),
            *total == start + cb.len() + bt.len() + children_ids(
                kids.subrange(0, i as int),
            ).len(),
            tally_wf(branch_counts@),
            sum_counts(branch_counts@) == *total,
            forall|k: Seq<char>|
                #[trigger] tally_count(branch_counts@, k) == tally_count(orig, k) + count_occ(
                    cb,
                    k,
                ) + count_occ(bt, k) + count_occ(children_ids(kids.subrange(0, i as int)), k),
        decreases node.children.len() - i,
    {
        let ghost pre = branch_counts@;
        proof {
            lemma_children_ids_cat(kids, i as int);
            assert(kids.subrange(i as int, kids.len() as int)[0] == kids[i as int]);
            assert(kids.subrange(i as int, kids.len() as int).subrange(
                1,
                kids.len() as int - i,
            ) =~= kids.subrange(i as int + 1, kids.len() as int));
            assert(children_ids(kids.subrange(i as int, kids.len() as int)) == tree_ids(
                kids[i as int],
            ) + children_ids(kids.subrange(i as int + 1, kids.len() as int)));
        }
        count_branches_recursive(&node.children[i], branch_counts, total);
        proof {
            lemma_children_ids_cat(kids.subrange(0, i as int + 1), i as int);
            assert(kids.subrange(0, i as int + 1).subrange(0, i as int) =~= kids.subrange(
                0,
                i as int,
            ));
            assert(kids.subrange(0, i as int + 1).subrange(i as int, i as int + 1)
                =~= seq![kids[i as int]]);
            assert(seq![kids[i as int]].subrange(1, 1) =~= Seq::<CallNodeView>::empty());
            assert(seq![kids[i as int]][0] == kids[i as int]);
            assert(children_ids(Seq::<CallNodeView>::empty()) =~= Seq::<Seq<char>>::empty());
            assert(children_ids(seq![kids[i as int]]) == tree_ids(kids[i as int]) + children_ids(
                Seq::<CallNodeView>::empty(),
            ));
            assert(children_ids(seq![kids[i as int]]) =~= tree_ids(kids[i as int]));
            assert(children_ids(kids.subrange(0, i as int + 1)) =~= children_ids(
                kids.subrange(0, i as int),
            ) + tree_ids(kids[i as int]));
            assert forall|k: Seq<char>| #[trigger] tally_count(branch_counts@, k) == tally_count(
                orig,
                k,
            ) + count_occ(cb, k) + count_occ(bt, k) + count_occ(
                children_ids(kids.subrange(0, i as int + 1)),
                k,
            ) by {
                lemma_count_occ_concat(
                    children_ids(kids.subrange(0, i as int)),
                    tree_ids(kids[i as int]),
                    k,
                );
            }
        }
        i += 1;
    }
    proof {
        assert(kids.subrange(0, kids.len() as int) =~= kids);
        assert forall|k: Seq<char>| #[trigger] tally_count(branch_counts@, k) == tally_count(
            orig,
            k,
        ) + count_occ(tree_ids(node@), k) by {
            lemma_count_occ_concat(cb, bt, k);
            lemma_count_occ_concat(cb + bt, children_ids(kids), k);
            assert(tree_ids(node@) == (cb + bt) + children_ids(kids));
        }
    }
}

/// A branch-probability listing is faithful to the identifiers `ids`:
/// one record per distinct identifier, carrying its exact occurrence count
/// and the shared total, and the counts add up to that total — so the
/// emitted relative frequencies sum to one whenever any identifier exists.
pub open spec fn distribution_ok(ids: Seq<Seq<char>>, r: Seq<BranchProbability>) -> bool {
    &&& forall|i: int| 0 <= i < r.len() ==> (#[trigger] r[i]).total == ids.len()
    &&& forall|i: int| 0 <= i < r.len() ==> (#[trigger] r[i]).count == count_occ(ids, r[i].branch@)
    &&& forall|i: int| 0 <= i < r.len() ==> (#[trigger] r[i]).count >= 1
    &&& forall|i: int, j: int|
        0 <= i < j < r.len() ==> (#[trigger] r[i]).branch@ != (#[trigger] r[j]).branch@
    &&& forall|k: Seq<char>| #[trigger] count_occ(ids, k) > 0 ==> exists|i: int|
        0 <= i < r.len() && (#[trigger] r[i]).branch@ == k
    &&& sum_emitted(r) == ids.len()
}

/// The sum of the emitted counts.
pub open spec fn sum_emitted(r: Seq<BranchProbability>) -> int
    decreases r,
{
    if r.len() == 0 {
        0
    } else {
        sum_emitted(r.drop_last()) + r.last().count
    }
}

/// Tally every branch identifier of the tree and emit one record per
/// distinct identifier with its occurrence count and the shared total.
/// The records' counts sum to the total, so the probabilities
/// `count / total` sum to exactly one whenever the listing is non-empty;
/// a tree without any branch identifier yields an empty listing.
pub fn quantum_collapse(tree: &FlowTree) -> (r: Vec<BranchProbability>)
    requires
        tree_ids(tree@.root_node).len() <= u64::MAX,
    ensures
        distribution_ok(tree_ids(tree@.root_node), r@),
        tree_ids(tree@.root_node).len() == 0 ==> r@.len() == 0,
{
    let ghost ids = tree_ids(tree@.root_node);
    let mut branch_counts: Vec<(String, u64)> = Vec::new();
    let mut total: u64 = 0;
    count_branches_recursive(&tree.root_node, &mut branch_counts, &mut total);
    let ghost entries = branch_counts@;
    proof {
        assert forall|k: Seq<char>| #[trigger] tally_count(entries, k) == count_occ(ids, k) by {
            assert(tally_count(Seq::<(String, u64)>::empty(), k) == 0);
        }
        lemma_sum_ge_len(entries);
    }

    let mut r: Vec<BranchProbability> = Vec::new();
    let mut i: usize = 0;
    while i < branch_counts.len()
        invariant
            0 <= i <= branch_counts.len(),
            branch_counts@ == entries,
            entries.len() == branch_counts.len(),
            tally_wf(entries),
            sum_counts(entries) == total,
            forall|k: Seq<char>| #[trigger] tally_count(entries, k) == count_occ(ids, k),
            ids.len() == total,
            r@.len() == i,
            forall|j: int| 0 <= j < i ==> (#[trigger] r@[j]).branch@ == entries[j].0@,
            forall|j: int| 0 <= j < i ==> (#[trigger] r@[j]).count == entries[j].1,
            forall|j: int| 0 <= j < i ==> (#[trigger] r@[j]).total == total,
            sum_emitted(r@) == sum_counts(entries.subrange(0, i as int)),
        decreases branch_counts.len() - i,
    {
        let ghost pre = r@;
        let branch = branch_counts[i].0.clone();
        let count = branch_counts[i].1;
        r.push(BranchProbability { branch, count, total });
        proof {
            assert(r@.drop_last() =~= pre);
            assert(entries.subrange(0, i as int + 1).drop_last() =~= entries.subrange(
                0,
                i as int,
            ));
            assert(entries.subrange(0, i as int + 1).last() == entries[i as int]);
        }
        i += 1;
    }
    proof {
        assert(entries.subrange(0, entries.len() as int) =~= entries);
        assert forall|j: int| 0 <= j < r@.len() implies (#[trigger] r@[j]).count == count_occ(
            ids,
            r@[j].branch@,
        ) && r@[j].count >= 1 by {
            lemma_tally_at(entries, j);
        }
        assert forall|k: Seq<char>| #[trigger] count_occ(ids, k) > 0 implies exists|i2: int|
            0 <= i2 < r@.len() && (#[trigger] r@[i2]).branch@ == k by {
            assert(tally_count(entries, k) > 0);
            if forall|i2: int| 0 <= i2 < entries.len() ==> (#[trigger] entries[i2]).0@ != k {
                lemma_tally_absent(entries, k);
                assert(false);
            }
            let w = choose|i2: int| 0 <= i2 < entries.len() && (#[trigger] entries[i2]).0@ == k;
            assert(r@[w].branch@ == k);
        }
        if ids.len() == 0 {
            assert(sum_counts(entries) == 0);
            assert(entries.len() == 0);
        }
    }
    r
}

} // verus!
