use vstd::prelude::*;
use vstd::string::StrSliceExecFns;

use crate::model::{
    children_count, lemma_children_count_ge_len, lemma_children_count_split, lemma_children_view,
    node_count, CallNodeView, FlowCallNode,
};

verus! {

// ---------------------------------------------------------------------------
// Spiral layout
//
// Deterministic pre-order placement of the (filtered) call tree on an
// expanding spiral, in polar coordinates: the root sits at angle 0, radius 0;
// the i-th child of a node at (angle, radius) sits at angle + i * 0.5
// radians and radius + 1.  Every angle is therefore a whole multiple of half
// a radian, and every radius equals the node's depth, so a point is fully
// described by two integers.  The trigonometric conversion to Cartesian
// coordinates and the vector-graphic rendering are left to the caller.
// ---------------------------------------------------------------------------

/// One laid-out node: its angle in half-radian steps (angle = `angle_halves`
/// × 0.5 rad), its depth (= its radius in layout units), and its method name.
pub struct SpiralPoint {
    pub angle_halves: usize,
    pub depth: usize,
    pub method: String,
}

#[verifier::ext_equal]
pub ghost struct SpiralPointView {
    pub angle_halves: nat,
    pub depth: nat,
    pub method: Seq<char>,
}

impl SpiralPoint {
    pub open spec fn view(&self) -> SpiralPointView {
        SpiralPointView {
            angle_halves: self.angle_halves as nat,
            depth: self.depth as nat,
            method: self.method@,
        }
    }
}

/// The pre-order spiral placement of the tree rooted at `m`, the root placed
/// at the given depth and angle.
pub open spec fn spiral_points(m: CallNodeView, depth: nat, angle: nat) -> Seq<SpiralPointView>
    decreases m,
{
    seq![
        SpiralPointView { angle_halves: angle, depth, method: m.method_details.method_name },
    ] + spiral_children(m.children, depth + 1, angle)
}

/// Placement of a forest of sibling subtrees: the i-th sibling opens its
/// subtree at `angle + i` half-radian steps.
pub open spec fn spiral_children(
    cs: Seq<CallNodeView>,
    depth: nat,
    angle: nat,
) -> Seq<SpiralPointView>
    decreases cs,
{
    if cs.len() == 0 {
        Seq::empty()
    } else {
        spiral_points(cs[0], depth, angle) + spiral_children(
            cs.subrange(1, cs.len() as int),
            depth,
            (angle + 1) as nat,
        )
    }
}

/// The layout emits exactly one point per node.
pub proof fn lemma_spiral_count(m: CallNodeView, depth: nat, angle: nat)
    ensures
        spiral_points(m, depth, angle).len() == node_count(m),
    decreases m,
{
    lemma_spiral_children_count(m.children, depth + 1, angle);
}

/// Forest form of the one-point-per-node law.
pub proof fn lemma_spiral_children_count(cs: Seq<CallNodeView>, depth: nat, angle: nat)
    ensures
        spiral_children(cs, depth, angle).len() == children_count(cs),
    decreases cs,
{
    if cs.len() > 0 {
        lemma_spiral_count(cs[0], depth, angle);
        lemma_spiral_children_count(cs.subrange(1, cs.len() as int), depth, (angle + 1) as nat);
    }
}

/// Lay out the tree rooted at `node`, pre-order, starting at the given depth
/// and angle (both 0 for the root of a trace).
pub fn generate_spiral_points(node: &FlowCallNode, depth: usize, angle_halves: usize) -> (r: Vec<
    SpiralPoint,
>)
    requires
        depth + node_count(node@) <= usize::MAX,
        angle_halves + node_count(node@) <= usize::MAX,
    ensures
        r@.len() == node_count(node@),
        forall|i: int|
            0 <= i < r@.len() ==> (#[trigger] r@[i])@ == spiral_points(
                node@,
                depth as nat,
                angle_halves as nat,
            )[i],
    decreases *node,
{
    let ghost kids = node@.children;
    let ghost whole = spiral_points(node@, depth as nat, angle_halves as nat);
    proof {
        lemma_spiral_count(node@, depth as nat, angle_halves as nat);
        lemma_children_view(node.children@);
        lemma_children_count_ge_len(kids);
    }
    let mut r: Vec<SpiralPoint> = Vec::new();
    let method = clone_method_name(node);
    r.push(SpiralPoint { angle_halves, depth, method });

    let mut i: usize = 0;
    proof {
        assert(kids.subrange(0, 0) =~= Seq::<CallNodeView>::empty());
        assert(spiral_children(kids.subrange(0, 0), depth as nat + 1, angle_halves as nat)
            =~= Seq::<SpiralPointView>::empty());
        assert(whole[0] == (SpiralPointView {
            angle_halves: angle_halves as nat,
            depth: depth as nat,
            method: node@.method_details.method_name,
        }));
    }
    while i < node.children.len()
        invariant
            0 <= i <= node.children.len(),
            kids == node@.children,
            kids == FlowCallNode::children_view(node.children@),
            kids.len() == node.children.len(),
            forall|j: int| 0 <= j < kids.len() ==> kids[j] == #[trigger] node.children@[j]@,
            depth + node_count(node@) <= usize::MAX,
            angle_halves + node_count(node@) <= usize::MAX,
            node_count(node@) == 1 + children_count(kids),
            whole == spiral_points(node@, depth as nat, angle_halves as nat),
            whole == seq![
                SpiralPointView {
                    angle_halves: angle_halves as nat,
                    depth: depth as nat,
                    method: node@.method_details.method_name,
                },
            ] + spiral_children(kids, depth as nat + 1, angle_halves as nat),
            whole.len() == node_count(node@),
            r@.len() == 1 + children_count(kids.subrange(0, i as int)),
            r@.len() <= whole.len(),
            forall|t: int| 0 <= t < r@.len() ==> (#[trigger] r@[t])@ == whole[t],
        decreases node.children.len() - i,
    {
        let ghost pre = r@;
        let ghost done = kids.subrange(0, i as int);
        proof {
            lemma_children_count_split(kids, i as int);
            assert(kids.subrange(0, i as int + 1).subrange(0, i as int) =~= done);
            lemma_children_count_split(kids.subrange(0, i as int + 1), i as int);
            assert(kids.subrange(0, i as int + 1)[i as int] == kids[i as int]);
            assert(kids.subrange(0, i as int + 1).subrange(i as int + 1, i as int + 1)
                =~= Seq::<CallNodeView>::empty());
            lemma_children_count_ge_len(done);
            lemma_spiral_forest_prefix(kids, i as int, depth as nat + 1, angle_halves as nat);
        }
        let child_points = generate_spiral_points(&node.children[i], depth + 1, angle_halves + i);
        let ghost csnap = child_points@;
        let ghost child_view = spiral_points(
            kids[i as int],
            depth as nat + 1,
            (angle_halves + i) as nat,
        );
        let mut child_points = child_points;
        r.append(&mut child_points);
        proof {
            lemma_spiral_count(kids[i as int], depth as nat + 1, (angle_halves + i) as nat);
            assert(child_view.len() == node_count(kids[i as int]));
            let head = seq![
                SpiralPointView {
                    angle_halves: angle_halves as nat,
                    depth: depth as nat,
                    method: node@.method_details.method_name,
                },
            ];
            let after = spiral_children(
                kids.subrange(i as int + 1, kids.len() as int),
                depth as nat + 1,
                (angle_halves + i + 1) as nat,
            );
            assert(whole =~= (head + spiral_children(done, depth as nat + 1, angle_halves as nat))
                + child_view + after);
            assert(pre.len() == (head + spiral_children(
                done,
                depth as nat + 1,
                angle_halves as nat,
            )).len()) by {
                lemma_spiral_children_count(done, depth as nat + 1, angle_halves as nat);
            }
            assert forall|t: int| 0 <= t < r@.len() implies (#[trigger] r@[t])@ == whole[t] by {
                if t < pre.len() {
                    assert(r@[t] == pre[t]);
                } else {
                    let u = t - pre.len();
                    assert(r@[t] == csnap[u]);
                    assert(csnap[u]@ == child_view[u]);
                    assert(whole[t] == child_view[u]);
                }
            }
            assert(r@.len() == 1 + children_count(kids.subrange(0, i as int + 1))) by {
                lemma_spiral_children_count(done, depth as nat + 1, angle_halves as nat);
            }
        }
        i += 1;
    }
    proof {
        assert(kids.subrange(0, kids.len() as int) =~= kids);
    }
    r
}

/// The points of the forest prefix `cs[..i]` followed by the subtree of
/// `cs[i]` (placed `i` half-steps past the base angle) form a prefix of the
/// forest's full placement.
pub proof fn lemma_spiral_forest_prefix(cs: Seq<CallNodeView>, i: int, depth: nat, angle: nat)
    requires
        0 <= i < cs.len(),
    ensures
        spiral_children(cs, depth, angle) == spiral_children(cs.subrange(0, i), depth, angle)
            + spiral_points(cs[i], depth, (angle + i) as nat) + spiral_children(
            cs.subrange(i + 1, cs.len() as int),
            depth,
            (angle + i + 1) as nat,
        ),
    decreases i,
{
    if i == 0 {
        assert(cs.subrange(0, 0) =~= Seq::<CallNodeView>::empty());
        assert(spiral_children(cs.subrange(0, 0), depth, angle)
            =~= Seq::<SpiralPointView>::empty());
        assert(spiral_children(cs, depth, angle) =~= spiral_children(cs.subrange(0, 0), depth, angle)
            + spiral_points(cs[0], depth, angle) + spiral_children(
            cs.subrange(1, cs.len() as int),
            depth,
            (angle + 1) as nat,
        ));
    } else {
        let rest = cs.subrange(1, cs.len() as int);
        lemma_spiral_forest_prefix(rest, i - 1, depth, (angle + 1) as nat);
        assert(rest.subrange(0, i - 1) =~= cs.subrange(1, i));
        assert(rest[i - 1] == cs[i]);
        assert(rest.subrange(i, rest.len() as int) =~= cs.subrange(i + 1, cs.len() as int));
        assert(cs.subrange(0, i).subrange(1, i) =~= cs.subrange(1, i));
        assert(cs.subrange(0, i)[0] == cs[0]);
        assert(spiral_children(cs.subrange(0, i), depth, angle) == spiral_points(
            cs[0],
            depth,
            angle,
        ) + spiral_children(cs.subrange(1, i), depth, (angle + 1) as nat));
        assert(spiral_children(cs, depth, angle) =~= spiral_children(cs.subrange(0, i), depth, angle)
            + spiral_points(cs[i], depth, (angle + i) as nat) + spiral_children(
            cs.subrange(i + 1, cs.len() as int),
            depth,
            (angle + i + 1) as nat,
        ));
    }
}

fn clone_method_name(node: &FlowCallNode) -> (r: String)
    ensures
        r@ == node@.method_details.method_name,
{
    node.method_details.method_name.clone()
}

// ---------------------------------------------------------------------------
// Point labels
// ---------------------------------------------------------------------------

/// The trailing segment of a method name after its last `.` separator, or
/// the whole name when it has none.
pub open spec fn label_of(name: Seq<char>) -> Seq<char>
    decreases name.len(),
{
    if name.len() == 0 {
        name
    } else if name.last() == '.' {
        Seq::empty()
    } else {
        label_of(name.drop_last()).push(name.last())
    }
}

/// Extract the display label of a method name: everything after the last
/// `.`, or the full name when no `.` occurs.
pub fn method_label(name: &str) -> (r: &str)
    ensures
        r@ == label_of(name@),
{
    let len = name.unicode_len();
    let mut k: usize = len;
    let mut found = false;
    proof {
        assert(name@.subrange(0, len as int) =~= name@);
        assert(name@.subrange(len as int, len as int) =~= Seq::<char>::empty());
        assert(label_of(name@) =~= label_of(name@.subrange(0, len as int)) + name@.subrange(
            len as int,
            len as int,
        ));
    }
    while !found && k > 0
        invariant
            0 <= k <= len,
            len == name@.len(),
            label_of(name@) == label_of(name@.subrange(0, k as int)) + name@.subrange(
                k as int,
                len as int,
            ),
            found ==> k >= 1 && name@[k as int - 1] == '.',
        decreases (if found { 0int } else { 1int }), k,
    {
        if name.get_char(k - 1) == '.' {
            found = true;
        } else {
            proof {
                let s = name@.subrange(0, k as int);
                assert(s.drop_last() =~= name@.subrange(0, k as int - 1));
                assert(s.last() == name@[k as int - 1]);
                assert(label_of(name@.subrange(0, k as int)) == label_of(
                    name@.subrange(0, k as int - 1),
                ).push(name@[k as int - 1]));
                assert(label_of(name@.subrange(0, k as int - 1)) + name@.subrange(
                    k as int - 1,
                    len as int,
                ) =~= label_of(name@.subrange(0, k as int)) + name@.subrange(
                    k as int,
                    len as int,
                ));
            }
            k -= 1;
        }
    }
    proof {
        if k == 0 {
            assert(name@.subrange(0, 0) =~= Seq::<char>::empty());
            assert(label_of(Seq::<char>::empty()) + name@.subrange(0, len as int)
                =~= name@.subrange(0, len as int));
        } else {
            assert(name@.subrange(0, k as int).last() == name@[k as int - 1]);
            assert(label_of(name@.subrange(0, k as int)) =~= Seq::<char>::empty());
        }
        assert(label_of(name@) =~= name@.subrange(k as int, len as int));
    }
    let r = name.substring_char(k, len);
    proof {
        assert(r@ =~= label_of(name@));
    }
    r
}

} // verus!
