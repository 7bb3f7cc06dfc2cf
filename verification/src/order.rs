//! The geometric ordering engine: a three-way comparison over sibling nodes
//! and the sibling sort built on it.
//!
//! Siblings are sorted into a work frame that the traversal consumes from the
//! back, so the frame holds the *reverse* of the visit order: the comparison
//! ranks a node earlier in the frame the later it is visited. In visit order
//! the windows run top-to-bottom, then left-to-right; siblings that share a
//! content position (stacked or tabbed layouts) are visited in order of
//! descending decoration x, and any remaining tie falls back to ascending id
//! so that the order is deterministic.

use vstd::prelude::*;
use core::cmp::Ordering;
use crate::geometry::Coord;
use crate::tree::{Node, NodeView, views_of};

verus! {

/// The frame comparison: `Less` means `a` stands earlier than `b` in the
/// sorted work frame, hence `a` is visited *later* than `b`.
pub open spec fn spec_node_cmp_above(a: NodeView, b: NodeView) -> Ordering {
    if a.coords == b.coords {
        if a.deco_coords.x < b.deco_coords.x {
            Ordering::Less
        } else if a.deco_coords.x > b.deco_coords.x {
            Ordering::Greater
        } else if a.id > b.id {
            Ordering::Less
        } else if a.id < b.id {
            Ordering::Greater
        } else {
            Ordering::Equal
        }
    } else if a.coords.y < b.coords.y || a.coords.x < b.coords.x {
        Ordering::Greater
    } else {
        Ordering::Less
    }
}

/// Variant of [`spec_node_cmp_above`] whose primary order runs bottom-to-top
/// instead of top-to-bottom.
pub open spec fn spec_node_cmp_below(a: NodeView, b: NodeView) -> Ordering {
    if a.coords == b.coords {
        if a.deco_coords.x < b.deco_coords.x {
            Ordering::Less
        } else if a.deco_coords.x > b.deco_coords.x {
            Ordering::Greater
        } else if a.id > b.id {
            Ordering::Less
        } else if a.id < b.id {
            Ordering::Greater
        } else {
            Ordering::Equal
        }
    } else if a.coords.y > b.coords.y || a.coords.x < b.coords.x {
        Ordering::Greater
    } else {
        Ordering::Less
    }
}

impl Node {
    /// Frame comparison for the usual top-to-bottom reading order: the
    /// reversed coordinate comparison, with position ties broken on the
    /// decoration x offset and then on the id.
    pub fn asc_above_or_right_of(&self, b: &Node) -> (o: Ordering)
        ensures
            o == spec_node_cmp_above(self@, b@),
    {
        let c = self.coords.asc_above_or_right_of(&b.coords);
        match c {
            Ordering::Less => Ordering::Greater,
            Ordering::Greater => Ordering::Less,
            Ordering::Equal => {
                if self.deco_coords.x < b.deco_coords.x {
                    Ordering::Less
                } else if self.deco_coords.x > b.deco_coords.x {
                    Ordering::Greater
                } else if self.id > b.id {
                    Ordering::Less
                } else if self.id < b.id {
                    Ordering::Greater
                } else {
                    Ordering::Equal
                }
            },
        }
    }

    /// Frame comparison for bottom-to-top reading order; unused by the
    /// traversal but kept as the mirror image of
    /// [`Node::asc_above_or_right_of`].
    pub fn asc_below_or_right_of(&self, b: &Node) -> (o: Ordering)
        ensures
            o == spec_node_cmp_below(self@, b@),
    {
        let c = self.coords.asc_below_or_right_of(&b.coords);
        match c {
            Ordering::Less => Ordering::Greater,
            Ordering::Greater => Ordering::Less,
            Ordering::Equal => {
                if self.deco_coords.x < b.deco_coords.x {
                    Ordering::Less
                } else if self.deco_coords.x > b.deco_coords.x {
                    Ordering::Greater
                } else if self.id > b.id {
                    Ordering::Less
                } else if self.id < b.id {
                    Ordering::Greater
                } else {
                    Ordering::Equal
                }
            },
        }
    }
}

/// `a` may stand before `b` in the sorted frame.
pub open spec fn frame_le(a: NodeView, b: NodeView) -> bool {
    spec_node_cmp_above(a, b) != Ordering::Greater
}

/// Insertion of `x` into a frame, before the first entry it may precede.
pub open spec fn frame_insert(x: NodeView, s: Seq<NodeView>) -> Seq<NodeView>
    decreases s.len(),
{
    if s.len() == 0 {
        seq![x]
    } else if frame_le(x, s[0]) {
        seq![x] + s
    } else {
        seq![s[0]] + frame_insert(x, s.drop_first())
    }
}

/// Insertion sort of a sibling list into frame order.
pub open spec fn sort_frame(s: Seq<NodeView>) -> Seq<NodeView>
    decreases s.len(),
{
    if s.len() == 0 {
        Seq::empty()
    } else {
        frame_insert(s[0], sort_frame(s.drop_first()))
    }
}

/// The order in which the traversal actually visits siblings: the sorted
/// frame read from the back.
pub open spec fn sorted_siblings(s: Seq<NodeView>) -> Seq<NodeView> {
    sort_frame(s).reverse()
}

pub proof fn lemma_frame_insert_multiset(x: NodeView, s: Seq<NodeView>)
    ensures
        frame_insert(x, s).to_multiset() == s.to_multiset().insert(x),
        frame_insert(x, s).len() == s.len() + 1,
    decreases s.len(),
{
    broadcast use vstd::seq_lib::group_to_multiset_ensures;

    if s.len() == 0 {
        assert(frame_insert(x, s) =~= Seq::empty().push(x));
        assert(Seq::<NodeView>::empty().push(x).to_multiset() =~= s.to_multiset().insert(x));
    } else if frame_le(x, s[0]) {
        assert(frame_insert(x, s) =~= seq![x] + s);
        lemma_multiset_prepend(x, s);
    } else {
        lemma_frame_insert_multiset(x, s.drop_first());
        assert(frame_insert(x, s) =~= seq![s[0]] + frame_insert(x, s.drop_first()));
        lemma_multiset_prepend(s[0], frame_insert(x, s.drop_first()));
        lemma_multiset_prepend(s[0], s.drop_first());
        assert(seq![s[0]] + s.drop_first() =~= s);
        assert(frame_insert(x, s).to_multiset() =~= s.to_multiset().insert(x));
    }
}

/// Prepending one element inserts it into the sequence's multiset.
proof fn lemma_multiset_prepend(x: NodeView, s: Seq<NodeView>)
    ensures
        (seq![x] + s).to_multiset() == s.to_multiset().insert(x),
    decreases s.len(),
{
    broadcast use vstd::seq_lib::group_to_multiset_ensures;

    if s.len() == 0 {
        assert(seq![x] + s =~= Seq::empty().push(x));
    } else {
        let t = seq![x] + s;
        assert(t.drop_last() =~= seq![x] + s.drop_last());
        lemma_multiset_prepend(x, s.drop_last());
        assert(t =~= t.drop_last().push(s.last()));
        assert(s =~= s.drop_last().push(s.last()));
        assert(t.to_multiset() =~= s.to_multiset().insert(x)) by {
            assert(t.to_multiset() =~= t.drop_last().to_multiset().insert(s.last()));
            assert(s.to_multiset() =~= s.drop_last().to_multiset().insert(s.last()));
        }
    }
}

pub proof fn lemma_sort_frame_multiset(s: Seq<NodeView>)
    ensures
        sort_frame(s).to_multiset() == s.to_multiset(),
        sort_frame(s).len() == s.len(),
    decreases s.len(),
{
    broadcast use vstd::seq_lib::group_to_multiset_ensures;

    if s.len() > 0 {
        lemma_sort_frame_multiset(s.drop_first());
        lemma_frame_insert_multiset(s[0], sort_frame(s.drop_first()));
        assert(s =~= seq![s[0]] + s.drop_first());
        lemma_multiset_prepend(s[0], s.drop_first());
    }
}

/// `a` sits strictly above or to the left of `b`: neither coordinate is
/// greater and the positions differ. Such a sibling is always visited first,
/// whatever the decorations say.
pub open spec fn dominates(a: NodeView, b: NodeView) -> bool {
    &&& a.coords != b.coords
    &&& a.coords.y <= b.coords.y
    &&& a.coords.x <= b.coords.x
}

/// `a` and `b` share a content position and the tie falls to `a`: its
/// decoration sits further right, or at equal decoration its id is smaller.
pub open spec fn tie_before(a: NodeView, b: NodeView) -> bool {
    &&& a.coords == b.coords
    &&& (a.deco_coords.x > b.deco_coords.x || (a.deco_coords.x == b.deco_coords.x && a.id
        < b.id))
}

/// `a` must be visited before `b`.
pub open spec fn hard_before(a: NodeView, b: NodeView) -> bool {
    dominates(a, b) || tie_before(a, b)
}

/// No entry of the frame must be visited before an entry that stands later
/// in the frame (the frame is read from the back, so "later in the frame"
/// means "visited earlier").
pub open spec fn frame_no_inversion(s: Seq<NodeView>) -> bool {
    forall|i: int, j: int|
        0 <= i < j < s.len() ==> !#[trigger] hard_before(s[i], s[j])
}

proof fn lemma_cmp_greater_not_hard_before(x: NodeView, p: NodeView)
    requires
        spec_node_cmp_above(x, p) == Ordering::Greater,
    ensures
        !hard_before(p, x),
{
}

proof fn lemma_le_not_hard_before(x: NodeView, c: NodeView)
    requires
        frame_le(x, c),
    ensures
        !hard_before(x, c),
{
}

proof fn lemma_le_hard_before_trans(x: NodeView, c: NodeView, e: NodeView)
    requires
        frame_le(x, c),
        hard_before(x, e),
    ensures
        hard_before(c, e),
{
}

/// Inserting into an inversion-free frame keeps it inversion-free.
proof fn lemma_frame_insert_no_inversion(x: NodeView, s: Seq<NodeView>)
    requires
        frame_no_inversion(s),
    ensures
        frame_no_inversion(frame_insert(x, s)),
    decreases s.len(),
{
    broadcast use vstd::seq_lib::group_to_multiset_ensures;

    let r = frame_insert(x, s);
    if s.len() == 0 {
        assert(r =~= seq![x]);
    } else if frame_le(x, s[0]) {
        assert(r =~= seq![x] + s);
        assert forall|i: int, j: int| 0 <= i < j < r.len() implies !hard_before(r[i], r[j]) by {
            if i == 0 {
                if j == 1 {
                    lemma_le_not_hard_before(x, s[0]);
                } else {
                    if hard_before(x, s[j - 1]) {
                        lemma_le_hard_before_trans(x, s[0], s[j - 1]);
                        assert(hard_before(s[0], s[j - 1]));
                        assert(!hard_before(s[0], s[j - 1]));
                    }
                }
            } else {
                assert(!hard_before(s[i - 1], s[j - 1]));
            }
        }
    } else {
        let t = s.drop_first();
        assert(frame_no_inversion(t)) by {
            assert forall|i: int, j: int| 0 <= i < j < t.len() implies !hard_before(t[i], t[j]) by {
                assert(!hard_before(s[i + 1], s[j + 1]));
            }
        }
        lemma_frame_insert_no_inversion(x, t);
        let rt = frame_insert(x, t);
        lemma_frame_insert_multiset(x, t);
        assert(r =~= seq![s[0]] + rt);
        assert forall|i: int, j: int| 0 <= i < j < r.len() implies !hard_before(r[i], r[j]) by {
            if i == 0 {
                let e = rt[j - 1];
                if e == x {
                    assert(spec_node_cmp_above(x, s[0]) == Ordering::Greater);
                    lemma_cmp_greater_not_hard_before(x, s[0]);
                } else {
                    assert(rt.contains(e));
                    assert(rt.to_multiset().count(e) > 0);
                    assert(t.to_multiset().count(e) > 0);
                    assert(t.contains(e));
                    let m = choose|m: int| 0 <= m < t.len() && t[m] == e;
                    assert(!hard_before(s[0], s[m + 1]));
                }
            } else {
                assert(!hard_before(rt[i - 1], rt[j - 1]));
            }
        }
    }
}

/// The sorted frame is inversion-free: what must be visited first stands
/// later in the frame.
pub proof fn lemma_sort_frame_no_inversion(s: Seq<NodeView>)
    ensures
        frame_no_inversion(sort_frame(s)),
    decreases s.len(),
{
    if s.len() > 0 {
        lemma_sort_frame_no_inversion(s.drop_first());
        lemma_frame_insert_no_inversion(s[0], sort_frame(s.drop_first()));
    }
}

/// Sibling order law: among the sorted siblings, a node strictly above or to
/// the left of another (neither coordinate greater, positions different) is
/// visited first, regardless of either node's decoration coordinates.
pub proof fn lemma_sibling_order(s: Seq<NodeView>, a: NodeView, b: NodeView, i: int, j: int)
    requires
        0 <= i < sorted_siblings(s).len(),
        0 <= j < sorted_siblings(s).len(),
        sorted_siblings(s)[i] == a,
        sorted_siblings(s)[j] == b,
        a.coords != b.coords,
        a.coords.y <= b.coords.y,
        a.coords.x <= b.coords.x,
    ensures
        i < j,
{
    lemma_visit_order(s, a, b, i, j);
}

/// Tie-break law: among the sorted siblings, when two nodes share a content
/// position, the one whose decoration x coordinate is larger is visited
/// first.
pub proof fn lemma_tie_break_order(s: Seq<NodeView>, a: NodeView, b: NodeView, i: int, j: int)
    requires
        0 <= i < sorted_siblings(s).len(),
        0 <= j < sorted_siblings(s).len(),
        sorted_siblings(s)[i] == a,
        sorted_siblings(s)[j] == b,
        a.coords == b.coords,
        a.deco_coords.x > b.deco_coords.x,
    ensures
        i < j,
{
    lemma_visit_order(s, a, b, i, j);
}

/// Whatever must be visited first comes first among the sorted siblings.
pub proof fn lemma_visit_order(s: Seq<NodeView>, a: NodeView, b: NodeView, i: int, j: int)
    requires
        0 <= i < sorted_siblings(s).len(),
        0 <= j < sorted_siblings(s).len(),
        sorted_siblings(s)[i] == a,
        sorted_siblings(s)[j] == b,
        hard_before(a, b),
    ensures
        i < j,
{
    lemma_sort_frame_no_inversion(s);
    let f = sort_frame(s);
    let n = f.len() as int;
    if i == j {
        assert(!hard_before(a, a));
    } else if i > j {
        assert(f[n - 1 - i] == a);
        assert(f[n - 1 - j] == b);
        assert(!hard_before(f[n - 1 - i], f[n - 1 - j]));
    }
}

/// Every sibling occurs somewhere among the sorted siblings.
pub proof fn lemma_sorted_siblings_occurrence(s: Seq<NodeView>, k: int) -> (i: int)
    requires
        0 <= k < s.len(),
    ensures
        0 <= i < sorted_siblings(s).len(),
        sorted_siblings(s)[i] == s[k],
{
    broadcast use vstd::seq_lib::group_to_multiset_ensures;

    lemma_sort_frame_multiset(s);
    assert(s.contains(s[k]));
    assert(s.to_multiset().count(s[k]) > 0);
    assert(sort_frame(s).contains(s[k]));
    let fa = choose|fa: int| 0 <= fa < sort_frame(s).len() && sort_frame(s)[fa] == s[k];
    let i = sort_frame(s).len() - 1 - fa;
    assert(sorted_siblings(s)[i] == sort_frame(s)[fa]);
    i
}

/// Where the first insertion point lies, the spec insertion splits the frame
/// there.
proof fn lemma_frame_insert_at(x: NodeView, s: Seq<NodeView>, j: int)
    requires
        0 <= j <= s.len(),
        forall|k: int| 0 <= k < j ==> spec_node_cmp_above(x, #[trigger] s[k]) == Ordering::Greater,
        j == s.len() || spec_node_cmp_above(x, s[j]) != Ordering::Greater,
    ensures
        frame_insert(x, s) == s.subrange(0, j) + seq![x] + s.subrange(j, s.len() as int),
    decreases j,
{
    if j == 0 {
        if s.len() == 0 {
            assert(frame_insert(x, s) =~= s.subrange(0, 0) + seq![x] + s.subrange(0, 0));
        } else {
            assert(frame_le(x, s[0]));
            assert(frame_insert(x, s) =~= s.subrange(0, 0) + seq![x] + s.subrange(
                0,
                s.len() as int,
            ));
        }
    } else {
        assert(spec_node_cmp_above(x, s[0]) == Ordering::Greater);
        assert(!frame_le(x, s[0]));
        let t = s.drop_first();
        assert forall|k: int| 0 <= k < j - 1 implies spec_node_cmp_above(x, #[trigger] t[k])
            == Ordering::Greater by {
            assert(t[k] == s[k + 1]);
        }
        lemma_frame_insert_at(x, t, j - 1);
        assert(t.subrange(0, j - 1) =~= s.subrange(1, j));
        assert(t.subrange(j - 1, t.len() as int) =~= s.subrange(j, s.len() as int));
        assert(frame_insert(x, s) =~= s.subrange(0, j) + seq![x] + s.subrange(j, s.len() as int));
    }
}

/// Insert one node into an already sorted work frame, keeping it sorted.
fn frame_insert_vec(frame: &mut Vec<Node>, x: Node)
    ensures
        views_of(final(frame)@) == frame_insert(x@, views_of(old(frame)@)),
{
    let ghost f0 = frame@;
    let ghost s = views_of(old(frame)@);
    let mut j: usize = 0;
    loop
        invariant
            j <= frame.len(),
            frame@ == f0,
            s == views_of(f0),
            forall|k: int|
                0 <= k < j ==> spec_node_cmp_above(x@, #[trigger] s[k]) == Ordering::Greater,
        ensures
            j <= frame.len(),
            frame@ == f0,
            forall|k: int|
                0 <= k < j ==> spec_node_cmp_above(x@, #[trigger] s[k]) == Ordering::Greater,
            j == frame.len() || spec_node_cmp_above(x@, s[j as int]) != Ordering::Greater,
        decreases frame.len() - j,
    {
        if j >= frame.len() {
            break;
        }
        let o = x.asc_above_or_right_of(&frame[j]);
        proof {
            assert(s[j as int] == f0[j as int]@);
        }
        match o {
            Ordering::Greater => {
                j = j + 1;
            },
            _ => {
                break;
            },
        }
    }
    let ghost jj = j as int;
    frame.insert(j, x);
    proof {
        lemma_frame_insert_at(x@, s, jj);
        assert(frame@ =~= old(frame)@.insert(jj, x));
        assert(views_of(frame@) =~= s.subrange(0, jj) + seq![x@] + s.subrange(jj, s.len() as int));
    }
}

/// Sort a sibling list into the work frame that the traversal consumes from
/// the back.
pub fn sort_frame_vec(v: Vec<Node>) -> (out: Vec<Node>)
    ensures
        views_of(out@) == sort_frame(views_of(v@)),
{
    let ghost orig = views_of(v@);
    let mut rest = v;
    let mut out: Vec<Node> = Vec::new();
    proof {
        assert(views_of(rest@) =~= orig.subrange(0, rest@.len() as int));
        assert(views_of(out@) =~= sort_frame(orig.subrange(orig.len() as int, orig.len() as int)));
    }
    while rest.len() > 0
        invariant
            rest@.len() <= orig.len(),
            views_of(rest@) == orig.subrange(0, rest@.len() as int),
            views_of(out@) == sort_frame(orig.subrange(rest@.len() as int, orig.len() as int)),
        decreases rest.len(),
    {
        let ghost before = rest@;
        let x = rest.pop().unwrap();
        frame_insert_vec(&mut out, x);
        proof {
            let i = rest@.len() as int;
            let n = orig.len() as int;
            assert(rest@ =~= before.drop_last());
            assert(views_of(rest@) =~= orig.subrange(0, i));
            assert(x@ == views_of(before)[i]);
            assert(x@ == orig[i]);
            let tail = orig.subrange(i, n);
            assert(tail[0] == orig[i]);
            assert(tail.drop_first() =~= orig.subrange(i + 1, n));
            assert(views_of(out@) == frame_insert(orig[i], sort_frame(orig.subrange(i + 1, n))));
            assert(views_of(out@) == sort_frame(tail));
        }
    }
    proof {
        assert(orig.subrange(0, orig.len() as int) =~= orig);
    }
    out
}

} // verus!
