//! The leaf collector: a depth-first traversal of the workspace subtree that
//! sorts every sibling list before descending and accumulates the ordered
//! sequence of leaf windows — the navigable window list.

use vstd::prelude::*;
use crate::tree::{Node, NodeView, views_of, lemma_node_view_children};
use crate::order::{
    sort_frame, sorted_siblings, lemma_sort_frame_multiset, sort_frame_vec,
    lemma_sorted_siblings_occurrence, lemma_sibling_order, lemma_tie_break_order,
};

verus! {

/// Number of nodes in the subtree of `v`, counting `v` itself.
pub open spec fn node_size(v: NodeView) -> nat
    decreases v, 0int,
{
    1 + size_list(v.children)
}

/// Total number of nodes in the subtrees of a node list.
pub open spec fn size_list(s: Seq<NodeView>) -> nat
    decreases s, 1int,
{
    if s.len() == 0 {
        0
    } else {
        node_size(s[0]) + size_list(s.drop_first())
    }
}

/// Removing one entry removes exactly its subtree size.
pub proof fn lemma_size_list_remove(s: Seq<NodeView>, k: int)
    requires
        0 <= k < s.len(),
    ensures
        size_list(s) == node_size(s[k]) + size_list(s.remove(k)),
    decreases k,
{
    if k == 0 {
        assert(s.remove(0) =~= s.drop_first());
    } else {
        lemma_size_list_remove(s.drop_first(), k - 1);
        assert(s.remove(k).drop_first() =~= s.drop_first().remove(k - 1));
        assert(s.remove(k)[0] == s[0]);
    }
}

/// Dropping the last entry removes exactly its subtree size.
pub proof fn lemma_size_list_snoc(s: Seq<NodeView>)
    requires
        s.len() > 0,
    ensures
        size_list(s) == size_list(s.drop_last()) + node_size(s.last()),
{
    lemma_size_list_remove(s, s.len() - 1);
    assert(s.remove(s.len() - 1) =~= s.drop_last());
}

/// Lists with the same members have the same total size; in particular
/// sorting a sibling list leaves its total size unchanged.
pub proof fn lemma_size_list_multiset(s1: Seq<NodeView>, s2: Seq<NodeView>)
    requires
        s1.to_multiset() == s2.to_multiset(),
    ensures
        size_list(s1) == size_list(s2),
    decreases s1.len(),
{
    broadcast use vstd::seq_lib::group_to_multiset_ensures;

    if s1.len() == 0 {
        assert(s1.to_multiset().len() == 0);
        assert(s2.to_multiset().len() == s2.len());
    } else {
        let x = s1[0];
        assert(s1.contains(x));
        assert(s2.to_multiset().count(x) > 0);
        assert(s2.contains(x));
        let k = choose|k: int| 0 <= k < s2.len() && s2[k] == x;
        lemma_size_list_remove(s2, k);
        assert(s1.drop_first() =~= s1.remove(0));
        assert(s1.remove(0).to_multiset() =~= s1.to_multiset().remove(x));
        assert(s2.remove(k).to_multiset() =~= s2.to_multiset().remove(x));
        lemma_size_list_multiset(s1.drop_first(), s2.remove(k));
    }
}

/// The ordered leaves of the subtree of `v`: a leaf yields itself; a branch
/// yields the leaves of its children, each sibling list sorted into a work
/// frame that is consumed from the back.
pub open spec fn ordered_leaves(v: NodeView) -> Seq<NodeView>
    decreases node_size(v), 0int,
    via ordered_leaves_dec
{
    if v.children.len() == 0 {
        seq![v]
    } else {
        flat_leaves(sort_frame(v.children))
    }
}

/// The leaves of the subtrees in a work frame, visiting the frame from the
/// back: the last entry's leaves come first.
pub open spec fn flat_leaves(s: Seq<NodeView>) -> Seq<NodeView>
    decreases size_list(s), 1int,
    via flat_leaves_dec
{
    if s.len() == 0 {
        Seq::empty()
    } else {
        ordered_leaves(s.last()) + flat_leaves(s.drop_last())
    }
}

#[via_fn]
proof fn ordered_leaves_dec(v: NodeView) {
    if v.children.len() > 0 {
        lemma_sort_frame_multiset(v.children);
        lemma_size_list_multiset(sort_frame(v.children), v.children);
    }
}

#[via_fn]
proof fn flat_leaves_dec(s: Seq<NodeView>) {
    if s.len() > 0 {
        lemma_size_list_snoc(s);
    }
}

/// The navigable window list of a workspace: the ordered leaves below it; a
/// workspace without children holds no windows at all.
pub open spec fn spec_windows(v: NodeView) -> Seq<NodeView> {
    if v.is_leaf() {
        Seq::empty()
    } else {
        ordered_leaves(v)
    }
}

/// Ordering stability: the navigable window list is a function of the tree
/// snapshot alone, so any two traversals of one snapshot agree.
pub proof fn lemma_traversal_deterministic(w1: Seq<NodeView>, w2: Seq<NodeView>, v: NodeView)
    requires
        w1 == spec_windows(v),
        w2 == spec_windows(v),
    ensures
        w1 == w2,
{
}

/// A leaf entry of a frame appears among the frame's flattened leaves.
proof fn lemma_flat_leaves_contains_leaf(s: Seq<NodeView>, k: int)
    requires
        0 <= k < s.len(),
        s[k].is_leaf(),
    ensures
        exists|q: int|
            0 <= q < flat_leaves(s).len() && flat_leaves(s)[q] == s[k],
    decreases s.len(),
{
    if k == s.len() - 1 {
        assert(ordered_leaves(s.last()) == seq![s[k]]);
        assert(flat_leaves(s)[0] == s[k]);
    } else {
        lemma_flat_leaves_contains_leaf(s.drop_last(), k);
        let q0 = choose|q: int|
            0 <= q < flat_leaves(s.drop_last()).len() && flat_leaves(s.drop_last())[q] == s
                .drop_last()[k];
        let off = ordered_leaves(s.last()).len() as int;
        assert(flat_leaves(s)[off + q0] == s[k]);
    }
}

/// Two leaf entries of a frame appear among the flattened leaves with the
/// later frame entry first (the frame is consumed from the back).
proof fn lemma_flat_leaves_two(s: Seq<NodeView>, k1: int, k2: int)
    requires
        0 <= k1 < k2 < s.len(),
        s[k1].is_leaf(),
        s[k2].is_leaf(),
    ensures
        exists|p: int, q: int|
            0 <= p < q < flat_leaves(s).len() && flat_leaves(s)[p] == s[k2] && flat_leaves(s)[q]
                == s[k1],
    decreases s.len(),
{
    if k2 == s.len() - 1 {
        assert(ordered_leaves(s.last()) == seq![s[k2]]);
        assert(flat_leaves(s)[0] == s[k2]);
        lemma_flat_leaves_contains_leaf(s.drop_last(), k1);
        let q0 = choose|q: int|
            0 <= q < flat_leaves(s.drop_last()).len() && flat_leaves(s.drop_last())[q] == s
                .drop_last()[k1];
        assert(flat_leaves(s)[1 + q0] == s[k1]);
        assert(0 < 1 + q0 < flat_leaves(s).len());
    } else {
        lemma_flat_leaves_two(s.drop_last(), k1, k2);
        let (p0, q0) = choose|p: int, q: int|
            0 <= p < q < flat_leaves(s.drop_last()).len() && flat_leaves(s.drop_last())[p] == s
                .drop_last()[k2] && flat_leaves(s.drop_last())[q] == s.drop_last()[k1];
        let off = ordered_leaves(s.last()).len() as int;
        assert(flat_leaves(s)[off + p0] == s[k2]);
        assert(flat_leaves(s)[off + q0] == s[k1]);
    }
}

/// Sibling leaves reach the navigable window list in their sibling visit
/// order: if one leaf child is visited before another, it also stands before
/// it among the branch's ordered leaves.
pub proof fn lemma_branch_leaf_order(v: NodeView, i: int, j: int)
    requires
        !v.is_leaf(),
        0 <= i < j < sorted_siblings(v.children).len(),
        sorted_siblings(v.children)[i].is_leaf(),
        sorted_siblings(v.children)[j].is_leaf(),
    ensures
        exists|p: int, q: int|
            0 <= p < q < ordered_leaves(v).len() && ordered_leaves(v)[p] == sorted_siblings(
                v.children,
            )[i] && ordered_leaves(v)[q] == sorted_siblings(v.children)[j],
{
    let f = sort_frame(v.children);
    let n = f.len() as int;
    let k1 = n - 1 - j;
    let k2 = n - 1 - i;
    assert(sorted_siblings(v.children)[i] == f[k2]);
    assert(sorted_siblings(v.children)[j] == f[k1]);
    lemma_flat_leaves_two(f, k1, k2);
    assert(ordered_leaves(v) == flat_leaves(f));
    let (p, q) = choose|p: int, q: int|
        0 <= p < q < flat_leaves(f).len() && flat_leaves(f)[p] == f[k2] && flat_leaves(f)[q]
            == f[k1];
    assert(0 <= p < q < ordered_leaves(v).len() && ordered_leaves(v)[p] == sorted_siblings(
        v.children,
    )[i] && ordered_leaves(v)[q] == sorted_siblings(v.children)[j]);
}

/// The leaves of the subtree of `v` in the tree's native child order,
/// before any sorting.
pub open spec fn native_leaves(v: NodeView) -> Seq<NodeView>
    decreases v, 1int, 0int,
{
    if v.children.len() == 0 {
        seq![v]
    } else {
        native_leaves_list(v, v.children.len() as int)
    }
}

/// Native-order leaves of the first `j` children of `v`.
pub open spec fn native_leaves_list(v: NodeView, j: int) -> Seq<NodeView>
    decreases v, 0int, j,
{
    if j <= 0 || j > v.children.len() {
        Seq::empty()
    } else {
        native_leaves_list(v, j - 1) + native_leaves(v.children[j - 1])
    }
}

/// One entry holds no more of the total than the whole list.
proof fn lemma_size_list_elem(s: Seq<NodeView>, k: int)
    requires
        0 <= k < s.len(),
    ensures
        node_size(s[k]) <= size_list(s),
{
    lemma_size_list_remove(s, k);
}

/// Taking one entry out of a frame takes exactly its leaves out of the
/// flattened leaves.
proof fn lemma_flat_leaves_remove(s: Seq<NodeView>, k: int)
    requires
        0 <= k < s.len(),
    ensures
        flat_leaves(s).to_multiset() == ordered_leaves(s[k]).to_multiset().add(
            flat_leaves(s.remove(k)).to_multiset(),
        ),
    decreases s.len(),
{
    broadcast use vstd::seq_lib::lemma_multiset_commutative;

    if k == s.len() - 1 {
        assert(s.remove(k) =~= s.drop_last());
    } else {
        lemma_flat_leaves_remove(s.drop_last(), k);
        assert(s.remove(k).drop_last() =~= s.drop_last().remove(k));
        assert(s.remove(k).last() == s.last());
        assert(s.drop_last()[k] == s[k]);
        assert(flat_leaves(s).to_multiset() =~= ordered_leaves(s[k]).to_multiset().add(
            flat_leaves(s.remove(k)).to_multiset(),
        ));
    }
}

/// Frames with the same members flatten to the same leaves, in some order.
proof fn lemma_flat_leaves_perm(s1: Seq<NodeView>, s2: Seq<NodeView>)
    requires
        s1.to_multiset() == s2.to_multiset(),
    ensures
        flat_leaves(s1).to_multiset() == flat_leaves(s2).to_multiset(),
    decreases s1.len(),
{
    broadcast use vstd::seq_lib::group_to_multiset_ensures;
    broadcast use vstd::seq_lib::lemma_multiset_commutative;

    if s1.len() == 0 {
        assert(s1.to_multiset().len() == 0);
        assert(s2.to_multiset().len() == s2.len());
    } else {
        let x = s1.last();
        assert(s1.contains(x));
        assert(s2.to_multiset().count(x) > 0);
        assert(s2.contains(x));
        let k = choose|k: int| 0 <= k < s2.len() && s2[k] == x;
        assert(s1.drop_last() =~= s1.remove(s1.len() - 1));
        assert(s1.remove(s1.len() - 1).to_multiset() =~= s1.to_multiset().remove(x));
        assert(s2.remove(k).to_multiset() =~= s2.to_multiset().remove(x));
        lemma_flat_leaves_perm(s1.drop_last(), s2.remove(k));
        lemma_flat_leaves_remove(s2, k);
        assert(flat_leaves(s1).to_multiset() =~= flat_leaves(s2).to_multiset());
    }
}

/// Same-leaves law: the sorted traversal produces exactly the leaves that an
/// unsorted traversal of the same subtree finds. Sorting the sibling lists
/// reorders the navigable window list but never adds or drops a window.
pub proof fn lemma_same_leaves(v: NodeView)
    ensures
        ordered_leaves(v).to_multiset() == native_leaves(v).to_multiset(),
    decreases node_size(v), 1int, 0int,
{
    if v.children.len() > 0 {
        lemma_sort_frame_multiset(v.children);
        lemma_flat_leaves_perm(sort_frame(v.children), v.children);
        lemma_flat_native(v, v.children.len() as int);
        assert(v.children.take(v.children.len() as int) =~= v.children);
    }
}

proof fn lemma_flat_native(v: NodeView, j: int)
    requires
        0 <= j <= v.children.len(),
    ensures
        flat_leaves(v.children.take(j)).to_multiset() == native_leaves_list(v, j).to_multiset(),
    decreases node_size(v), 0int, j,
{
    broadcast use vstd::seq_lib::lemma_multiset_commutative;

    if j > 0 {
        lemma_flat_native(v, j - 1);
        let t = v.children.take(j);
        assert(t.last() == v.children[j - 1]);
        assert(t.drop_last() =~= v.children.take(j - 1));
        lemma_size_list_elem(v.children, j - 1);
        lemma_same_leaves(v.children[j - 1]);
        assert(flat_leaves(t).to_multiset() =~= native_leaves_list(v, j).to_multiset());
    } else {
        assert(v.children.take(0) =~= Seq::<NodeView>::empty());
    }
}

/// Sibling order law for the navigable list: of two sibling leaves at
/// different positions with neither coordinate of the first greater, the
/// first appears among the branch's ordered leaves before the second,
/// regardless of either leaf's decoration coordinates.
pub proof fn lemma_sibling_leaf_order(v: NodeView, a: NodeView, b: NodeView, ka: int, kb: int)
    requires
        !v.is_leaf(),
        0 <= ka < v.children.len(),
        v.children[ka] == a,
        a.is_leaf(),
        0 <= kb < v.children.len(),
        v.children[kb] == b,
        b.is_leaf(),
        a.coords != b.coords,
        a.coords.y <= b.coords.y,
        a.coords.x <= b.coords.x,
    ensures
        exists|p: int, q: int|
            0 <= p < q < ordered_leaves(v).len() && ordered_leaves(v)[p] == a && ordered_leaves(
                v,
            )[q] == b,
{
    let i = lemma_sorted_siblings_occurrence(v.children, ka);
    let j = lemma_sorted_siblings_occurrence(v.children, kb);
    lemma_sibling_order(v.children, a, b, i, j);
    lemma_branch_leaf_order(v, i, j);
}

/// Tie-break law for the navigable list: of two sibling leaves with an
/// identical content position, the one whose decoration x coordinate is
/// larger appears among the branch's ordered leaves first.
pub proof fn lemma_sibling_leaf_tie_break(v: NodeView, a: NodeView, b: NodeView, ka: int, kb: int)
    requires
        !v.is_leaf(),
        0 <= ka < v.children.len(),
        v.children[ka] == a,
        a.is_leaf(),
        0 <= kb < v.children.len(),
        v.children[kb] == b,
        b.is_leaf(),
        a.coords == b.coords,
        a.deco_coords.x > b.deco_coords.x,
    ensures
        exists|p: int, q: int|
            0 <= p < q < ordered_leaves(v).len() && ordered_leaves(v)[p] == a && ordered_leaves(
                v,
            )[q] == b,
{
    let i = lemma_sorted_siblings_occurrence(v.children, ka);
    let j = lemma_sorted_siblings_occurrence(v.children, kb);
    lemma_tie_break_order(v.children, a, b, i, j);
    lemma_branch_leaf_order(v, i, j);
}

/// Leaves still to be produced by the node in the current slot.
pub open spec fn opt_leaves(c: Option<Node>) -> Seq<NodeView> {
    match c {
        Some(n) => ordered_leaves(n@),
        None => Seq::empty(),
    }
}

/// Subtree size of the node in the current slot.
pub open spec fn opt_size(c: Option<Node>) -> nat {
    match c {
        Some(n) => node_size(n@),
        None => 0,
    }
}

/// Views of the frames on the traversal stack.
pub open spec fn stack_views(st: Seq<Vec<Node>>) -> Seq<Seq<NodeView>> {
    st.map_values(|f: Vec<Node>| views_of(f@))
}

/// Leaves still to be produced by the stacked frames, topmost frame first.
pub open spec fn stack_leaves(st: Seq<Seq<NodeView>>) -> Seq<NodeView>
    decreases st.len(),
{
    if st.len() == 0 {
        Seq::empty()
    } else {
        flat_leaves(st.last()) + stack_leaves(st.drop_last())
    }
}

/// Total number of nodes left in the stacked frames.
pub open spec fn stack_size(st: Seq<Seq<NodeView>>) -> nat
    decreases st.len(),
{
    if st.len() == 0 {
        0
    } else {
        size_list(st.last()) + stack_size(st.drop_last())
    }
}

/// Total number of frame entries plus frames, a tie-breaking measure for the
/// steps that move a node out of a frame or drop an exhausted frame.
pub open spec fn stack_weight(st: Seq<Seq<NodeView>>) -> nat
    decreases st.len(),
{
    if st.len() == 0 {
        0
    } else {
        st.last().len() + 1 + stack_weight(st.drop_last())
    }
}

/// Collect the navigable window list of a workspace subtree: an explicit
/// depth-first traversal, sorting each branch's children before descending,
/// with a work stack in place of recursion. The workspace node itself is
/// never a window: a childless workspace yields an empty list.
pub fn collect_leaves(root: Node) -> (w: Vec<Node>)
    ensures
        views_of(w@) == spec_windows(root@),
{
    let ghost rootv = root@;
    let mut windows: Vec<Node> = Vec::new();
    if root.is_leaf() {
        proof {
            assert(views_of(windows@) =~= spec_windows(rootv));
        }
        return windows;
    }
    let mut cur: Option<Node> = Some(root);
    let mut stack: Vec<Vec<Node>> = Vec::new();
    proof {
        assert(stack_views(stack@) =~= Seq::<Seq<NodeView>>::empty());
        assert(views_of(windows@) + opt_leaves(cur) + stack_leaves(stack_views(stack@))
            =~= ordered_leaves(rootv));
    }
    while cur.is_some() || stack.len() > 0
        invariant
            views_of(windows@) + opt_leaves(cur) + stack_leaves(stack_views(stack@))
                == ordered_leaves(rootv),
        decreases opt_size(cur) + stack_size(stack_views(stack@)), stack_weight(
            stack_views(stack@),
        ),
    {
        let c = cur;
        cur = None;
        match c {
            Some(n) => {
                let ghost nv = n@;
                proof {
                    lemma_node_view_children(n);
                }
                if n.is_leaf() {
                    let ghost w0 = views_of(windows@);
                    windows.push(n);
                    proof {
                        assert(ordered_leaves(nv) =~= seq![nv]);
                        assert(views_of(windows@) =~= w0.push(nv));
                        assert(views_of(windows@) + opt_leaves(cur) + stack_leaves(
                            stack_views(stack@),
                        ) =~= ordered_leaves(rootv));
                    }
                } else {
                    let kids = n.nodes;
                    proof {
                        assert(views_of(kids@) =~= nv.children);
                    }
                    let sorted = sort_frame_vec(kids);
                    let ghost st0 = stack_views(stack@);
                    stack.push(sorted);
                    proof {
                        lemma_sort_frame_multiset(nv.children);
                        lemma_size_list_multiset(sort_frame(nv.children), nv.children);
                        assert(ordered_leaves(nv) == flat_leaves(sort_frame(nv.children)));
                        assert(stack_views(stack@) =~= st0.push(views_of(sorted@)));
                        assert(stack_views(stack@).drop_last() =~= st0);
                        assert(stack_leaves(stack_views(stack@)) == flat_leaves(
                            views_of(sorted@),
                        ) + stack_leaves(st0));
                        assert(stack_size(stack_views(stack@)) == size_list(views_of(sorted@))
                            + stack_size(st0));
                        assert(views_of(windows@) + opt_leaves(cur) + stack_leaves(
                            stack_views(stack@),
                        ) =~= ordered_leaves(rootv));
                    }
                }
            },
            None => {
                let ghost st0 = stack_views(stack@);
                let mut f = stack.pop().unwrap();
                let ghost fv = views_of(f@);
                proof {
                    assert(stack_views(stack@) =~= st0.drop_last());
                    assert(fv == st0.last());
                }
                if f.len() == 0 {
                    proof {
                        assert(flat_leaves(fv) =~= Seq::<NodeView>::empty());
                        assert(views_of(windows@) + opt_leaves(cur) + stack_leaves(
                            stack_views(stack@),
                        ) =~= ordered_leaves(rootv));
                    }
                } else {
                    cur = f.pop();
                    let ghost st1 = stack_views(stack@);
                    stack.push(f);
                    proof {
                        lemma_size_list_snoc(fv);
                        assert(views_of(f@) =~= fv.drop_last());
                        assert(opt_leaves(cur) == ordered_leaves(fv.last()));
                        assert(stack_views(stack@) =~= st1.push(views_of(f@)));
                        assert(stack_views(stack@).drop_last() =~= st1);
                        assert(stack_leaves(stack_views(stack@)) == flat_leaves(fv.drop_last())
                            + stack_leaves(st1));
                        assert(flat_leaves(fv) == ordered_leaves(fv.last()) + flat_leaves(
                            fv.drop_last(),
                        ));
                        assert(stack_size(stack_views(stack@)) == size_list(fv.drop_last())
                            + stack_size(st1));
                        assert(stack_weight(stack_views(stack@)) == fv.drop_last().len() + 1
                            + stack_weight(st1));
                        assert(views_of(windows@) + opt_leaves(cur) + stack_leaves(
                            stack_views(stack@),
                        ) =~= ordered_leaves(rootv));
                    }
                }
            },
        }
    }
    proof {
        assert(views_of(windows@) =~= ordered_leaves(rootv));
    }
    windows
}

} // verus!
