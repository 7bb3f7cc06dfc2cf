//! The window-tree model: raw snapshot nodes as the compositor reports them,
//! reduced nodes as the navigator consumes them, and the mathematical views
//! of both.

use vstd::prelude::*;
use crate::geometry::Coord;

verus! {

/// The structural kind of a raw tree node.
#[derive(Debug, Clone, Copy, PartialEq, Eq, Structural)]
pub enum NodeKind {
    Root,
    Output,
    Workspace,
    Con,
    FloatingCon,
    Dockarea,
}

/// One node of the compositor's tree snapshot, restricted to the plain
/// fields that navigation reads.
#[derive(Debug)]
pub struct RawNode {
    pub id: i64,
    pub name: Option<String>,
    pub kind: NodeKind,
    pub focused: bool,
    /// Content-area x position.
    pub rect_x: i32,
    /// Content-area y position.
    pub rect_y: i32,
    /// Decoration (title bar) x position.
    pub deco_x: i32,
    /// Decoration (title bar) y position.
    pub deco_y: i32,
    /// Child ids in focus order; the first entry is the focused child.
    pub focus: Vec<i64>,
    /// Tiled children.
    pub nodes: Vec<RawNode>,
    /// Floating children.
    pub floating_nodes: Vec<RawNode>,
}

/// Mathematical view of a [`RawNode`].
pub struct RawView {
    pub id: i64,
    pub name: Option<Seq<char>>,
    pub kind: NodeKind,
    pub focused: bool,
    pub rect_x: i32,
    pub rect_y: i32,
    pub deco_x: i32,
    pub deco_y: i32,
    pub focus: Seq<i64>,
    pub nodes: Seq<RawView>,
    pub floating_nodes: Seq<RawView>,
}

pub open spec fn raw_view(r: RawNode) -> RawView
    decreases r, 1int, 0int,
{
    RawView {
        id: r.id,
        name: r.name.deep_view(),
        kind: r.kind,
        focused: r.focused,
        rect_x: r.rect_x,
        rect_y: r.rect_y,
        deco_x: r.deco_x,
        deco_y: r.deco_y,
        focus: r.focus@,
        nodes: raw_tiled_view(r, r.nodes@.len() as int),
        floating_nodes: raw_floating_view(r, r.floating_nodes@.len() as int),
    }
}

/// Views of the first `j` tiled children of `r`.
pub open spec fn raw_tiled_view(r: RawNode, j: int) -> Seq<RawView>
    decreases r, 0int, j,
{
    if j <= 0 || j > r.nodes@.len() {
        Seq::empty()
    } else {
        raw_tiled_view(r, j - 1).push(raw_view(r.nodes@[j - 1]))
    }
}

/// Views of the first `j` floating children of `r`.
pub open spec fn raw_floating_view(r: RawNode, j: int) -> Seq<RawView>
    decreases r, 0int, j,
{
    if j <= 0 || j > r.floating_nodes@.len() {
        Seq::empty()
    } else {
        raw_floating_view(r, j - 1).push(raw_view(r.floating_nodes@[j - 1]))
    }
}

impl View for RawNode {
    type V = RawView;

    open spec fn view(&self) -> RawView {
        raw_view(*self)
    }
}

proof fn lemma_raw_tiled_view_j(r: RawNode, j: int)
    requires
        0 <= j <= r.nodes@.len(),
    ensures
        raw_tiled_view(r, j).len() == j,
        forall|i: int| 0 <= i < j ==> raw_tiled_view(r, j)[i] == raw_view(r.nodes@[i]),
    decreases j,
{
    if j > 0 {
        lemma_raw_tiled_view_j(r, j - 1);
    }
}

proof fn lemma_raw_floating_view_j(r: RawNode, j: int)
    requires
        0 <= j <= r.floating_nodes@.len(),
    ensures
        raw_floating_view(r, j).len() == j,
        forall|i: int| 0 <= i < j ==> raw_floating_view(r, j)[i] == raw_view(r.floating_nodes@[i]),
    decreases j,
{
    if j > 0 {
        lemma_raw_floating_view_j(r, j - 1);
    }
}

/// The view of a raw node lists the view of each child, in order.
pub proof fn lemma_raw_view_children(r: RawNode)
    ensures
        r@.nodes.len() == r.nodes@.len(),
        forall|i: int| 0 <= i < r.nodes@.len() ==> r@.nodes[i] == r.nodes@[i]@,
        r@.floating_nodes.len() == r.floating_nodes@.len(),
        forall|i: int|
            0 <= i < r.floating_nodes@.len() ==> r@.floating_nodes[i] == r.floating_nodes@[i]@,
{
    lemma_raw_tiled_view_j(r, r.nodes@.len() as int);
    lemma_raw_floating_view_j(r, r.floating_nodes@.len() as int);
}

/// A reduced tree node: exactly the information the traversal needs. A node
/// with no children is a leaf (a window); a node with children is a branch
/// (a container).
#[derive(Debug)]
pub struct Node {
    pub id: i64,
    pub name: Option<String>,
    pub focused: bool,
    /// Effective content position (branch positions are corrected for the
    /// decoration offset, see [`reduce`]).
    pub coords: Coord,
    /// Raw decoration position, used only to break ties.
    pub deco_coords: Coord,
    /// Tiled and floating children, merged into one list.
    pub nodes: Vec<Node>,
}

/// Mathematical view of a [`Node`].
pub struct NodeView {
    pub id: i64,
    pub name: Option<Seq<char>>,
    pub focused: bool,
    pub coords: Coord,
    pub deco_coords: Coord,
    pub children: Seq<NodeView>,
}

impl NodeView {
    pub open spec fn is_leaf(self) -> bool {
        self.children.len() == 0
    }
}

pub open spec fn node_view(n: Node) -> NodeView
    decreases n, 1int, 0int,
{
    NodeView {
        id: n.id,
        name: n.name.deep_view(),
        focused: n.focused,
        coords: n.coords,
        deco_coords: n.deco_coords,
        children: node_children_view(n, n.nodes@.len() as int),
    }
}

/// Views of the first `j` children of `n`.
pub open spec fn node_children_view(n: Node, j: int) -> Seq<NodeView>
    decreases n, 0int, j,
{
    if j <= 0 || j > n.nodes@.len() {
        Seq::empty()
    } else {
        node_children_view(n, j - 1).push(node_view(n.nodes@[j - 1]))
    }
}

impl View for Node {
    type V = NodeView;

    open spec fn view(&self) -> NodeView {
        node_view(*self)
    }
}

proof fn lemma_node_children_view_j(n: Node, j: int)
    requires
        0 <= j <= n.nodes@.len(),
    ensures
        node_children_view(n, j).len() == j,
        forall|i: int| 0 <= i < j ==> node_children_view(n, j)[i] == n.nodes@[i]@,
    decreases j,
{
    if j > 0 {
        lemma_node_children_view_j(n, j - 1);
    }
}

/// The view of a node lists the view of each child, in order.
pub proof fn lemma_node_view_children(n: Node)
    ensures
        n@.children.len() == n.nodes@.len(),
        forall|i: int| 0 <= i < n.nodes@.len() ==> n@.children[i] == n.nodes@[i]@,
{
    lemma_node_children_view_j(n, n.nodes@.len() as int);
}

impl Node {
    /// A node with no children is a leaf window.
    pub fn is_leaf(&self) -> (b: bool)
        ensures
            b == self@.is_leaf(),
    {
        proof {
            lemma_node_view_children(*self);
        }
        self.nodes.len() == 0
    }
}

/// Views of each node in a list, in order.
pub open spec fn views_of(s: Seq<Node>) -> Seq<NodeView> {
    s.map_values(|n: Node| node_view(n))
}

/// Reduction of a raw snapshot node to the navigated form: the tiled and
/// floating children are merged into one list, and for a branch the content
/// y position is corrected by subtracting the decoration y offset, which the
/// compositor folds into the reported content rectangle of containers. A
/// node with no tiled children counts as a window here, exactly as the
/// snapshot reports it.
pub open spec fn reduce(r: RawView) -> NodeView
    decreases r, 1int, 0int,
{
    NodeView {
        id: r.id,
        name: r.name,
        focused: r.focused,
        coords: Coord {
            x: r.rect_x as i64,
            y: if r.nodes.len() == 0 {
                r.rect_y as i64
            } else {
                (r.rect_y - r.deco_y) as i64
            },
        },
        deco_coords: Coord { x: r.deco_x as i64, y: r.deco_y as i64 },
        children: reduce_tiled(r, r.nodes.len() as int) + reduce_floating(
            r,
            r.floating_nodes.len() as int,
        ),
    }
}

/// Reductions of the first `j` tiled children of `r`.
pub open spec fn reduce_tiled(r: RawView, j: int) -> Seq<NodeView>
    decreases r, 0int, j,
{
    if j <= 0 || j > r.nodes.len() {
        Seq::empty()
    } else {
        reduce_tiled(r, j - 1).push(reduce(r.nodes[j - 1]))
    }
}

/// Reductions of the first `j` floating children of `r`.
pub open spec fn reduce_floating(r: RawView, j: int) -> Seq<NodeView>
    decreases r, 0int, j,
{
    if j <= 0 || j > r.floating_nodes.len() {
        Seq::empty()
    } else {
        reduce_floating(r, j - 1).push(reduce(r.floating_nodes[j - 1]))
    }
}

proof fn lemma_reduce_tiled_j(r: RawView, j: int)
    requires
        0 <= j <= r.nodes.len(),
    ensures
        reduce_tiled(r, j).len() == j,
        forall|i: int| 0 <= i < j ==> reduce_tiled(r, j)[i] == reduce(r.nodes[i]),
    decreases j,
{
    if j > 0 {
        lemma_reduce_tiled_j(r, j - 1);
    }
}

proof fn lemma_reduce_floating_j(r: RawView, j: int)
    requires
        0 <= j <= r.floating_nodes.len(),
    ensures
        reduce_floating(r, j).len() == j,
        forall|i: int| 0 <= i < j ==> reduce_floating(r, j)[i] == reduce(r.floating_nodes[i]),
    decreases j,
{
    if j > 0 {
        lemma_reduce_floating_j(r, j - 1);
    }
}

/// The children of a reduced node are the reduced tiled children followed by
/// the reduced floating children.
pub proof fn lemma_reduce_children(r: RawView)
    ensures
        reduce(r).children.len() == r.nodes.len() + r.floating_nodes.len(),
        forall|i: int| 0 <= i < r.nodes.len() ==> reduce(r).children[i] == reduce(r.nodes[i]),
        forall|i: int|
            0 <= i < r.floating_nodes.len() ==> reduce(r).children[r.nodes.len() + i] == reduce(
                r.floating_nodes[i],
            ),
{
    lemma_reduce_tiled_j(r, r.nodes.len() as int);
    lemma_reduce_floating_j(r, r.floating_nodes.len() as int);
}

/// Project a raw snapshot node into the reduced form, applying the branch
/// decoration-offset correction and merging tiled and floating children, as
/// [`reduce`] describes.
#[verifier::loop_isolation(false)]
pub fn from_raw(r: RawNode) -> (n: Node)
    ensures
        n@ == reduce(r@),
    decreases r@,
{
    proof {
        lemma_raw_view_children(r);
        lemma_reduce_children(r@);
    }
    let ghost rv = r@;
    let RawNode {
        id,
        name,
        kind: _,
        focused,
        rect_x,
        rect_y,
        deco_x,
        deco_y,
        focus: _,
        nodes,
        floating_nodes,
    } = r;
    let ghost nodes0 = nodes@;
    let ghost float0 = floating_nodes@;
    let raw_leaf = nodes.len() == 0;
    let x: i64 = rect_x as i64;
    let y: i64 = if raw_leaf {
        rect_y as i64
    } else {
        rect_y as i64 - deco_y as i64
    };
    proof {
        assert(y == reduce(rv).coords.y);
    }
    let mut children: Vec<Node> = Vec::new();
    let mut rest = nodes;
    while rest.len() > 0
        invariant
            children@.len() + rest@.len() == nodes0.len(),
            forall|k: int| 0 <= k < rest@.len() ==> rest@[k] == nodes0[children@.len() + k],
            forall|k: int|
                0 <= k < children@.len() ==> #[trigger] children@[k]@ == reduce(rv.nodes[k]),
        decreases rest@.len(),
    {
        let ghost i = children@.len() as int;
        let c = rest.remove(0);
        proof {
            assert(c == nodes0[i]);
            assert(c@ == rv.nodes[i]);
            assert(decreases_to!(rv => rv.nodes));
            assert(decreases_to!(rv.nodes => rv.nodes[i]));
        }
        let child = from_raw(c);
        children.push(child);
    }
    let mut rest = floating_nodes;
    proof {
        assert(rest@.len() == rv.floating_nodes.len());
        assert(forall|k: int|
            0 <= k < rest@.len() ==> #[trigger] rest@[k]@ == rv.floating_nodes[rv.floating_nodes.len()
                - rest@.len() + k]);
    }
    while rest.len() > 0
        invariant
            rest@.len() <= rv.floating_nodes.len(),
            children@.len() == nodes0.len() + (rv.floating_nodes.len() - rest@.len()),
            forall|k: int|
                0 <= k < rest@.len() ==> #[trigger] rest@[k]@ == rv.floating_nodes[rv.floating_nodes.len()
                    - rest@.len() + k],
            forall|k: int|
                0 <= k < nodes0.len() ==> #[trigger] children@[k]@ == reduce(rv.nodes[k]),
            forall|k: int|
                nodes0.len() <= k < children@.len() ==> #[trigger] children@[k]@ == reduce(
                    rv.floating_nodes[k - nodes0.len()],
                ),
        decreases rest@.len(),
    {
        let ghost i = (rv.floating_nodes.len() - rest@.len()) as int;
        let c = rest.remove(0);
        proof {
            assert(c@ == rv.floating_nodes[i]);
            assert(decreases_to!(rv => rv.floating_nodes));
            assert(decreases_to!(rv.floating_nodes => rv.floating_nodes[i]));
        }
        let child = from_raw(c);
        children.push(child);
    }
    let node = Node {
        id,
        name,
        focused,
        coords: Coord { x, y },
        deco_coords: Coord { x: deco_x as i64, y: deco_y as i64 },
        nodes: children,
    };
    proof {
        lemma_node_view_children(node);
        assert(node@.children =~= reduce(rv).children);
        assert(node@ == reduce(rv));
    }
    node
}

} // verus!
