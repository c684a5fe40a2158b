use vstd::prelude::*;

verus! {

/// How a container arranges its children.
#[derive(Clone, Copy, Debug, PartialEq, Eq, Structural)]
pub enum NodeLayout {
    SplitH,
    SplitV,
    Stacked,
    Tabbed,
    Dockarea,
    Output,
}

/// What kind of element of the window tree a node is.
#[derive(Clone, Copy, Debug, PartialEq, Eq, Structural)]
pub enum NodeType {
    Root,
    Output,
    Con,
    FloatingCon,
    Workspace,
    Dockarea,
}

/// Geometry of a node, in pixels.
#[derive(Clone, Copy, Debug, PartialEq, Eq, Structural)]
pub struct Rect {
    pub x: isize,
    pub y: isize,
    pub width: isize,
    pub height: isize,
}

/// One element of a layout snapshot, with its children in order.
#[derive(Debug)]
pub struct Node {
    pub id: usize,
    pub node_type: NodeType,
    pub layout: NodeLayout,
    pub rect: Rect,
    pub nodes: Vec<Node>,
}

/// `r` refers to the node that `m` holds, or both are empty.
pub open spec fn same_node(r: Option<&Node>, m: Option<Node>) -> bool {
    match r {
        Some(p) => m == Some(*p),
        None => m is None,
    }
}

/// The parent of `x` as a depth-first, pre-order search finds it: the children
/// of a node are tested for `x` before the search descends into them.
pub open spec fn parent_spec(n: Node, x: usize) -> Option<Node>
    decreases n, n.nodes.len() + 1,
{
    if n.id == x {
        None
    } else {
        parent_from(n, x, 0)
    }
}

/// The search of `parent_spec` over the children of `n` from index `i` on.
pub open spec fn parent_from(n: Node, x: usize, i: int) -> Option<Node>
    decreases n, n.nodes.len() - i,
{
    if i < 0 || i >= n.nodes.len() {
        None
    } else if n.nodes[i].id == x {
        Some(n)
    } else {
        match parent_spec(n.nodes[i], x) {
            Some(p) => Some(p),
            None => parent_from(n, x, i + 1),
        }
    }
}

/// The node among whose children `window_id` stands, found by a depth-first,
/// pre-order search from `parent`; `None` where `window_id` is `parent` itself
/// or stands nowhere below it.
pub fn find_parent(parent: &Node, window_id: usize) -> (r: Option<&Node>)
    ensures
        same_node(r, parent_spec(*parent, window_id)),
    decreases parent, parent.nodes.len() + 1,
{
    if parent.id == window_id {
        return None;
    }
    let mut i: usize = 0;
    while i < parent.nodes.len()
        invariant
            0 <= i <= parent.nodes.len(),
            parent.id != window_id,
            parent_spec(*parent, window_id) == parent_from(*parent, window_id, i as int),
        decreases parent.nodes.len() - i,
    {
        let child = &parent.nodes[i];
        if child.id == window_id {
            return Some(parent);
        }
        match find_parent(child, window_id) {
            Some(p) => {
                return Some(p);
            },
            None => {},
        }
        i = i + 1;
    }
    None
}

/// The first child of `p`, from index `i` on, whose id is not `x`.
pub open spec fn other_child_from(p: Node, x: usize, i: int) -> Option<Node>
    decreases p.nodes.len() - i,
{
    if i < 0 || i >= p.nodes.len() {
        None
    } else if p.nodes[i].id != x {
        Some(p.nodes[i])
    } else {
        other_child_from(p, x, i + 1)
    }
}

/// The sibling of `x`: the first child of its parent whose id is not `x`.
pub open spec fn sibling_spec(root: Node, x: usize) -> Option<Node> {
    match parent_spec(root, x) {
        Some(p) => other_child_from(p, x, 0),
        None => None,
    }
}

/// The first child other than `window_id` of the parent of `window_id`. With
/// two children that is the other one; with more, callers should not count
/// on which one it is.
pub fn find_sibling(node: &Node, window_id: usize) -> (r: Option<&Node>)
    ensures
        same_node(r, sibling_spec(*node, window_id)),
{
    match find_parent(node, window_id) {
        Some(parent) => {
            let mut i: usize = 0;
            while i < parent.nodes.len()
                invariant
                    0 <= i <= parent.nodes.len(),
                    sibling_spec(*node, window_id) == other_child_from(*parent, window_id, i as int),
                decreases parent.nodes.len() - i,
            {
                if parent.nodes[i].id != window_id {
                    return Some(&parent.nodes[i]);
                }
                i = i + 1;
            }
            None
        },
        None => None,
    }
}

/// A horizontal-split workspace with `children` children.
pub open spec fn splith_workspace_shape(n: Node, children: usize) -> bool {
    &&& n.layout == NodeLayout::SplitH
    &&& n.node_type == NodeType::Workspace
    &&& n.nodes.len() == children
}

/// Whether `n` is a horizontal-split workspace with `children` children.
pub fn is_splith_workspace(n: &Node, children: usize) -> (r: bool)
    ensures
        r == splith_workspace_shape(*n, children),
{
    n.layout == NodeLayout::SplitH && n.node_type == NodeType::Workspace && n.nodes.len()
        == children
}

/// Walks from `n` towards a node whose id is `x`, carrying a flag: `flag` at `n`,
/// and below each node whether that node is a horizontal-split workspace with
/// `children` children. The value is the flag carried to a node with id `x`.
pub open spec fn ancestor_holds(n: Node, x: usize, flag: bool, children: usize) -> bool
    decreases n, n.nodes.len() + 1,
{
    if n.id == x {
        flag
    } else {
        ancestor_from(n, x, children, 0)
    }
}

/// Whether `ancestor_holds` is true below some child of `n` from index `i` on.
pub open spec fn ancestor_from(n: Node, x: usize, children: usize, i: int) -> bool
    decreases n, n.nodes.len() - i,
{
    if i < 0 || i >= n.nodes.len() {
        false
    } else {
        ancestor_holds(n.nodes[i], x, splith_workspace_shape(n, children), children)
            || ancestor_from(n, x, children, i + 1)
    }
}

/// Whether the node `window_id` hangs directly below a horizontal-split
/// workspace with `children` children; where `window_id` is `node` itself,
/// the answer is `seed`.
pub fn has_splith_workspace_parent(
    node: &Node,
    window_id: usize,
    seed: bool,
    children: usize,
) -> (r: bool)
    ensures
        r == ancestor_holds(*node, window_id, seed, children),
    decreases node, node.nodes.len() + 1,
{
    if node.id == window_id {
        return seed;
    }
    let here = is_splith_workspace(node, children);
    let mut i: usize = 0;
    while i < node.nodes.len()
        invariant
            0 <= i <= node.nodes.len(),
            node.id != window_id,
            here == splith_workspace_shape(*node, children),
            ancestor_holds(*node, window_id, seed, children) == ancestor_from(
                *node,
                window_id,
                children,
                i as int,
            ),
        decreases node.nodes.len() - i,
    {
        if has_splith_workspace_parent(&node.nodes[i], window_id, here, children) {
            return true;
        }
        i = i + 1;
    }
    false
}

/// The split direction that suits a rectangle: horizontal when it is wider
/// than tall, else vertical.
pub fn split_rect(r: Rect) -> (s: &'static str)
    ensures
        r.width > r.height ==> s@ == "split h"@,
        r.width <= r.height ==> s@ == "split v"@,
{
    if r.width > r.height {
        "split h"
    } else {
        "split v"
    }
}

/// The node reached from `n` by following the child indices in `path`.
pub open spec fn node_at(n: Node, path: Seq<int>) -> Option<Node>
    decreases path.len(),
{
    if path.len() == 0 {
        Some(n)
    } else if 0 <= path[0] < n.nodes.len() {
        node_at(n.nodes[path[0]], path.drop_first())
    } else {
        None
    }
}

/// Some node of the tree under `n`, `n` included, has id `x`.
pub open spec fn has_id(n: Node, x: usize) -> bool {
    exists|path: Seq<int>|
        #[trigger] node_at(n, path) matches Some(m) && m.id == x
}

/// No two positions in the tree under `n` hold the same id.
pub open spec fn unique_ids(n: Node) -> bool {
    forall|p1: Seq<int>, p2: Seq<int>|
        #![trigger node_at(n, p1), node_at(n, p2)]
        node_at(n, p1) is Some && node_at(n, p2) is Some
            && node_at(n, p1).unwrap().id == node_at(n, p2).unwrap().id ==> p1 == p2
}

/// `p` stands at `path` in the tree under `root`, and its child at index `i` has id `x`.
pub open spec fn parent_at(root: Node, path: Seq<int>, p: Node, i: int, x: usize) -> bool {
    &&& node_at(root, path) == Some(p)
    &&& 0 <= i < p.nodes.len()
    &&& p.nodes[i].id == x
}

/// Following one more child index from a node leads to that child.
pub proof fn lemma_node_at_push(n: Node, path: Seq<int>, i: int)
    requires
        node_at(n, path) is Some,
        0 <= i < node_at(n, path).unwrap().nodes.len(),
    ensures
        node_at(n, path.push(i)) == Some(node_at(n, path).unwrap().nodes[i]),
    decreases path.len(),
{
    if path.len() > 0 {
        assert(path.push(i)[0] == path[0]);
        assert(path.push(i).drop_first() =~= path.drop_first().push(i));
        lemma_node_at_push(n.nodes[path[0]], path.drop_first(), i);
    } else {
        assert(path.push(i).drop_first() =~= path);
        assert(node_at(n.nodes[i], path) == Some(n.nodes[i]));
    }
}

proof fn lemma_node_at_prepend(n: Node, k: int, path: Seq<int>)
    requires
        0 <= k < n.nodes.len(),
    ensures
        node_at(n, seq![k] + path) == node_at(n.nodes[k], path),
{
    assert((seq![k] + path).drop_first() =~= path);
}

/// Where the search finds a parent, the parent stands somewhere in the tree
/// with a child of id `x`; the result gives its path and the child's index.
proof fn lemma_parent_found(n: Node, x: usize) -> (w: (Seq<int>, int))
    requires
        parent_spec(n, x) is Some,
    ensures
        parent_at(n, w.0, parent_spec(n, x).unwrap(), w.1, x),
    decreases n, n.nodes.len() + 1,
{
    lemma_parent_from_found(n, x, 0)
}

proof fn lemma_parent_from_found(n: Node, x: usize, i: int) -> (w: (Seq<int>, int))
    requires
        parent_from(n, x, i) is Some,
    ensures
        parent_at(n, w.0, parent_from(n, x, i).unwrap(), w.1, x),
    decreases n, n.nodes.len() - i,
{
    if n.nodes[i].id == x {
        (Seq::empty(), i)
    } else if parent_spec(n.nodes[i], x) is Some {
        let (path, j) = lemma_parent_found(n.nodes[i], x);
        lemma_node_at_prepend(n, i, path);
        (seq![i] + path, j)
    } else {
        lemma_parent_from_found(n, x, i + 1)
    }
}

proof fn lemma_parent_from_reaches(n: Node, x: usize, j: int, k: int)
    requires
        0 <= j <= k < n.nodes.len(),
        n.nodes[k].id == x || parent_spec(n.nodes[k], x) is Some,
    ensures
        parent_from(n, x, j) is Some,
    decreases k - j,
{
    if j < k && !(n.nodes[j].id == x || parent_spec(n.nodes[j], x) is Some) {
        lemma_parent_from_reaches(n, x, j + 1, k);
    }
}

/// A node that stands in the tree with a child of id `x` is found by the
/// search, unless `x` is the id of the root itself.
proof fn lemma_parent_complete(n: Node, path: Seq<int>, p: Node, i: int, x: usize)
    requires
        parent_at(n, path, p, i, x),
        n.id != x,
    ensures
        parent_spec(n, x) is Some,
    decreases path.len(),
{
    if path.len() == 0 {
        lemma_parent_from_reaches(n, x, 0, i);
    } else {
        let k = path[0];
        let c = n.nodes[k];
        if c.id != x {
            lemma_parent_complete(c, path.drop_first(), p, i, x);
        }
        lemma_parent_from_reaches(n, x, 0, k);
    }
}

/// What the search for a parent means in any tree: a node it finds stands in
/// the tree with a child of id `x`; where it finds none, `x` is the root's id
/// or no node in the tree has a child of id `x`.
pub proof fn lemma_parent_search_meaning(t: Node, x: usize)
    ensures
        parent_spec(t, x) matches Some(p) ==> exists|path: Seq<int>, i: int|
            #[trigger] parent_at(t, path, p, i, x),
        parent_spec(t, x) is None ==> t.id == x || forall|path: Seq<int>, p: Node, i: int|
            !#[trigger] parent_at(t, path, p, i, x),
{
    if parent_spec(t, x) is Some {
        let (path, i) = lemma_parent_found(t, x);
        assert(parent_at(t, path, parent_spec(t, x).unwrap(), i, x));
    } else if t.id != x {
        assert forall|path: Seq<int>, p: Node, i: int| !#[trigger] parent_at(t, path, p, i, x) by {
            if parent_at(t, path, p, i, x) {
                lemma_parent_complete(t, path, p, i, x);
            }
        }
    }
}

/// An id that stands nowhere in a tree has neither a parent nor a sibling in it.
pub proof fn lemma_absent_id_has_no_relatives(t: Node, x: usize)
    requires
        !has_id(t, x),
    ensures
        parent_spec(t, x) is None,
        sibling_spec(t, x) is None,
{
    if parent_spec(t, x) is Some {
        let (path, i) = lemma_parent_found(t, x);
        lemma_node_at_push(t, path, i);
        assert(node_at(t, path.push(i)) matches Some(m) && m.id == x);
    }
}

/// In a tree with unique ids, where `p` has a child of id `x`, the search
/// for the parent of `x` finds `p`, wherever else it looks first.
pub proof fn lemma_parent_is_unique(t: Node, path: Seq<int>, p: Node, i: int, x: usize)
    requires
        unique_ids(t),
        parent_at(t, path, p, i, x),
    ensures
        parent_spec(t, x) == Some(p),
{
    lemma_node_at_push(t, path, i);
    assert(node_at(t, Seq::empty()) == Some(t));
    if t.id == x {
        assert(path.push(i) == Seq::<int>::empty());
        assert(path.push(i).len() == 0);
    }
    lemma_parent_complete(t, path, p, i, x);
    let (path2, j) = lemma_parent_found(t, x);
    let q = parent_spec(t, x).unwrap();
    lemma_node_at_push(t, path2, j);
    assert(path2.push(j) == path.push(i));
    assert(path2 =~= path2.push(j).drop_last());
    assert(path =~= path.push(i).drop_last());
}

/// In a tree with unique ids, the two children of a node with exactly two
/// children are each other's sibling.
pub proof fn lemma_two_children_are_siblings(t: Node, path: Seq<int>, p: Node)
    requires
        unique_ids(t),
        node_at(t, path) == Some(p),
        p.nodes.len() == 2,
    ensures
        sibling_spec(t, p.nodes[0].id) == Some(p.nodes[1]),
        sibling_spec(t, p.nodes[1].id) == Some(p.nodes[0]),
{
    lemma_parent_is_unique(t, path, p, 0, p.nodes[0].id);
    lemma_parent_is_unique(t, path, p, 1, p.nodes[1].id);
    lemma_node_at_push(t, path, 0);
    lemma_node_at_push(t, path, 1);
    assert(path.push(0)[path.len() as int] != path.push(1)[path.len() as int]);
    assert(p.nodes[0].id != p.nodes[1].id);
    assert(other_child_from(p, p.nodes[0].id, 1) == Some(p.nodes[1]));
    assert(other_child_from(p, p.nodes[1].id, 0) == Some(p.nodes[0]));
}

proof fn lemma_unique_below(n: Node, k: int)
    requires
        unique_ids(n),
        0 <= k < n.nodes.len(),
    ensures
        unique_ids(n.nodes[k]),
{
    assert forall|p1: Seq<int>, p2: Seq<int>|
        #![trigger node_at(n.nodes[k], p1), node_at(n.nodes[k], p2)]
        node_at(n.nodes[k], p1) is Some && node_at(n.nodes[k], p2) is Some
            && node_at(n.nodes[k], p1).unwrap().id == node_at(n.nodes[k], p2).unwrap().id
        implies p1 == p2 by {
        lemma_node_at_prepend(n, k, p1);
        lemma_node_at_prepend(n, k, p2);
        assert(node_at(n, seq![k] + p1) is Some);
        assert(node_at(n, seq![k] + p2) is Some);
        assert(seq![k] + p1 == seq![k] + p2);
        assert(p1 =~= (seq![k] + p1).drop_first());
        assert(p2 =~= (seq![k] + p2).drop_first());
    }
}

proof fn lemma_absent_below(n: Node, k: int, x: usize)
    requires
        !has_id(n, x),
        0 <= k < n.nodes.len(),
    ensures
        !has_id(n.nodes[k], x),
{
    if has_id(n.nodes[k], x) {
        let q = choose|q: Seq<int>| #[trigger] node_at(n.nodes[k], q) matches Some(m) && m.id == x;
        lemma_node_at_prepend(n, k, q);
        assert(node_at(n, seq![k] + q) matches Some(m) && m.id == x);
    }
}

proof fn lemma_absent_not_ancestor(m: Node, x: usize, flag: bool, c: usize)
    requires
        !has_id(m, x),
    ensures
        !ancestor_holds(m, x, flag, c),
    decreases m, m.nodes.len() + 1,
{
    assert(node_at(m, Seq::empty()) == Some(m));
    lemma_absent_not_ancestor_from(m, x, c, 0);
}

proof fn lemma_absent_not_ancestor_from(m: Node, x: usize, c: usize, i: int)
    requires
        !has_id(m, x),
    ensures
        !ancestor_from(m, x, c, i),
    decreases m, m.nodes.len() - i,
{
    if 0 <= i < m.nodes.len() {
        lemma_absent_below(m, i, x);
        lemma_absent_not_ancestor(m.nodes[i], x, splith_workspace_shape(m, c), c);
        lemma_absent_not_ancestor_from(m, x, c, i + 1);
    }
}

/// Where only child `k` of `n` may hold `x`, the search over the children
/// from `i` on gives what child `k` gives.
proof fn lemma_ancestor_from_single(n: Node, x: usize, c: usize, i: int, k: int)
    requires
        0 <= i,
        0 <= k < n.nodes.len(),
        forall|j: int| 0 <= j < n.nodes.len() && j != k ==> !has_id(#[trigger] n.nodes[j], x),
    ensures
        ancestor_from(n, x, c, i) == (i <= k && ancestor_holds(
            n.nodes[k],
            x,
            splith_workspace_shape(n, c),
            c,
        )),
    decreases n.nodes.len() - i,
{
    if i < n.nodes.len() {
        if i != k {
            lemma_absent_not_ancestor(n.nodes[i], x, splith_workspace_shape(n, c), c);
        }
        lemma_ancestor_from_single(n, x, c, i + 1, k);
    }
}

/// In a tree with unique ids, the ancestor predicate on a window that is not
/// the root says whether the window's parent is a horizontal-split workspace
/// with `c` children, whatever flag the walk starts with.
pub proof fn lemma_ancestor_is_parent_shape(
    t: Node,
    path: Seq<int>,
    p: Node,
    i: int,
    x: usize,
    flag: bool,
    c: usize,
)
    requires
        unique_ids(t),
        parent_at(t, path, p, i, x),
    ensures
        ancestor_holds(t, x, flag, c) == splith_workspace_shape(p, c),
    decreases path.len(),
{
    lemma_node_at_push(t, path, i);
    assert(node_at(t, Seq::empty()) == Some(t));
    if t.id == x {
        assert(path.push(i).len() == 0);
    }
    let k = if path.len() == 0 { i } else { path[0] };
    assert forall|j: int| 0 <= j < t.nodes.len() && j != k implies !has_id(
        #[trigger] t.nodes[j],
        x,
    ) by {
        if has_id(t.nodes[j], x) {
            let q = choose|q: Seq<int>|
                #[trigger] node_at(t.nodes[j], q) matches Some(m) && m.id == x;
            lemma_node_at_prepend(t, j, q);
            assert(seq![j] + q == path.push(i));
            assert((seq![j] + q)[0] == j);
        }
    }
    lemma_ancestor_from_single(t, x, c, 0, k);
    if path.len() > 0 {
        let ck = t.nodes[k];
        lemma_unique_below(t, k);
        assert(node_at(ck, path.drop_first()) == Some(p));
        if ck.id == x {
            lemma_node_at_prepend(t, k, Seq::empty());
            assert(node_at(ck, Seq::empty()) == Some(ck));
            assert(seq![k] + Seq::<int>::empty() == path.push(i));
            assert((seq![k] + Seq::<int>::empty()).len() == 1);
        }
        lemma_ancestor_is_parent_shape(ck, path.drop_first(), p, i, x, splith_workspace_shape(t, c), c);
    }
}

} // verus!
