//! Paint order: every node of the tree before its children, the children of
//! a node in their order, so that what comes later is drawn on top.

use vstd::prelude::*;
use crate::geometry::{Point, Rect};
use crate::graph::{child_is_younger, is_live, root_in_tree, well_formed, Graph, Node, ROOT};
use crate::widget::Id;

verus! {

/// `rect`, which is given relative to `origin`, in the coordinates that
/// `origin` is given in.
pub open spec fn absolute(rect: Rect, origin: Point) -> Rect {
    Rect { origin: rect.origin.shifted(origin), size: rect.size }
}

/// `node` and everything below it in paint order, each with its rectangle in
/// the coordinates of the window. `origin` is the corner of the parent of
/// `node` in those coordinates.
pub open spec fn subtree_order(nodes: Seq<Node>, geom: Seq<Rect>, node: Id, origin: Point) -> Seq<
    (Id, Rect),
>
    decreases nodes.len() - node, nodes[node as int].children.len() + 1,
{
    let rect = absolute(geom[node as int], origin);
    seq![(node, rect)] + children_order(
        nodes,
        geom,
        node,
        rect.origin,
        nodes[node as int].children.len(),
    )
}

/// The first `k` children of `node`, and everything below them, in paint
/// order. `origin` is the corner of `node` in the coordinates of the window.
pub open spec fn children_order(
    nodes: Seq<Node>,
    geom: Seq<Rect>,
    node: Id,
    origin: Point,
    k: nat,
) -> Seq<(Id, Rect)>
    decreases nodes.len() - node, k,
{
    if k == 0 || k > nodes[node as int].children.len() {
        Seq::empty()
    } else {
        let child = nodes[node as int].children[k - 1];
        children_order(nodes, geom, node, origin, (k - 1) as nat) + if node < child < nodes.len() {
            subtree_order(nodes, geom, child, origin)
        } else {
            Seq::empty()
        }
    }
}

/// The whole tree in paint order.
pub open spec fn paint_order(nodes: Seq<Node>, geom: Seq<Rect>) -> Seq<(Id, Rect)> {
    subtree_order(nodes, geom, ROOT, Point { x: 0, y: 0 })
}

/// Everything in the paint order of a subtree of the tree is in the tree.
pub proof fn order_in_tree(nodes: Seq<Node>, geom: Seq<Rect>, node: Id, origin: Point)
    requires
        well_formed(nodes),
        is_live(nodes, node),
    ensures
        forall|i: int|
            0 <= i < subtree_order(nodes, geom, node, origin).len() ==> is_live(
                nodes,
                (#[trigger] subtree_order(nodes, geom, node, origin)[i]).0,
            ),
    decreases nodes.len() - node, nodes[node as int].children.len() + 1,
{
    let rect = absolute(geom[node as int], origin);
    let below = children_order(nodes, geom, node, rect.origin, nodes[node as int].children.len());
    let all = subtree_order(nodes, geom, node, origin);
    children_in_tree(nodes, geom, node, rect.origin, nodes[node as int].children.len());
    assert forall|i: int| 0 <= i < all.len() implies is_live(nodes, (#[trigger] all[i]).0) by {
        if i > 0 {
            assert(all[i] == below[i - 1]);
        }
    }
}

/// Everything in the paint order of the children of a node of the tree is in
/// the tree.
pub proof fn children_in_tree(
    nodes: Seq<Node>,
    geom: Seq<Rect>,
    node: Id,
    origin: Point,
    k: nat,
)
    requires
        well_formed(nodes),
        is_live(nodes, node),
    ensures
        forall|i: int|
            0 <= i < children_order(nodes, geom, node, origin, k).len() ==> is_live(
                nodes,
                (#[trigger] children_order(nodes, geom, node, origin, k)[i]).0,
            ),
    decreases nodes.len() - node, k,
{
    if !(k == 0 || k > nodes[node as int].children.len()) {
        let child = nodes[node as int].children[k - 1];
        assert(nodes[node as int].children.contains(child));
        child_is_younger(nodes, node, child);
        children_in_tree(nodes, geom, node, origin, (k - 1) as nat);
        order_in_tree(nodes, geom, child, origin);
        let first = children_order(nodes, geom, node, origin, (k - 1) as nat);
        let second = subtree_order(nodes, geom, child, origin);
        let all = children_order(nodes, geom, node, origin, k);
        assert forall|i: int| 0 <= i < all.len() implies is_live(nodes, (#[trigger] all[i]).0) by {
            if i < first.len() {
                assert(all[i] == first[i]);
            } else {
                assert(all[i] == second[i - first.len()]);
            }
        }
    }
}

/// Append `node` and everything below it to `out`, in paint order.
pub fn append_subtree(
    graph: &Graph,
    geom: &Vec<Rect>,
    node: Id,
    origin: Point,
    out: &mut Vec<(Id, Rect)>,
)
    requires
        graph.wf(),
        geom@.len() == graph@.len(),
        node < graph@.len(),
    ensures
        final(out)@ == old(out)@ + subtree_order(graph@, geom@, node, origin),
    decreases graph@.len() - node,
{
    let rect = Rect { origin: geom[node].origin.offset(origin), size: geom[node].size };
    out.push((node, rect));
    let children = graph.children(node);
    let mut k: usize = 0;
    while k < children.len()
        invariant
            k <= children@.len(),
            children@ == graph@[node as int].children,
            graph.wf(),
            geom@.len() == graph@.len(),
            node < graph@.len(),
            rect == absolute(geom@[node as int], origin),
            out@ =~= old(out)@ + seq![(node, rect)] + children_order(
                graph@,
                geom@,
                node,
                rect.origin,
                k as nat,
            ),
        decreases children@.len() - k,
    {
        let child = children[k];
        proof {
            assert(graph@[node as int].children.contains(child));
            child_is_younger(graph@, node, child);
        }
        append_subtree(graph, geom, child, rect.origin, out);
        k += 1;
    }
}

/// The whole tree in paint order, each node with its rectangle in the
/// coordinates of the window.
pub fn order(graph: &Graph, geom: &Vec<Rect>) -> (out: Vec<(Id, Rect)>)
    requires
        graph.wf(),
        geom@.len() == graph@.len(),
    ensures
        out@ == paint_order(graph@, geom@),
{
    let mut out: Vec<(Id, Rect)> = Vec::new();
    proof {
        root_in_tree(graph@);
    }
    append_subtree(graph, geom, ROOT, Point::origin(), &mut out);
    out
}

} // verus!
