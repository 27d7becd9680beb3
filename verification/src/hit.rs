//! Hit testing: which nodes lie under a point.
//!
//! Every node has a rectangle in the coordinates of its parent. A point
//! reaches a child only through the parent's rectangle, and among the
//! children that cover it the last in paint order, which is drawn on top,
//! wins.

use vstd::prelude::*;
use crate::geometry::{Point, Rect};
use crate::graph::{
    child_is_younger, is_child, is_live, root_in_tree, well_formed, Graph, Node, ROOT,
};
use crate::widget::Id;

verus! {

/// The point `(x, y)` seen from the corner of `rect`.
pub open spec fn local_point(rect: Rect, x: int, y: int) -> Point {
    Point { x: (x - rect.origin.x) as i32, y: (y - rect.origin.y) as i32 }
}

/// Among the first `k` children of `node`, the last whose rectangle covers
/// `(x, y)`.
pub open spec fn child_at(
    nodes: Seq<Node>,
    geom: Seq<Rect>,
    node: Id,
    x: int,
    y: int,
    k: int,
) -> Option<Id>
    decreases k,
{
    if k <= 0 {
        None
    } else {
        let child = nodes[node as int].children[k - 1];
        if geom[child as int].covers(x, y) {
            Some(child)
        } else {
            child_at(nodes, geom, node, x, y, k - 1)
        }
    }
}

/// The nodes below `node` that lie under `(x, y)`, a point in the
/// coordinates of `node`: the child on top that covers it, then the same from
/// that child down. Each comes with the point in its own coordinates.
pub open spec fn path_below(nodes: Seq<Node>, geom: Seq<Rect>, node: Id, x: int, y: int) -> Seq<
    (Id, Point),
>
    decreases nodes.len() - node,
{
    match child_at(nodes, geom, node, x, y, nodes[node as int].children.len() as int) {
        Some(child) => if node < child < nodes.len() {
            seq![(child, local_point(geom[child as int], x, y))] + path_below(
                nodes,
                geom,
                child,
                x - geom[child as int].origin.x,
                y - geom[child as int].origin.y,
            )
        } else {
            Seq::empty()
        },
        None => Seq::empty(),
    }
}

/// The nodes under the point `(x, y)` of the window, from the root down to
/// the deepest, each with the point in its own coordinates; empty where the
/// root does not cover the point.
pub open spec fn hit_path(nodes: Seq<Node>, geom: Seq<Rect>, x: int, y: int) -> Seq<(Id, Point)> {
    if geom[ROOT as int].covers(x, y) {
        seq![(ROOT, local_point(geom[ROOT as int], x, y))] + path_below(
            nodes,
            geom,
            ROOT,
            x - geom[ROOT as int].origin.x,
            y - geom[ROOT as int].origin.y,
        )
    } else {
        Seq::empty()
    }
}

/// The deepest node under the point `(x, y)` of the window, with the point
/// in its coordinates.
pub open spec fn hit_target(nodes: Seq<Node>, geom: Seq<Rect>, x: int, y: int) -> Option<
    (Id, Point),
> {
    let path = hit_path(nodes, geom, x, y);
    if path.len() == 0 {
        None
    } else {
        Some(path.last())
    }
}

/// The child that `child_at` finds is one of the children it looked at.
pub proof fn child_at_is_child(
    nodes: Seq<Node>,
    geom: Seq<Rect>,
    node: Id,
    x: int,
    y: int,
    k: int,
)
    requires
        node < nodes.len(),
        k <= nodes[node as int].children.len(),
        child_at(nodes, geom, node, x, y, k).is_some(),
    ensures
        is_child(nodes, node, child_at(nodes, geom, node, x, y, k).unwrap()),
        geom[child_at(nodes, geom, node, x, y, k).unwrap() as int].covers(x, y),
    decreases k,
{
    if k > 0 {
        let child = nodes[node as int].children[k - 1];
        if !geom[child as int].covers(x, y) {
            child_at_is_child(nodes, geom, node, x, y, k - 1);
        }
    }
}

/// Every step of the path below a node goes from a parent to one of its
/// children, all of which are in the tree.
pub proof fn path_below_descends(nodes: Seq<Node>, geom: Seq<Rect>, node: Id, x: int, y: int)
    requires
        well_formed(nodes),
        node < nodes.len(),
    ensures
        forall|k: int|
            0 <= k < path_below(nodes, geom, node, x, y).len() ==> is_child(
                nodes,
                if k == 0 {
                    node
                } else {
                    path_below(nodes, geom, node, x, y)[k - 1].0
                },
                (#[trigger] path_below(nodes, geom, node, x, y)[k]).0,
            ),
    decreases nodes.len() - node,
{
    let found = child_at(nodes, geom, node, x, y, nodes[node as int].children.len() as int);
    if found.is_some() {
        let child = found.unwrap();
        child_at_is_child(nodes, geom, node, x, y, nodes[node as int].children.len() as int);
        child_is_younger(nodes, node, child);
        let cx = x - geom[child as int].origin.x;
        let cy = y - geom[child as int].origin.y;
        path_below_descends(nodes, geom, child, cx, cy);
        let rest = path_below(nodes, geom, child, cx, cy);
        let path = path_below(nodes, geom, node, x, y);
        assert forall|k: int| 0 <= k < path.len() implies is_child(
            nodes,
            if k == 0 {
                node
            } else {
                path[k - 1].0
            },
            (#[trigger] path[k]).0,
        ) by {
            if k > 0 {
                assert(path[k] == rest[k - 1]);
                if k > 1 {
                    assert(path[k - 1] == rest[k - 2]);
                }
            }
        }
    }
}

/// Every node under a point is in the tree.
pub proof fn path_in_tree(nodes: Seq<Node>, geom: Seq<Rect>, x: int, y: int)
    requires
        well_formed(nodes),
    ensures
        forall|k: int|
            0 <= k < hit_path(nodes, geom, x, y).len() ==> is_live(
                nodes,
                (#[trigger] hit_path(nodes, geom, x, y)[k]).0,
            ),
{
    let path = hit_path(nodes, geom, x, y);
    root_in_tree(nodes);
    if path.len() > 0 {
        let lx = x - geom[ROOT as int].origin.x;
        let ly = y - geom[ROOT as int].origin.y;
        let rest = path_below(nodes, geom, ROOT, lx, ly);
        path_below_descends(nodes, geom, ROOT, lx, ly);
        assert forall|k: int| 0 <= k < path.len() implies is_live(nodes, (#[trigger] path[k]).0) by {
            if k > 0 {
                assert(path[k] == rest[k - 1]);
                let parent = if k == 1 {
                    ROOT
                } else {
                    rest[k - 2].0
                };
                assert(is_child(nodes, parent, rest[k - 1].0));
                child_is_younger(nodes, parent, rest[k - 1].0);
            }
        }
    }
}

/// The last child of `node` whose rectangle covers `p`, a point in the
/// coordinates of `node`.
pub fn find_child(graph: &Graph, geom: &Vec<Rect>, node: Id, p: Point) -> (found: Option<Id>)
    requires
        graph.wf(),
        geom@.len() == graph@.len(),
        node < graph@.len(),
    ensures
        found == child_at(
            graph@,
            geom@,
            node,
            p.x as int,
            p.y as int,
            graph@[node as int].children.len() as int,
        ),
{
    let children = graph.children(node);
    let mut k: usize = children.len();
    while k > 0
        invariant
            k <= children@.len(),
            children@ == graph@[node as int].children,
            graph.wf(),
            geom@.len() == graph@.len(),
            node < graph@.len(),
            child_at(graph@, geom@, node, p.x as int, p.y as int, children@.len() as int)
                == child_at(graph@, geom@, node, p.x as int, p.y as int, k as int),
        decreases k,
    {
        k -= 1;
        let child = children[k];
        proof {
            assert(graph@[node as int].children.contains(child));
            child_is_younger(graph@, node, child);
        }
        if geom[child].contains(p) {
            return Some(child);
        }
    }
    None
}

/// The nodes under the point `pos` of the window, from the root down to the
/// deepest, each with the point in its own coordinates.
pub fn path_to(graph: &Graph, geom: &Vec<Rect>, pos: Point) -> (path: Vec<(Id, Point)>)
    requires
        graph.wf(),
        geom@.len() == graph@.len(),
    ensures
        path@ == hit_path(graph@, geom@, pos.x as int, pos.y as int),
{
    let mut path: Vec<(Id, Point)> = Vec::new();
    proof {
        root_in_tree(graph@);
    }
    if !geom[ROOT].contains(pos) {
        return path;
    }
    let mut node: Id = ROOT;
    let mut local = geom[ROOT].to_local(pos);
    path.push((node, local));
    loop
        invariant
            graph.wf(),
            geom@.len() == graph@.len(),
            node < graph@.len(),
            hit_path(graph@, geom@, pos.x as int, pos.y as int) =~= path@ + path_below(
                graph@,
                geom@,
                node,
                local.x as int,
                local.y as int,
            ),
        decreases graph@.len() - node,
    {
        match find_child(graph, geom, node, local) {
            None => {
                return path;
            },
            Some(child) => {
                proof {
                    child_at_is_child(
                        graph@,
                        geom@,
                        node,
                        local.x as int,
                        local.y as int,
                        graph@[node as int].children.len() as int,
                    );
                    child_is_younger(graph@, node, child);
                }
                let inner = geom[child].to_local(local);
                path.push((child, inner));
                node = child;
                local = inner;
            },
        }
    }
}

} // verus!
