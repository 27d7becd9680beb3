//! The layout protocol as a state machine.
//!
//! A pass keeps the nodes whose layout is under way on a stack, the root at
//! the bottom. The widget on top is asked for its layout; its answer either
//! settles its size, which resumes the node below it, or asks for a child,
//! which goes on top. Every answer is checked against the tree before anything
//! is changed.

use vstd::prelude::*;
use crate::geometry::{BoxConstraints, Point, Rect, Size};
use crate::graph::{
    child_is_younger, is_child, is_live, root_in_tree, well_formed, Graph, Node, ROOT,
};
use crate::widget::{Id, LayoutResult};

verus! {

/// A violation of the layout protocol by a widget.
#[derive(Clone, Copy, Debug, PartialEq, Eq, Structural)]
pub enum LayoutError {
    /// `node` asked for the size of `child`, which is not one of its children.
    NotAChild { node: Id, child: Id },
    /// `node` assigned a position to `child` before it had received that
    /// child's size.
    NotSized { node: Id, child: Id },
    /// The pass ran out of steps while `node` was the next to be asked.
    Unresolved { node: Id },
}

impl LayoutError {
    /// The node whose widget broke the protocol, or did not get to settle.
    pub open spec fn node(self) -> Id {
        match self {
            LayoutError::NotAChild { node, .. } => node,
            LayoutError::NotSized { node, .. } => node,
            LayoutError::Unresolved { node } => node,
        }
    }
}

/// How far a node has come in a layout pass.
#[derive(Clone, Copy, Debug, PartialEq, Eq, Structural)]
pub enum Status {
    /// No size was asked of the node.
    Untouched,
    /// The node was asked for its size and has not settled on one.
    Pending,
    /// The node has settled on its size.
    Resolved,
}

/// What a pass does after an answer.
#[derive(Clone, Copy, Debug, PartialEq, Eq, Structural)]
pub enum Progress {
    /// Another widget is to be asked.
    Continue,
    /// The root has settled on this size, and the pass is over.
    Done(Size),
    /// The answer broke the protocol, and the pass is over.
    Failed(LayoutError),
}

/// The next `layout` call to make: on which node and with which arguments.
#[derive(Clone, Copy, Debug, PartialEq, Eq, Structural)]
pub struct Call {
    pub node: Id,
    pub bc: BoxConstraints,
    /// The size of the child that the node asked for last, once that child
    /// has settled on it.
    pub size: Option<Size>,
}

/// A node whose layout is under way, as contracts see it.
pub struct FrameView {
    pub node: Id,
    /// The constraints that the node was given.
    pub bc: BoxConstraints,
    /// The size of the child that settled last, if any has.
    pub child_size: Option<Size>,
    /// The children that have settled on a size since the node was asked
    /// first.
    pub sized: Seq<Id>,
}

/// A layout pass, as contracts see it.
pub struct PassState {
    /// The nodes whose layout is under way, the root first.
    pub stack: Seq<FrameView>,
    /// How far each node has come.
    pub status: Seq<Status>,
    /// The number of `layout` calls that the pass may still make.
    pub steps_left: nat,
}

impl PassState {
    /// `node` is on the stack.
    pub open spec fn on_stack(self, node: Id) -> bool {
        exists|k: int| 0 <= k < self.stack.len() && (#[trigger] self.stack[k]).node == node
    }

    /// The pass fits the tree: the stack starts at the root and goes from
    /// parent to child, what a frame calls sized are children of its node
    /// that the pass has touched, and a node is pending exactly while it is on
    /// the stack.
    #[verifier::opaque]
    pub open spec fn fits(self, nodes: Seq<Node>) -> bool {
        &&& self.status.len() == nodes.len()
        &&& self.stack.len() > 0 ==> self.stack[0].node == ROOT
        &&& forall|k: int|
            0 <= k < self.stack.len() ==> is_live(nodes, (#[trigger] self.stack[k]).node)
        &&& forall|k: int|
            0 < k < self.stack.len() ==> is_child(
                nodes,
                self.stack[k - 1].node,
                (#[trigger] self.stack[k]).node,
            )
        &&& forall|j: int, k: int|
            0 <= j < k < self.stack.len() ==> (#[trigger] self.stack[j]).node < (
            #[trigger] self.stack[k]).node
        &&& forall|k: int, c: Id|
            0 <= k < self.stack.len() && (#[trigger] self.stack[k].sized.contains(c)) ==> {
                &&& is_child(nodes, self.stack[k].node, c)
                &&& c < self.status.len()
                &&& self.status[c as int] != Status::Untouched
            }
        &&& forall|n: int|
            0 <= n < self.status.len() ==> ((#[trigger] self.status[n]) == Status::Pending
                <==> self.on_stack(n as Id))
    }

    /// No node is left pending.
    pub open spec fn settled(self) -> bool {
        forall|n: int| 0 <= n < self.status.len() ==> (#[trigger] self.status[n]) != Status::Pending
    }
}

/// Every child that `positions` places is among `sized`.
pub open spec fn all_sized(positions: Seq<(Id, Point)>, sized: Seq<Id>) -> bool {
    forall|k: int| 0 <= k < positions.len() ==> sized.contains((#[trigger] positions[k]).0)
}

/// `positions[k]` places a child that is not among `sized`, and is the first
/// to do so.
pub open spec fn first_unsized(positions: Seq<(Id, Point)>, sized: Seq<Id>, k: int) -> bool {
    &&& 0 <= k < positions.len()
    &&& !sized.contains(positions[k].0)
    &&& all_sized(positions.take(k), sized)
}

/// The rectangles after each of `positions` was applied in turn: the child
/// has the new origin and keeps its size.
pub open spec fn placed(geom: Seq<Rect>, positions: Seq<(Id, Point)>) -> Seq<Rect>
    decreases positions.len(),
{
    if positions.len() == 0 {
        geom
    } else {
        let before = placed(geom, positions.drop_last());
        let child = positions.last().0;
        if child < before.len() {
            before.update(
                child as int,
                Rect { origin: positions.last().1, size: before[child as int].size },
            )
        } else {
            before
        }
    }
}

/// Placing children changes no size and no number of rectangles.
pub proof fn placed_keeps_sizes(geom: Seq<Rect>, positions: Seq<(Id, Point)>)
    ensures
        placed(geom, positions).len() == geom.len(),
        forall|i: int|
            0 <= i < geom.len() ==> (#[trigger] placed(geom, positions)[i]).size == geom[i].size,
    decreases positions.len(),
{
    if positions.len() > 0 {
        placed_keeps_sizes(geom, positions.drop_last());
    }
}

/// Placing children moves those that are placed and no others.
pub proof fn placed_moves_listed(geom: Seq<Rect>, positions: Seq<(Id, Point)>, node: int)
    requires
        0 <= node < geom.len(),
        forall|k: int| 0 <= k < positions.len() ==> (#[trigger] positions[k]).0 != node,
    ensures
        placed(geom, positions)[node] == geom[node],
    decreases positions.len(),
{
    if positions.len() > 0 {
        let front = positions.drop_last();
        assert forall|k: int| 0 <= k < front.len() implies (#[trigger] front[k]).0 != node by {
            assert(front[k] == positions[k]);
        }
        placed_moves_listed(geom, front, node);
        placed_keeps_sizes(geom, front);
        assert(positions.last() == positions[positions.len() - 1]);
    }
}

/// `node` with the size `size`, where it stood.
pub open spec fn resized(geom: Seq<Rect>, node: Id, size: Size) -> Seq<Rect> {
    geom.update(node as int, Rect { origin: geom[node as int].origin, size })
}

/// The frame of a parent after its child `child` settled on `size`.
pub open spec fn resumed(frame: FrameView, child: Id, size: Size) -> FrameView {
    FrameView {
        node: frame.node,
        bc: frame.bc,
        child_size: Some(size),
        sized: if frame.sized.contains(child) {
            frame.sized
        } else {
            frame.sized.push(child)
        },
    }
}

/// The frame of a node that has just been asked for.
pub open spec fn fresh(node: Id, bc: BoxConstraints) -> FrameView {
    FrameView { node, bc, child_size: None, sized: Seq::empty() }
}

/// `x` occurs in `v`.
pub fn contains_id(v: &Vec<Id>, x: Id) -> (found: bool)
    ensures
        found == v@.contains(x),
{
    let mut k: usize = 0;
    while k < v.len()
        invariant
            k <= v@.len(),
            forall|j: int| 0 <= j < k ==> v@[j] != x,
        decreases v@.len() - k,
    {
        if v[k] == x {
            return true;
        }
        k += 1;
    }
    false
}

/// What a pass does after the widget on top answered `result` and assigned
/// `positions`.
///
/// A position for a child whose size the widget has not received fails the
/// pass, and so does a request for a node that is not a child of the widget.
/// Otherwise a request goes on, and a size ends the pass where the root gave
/// it and goes on where another node did.
pub open spec fn outcome(
    state: PassState,
    nodes: Seq<Node>,
    result: LayoutResult,
    positions: Seq<(Id, Point)>,
) -> Progress {
    let top = state.stack.last();
    if !all_sized(positions, top.sized) {
        Progress::Failed(
            LayoutError::NotSized {
                node: top.node,
                child: positions[choose|k: int| first_unsized(positions, top.sized, k)].0,
            },
        )
    } else {
        match result {
            LayoutResult::RequestChild(child, _) => if is_child(nodes, top.node, child) {
                Progress::Continue
            } else {
                Progress::Failed(LayoutError::NotAChild { node: top.node, child })
            },
            LayoutResult::Size(size) => if state.stack.len() == 1 {
                Progress::Done(size)
            } else {
                Progress::Continue
            },
        }
    }
}

/// The stack after the node on top settled on `size`: the node has left it,
/// and the node below, if there is one, knows the size.
pub open spec fn unwound(stack: Seq<FrameView>, size: Size) -> Seq<FrameView> {
    if stack.len() <= 1 {
        Seq::empty()
    } else {
        stack.drop_last().update(
            stack.len() - 2,
            resumed(stack[stack.len() - 2], stack.last().node, size),
        )
    }
}

/// The pass and the rectangles after an answer that did not fail the pass.
pub open spec fn advanced(
    state: PassState,
    geom: Seq<Rect>,
    result: LayoutResult,
    positions: Seq<(Id, Point)>,
) -> (PassState, Seq<Rect>) {
    let node = state.stack.last().node;
    match result {
        LayoutResult::RequestChild(child, bc) => (
            PassState {
                stack: state.stack.push(fresh(child, bc)),
                status: state.status.update(child as int, Status::Pending),
                steps_left: state.steps_left,
            },
            placed(geom, positions),
        ),
        LayoutResult::Size(size) => (
            PassState {
                stack: unwound(state.stack, size),
                status: state.status.update(node as int, Status::Resolved),
                steps_left: state.steps_left,
            },
            resized(placed(geom, positions), node, size),
        ),
    }
}

/// A pass that fits the tree still fits it after a request for a child was
/// taken.
proof fn request_fits(state: PassState, nodes: Seq<Node>, child: Id, bc: BoxConstraints)
    requires
        well_formed(nodes),
        state.fits(nodes),
        state.stack.len() > 0,
        is_child(nodes, state.stack.last().node, child),
    ensures
        (PassState {
            stack: state.stack.push(fresh(child, bc)),
            status: state.status.update(child as int, Status::Pending),
            steps_left: state.steps_left,
        }).fits(nodes),
{
    reveal(PassState::fits);
    root_in_tree(nodes);
    let next = PassState {
        stack: state.stack.push(fresh(child, bc)),
        status: state.status.update(child as int, Status::Pending),
        steps_left: state.steps_left,
    };
    let last = state.stack.len() - 1;
    let node = state.stack[last].node;
    child_is_younger(nodes, node, child);
    assert forall|j: int, k: int| 0 <= j < k < next.stack.len() implies (
    #[trigger] next.stack[j]).node < (#[trigger] next.stack[k]).node by {
        if k == last + 1 {
            if j < last {
                assert(state.stack[j].node < state.stack[last].node);
            }
        }
    }
    assert forall|k: int, c: Id|
        0 <= k < next.stack.len() && (#[trigger] next.stack[k].sized.contains(c)) implies {
        &&& is_child(nodes, next.stack[k].node, c)
        &&& c < next.status.len()
        &&& next.status[c as int] != Status::Untouched
    } by {
        if k <= last {
            assert(state.stack[k].sized.contains(c));
        }
    }
    assert forall|n: int| 0 <= n < next.status.len() implies ((#[trigger] next.status[n])
        == Status::Pending <==> next.on_stack(n as Id)) by {
        if n == child {
            assert(next.stack[last + 1].node == child);
        } else {
            if state.on_stack(n as Id) {
                let k = choose|k: int|
                    0 <= k < state.stack.len() && (#[trigger] state.stack[k]).node
                        == n as Id;
                assert(next.stack[k].node == n as Id);
            }
            if next.on_stack(n as Id) {
                let k = choose|k: int|
                    0 <= k < next.stack.len() && (#[trigger] next.stack[k]).node == n as Id;
                assert(state.stack[k].node == n as Id);
            }
        }
    }
    assert forall|k: int| 0 < k < next.stack.len() implies is_child(
        nodes,
        next.stack[k - 1].node,
        (#[trigger] next.stack[k]).node,
    ) by {
        if k <= last {
            assert(is_child(nodes, state.stack[k - 1].node, state.stack[k].node));
        }
    }
    assert forall|k: int| 0 <= k < next.stack.len() implies is_live(
        nodes,
        (#[trigger] next.stack[k]).node,
    ) by {
        if k <= last {
            assert(is_live(nodes, state.stack[k].node));
        }
    }
}

/// A pass that fits the tree still fits it after a size was taken, and no
/// node is left pending once the stack is empty.
proof fn size_fits(state: PassState, nodes: Seq<Node>, size: Size)
    requires
        well_formed(nodes),
        state.fits(nodes),
        state.stack.len() > 0,
    ensures
        (PassState {
            stack: unwound(state.stack, size),
            status: state.status.update(state.stack.last().node as int, Status::Resolved),
            steps_left: state.steps_left,
        }).fits(nodes),
        state.stack.len() == 1 ==> (PassState {
            stack: unwound(state.stack, size),
            status: state.status.update(state.stack.last().node as int, Status::Resolved),
            steps_left: state.steps_left,
        }).settled(),
{
    reveal(PassState::fits);
    root_in_tree(nodes);
    let next = PassState {
        stack: unwound(state.stack, size),
        status: state.status.update(state.stack.last().node as int, Status::Resolved),
        steps_left: state.steps_left,
    };
    let last = state.stack.len() - 1;
    let node = state.stack[last].node;
    assert forall|k: int| 0 <= k < next.stack.len() implies (#[trigger] next.stack[k]).node
        == state.stack[k].node by {}
    assert forall|j: int, k: int| 0 <= j < k < next.stack.len() implies (
    #[trigger] next.stack[j]).node < (#[trigger] next.stack[k]).node by {
        assert(state.stack[j].node < state.stack[k].node);
    }
    assert forall|k: int, c: Id|
        0 <= k < next.stack.len() && (#[trigger] next.stack[k].sized.contains(c)) implies {
        &&& is_child(nodes, next.stack[k].node, c)
        &&& c < next.status.len()
        &&& next.status[c as int] != Status::Untouched
    } by {
        if k == last - 1 && !state.stack[k].sized.contains(c) {
            let at = choose|at: int|
                0 <= at < next.stack[k].sized.len() && next.stack[k].sized[at] == c;
            if at < state.stack[k].sized.len() {
                assert(state.stack[k].sized[at] == c);
            }
            assert(c == node);
            assert(is_child(nodes, state.stack[last - 1].node, state.stack[last].node));
            assert(is_live(nodes, state.stack[last].node));
        } else {
            assert(state.stack[k].sized.contains(c));
        }
    }
    assert forall|n: int| 0 <= n < next.status.len() implies ((#[trigger] next.status[n])
        == Status::Pending <==> next.on_stack(n as Id)) by {
        if next.on_stack(n as Id) {
            let k = choose|k: int|
                0 <= k < next.stack.len() && (#[trigger] next.stack[k]).node == n as Id;
            assert(state.stack[k].node == n as Id);
            assert(state.stack[k].node < state.stack[last].node);
        }
        if n != node && state.on_stack(n as Id) {
            let k = choose|k: int|
                0 <= k < state.stack.len() && (#[trigger] state.stack[k]).node == n as Id;
            assert(next.stack[k].node == n as Id);
        }
    }
    assert forall|k: int| 0 < k < next.stack.len() implies is_child(
        nodes,
        next.stack[k - 1].node,
        (#[trigger] next.stack[k]).node,
    ) by {
        assert(is_child(nodes, state.stack[k - 1].node, state.stack[k].node));
    }
    assert forall|k: int| 0 <= k < next.stack.len() implies is_live(
        nodes,
        (#[trigger] next.stack[k]).node,
    ) by {
        assert(is_live(nodes, state.stack[k].node));
    }
    if next.stack.len() > 0 {
        assert(next.stack[0].node == state.stack[0].node);
    }
    if state.stack.len() == 1 {
        assert forall|n: int| 0 <= n < next.status.len() implies (#[trigger] next.status[n])
            != Status::Pending by {
            assert(!next.on_stack(n as Id));
        }
    }
}

/// A pass that fits the tree still fits it after an answer that did not fail
/// it, and no node is left pending once the root has settled.
pub proof fn advance_fits(
    state: PassState,
    nodes: Seq<Node>,
    geom: Seq<Rect>,
    result: LayoutResult,
    positions: Seq<(Id, Point)>,
)
    requires
        well_formed(nodes),
        state.fits(nodes),
        state.stack.len() > 0,
        !(outcome(state, nodes, result, positions) is Failed),
    ensures
        advanced(state, geom, result, positions).0.fits(nodes),
        outcome(state, nodes, result, positions) is Done ==> advanced(
            state,
            geom,
            result,
            positions,
        ).0.stack.len() == 0 && advanced(state, geom, result, positions).0.settled(),
{
    match result {
        LayoutResult::RequestChild(child, bc) => {
            request_fits(state, nodes, child, bc);
        },
        LayoutResult::Size(size) => {
            size_fits(state, nodes, size);
        },
    }
}

/// A parent has received the size of every child that it places: an answer
/// that does not fail the pass assigns positions only to children that have
/// settled on a size since the parent was asked first.
pub proof fn positions_follow_sizes(
    state: PassState,
    nodes: Seq<Node>,
    result: LayoutResult,
    positions: Seq<(Id, Point)>,
)
    requires
        state.stack.len() > 0,
        !(outcome(state, nodes, result, positions) is Failed),
    ensures
        forall|k: int|
            0 <= k < positions.len() ==> state.stack.last().sized.contains(
                (#[trigger] positions[k]).0,
            ),
{
}

/// The pass has touched every child that the node on top has received the
/// size of, and the node on top is pending.
proof fn top_and_sized_touched(state: PassState, nodes: Seq<Node>)
    requires
        well_formed(nodes),
        state.fits(nodes),
        state.stack.len() > 0,
    ensures
        state.stack.last().node < state.status.len(),
        state.status[state.stack.last().node as int] == Status::Pending,
        forall|c: Id| #[trigger]
            state.stack.last().sized.contains(c) ==> c < state.status.len()
                && state.status[c as int] != Status::Untouched,
{
    reveal(PassState::fits);
    root_in_tree(nodes);
    let last = state.stack.len() - 1;
    assert(is_live(nodes, state.stack[last].node));
    assert(state.on_stack(state.stack[last].node));
    assert forall|c: Id| #[trigger] state.stack.last().sized.contains(c) implies c
        < state.status.len() && state.status[c as int] != Status::Untouched by {
        assert(state.stack[last].sized.contains(c));
    }
}

/// An answer leaves the rectangle of every node alone that the pass has not
/// touched, and a node that the pass has touched stays touched.
pub proof fn untouched_stay(
    state: PassState,
    nodes: Seq<Node>,
    geom: Seq<Rect>,
    result: LayoutResult,
    positions: Seq<(Id, Point)>,
)
    requires
        well_formed(nodes),
        state.fits(nodes),
        state.stack.len() > 0,
        geom.len() == nodes.len(),
        !(outcome(state, nodes, result, positions) is Failed),
    ensures
        forall|n: int|
            0 <= n < geom.len() && (#[trigger] advanced(
                state,
                geom,
                result,
                positions,
            ).0.status[n]) == Status::Untouched ==> state.status[n] == Status::Untouched
                && advanced(state, geom, result, positions).1[n] == geom[n],
{
    top_and_sized_touched(state, nodes);
    fits_counts(state, nodes);
    placed_keeps_sizes(geom, positions);
    let next_status = advanced(state, geom, result, positions).0.status;
    let next_geom = advanced(state, geom, result, positions).1;
    let top = state.stack.last().node;
    let sized = state.stack.last().sized;
    match result {
        LayoutResult::RequestChild(child, _) => {
            child_is_younger(nodes, top, child);
            assert(next_status == state.status.update(child as int, Status::Pending));
            assert(next_geom == placed(geom, positions));
        },
        LayoutResult::Size(size) => {
            assert(next_status == state.status.update(top as int, Status::Resolved));
            assert(next_geom == resized(placed(geom, positions), top, size));
        },
    }
    assert(next_status.len() == geom.len());
    assert forall|n: int|
        0 <= n < geom.len() && (#[trigger] next_status[n]) == Status::Untouched implies state.status[n]
        == Status::Untouched && next_geom[n] == geom[n] by {
        assert(state.status[n] == Status::Untouched);
        assert(n != top);
        assert forall|k: int| 0 <= k < positions.len() implies (#[trigger] positions[k]).0
            != n by {
            assert(sized.contains(positions[k].0));
        }
        placed_moves_listed(geom, positions, n);
    }
}

/// The node on top of the stack of a pass that fits a tree is in the tree
/// and pending, and as many nodes have a status as the tree has identifiers.
pub proof fn top_in_tree(state: PassState, nodes: Seq<Node>)
    requires
        state.fits(nodes),
        state.stack.len() > 0,
    ensures
        is_live(nodes, state.stack.last().node),
        state.status.len() == nodes.len(),
        state.status[state.stack.last().node as int] == Status::Pending,
{
    reveal(PassState::fits);
    let last = state.stack.len() - 1;
    assert(is_live(nodes, state.stack[last].node));
    assert(state.on_stack(state.stack[last].node));
}

/// A pass that fits a tree has a status for every identifier of the tree.
pub proof fn fits_counts(state: PassState, nodes: Seq<Node>)
    requires
        state.fits(nodes),
    ensures
        state.status.len() == nodes.len(),
{
    reveal(PassState::fits);
}

/// Whether a pass fits a tree does not depend on the steps it has left.
pub proof fn fits_whatever_steps(a: PassState, b: PassState, nodes: Seq<Node>)
    requires
        a.fits(nodes),
        a.stack == b.stack,
        a.status == b.status,
    ensures
        b.fits(nodes),
{
    reveal(PassState::fits);
    assert forall|n: int| 0 <= n < b.status.len() implies ((#[trigger] b.status[n])
        == Status::Pending <==> b.on_stack(n as Id)) by {
        assert(a.on_stack(n as Id) == b.on_stack(n as Id));
    }
}

/// Apply each of `positions` in turn: the child gets the new origin and
/// keeps its size. A position for what has no rectangle changes nothing.
pub fn place(geom: &mut Vec<Rect>, positions: &Vec<(Id, Point)>)
    ensures
        final(geom)@ == placed(old(geom)@, positions@),
        final(geom)@.len() == old(geom)@.len(),
{
    let mut k: usize = 0;
    proof {
        assert(positions@.take(0) =~= Seq::<(Id, Point)>::empty());
    }
    while k < positions.len()
        invariant
            k <= positions@.len(),
            geom@ == placed(old(geom)@, positions@.take(k as int)),
            geom@.len() == old(geom)@.len(),
        decreases positions@.len() - k,
    {
        let child = positions[k].0;
        let origin = positions[k].1;
        proof {
            assert(positions@.take(k as int + 1).drop_last() =~= positions@.take(k as int));
            assert(positions@.take(k as int + 1).last() == positions@[k as int]);
        }
        if child < geom.len() {
            let size = geom[child].size;
            geom[child] = Rect { origin, size };
        }
        k += 1;
    }
    proof {
        assert(positions@.take(k as int) =~= positions@);
    }
}

/// The first child that `positions` places and that is not among `sized`,
/// if there is one.
pub fn unsized_child(positions: &Vec<(Id, Point)>, sized: &Vec<Id>) -> (r: Option<Id>)
    ensures
        r.is_none() <==> all_sized(positions@, sized@),
        r.is_some() ==> r.unwrap() == positions@[choose|k: int|
            first_unsized(positions@, sized@, k)].0,
{
    let mut k: usize = 0;
    while k < positions.len()
        invariant
            k <= positions@.len(),
            all_sized(positions@.take(k as int), sized@),
        decreases positions@.len() - k,
    {
        if !contains_id(sized, positions[k].0) {
            proof {
                assert(first_unsized(positions@, sized@, k as int));
                let chosen = choose|j: int| first_unsized(positions@, sized@, j);
                if chosen < k {
                    assert(positions@.take(k as int)[chosen] == positions@[chosen]);
                }
                if k < chosen {
                    assert(positions@.take(chosen)[k as int] == positions@[k as int]);
                }
            }
            return Some(positions[k].0);
        }
        proof {
            assert forall|j: int| 0 <= j < k + 1 implies sized@.contains(
                (#[trigger] positions@.take(k as int + 1)[j]).0,
            ) by {
                if j < k {
                    assert(positions@.take(k as int)[j] == positions@[j]);
                }
            }
        }
        k += 1;
    }
    proof {
        assert(positions@.take(k as int) =~= positions@);
    }
    None
}

struct Frame {
    node: Id,
    bc: BoxConstraints,
    child_size: Option<Size>,
    sized: Vec<Id>,
}

impl View for Frame {
    type V = FrameView;

    closed spec fn view(&self) -> FrameView {
        FrameView { node: self.node, bc: self.bc, child_size: self.child_size, sized: self.sized@ }
    }
}

/// One layout pass over a tree.
pub struct LayoutPass {
    stack: Vec<Frame>,
    status: Vec<Status>,
    steps_left: usize,
}

impl View for LayoutPass {
    type V = PassState;

    closed spec fn view(&self) -> PassState {
        PassState {
            stack: Seq::new(self.stack@.len(), |k: int| self.stack@[k]@),
            status: self.status@,
            steps_left: self.steps_left as nat,
        }
    }
}

impl LayoutPass {
    /// A pass that is about to ask the root for its size under `bc`, and may
    /// make `max_steps` calls of `layout` in all.
    pub fn begin(graph: &Graph, bc: BoxConstraints, max_steps: usize) -> (pass: LayoutPass)
        requires
            graph.wf(),
        ensures
            pass@.fits(graph@),
            pass@.stack == seq![fresh(ROOT, bc)],
            pass@.steps_left == max_steps,
            pass@.status == Seq::new(
                graph@.len(),
                |n: int|
                    if n == ROOT {
                        Status::Pending
                    } else {
                        Status::Untouched
                    },
            ),
    {
        let mut status: Vec<Status> = Vec::new();
        let n = graph.len();
        let mut i: usize = 0;
        while i < n
            invariant
                i <= n,
                n == graph@.len(),
                status@.len() == i,
                forall|j: int|
                    0 <= j < i ==> status@[j] == if j == ROOT {
                        Status::Pending
                    } else {
                        Status::Untouched
                    },
            decreases n - i,
        {
            status.push(
                if i == ROOT {
                    Status::Pending
                } else {
                    Status::Untouched
                },
            );
            i += 1;
        }
        let mut stack: Vec<Frame> = Vec::new();
        stack.push(Frame { node: ROOT, bc, child_size: None, sized: Vec::new() });
        let pass = LayoutPass { stack, status, steps_left: max_steps };
        proof {
            reveal(PassState::fits);
            root_in_tree(graph@);
            assert(pass@.stack =~= seq![fresh(ROOT, bc)]);
            assert(pass@.status =~= Seq::new(
                graph@.len(),
                |n: int|
                    if n == ROOT {
                        Status::Pending
                    } else {
                        Status::Untouched
                    },
            ));
            assert(pass@.stack[0].node == ROOT);
            assert forall|n: int| 0 <= n < pass@.status.len() implies ((#[trigger] pass@.status[n])
                == Status::Pending <==> pass@.on_stack(n as Id)) by {
                if n == ROOT {
                    assert(pass@.stack[0].node == n as Id);
                }
            }
        }
        pass
    }

    /// How far `node` has come in this pass.
    pub fn status(&self, node: Id) -> (status: Option<Status>)
        ensures
            node < self@.status.len() ==> status == Some(self@.status[node as int]),
            node >= self@.status.len() ==> status.is_none(),
    {
        if node < self.status.len() {
            Some(self.status[node])
        } else {
            None
        }
    }

    /// The status of every node, by identifier.
    pub fn into_status(self) -> (status: Vec<Status>)
        ensures
            status@ == self@.status,
    {
        self.status
    }

    /// The number of nodes whose layout is under way.
    pub fn depth(&self) -> (depth: usize)
        ensures
            depth == self@.stack.len(),
    {
        self.stack.len()
    }

    /// The next call to make, which costs one step; or, where no step is
    /// left, the node that was to be asked and did not get to settle.
    pub fn poll(&mut self) -> (r: Result<Call, LayoutError>)
        requires
            old(self)@.stack.len() > 0,
        ensures
            final(self)@.stack == old(self)@.stack,
            final(self)@.status == old(self)@.status,
            old(self)@.steps_left == 0 ==> final(self)@.steps_left == 0 && r == Err::<
                Call,
                LayoutError,
            >(LayoutError::Unresolved { node: old(self)@.stack.last().node }),
            old(self)@.steps_left > 0 ==> final(self)@.steps_left == old(self)@.steps_left - 1
                && r == Ok::<Call, LayoutError>(
                Call {
                    node: old(self)@.stack.last().node,
                    bc: old(self)@.stack.last().bc,
                    size: old(self)@.stack.last().child_size,
                },
            ),
    {
        let top = self.stack.len() - 1;
        assert(self@.stack[top as int] == self.stack@[top as int]@);
        let node = self.stack[top].node;
        if self.steps_left == 0 {
            return Err(LayoutError::Unresolved { node });
        }
        self.steps_left = self.steps_left - 1;
        assert(self@.stack =~= old(self)@.stack);
        Ok(Call { node, bc: self.stack[top].bc, size: self.stack[top].child_size })
    }
    /// Take the answer of the widget on top of the stack: the result of its
    /// `layout` call and the positions it assigned during the call.
    ///
    /// An answer that breaks the protocol fails the pass and changes
    /// nothing. Any other answer moves the assigned children, and then either
    /// puts the requested child on the stack or records the size of the node,
    /// takes the node off the stack and hands the size to the node below.
    pub fn respond(
        &mut self,
        graph: &Graph,
        geom: &mut Vec<Rect>,
        result: LayoutResult,
        positions: &Vec<(Id, Point)>,
    ) -> (r: Progress)
        requires
            graph.wf(),
            old(self)@.fits(graph@),
            old(self)@.stack.len() > 0,
            old(geom)@.len() == graph@.len(),
        ensures
            r == outcome(old(self)@, graph@, result, positions@),
            r is Failed ==> final(self)@ == old(self)@ && final(geom)@ == old(geom)@,
            !(r is Failed) ==> (final(self)@, final(geom)@) == advanced(
                old(self)@,
                old(geom)@,
                result,
                positions@,
            ),
            final(self)@.fits(graph@),
            final(self)@.steps_left == old(self)@.steps_left,
            final(geom)@.len() == old(geom)@.len(),
            r is Continue ==> final(self)@.stack.len() > 0,
            r is Done ==> final(self)@.stack.len() == 0 && final(self)@.settled(),
            r matches Progress::Done(size) ==> {
                &&& final(geom)@[ROOT as int].size == size
                &&& final(self)@.status[ROOT as int] == Status::Resolved
            },
    {
        let top = self.stack.len() - 1;
        let ghost before = self@;
        proof {
            reveal(PassState::fits);
        }
        assert(before.stack[top as int] == self.stack@[top as int]@);
        assert(is_live(graph@, before.stack[top as int].node));
        let node = self.stack[top].node;
        if let Some(child) = unsized_child(positions, &self.stack[top].sized) {
            return Progress::Failed(LayoutError::NotSized { node, child });
        }
        proof {
            placed_keeps_sizes(geom@, positions@);
        }
        match result {
            LayoutResult::RequestChild(child, bc) => {
                if !graph.has_child(node, child) {
                    return Progress::Failed(LayoutError::NotAChild { node, child });
                }
                proof {
                    child_is_younger(graph@, node, child);
                    advance_fits(before, graph@, geom@, result, positions@);
                }
                place(geom, positions);
                self.status[child] = Status::Pending;
                self.stack.push(Frame { node: child, bc, child_size: None, sized: Vec::new() });
                proof {
                    assert(self@.stack =~= before.stack.push(fresh(child, bc)));
                }
                Progress::Continue
            },
            LayoutResult::Size(size) => {
                proof {
                    advance_fits(before, graph@, geom@, result, positions@);
                }
                place(geom, positions);
                let origin = geom[node].origin;
                geom[node] = Rect { origin, size };
                self.status[node] = Status::Resolved;
                self.stack.pop();
                if top == 0 {
                    proof {
                        assert(self@.stack =~= unwound(before.stack, size));
                    }
                    Progress::Done(size)
                } else {
                    self.stack[top - 1].child_size = Some(size);
                    if !contains_id(&self.stack[top - 1].sized, node) {
                        self.stack[top - 1].sized.push(node);
                    }
                    proof {
                        assert(before.stack[top - 1] == old(self).stack@[top - 1]@);
                        assert(self@.stack =~= unwound(before.stack, size));
                    }
                    Progress::Continue
                }
            },
        }
    }
}

} // verus!
