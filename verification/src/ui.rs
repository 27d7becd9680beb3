//! The widget tree at run time: the widgets, the tree they form, where each
//! was laid out, and which of them is hot, focused or animating.

use vstd::prelude::*;
use vstd::pervasive::unreached;
use crate::geometry::{BoxConstraints, Point, Rect, Size};
use crate::graph::{
    can_remove, descends, is_child, is_live, removal_drops_parent_last, removed, root_in_tree,
    well_formed, with_child, Graph, Node, ROOT,
};
use crate::hit::{hit_path, hit_target, path_in_tree, path_to};
use crate::order::{order, order_in_tree, paint_order};
use crate::layout::{
    contains_id, fits_counts, fits_whatever_steps, outcome, top_in_tree, untouched_stay, Call,
    LayoutError, LayoutPass, Progress, Status,
};
use crate::widget::{
    Handler, HandlerCtx, HandlerState, Id, KeyEvent, LayoutCtx, MouseEvent, PaintCtx, ScrollEvent,
    Widget,
};

verus! {

/// A widget tree, as contracts see it. Every sequence is indexed by
/// identifier.
pub struct UiState<W> {
    /// The widgets of the nodes that are in the tree.
    pub widgets: Seq<Option<W>>,
    /// The structure of the tree.
    pub nodes: Seq<Node>,
    /// The rectangle of each node, in the coordinates of its parent.
    pub geom: Seq<Rect>,
    /// The nodes that have asked for the next animation frame.
    pub anim: Seq<bool>,
    /// How far each node came in the last layout pass.
    pub status: Seq<Status>,
    /// The node under the pointer.
    pub hot: Option<Id>,
    /// The node that holds the keyboard focus.
    pub focus: Option<Id>,
    /// Something has asked for a repaint since the last one.
    pub needs_paint: bool,
    /// The time of the last animation frame, while an animation runs.
    pub last_tick: Option<u64>,
}

impl<W> UiState<W> {
    /// The nodes form a tree, exactly the nodes of the tree have a widget,
    /// and what is hot, focused or animating is in the tree.
    pub open spec fn wf(self) -> bool {
        &&& well_formed(self.nodes)
        &&& self.widgets.len() == self.nodes.len()
        &&& self.geom.len() == self.nodes.len()
        &&& self.anim.len() == self.nodes.len()
        &&& self.status.len() == self.nodes.len()
        &&& forall|i: int|
            0 <= i < self.nodes.len() ==> (#[trigger] self.widgets[i]).is_some()
                == self.nodes[i].live
        &&& forall|i: int| 0 <= i < self.nodes.len() && #[trigger] self.anim[i] ==> self.nodes[i].live
        &&& self.hot.is_some() ==> is_live(self.nodes, self.hot.unwrap())
        &&& self.focus.is_some() ==> is_live(self.nodes, self.focus.unwrap())
    }

    /// The state after the widget of `node` asked for what `asked` holds:
    /// the node animates if it asked for a frame, a repaint is due if it
    /// asked for one, and the focus goes to the node if it asked to take it
    /// and leaves the node if it asked to give it up.
    pub open spec fn answered(self, node: Id, asked: HandlerState) -> UiState<W> {
        UiState {
            anim: if asked.anim_frame {
                self.anim.update(node as int, true)
            } else {
                self.anim
            },
            needs_paint: self.needs_paint || asked.repaint,
            focus: match asked.focus {
                Some(true) => Some(node),
                Some(false) => if self.focus == Some(node) {
                    None
                } else {
                    self.focus
                },
                None => self.focus,
            },
            ..self
        }
    }

    /// This state, with `widgets` for its widgets.
    pub open spec fn with_widgets(self, widgets: Seq<Option<W>>) -> UiState<W> {
        UiState { widgets, ..self }
    }

    /// `after` is this state after one delivery to the widget of `node`:
    /// whatever the widget holds now, the rest has changed as the widget
    /// asked through its handler context, and in no other way.
    pub open spec fn follows(self, node: Id, after: UiState<W>) -> bool {
        exists|asked: HandlerState|
            asked.id == node && after == (#[trigger] self.answered(node, asked)).with_widgets(
                after.widgets,
            )
    }

    /// The two states differ at most in what the widgets hold and in what
    /// widgets ask for through a handler context: animation frames, a
    /// repaint, the focus.
    pub open spec fn same_tree(self, other: UiState<W>) -> bool {
        &&& self.nodes == other.nodes
        &&& self.geom == other.geom
        &&& self.status == other.status
        &&& self.hot == other.hot
        &&& self.last_tick == other.last_tick
    }
}

/// An event for one widget.
#[derive(Clone, Copy, Debug, PartialEq, Eq, Structural)]
pub enum Event {
    /// A mouse button went down or up over the widget.
    Mouse(MouseEvent),
    /// The pointer moved over the widget.
    MouseMoved(Point),
    /// The widget became hot, or stopped being hot.
    HotChanged(bool),
    /// A key went down while the widget held the focus.
    KeyDown(KeyEvent),
    /// A key went up while the widget held the focus.
    KeyUp(KeyEvent),
    /// The wheel turned over the widget.
    Scroll(ScrollEvent),
    /// An animation frame begins, so many nanoseconds after the last.
    AnimFrame(u64),
}

impl Event {
    /// The handler of the event says whether it handled it.
    pub open spec fn asks_whether_handled(self) -> bool {
        self is Mouse || self is KeyDown
    }

    /// The handler that receives the event.
    pub open spec fn handler(self) -> Handler {
        match self {
            Event::Mouse(_) => Handler::Mouse,
            Event::MouseMoved(_) => Handler::MouseMoved,
            Event::HotChanged(_) => Handler::HotChanged,
            Event::KeyDown(_) => Handler::KeyDown,
            Event::KeyUp(_) => Handler::KeyUp,
            Event::Scroll(_) => Handler::Scroll,
            Event::AnimFrame(_) => Handler::AnimFrame,
        }
    }
}

/// How a mouse event went up the tree. `path` holds the nodes under the
/// pointer, the root first, each with the pointer's position in its
/// coordinates. `delivered` holds, in the order of delivery, every node that
/// received the event, the event as that node received it, and the node's
/// answer.
///
/// The event went to the deepest node first and then to one ancestor after
/// the other, each time with the position in the receiver's coordinates and
/// otherwise as it came. Delivery ended with the first widget that answered
/// that it had handled the event, and the event counts as handled exactly if
/// there was one; where none answered so, every node of the path received the
/// event.
pub open spec fn bubbled(
    path: Seq<(Id, Point)>,
    event: MouseEvent,
    delivered: Seq<(Id, MouseEvent, bool)>,
    handled: bool,
) -> bool {
    &&& delivered.len() <= path.len()
    &&& forall|k: int|
        0 <= k < delivered.len() ==> {
            &&& (#[trigger] delivered[k]).0 == path[path.len() - 1 - k].0
            &&& delivered[k].1 == (MouseEvent { pos: path[path.len() - 1 - k].1, ..event })
            &&& delivered[k].2 ==> k == delivered.len() - 1
        }
    &&& handled == (delivered.len() > 0 && delivered.last().2)
    &&& !handled ==> delivered.len() == path.len()
}

/// A mouse event stops at the first widget that handles it: the widget that
/// answered so was the last to receive the event, the event counts as
/// handled, and none of the nodes above that widget received it.
pub proof fn stops_at_first_handler(
    path: Seq<(Id, Point)>,
    event: MouseEvent,
    delivered: Seq<(Id, MouseEvent, bool)>,
    handled: bool,
    k: int,
)
    requires
        bubbled(path, event, delivered, handled),
        0 <= k < delivered.len(),
        delivered[k].2,
    ensures
        handled,
        delivered.len() == k + 1,
        delivered[k].0 == path[path.len() - 1 - k].0,
        forall|j: int| 0 <= j < k ==> !(#[trigger] delivered[j]).2,
{
}

/// Whether a mouse event goes on to the parent: it does while the widget
/// that received it last did not handle it and there is a node above.
/// `above` is the number of nodes on the path above the last receiver.
pub fn bubbles_on(answered: bool, above: usize) -> (go_on: bool)
    ensures
        go_on == (!answered && above > 0),
{
    !answered && above > 0
}

/// What a move of the pointer delivers, in order: where the hot node
/// changes, the old one learns that it is hot no longer, then the new one that
/// it is hot; after that the node under the pointer is told of the move.
/// `target` is the deepest node under the pointer, with the pointer's position
/// in its coordinates.
pub open spec fn move_plan(hot: Option<Id>, target: Option<(Id, Point)>) -> Seq<(Id, Event)> {
    let next = match target {
        Some(t) => Some(t.0),
        None => None,
    };
    let leave = if hot != next && hot.is_some() {
        seq![(hot.unwrap(), Event::HotChanged(false))]
    } else {
        Seq::empty()
    };
    let enter = if hot != next && next.is_some() {
        seq![(next.unwrap(), Event::HotChanged(true))]
    } else {
        Seq::empty()
    };
    let moved = if target.is_some() {
        seq![(target.unwrap().0, Event::MouseMoved(target.unwrap().1))]
    } else {
        Seq::empty()
    };
    leave + enter + moved
}

/// In what a move of the pointer delivers, the notice that a node is hot no
/// longer comes before the notice that a node is hot, and both come before
/// the move itself.
pub proof fn hot_changes_come_first(hot: Option<Id>, target: Option<(Id, Point)>)
    ensures
        forall|i: int, j: int|
            0 <= i < move_plan(hot, target).len() && 0 <= j < move_plan(hot, target).len()
                && (#[trigger] move_plan(hot, target)[i]).1 == Event::HotChanged(false) && (
            #[trigger] move_plan(hot, target)[j]).1 == Event::HotChanged(true) ==> i < j,
        forall|i: int, j: int|
            0 <= i < move_plan(hot, target).len() && 0 <= j < move_plan(hot, target).len()
                && (#[trigger] move_plan(hot, target)[i]).1 is HotChanged && (
            #[trigger] move_plan(hot, target)[j]).1 is MouseMoved ==> i < j,
{
}

/// The time between two animation frames: nothing on the first frame after
/// the runtime was idle, else the time since the frame before, however many
/// frames were skipped.
pub open spec fn interval_since(last: Option<u64>, now: u64) -> u64 {
    match last {
        None => 0,
        Some(then) => if now >= then {
            (now - then) as u64
        } else {
            0
        },
    }
}

/// One of the nodes that received the frame asked for the next.
pub open spec fn any_asked(ticked: Seq<(Id, bool)>) -> bool {
    exists|k: int| 0 <= k < ticked.len() && (#[trigger] ticked[k]).1
}

/// `node` is among the nodes that received the frame.
pub open spec fn was_ticked(ticked: Seq<(Id, bool)>, node: Id) -> bool {
    exists|k: int| 0 <= k < ticked.len() && (#[trigger] ticked[k]).0 == node
}

/// A node that did not ask for the next frame during one frame does not
/// receive the next, unless it is asked for in between. `first` is what one
/// frame returned, `between` says which nodes animate after it, and `second`
/// is what the next frame returned.
pub proof fn no_frame_unasked(
    first: Seq<(Id, bool)>,
    between: Seq<bool>,
    second: Seq<(Id, bool)>,
    node: Id,
)
    requires
        forall|n: int|
            0 <= n < between.len() ==> ((#[trigger] between[n]) <==> first.contains(
                (n as Id, true),
            )),
        forall|n: Id|
            was_ticked(second, n) <==> n < between.len() && between[n as int],
        !first.contains((node, true)),
    ensures
        !was_ticked(second, node),
{
}

/// Hit testing is a function of the tree and its rectangles: two states
/// with the same nodes and the same rectangles have the same nodes under
/// every point, whatever their widgets hold and whatever else differs.
pub proof fn same_tree_same_target<W>(a: UiState<W>, b: UiState<W>, x: int, y: int)
    requires
        a.nodes == b.nodes,
        a.geom == b.geom,
    ensures
        hit_path(a.nodes, a.geom, x, y) == hit_path(b.nodes, b.geom, x, y),
        hit_target(a.nodes, a.geom, x, y) == hit_target(b.nodes, b.geom, x, y),
{
}

/// What became of a mouse event.
pub struct Bubble {
    /// The nodes that received the event, in the order in which they did,
    /// each with the event as it received it and with its answer.
    pub delivered: Vec<(Id, MouseEvent, bool)>,
    /// One of them handled it.
    pub handled: bool,
}

/// One animation frame.
pub struct Tick {
    /// The interval that the widgets were given, in nanoseconds.
    pub interval: u64,
    /// The nodes that received the frame, in increasing order, each with
    /// whether it asked for the next frame.
    pub ticked: Vec<(Id, bool)>,
}

/// The widget tree and its state.
pub struct Ui<W: Widget> {
    widgets: Vec<Option<W>>,
    graph: Graph,
    geom: Vec<Rect>,
    anim: Vec<bool>,
    status: Vec<Status>,
    hot: Option<Id>,
    focus: Option<Id>,
    needs_paint: bool,
    last_tick: Option<u64>,
}

impl<W: Widget> View for Ui<W> {
    type V = UiState<W>;

    closed spec fn view(&self) -> UiState<W> {
        UiState {
            widgets: self.widgets@,
            nodes: self.graph@,
            geom: self.geom@,
            anim: self.anim@,
            status: self.status@,
            hot: self.hot,
            focus: self.focus,
            needs_paint: self.needs_paint,
            last_tick: self.last_tick,
        }
    }
}

impl<W: Widget> Ui<W> {
    /// The state is well formed.
    pub open spec fn wf(&self) -> bool {
        self@.wf()
    }

    /// The tree that holds `root` and nothing else. Nothing is laid out,
    /// hot, focused or animating, and a first paint is due.
    pub fn new(root: W) -> (ui: Ui<W>)
        ensures
            ui.wf(),
            ui@ == (UiState {
                widgets: seq![Some(root)],
                nodes: seq![Node { parent: None, children: Seq::empty(), live: true }],
                geom: seq![Rect::empty()],
                anim: seq![false],
                status: seq![Status::Untouched],
                hot: None,
                focus: None,
                needs_paint: true,
                last_tick: None,
            }),
    {
        let mut widgets: Vec<Option<W>> = Vec::new();
        widgets.push(Some(root));
        let mut geom: Vec<Rect> = Vec::new();
        geom.push(Rect::zero());
        let mut anim: Vec<bool> = Vec::new();
        anim.push(false);
        let mut status: Vec<Status> = Vec::new();
        status.push(Status::Untouched);
        let ui = Ui {
            widgets,
            graph: Graph::new(),
            geom,
            anim,
            status,
            hot: None,
            focus: None,
            needs_paint: true,
            last_tick: None,
        };
        proof {
            assert(ui@.widgets =~= seq![Some(root)]);
            assert(ui@.geom =~= seq![Rect::empty()]);
            assert(ui@.anim =~= seq![false]);
            assert(ui@.status =~= seq![Status::Untouched]);
        }
        ui
    }

    /// The structure of the tree.
    pub fn graph(&self) -> (graph: &Graph)
        ensures
            graph@ == self@.nodes,
    {
        &self.graph
    }

    /// The widget of `id`, while `id` is in the tree.
    pub fn widget(&self, id: Id) -> (widget: Option<&W>)
        ensures
            id < self@.widgets.len() ==> match self@.widgets[id as int] {
                Some(w) => widget == Some(&w),
                None => widget.is_none(),
            },
            id >= self@.widgets.len() ==> widget.is_none(),
    {
        if id < self.widgets.len() {
            self.widgets[id].as_ref()
        } else {
            None
        }
    }

    /// The rectangle of `id` in the coordinates of its parent.
    pub fn geometry(&self, id: Id) -> (rect: Option<Rect>)
        ensures
            id < self@.geom.len() ==> rect == Some(self@.geom[id as int]),
            id >= self@.geom.len() ==> rect.is_none(),
    {
        if id < self.geom.len() {
            Some(self.geom[id])
        } else {
            None
        }
    }

    /// How far `id` came in the last layout pass.
    pub fn layout_status(&self, id: Id) -> (status: Option<Status>)
        ensures
            id < self@.status.len() ==> status == Some(self@.status[id as int]),
            id >= self@.status.len() ==> status.is_none(),
    {
        if id < self.status.len() {
            Some(self.status[id])
        } else {
            None
        }
    }

    /// The node under the pointer.
    pub fn hot(&self) -> (hot: Option<Id>)
        ensures
            hot == self@.hot,
    {
        self.hot
    }

    /// The node that holds the keyboard focus.
    pub fn focus(&self) -> (focus: Option<Id>)
        ensures
            focus == self@.focus,
    {
        self.focus
    }

    /// A repaint is due.
    pub fn needs_paint(&self) -> (due: bool)
        ensures
            due == self@.needs_paint,
    {
        self.needs_paint
    }

    /// `id` has asked for the next animation frame.
    pub fn wants_anim_frame(&self, id: Id) -> (wants: bool)
        ensures
            wants == (id < self@.anim.len() && self@.anim[id as int]),
    {
        id < self.anim.len() && self.anim[id]
    }

    /// Put `widget` into the tree as the last child of `parent`, under a
    /// fresh identifier, which is returned. Where `parent` is not in the
    /// tree, or no identifier is left, nothing changes and the widget is
    /// dropped.
    pub fn add(&mut self, parent: Id, widget: W) -> (id: Option<Id>)
        requires
            old(self).wf(),
        ensures
            final(self).wf(),
            id.is_some() <==> is_live(old(self)@.nodes, parent) && old(self)@.nodes.len()
                < usize::MAX,
            id.is_none() ==> final(self)@ == old(self)@,
            id.is_some() ==> id.unwrap() == old(self)@.nodes.len() && final(self)@ == (UiState {
                widgets: old(self)@.widgets.push(Some(widget)),
                nodes: with_child(old(self)@.nodes, parent),
                geom: old(self)@.geom.push(Rect::empty()),
                anim: old(self)@.anim.push(false),
                status: old(self)@.status.push(Status::Untouched),
                needs_paint: true,
                ..old(self)@
            }),
    {
        match self.graph.add_child(parent) {
            None => None,
            Some(id) => {
                self.widgets.push(Some(widget));
                self.geom.push(Rect::zero());
                self.anim.push(false);
                self.status.push(Status::Untouched);
                self.needs_paint = true;
                Some(id)
            },
        }
    }

    /// Record what the widget of `node` asked for through its handler
    /// context.
    pub fn apply_requests(&mut self, node: Id, asked: HandlerState)
        requires
            old(self).wf(),
            is_live(old(self)@.nodes, node),
        ensures
            final(self).wf(),
            final(self)@ == old(self)@.answered(node, asked),
    {
        if asked.anim_frame {
            self.anim[node] = true;
        }
        if asked.repaint {
            self.needs_paint = true;
        }
        match asked.focus {
            Some(true) => {
                self.focus = Some(node);
            },
            Some(false) => {
                if self.focus == Some(node) {
                    self.focus = None;
                }
            },
            None => {},
        }
    }

    /// Lay the tree out under `bc`, with at most `max_steps` calls of
    /// `layout` on widgets.
    ///
    /// The pass asks the root, then whatever child a widget asks for, and
    /// resumes a widget once the child it asked for has settled. It ends with
    /// the root's size, or with the first violation of the protocol: a request
    /// for a node that is not a child, a position for a child whose size the
    /// widget has not received, or no step left.
    ///
    /// Whatever the widgets answer, the tree and what is hot, focused or
    /// animating stay as they are, and so does the rectangle of every node
    /// that the pass did not touch. After a pass that succeeded the root has
    /// the size returned and no node is left pending. After a pass that
    /// failed, the node that the error names is in the tree and still
    /// pending, and what `NotAChild` names as the child is not a child of it.
    pub fn layout(&mut self, bc: &BoxConstraints, max_steps: usize) -> (r: Result<
        Size,
        LayoutError,
    >)
        requires
            old(self).wf(),
        ensures
            final(self).wf(),
            final(self)@.nodes == old(self)@.nodes,
            final(self)@.anim == old(self)@.anim,
            final(self)@.hot == old(self)@.hot,
            final(self)@.focus == old(self)@.focus,
            final(self)@.needs_paint == old(self)@.needs_paint,
            final(self)@.last_tick == old(self)@.last_tick,
            max_steps == 0 ==> r == Err::<Size, LayoutError>(
                LayoutError::Unresolved { node: ROOT },
            ),
            r.is_ok() ==> {
                &&& final(self)@.geom[ROOT as int].size == r.unwrap()
                &&& final(self)@.status[ROOT as int] == Status::Resolved
                &&& forall|n: int|
                    0 <= n < final(self)@.status.len() ==> (#[trigger] final(self)@.status[n])
                        != Status::Pending
            },
            r matches Err(e) ==> {
                &&& is_live(old(self)@.nodes, e.node())
                &&& final(self)@.status[e.node() as int] == Status::Pending
                &&& e matches LayoutError::NotAChild { node, child } ==> !is_child(
                    old(self)@.nodes,
                    node,
                    child,
                )
            },
            forall|n: int|
                0 <= n < final(self)@.status.len() && (#[trigger] final(self)@.status[n])
                    == Status::Untouched ==> final(self)@.geom[n] == old(self)@.geom[n],
    {
        let mut pass = LayoutPass::begin(&self.graph, *bc, max_steps);
        loop
            invariant
                old(self)@.wf(),
                self.graph@ == old(self)@.nodes,
                self.widgets@.len() == self.graph@.len(),
                self.geom@.len() == self.graph@.len(),
                forall|i: int|
                    0 <= i < self.graph@.len() ==> (#[trigger] self.widgets@[i]).is_some()
                        == self.graph@[i].live,
                self.anim@ == old(self)@.anim,
                self.hot == old(self)@.hot,
                self.focus == old(self)@.focus,
                self.needs_paint == old(self)@.needs_paint,
                self.last_tick == old(self)@.last_tick,
                pass@.fits(self.graph@),
                pass@.stack.len() > 0,
                pass@.steps_left <= max_steps,
                pass@.steps_left == max_steps ==> pass@.stack.last().node == ROOT,
                pass@.status.len() == self.graph@.len(),
                forall|n: int|
                    0 <= n < self.graph@.len() && (#[trigger] pass@.status[n]) == Status::Untouched
                        ==> self.geom@[n] == old(self)@.geom[n],
            decreases pass@.steps_left,
        {
            let ghost polled = pass@;
            let next = pass.poll();
            proof {
                fits_whatever_steps(polled, pass@, self.graph@);
                top_in_tree(pass@, self.graph@);
            }
            let progress = match next {
                Err(e) => Progress::Failed(e),
                Ok(call) => ask(&mut self.widgets, &self.graph, &mut self.geom, &mut pass, call),
            };
            match progress {
                Progress::Continue => {},
                Progress::Done(size) => {
                    self.status = pass.into_status();
                    return Ok(size);
                },
                Progress::Failed(e) => {
                    self.status = pass.into_status();
                    return Err(e);
                },
            }
        }
    }

    /// Remove `node` and everything below it from the tree, drop their
    /// widgets, and tell the widget of the parent that its child is gone.
    /// What was removed is returned, in increasing order. The root cannot be
    /// removed, nor what is not in the tree: then nothing changes.
    ///
    /// What was hot, focused or animating among the removed nodes is so no
    /// longer, and a repaint is due.
    pub fn remove(&mut self, node: Id) -> (taken: Vec<Id>)
        requires
            old(self).wf(),
        ensures
            final(self).wf(),
            !can_remove(old(self)@.nodes, node) ==> taken@.len() == 0 && final(self)@ == old(self)@,
            can_remove(old(self)@.nodes, node) ==> {
                &&& final(self)@.nodes == removed(old(self)@.nodes, node)
                &&& final(self)@.geom == old(self)@.geom
                &&& final(self)@.status == old(self)@.status
                &&& final(self)@.last_tick == old(self)@.last_tick
                &&& final(self)@.needs_paint
                &&& final(self)@.hot == if old(self)@.hot.is_some() && descends(
                    old(self)@.nodes,
                    old(self)@.hot.unwrap(),
                    node,
                ) {
                    None
                } else {
                    old(self)@.hot
                }
                &&& final(self)@.focus == if old(self)@.focus.is_some() && descends(
                    old(self)@.nodes,
                    old(self)@.focus.unwrap(),
                    node,
                ) {
                    None
                } else {
                    old(self)@.focus
                }
                &&& forall|x: int|
                    0 <= x < old(self)@.nodes.len() ==> if descends(
                        old(self)@.nodes,
                        x as Id,
                        node,
                    ) {
                        (#[trigger] final(self)@.widgets[x]).is_none() && !final(self)@.anim[x]
                    } else {
                        &&& final(self)@.anim[x] == old(self)@.anim[x]
                        &&& x != old(self)@.nodes[node as int].parent.unwrap()
                            ==> final(self)@.widgets[x] == old(self)@.widgets[x]
                    }
            },
            forall|x: Id|
                taken@.contains(x) <==> {
                    &&& can_remove(old(self)@.nodes, node)
                    &&& x < old(self)@.nodes.len()
                    &&& descends(old(self)@.nodes, x, node)
                },
            forall|a: int, b: int| 0 <= a < b < taken@.len() ==> taken@[a] < taken@[b],
    {
        proof {
            root_in_tree(self@.nodes);
        }
        let parent = self.graph.parent(node);
        let taken = self.graph.remove(node);
        if taken.len() == 0 {
            proof {
                if can_remove(old(self)@.nodes, node) {
                    assert(descends(old(self)@.nodes, node, node));
                    assert(taken@.contains(node));
                }
            }
            return taken;
        }
        proof {
            assert(taken@.contains(taken@[0]));
            removal_drops_parent_last(old(self)@.nodes, node);
        }
        let parent = parent.unwrap();
        let mut i: usize = 0;
        while i < taken.len()
            invariant
                i <= taken@.len(),
                old(self)@.wf(),
                old(self)@.nodes.len() <= usize::MAX,
                well_formed(self.graph@),
                can_remove(old(self)@.nodes, node),
                self.graph@ == removed(old(self)@.nodes, node),
                self.geom@ == old(self)@.geom,
                self.status@ == old(self)@.status,
                self.hot == old(self)@.hot,
                self.focus == old(self)@.focus,
                self.last_tick == old(self)@.last_tick,
                self.widgets@.len() == old(self)@.nodes.len(),
                self.anim@.len() == old(self)@.nodes.len(),
                forall|x: Id|
                    taken@.contains(x) <==> x < old(self)@.nodes.len() && descends(
                        old(self)@.nodes,
                        x,
                        node,
                    ),
                forall|k: int|
                    0 <= k < i ==> self.widgets@[(#[trigger] taken@[k]) as int].is_none()
                        && !self.anim@[taken@[k] as int],
                forall|x: int|
                    0 <= x < old(self)@.nodes.len() && !descends(old(self)@.nodes, x as Id, node)
                        ==> (#[trigger] self.widgets@[x]) == old(self)@.widgets[x] && self.anim@[x]
                        == old(self)@.anim[x],
            decreases taken@.len() - i,
        {
            let x = taken[i];
            assert(taken@.contains(x));
            let ghost widgets_before = self.widgets@;
            let ghost anim_before = self.anim@;
            self.widgets[x] = None;
            self.anim[x] = false;
            proof {
                assert forall|k: int| 0 <= k < i + 1 implies self.widgets@[(
                #[trigger] taken@[k]) as int].is_none() && !self.anim@[taken@[k] as int] by {
                    assert(taken@.contains(taken@[k]));
                    if k < i && taken@[k] != x {
                        assert(widgets_before[taken@[k] as int].is_none());
                    }
                }
                assert forall|y: int|
                    0 <= y < old(self)@.nodes.len() && !descends(
                        old(self)@.nodes,
                        y as Id,
                        node,
                    ) implies (#[trigger] self.widgets@[y]) == old(self)@.widgets[y]
                    && self.anim@[y] == old(self)@.anim[y] by {
                    assert(widgets_before[y] == old(self)@.widgets[y]);
                }
            }
            i += 1;
        }
        proof {
            assert forall|x: int|
                0 <= x < old(self)@.nodes.len() && descends(
                    old(self)@.nodes,
                    x as Id,
                    node,
                ) implies (#[trigger] self.widgets@[x]).is_none() && !self.anim@[x] by {
                assert(taken@.contains(x as Id));
                let k = choose|k: int| 0 <= k < taken@.len() && taken@[k] == x as Id;
                assert(self.widgets@[taken@[k] as int].is_none());
            }
            assert forall|x: int|
                0 <= x < old(self)@.nodes.len() implies (#[trigger] self.anim@[x]) == (
                old(self)@.anim[x] && !descends(old(self)@.nodes, x as Id, node)) by {
                if descends(old(self)@.nodes, x as Id, node) {
                    assert(!self.anim@[x] && self.widgets@[x].is_none());
                } else {
                    assert(self.widgets@[x] == old(self)@.widgets[x]);
                }
            }
        }
        if let Some(hot) = self.hot {
            if contains_id(&taken, hot) {
                self.hot = None;
            }
        }
        if let Some(focus) = self.focus {
            if contains_id(&taken, focus) {
                self.focus = None;
            }
        }
        self.needs_paint = true;
        assert(self.widgets@[parent as int] == old(self)@.widgets[parent as int]);
        match &mut self.widgets[parent] {
            Some(w) => w.on_child_removed(node),
            None => unreached(),
        }
        proof {
            let before = old(self)@;
            let after = self@;
            assert forall|x: int| 0 <= x < after.nodes.len() implies (#[trigger] after.widgets[x]).is_some()
                == after.nodes[x].live by {
                if !descends(before.nodes, x as Id, node) {
                    assert(before.widgets[x].is_some() == before.nodes[x].live);
                }
            }
            assert forall|x: int|
                0 <= x < after.nodes.len() && #[trigger] after.anim[x] implies after.nodes[x].live by {
                assert(before.anim[x] && !descends(before.nodes, x as Id, node));
            }
            if after.hot.is_some() {
                let h = after.hot.unwrap();
                assert(!taken@.contains(h));
                assert(is_live(before.nodes, h));
                assert(!descends(before.nodes, h, node));
            }
            if after.focus.is_some() {
                let f = after.focus.unwrap();
                assert(!taken@.contains(f));
                assert(is_live(before.nodes, f));
                assert(!descends(before.nodes, f, node));
            }
        }
        taken
    }

    /// The whole tree in paint order, each node with its rectangle in the
    /// coordinates of the window.
    pub fn paint_plan(&self) -> (plan: Vec<(Id, Rect)>)
        requires
            self.wf(),
        ensures
            plan@ == paint_order(self@.nodes, self@.geom),
    {
        order(&self.graph, &self.geom)
    }

    /// Paint the tree into `ctx`: every widget paints itself, in paint
    /// order, and is handed its rectangle in the coordinates of the window.
    /// After that no repaint is due.
    ///
    /// Widgets that keep the default `paint` paint nothing.
    pub fn paint(&mut self, ctx: &mut PaintCtx)
        requires
            old(self).wf(),
        ensures
            final(self).wf(),
            W::keeps_default(Handler::Paint) ==> final(ctx)@ == old(ctx)@,
            final(self)@ == (UiState {
                widgets: final(self)@.widgets,
                needs_paint: false,
                ..old(self)@
            }),
    {
        let plan = order(&self.graph, &self.geom);
        proof {
            root_in_tree(self@.nodes);
            order_in_tree(self@.nodes, self@.geom, ROOT, Point { x: 0, y: 0 });
        }
        let mut i: usize = 0;
        while i < plan.len()
            invariant
                i <= plan@.len(),
                old(self)@.wf(),
                forall|k: int|
                    0 <= k < plan@.len() ==> is_live(old(self)@.nodes, (#[trigger] plan@[k]).0),
                self@ == (UiState { widgets: self@.widgets, ..old(self)@ }),
                self.widgets@.len() == old(self)@.widgets.len(),
                forall|x: int|
                    0 <= x < self.widgets@.len() ==> (#[trigger] self.widgets@[x]).is_some()
                        == old(self)@.nodes[x].live,
                W::keeps_default(Handler::Paint) ==> ctx@ == old(ctx)@,
            decreases plan@.len() - i,
        {
            let node = plan[i].0;
            let rect = plan[i].1;
            assert(is_live(old(self)@.nodes, plan@[i as int].0));
            match &mut self.widgets[node] {
                Some(w) => w.paint(ctx, &rect),
                None => unreached(),
            }
            i += 1;
        }
        self.needs_paint = false;
    }

    /// Hand `event` to the widget of `node`, in a context that names the
    /// node and says whether it is hot and whether it holds the focus, and
    /// record what the widget asked for through that context. Returns what the
    /// widget returned, or `false` for an event whose handler returns nothing,
    /// and the context as the widget left it.
    ///
    /// A widget that keeps the default for the event's handler does not
    /// handle the event and asks for nothing.
    pub fn deliver(&mut self, node: Id, event: &Event) -> (r: (bool, HandlerState))
        requires
            old(self).wf(),
            is_live(old(self)@.nodes, node),
        ensures
            final(self).wf(),
            final(self)@ == old(self)@.answered(node, r.1).with_widgets(final(self)@.widgets),
            forall|x: int|
                0 <= x < old(self)@.widgets.len() && x != node ==> (
                #[trigger] final(self)@.widgets[x]) == old(self)@.widgets[x],
            r.1.id == node,
            r.1.hot == (old(self)@.hot == Some(node)),
            r.1.focused == (old(self)@.focus == Some(node)),
            !event.asks_whether_handled() ==> !r.0,
            W::keeps_default(event.handler()) ==> {
                &&& !r.0
                &&& !r.1.repaint
                &&& !r.1.anim_frame
                &&& r.1.focus.is_none()
            },
    {
        let hot = self.hot == Some(node);
        let focused = self.focus == Some(node);
        let mut ctx = HandlerCtx::new(node, hot, focused);
        let handled = match &mut self.widgets[node] {
            Some(w) => match event {
                Event::Mouse(e) => w.mouse(e, &mut ctx),
                Event::MouseMoved(pos) => {
                    w.mouse_moved(*pos, &mut ctx);
                    false
                },
                Event::HotChanged(hot) => {
                    w.on_hot_changed(*hot, &mut ctx);
                    false
                },
                Event::KeyDown(e) => w.key_down(e, &mut ctx),
                Event::KeyUp(e) => {
                    w.key_up(e, &mut ctx);
                    false
                },
                Event::Scroll(e) => {
                    w.scroll(e, &mut ctx);
                    false
                },
                Event::AnimFrame(interval) => {
                    w.anim_frame(*interval, &mut ctx);
                    false
                },
            },
            None => unreached(),
        };
        let left = ctx.state();
        let asked = HandlerState {
            id: node,
            hot,
            focused,
            repaint: left.repaint,
            anim_frame: left.anim_frame,
            focus: left.focus,
        };
        self.apply_requests(node, asked);
        (handled, asked)
    }

    /// Hand `payload` to the widget of `node`, if `node` is in the tree, in
    /// a context that names the node, and record what the widget asked for
    /// through that context. Returns whether the widget handled it. Nothing
    /// happens for a node that is not in the tree.
    ///
    /// A widget that keeps the default `poke` does not handle the message,
    /// leaves the payload as it came and asks for nothing.
    pub fn poke(&mut self, node: Id, payload: &mut W::Payload) -> (handled: bool)
        requires
            old(self).wf(),
        ensures
            final(self).wf(),
            final(self)@.same_tree(old(self)@),
            !is_live(old(self)@.nodes, node) ==> {
                &&& !handled
                &&& final(self)@ == old(self)@
                &&& *final(payload) == *old(payload)
            },
            is_live(old(self)@.nodes, node) ==> old(self)@.follows(node, final(self)@),
            forall|x: int|
                0 <= x < old(self)@.widgets.len() && x != node ==> (
                #[trigger] final(self)@.widgets[x]) == old(self)@.widgets[x],
            W::keeps_default(Handler::Poke) ==> {
                &&& !handled
                &&& *final(payload) == *old(payload)
                &&& final(self)@ == old(self)@.with_widgets(final(self)@.widgets)
            },
    {
        if !self.graph.is_live(node) {
            assert(self@ =~= self@.with_widgets(self@.widgets));
            return false;
        }
        let hot = self.hot == Some(node);
        let focused = self.focus == Some(node);
        let mut ctx = HandlerCtx::new(node, hot, focused);
        let handled = match &mut self.widgets[node] {
            Some(w) => w.poke(payload, &mut ctx),
            None => unreached(),
        };
        let left = ctx.state();
        let asked = HandlerState {
            id: node,
            hot,
            focused,
            repaint: left.repaint,
            anim_frame: left.anim_frame,
            focus: left.focus,
        };
        self.apply_requests(node, asked);
        proof {
            assert(self@ == old(self)@.answered(node, asked).with_widgets(self@.widgets));
        }
        handled
    }

    /// The nodes under the point `pos` of the window, from the root down to
    /// the deepest, each with the point in its own coordinates.
    pub fn hit_path(&self, pos: Point) -> (path: Vec<(Id, Point)>)
        requires
            self.wf(),
        ensures
            path@ == hit_path(self@.nodes, self@.geom, pos.x as int, pos.y as int),
    {
        path_to(&self.graph, &self.geom, pos)
    }

    /// The deepest node under the point `pos` of the window.
    pub fn hit_test(&self, pos: Point) -> (target: Option<Id>)
        requires
            self.wf(),
        ensures
            target == match hit_target(self@.nodes, self@.geom, pos.x as int, pos.y as int) {
                Some(t) => Some(t.0),
                None => None::<Id>,
            },
    {
        let path = path_to(&self.graph, &self.geom, pos);
        if path.len() == 0 {
            None
        } else {
            Some(path[path.len() - 1].0)
        }
    }

    /// Send a mouse event to the tree. `event.pos` is in the coordinates of
    /// the window; every widget receives it in its own.
    ///
    /// The deepest node under the pointer receives the event first. While
    /// the widget that received it does not handle it, it goes on to the
    /// parent. Where the root does not cover the pointer nobody receives it.
    ///
    /// Widgets that keep the default `mouse` handle nothing, so that every
    /// node under the pointer receives the event.
    pub fn mouse(&mut self, event: &MouseEvent) -> (r: Bubble)
        requires
            old(self).wf(),
        ensures
            final(self).wf(),
            final(self)@.same_tree(old(self)@),
            bubbled(
                hit_path(
                    old(self)@.nodes,
                    old(self)@.geom,
                    event.pos.x as int,
                    event.pos.y as int,
                ),
                *event,
                r.delivered@,
                r.handled,
            ),
            W::keeps_default(Handler::Mouse) ==> !r.handled,
    {
        let path = path_to(&self.graph, &self.geom, event.pos);
        proof {
            path_in_tree(self@.nodes, self@.geom, event.pos.x as int, event.pos.y as int);
        }
        let mut delivered: Vec<(Id, MouseEvent, bool)> = Vec::new();
        let mut handled = false;
        let mut i: usize = path.len();
        let mut go_on = bubbles_on(handled, i);
        while go_on
            invariant
                i <= path@.len(),
                self.wf(),
                self@.same_tree(old(self)@),
                forall|k: int| 0 <= k < path@.len() ==> is_live(self@.nodes, (#[trigger] path@[k]).0),
                delivered@.len() == path@.len() - i,
                forall|k: int|
                    0 <= k < delivered@.len() ==> {
                        &&& (#[trigger] delivered@[k]).0 == path@[path@.len() - 1 - k].0
                        &&& delivered@[k].1 == (MouseEvent {
                            pos: path@[path@.len() - 1 - k].1,
                            ..*event
                        })
                        &&& delivered@[k].2 ==> k == delivered@.len() - 1
                    },
                handled == (delivered@.len() > 0 && delivered@.last().2),
                go_on == (!handled && i > 0),
                W::keeps_default(Handler::Mouse) ==> !handled,
            decreases i,
        {
            i -= 1;
            let node = path[i].0;
            let local = MouseEvent {
                pos: path[i].1,
                mods: event.mods,
                button: event.button,
                count: event.count,
            };
            assert(is_live(self@.nodes, path@[i as int].0));
            let ghost earlier = delivered@;
            let answer = self.deliver(node, &Event::Mouse(local));
            handled = answer.0;
            delivered.push((node, local, handled));
            go_on = bubbles_on(handled, i);
            proof {
                assert(delivered@.last() == (node, local, handled));
                assert forall|k: int| 0 <= k < delivered@.len() implies {
                    &&& (#[trigger] delivered@[k]).0 == path@[path@.len() - 1 - k].0
                    &&& delivered@[k].1 == (MouseEvent {
                        pos: path@[path@.len() - 1 - k].1,
                        ..*event
                    })
                    &&& delivered@[k].2 ==> k == delivered@.len() - 1
                } by {
                    if k < earlier.len() {
                        assert(delivered@[k] == earlier[k]);
                        if k == earlier.len() - 1 {
                            assert(earlier.last() == earlier[k]);
                        }
                    }
                }
            }
        }
        Bubble { delivered, handled }
    }

    /// The pointer moved to the point `pos` of the window.
    ///
    /// The deepest node under the pointer becomes the hot node. Where that
    /// is a change, the widget that was hot is told so first and the widget
    /// that is hot now second. Then the hot widget is told of the move, with
    /// the pointer's position in its coordinates. What was delivered is
    /// returned, in order.
    pub fn mouse_move(&mut self, pos: Point) -> (sent: Vec<(Id, Event)>)
        requires
            old(self).wf(),
        ensures
            final(self).wf(),
            final(self)@.nodes == old(self)@.nodes,
            final(self)@.geom == old(self)@.geom,
            final(self)@.status == old(self)@.status,
            final(self)@.last_tick == old(self)@.last_tick,
            final(self)@.hot == match hit_target(
                old(self)@.nodes,
                old(self)@.geom,
                pos.x as int,
                pos.y as int,
            ) {
                Some(t) => Some(t.0),
                None => None::<Id>,
            },
            sent@ == move_plan(
                old(self)@.hot,
                hit_target(old(self)@.nodes, old(self)@.geom, pos.x as int, pos.y as int),
            ),
    {
        let path = path_to(&self.graph, &self.geom, pos);
        proof {
            path_in_tree(self@.nodes, self@.geom, pos.x as int, pos.y as int);
        }
        let target = if path.len() == 0 {
            None
        } else {
            Some(path[path.len() - 1])
        };
        let sent = plan_move(self.hot, target);
        self.hot = match target {
            Some(t) => Some(t.0),
            None => None,
        };
        let mut i: usize = 0;
        while i < sent.len()
            invariant
                i <= sent@.len(),
                self.wf(),
                self@.nodes == old(self)@.nodes,
                self@.geom == old(self)@.geom,
                self@.status == old(self)@.status,
                self@.last_tick == old(self)@.last_tick,
                self@.hot == match target {
                    Some(t) => Some(t.0),
                    None => None::<Id>,
                },
                forall|k: int| 0 <= k < sent@.len() ==> is_live(self@.nodes, (#[trigger] sent@[k]).0),
            decreases sent@.len() - i,
        {
            let node = sent[i].0;
            let event = sent[i].1;
            assert(is_live(self@.nodes, sent@[i as int].0));
            let _ = self.deliver(node, &event);
            i += 1;
        }
        sent
    }

    /// A key went down. The widget that holds the focus receives the event,
    /// and nobody else; without a focus nobody does. Returns whether the
    /// widget handled it. The focus changes only as the widget asks through
    /// its context: it stays, or the widget gives it up.
    ///
    /// A widget that keeps the default `key_down` does not handle the event
    /// and asks for nothing.
    pub fn key_down(&mut self, event: &KeyEvent) -> (handled: bool)
        requires
            old(self).wf(),
        ensures
            final(self).wf(),
            final(self)@.same_tree(old(self)@),
            old(self)@.focus.is_none() ==> !handled && final(self)@ == old(self)@,
            old(self)@.focus.is_some() ==> old(self)@.follows(
                old(self)@.focus.unwrap(),
                final(self)@,
            ),
            forall|x: int|
                0 <= x < old(self)@.widgets.len() && Some(x as Id) != old(self)@.focus ==> (
                #[trigger] final(self)@.widgets[x]) == old(self)@.widgets[x],
            W::keeps_default(Handler::KeyDown) ==> !handled && final(self)@ == old(self)@.with_widgets(final(self)@.widgets),
    {
        match self.focus {
            None => {
                assert(self@ =~= self@.with_widgets(self@.widgets));
                false
            },
            Some(node) => {
                let answer = self.deliver(node, &Event::KeyDown(*event));
                proof {
                    assert(self@ == old(self)@.answered(node, answer.1).with_widgets(
                        self@.widgets,
                    ));
                }
                answer.0
            },
        }
    }

    /// A key went up. The widget that holds the focus receives the event,
    /// and nobody else; without a focus nobody does. The focus changes only
    /// as the widget asks through its context.
    ///
    /// A widget that keeps the default `key_up` asks for nothing.
    pub fn key_up(&mut self, event: &KeyEvent)
        requires
            old(self).wf(),
        ensures
            final(self).wf(),
            final(self)@.same_tree(old(self)@),
            old(self)@.focus.is_none() ==> final(self)@ == old(self)@,
            old(self)@.focus.is_some() ==> old(self)@.follows(
                old(self)@.focus.unwrap(),
                final(self)@,
            ),
            forall|x: int|
                0 <= x < old(self)@.widgets.len() && Some(x as Id) != old(self)@.focus ==> (
                #[trigger] final(self)@.widgets[x]) == old(self)@.widgets[x],
            W::keeps_default(Handler::KeyUp) ==> final(self)@ == old(self)@.with_widgets(
                final(self)@.widgets,
            ),
    {
        match self.focus {
            None => {
                assert(self@ =~= self@.with_widgets(self@.widgets));
            },
            Some(node) => {
                let answer = self.deliver(node, &Event::KeyUp(*event));
                proof {
                    assert(self@ == old(self)@.answered(node, answer.1).with_widgets(
                        self@.widgets,
                    ));
                }
            },
        }
    }

    /// The wheel turned while the pointer was at the point `pos` of the
    /// window. The deepest node under the pointer receives the event, whatever
    /// is hot or focused, and is returned.
    pub fn scroll(&mut self, pos: Point, event: &ScrollEvent) -> (target: Option<Id>)
        requires
            old(self).wf(),
        ensures
            final(self).wf(),
            final(self)@.same_tree(old(self)@),
            target == match hit_target(
                old(self)@.nodes,
                old(self)@.geom,
                pos.x as int,
                pos.y as int,
            ) {
                Some(t) => Some(t.0),
                None => None::<Id>,
            },
            target.is_none() ==> final(self)@ == old(self)@,
            forall|x: int|
                0 <= x < old(self)@.widgets.len() && Some(x as Id) != target ==> (
                #[trigger] final(self)@.widgets[x]) == old(self)@.widgets[x],
    {
        let path = path_to(&self.graph, &self.geom, pos);
        proof {
            path_in_tree(self@.nodes, self@.geom, pos.x as int, pos.y as int);
        }
        if path.len() == 0 {
            return None;
        }
        let node = path[path.len() - 1].0;
        assert(is_live(self@.nodes, path@[path@.len() - 1].0));
        let _ = self.deliver(node, &Event::Scroll(*event));
        Some(node)
    }

    /// The interval that a frame at the time `now` would hand to the
    /// widgets.
    pub fn frame_interval(&self, now: u64) -> (interval: u64)
        ensures
            interval == interval_since(self@.last_tick, now),
    {
        match self.last_tick {
            None => 0,
            Some(then) => {
                if now >= then {
                    now - then
                } else {
                    0
                }
            },
        }
    }

    /// The nodes that have asked for the next animation frame, in
    /// increasing order.
    pub fn anim_targets(&self) -> (targets: Vec<Id>)
        ensures
            forall|n: Id| targets@.contains(n) <==> n < self@.anim.len() && self@.anim[n as int],
            forall|a: int, b: int| 0 <= a < b < targets@.len() ==> targets@[a] < targets@[b],
    {
        let mut targets: Vec<Id> = Vec::new();
        let mut i: usize = 0;
        while i < self.anim.len()
            invariant
                i <= self.anim@.len(),
                forall|n: Id| targets@.contains(n) <==> n < i && self.anim@[n as int],
                forall|a: int, b: int| 0 <= a < b < targets@.len() ==> targets@[a] < targets@[b],
                forall|a: int| 0 <= a < targets@.len() ==> targets@[a] < i,
            decreases self.anim@.len() - i,
        {
            let ghost earlier = targets@;
            if self.anim[i] {
                targets.push(i);
                assert(targets@[earlier.len() as int] == i);
            }
            proof {
                assert forall|n: Id| targets@.contains(n) <==> n < i + 1 && self.anim@[
                    n as int
                ] by {
                    if targets@.contains(n) {
                        let a = choose|a: int| 0 <= a < targets@.len() && targets@[a] == n;
                        if a < earlier.len() {
                            assert(earlier[a] == n);
                            assert(earlier.contains(n));
                        }
                    }
                    if n < i && self.anim@[n as int] {
                        assert(earlier.contains(n));
                        let a = choose|a: int| 0 <= a < earlier.len() && earlier[a] == n;
                        assert(targets@[a] == n);
                    }
                }
                assert forall|a: int, b: int| 0 <= a < b < targets@.len() implies targets@[a]
                    < targets@[b] by {
                    if b == earlier.len() {
                        assert(targets@[a] == earlier[a]);
                    }
                }
            }
            i += 1;
        }
        targets
    }

    /// Nobody has asked for the next animation frame any more.
    fn clear_anim(&mut self)
        requires
            old(self).wf(),
        ensures
            final(self).wf(),
            final(self)@ == (UiState { anim: final(self)@.anim, ..old(self)@ }),
            final(self)@.anim.len() == old(self)@.anim.len(),
            forall|n: int| 0 <= n < final(self)@.anim.len() ==> !(#[trigger] final(self)@.anim[n]),
    {
        let mut i: usize = 0;
        while i < self.anim.len()
            invariant
                i <= self.anim@.len(),
                self.anim@.len() == old(self)@.anim.len(),
                self@ == (UiState { anim: self@.anim, ..old(self)@ }),
                forall|n: int| 0 <= n < i ==> !(#[trigger] self.anim@[n]),
            decreases self.anim@.len() - i,
        {
            self.anim[i] = false;
            i += 1;
        }
    }

    /// An animation frame begins at the time `now`, in nanoseconds.
    ///
    /// The nodes that have asked for the frame receive it, in increasing
    /// order, and nobody else does. The interval they are given is 0 on the
    /// first frame after the runtime was idle, and else the time since the
    /// frame before. A node receives the next frame only if it asks for it
    /// again during this one. The animation goes on while any node asked, and
    /// else the runtime is idle again.
    pub fn anim_frame(&mut self, now: u64) -> (tick: Tick)
        requires
            old(self).wf(),
        ensures
            final(self).wf(),
            final(self)@.nodes == old(self)@.nodes,
            final(self)@.geom == old(self)@.geom,
            final(self)@.status == old(self)@.status,
            final(self)@.hot == old(self)@.hot,
            tick.interval == interval_since(old(self)@.last_tick, now),
            forall|n: Id|
                was_ticked(tick.ticked@, n) <==> n < old(self)@.anim.len() && old(self)@.anim[
                    n as int
                ],
            forall|a: int, b: int|
                0 <= a < b < tick.ticked@.len() ==> tick.ticked@[a].0 < tick.ticked@[b].0,
            forall|n: int|
                0 <= n < final(self)@.anim.len() ==> ((#[trigger] final(self)@.anim[n])
                    <==> tick.ticked@.contains((n as Id, true))),
            final(self)@.last_tick == if any_asked(tick.ticked@) {
                Some(now)
            } else {
                None
            },
    {
        let interval = self.frame_interval(now);
        let targets = self.anim_targets();
        proof {
            root_in_tree(self@.nodes);
            assert forall|k: int| 0 <= k < targets@.len() implies is_live(
                self@.nodes,
                #[trigger] targets@[k],
            ) by {
                assert(targets@.contains(targets@[k]));
            }
        }
        self.clear_anim();
        let mut ticked: Vec<(Id, bool)> = Vec::new();
        let mut any = false;
        let mut i: usize = 0;
        while i < targets.len()
            invariant
                i <= targets@.len(),
                self.wf(),
                self@.nodes == old(self)@.nodes,
                self@.geom == old(self)@.geom,
                self@.status == old(self)@.status,
                self@.hot == old(self)@.hot,
                self@.nodes.len() <= usize::MAX,
                forall|k: int| 0 <= k < targets@.len() ==> is_live(self@.nodes, #[trigger] targets@[k]),
                forall|a: int, b: int| 0 <= a < b < targets@.len() ==> targets@[a] < targets@[b],
                ticked@.len() == i,
                forall|k: int| 0 <= k < i ==> (#[trigger] ticked@[k]).0 == targets@[k],
                forall|n: int|
                    0 <= n < self@.anim.len() ==> ((#[trigger] self@.anim[n])
                        <==> ticked@.contains((n as Id, true))),
                any == any_asked(ticked@),
            decreases targets@.len() - i,
        {
            let node = targets[i];
            let ghost before = self@;
            let ghost earlier = ticked@;
            let answer = self.deliver(node, &Event::AnimFrame(interval));
            let asked = answer.1.anim_frame;
            ticked.push((node, asked));
            if asked {
                any = true;
            }
            proof {
                assert(ticked@[i as int] == (node, asked));
                assert forall|n: int| 0 <= n < self@.anim.len() implies ((
                #[trigger] self@.anim[n]) <==> ticked@.contains((n as Id, true))) by {
                    if earlier.contains((n as Id, true)) {
                        let k = choose|k: int|
                            0 <= k < earlier.len() && earlier[k] == (n as Id, true);
                        assert(ticked@[k] == (n as Id, true));
                        assert(earlier[k].0 == targets@[k]);
                    }
                    if ticked@.contains((n as Id, true)) {
                        let k = choose|k: int|
                            0 <= k < ticked@.len() && ticked@[k] == (n as Id, true);
                        if k < i {
                            assert(earlier[k] == (n as Id, true));
                        }
                    }
                    if n == node {
                        if before.anim[n] {
                            let k = choose|k: int|
                                0 <= k < earlier.len() && earlier[k] == (n as Id, true);
                            assert(earlier[k].0 == targets@[k]);
                        }
                    }
                }
                if any_asked(earlier) {
                    let k = choose|k: int| 0 <= k < earlier.len() && (#[trigger] earlier[k]).1;
                    assert(ticked@[k] == earlier[k]);
                }
                if any_asked(ticked@) {
                    let k = choose|k: int| 0 <= k < ticked@.len() && (#[trigger] ticked@[k]).1;
                    if k < i {
                        assert(earlier[k] == ticked@[k]);
                    }
                }
                assert forall|k: int| 0 <= k < i + 1 implies (#[trigger] ticked@[k]).0
                    == targets@[k] by {
                    if k < i {
                        assert(ticked@[k] == earlier[k]);
                    }
                }
            }
            i += 1;
        }
        self.last_tick = if any {
            Some(now)
        } else {
            None
        };
        proof {
            assert forall|n: Id|
                was_ticked(ticked@, n) <==> n < old(self)@.anim.len() && old(self)@.anim[
                    n as int
                ] by {
                if was_ticked(ticked@, n) {
                    let k = choose|k: int| 0 <= k < ticked@.len() && (#[trigger] ticked@[k]).0 == n;
                    assert(targets@.contains(targets@[k]));
                }
                if n < old(self)@.anim.len() && old(self)@.anim[n as int] {
                    assert(targets@.contains(n));
                    let k = choose|k: int| 0 <= k < targets@.len() && targets@[k] == n;
                    assert(ticked@[k].0 == n);
                }
            }
            assert forall|a: int, b: int| 0 <= a < b < ticked@.len() implies ticked@[a].0
                < ticked@[b].0 by {
                assert(ticked@[a].0 == targets@[a]);
                assert(ticked@[b].0 == targets@[b]);
            }
        }
        Tick { interval, ticked }
    }
}

/// What a move of the pointer delivers, in order.
pub fn plan_move(hot: Option<Id>, target: Option<(Id, Point)>) -> (plan: Vec<(Id, Event)>)
    ensures
        plan@ == move_plan(hot, target),
{
    let next = match target {
        Some(t) => Some(t.0),
        None => None,
    };
    let mut plan: Vec<(Id, Event)> = Vec::new();
    if hot != next {
        if let Some(old_hot) = hot {
            plan.push((old_hot, Event::HotChanged(false)));
        }
        if let Some(new_hot) = next {
            plan.push((new_hot, Event::HotChanged(true)));
        }
    }
    if let Some(t) = target {
        plan.push((t.0, Event::MouseMoved(t.1)));
    }
    assert(plan@ =~= move_plan(hot, target));
    plan
}

/// Make one `layout` call, on the widget on top of the stack of `pass`, and
/// hand its answer to the pass.
fn ask<W: Widget>(
    widgets: &mut Vec<Option<W>>,
    graph: &Graph,
    geom: &mut Vec<Rect>,
    pass: &mut LayoutPass,
    call: Call,
) -> (r: Progress)
    requires
        graph.wf(),
        old(widgets)@.len() == graph@.len(),
        old(geom)@.len() == graph@.len(),
        forall|i: int|
            0 <= i < graph@.len() ==> (#[trigger] old(widgets)@[i]).is_some() == graph@[i].live,
        old(pass)@.fits(graph@),
        old(pass)@.stack.len() > 0,
        call.node == old(pass)@.stack.last().node,
    ensures
        final(widgets)@.len() == graph@.len(),
        final(geom)@.len() == graph@.len(),
        forall|i: int|
            0 <= i < graph@.len() ==> (#[trigger] final(widgets)@[i]).is_some() == graph@[i].live,
        final(pass)@.fits(graph@),
        final(pass)@.steps_left == old(pass)@.steps_left,
        final(pass)@.status.len() == graph@.len(),
        r is Continue ==> final(pass)@.stack.len() > 0,
        r is Done ==> final(pass)@.settled(),
        r matches Progress::Done(size) ==> {
            &&& final(geom)@[ROOT as int].size == size
            &&& final(pass)@.status[ROOT as int] == Status::Resolved
        },
        r matches Progress::Failed(e) ==> {
            &&& is_live(graph@, e.node())
            &&& final(pass)@.status[e.node() as int] == Status::Pending
            &&& e matches LayoutError::NotAChild { node, child } ==> !is_child(graph@, node, child)
        },
        forall|n: int|
            0 <= n < graph@.len() && (#[trigger] final(pass)@.status[n]) == Status::Untouched
                ==> old(pass)@.status[n] == Status::Untouched && final(geom)@[n] == old(geom)@[n],
{
    let node = call.node;
    proof {
        top_in_tree(pass@, graph@);
    }
    let mut ctx = LayoutCtx::new();
    let result = match &mut widgets[node] {
        Some(w) => w.layout(&call.bc, graph.children(node), call.size, &mut ctx),
        None => unreached(),
    };
    let positions = ctx.into_positions();
    proof {
        if !(outcome(pass@, graph@, result, positions@) is Failed) {
            untouched_stay(pass@, graph@, geom@, result, positions@);
        }
    }
    let progress = pass.respond(graph, geom, result, &positions);
    proof {
        if pass@.stack.len() > 0 {
            top_in_tree(pass@, graph@);
        } else {
            fits_counts(pass@, graph@);
        }
    }
    progress
}

} // verus!
