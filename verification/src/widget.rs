//! The widget capability set, the events it receives and the contexts
//! through which a widget answers the runtime.

use vstd::prelude::*;
use crate::geometry::{BoxConstraints, Point, Rect, Size};

verus! {

/// The name of a node of the widget tree.
pub type Id = usize;

/// An identifier that no tree ever hands out. A widget that asks for it as a
/// child asks for a child that it does not own.
pub const NO_CHILD: Id = usize::MAX;

/// What a widget answers to one call of `layout`.
#[derive(Clone, Copy, Debug, PartialEq, Eq, Structural)]
pub enum LayoutResult {
    /// The widget has settled on its own size.
    Size(Size),
    /// The widget needs the size of this child under these constraints.
    RequestChild(Id, BoxConstraints),
}

/// The modifier keys held down while an event happened.
#[derive(Clone, Copy, Debug, PartialEq, Eq, Structural)]
pub struct KeyModifiers {
    pub shift: bool,
    pub alt: bool,
    pub ctrl: bool,
    pub meta: bool,
}

/// A button of the pointing device.
#[derive(Clone, Copy, Debug, PartialEq, Eq, Structural)]
pub enum MouseButton {
    Left,
    Middle,
    Right,
    X1,
    X2,
}

/// The state of the mouse for a click, mouse-up, or move event.
#[derive(Clone, Copy, Debug, PartialEq, Eq, Structural)]
pub struct MouseEvent {
    /// The location of the mouse.
    pub pos: Point,
    /// The currently active modifiers.
    pub mods: KeyModifiers,
    /// Which mouse button was pressed or released.
    pub button: MouseButton,
    /// Count of multiple clicks, is 0 for mouse up event.
    pub count: u32,
}

/// A key that went down or up.
#[derive(Clone, Copy, Debug, PartialEq, Eq, Structural)]
pub struct KeyEvent {
    /// The platform's code for the key.
    pub key_code: u32,
    /// The event repeats a key that is held down.
    pub is_repeat: bool,
    /// The currently active modifiers.
    pub mods: KeyModifiers,
}

/// A turn of the scroll wheel.
#[derive(Clone, Copy, Debug, PartialEq, Eq, Structural)]
pub struct ScrollEvent {
    pub dx: i32,
    pub dy: i32,
    /// The currently active modifiers.
    pub mods: KeyModifiers,
}

/// One drawing command.
#[derive(Clone, Copy, Debug, PartialEq, Eq, Structural)]
pub enum PaintCmd {
    /// Fill `rect` with the colour `rgba`.
    FillRect { rect: Rect, rgba: u32 },
    /// Draw the outline of `rect` in the colour `rgba`.
    StrokeRect { rect: Rect, rgba: u32 },
}

/// The context that widgets paint into: the drawing commands issued so far,
/// oldest first.
pub struct PaintCtx {
    commands: Vec<PaintCmd>,
}

impl View for PaintCtx {
    type V = Seq<PaintCmd>;

    closed spec fn view(&self) -> Seq<PaintCmd> {
        self.commands@
    }
}

impl PaintCtx {
    pub fn new() -> (ctx: PaintCtx)
        ensures
            ctx@ == Seq::<PaintCmd>::empty(),
    {
        PaintCtx { commands: Vec::new() }
    }

    pub fn fill_rect(&mut self, rect: Rect, rgba: u32)
        ensures
            final(self)@ == old(self)@.push(PaintCmd::FillRect { rect, rgba }),
    {
        self.commands.push(PaintCmd::FillRect { rect, rgba });
    }

    pub fn stroke_rect(&mut self, rect: Rect, rgba: u32)
        ensures
            final(self)@ == old(self)@.push(PaintCmd::StrokeRect { rect, rgba }),
    {
        self.commands.push(PaintCmd::StrokeRect { rect, rgba });
    }

    /// The commands issued so far.
    pub fn into_commands(self) -> (commands: Vec<PaintCmd>)
        ensures
            commands@ == self@,
    {
        self.commands
    }
}

/// The context of one `layout` call: the positions that the widget has
/// assigned to its children during the call, in the order of assignment.
pub struct LayoutCtx {
    positions: Vec<(Id, Point)>,
}

impl View for LayoutCtx {
    type V = Seq<(Id, Point)>;

    closed spec fn view(&self) -> Seq<(Id, Point)> {
        self.positions@
    }
}

impl LayoutCtx {
    pub fn new() -> (ctx: LayoutCtx)
        ensures
            ctx@ == Seq::<(Id, Point)>::empty(),
    {
        LayoutCtx { positions: Vec::new() }
    }

    /// Place `child` at `pos`, relative to the corner of the widget that is
    /// being laid out.
    pub fn position_child(&mut self, child: Id, pos: Point)
        ensures
            final(self)@ == old(self)@.push((child, pos)),
    {
        self.positions.push((child, pos));
    }

    /// The positions assigned so far.
    pub fn into_positions(self) -> (positions: Vec<(Id, Point)>)
        ensures
            positions@ == self@,
    {
        self.positions
    }
}

/// What a handler context tells a widget and what the widget has asked for
/// through it.
#[derive(Clone, Copy, Debug, PartialEq, Eq, Structural)]
pub struct HandlerState {
    /// The node that the event is delivered to.
    pub id: Id,
    /// The node is the one under the pointer.
    pub hot: bool,
    /// The node holds the keyboard focus.
    pub focused: bool,
    /// The widget asked for a repaint.
    pub repaint: bool,
    /// The widget asked for a further animation frame.
    pub anim_frame: bool,
    /// The widget asked to take (`true`) or to give up (`false`) the focus.
    pub focus: Option<bool>,
}

/// The context of one event delivery.
pub struct HandlerCtx {
    state: HandlerState,
}

impl View for HandlerCtx {
    type V = HandlerState;

    closed spec fn view(&self) -> HandlerState {
        self.state
    }
}

impl HandlerCtx {
    /// A context for a delivery to `id`, with nothing asked for yet.
    pub fn new(id: Id, hot: bool, focused: bool) -> (ctx: HandlerCtx)
        ensures
            ctx@ == (HandlerState {
                id,
                hot,
                focused,
                repaint: false,
                anim_frame: false,
                focus: None,
            }),
    {
        HandlerCtx {
            state: HandlerState {
                id,
                hot,
                focused,
                repaint: false,
                anim_frame: false,
                focus: None,
            },
        }
    }

    pub fn id(&self) -> (id: Id)
        ensures
            id == self@.id,
    {
        self.state.id
    }

    pub fn is_hot(&self) -> (hot: bool)
        ensures
            hot == self@.hot,
    {
        self.state.hot
    }

    pub fn is_focused(&self) -> (focused: bool)
        ensures
            focused == self@.focused,
    {
        self.state.focused
    }

    /// Ask for a repaint.
    pub fn invalidate(&mut self)
        ensures
            final(self)@ == (HandlerState { repaint: true, ..old(self)@ }),
    {
        self.state.repaint = true;
    }

    /// Ask for the next animation frame.
    pub fn request_anim_frame(&mut self)
        ensures
            final(self)@ == (HandlerState { anim_frame: true, ..old(self)@ }),
    {
        self.state.anim_frame = true;
    }

    /// Ask to take the keyboard focus, or to give it up.
    pub fn set_focused(&mut self, focused: bool)
        ensures
            final(self)@ == (HandlerState { focus: Some(focused), ..old(self)@ }),
    {
        self.state.focus = Some(focused);
    }

    /// Everything the context holds.
    pub fn state(&self) -> (state: HandlerState)
        ensures
            state == self@,
    {
        self.state
    }
}

/// What forwarding a layout to the first child comes to. `before` and
/// `after` are the positions assigned before and after the call.
///
/// While the child's size is unknown the answer asks for the first child
/// under the same constraints and assigns no position. Once it is known, the
/// child is placed at the origin and its size is the answer.
pub open spec fn forwarded(
    bc: BoxConstraints,
    children: Seq<Id>,
    size: Option<Size>,
    before: Seq<(Id, Point)>,
    r: LayoutResult,
    after: Seq<(Id, Point)>,
) -> bool {
    if size.is_none() {
        r == LayoutResult::RequestChild(children[0], bc) && after == before
    } else {
        r == LayoutResult::Size(size.unwrap()) && after == before.push(
            (children[0], Point { x: 0, y: 0 }),
        )
    }
}

/// What the default `layout` answers: with a child, what forwarding the
/// layout to the first child comes to; without one, a request for `NO_CHILD`
/// and no position.
pub open spec fn default_layout(
    bc: BoxConstraints,
    children: Seq<Id>,
    size: Option<Size>,
    before: Seq<(Id, Point)>,
    r: LayoutResult,
    after: Seq<(Id, Point)>,
) -> bool {
    if children.len() == 0 {
        r == LayoutResult::RequestChild(NO_CHILD, bc) && after == before
    } else {
        forwarded(bc, children, size, before, r, after)
    }
}

/// Forward a layout to the first child: pass the constraints on to it and
/// take its size as one's own. There must be a child to forward to.
pub fn forward_layout(
    bc: &BoxConstraints,
    children: &[Id],
    size: Option<Size>,
    ctx: &mut LayoutCtx,
) -> (r: LayoutResult)
    requires
        children@.len() > 0,
    ensures
        forwarded(*bc, children@, size, old(ctx)@, r, final(ctx)@),
{
    match size {
        Some(size) => {
            ctx.position_child(children[0], Point::origin());
            LayoutResult::Size(size)
        },
        None => LayoutResult::RequestChild(children[0], *bc),
    }
}

/// A handler of a widget that answers the runtime: by what it returns, or
/// through the context it is handed.
#[derive(Clone, Copy, Debug, PartialEq, Eq, Structural)]
pub enum Handler {
    Paint,
    Layout,
    Mouse,
    MouseMoved,
    HotChanged,
    Poke,
    KeyDown,
    KeyUp,
    Scroll,
    AnimFrame,
}

/// The trait implemented by all widgets.
///
/// The runtime makes no assumption about what an implementation answers:
/// it checks every answer against the tree. What a handler does is stated
/// only of an implementation that says it keeps the default for it.
pub trait Widget {
    /// The message that `poke` carries.
    type Payload;

    /// The implementation keeps the default for `handler`. An
    /// implementation that says nothing keeps none, as far as contracts go.
    open spec fn keeps_default(handler: Handler) -> bool {
        false
    }

    /// Paint the widget's appearance into the paint context. `geom` is the
    /// widget's rectangle in the coordinates of the window.
    ///
    /// The default paints nothing.
    fn paint(&mut self, paint_ctx: &mut PaintCtx, geom: &Rect)
        ensures
            Self::keeps_default(Handler::Paint) ==> final(paint_ctx)@ == old(paint_ctx)@,
    {
    }

    /// Participate in the layout protocol.
    ///
    /// `size` is the size of the child previously requested by a
    /// `RequestChild` return.
    ///
    /// The default implementation is suitable for widgets with a single
    /// child, and just forwards the layout unmodified.
    ///
    /// The runtime asks every node that is to be laid out, whatever children
    /// it has, so the default has to answer for a node without children too,
    /// where there is nothing to forward to. It does not stop the program
    /// over that, and it does not make up a size: on purpose it asks for
    /// `NO_CHILD`, a child that no node has, and assigns no position, so that
    /// the pass ends loudly with `NotAChild` for this node.
    fn layout(
        &mut self,
        bc: &BoxConstraints,
        children: &[Id],
        size: Option<Size>,
        ctx: &mut LayoutCtx,
    ) -> (r: LayoutResult)
        ensures
            Self::keeps_default(Handler::Layout) ==> default_layout(
                *bc,
                children@,
                size,
                old(ctx)@,
                r,
                final(ctx)@,
            ),
    {
        if children.len() == 0 {
            LayoutResult::RequestChild(NO_CHILD, *bc)
        } else {
            forward_layout(bc, children, size, ctx)
        }
    }

    /// Sent to the widget on mouse event. Returns true if it is handled,
    /// which keeps the event from the widget's ancestors.
    ///
    /// The default does not handle the event and asks for nothing.
    fn mouse(&mut self, event: &MouseEvent, ctx: &mut HandlerCtx) -> (handled: bool)
        ensures
            Self::keeps_default(Handler::Mouse) ==> !handled && final(ctx)@ == old(ctx)@,
    {
        false
    }

    /// Sent to the hot widget on mouse move events.
    ///
    /// The default asks for nothing.
    fn mouse_moved(&mut self, pos: Point, ctx: &mut HandlerCtx)
        ensures
            Self::keeps_default(Handler::MouseMoved) ==> final(ctx)@ == old(ctx)@,
    {
    }

    /// Sent to the widget when its "hot" status changes.
    ///
    /// The default asks for nothing.
    fn on_hot_changed(&mut self, hot: bool, ctx: &mut HandlerCtx)
        ensures
            Self::keeps_default(Handler::HotChanged) ==> final(ctx)@ == old(ctx)@,
    {
    }

    /// An "escape hatch" of sorts for accessing widget state beyond the
    /// widget methods. Returns true if it is handled.
    ///
    /// The default does not handle the message, leaves the payload as it
    /// came and asks for nothing.
    fn poke(&mut self, payload: &mut Self::Payload, ctx: &mut HandlerCtx) -> (handled: bool)
        ensures
            Self::keeps_default(Handler::Poke) ==> {
                &&& !handled
                &&& *final(payload) == *old(payload)
                &&& final(ctx)@ == old(ctx)@
            },
    {
        false
    }

    /// Sent to the focused widget when a key goes down. Returns true if the
    /// event is handled.
    ///
    /// The default does not handle the event and asks for nothing.
    fn key_down(&mut self, event: &KeyEvent, ctx: &mut HandlerCtx) -> (handled: bool)
        ensures
            Self::keeps_default(Handler::KeyDown) ==> !handled && final(ctx)@ == old(ctx)@,
    {
        false
    }

    /// Sent to the focused widget when a key is released.
    ///
    /// The default asks for nothing.
    fn key_up(&mut self, event: &KeyEvent, ctx: &mut HandlerCtx)
        ensures
            Self::keeps_default(Handler::KeyUp) ==> final(ctx)@ == old(ctx)@,
    {
    }

    /// Sent to the widget under the pointer when the wheel turns.
    ///
    /// The default asks for nothing.
    fn scroll(&mut self, event: &ScrollEvent, ctx: &mut HandlerCtx)
        ensures
            Self::keeps_default(Handler::Scroll) ==> final(ctx)@ == old(ctx)@,
    {
    }

    /// Called at the beginning of a new animation frame, on widgets that
    /// asked for one.
    ///
    /// `interval` is the time in nanoseconds since the previous frame, and 0
    /// on the first frame after the runtime was idle. The widget calls
    /// `request_anim_frame` on the context to keep the animation running.
    ///
    /// The default asks for nothing, and so ends the animation of the
    /// widget.
    fn anim_frame(&mut self, interval: u64, ctx: &mut HandlerCtx)
        ensures
            Self::keeps_default(Handler::AnimFrame) ==> final(ctx)@ == old(ctx)@,
    {
    }

    /// Called when a child widget is removed.
    fn on_child_removed(&mut self, child: Id) {
    }
}

} // verus!
