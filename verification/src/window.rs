//! The plain-value side of the platform window shim: what a window is to be
//! created with, what the event loop does with each native event, and the
//! queue of idle callbacks of a window.

use vstd::prelude::*;
use vstd::utf8::encode_utf8;
use crate::geometry::Point;
use crate::widget::KeyModifiers;

verus! {

/// The shortcut key of a menu item.
#[derive(Clone, Copy, Debug, PartialEq, Eq, Structural)]
pub struct MenuKey {
    pub mods: KeyModifiers,
    pub key_code: u32,
}

/// A native menu. This backend has no native menus: a `Menu` records
/// nothing, and every addition leaves it as it was.
#[derive(Clone, Copy, Debug, PartialEq, Eq, Structural)]
pub struct Menu {}

impl Menu {
    pub fn new() -> (menu: Menu)
        ensures
            menu == (Menu {  }),
    {
        Menu {  }
    }

    pub fn add_dropdown(&mut self, menu: Menu, text: &str)
        ensures
            *final(self) == *old(self),
    {
    }

    pub fn add_item(&mut self, id: u32, text: &str, key: impl Into<MenuKey>)
        ensures
            *final(self) == *old(self),
    {
    }

    pub fn add_separator(&mut self)
        ensures
            *final(self) == *old(self),
    {
    }
}

impl Default for Menu {
    fn default() -> (menu: Menu)
        ensures
            menu == (Menu {  }),
    {
        Menu::new()
    }
}

/// Why a window could not be set up.
#[derive(Clone, Copy, Debug, PartialEq, Eq, Structural)]
pub enum Error {
    /// The title holds a zero byte, which a native window title cannot.
    InvalidTitle,
}

/// A window-manager protocol that a window takes part in.
#[derive(Clone, Copy, Debug, PartialEq, Eq, Structural)]
pub enum Protocol {
    /// The window manager asks the window to close instead of destroying it.
    DeleteWindow,
}

/// The class of a native window.
#[derive(Clone, Copy, Debug, PartialEq, Eq, Structural)]
pub enum WindowClass {
    /// The window is drawn to and receives input.
    InputOutput,
}

/// What a native window shows before anything is painted.
#[derive(Clone, Copy, Debug, PartialEq, Eq, Structural)]
pub enum Background {
    /// The white of the screen.
    White,
}

/// A kind of native event that a window asks to be told of.
#[derive(Clone, Copy, Debug, PartialEq, Eq, Structural)]
pub enum EventKind {
    /// A part of the window has to be drawn again.
    Expose,
    /// The window was moved or resized.
    Structure,
    /// The pointer moved.
    Motion,
}

/// The depth that asks for the depth of the parent window.
pub const DEPTH_OF_PARENT: u32 = 0;

/// The kinds of event that a window asks for: exposure and changes of its
/// structure always, pointer motion only where it is to be reported.
pub open spec fn events_wanted(mouse_move_events: bool) -> Seq<EventKind> {
    if mouse_move_events {
        seq![EventKind::Expose, EventKind::Structure, EventKind::Motion]
    } else {
        seq![EventKind::Expose, EventKind::Structure]
    }
}

/// The horizontal position that a new window asks for.
pub const DEFAULT_X: i32 = 0;

/// The vertical position that a new window asks for.
pub const DEFAULT_Y: i32 = 0;

/// The width that a new window asks for.
pub const DEFAULT_WIDTH: u32 = 400;

/// The height that a new window asks for.
pub const DEFAULT_HEIGHT: u32 = 300;

/// Everything the platform needs to create one native window.
pub struct WindowPlan<H> {
    /// The handler that receives the window's events.
    pub handler: Option<H>,
    /// The bytes of the title; none of them is zero.
    pub title: Vec<u8>,
    pub x: i32,
    pub y: i32,
    pub width: u32,
    pub height: u32,
    pub border_width: u32,
    pub depth: u32,
    pub class: WindowClass,
    pub background: Background,
    /// The window-manager protocols to register for, in order.
    pub protocols: Vec<Protocol>,
    /// The kinds of native event to ask for, in order.
    pub events: Vec<EventKind>,
    /// Pointer motion is to be reported.
    pub mouse_move_events: bool,
    pub menu: Option<Menu>,
}

/// What a `WindowBuilder` has been given so far.
pub struct WindowOptions<H> {
    pub handler: Option<H>,
    pub title: Seq<char>,
    pub enable_mouse_move_events: bool,
    pub menu: Option<Menu>,
}

impl<H> WindowOptions<H> {
    /// The bytes of the title, as the platform receives them.
    pub open spec fn title_bytes(self) -> Seq<u8> {
        encode_utf8(self.title)
    }
}

/// Collects the options of a window before it is created.
pub struct WindowBuilder<H> {
    handler: Option<H>,
    title: String,
    enable_mouse_move_events: bool,
    menu: Option<Menu>,
}

impl<H> View for WindowBuilder<H> {
    type V = WindowOptions<H>;

    closed spec fn view(&self) -> WindowOptions<H> {
        WindowOptions {
            handler: self.handler,
            title: self.title@,
            enable_mouse_move_events: self.enable_mouse_move_events,
            menu: self.menu,
        }
    }
}

impl<H> WindowBuilder<H> {
    /// A builder with no handler, an empty title, pointer motion reported and
    /// the default menu.
    pub fn new() -> (builder: Self)
        ensures
            builder@.handler.is_none(),
            builder@.title == Seq::<char>::empty(),
            builder@.enable_mouse_move_events,
            builder@.menu == Some(Menu {  }),
    {
        WindowBuilder {
            handler: None,
            title: String::new(),
            enable_mouse_move_events: true,
            menu: Some(Menu::default()),
        }
    }

    pub fn set_handler(&mut self, handler: H)
        ensures
            final(self)@ == (WindowOptions { handler: Some(handler), ..old(self)@ }),
    {
        self.handler = Some(handler);
    }

    pub fn set_title(&mut self, title: String)
        ensures
            final(self)@ == (WindowOptions { title: title@, ..old(self)@ }),
    {
        self.title = title;
    }

    pub fn set_menu(&mut self, menu: Menu)
        ensures
            final(self)@ == (WindowOptions { menu: Some(menu), ..old(self)@ }),
    {
        self.menu = Some(menu);
    }

    pub fn set_enable_mouse_move_events(&mut self, to: bool)
        ensures
            final(self)@ == (WindowOptions { enable_mouse_move_events: to, ..old(self)@ }),
    {
        self.enable_mouse_move_events = to;
    }

    /// The plan of the window that the options describe.
    ///
    /// It fails exactly when the title holds a zero byte. Otherwise the window
    /// is to be created at the default position and size, without a border,
    /// with the depth of its parent, for input and output, on white, with the
    /// title's bytes as its name. It is registered for the window manager's
    /// close protocol, so that a request to close reaches the application as
    /// an event, and asks for the events that the loop acts on.
    pub fn build(self) -> (r: Result<WindowPlan<H>, Error>)
        ensures
            self@.title_bytes().contains(0u8) ==> r == Err::<WindowPlan<H>, Error>(
                Error::InvalidTitle,
            ),
            !self@.title_bytes().contains(0u8) ==> r.is_ok(),
            r matches Ok(plan) ==> {
                &&& plan.handler == self@.handler
                &&& plan.title@ == self@.title_bytes()
                &&& plan.x == DEFAULT_X
                &&& plan.y == DEFAULT_Y
                &&& plan.width == DEFAULT_WIDTH
                &&& plan.height == DEFAULT_HEIGHT
                &&& plan.border_width == 0
                &&& plan.depth == DEPTH_OF_PARENT
                &&& plan.class == WindowClass::InputOutput
                &&& plan.background == Background::White
                &&& plan.protocols@ == seq![Protocol::DeleteWindow]
                &&& plan.events@ == events_wanted(self@.enable_mouse_move_events)
                &&& plan.mouse_move_events == self@.enable_mouse_move_events
                &&& plan.menu == self@.menu
            },
    {
        let bytes = self.title.as_str().as_bytes();
        let mut title: Vec<u8> = Vec::new();
        let mut i: usize = 0;
        while i < bytes.len()
            invariant
                i <= bytes@.len(),
                bytes@ == self@.title_bytes(),
                title@ == bytes@.take(i as int),
                !title@.contains(0u8),
            decreases bytes@.len() - i,
        {
            let b = bytes[i];
            if b == 0 {
                assert(bytes@[i as int] == 0u8);
                return Err(Error::InvalidTitle);
            }
            let ghost before = title@;
            title.push(b);
            assert(title@ == bytes@.take(i as int + 1));
            assert forall|j: int| 0 <= j < title@.len() implies title@[j] != 0u8 by {
                if j < i {
                    assert(before[j] == title@[j]);
                    assert(before.contains(before[j]));
                }
            }
            i += 1;
        }
        assert(title@ == bytes@);
        let mut protocols: Vec<Protocol> = Vec::new();
        protocols.push(Protocol::DeleteWindow);
        assert(protocols@ == seq![Protocol::DeleteWindow]);
        let mut events: Vec<EventKind> = Vec::new();
        events.push(EventKind::Expose);
        events.push(EventKind::Structure);
        if self.enable_mouse_move_events {
            events.push(EventKind::Motion);
        }
        assert(events@ =~= events_wanted(self@.enable_mouse_move_events));
        Ok(
            WindowPlan {
                handler: self.handler,
                title,
                x: DEFAULT_X,
                y: DEFAULT_Y,
                width: DEFAULT_WIDTH,
                height: DEFAULT_HEIGHT,
                border_width: 0,
                depth: DEPTH_OF_PARENT,
                class: WindowClass::InputOutput,
                background: Background::White,
                protocols,
                events,
                mouse_move_events: self.enable_mouse_move_events,
                menu: self.menu,
            },
        )
    }
}

/// The callbacks that wait for the event queue of one window to drain.
///
/// A callback is held as the number under which the platform keeps the
/// closure. Whether the window still exists is decided when the callbacks are
/// taken out, not when they are put in.
pub struct IdleQueue {
    alive: bool,
    pending: Vec<u64>,
}

/// What an `IdleQueue` holds.
pub struct IdleState {
    /// The window has not been destroyed.
    pub alive: bool,
    /// The callbacks that have been scheduled and not yet taken out, oldest
    /// first.
    pub pending: Seq<u64>,
}

impl View for IdleQueue {
    type V = IdleState;

    closed spec fn view(&self) -> IdleState {
        IdleState { alive: self.alive, pending: self.pending@ }
    }
}

impl IdleState {
    /// The callbacks that run when the event queue drains: all that are
    /// pending while the window exists, none once it is destroyed.
    pub open spec fn ready(self) -> Seq<u64> {
        if self.alive {
            self.pending
        } else {
            Seq::empty()
        }
    }

    /// The state after `callback` was scheduled.
    pub open spec fn scheduled(self, callback: u64) -> IdleState {
        IdleState { alive: self.alive, pending: self.pending.push(callback) }
    }

    /// The state after the window was destroyed.
    pub open spec fn destroyed(self) -> IdleState {
        IdleState { alive: false, pending: Seq::empty() }
    }

    /// The state after the ready callbacks were taken out.
    pub open spec fn drained(self) -> IdleState {
        IdleState { alive: self.alive, pending: Seq::empty() }
    }

    /// The state after each of `callbacks` was scheduled in turn.
    pub open spec fn scheduled_all(self, callbacks: Seq<u64>) -> IdleState
        decreases callbacks.len(),
    {
        if callbacks.len() == 0 {
            self
        } else {
            self.scheduled_all(callbacks.drop_last()).scheduled(callbacks.last())
        }
    }

    /// Whatever is scheduled on a destroyed window, nothing ever becomes
    /// ready to run.
    pub proof fn nothing_runs_after_destruction(self, callbacks: Seq<u64>)
        ensures
            self.destroyed().scheduled_all(callbacks).ready() == Seq::<u64>::empty(),
            !self.destroyed().scheduled_all(callbacks).alive,
        decreases callbacks.len(),
    {
        if callbacks.len() > 0 {
            self.nothing_runs_after_destruction(callbacks.drop_last());
        }
    }

    /// A callback runs at most once: after the ready callbacks were taken
    /// out, none of them is ready again.
    pub proof fn runs_once(self)
        ensures
            self.drained().ready() == Seq::<u64>::empty(),
    {
    }
}

impl IdleQueue {
    /// The empty queue of a window that exists.
    pub fn new() -> (queue: IdleQueue)
        ensures
            queue@ == (IdleState { alive: true, pending: Seq::empty() }),
    {
        IdleQueue { alive: true, pending: Vec::new() }
    }

    pub fn is_alive(&self) -> (alive: bool)
        ensures
            alive == self@.alive,
    {
        self.alive
    }

    /// A handle through which callbacks are scheduled, while the window
    /// exists.
    pub fn get_idle_handle(&self) -> (handle: Option<IdleHandle>)
        ensures
            handle.is_some() == self@.alive,
    {
        if self.alive {
            Some(IdleHandle {  })
        } else {
            None
        }
    }

    /// The window is destroyed: what was pending is dropped, and nothing
    /// scheduled from now on will run.
    pub fn destroy(&mut self)
        ensures
            final(self)@ == old(self)@.destroyed(),
    {
        self.alive = false;
        self.pending = Vec::new();
    }

    /// Take out the callbacks to run now that the event queue has drained,
    /// oldest first.
    pub fn take_ready(&mut self) -> (ready: Vec<u64>)
        ensures
            ready@ == old(self)@.ready(),
            final(self)@ == old(self)@.drained(),
    {
        let mut taken: Vec<u64> = Vec::new();
        std::mem::swap(&mut self.pending, &mut taken);
        if self.alive {
            taken
        } else {
            Vec::new()
        }
    }
}

/// A handle for scheduling idle callbacks from any thread.
#[derive(Clone, Copy, Debug, PartialEq, Eq, Structural)]
pub struct IdleHandle {}

impl IdleHandle {
    /// Add an idle handler, which is called (once) when the message loop is
    /// empty. The idle handler will be run from the main UI thread, and
    /// won't be run if the associated window has been destroyed.
    pub fn add_idle(&self, queue: &mut IdleQueue, callback: u64)
        ensures
            final(queue)@ == old(queue)@.scheduled(callback),
    {
        queue.pending.push(callback);
    }
}

/// The numbers under which the display server knows the names of the close
/// protocol.
#[derive(Clone, Copy, Debug, PartialEq, Eq, Structural)]
pub struct Atoms {
    pub wm_protocols: u64,
    pub wm_delete_window: u64,
}

/// A native event, as far as the event loop tells events apart.
#[derive(Clone, Copy, Debug, PartialEq, Eq, Structural)]
pub enum ShimEvent {
    /// A part of the window has to be drawn again.
    Expose,
    /// The window has a new size.
    Resize { width: u32, height: u32 },
    /// A message from another client, such as the window manager.
    ClientMessage { message_type: u64, first: u64 },
    /// The pointer moved.
    Motion { pos: Point },
    /// Any other event.
    Other,
}

/// What the event loop does next.
#[derive(Clone, Copy, Debug, PartialEq, Eq, Structural)]
pub enum LoopAction {
    /// Lay the tree out and paint it.
    Paint,
    /// Tell the application the window's new size.
    Resize { width: u32, height: u32 },
    /// Tell the application that the user asked to close the window.
    CloseRequest,
    /// Send the pointer's position to the dispatcher.
    MouseMove { pos: Point },
    /// Nothing.
    Ignore,
    /// Leave the loop.
    Exit,
}

/// The action that an event calls for.
///
/// Once the application has asked to quit the loop exits. A client message
/// that names the close protocol is a request to close, handed on to the
/// application; no other client message is. Pointer motion is handed on only
/// where the window asked for it.
pub open spec fn action_for(
    quit: bool,
    event: ShimEvent,
    atoms: Atoms,
    mouse_move_events: bool,
) -> LoopAction {
    if quit {
        LoopAction::Exit
    } else {
        match event {
            ShimEvent::Expose => LoopAction::Paint,
            ShimEvent::Resize { width, height } => LoopAction::Resize { width, height },
            ShimEvent::ClientMessage { message_type, first } => if message_type
                == atoms.wm_protocols && first == atoms.wm_delete_window {
                LoopAction::CloseRequest
            } else {
                LoopAction::Ignore
            },
            ShimEvent::Motion { pos } => if mouse_move_events {
                LoopAction::MouseMove { pos }
            } else {
                LoopAction::Ignore
            },
            ShimEvent::Other => LoopAction::Ignore,
        }
    }
}

/// The state of the event loop.
#[derive(Clone, Copy, Debug, PartialEq, Eq, Structural)]
pub struct RunLoop {
    quit: bool,
}

impl RunLoop {
    /// The application has asked the loop to end.
    pub closed spec fn quit_requested(self) -> bool {
        self.quit
    }

    pub fn new() -> (run_loop: RunLoop)
        ensures
            !run_loop.quit_requested(),
    {
        RunLoop { quit: false }
    }

    pub fn is_quit_requested(&self) -> (quit: bool)
        ensures
            quit == self.quit_requested(),
    {
        self.quit
    }

    /// What to do with the event that the display server delivered.
    pub fn next_action(&self, event: ShimEvent, atoms: Atoms, mouse_move_events: bool) -> (action:
        LoopAction)
        ensures
            action == action_for(self.quit_requested(), event, atoms, mouse_move_events),
    {
        if self.quit {
            return LoopAction::Exit;
        }
        match event {
            ShimEvent::Expose => LoopAction::Paint,
            ShimEvent::Resize { width, height } => LoopAction::Resize { width, height },
            ShimEvent::ClientMessage { message_type, first } => {
                if message_type == atoms.wm_protocols && first == atoms.wm_delete_window {
                    LoopAction::CloseRequest
                } else {
                    LoopAction::Ignore
                }
            },
            ShimEvent::Motion { pos } => {
                if mouse_move_events {
                    LoopAction::MouseMove { pos }
                } else {
                    LoopAction::Ignore
                }
            },
            ShimEvent::Other => LoopAction::Ignore,
        }
    }
}

/// Ask the event loop to end: every later event makes it exit.
pub fn request_quit(run_loop: &mut RunLoop)
    ensures
        final(run_loop).quit_requested(),
{
    run_loop.quit = true;
}

} // verus!
