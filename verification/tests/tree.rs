use druid::geometry::{BoxConstraints, Point, Rect, Size};
use druid::graph::{Graph, ROOT};
use druid::layout::{LayoutError, Status};
use druid::ui::{Event, Ui};
use druid::widget::{
    forward_layout, HandlerCtx, HandlerState, Id, KeyEvent, KeyModifiers, LayoutCtx, LayoutResult,
    MouseButton, MouseEvent, PaintCtx, PaintCmd, ScrollEvent, Widget, NO_CHILD,
};

#[derive(Clone, Copy, Debug, PartialEq)]
enum Kind {
    /// Reports a fixed size.
    Leaf(Size),
    /// Uses the default layout.
    Pass,
    /// Stacks its children from top to bottom.
    Column,
    /// Asks for its first child again and again.
    Greedy,
    /// Asks for a node that is not its child.
    Rogue(Id),
    /// Places its first child before it knows the child's size.
    Eager,
    /// Asks for its first child twice, with tighter constraints the second
    /// time.
    Twice,
}

struct Probe {
    kind: Kind,
    sizes: Vec<Size>,
    handles_mouse: bool,
    handles_keys: bool,
    focus_on_mouse: bool,
    frames_wanted: u32,
    log: Vec<String>,
}

impl Probe {
    fn new(kind: Kind) -> Probe {
        Probe {
            kind,
            sizes: Vec::new(),
            handles_mouse: false,
            handles_keys: false,
            focus_on_mouse: false,
            frames_wanted: 0,
            log: Vec::new(),
        }
    }

    fn handling(kind: Kind) -> Probe {
        let mut p = Probe::new(kind);
        p.handles_mouse = true;
        p
    }
}

impl Widget for Probe {
    type Payload = u32;

    fn paint(&mut self, paint_ctx: &mut PaintCtx, geom: &Rect) {
        paint_ctx.fill_rect(*geom, 0xff);
    }

    fn layout(
        &mut self,
        bc: &BoxConstraints,
        children: &[Id],
        size: Option<Size>,
        ctx: &mut LayoutCtx,
    ) -> LayoutResult {
        match self.kind {
            Kind::Leaf(s) => LayoutResult::Size(bc.constrain(s)),
            Kind::Pass => {
                if children.is_empty() {
                    LayoutResult::RequestChild(NO_CHILD, *bc)
                } else {
                    forward_layout(bc, children, size, ctx)
                }
            }
            Kind::Column => {
                if let Some(s) = size {
                    self.sizes.push(s);
                }
                if self.sizes.len() < children.len() {
                    return LayoutResult::RequestChild(children[self.sizes.len()], *bc);
                }
                let mut y = 0;
                let mut width = 0;
                for (i, child) in children.iter().enumerate() {
                    ctx.position_child(*child, Point::new(0, y));
                    y += self.sizes[i].height;
                    width = width.max(self.sizes[i].width);
                }
                self.sizes.clear();
                LayoutResult::Size(Size::new(width, y))
            }
            Kind::Greedy => LayoutResult::RequestChild(children[0], *bc),
            Kind::Rogue(id) => LayoutResult::RequestChild(id, *bc),
            Kind::Eager => {
                ctx.position_child(children[0], Point::new(1, 1));
                match size {
                    Some(s) => LayoutResult::Size(s),
                    None => LayoutResult::RequestChild(children[0], *bc),
                }
            }
            Kind::Twice => {
                if let Some(s) = size {
                    self.sizes.push(s);
                }
                match self.sizes.len() {
                    0 => LayoutResult::RequestChild(children[0], *bc),
                    1 => LayoutResult::RequestChild(
                        children[0],
                        BoxConstraints::tight(Size::new(10, 10)),
                    ),
                    _ => {
                        let last = self.sizes[1];
                        self.sizes.clear();
                        ctx.position_child(children[0], Point::new(2, 3));
                        LayoutResult::Size(last)
                    }
                }
            }
        }
    }

    fn mouse(&mut self, event: &MouseEvent, ctx: &mut HandlerCtx) -> bool {
        self.log.push(format!("mouse {} {} x{}", event.pos.x, event.pos.y, event.count));
        if self.focus_on_mouse {
            ctx.set_focused(true);
        }
        self.handles_mouse
    }

    fn mouse_moved(&mut self, pos: Point, ctx: &mut HandlerCtx) {
        self.log.push(format!("moved {} {} hot={}", pos.x, pos.y, ctx.is_hot()));
    }

    fn on_hot_changed(&mut self, hot: bool, ctx: &mut HandlerCtx) {
        self.log.push(format!("hot {}", hot));
        ctx.invalidate();
    }

    fn poke(&mut self, payload: &mut u32, _ctx: &mut HandlerCtx) -> bool {
        *payload += 1;
        self.log.push(format!("poke {}", payload));
        true
    }

    fn key_down(&mut self, event: &KeyEvent, ctx: &mut HandlerCtx) -> bool {
        self.log.push(format!("down {} focused={}", event.key_code, ctx.is_focused()));
        self.handles_keys
    }

    fn key_up(&mut self, event: &KeyEvent, ctx: &mut HandlerCtx) {
        self.log.push(format!("up {}", event.key_code));
        if event.key_code == 27 {
            ctx.set_focused(false);
        }
    }

    fn scroll(&mut self, event: &ScrollEvent, _ctx: &mut HandlerCtx) {
        self.log.push(format!("scroll {} {}", event.dx, event.dy));
    }

    fn anim_frame(&mut self, interval: u64, ctx: &mut HandlerCtx) {
        self.log.push(format!("frame {}", interval));
        if self.frames_wanted > 0 {
            self.frames_wanted -= 1;
            ctx.request_anim_frame();
        }
    }

    fn on_child_removed(&mut self, child: Id) {
        self.log.push(format!("removed {}", child));
    }
}

fn no_mods() -> KeyModifiers {
    KeyModifiers { shift: false, alt: false, ctrl: false, meta: false }
}

fn click(x: i32, y: i32) -> MouseEvent {
    MouseEvent { pos: Point::new(x, y), mods: no_mods(), button: MouseButton::Left, count: 1 }
}

fn window() -> BoxConstraints {
    BoxConstraints::new(Size::new(0, 0), Size::new(400, 300)).unwrap()
}

fn log(ui: &Ui<Probe>, id: Id) -> Vec<String> {
    ui.widget(id).unwrap().log.clone()
}

/// root (column) with two leaves of 100x50 and 80x30, the second of which
/// has a child of 20x10 under the default layout.
fn sample() -> Ui<Probe> {
    let mut ui = Ui::new(Probe::new(Kind::Column));
    assert_eq!(ui.add(ROOT, Probe::new(Kind::Leaf(Size::new(100, 50)))), Some(1));
    assert_eq!(ui.add(ROOT, Probe::new(Kind::Pass)), Some(2));
    assert_eq!(ui.add(2, Probe::new(Kind::Leaf(Size::new(20, 10)))), Some(3));
    assert_eq!(ui.layout(&window(), 100), Ok(Size::new(100, 60)));
    ui
}

#[test]
fn graph_hands_out_identifiers_in_order() {
    let mut g = Graph::new();
    assert_eq!(g.len(), 1);
    assert_eq!(g.add_child(ROOT), Some(1));
    assert_eq!(g.add_child(ROOT), Some(2));
    assert_eq!(g.add_child(1), Some(3));
    assert_eq!(g.add_child(9), None);
    assert_eq!(g.len(), 4);
    assert_eq!(g.children(ROOT).to_vec(), vec![1, 2]);
    assert_eq!(g.children(1).to_vec(), vec![3]);
    assert_eq!(g.parent(3), Some(1));
    assert_eq!(g.parent(ROOT), None);
    assert_eq!(g.parent(17), None);
    assert!(g.has_child(ROOT, 2));
    assert!(!g.has_child(ROOT, 3));
    assert!(!g.has_child(12, 3));
}

#[test]
fn graph_removes_a_whole_subtree() {
    let mut g = Graph::new();
    g.add_child(ROOT);
    g.add_child(ROOT);
    g.add_child(1);
    g.add_child(3);
    g.add_child(ROOT);
    assert_eq!(g.remove(1), vec![1, 3, 4]);
    assert_eq!(g.children(ROOT).to_vec(), vec![2, 5]);
    assert!(!g.is_live(1) && !g.is_live(3) && !g.is_live(4));
    assert!(g.is_live(2) && g.is_live(5));
    assert_eq!(g.parent(3), None);
    assert_eq!(g.children(1).to_vec(), Vec::<Id>::new());
    // identifiers are not handed out again
    assert_eq!(g.add_child(ROOT), Some(6));
    assert_eq!(g.add_child(1), None);
}

#[test]
fn graph_keeps_the_root_and_ignores_what_is_gone() {
    let mut g = Graph::new();
    g.add_child(ROOT);
    assert_eq!(g.remove(ROOT), Vec::<Id>::new());
    assert_eq!(g.remove(7), Vec::<Id>::new());
    assert_eq!(g.remove(1), vec![1]);
    assert_eq!(g.remove(1), Vec::<Id>::new());
    assert!(g.is_live(ROOT));
}

#[test]
fn default_layout_takes_the_size_of_its_child() {
    let mut ui = Ui::new(Probe::new(Kind::Pass));
    ui.add(ROOT, Probe::new(Kind::Leaf(Size::new(100, 50))));
    assert_eq!(ui.layout(&window(), 10), Ok(Size::new(100, 50)));
    assert_eq!(ui.geometry(ROOT).unwrap().size, Size::new(100, 50));
    assert_eq!(ui.geometry(1), Some(Rect::new(Point::new(0, 0), Size::new(100, 50))));
    assert_eq!(ui.layout_status(ROOT), Some(Status::Resolved));
    assert_eq!(ui.layout_status(1), Some(Status::Resolved));
}

#[test]
fn default_layout_without_a_child_fails_the_pass() {
    let mut ui = Ui::new(Probe::new(Kind::Pass));
    assert_eq!(
        ui.layout(&window(), 10),
        Err(LayoutError::NotAChild { node: ROOT, child: NO_CHILD })
    );
    assert_eq!(ui.layout_status(ROOT), Some(Status::Pending));
}

#[test]
fn column_stacks_its_children() {
    let ui = sample();
    assert_eq!(ui.geometry(1), Some(Rect::new(Point::new(0, 0), Size::new(100, 50))));
    assert_eq!(ui.geometry(2), Some(Rect::new(Point::new(0, 50), Size::new(20, 10))));
    assert_eq!(ui.geometry(3), Some(Rect::new(Point::new(0, 0), Size::new(20, 10))));
    for id in 0..4 {
        assert_eq!(ui.layout_status(id), Some(Status::Resolved));
    }
    assert_eq!(ui.layout_status(4), None);
}

#[test]
fn layout_leaves_what_nobody_asked_for_untouched() {
    let mut ui = Ui::new(Probe::new(Kind::Pass));
    ui.add(ROOT, Probe::new(Kind::Leaf(Size::new(5, 6))));
    ui.add(ROOT, Probe::new(Kind::Leaf(Size::new(7, 8))));
    assert_eq!(ui.layout(&window(), 10), Ok(Size::new(5, 6)));
    assert_eq!(ui.layout_status(2), Some(Status::Untouched));
    assert_eq!(ui.geometry(2), Some(Rect::zero()));
}

#[test]
fn a_child_may_be_asked_twice_and_keeps_its_last_size() {
    let mut ui = Ui::new(Probe::new(Kind::Twice));
    ui.add(ROOT, Probe::new(Kind::Leaf(Size::new(100, 50))));
    assert_eq!(ui.layout(&window(), 10), Ok(Size::new(10, 10)));
    assert_eq!(ui.geometry(1), Some(Rect::new(Point::new(2, 3), Size::new(10, 10))));
    assert_eq!(ui.layout_status(1), Some(Status::Resolved));
}

#[test]
fn layout_rejects_a_request_for_a_stranger() {
    let mut ui = Ui::new(Probe::new(Kind::Pass));
    ui.add(ROOT, Probe::new(Kind::Rogue(ROOT)));
    ui.add(ROOT, Probe::new(Kind::Leaf(Size::new(1, 1))));
    assert_eq!(ui.layout(&window(), 10), Err(LayoutError::NotAChild { node: 1, child: ROOT }));
    assert_eq!(ui.layout_status(ROOT), Some(Status::Pending));
    assert_eq!(ui.layout_status(1), Some(Status::Pending));
    let mut ui = Ui::new(Probe::new(Kind::Rogue(2)));
    ui.add(ROOT, Probe::new(Kind::Pass));
    ui.add(1, Probe::new(Kind::Leaf(Size::new(1, 1))));
    // a grandchild is not a child
    assert_eq!(ui.layout(&window(), 10), Err(LayoutError::NotAChild { node: ROOT, child: 2 }));
}

#[test]
fn layout_rejects_a_position_before_the_size() {
    let mut ui = Ui::new(Probe::new(Kind::Eager));
    ui.add(ROOT, Probe::new(Kind::Leaf(Size::new(1, 1))));
    assert_eq!(ui.layout(&window(), 10), Err(LayoutError::NotSized { node: ROOT, child: 1 }));
    assert_eq!(ui.geometry(1), Some(Rect::zero()));
}

#[test]
fn layout_gives_up_on_a_widget_that_never_settles() {
    let mut ui = Ui::new(Probe::new(Kind::Greedy));
    ui.add(ROOT, Probe::new(Kind::Leaf(Size::new(1, 1))));
    // the root asks, the child answers, the root asks again: after an odd
    // number of calls the child is the next to be asked
    assert_eq!(ui.layout(&window(), 25), Err(LayoutError::Unresolved { node: 1 }));
    assert_eq!(ui.layout(&window(), 0), Err(LayoutError::Unresolved { node: ROOT }));
    assert_eq!(ui.layout(&window(), 2), Err(LayoutError::Unresolved { node: ROOT }));
    assert_eq!(ui.layout_status(ROOT), Some(Status::Pending));
    assert_eq!(ui.layout_status(1), Some(Status::Resolved));
}

#[test]
fn layout_needs_one_step_for_each_call() {
    let mut ui = Ui::new(Probe::new(Kind::Pass));
    ui.add(ROOT, Probe::new(Kind::Leaf(Size::new(100, 50))));
    assert_eq!(ui.layout(&window(), 2), Err(LayoutError::Unresolved { node: ROOT }));
    assert_eq!(ui.layout(&window(), 3), Ok(Size::new(100, 50)));
}

#[test]
fn hit_testing_finds_the_deepest_node() {
    let ui = sample();
    assert_eq!(ui.hit_test(Point::new(10, 10)), Some(1));
    assert_eq!(ui.hit_test(Point::new(10, 55)), Some(3));
    assert_eq!(ui.hit_test(Point::new(30, 55)), Some(ROOT));
    assert_eq!(ui.hit_test(Point::new(99, 59)), Some(ROOT));
    assert_eq!(ui.hit_test(Point::new(100, 59)), None);
    assert_eq!(ui.hit_test(Point::new(-1, 0)), None);
    assert_eq!(
        ui.hit_path(Point::new(10, 55)),
        vec![(ROOT, Point::new(10, 55)), (2, Point::new(10, 5)), (3, Point::new(10, 5))]
    );
}

#[test]
fn hit_testing_gives_the_same_answer_every_time() {
    let ui = sample();
    for x in -5..110 {
        for y in -5..70 {
            let p = Point::new(x, y);
            assert_eq!(ui.hit_test(p), ui.hit_test(p));
            assert_eq!(ui.hit_path(p), ui.hit_path(p));
        }
    }
}

#[test]
fn the_child_painted_last_is_hit_first() {
    let mut ui = Ui::new(Probe::new(Kind::Pass));
    ui.add(ROOT, Probe::new(Kind::Leaf(Size::new(50, 50))));
    ui.add(ROOT, Probe::new(Kind::Leaf(Size::new(50, 50))));
    assert_eq!(ui.layout(&window(), 10), Ok(Size::new(50, 50)));
    // the second child was never laid out and covers nothing
    assert_eq!(ui.hit_test(Point::new(5, 5)), Some(1));
    let mut ui = Ui::new(Probe::new(Kind::Column));
    ui.add(ROOT, Probe::new(Kind::Leaf(Size::new(50, 50))));
    ui.add(ROOT, Probe::new(Kind::Leaf(Size::new(50, 0))));
    ui.add(ROOT, Probe::new(Kind::Leaf(Size::new(50, 50))));
    assert_eq!(ui.layout(&window(), 10), Ok(Size::new(50, 100)));
    assert_eq!(ui.hit_test(Point::new(5, 49)), Some(1));
    assert_eq!(ui.hit_test(Point::new(5, 50)), Some(3));
}

#[test]
fn bubbling_stops_at_the_first_handler() {
    let mut ui = Ui::new(Probe::new(Kind::Pass));
    let mut middle = Probe::handling(Kind::Pass);
    middle.focus_on_mouse = true;
    ui.add(ROOT, middle);
    ui.add(1, Probe::new(Kind::Leaf(Size::new(100, 50))));
    assert_eq!(ui.layout(&window(), 10), Ok(Size::new(100, 50)));
    let bubble = ui.mouse(&click(10, 20));
    assert!(bubble.handled);
    assert_eq!(bubble.delivered, vec![(2, click(10, 20), false), (1, click(10, 20), true)]);
    assert_eq!(log(&ui, 2), vec!["mouse 10 20 x1"]);
    assert_eq!(log(&ui, 1), vec!["mouse 10 20 x1"]);
    assert!(log(&ui, ROOT).is_empty());
    assert_eq!(ui.focus(), Some(1));
}

#[test]
fn an_unhandled_mouse_event_reaches_the_root() {
    let mut ui = sample();
    let bubble = ui.mouse(&click(10, 55));
    assert!(!bubble.handled);
    assert_eq!(
        bubble.delivered,
        vec![(3, click(10, 5), false), (2, click(10, 5), false), (ROOT, click(10, 55), false)]
    );
    assert_eq!(log(&ui, 3), vec!["mouse 10 5 x1"]);
    assert_eq!(log(&ui, 2), vec!["mouse 10 5 x1"]);
    assert_eq!(log(&ui, ROOT), vec!["mouse 10 55 x1"]);
    assert!(log(&ui, 1).is_empty());
    let outside = ui.mouse(&click(500, 500));
    assert!(!outside.handled);
    assert!(outside.delivered.is_empty());
}

#[test]
fn the_old_hot_node_hears_first() {
    let mut ui = sample();
    let first = ui.mouse_move(Point::new(10, 10));
    assert_eq!(
        first,
        vec![(1, Event::HotChanged(true)), (1, Event::MouseMoved(Point::new(10, 10)))]
    );
    assert_eq!(ui.hot(), Some(1));
    let second = ui.mouse_move(Point::new(10, 55));
    assert_eq!(
        second,
        vec![
            (1, Event::HotChanged(false)),
            (3, Event::HotChanged(true)),
            (3, Event::MouseMoved(Point::new(10, 5))),
        ]
    );
    assert_eq!(ui.hot(), Some(3));
    let third = ui.mouse_move(Point::new(11, 56));
    assert_eq!(third, vec![(3, Event::MouseMoved(Point::new(11, 6)))]);
    let gone = ui.mouse_move(Point::new(-3, 0));
    assert_eq!(gone, vec![(3, Event::HotChanged(false))]);
    assert_eq!(ui.hot(), None);
    assert_eq!(log(&ui, 1), vec!["hot true", "moved 10 10 hot=true", "hot false"]);
    assert_eq!(
        log(&ui, 3),
        vec!["hot true", "moved 10 5 hot=true", "moved 11 6 hot=true", "hot false"]
    );
    assert!(ui.needs_paint());
}

#[test]
fn keys_go_to_the_focused_widget_only() {
    let mut ui = sample();
    let key = KeyEvent { key_code: 65, is_repeat: false, mods: no_mods() };
    assert!(!ui.key_down(&key));
    ui.key_up(&key);
    for id in 0..4 {
        assert!(log(&ui, id).is_empty());
    }
    let mut asked = HandlerCtx::new(3, false, false);
    asked.set_focused(true);
    ui.apply_requests(3, asked.state());
    assert_eq!(ui.focus(), Some(3));
    assert!(!ui.key_down(&key));
    ui.key_up(&KeyEvent { key_code: 27, is_repeat: false, mods: no_mods() });
    assert_eq!(log(&ui, 3), vec!["down 65 focused=true", "up 27"]);
    assert!(log(&ui, 2).is_empty() && log(&ui, ROOT).is_empty());
    assert_eq!(ui.focus(), None);
}

#[test]
fn key_down_reports_the_answer_of_the_widget() {
    let mut root = Probe::new(Kind::Leaf(Size::new(1, 1)));
    root.handles_keys = true;
    let mut ui = Ui::new(root);
    let mut asked = HandlerCtx::new(ROOT, false, false);
    asked.set_focused(true);
    ui.apply_requests(ROOT, asked.state());
    assert!(ui.key_down(&KeyEvent { key_code: 9, is_repeat: true, mods: no_mods() }));
}

#[test]
fn giving_up_the_focus_of_another_changes_nothing() {
    let mut ui = sample();
    let mut take = HandlerCtx::new(3, false, false);
    take.set_focused(true);
    ui.apply_requests(3, take.state());
    let mut drop = HandlerCtx::new(1, false, false);
    drop.set_focused(false);
    drop.request_anim_frame();
    ui.apply_requests(1, drop.state());
    assert_eq!(ui.focus(), Some(3));
    assert!(ui.wants_anim_frame(1));
    assert!(!ui.wants_anim_frame(3));
}

#[test]
fn scroll_goes_to_the_node_under_the_pointer() {
    let mut ui = sample();
    ui.mouse_move(Point::new(10, 10));
    let wheel = ScrollEvent { dx: 0, dy: -3, mods: no_mods() };
    assert_eq!(ui.scroll(Point::new(10, 55), &wheel), Some(3));
    assert_eq!(log(&ui, 3), vec!["scroll 0 -3"]);
    assert_eq!(ui.hot(), Some(1));
    assert_eq!(ui.scroll(Point::new(-1, -1), &wheel), None);
}

#[test]
fn poke_reaches_the_named_widget() {
    let mut ui = sample();
    let mut payload = 41;
    assert!(ui.poke(2, &mut payload));
    assert_eq!(payload, 42);
    assert_eq!(log(&ui, 2), vec!["poke 42"]);
    assert!(!ui.poke(9, &mut payload));
    assert_eq!(payload, 42);
}

#[test]
fn a_node_that_does_not_ask_again_gets_no_further_frame() {
    let mut ui = Ui::new(Probe::new(Kind::Column));
    ui.add(ROOT, Probe::new(Kind::Leaf(Size::new(100, 50))));
    ui.add(ROOT, Probe::new(Kind::Pass));
    // node 3 asks for two more frames, node 1 for none
    let mut keen = Probe::new(Kind::Leaf(Size::new(20, 10)));
    keen.frames_wanted = 2;
    ui.add(2, keen);
    let mut ask = HandlerCtx::new(1, false, false);
    ask.request_anim_frame();
    ui.apply_requests(3, ask.state());
    ui.apply_requests(1, ask.state());
    let first = ui.anim_frame(1_000);
    assert_eq!(first.interval, 0);
    assert_eq!(first.ticked, vec![(1, false), (3, true)]);
    assert!(!ui.wants_anim_frame(1) && ui.wants_anim_frame(3));
    let second = ui.anim_frame(17_000);
    assert_eq!(second.interval, 16_000);
    assert_eq!(second.ticked, vec![(3, true)]);
    let third = ui.anim_frame(50_000);
    assert_eq!(third.interval, 33_000);
    assert_eq!(third.ticked, vec![(3, false)]);
    let fourth = ui.anim_frame(60_000);
    assert_eq!(fourth.interval, 0);
    assert!(fourth.ticked.is_empty());
    assert_eq!(log(&ui, 1), vec!["frame 0"]);
    assert_eq!(log(&ui, 3), vec!["frame 0", "frame 16000", "frame 33000"]);
    assert!(log(&ui, ROOT).is_empty() && log(&ui, 2).is_empty());
}

#[test]
fn a_clock_that_runs_backwards_gives_an_empty_interval() {
    let mut root = Probe::new(Kind::Leaf(Size::new(1, 1)));
    root.frames_wanted = 5;
    let mut ui = Ui::new(root);
    let mut ask = HandlerCtx::new(ROOT, false, false);
    ask.request_anim_frame();
    ui.apply_requests(ROOT, ask.state());
    assert_eq!(ui.frame_interval(100), 0);
    assert_eq!(ui.anim_frame(100).interval, 0);
    assert_eq!(ui.frame_interval(40), 0);
    assert_eq!(ui.frame_interval(140), 40);
    assert_eq!(ui.anim_frame(40).interval, 0);
    assert_eq!(ui.anim_frame(45).interval, 5);
}

#[test]
fn removal_tells_the_parent_and_forgets_the_nodes() {
    let mut ui = sample();
    ui.mouse_move(Point::new(10, 55));
    let mut ask = HandlerCtx::new(3, true, false);
    ask.set_focused(true);
    ask.request_anim_frame();
    ui.apply_requests(3, ask.state());
    assert_eq!((ui.hot(), ui.focus()), (Some(3), Some(3)));
    assert_eq!(ui.remove(2), vec![2, 3]);
    assert_eq!((ui.hot(), ui.focus()), (None, None));
    assert!(ui.widget(2).is_none() && ui.widget(3).is_none());
    assert!(!ui.wants_anim_frame(3));
    assert_eq!(log(&ui, ROOT), vec!["removed 2"]);
    assert_eq!(ui.graph().children(ROOT).to_vec(), vec![1]);
    assert!(ui.anim_frame(5).ticked.is_empty());
    assert_eq!(ui.hit_test(Point::new(10, 55)), Some(ROOT));
    assert_eq!(ui.remove(ROOT), Vec::<Id>::new());
    assert_eq!(ui.remove(2), Vec::<Id>::new());
    assert_eq!(ui.add(2, Probe::new(Kind::Pass)), None);
    assert_eq!(ui.add(1, Probe::new(Kind::Pass)), Some(4));
    assert_eq!(ui.layout(&window(), 100), Ok(Size::new(100, 50)));
}

#[test]
fn removal_keeps_what_is_hot_elsewhere() {
    let mut ui = sample();
    ui.mouse_move(Point::new(10, 10));
    assert_eq!(ui.remove(3), vec![3]);
    assert_eq!(ui.hot(), Some(1));
    assert_eq!(log(&ui, 2), vec!["removed 3"]);
}

#[test]
fn paint_goes_from_parent_to_child_in_child_order() {
    let mut ui = Ui::new(Probe::new(Kind::Column));
    ui.add(ROOT, Probe::new(Kind::Leaf(Size::new(100, 50))));
    ui.add(ROOT, Probe::new(Kind::Column));
    ui.add(2, Probe::new(Kind::Leaf(Size::new(20, 10))));
    ui.add(2, Probe::new(Kind::Leaf(Size::new(30, 10))));
    assert_eq!(ui.layout(&window(), 100), Ok(Size::new(100, 70)));
    let plan = ui.paint_plan();
    assert_eq!(
        plan,
        vec![
            (ROOT, Rect::new(Point::new(0, 0), Size::new(100, 70))),
            (1, Rect::new(Point::new(0, 0), Size::new(100, 50))),
            (2, Rect::new(Point::new(0, 50), Size::new(30, 20))),
            (3, Rect::new(Point::new(0, 50), Size::new(20, 10))),
            (4, Rect::new(Point::new(0, 60), Size::new(30, 10))),
        ]
    );
    assert!(ui.needs_paint());
    let mut ctx = PaintCtx::new();
    ui.paint(&mut ctx);
    assert!(!ui.needs_paint());
    let commands = ctx.into_commands();
    assert_eq!(commands.len(), 5);
    for (i, (_, rect)) in plan.iter().enumerate() {
        assert_eq!(commands[i], PaintCmd::FillRect { rect: *rect, rgba: 0xff });
    }
}

#[test]
fn deliver_hands_back_what_the_widget_asked_for() {
    let mut ui = sample();
    let (handled, asked) = ui.deliver(1, &Event::HotChanged(true));
    assert!(!handled);
    assert!(asked.repaint && !asked.anim_frame && asked.focus.is_none());
    assert_eq!(asked.id, 1);
    let mut ctx = PaintCtx::new();
    ui.paint(&mut ctx);
    let (handled, asked) = ui.deliver(1, &Event::Mouse(click(1, 2)));
    assert!(!handled && !asked.repaint);
    assert!(!ui.needs_paint());
}

/// A widget that keeps every default.
struct Still;

impl Widget for Still {
    type Payload = u8;
}

#[test]
fn a_widget_that_keeps_the_defaults_handles_nothing() {
    let mut ui = Ui::new(Still);
    assert_eq!(ui.add(ROOT, Still), Some(1));
    let mut take = HandlerCtx::new(ROOT, false, false);
    take.set_focused(true);
    ui.apply_requests(ROOT, take.state());
    let mut ctx = PaintCtx::new();
    ui.paint(&mut ctx);
    assert!(ctx.into_commands().is_empty());
    let key = KeyEvent { key_code: 13, is_repeat: false, mods: no_mods() };
    assert!(!ui.key_down(&key));
    ui.key_up(&key);
    let mut payload = 3;
    assert!(!ui.poke(ROOT, &mut payload));
    assert_eq!(payload, 3);
    let (handled, asked) = ui.deliver(1, &Event::Mouse(click(0, 0)));
    assert!(!handled);
    assert_eq!(
        asked,
        HandlerState {
            id: 1,
            hot: false,
            focused: false,
            repaint: false,
            anim_frame: false,
            focus: None
        }
    );
    assert_eq!(ui.focus(), Some(ROOT));
    assert!(!ui.needs_paint());
    assert!(!ui.wants_anim_frame(ROOT) && !ui.wants_anim_frame(1));
    assert_eq!(
        ui.layout(&window(), 10),
        Err(LayoutError::NotAChild { node: 1, child: NO_CHILD })
    );
}

#[test]
fn a_delivery_tells_the_widget_what_it_is() {
    let mut ui = sample();
    ui.mouse_move(Point::new(10, 10));
    let mut take = HandlerCtx::new(1, true, false);
    take.set_focused(true);
    ui.apply_requests(1, take.state());
    let key = KeyEvent { key_code: 65, is_repeat: false, mods: no_mods() };
    let (_, first) = ui.deliver(1, &Event::KeyDown(key));
    assert_eq!((first.id, first.hot, first.focused), (1, true, true));
    let (_, other) = ui.deliver(3, &Event::KeyDown(key));
    assert_eq!((other.id, other.hot, other.focused), (3, false, false));
    assert_eq!(log(&ui, 1).last().unwrap(), "down 65 focused=true");
    assert_eq!(log(&ui, 3).last().unwrap(), "down 65 focused=false");
}

#[test]
fn a_key_changes_the_focus_only_as_the_widget_asks() {
    let mut ui = sample();
    let mut take = HandlerCtx::new(2, false, false);
    take.set_focused(true);
    ui.apply_requests(2, take.state());
    ui.key_up(&KeyEvent { key_code: 65, is_repeat: false, mods: no_mods() });
    assert_eq!(ui.focus(), Some(2));
    ui.key_up(&KeyEvent { key_code: 27, is_repeat: false, mods: no_mods() });
    assert_eq!(ui.focus(), None);
    assert_eq!(log(&ui, 2), vec!["up 65", "up 27"]);
}

#[test]
fn a_handler_at_the_bottom_keeps_the_event_from_everyone_above() {
    let mut ui = Ui::new(Probe::handling(Kind::Pass));
    ui.add(ROOT, Probe::handling(Kind::Pass));
    ui.add(1, Probe::handling(Kind::Leaf(Size::new(100, 50))));
    assert_eq!(ui.layout(&window(), 10), Ok(Size::new(100, 50)));
    let mut event = click(7, 8);
    event.button = MouseButton::Right;
    event.count = 2;
    event.mods.shift = true;
    let bubble = ui.mouse(&event);
    assert!(bubble.handled);
    assert_eq!(bubble.delivered, vec![(2, event, true)]);
    assert_eq!(log(&ui, 2), vec!["mouse 7 8 x2"]);
    assert!(log(&ui, 1).is_empty() && log(&ui, ROOT).is_empty());
}

#[test]
fn the_root_may_be_the_one_that_handles() {
    let mut ui = Ui::new(Probe::handling(Kind::Pass));
    ui.add(ROOT, Probe::new(Kind::Leaf(Size::new(100, 50))));
    assert_eq!(ui.layout(&window(), 10), Ok(Size::new(100, 50)));
    let bubble = ui.mouse(&click(1, 1));
    assert!(bubble.handled);
    assert_eq!(bubble.delivered, vec![(1, click(1, 1), false), (ROOT, click(1, 1), true)]);
}

#[test]
fn a_poke_at_nobody_leaves_the_payload() {
    let mut ui = Ui::new(Still);
    let mut payload = 9;
    assert!(!ui.poke(4, &mut payload));
    assert_eq!(payload, 9);
    assert!(!ui.poke(ROOT, &mut payload));
    assert_eq!(payload, 9);
}

#[test]
fn a_failed_pass_leaves_the_culprit_pending() {
    let mut ui = Ui::new(Probe::new(Kind::Column));
    ui.add(ROOT, Probe::new(Kind::Leaf(Size::new(1, 1))));
    ui.add(ROOT, Probe::new(Kind::Eager));
    ui.add(2, Probe::new(Kind::Leaf(Size::new(1, 1))));
    assert_eq!(ui.layout(&window(), 50), Err(LayoutError::NotSized { node: 2, child: 3 }));
    assert_eq!(ui.layout_status(2), Some(Status::Pending));
    assert_eq!(ui.layout_status(ROOT), Some(Status::Pending));
    assert_eq!(ui.layout_status(1), Some(Status::Resolved));
    assert_eq!(ui.layout_status(3), Some(Status::Untouched));
}
