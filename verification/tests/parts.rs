use druid::geometry::{offset_coord, BoxConstraints, Point, Rect, Size};
use druid::graph::{Graph, ROOT};
use druid::hit::{find_child, path_to};
use druid::layout::{
    contains_id, place, unsized_child, Call, LayoutError, LayoutPass, Progress, Status,
};
use druid::order::{append_subtree, order};
use druid::ui::plan_move;
use druid::ui::Event;
use druid::widget::{
    forward_layout, HandlerCtx, HandlerState, Id, KeyModifiers, LayoutCtx, LayoutResult,
    PaintCmd, PaintCtx, Widget, NO_CHILD,
};
use druid::window::{
    request_quit, Atoms, Background, EventKind, IdleQueue, LoopAction, Menu, MenuKey, RunLoop,
    ShimEvent, WindowBuilder, WindowClass,
};

fn bc(min: (i32, i32), max: (i32, i32)) -> BoxConstraints {
    BoxConstraints::new(Size::new(min.0, min.1), Size::new(max.0, max.1)).unwrap()
}

#[test]
fn a_rectangle_covers_its_left_and_top_edge_only() {
    let r = Rect::new(Point::new(10, 20), Size::new(30, 40));
    assert!(r.contains(Point::new(10, 20)));
    assert!(r.contains(Point::new(39, 59)));
    assert!(!r.contains(Point::new(40, 20)));
    assert!(!r.contains(Point::new(10, 60)));
    assert!(!r.contains(Point::new(9, 20)));
    assert!(!r.contains(Point::new(10, 19)));
    assert_eq!(r.to_local(Point::new(12, 25)), Point::new(2, 5));
}

#[test]
fn a_rectangle_without_extent_covers_nothing() {
    assert!(!Rect::zero().contains(Point::origin()));
    let negative = Rect::new(Point::new(0, 0), Size::new(-5, 10));
    assert!(!negative.contains(Point::new(-1, 1)));
    assert!(!negative.contains(Point::new(0, 1)));
}

#[test]
fn contains_does_not_overflow_at_the_ends_of_the_range() {
    let r = Rect::new(Point::new(i32::MAX - 1, i32::MIN), Size::new(i32::MAX, i32::MAX));
    assert!(r.contains(Point::new(i32::MAX, i32::MIN)));
    assert!(!r.contains(Point::new(i32::MIN, i32::MIN)));
    let far = Rect::new(Point::new(i32::MIN, i32::MIN), Size::new(1, 1));
    assert!(!far.contains(Point::new(i32::MAX, i32::MAX)));
}

#[test]
fn offsets_stop_at_the_ends_of_the_range() {
    assert_eq!(offset_coord(3, 4), 7);
    assert_eq!(offset_coord(i32::MAX, 1), i32::MAX);
    assert_eq!(offset_coord(i32::MIN, -1), i32::MIN);
    assert_eq!(offset_coord(i32::MIN, i32::MAX), -1);
    assert_eq!(
        Point::new(i32::MAX, -7).offset(Point::new(5, 2)),
        Point::new(i32::MAX, -5)
    );
}

#[test]
fn constraints_need_ordered_bounds() {
    assert!(BoxConstraints::new(Size::new(0, 0), Size::new(400, 300)).is_some());
    assert!(BoxConstraints::new(Size::new(5, 5), Size::new(5, 5)).is_some());
    assert!(BoxConstraints::new(Size::new(6, 0), Size::new(5, 300)).is_none());
    assert!(BoxConstraints::new(Size::new(0, 301), Size::new(400, 300)).is_none());
    let c = bc((1, 2), (3, 4));
    assert_eq!(c.min(), Size::new(1, 2));
    assert_eq!(c.max(), Size::new(3, 4));
    let t = BoxConstraints::tight(Size::new(9, 8));
    assert_eq!((t.min(), t.max()), (Size::new(9, 8), Size::new(9, 8)));
}

#[test]
fn constrain_moves_a_size_into_the_bounds() {
    let c = bc((10, 20), (100, 200));
    assert_eq!(c.constrain(Size::new(50, 60)), Size::new(50, 60));
    assert_eq!(c.constrain(Size::new(5, 500)), Size::new(10, 200));
    assert_eq!(c.constrain(Size::new(101, 19)), Size::new(100, 20));
    assert_eq!(c.constrain(Size::new(10, 200)), Size::new(10, 200));
    let again = c.constrain(c.constrain(Size::new(-3, 7000)));
    assert_eq!(again, Size::new(10, 200));
}

struct Plain;

impl Widget for Plain {
    type Payload = ();
}

#[test]
fn the_default_layout_without_children_asks_for_nobody() {
    let c = bc((0, 0), (400, 300));
    let mut widget = Plain;
    let mut ctx = LayoutCtx::new();
    assert_eq!(widget.layout(&c, &[], None, &mut ctx), LayoutResult::RequestChild(NO_CHILD, c));
    assert_eq!(
        widget.layout(&c, &[], Some(Size::new(1, 1)), &mut ctx),
        LayoutResult::RequestChild(NO_CHILD, c)
    );
    assert!(ctx.into_positions().is_empty());
}

#[test]
fn forwarding_goes_to_the_first_child() {
    let c = bc((0, 0), (400, 300));
    let mut ctx = LayoutCtx::new();
    assert_eq!(forward_layout(&c, &[4, 2], None, &mut ctx), LayoutResult::RequestChild(4, c));
    assert_eq!(
        forward_layout(&c, &[4, 2], Some(Size::new(3, 5)), &mut ctx),
        LayoutResult::Size(Size::new(3, 5))
    );
    assert_eq!(ctx.into_positions(), vec![(4, Point::new(0, 0))]);
}

#[test]
fn the_default_paint_paints_nothing() {
    let mut widget = Plain;
    let mut ctx = PaintCtx::new();
    ctx.fill_rect(Rect::zero(), 1);
    widget.paint(&mut ctx, &Rect::new(Point::new(1, 2), Size::new(3, 4)));
    assert_eq!(ctx.into_commands(), vec![PaintCmd::FillRect { rect: Rect::zero(), rgba: 1 }]);
}

#[test]
fn contexts_record_what_was_asked() {
    let mut ctx = HandlerCtx::new(4, true, false);
    assert_eq!((ctx.id(), ctx.is_hot(), ctx.is_focused()), (4, true, false));
    assert_eq!(
        ctx.state(),
        HandlerState {
            id: 4,
            hot: true,
            focused: false,
            repaint: false,
            anim_frame: false,
            focus: None
        }
    );
    ctx.invalidate();
    ctx.request_anim_frame();
    ctx.set_focused(false);
    assert_eq!(
        ctx.state(),
        HandlerState {
            id: 4,
            hot: true,
            focused: false,
            repaint: true,
            anim_frame: true,
            focus: Some(false)
        }
    );
    let mut layout = LayoutCtx::new();
    layout.position_child(2, Point::new(1, 1));
    layout.position_child(1, Point::new(3, 4));
    assert_eq!(layout.into_positions(), vec![(2, Point::new(1, 1)), (1, Point::new(3, 4))]);
    let mut paint = PaintCtx::new();
    let r = Rect::new(Point::new(1, 2), Size::new(3, 4));
    paint.fill_rect(r, 7);
    paint.stroke_rect(r, 9);
    assert_eq!(
        paint.into_commands(),
        vec![PaintCmd::FillRect { rect: r, rgba: 7 }, PaintCmd::StrokeRect { rect: r, rgba: 9 }]
    );
}

#[test]
fn placing_moves_a_child_and_keeps_its_size() {
    let mut geom = vec![
        Rect::new(Point::new(0, 0), Size::new(9, 9)),
        Rect::new(Point::new(1, 1), Size::new(2, 3)),
    ];
    place(
        &mut geom,
        &vec![(1, Point::new(5, 6)), (7, Point::new(1, 1)), (1, Point::new(8, 9))],
    );
    assert_eq!(geom[1], Rect::new(Point::new(8, 9), Size::new(2, 3)));
    assert_eq!(geom[0], Rect::new(Point::new(0, 0), Size::new(9, 9)));
    assert_eq!(geom.len(), 2);
}

#[test]
fn the_first_unsized_child_is_reported() {
    let positions = vec![(1, Point::origin()), (4, Point::origin()), (3, Point::origin())];
    assert_eq!(unsized_child(&positions, &vec![1, 3, 4]), None);
    assert_eq!(unsized_child(&positions, &vec![1]), Some(4));
    assert_eq!(unsized_child(&positions, &vec![]), Some(1));
    assert_eq!(unsized_child(&vec![], &vec![]), None);
    assert!(contains_id(&vec![3, 5], 5));
    assert!(!contains_id(&vec![3, 5], 4));
}

#[test]
fn a_pass_goes_down_and_up_the_tree() {
    let mut graph = Graph::new();
    graph.add_child(ROOT);
    graph.add_child(ROOT);
    let mut geom = vec![Rect::zero(); 3];
    let window = bc((0, 0), (400, 300));
    let tight = BoxConstraints::tight(Size::new(7, 7));
    let mut pass = LayoutPass::begin(&graph, window, 3);
    assert_eq!(pass.depth(), 1);
    assert_eq!(pass.status(ROOT), Some(Status::Pending));
    assert_eq!(pass.status(1), Some(Status::Untouched));
    assert_eq!(pass.status(3), None);
    assert_eq!(pass.poll(), Ok(Call { node: ROOT, bc: window, size: None }));
    let none: Vec<(Id, Point)> = Vec::new();
    assert_eq!(
        pass.respond(&graph, &mut geom, LayoutResult::RequestChild(2, tight), &none),
        Progress::Continue
    );
    assert_eq!(pass.depth(), 2);
    assert_eq!(pass.poll(), Ok(Call { node: 2, bc: tight, size: None }));
    assert_eq!(
        pass.respond(&graph, &mut geom, LayoutResult::Size(Size::new(7, 7)), &none),
        Progress::Continue
    );
    assert_eq!(pass.status(2), Some(Status::Resolved));
    assert_eq!(pass.poll(), Ok(Call { node: ROOT, bc: window, size: Some(Size::new(7, 7)) }));
    // no step is left
    assert_eq!(pass.poll(), Err(LayoutError::Unresolved { node: ROOT }));
    // child 1 has not been sized: the answer is refused and nothing moves
    let early = vec![(2, Point::new(1, 1)), (1, Point::new(2, 2))];
    assert_eq!(
        pass.respond(&graph, &mut geom, LayoutResult::Size(Size::new(9, 9)), &early),
        Progress::Failed(LayoutError::NotSized { node: ROOT, child: 1 })
    );
    assert_eq!(geom[2], Rect::new(Point::new(0, 0), Size::new(7, 7)));
    assert_eq!(pass.depth(), 1);
    let fine = vec![(2, Point::new(1, 1))];
    assert_eq!(
        pass.respond(&graph, &mut geom, LayoutResult::Size(Size::new(9, 9)), &fine),
        Progress::Done(Size::new(9, 9))
    );
    assert_eq!(geom[2], Rect::new(Point::new(1, 1), Size::new(7, 7)));
    assert_eq!(geom[ROOT].size, Size::new(9, 9));
    assert_eq!(geom[1], Rect::zero());
    assert_eq!(pass.depth(), 0);
    assert_eq!(
        pass.into_status(),
        vec![Status::Resolved, Status::Untouched, Status::Resolved]
    );
}

#[test]
fn hit_paths_follow_the_rectangles() {
    let mut graph = Graph::new();
    graph.add_child(ROOT);
    graph.add_child(ROOT);
    graph.add_child(2);
    let geom = vec![
        Rect::new(Point::new(10, 10), Size::new(100, 100)),
        Rect::new(Point::new(0, 0), Size::new(60, 60)),
        Rect::new(Point::new(50, 50), Size::new(50, 50)),
        Rect::new(Point::new(5, 5), Size::new(10, 10)),
    ];
    // the two children overlap between 50 and 60: the later one wins
    assert_eq!(find_child(&graph, &geom, ROOT, Point::new(55, 55)), Some(2));
    assert_eq!(find_child(&graph, &geom, ROOT, Point::new(45, 55)), Some(1));
    assert_eq!(find_child(&graph, &geom, ROOT, Point::new(70, 10)), None);
    assert_eq!(
        path_to(&graph, &geom, Point::new(66, 66)),
        vec![(ROOT, Point::new(56, 56)), (2, Point::new(6, 6)), (3, Point::new(1, 1))]
    );
    assert_eq!(path_to(&graph, &geom, Point::new(9, 50)), Vec::<(Id, Point)>::new());
    assert_eq!(path_to(&graph, &geom, Point::new(109, 10)), vec![(ROOT, Point::new(99, 0))]);
}

#[test]
fn paint_order_adds_up_the_origins() {
    let mut graph = Graph::new();
    graph.add_child(ROOT);
    graph.add_child(1);
    graph.add_child(ROOT);
    let geom = vec![
        Rect::new(Point::new(10, 10), Size::new(100, 100)),
        Rect::new(Point::new(1, 2), Size::new(60, 60)),
        Rect::new(Point::new(3, 4), Size::new(5, 5)),
        Rect::new(Point::new(-20, 0), Size::new(10, 10)),
    ];
    assert_eq!(
        order(&graph, &geom),
        vec![
            (ROOT, geom[0]),
            (1, Rect::new(Point::new(11, 12), Size::new(60, 60))),
            (2, Rect::new(Point::new(14, 16), Size::new(5, 5))),
            (3, Rect::new(Point::new(-10, 10), Size::new(10, 10))),
        ]
    );
    let mut out = vec![(9, Rect::zero())];
    append_subtree(&graph, &geom, 1, Point::new(100, 100), &mut out);
    assert_eq!(
        out,
        vec![
            (9, Rect::zero()),
            (1, Rect::new(Point::new(101, 102), Size::new(60, 60))),
            (2, Rect::new(Point::new(104, 106), Size::new(5, 5))),
        ]
    );
}

#[test]
fn a_move_within_one_node_changes_no_hot_state() {
    let p = Point::new(1, 2);
    assert_eq!(plan_move(Some(4), Some((4, p))), vec![(4, Event::MouseMoved(p))]);
    assert_eq!(plan_move(None, None), Vec::<(Id, Event)>::new());
    assert_eq!(plan_move(Some(2), None), vec![(2, Event::HotChanged(false))]);
    assert_eq!(
        plan_move(None, Some((7, p))),
        vec![(7, Event::HotChanged(true)), (7, Event::MouseMoved(p))]
    );
    assert_eq!(
        plan_move(Some(2), Some((7, p))),
        vec![
            (2, Event::HotChanged(false)),
            (7, Event::HotChanged(true)),
            (7, Event::MouseMoved(p))
        ]
    );
}

#[test]
fn a_menu_records_nothing() {
    let mut menu = Menu::new();
    let key = MenuKey {
        mods: KeyModifiers { shift: false, alt: false, ctrl: true, meta: false },
        key_code: 81,
    };
    menu.add_item(1, "Quit", key);
    menu.add_separator();
    menu.add_dropdown(Menu::default(), "File");
    assert_eq!(menu, Menu::new());
    assert_eq!(Menu::default(), Menu::new());
}

#[test]
fn a_new_builder_plans_an_untitled_window_with_motion() {
    let builder: WindowBuilder<()> = WindowBuilder::new();
    let plan = builder.build().ok().unwrap();
    assert!(plan.title.is_empty());
    assert!(plan.mouse_move_events);
    assert!(plan.handler.is_none());
    assert_eq!(plan.menu, Some(Menu::new()));
    assert_eq!(plan.border_width, 0);
    assert_eq!(plan.depth, 0);
    assert_eq!(plan.class, WindowClass::InputOutput);
    assert_eq!(plan.background, Background::White);
    assert_eq!(plan.events, vec![EventKind::Expose, EventKind::Structure, EventKind::Motion]);
}

#[test]
fn a_window_without_motion_does_not_ask_for_it() {
    let mut builder: WindowBuilder<()> = WindowBuilder::new();
    builder.set_enable_mouse_move_events(false);
    let plan = builder.build().ok().unwrap();
    assert_eq!(plan.events, vec![EventKind::Expose, EventKind::Structure]);
    assert!(!plan.mouse_move_events);
}

#[test]
fn a_title_keeps_its_bytes() {
    let mut builder: WindowBuilder<()> = WindowBuilder::new();
    builder.set_title("gr\u{fc}n".to_string());
    builder.set_title("caf\u{e9} \u{2603}".to_string());
    let plan = builder.build().ok().unwrap();
    assert_eq!(plan.title, "caf\u{e9} \u{2603}".as_bytes().to_vec());
}

#[test]
fn the_loop_hands_a_close_request_to_the_application() {
    let atoms = Atoms { wm_protocols: 300, wm_delete_window: 301 };
    let mut run_loop = RunLoop::new();
    assert!(!run_loop.is_quit_requested());
    let close = ShimEvent::ClientMessage { message_type: 300, first: 301 };
    assert_eq!(run_loop.next_action(close, atoms, true), LoopAction::CloseRequest);
    // the loop itself goes on after a close request
    assert!(!run_loop.is_quit_requested());
    let other = ShimEvent::ClientMessage { message_type: 300, first: 302 };
    assert_eq!(run_loop.next_action(other, atoms, true), LoopAction::Ignore);
    let foreign = ShimEvent::ClientMessage { message_type: 299, first: 301 };
    assert_eq!(run_loop.next_action(foreign, atoms, true), LoopAction::Ignore);
    assert_eq!(run_loop.next_action(ShimEvent::Expose, atoms, true), LoopAction::Paint);
    assert_eq!(run_loop.next_action(ShimEvent::Other, atoms, true), LoopAction::Ignore);
    assert_eq!(
        run_loop.next_action(ShimEvent::Resize { width: 3, height: 4 }, atoms, false),
        LoopAction::Resize { width: 3, height: 4 }
    );
    request_quit(&mut run_loop);
    assert!(run_loop.is_quit_requested());
    assert_eq!(run_loop.next_action(close, atoms, true), LoopAction::Exit);
    assert_eq!(run_loop.next_action(ShimEvent::Expose, atoms, true), LoopAction::Exit);
}

#[test]
fn motion_is_reported_only_where_it_was_asked_for() {
    let atoms = Atoms { wm_protocols: 1, wm_delete_window: 2 };
    let run_loop = RunLoop::new();
    let motion = ShimEvent::Motion { pos: Point::new(3, 4) };
    assert_eq!(
        run_loop.next_action(motion, atoms, true),
        LoopAction::MouseMove { pos: Point::new(3, 4) }
    );
    assert_eq!(run_loop.next_action(motion, atoms, false), LoopAction::Ignore);
}

#[test]
fn idle_callbacks_run_once_and_in_order() {
    let mut queue = IdleQueue::new();
    assert!(queue.is_alive());
    let handle = queue.get_idle_handle().unwrap();
    handle.add_idle(&mut queue, 5);
    handle.add_idle(&mut queue, 3);
    handle.add_idle(&mut queue, 5);
    assert_eq!(queue.take_ready(), vec![5, 3, 5]);
    assert_eq!(queue.take_ready(), Vec::<u64>::new());
    handle.add_idle(&mut queue, 8);
    assert_eq!(queue.take_ready(), vec![8]);
}

#[test]
fn destruction_drops_what_was_pending() {
    let mut queue = IdleQueue::new();
    let handle = queue.get_idle_handle().unwrap();
    handle.add_idle(&mut queue, 1);
    queue.destroy();
    assert!(!queue.is_alive());
    assert_eq!(queue.take_ready(), Vec::<u64>::new());
    handle.add_idle(&mut queue, 2);
    handle.add_idle(&mut queue, 3);
    assert_eq!(queue.take_ready(), Vec::<u64>::new());
    queue.destroy();
    assert_eq!(queue.take_ready(), Vec::<u64>::new());
}

#[test]
fn local_coordinates_stop_at_the_ends_of_the_range() {
    let r = Rect::new(Point::new(i32::MIN, 5), Size::new(1, 1));
    assert_eq!(r.to_local(Point::new(i32::MAX, 2)), Point::new(i32::MAX, -3));
    let s = Rect::new(Point::new(i32::MAX, 0), Size::new(1, 1));
    assert_eq!(s.to_local(Point::new(i32::MIN, 0)), Point::new(i32::MIN, 0));
}

#[test]
fn what_was_never_in_the_tree_has_no_children() {
    let mut graph = Graph::new();
    graph.add_child(ROOT);
    assert_eq!(graph.children(5).to_vec(), Vec::<Id>::new());
    assert!(!graph.is_live(5));
}
