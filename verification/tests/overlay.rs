use rayshot::capture::Frame;
use rayshot::color::{from_rgb, marker_color};
use rayshot::geometry::{Coord, Pos, Rect, Size};
use rayshot::overlay::{
    brush_ring, caret_index, crop_fields, handle_cursor, hit_handle, is_visible, parse_crop,
    resize_rect, size_label, text_fields, toolbar, window_regions, Action, Cursor, Drag, Effect,
    Hover, Key, NoDisplay, OverlayApp, Pass, Press, SelMode, MARKER_RING, MARKER_WIDTH,
    MIN_RING, MIN_SELECTION, STROKE_WIDTH, TEXT_SIZE, VISIBLE_SIZE,
};
use rayshot::pixelate::{grid_brush, Brush, BLUR_SIDE};
use rayshot::scene::{segments, Probe, Shape, Tool};

fn c(v: f32) -> Coord {
    Coord { bits: v.to_bits() }
}

fn p(x: f32, y: f32) -> Pos {
    Pos { x: c(x), y: c(y) }
}

fn r(x: f32, y: f32, x2: f32, y2: f32) -> Rect {
    Rect { min: p(x, y), max: p(x2, y2) }
}

fn size(w: f32, h: f32) -> Size {
    Size { w: c(w), h: c(h) }
}

fn frame() -> Frame {
    Frame { width: 20, height: 2, rgba: vec![10; 160] }
}

fn screen() -> Rect {
    r(0.0, 0.0, 100.0, 100.0)
}

fn app() -> OverlayApp {
    OverlayApp::new(None, size(100.0, 100.0))
}

fn brush() -> Brush {
    grid_brush(0, 1, 0, 0, BLUR_SIDE, vec![true, true])
}

/// A press at a point where the shapes with a set flag are touched.
fn press(x: f32, y: f32, shapes: &[Shape], touched: &[bool], handle: Option<usize>) -> Press {
    let probes = shapes
        .iter()
        .zip(touched)
        .map(|(s, &t)| Probe {
            outer: t,
            inner: false,
            near: vec![t; segments(s).len()],
            in_text: t,
        })
        .collect();
    let near = (0..8).map(|i| handle == Some(i)).collect();
    Press { at: p(x, y), probes, near, brush: brush() }
}

fn drag(x: f32, y: f32) -> Drag {
    Drag { at: p(x, y), moved: vec![], shifted: screen(), size: size(50.0, 50.0), brush: brush() }
}

fn end(app: &mut OverlayApp, pass: Pass) {
    app.end_pass(pass, screen(), p(0.0, 0.0));
}

/// Presses, drags and releases in three passes.
fn stroke(app: &mut OverlayApp, from: (f32, f32), to: (f32, f32), released: Size) {
    let mut pass = app.begin_pass();
    let touched = vec![false; app.scene.shapes().len()];
    pass.drag_started(&press(from.0, from.1, app.scene.shapes(), &touched, None), app.scene.shapes(), &frame());
    end(app, pass);
    let mut pass = app.begin_pass();
    pass.dragged(&drag(to.0, to.1), &frame());
    end(app, pass);
    let mut pass = app.begin_pass();
    pass.drag_stopped(released);
    end(app, pass);
}

fn type_in(app: &mut OverlayApp, x: f32, y: f32, text: &str) {
    let mut pass = app.begin_pass();
    pass.clicked(p(x, y));
    end(app, pass);
    let mut pass = app.begin_pass();
    pass.text_buf = Some(text.to_string());
    app.end_pass(pass, screen(), p(x, y));
}

#[test]
fn constants_are_the_numbers_they_stand_for() {
    assert_eq!(f32::from_bits(MIN_SELECTION), 5.0);
    assert_eq!(f32::from_bits(TEXT_SIZE), 24.0);
    assert_eq!(f32::from_bits(STROKE_WIDTH), 3.0);
    assert_eq!(f32::from_bits(MARKER_WIDTH), 16.0);
    assert_eq!(f32::from_bits(MIN_RING), 5.0);
    assert_eq!(f32::from_bits(MARKER_RING), 8.0);
    assert_eq!(f32::from_bits(VISIBLE_SIZE), 0.5);
}

#[test]
fn the_overlay_starts_empty() {
    let a = app();
    assert_eq!((a.selection, a.tool), (None, Tool::Select));
    assert_eq!(a.color, from_rgb(255, 60, 60));
    assert_eq!(a.stroke_width, c(3.0));
    assert!(a.scene.shapes().is_empty());
}

#[test]
fn last_selection_is_restored_inside_the_frame() {
    let s = size(100.0, 50.0);
    let inside = r(0.0, 0.0, 100.0, 50.0);
    assert_eq!(OverlayApp::new(Some(inside), s).selection, Some(inside));
    assert_eq!(OverlayApp::new(Some(r(-1.0, 0.0, 5.0, 5.0)), s).selection, None);
    assert_eq!(OverlayApp::new(Some(r(0.0, -0.1, 5.0, 5.0)), s).selection, None);
    assert_eq!(OverlayApp::new(Some(r(0.0, 0.0, 100.5, 5.0)), s).selection, None);
    assert_eq!(OverlayApp::new(Some(r(0.0, 0.0, 5.0, 51.0)), s).selection, None);
}

#[test]
fn first_near_handle_is_hit() {
    assert_eq!(hit_handle(&vec![false, true, true]), Some(1));
    assert_eq!(hit_handle(&vec![false; 8]), None);
    assert_eq!(hit_handle(&vec![]), None);
}

#[test]
fn handle_cursors_point_their_way() {
    let expected = [
        Cursor::ResizeNwSe,
        Cursor::ResizeVertical,
        Cursor::ResizeNeSw,
        Cursor::ResizeHorizontal,
        Cursor::ResizeNwSe,
        Cursor::ResizeVertical,
        Cursor::ResizeNeSw,
        Cursor::ResizeHorizontal,
        Cursor::Default,
    ];
    for (h, cursor) in expected.iter().enumerate() {
        assert_eq!(handle_cursor(h), *cursor);
    }
}

#[test]
fn handles_move_their_sides() {
    let base = r(10.0, 20.0, 30.0, 40.0);
    let at = p(12.0, 22.0);
    assert_eq!(resize_rect(base, 0, at), r(12.0, 22.0, 30.0, 40.0));
    assert_eq!(resize_rect(base, 1, at), r(10.0, 22.0, 30.0, 40.0));
    assert_eq!(resize_rect(base, 2, at), r(10.0, 22.0, 12.0, 40.0));
    assert_eq!(resize_rect(base, 3, at), r(10.0, 20.0, 12.0, 40.0));
    assert_eq!(resize_rect(base, 4, at), r(10.0, 20.0, 12.0, 22.0));
    assert_eq!(resize_rect(base, 5, at), r(10.0, 20.0, 30.0, 22.0));
    assert_eq!(resize_rect(base, 6, at), r(12.0, 20.0, 30.0, 22.0));
    assert_eq!(resize_rect(base, 7, at), r(12.0, 20.0, 30.0, 40.0));
    assert_eq!(resize_rect(base, 8, at), base);
}

#[test]
fn handles_turn_the_rectangle_over() {
    let base = r(10.0, 20.0, 30.0, 40.0);
    assert_eq!(resize_rect(base, 0, p(50.0, 60.0)), r(30.0, 40.0, 50.0, 60.0));
    assert_eq!(resize_rect(base, 3, p(5.0, 0.0)), r(5.0, 20.0, 10.0, 40.0));
    for h in 0..8 {
        let at = p(if h == 0 || h >= 6 { 10.0 } else { 30.0 }, if h <= 2 { 20.0 } else { 40.0 });
        assert_eq!(resize_rect(base, h, at), base);
    }
}

#[test]
fn dragging_selects() {
    let mut a = app();
    stroke(&mut a, (30.0, 10.0), (5.0, 40.0), size(25.0, 30.0));
    assert_eq!(a.selection, Some(r(5.0, 10.0, 30.0, 40.0)));
    assert_eq!((a.sel_mode, a.drag_start), (None, Some(p(30.0, 10.0))));
}

#[test]
fn small_selections_are_dropped() {
    let mut a = app();
    stroke(&mut a, (30.0, 10.0), (5.0, 12.0), size(25.0, 4.9));
    assert_eq!(a.selection, None);
    stroke(&mut a, (30.0, 10.0), (25.0, 15.0), size(5.0, 5.0));
    assert_eq!(a.selection, Some(r(25.0, 10.0, 30.0, 15.0)));
}

#[test]
fn pressing_outside_starts_over() {
    let mut a = app();
    stroke(&mut a, (10.0, 10.0), (40.0, 40.0), size(30.0, 30.0));
    a.tool = Tool::Line;
    stroke(&mut a, (12.0, 12.0), (20.0, 20.0), size(30.0, 30.0));
    assert_eq!(a.scene.shapes().len(), 1);
    a.tool = Tool::Select;
    let mut pass = a.begin_pass();
    pass.drag_started(&press(60.0, 60.0, a.scene.shapes(), &[false], None), a.scene.shapes(), &frame());
    assert_eq!(pass.sel_mode, Some(SelMode::New));
    end(&mut a, pass);
    assert!(a.scene.shapes().is_empty());
    assert_eq!(a.selection, Some(r(10.0, 10.0, 40.0, 40.0)));
    a.scene.undo();
    assert!(a.scene.shapes().is_empty());
}

#[test]
fn pressing_inside_moves_the_selection() {
    let mut a = app();
    stroke(&mut a, (10.0, 10.0), (40.0, 40.0), size(30.0, 30.0));
    let mut pass = a.begin_pass();
    pass.drag_started(&press(20.0, 20.0, a.scene.shapes(), &[], None), a.scene.shapes(), &frame());
    assert_eq!(pass.sel_mode, Some(SelMode::Move));
    assert_eq!(pass.sel_ref, r(10.0, 10.0, 40.0, 40.0));
    let mut d = drag(25.0, 20.0);
    d.shifted = r(15.0, 10.0, 45.0, 40.0);
    pass.dragged(&d, &frame());
    assert_eq!(pass.selection, Some(r(15.0, 10.0, 45.0, 40.0)));
    pass.drag_stopped(size(1.0, 1.0));
    assert_eq!(pass.selection, Some(r(15.0, 10.0, 45.0, 40.0)));
}

#[test]
fn pressing_inside_keeps_the_shapes() {
    let mut a = app();
    stroke(&mut a, (10.0, 10.0), (40.0, 40.0), size(30.0, 30.0));
    a.tool = Tool::Line;
    stroke(&mut a, (12.0, 12.0), (20.0, 20.0), size(0.0, 0.0));
    a.tool = Tool::Select;
    for touched in [true, false] {
        let mut pass = a.begin_pass();
        pass.drag_started(&press(15.0, 15.0, a.scene.shapes(), &[touched], None), a.scene.shapes(), &frame());
        assert_eq!(pass.moving_shape.is_some(), touched);
        pass.drag_stopped(size(30.0, 30.0));
        end(&mut a, pass);
        assert_eq!(a.scene.shapes().len(), 1);
    }
}

#[test]
fn the_history_stays_limited() {
    let mut a = app();
    a.tool = Tool::Pen;
    for _ in 0..210 {
        stroke(&mut a, (1.0, 1.0), (2.0, 2.0), size(0.0, 0.0));
    }
    for _ in 0..210 {
        a.key_pressed(Key::Z, true, false);
    }
    assert_eq!(a.scene.shapes().len(), 10);
}

#[test]
fn pressing_a_handle_resizes() {
    let mut a = app();
    stroke(&mut a, (10.0, 10.0), (40.0, 40.0), size(30.0, 30.0));
    let mut pass = a.begin_pass();
    pass.drag_started(&press(40.0, 40.0, a.scene.shapes(), &[], Some(4)), a.scene.shapes(), &frame());
    assert_eq!(pass.sel_mode, Some(SelMode::Resize(4)));
    let mut d = drag(50.0, 60.0);
    d.size = size(40.0, 50.0);
    pass.dragged(&d, &frame());
    assert_eq!(pass.selection, Some(r(10.0, 10.0, 50.0, 60.0)));
    let mut d = drag(12.0, 60.0);
    d.size = size(2.0, 50.0);
    pass.dragged(&d, &frame());
    assert_eq!(pass.selection, Some(r(10.0, 10.0, 50.0, 60.0)));
}

#[test]
fn moving_a_shape_is_one_step() {
    let mut a = app();
    a.tool = Tool::Line;
    stroke(&mut a, (1.0, 1.0), (2.0, 2.0), size(0.0, 0.0));
    a.tool = Tool::Select;
    let mut pass = a.begin_pass();
    pass.drag_started(&press(1.0, 1.0, a.scene.shapes(), &[true], None), a.scene.shapes(), &frame());
    end(&mut a, pass);
    for i in 1..4 {
        let mut pass = a.begin_pass();
        let mut d = drag(1.0 + i as f32, 1.0);
        d.moved = vec![p(1.0 + i as f32, 1.0), p(2.0 + i as f32, 2.0)];
        pass.dragged(&d, &frame());
        end(&mut a, pass);
    }
    let mut pass = a.begin_pass();
    pass.drag_stopped(size(0.0, 0.0));
    end(&mut a, pass);
    assert!(matches!(
        a.scene.shapes()[0],
        Shape::Line { from, to, .. } if from == p(4.0, 1.0) && to == p(5.0, 2.0)
    ));
    a.scene.undo();
    assert!(matches!(
        a.scene.shapes()[0],
        Shape::Line { from, to, .. } if from == p(1.0, 1.0) && to == p(2.0, 2.0)
    ));
    assert_eq!(a.selection, None);
}

#[test]
fn straight_tools_follow_the_pointer() {
    let mut a = app();
    a.tool = Tool::Rect;
    stroke(&mut a, (9.0, 1.0), (2.0, 5.0), size(0.0, 0.0));
    a.tool = Tool::Arrow;
    stroke(&mut a, (9.0, 1.0), (2.0, 5.0), size(0.0, 0.0));
    let shapes = a.scene.shapes();
    assert!(matches!(
        shapes[0],
        Shape::Rect { rect, color, width }
            if rect == r(2.0, 1.0, 9.0, 5.0) && color == from_rgb(255, 60, 60) && width == c(3.0)
    ));
    assert!(matches!(
        shapes[1],
        Shape::Arrow { from, to, .. } if from == p(9.0, 1.0) && to == p(2.0, 5.0)
    ));
    assert!(a.draft.is_none() && a.draft_start.is_none());
}

#[test]
fn free_hand_tools_collect_points() {
    let mut a = app();
    a.tool = Tool::Pen;
    stroke(&mut a, (1.0, 1.0), (2.0, 2.0), size(0.0, 0.0));
    a.tool = Tool::Marker;
    stroke(&mut a, (3.0, 3.0), (4.0, 4.0), size(0.0, 0.0));
    match &a.scene.shapes()[0] {
        Shape::Pen { points, color, width } => {
            assert_eq!(points, &vec![p(1.0, 1.0), p(2.0, 2.0)]);
            assert_eq!((*color, *width), (from_rgb(255, 60, 60), c(3.0)));
        }
        _ => panic!("not a pen stroke"),
    }
    match &a.scene.shapes()[1] {
        Shape::Pen { points, color, width } => {
            assert_eq!(points, &vec![p(3.0, 3.0), p(4.0, 4.0)]);
            assert_eq!((*color, *width), (marker_color(from_rgb(255, 60, 60)), c(16.0)));
        }
        _ => panic!("not a marker stroke"),
    }
}

#[test]
fn the_brush_pixelates() {
    let mut a = app();
    a.tool = Tool::Blur;
    stroke(&mut a, (1.0, 1.0), (2.0, 2.0), size(0.0, 0.0));
    match &a.scene.shapes()[0] {
        Shape::Blur { cell, cells } => {
            assert_eq!(*cell, c(16.0));
            let gray = from_rgb(10, 10, 10);
            assert_eq!(cells, &vec![(0, 0, gray), (1, 0, gray)]);
        }
        _ => panic!("not pixelated"),
    }
}

#[test]
fn drawing_is_one_step() {
    let mut a = app();
    a.tool = Tool::Pen;
    stroke(&mut a, (1.0, 1.0), (2.0, 2.0), size(0.0, 0.0));
    assert_eq!(a.scene.shapes().len(), 1);
    a.scene.undo();
    assert!(a.scene.shapes().is_empty());
}

#[test]
fn typed_text_becomes_a_shape() {
    let mut a = app();
    a.tool = Tool::Text;
    type_in(&mut a, 3.0, 4.0, " hi ");
    assert!(a.scene.shapes().is_empty());
    a.commit_text();
    match &a.scene.shapes()[0] {
        Shape::Text { pos, text, color, size } => {
            assert_eq!((*pos, text.as_str()), (p(3.0, 4.0), " hi "));
            assert_eq!((*color, *size), (from_rgb(255, 60, 60), c(24.0)));
        }
        _ => panic!("not a text"),
    }
    assert!(a.text_edit.is_none());
}

#[test]
fn blank_text_is_dropped() {
    let mut a = app();
    a.tool = Tool::Text;
    type_in(&mut a, 3.0, 4.0, " \t\u{a0}");
    a.commit_text();
    assert!(a.scene.shapes().is_empty() && a.text_edit.is_none());
}

#[test]
fn leaving_the_text_commits_it() {
    let mut a = app();
    a.tool = Tool::Text;
    type_in(&mut a, 3.0, 4.0, "one");
    type_in(&mut a, 5.0, 5.0, "two");
    assert_eq!(a.scene.shapes().len(), 1);
    let mut pass = a.begin_pass();
    pass.text_lost_focus = true;
    end(&mut a, pass);
    assert_eq!(a.scene.shapes().len(), 2);
    type_in(&mut a, 5.0, 5.0, "three");
    let mut pass = a.begin_pass();
    pass.tool = Tool::Pen;
    end(&mut a, pass);
    assert_eq!(a.scene.shapes().len(), 3);
    assert_eq!(a.tool, Tool::Pen);
}

#[test]
fn only_the_text_tool_starts_texts() {
    let mut a = app();
    a.tool = Tool::Pen;
    let mut pass = a.begin_pass();
    pass.clicked(p(1.0, 1.0));
    end(&mut a, pass);
    assert!(a.text_edit.is_none());
}

#[test]
fn the_window_with_the_text_knows_its_selection() {
    let mut a = app();
    a.tool = Tool::Text;
    type_in(&mut a, 3.0, 4.0, "word");
    let mut pass = a.begin_pass();
    pass.owner_text_sel = Some((0, 4, 4));
    a.end_pass(pass, screen(), p(3.0, 4.0));
    assert_eq!(a.text_sel, Some((0, 4, 4)));
    let pass = a.begin_pass();
    a.end_pass(pass, r(200.0, 0.0, 300.0, 100.0), p(3.0, 4.0));
    assert_eq!(a.text_sel, Some((0, 4, 4)));
    a.commit_text();
    let pass = a.begin_pass();
    end(&mut a, pass);
    assert_eq!(a.text_sel, None);
}

#[test]
fn an_idle_pass_changes_nothing() {
    let mut a = app();
    stroke(&mut a, (10.0, 10.0), (40.0, 40.0), size(30.0, 30.0));
    let (selection, start) = (a.selection, a.drag_start);
    let pass = a.begin_pass();
    end(&mut a, pass);
    assert_eq!((a.selection, a.drag_start), (selection, start));
    assert!(a.scene.shapes().is_empty() && a.pending.is_none());
}

#[test]
fn buttons_are_remembered_once() {
    let mut a = app();
    let mut pass = a.begin_pass();
    pass.action = Some(Action::Save);
    end(&mut a, pass);
    let pass = a.begin_pass();
    end(&mut a, pass);
    assert_eq!(a.take_pending(), Some(Action::Save));
    assert_eq!(a.take_pending(), None);
}

#[test]
fn keys_choose_tools() {
    let keys = [
        (Key::S, Tool::Select),
        (Key::R, Tool::Rect),
        (Key::A, Tool::Arrow),
        (Key::L, Tool::Line),
        (Key::P, Tool::Pen),
        (Key::M, Tool::Marker),
        (Key::T, Tool::Text),
        (Key::X, Tool::Blur),
        (Key::V, Tool::Select),
        (Key::B, Tool::Blur),
    ];
    let mut a = app();
    for (key, tool) in keys {
        assert_eq!(a.key_pressed(key, false, false), Effect::Redraw);
        assert_eq!(a.tool, tool);
    }
    assert_eq!(a.key_pressed(Key::P, true, false), Effect::Nothing);
    assert_eq!(a.key_pressed(Key::C, false, false), Effect::Nothing);
    assert_eq!(a.key_pressed(Key::Other, false, false), Effect::Nothing);
    assert_eq!(a.tool, Tool::Blur);
}

#[test]
fn keys_end_the_overlay() {
    let mut a = app();
    assert_eq!(a.key_pressed(Key::Escape, false, false), Effect::Cancel);
    assert_eq!(a.key_pressed(Key::Enter, true, true), Effect::Finish);
    assert_eq!(a.key_pressed(Key::C, true, false), Effect::Finish);
}

#[test]
fn keys_undo_and_redo() {
    let mut a = app();
    a.tool = Tool::Pen;
    stroke(&mut a, (1.0, 1.0), (2.0, 2.0), size(0.0, 0.0));
    assert_eq!(a.key_pressed(Key::Z, true, false), Effect::Redraw);
    assert_eq!(a.scene.shapes().len(), 0);
    assert_eq!(a.key_pressed(Key::Y, true, false), Effect::Redraw);
    assert_eq!(a.scene.shapes().len(), 1);
    a.key_pressed(Key::Z, true, false);
    assert_eq!(a.key_pressed(Key::Z, true, true), Effect::Redraw);
    assert_eq!(a.scene.shapes().len(), 1);
    assert_eq!(a.key_pressed(Key::Z, false, false), Effect::Nothing);
    assert_eq!(a.scene.shapes().len(), 1);
}

#[test]
fn keys_go_to_the_text() {
    let mut a = app();
    a.type_text(p(1.0, 1.0), "x".to_string());
    assert_eq!(a.tool, Tool::Text);
    assert_eq!(a.key_pressed(Key::P, false, false), Effect::Redraw);
    assert_eq!(a.key_pressed(Key::Enter, false, false), Effect::Redraw);
    assert_eq!((a.tool, a.scene.shapes().len()), (Tool::Text, 0));
    assert_eq!(a.key_pressed(Key::Escape, false, false), Effect::Redraw);
    assert_eq!(a.scene.shapes().len(), 1);
    assert_eq!(a.key_pressed(Key::Escape, false, false), Effect::Cancel);
}

#[test]
fn rings_show_the_stroke() {
    assert_eq!(brush_ring(Tool::Pen, c(1.5)), Some(c(5.0)));
    assert_eq!(brush_ring(Tool::Line, c(9.0)), Some(c(9.0)));
    assert_eq!(brush_ring(Tool::Marker, c(1.5)), Some(c(8.0)));
    assert_eq!(brush_ring(Tool::Blur, c(1.5)), Some(c(16.0)));
    for tool in [Tool::Select, Tool::Arrow, Tool::Rect, Tool::Text] {
        assert_eq!(brush_ring(tool, c(1.5)), None);
    }
}

#[test]
fn cursors_follow_tool_and_pointer() {
    let mut a = app();
    let hover = |at: Option<Pos>, handle: Option<usize>, active: bool| Hover {
        at,
        selection: r(10.0, 10.0, 40.0, 40.0),
        near: (0..8).map(|i| handle == Some(i)).collect(),
        active,
    };
    assert_eq!(a.begin_pass().cursor(&hover(Some(p(20.0, 20.0)), None, true)), Cursor::Crosshair);
    a.selection = Some(r(10.0, 10.0, 40.0, 40.0));
    let mut pass = a.begin_pass();
    assert_eq!(pass.cursor(&hover(Some(p(20.0, 20.0)), None, true)), Cursor::Move);
    assert_eq!(pass.cursor(&hover(Some(p(10.0, 10.0)), Some(0), true)), Cursor::ResizeNwSe);
    assert_eq!(pass.cursor(&hover(Some(p(60.0, 20.0)), None, true)), Cursor::Crosshair);
    assert_eq!(pass.cursor(&hover(None, Some(0), false)), Cursor::Crosshair);
    pass.sel_mode = Some(SelMode::Move);
    assert_eq!(pass.cursor(&hover(None, None, true)), Cursor::Grabbing);
    pass.sel_mode = Some(SelMode::Resize(3));
    assert_eq!(pass.cursor(&hover(None, None, true)), Cursor::ResizeHorizontal);
    pass.tool = Tool::Pen;
    assert_eq!(pass.cursor(&hover(None, None, true)), Cursor::Hidden);
    assert_eq!(pass.cursor(&hover(None, None, false)), Cursor::Crosshair);
    pass.tool = Tool::Arrow;
    assert_eq!(pass.cursor(&hover(None, None, true)), Cursor::Crosshair);
    pass.tool = Tool::Text;
    assert_eq!(pass.cursor(&hover(None, None, true)), Cursor::Text);
}

#[test]
fn half_a_pixel_is_not_visible() {
    assert!(is_visible(size(0.6, 1.0)));
    assert!(!is_visible(size(0.5, 1.0)));
    assert!(!is_visible(size(1.0, -3.0)));
}

#[test]
fn labels_show_the_size() {
    assert_eq!(size_label(640, 480), "640 × 480");
    assert_eq!(size_label(0, -5), "0 × -5");
}

#[test]
fn the_caret_stands_at_the_end_by_default() {
    assert_eq!(caret_index(None, "héy"), 3);
    assert_eq!(caret_index(Some(1), "héy"), 1);
}

#[test]
fn buttons_for_all_tools() {
    assert_eq!(
        toolbar(),
        vec![
            Tool::Pen,
            Tool::Line,
            Tool::Arrow,
            Tool::Rect,
            Tool::Marker,
            Tool::Text,
            Tool::Blur,
            Tool::Select,
        ]
    );
}

#[test]
fn one_window_per_monitor() {
    let frame = r(0.0, 0.0, 9.0, 9.0);
    let monitors = vec![r(0.0, 0.0, 4.0, 9.0), r(4.0, 0.0, 9.0, 9.0)];
    assert_eq!(window_regions(true, frame, &monitors), Ok(vec![frame]));
    assert_eq!(window_regions(true, frame, &vec![]), Ok(vec![frame]));
    assert_eq!(window_regions(false, frame, &monitors), Ok(monitors.clone()));
    assert_eq!(window_regions(false, frame, &vec![]), Err(NoDisplay));
}

#[test]
fn selections_are_described_by_four_numbers() {
    let read = |text: &str| -> Option<(Pos, Size)> {
        let fields = crop_fields(text);
        parse_crop(&fields.iter().map(|f| f.parse::<f32>().ok().map(c)).collect())
    };
    assert_eq!(read(" 1, 2 ,3,4 "), Some((p(1.0, 2.0), size(3.0, 4.0))));
    assert_eq!(read("1,2,-3,0"), Some((p(1.0, 2.0), size(-3.0, 0.0))));
    assert_eq!(read("1,2,3"), None);
    assert_eq!(read("1,2,3,4,5"), None);
    assert_eq!(read(""), None);
}

#[test]
fn texts_are_described_by_two_numbers() {
    assert_eq!(
        text_fields(" 1 ,2, a, b"),
        Some(("1".to_string(), "2".to_string(), " a, b".to_string()))
    );
    assert_eq!(text_fields("1,2"), None);
    assert_eq!(text_fields("1"), None);
    assert_eq!(text_fields("1,2,"), Some(("1".to_string(), "2".to_string(), String::new())));
}

#[test]
fn the_demo_shows_every_shape() {
    let mut a = app();
    a.draw_demo(&frame(), &vec![brush(), brush()]);
    let shapes = a.scene.shapes();
    assert_eq!(shapes.len(), 5);
    assert!(matches!(
        shapes[0],
        Shape::Rect { rect, color, width } if rect == r(400.0, 300.0, 800.0, 600.0)
            && color == from_rgb(255, 60, 60) && width == c(3.0)
    ));
    assert!(matches!(
        shapes[1],
        Shape::Arrow { from, to, color, width } if from == p(900.0, 400.0)
            && to == p(1250.0, 700.0) && color == from_rgb(255, 200, 40) && width == c(4.0)
    ));
    assert!(matches!(
        shapes[2],
        Shape::Line { from, to, color, width } if from == p(300.0, 720.0)
            && to == p(760.0, 760.0) && color == from_rgb(60, 200, 90) && width == c(3.0)
    ));
    assert!(matches!(
        &shapes[3],
        Shape::Text { pos, text, size, .. } if *pos == p(420.0, 240.0)
            && text == "rayshot text!" && *size == c(28.0)
    ));
    assert!(matches!(&shapes[4], Shape::Blur { cells, .. } if cells.len() == 2));
}
