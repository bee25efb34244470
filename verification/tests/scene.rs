use rayshot::color::{from_rgb, Color};
use rayshot::geometry::{Coord, Pos, Rect};
use rayshot::scene::{
    anchor_points, segments, shape_hit, text_columns, translated, Probe, Scene, Shape, Tool,
    MAX_HISTORY,
};

fn c(v: f32) -> Coord {
    Coord { bits: v.to_bits() }
}

fn p(x: f32, y: f32) -> Pos {
    Pos { x: c(x), y: c(y) }
}

fn red() -> Color {
    from_rgb(255, 0, 0)
}

fn text(name: &str) -> Shape {
    Shape::Text { pos: p(0.0, 0.0), text: name.to_string(), color: red(), size: c(24.0) }
}

fn names(scene: &Scene) -> Vec<String> {
    scene
        .shapes()
        .iter()
        .map(|s| match s {
            Shape::Text { text, .. } => text.clone(),
            _ => "other".to_string(),
        })
        .collect()
}

fn probe(outer: bool, inner: bool, near: Vec<bool>, in_text: bool) -> Probe {
    Probe { outer, inner, near, in_text }
}

#[test]
fn icons_are_the_glyphs_of_the_font() {
    assert_eq!(Tool::Select.icon(), egui_phosphor::regular::CURSOR);
    assert_eq!(Tool::Pen.icon(), egui_phosphor::regular::PENCIL_SIMPLE);
    assert_eq!(Tool::Line.icon(), egui_phosphor::regular::LINE_SEGMENT);
    assert_eq!(Tool::Arrow.icon(), egui_phosphor::regular::ARROW_UP_RIGHT);
    assert_eq!(Tool::Rect.icon(), egui_phosphor::regular::RECTANGLE);
    assert_eq!(Tool::Marker.icon(), egui_phosphor::regular::HIGHLIGHTER);
    assert_eq!(Tool::Text.icon(), egui_phosphor::regular::TEXT_T);
    assert_eq!(Tool::Blur.icon(), egui_phosphor::regular::SQUARES_FOUR);
}

#[test]
fn icons_are_single_characters() {
    assert_eq!(Tool::Select.icon(), "\u{E1DC}");
    assert_eq!(Tool::Pen.icon(), "\u{E3B4}");
    assert_eq!(Tool::Line.icon(), "\u{E6D2}");
    assert_eq!(Tool::Arrow.icon(), "\u{E092}");
    assert_eq!(Tool::Rect.icon(), "\u{E3F0}");
    assert_eq!(Tool::Marker.icon(), "\u{EC76}");
    assert_eq!(Tool::Text.icon(), "\u{E48A}");
    assert_eq!(Tool::Blur.icon(), "\u{E464}");
}

#[test]
fn tooltips_name_tool_and_key() {
    assert_eq!(Tool::Select.tooltip(), "Select / move / resize (S)");
    assert_eq!(Tool::Pen.tooltip(), "Pen (P)");
    assert_eq!(Tool::Line.tooltip(), "Line (L)");
    assert_eq!(Tool::Arrow.tooltip(), "Arrow (A)");
    assert_eq!(Tool::Rect.tooltip(), "Rectangle (R)");
    assert_eq!(Tool::Marker.tooltip(), "Marker (M)");
    assert_eq!(Tool::Text.tooltip(), "Text (T)");
    assert_eq!(Tool::Blur.tooltip(), "Pixelate (B)");
}

#[test]
fn undo_and_redo() {
    let mut s = Scene::new();
    s.push(text("a"));
    s.push(text("b"));
    assert_eq!(names(&s), ["a", "b"]);
    s.undo();
    assert_eq!(names(&s), ["a"]);
    s.redo();
    assert_eq!(names(&s), ["a", "b"]);
    s.undo();
    s.undo();
    s.undo();
    assert!(names(&s).is_empty());
    s.redo();
    assert_eq!(names(&s), ["a"]);
}

#[test]
fn a_change_forgets_what_was_undone() {
    let mut s = Scene::new();
    s.push(text("a"));
    s.undo();
    s.push(text("b"));
    s.redo();
    assert_eq!(names(&s), ["b"]);
}

#[test]
fn history_is_limited() {
    let mut s = Scene::new();
    for i in 0..MAX_HISTORY + 10 {
        s.push(text(&i.to_string()));
    }
    for _ in 0..MAX_HISTORY + 10 {
        s.undo();
    }
    assert_eq!(names(&s).len(), 10);
}

#[test]
fn replacing_a_shape_is_no_step() {
    let mut s = Scene::new();
    s.push(text("a"));
    s.set_shape(0, text("b"));
    s.set_shape(1, text("c"));
    assert_eq!(names(&s), ["b"]);
    s.undo();
    assert!(names(&s).is_empty());
}

#[test]
fn begun_change_is_undone_to() {
    let mut s = Scene::new();
    s.push(text("a"));
    s.begin_change();
    s.set_shape(0, text("b"));
    s.undo();
    assert_eq!(names(&s), ["a"]);
}

#[test]
fn duplicates_are_equal() {
    let pen = Shape::Pen { points: vec![p(1.0, 2.0)], color: red(), width: c(3.0) };
    match pen.duplicate() {
        Shape::Pen { points, color, width } => {
            assert_eq!(points, vec![p(1.0, 2.0)]);
            assert_eq!((color, width), (red(), c(3.0)));
        }
        _ => panic!("not a pen stroke"),
    }
}

#[test]
fn translation_moves_the_anchors() {
    let rect = Rect { min: p(0.0, 0.0), max: p(2.0, 2.0) };
    let shapes = vec![
        Shape::Rect { rect, color: red(), width: c(1.0) },
        Shape::Arrow { from: p(0.0, 1.0), to: p(2.0, 3.0), color: red(), width: c(1.0) },
        Shape::Line { from: p(4.0, 5.0), to: p(6.0, 7.0), color: red(), width: c(1.0) },
        Shape::Pen {
            points: vec![p(1.0, 1.0), p(2.0, 2.0), p(3.0, 3.0)],
            color: red(),
            width: c(1.0),
        },
        text("t"),
    ];
    for s in &shapes {
        let before = anchor_points(s);
        let moved: Vec<Pos> = before
            .iter()
            .map(|q| p(f32::from_bits(q.x.bits) + 10.0, f32::from_bits(q.y.bits) - 1.0))
            .collect();
        let after = translated(s, &moved);
        assert_eq!(anchor_points(&after), moved);
        assert_eq!(anchor_points(&translated(&after, &before)), before);
    }
    assert_eq!(anchor_points(&shapes[0]), vec![p(0.0, 0.0), p(2.0, 2.0)]);
    assert_eq!(anchor_points(&shapes[3]).len(), 3);
}

#[test]
fn translations_add_up() {
    let shift = |s: &Shape, x: f32, y: f32| {
        let moved = anchor_points(s)
            .iter()
            .map(|q| p(f32::from_bits(q.x.bits) + x, f32::from_bits(q.y.bits) + y))
            .collect();
        translated(s, &moved)
    };
    let line = Shape::Line { from: p(4.0, 5.0), to: p(6.0, 7.0), color: red(), width: c(1.0) };
    let twice = shift(&shift(&line, 10.0, -1.0), 1.0, 3.0);
    assert_eq!(anchor_points(&twice), anchor_points(&shift(&line, 11.0, 2.0)));
    assert_eq!(anchor_points(&twice), vec![p(15.0, 7.0), p(17.0, 9.0)]);
    assert_eq!(anchor_points(&shift(&line, 0.0, 0.0)), anchor_points(&line));
}

#[test]
fn pixelated_areas_do_not_move() {
    let blur = Shape::Blur { cell: c(16.0), cells: vec![(1, 2, red())] };
    assert!(anchor_points(&blur).is_empty());
    match translated(&blur, &vec![]) {
        Shape::Blur { cells, .. } => assert_eq!(cells, vec![(1, 2, red())]),
        _ => panic!("not pixelated"),
    }
}

#[test]
fn strokes_consist_of_segments() {
    let pen = |points: Vec<Pos>| Shape::Pen { points, color: red(), width: c(1.0) };
    assert!(segments(&pen(vec![])).is_empty());
    assert!(segments(&pen(vec![p(0.0, 0.0)])).is_empty());
    assert_eq!(
        segments(&pen(vec![p(0.0, 0.0), p(1.0, 0.0), p(1.0, 1.0)])),
        vec![(p(0.0, 0.0), p(1.0, 0.0)), (p(1.0, 0.0), p(1.0, 1.0))]
    );
    let line = Shape::Line { from: p(0.0, 0.0), to: p(9.0, 9.0), color: red(), width: c(1.0) };
    assert_eq!(segments(&line), vec![(p(0.0, 0.0), p(9.0, 9.0))]);
    assert!(segments(&text("t")).is_empty());
}

#[test]
fn topmost_touched_shape_is_hit() {
    let shapes = vec![text("a"), text("b"), text("c")];
    let probes = |flags: [bool; 3]| -> Vec<Probe> {
        flags.iter().map(|&f| probe(false, false, vec![], f)).collect()
    };
    assert_eq!(shape_hit(&shapes, &probes([true, true, false])), Some(1));
    assert_eq!(shape_hit(&shapes, &probes([true, true, true])), Some(2));
    assert_eq!(shape_hit(&shapes, &probes([false, false, false])), None);
    assert_eq!(shape_hit(&vec![], &vec![]), None);
}

#[test]
fn shapes_are_touched_in_their_own_ways() {
    let rect = Rect { min: p(0.0, 0.0), max: p(2.0, 2.0) };
    let hit = |s: Shape, q: Probe| {
        assert_eq!(q.near.len(), segments(&s).len());
        shape_hit(&vec![s], &vec![q]).is_some()
    };
    let r = || Shape::Rect { rect, color: red(), width: c(1.0) };
    assert!(hit(r(), probe(true, false, vec![], false)));
    assert!(!hit(r(), probe(true, true, vec![], false)));
    assert!(!hit(r(), probe(false, false, vec![], true)));
    let line = || Shape::Line { from: p(0.0, 0.0), to: p(1.0, 1.0), color: red(), width: c(1.0) };
    let arrow = || Shape::Arrow { from: p(0.0, 0.0), to: p(1.0, 1.0), color: red(), width: c(1.0) };
    let pen = |n| Shape::Pen { points: vec![p(0.0, 0.0); n], color: red(), width: c(1.0) };
    assert!(hit(line(), probe(false, false, vec![true], false)));
    assert!(!hit(line(), probe(true, false, vec![false], true)));
    assert!(hit(arrow(), probe(false, false, vec![true], false)));
    assert!(hit(pen(3), probe(false, false, vec![false, true], false)));
    assert!(!hit(pen(3), probe(false, false, vec![false, false], false)));
    assert!(!hit(pen(1), probe(true, false, vec![], true)));
    assert!(!hit(pen(0), probe(true, false, vec![], true)));
    assert!(hit(text("t"), probe(false, false, vec![], true)));
    assert!(!hit(text("t"), probe(true, false, vec![], false)));
    let blur = Shape::Blur { cell: c(16.0), cells: vec![(0, 0, red())] };
    assert!(!hit(blur, probe(true, false, vec![], true)));
}

#[test]
fn text_is_at_least_one_column_wide() {
    assert_eq!(text_columns(""), 1);
    assert_eq!(text_columns("é\u{1f600}x"), 3);
}
