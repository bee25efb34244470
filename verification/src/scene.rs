//! The drawing tools, the shapes that they leave on a screenshot, and the history of changes.

use vstd::prelude::*;

use crate::color::Color;
use crate::geometry::{Coord, Pos, Rect};
pub use crate::pixelate::{add_brush_cells, BLUR_BRUSH, BLUR_CELL};

verus! {

/// A tool of the overlay.
#[derive(Clone, Copy, Debug, PartialEq, Eq, Structural)]
pub enum Tool {
    Select,
    Pen,
    Line,
    Arrow,
    Rect,
    Marker,
    Text,
    Blur,
}

/// The glyph `egui_phosphor::regular::CURSOR`, whose value is the character U+E1DC.
#[verifier::external_body]
fn glyph_cursor() -> (r: &'static str)
    ensures
        r@ == seq!['\u{E1DC}'],
{
    egui_phosphor::regular::CURSOR
}

/// The glyph `egui_phosphor::regular::PENCIL_SIMPLE`, whose value is the character U+E3B4.
#[verifier::external_body]
fn glyph_pencil_simple() -> (r: &'static str)
    ensures
        r@ == seq!['\u{E3B4}'],
{
    egui_phosphor::regular::PENCIL_SIMPLE
}

/// The glyph `egui_phosphor::regular::LINE_SEGMENT`, whose value is the character U+E6D2.
#[verifier::external_body]
fn glyph_line_segment() -> (r: &'static str)
    ensures
        r@ == seq!['\u{E6D2}'],
{
    egui_phosphor::regular::LINE_SEGMENT
}

/// The glyph `egui_phosphor::regular::ARROW_UP_RIGHT`, whose value is the character U+E092.
#[verifier::external_body]
fn glyph_arrow_up_right() -> (r: &'static str)
    ensures
        r@ == seq!['\u{E092}'],
{
    egui_phosphor::regular::ARROW_UP_RIGHT
}

/// The glyph `egui_phosphor::regular::RECTANGLE`, whose value is the character U+E3F0.
#[verifier::external_body]
fn glyph_rectangle() -> (r: &'static str)
    ensures
        r@ == seq!['\u{E3F0}'],
{
    egui_phosphor::regular::RECTANGLE
}

/// The glyph `egui_phosphor::regular::HIGHLIGHTER`, whose value is the character U+EC76.
#[verifier::external_body]
fn glyph_highlighter() -> (r: &'static str)
    ensures
        r@ == seq!['\u{EC76}'],
{
    egui_phosphor::regular::HIGHLIGHTER
}

/// The glyph `egui_phosphor::regular::TEXT_T`, whose value is the character U+E48A.
#[verifier::external_body]
fn glyph_text_t() -> (r: &'static str)
    ensures
        r@ == seq!['\u{E48A}'],
{
    egui_phosphor::regular::TEXT_T
}

/// The glyph `egui_phosphor::regular::SQUARES_FOUR`, whose value is the character U+E464.
#[verifier::external_body]
fn glyph_squares_four() -> (r: &'static str)
    ensures
        r@ == seq!['\u{E464}'],
{
    egui_phosphor::regular::SQUARES_FOUR
}

impl Tool {
    /// The character that stands for the tool in the icon font.
    pub open spec fn glyph(self) -> char {
        match self {
            Tool::Select => '\u{E1DC}',
            Tool::Pen => '\u{E3B4}',
            Tool::Line => '\u{E6D2}',
            Tool::Arrow => '\u{E092}',
            Tool::Rect => '\u{E3F0}',
            Tool::Marker => '\u{EC76}',
            Tool::Text => '\u{E48A}',
            Tool::Blur => '\u{E464}',
        }
    }

    /// What the tool's button explains.
    pub open spec fn explanation(self) -> Seq<char> {
        match self {
            Tool::Select => "Select / move / resize (S)"@,
            Tool::Pen => "Pen (P)"@,
            Tool::Line => "Line (L)"@,
            Tool::Arrow => "Arrow (A)"@,
            Tool::Rect => "Rectangle (R)"@,
            Tool::Marker => "Marker (M)"@,
            Tool::Text => "Text (T)"@,
            Tool::Blur => "Pixelate (B)"@,
        }
    }

    /// The tool's icon.
    pub fn icon(self) -> (r: &'static str)
        ensures
            r@ == seq![self.glyph()],
    {
        match self {
            Tool::Select => glyph_cursor(),
            Tool::Pen => glyph_pencil_simple(),
            Tool::Line => glyph_line_segment(),
            Tool::Arrow => glyph_arrow_up_right(),
            Tool::Rect => glyph_rectangle(),
            Tool::Marker => glyph_highlighter(),
            Tool::Text => glyph_text_t(),
            Tool::Blur => glyph_squares_four(),
        }
    }

    /// The text shown over the tool's button.
    pub fn tooltip(self) -> (r: &'static str)
        ensures
            r@ == self.explanation(),
    {
        match self {
            Tool::Select => "Select / move / resize (S)",
            Tool::Pen => "Pen (P)",
            Tool::Line => "Line (L)",
            Tool::Arrow => "Arrow (A)",
            Tool::Rect => "Rectangle (R)",
            Tool::Marker => "Marker (M)",
            Tool::Text => "Text (T)",
            Tool::Blur => "Pixelate (B)",
        }
    }
}

/// A shape on the screenshot, in the coordinates of its frame.
pub enum Shape {
    Rect { rect: Rect, color: Color, width: Coord },
    Arrow { from: Pos, to: Pos, color: Color, width: Coord },
    Line { from: Pos, to: Pos, color: Color, width: Coord },
    Pen { points: Vec<Pos>, color: Color, width: Coord },
    Text { pos: Pos, text: String, color: Color, size: Coord },
    /// Cells of a grid, by column and row, each painted over with one color.
    Blur { cell: Coord, cells: Vec<(u32, u32, Color)> },
}

/// The contents of a `Shape`.
pub enum ShapeView {
    Rect { rect: Rect, color: Color, width: Coord },
    Arrow { from: Pos, to: Pos, color: Color, width: Coord },
    Line { from: Pos, to: Pos, color: Color, width: Coord },
    Pen { points: Seq<Pos>, color: Color, width: Coord },
    Text { pos: Pos, text: Seq<char>, color: Color, size: Coord },
    Blur { cell: Coord, cells: Seq<(u32, u32, Color)> },
}

impl View for Shape {
    type V = ShapeView;

    open spec fn view(&self) -> ShapeView {
        match *self {
            Shape::Rect { rect, color, width } => ShapeView::Rect { rect, color, width },
            Shape::Arrow { from, to, color, width } => ShapeView::Arrow { from, to, color, width },
            Shape::Line { from, to, color, width } => ShapeView::Line { from, to, color, width },
            Shape::Pen { points, color, width } => ShapeView::Pen { points: points@, color, width },
            Shape::Text { pos, text, color, size } => ShapeView::Text {
                pos,
                text: text@,
                color,
                size,
            },
            Shape::Blur { cell, cells } => ShapeView::Blur { cell, cells: cells@ },
        }
    }
}

/// A copy of a list of points.
fn copy_points(points: &Vec<Pos>) -> (r: Vec<Pos>)
    ensures
        r@ == points@,
{
    let mut r: Vec<Pos> = Vec::new();
    let mut i: usize = 0;
    while i < points.len()
        invariant
            i <= points@.len(),
            r@ == points@.take(i as int),
        decreases points@.len() - i,
    {
        r.push(points[i]);
        assert(points@.take(i + 1) == points@.take(i as int).push(points@[i as int]));
        i = i + 1;
    }
    assert(points@.take(points@.len() as int) == points@);
    r
}

/// A copy of a list of cells.
fn copy_cells(cells: &Vec<(u32, u32, Color)>) -> (r: Vec<(u32, u32, Color)>)
    ensures
        r@ == cells@,
{
    let mut r: Vec<(u32, u32, Color)> = Vec::new();
    let mut i: usize = 0;
    while i < cells.len()
        invariant
            i <= cells@.len(),
            r@ == cells@.take(i as int),
        decreases cells@.len() - i,
    {
        r.push(cells[i]);
        assert(cells@.take(i + 1) == cells@.take(i as int).push(cells@[i as int]));
        i = i + 1;
    }
    assert(cells@.take(cells@.len() as int) == cells@);
    r
}

impl Shape {
    /// A copy of the shape.
    pub fn duplicate(&self) -> (r: Shape)
        ensures
            r@ == self@,
    {
        match self {
            Shape::Rect { rect, color, width } => Shape::Rect {
                rect: *rect,
                color: *color,
                width: *width,
            },
            Shape::Arrow { from, to, color, width } => Shape::Arrow {
                from: *from,
                to: *to,
                color: *color,
                width: *width,
            },
            Shape::Line { from, to, color, width } => Shape::Line {
                from: *from,
                to: *to,
                color: *color,
                width: *width,
            },
            Shape::Pen { points, color, width } => Shape::Pen {
                points: copy_points(points),
                color: *color,
                width: *width,
            },
            Shape::Text { pos, text, color, size } => Shape::Text {
                pos: *pos,
                text: text.clone(),
                color: *color,
                size: *size,
            },
            Shape::Blur { cell, cells } => Shape::Blur { cell: *cell, cells: copy_cells(cells) },
        }
    }
}

/// The contents of a list of shapes.
pub open spec fn shape_views(shapes: Seq<Shape>) -> Seq<ShapeView> {
    Seq::new(shapes.len(), |i: int| shapes[i]@)
}

/// The contents of a list of lists of shapes.
pub open spec fn history_views(history: Seq<Vec<Shape>>) -> Seq<Seq<ShapeView>> {
    Seq::new(history.len(), |i: int| shape_views(history[i]@))
}

/// The shapes drawn so far, with what undoing and redoing give back.
pub struct Scene {
    shapes: Vec<Shape>,
    undo: Vec<Vec<Shape>>,
    redo: Vec<Vec<Shape>>,
}

/// The contents of a `Scene`: the shapes, the states to go back to and the states to go
/// forward to, the next one last.
#[verifier::ext_equal]
pub struct SceneView {
    pub shapes: Seq<ShapeView>,
    pub undo: Seq<Seq<ShapeView>>,
    pub redo: Seq<Seq<ShapeView>>,
}

impl View for Scene {
    type V = SceneView;

    closed spec fn view(&self) -> SceneView {
        SceneView {
            shapes: shape_views(self.shapes@),
            undo: history_views(self.undo@),
            redo: history_views(self.redo@),
        }
    }
}

/// How many changes can be undone.
pub const MAX_HISTORY: usize = 200;

impl SceneView {
    /// Nothing drawn, nothing to undo or redo.
    pub open spec fn blank() -> SceneView {
        SceneView { shapes: Seq::empty(), undo: Seq::empty(), redo: Seq::empty() }
    }

    /// The history is not longer than it may be.
    pub open spec fn well_formed(self) -> bool {
        self.undo.len() + self.redo.len() <= MAX_HISTORY
    }

    /// The present shapes become a state to go back to, the oldest such state is dropped if
    /// there are too many, and there is nothing left to go forward to.
    pub open spec fn begun(self) -> SceneView {
        let undo = self.undo.push(self.shapes);
        SceneView {
            shapes: self.shapes,
            undo: if undo.len() > MAX_HISTORY {
                undo.remove(0)
            } else {
                undo
            },
            redo: Seq::empty(),
        }
    }

    /// One more shape, as a change that can be undone.
    pub open spec fn pushed(self, shape: ShapeView) -> SceneView {
        SceneView { shapes: self.shapes.push(shape), ..self.begun() }
    }

    /// The state before the last change, if it is known.
    pub open spec fn undone(self) -> SceneView {
        if self.undo.len() == 0 {
            self
        } else {
            SceneView {
                shapes: self.undo.last(),
                undo: self.undo.drop_last(),
                redo: self.redo.push(self.shapes),
            }
        }
    }

    /// The state that was last undone, if there is one.
    pub open spec fn redone(self) -> SceneView {
        if self.redo.len() == 0 {
            self
        } else {
            SceneView {
                shapes: self.redo.last(),
                undo: self.undo.push(self.shapes),
                redo: self.redo.drop_last(),
            }
        }
    }

    /// The shape at `idx` replaced, if there is one.
    pub open spec fn with_shape(self, idx: int, shape: ShapeView) -> SceneView {
        if 0 <= idx < self.shapes.len() {
            SceneView { shapes: self.shapes.update(idx, shape), ..self }
        } else {
            self
        }
    }
}

/// A copy of a list of shapes.
fn copy_shapes(shapes: &Vec<Shape>) -> (r: Vec<Shape>)
    ensures
        shape_views(r@) == shape_views(shapes@),
{
    let mut r: Vec<Shape> = Vec::new();
    let mut i: usize = 0;
    while i < shapes.len()
        invariant
            i <= shapes@.len(),
            r@.len() == i,
            forall|j: int| 0 <= j < i ==> (#[trigger] r@[j])@ == shapes@[j]@,
        decreases shapes@.len() - i,
    {
        r.push(shapes[i].duplicate());
        i = i + 1;
    }
    assert(shape_views(r@) =~= shape_views(shapes@));
    r
}

impl Scene {
    /// An empty scene.
    pub fn new() -> (r: Scene)
        ensures
            r@ == SceneView::blank(),
            r@.well_formed(),
    {
        let r = Scene { shapes: Vec::new(), undo: Vec::new(), redo: Vec::new() };
        assert(r@ =~= SceneView::blank());
        r
    }

    /// Remembers the present shapes, to be undone to.
    pub fn begin_change(&mut self)
        ensures
            final(self)@ == old(self)@.begun(),
            old(self)@.well_formed() ==> final(self)@.well_formed(),
    {
        let ghost before = self@;
        let copy = copy_shapes(&self.shapes);
        self.undo.push(copy);
        assert(history_views(self.undo@) =~= before.undo.push(before.shapes));
        if self.undo.len() > MAX_HISTORY {
            let ghost undo = self.undo@;
            let _ = self.undo.remove(0);
            assert(history_views(self.undo@) =~= history_views(undo).remove(0));
        }
        self.redo.clear();
        assert(self@ =~= before.begun());
    }

    /// Adds a shape on top of the others.
    pub fn push(&mut self, shape: Shape)
        ensures
            final(self)@ == old(self)@.pushed(shape@),
            old(self)@.well_formed() ==> final(self)@.well_formed(),
    {
        let ghost before = self@;
        self.begin_change();
        let ghost shapes = self.shapes@;
        self.shapes.push(shape);
        assert(shape_views(self.shapes@) =~= shape_views(shapes).push(shape@));
        assert(self@ =~= before.pushed(shape@));
    }

    /// Takes the last change back.
    pub fn undo(&mut self)
        ensures
            final(self)@ == old(self)@.undone(),
            old(self)@.well_formed() ==> final(self)@.well_formed(),
    {
        let ghost before = *self;
        match self.undo.pop() {
            Some(prev) => {
                let mut shapes = prev;
                std::mem::swap(&mut self.shapes, &mut shapes);
                self.redo.push(shapes);
                assert(history_views(self.undo@) =~= before@.undo.drop_last());
                assert(history_views(self.redo@) =~= before@.redo.push(before@.shapes));
                assert(self@ =~= before@.undone());
            },
            None => {
                assert(before@.undo.len() == 0);
            },
        }
    }

    /// Makes the change that was last taken back again.
    pub fn redo(&mut self)
        ensures
            final(self)@ == old(self)@.redone(),
            old(self)@.well_formed() ==> final(self)@.well_formed(),
    {
        let ghost before = *self;
        match self.redo.pop() {
            Some(next) => {
                let mut shapes = next;
                std::mem::swap(&mut self.shapes, &mut shapes);
                self.undo.push(shapes);
                assert(history_views(self.redo@) =~= before@.redo.drop_last());
                assert(history_views(self.undo@) =~= before@.undo.push(before@.shapes));
                assert(self@ =~= before@.redone());
            },
            None => {
                assert(before@.redo.len() == 0);
            },
        }
    }

    /// The shapes, from the lowest to the topmost.
    pub fn shapes(&self) -> (r: &Vec<Shape>)
        ensures
            shape_views(r@) == self@.shapes,
    {
        &self.shapes
    }

    /// Replaces the shape at `idx`, if there is one, without remembering the change.
    pub fn set_shape(&mut self, idx: usize, shape: Shape)
        ensures
            final(self)@ == old(self)@.with_shape(idx as int, shape@),
            old(self)@.well_formed() ==> final(self)@.well_formed(),
    {
        let ghost before = self@;
        if idx < self.shapes.len() {
            let ghost shapes = self.shapes@;
            self.shapes.set(idx, shape);
            assert(shape_views(self.shapes@) =~= shape_views(shapes).update(idx as int, shape@));
            assert(self@ =~= before.with_shape(idx as int, shape@));
        }
    }
}

/// Shapes added one after the other.
pub open spec fn pushed_all(s: SceneView, shapes: Seq<ShapeView>) -> SceneView
    decreases shapes.len(),
{
    if shapes.len() == 0 {
        s
    } else {
        pushed_all(s, shapes.drop_last()).pushed(shapes.last())
    }
}

/// `n` changes undone.
pub open spec fn undone_times(s: SceneView, n: nat) -> SceneView
    decreases n,
{
    if n == 0 {
        s
    } else {
        undone_times(s.undone(), (n - 1) as nat)
    }
}

/// Adding a shape and undoing gives the shapes back that were there.
pub proof fn law_undo_reverts_push(s: SceneView, shape: ShapeView)
    ensures
        s.pushed(shape).undone().shapes == s.shapes,
{
}

/// Redoing what was just undone restores the scene and its history.
pub proof fn law_redo_reverts_undo(s: SceneView)
    requires
        s.undo.len() > 0,
    ensures
        s.undone().redone() == s,
{
    assert(s.undone().redone() =~= s);
}

/// Undoing what was just redone restores the scene and its history.
pub proof fn law_undo_reverts_redo(s: SceneView)
    requires
        s.redo.len() > 0,
    ensures
        s.redone().undone() == s,
{
    assert(s.redone().undone() =~= s);
}

/// A new change leaves nothing to redo.
pub proof fn law_change_forgets_undone(s: SceneView, shape: ShapeView)
    ensures
        s.begun().redo.len() == 0,
        s.pushed(shape).redo.len() == 0,
        s.pushed(shape).redone() == s.pushed(shape),
{
}

/// Every operation keeps the history within its limit.
pub proof fn law_history_is_bounded(s: SceneView, shape: ShapeView, idx: int)
    requires
        s.well_formed(),
    ensures
        SceneView::blank().well_formed(),
        s.begun().well_formed(),
        s.pushed(shape).well_formed(),
        s.undone().well_formed(),
        s.redone().well_formed(),
        s.with_shape(idx, shape).well_formed(),
{
}

/// Undoing `n` changes shows the state that was remembered `n` changes ago.
proof fn lemma_undone_times(s: SceneView, n: nat)
    requires
        n <= s.undo.len(),
    ensures
        undone_times(s, n).shapes == if n == 0 {
            s.shapes
        } else {
            s.undo[s.undo.len() - n]
        },
    decreases n,
{
    if n > 0 {
        lemma_undone_times(s.undone(), (n - 1) as nat);
    }
}

/// Each of the last additions is remembered.
proof fn lemma_pushed_all(s: SceneView, shapes: Seq<ShapeView>)
    requires
        shapes.len() <= MAX_HISTORY,
    ensures
        pushed_all(s, shapes).shapes == s.shapes + shapes,
        shapes.len() <= pushed_all(s, shapes).undo.len(),
        forall|j: int|
            1 <= j <= shapes.len() ==> #[trigger] pushed_all(s, shapes).undo[pushed_all(
                s,
                shapes,
            ).undo.len() - j] == s.shapes + shapes.take(shapes.len() - j),
    decreases shapes.len(),
{
    if shapes.len() == 0 {
        assert(s.shapes + shapes =~= s.shapes);
    } else {
        let init = shapes.drop_last();
        lemma_pushed_all(s, init);
        let before = pushed_all(s, init);
        let after = pushed_all(s, shapes);
        assert(after.shapes =~= s.shapes + shapes);
        assert forall|j: int| 1 <= j <= shapes.len() implies #[trigger] after.undo[after.undo.len()
            - j] == s.shapes + shapes.take(shapes.len() - j) by {
            if j == 1 {
                assert(shapes.take(shapes.len() - 1) =~= init);
            } else {
                assert(before.undo[before.undo.len() - (j - 1)] == s.shapes + init.take(
                    init.len() - (j - 1),
                ));
                assert(init.take(init.len() - (j - 1)) =~= shapes.take(shapes.len() - j));
            }
        }
    }
}

/// Of as many additions as the history holds, undoing `n` times takes the last `n` back.
pub proof fn law_undo_takes_last_additions_back(s: SceneView, shapes: Seq<ShapeView>, n: nat)
    requires
        n <= shapes.len() <= MAX_HISTORY,
    ensures
        undone_times(pushed_all(s, shapes), n).shapes == s.shapes + shapes.take(shapes.len() - n),
{
    lemma_pushed_all(s, shapes);
    lemma_undone_times(pushed_all(s, shapes), n);
    if n == 0 {
        assert(shapes.take(shapes.len() as int) =~= shapes);
    }
}

/// The points by which a shape is placed.
pub open spec fn anchors(shape: ShapeView) -> Seq<Pos> {
    match shape {
        ShapeView::Rect { rect, .. } => seq![rect.min, rect.max],
        ShapeView::Arrow { from, to, .. } => seq![from, to],
        ShapeView::Line { from, to, .. } => seq![from, to],
        ShapeView::Pen { points, .. } => points,
        ShapeView::Text { pos, .. } => seq![pos],
        ShapeView::Blur { .. } => Seq::empty(),
    }
}

/// The shape placed by other points. A pixelated area stays where it is.
pub open spec fn placed_by(shape: ShapeView, to: Seq<Pos>) -> ShapeView {
    match shape {
        ShapeView::Rect { color, width, .. } => ShapeView::Rect {
            rect: Rect { min: to[0], max: to[1] },
            color,
            width,
        },
        ShapeView::Arrow { color, width, .. } => ShapeView::Arrow {
            from: to[0],
            to: to[1],
            color,
            width,
        },
        ShapeView::Line { color, width, .. } => ShapeView::Line {
            from: to[0],
            to: to[1],
            color,
            width,
        },
        ShapeView::Pen { color, width, .. } => ShapeView::Pen { points: to, color, width },
        ShapeView::Text { text, color, size, .. } => ShapeView::Text {
            pos: to[0],
            text,
            color,
            size,
        },
        ShapeView::Blur { cell, cells } => ShapeView::Blur { cell, cells },
    }
}

/// The points by which a shape is placed, each of which a translation moves.
pub fn anchor_points(shape: &Shape) -> (r: Vec<Pos>)
    ensures
        r@ == anchors(shape@),
{
    match shape {
        Shape::Rect { rect, .. } => vec![rect.min, rect.max],
        Shape::Arrow { from, to, .. } => vec![*from, *to],
        Shape::Line { from, to, .. } => vec![*from, *to],
        Shape::Pen { points, .. } => copy_points(points),
        Shape::Text { pos, .. } => vec![*pos],
        Shape::Blur { .. } => Vec::new(),
    }
}

/// The shape translated so that its anchor points are where `moved` says.
pub fn translated(shape: &Shape, moved: &Vec<Pos>) -> (r: Shape)
    requires
        moved@.len() == anchors(shape@).len(),
    ensures
        r@ == placed_by(shape@, moved@),
{
    match shape {
        Shape::Rect { color, width, .. } => Shape::Rect {
            rect: Rect { min: moved[0], max: moved[1] },
            color: *color,
            width: *width,
        },
        Shape::Arrow { color, width, .. } => Shape::Arrow {
            from: moved[0],
            to: moved[1],
            color: *color,
            width: *width,
        },
        Shape::Line { color, width, .. } => Shape::Line {
            from: moved[0],
            to: moved[1],
            color: *color,
            width: *width,
        },
        Shape::Pen { color, width, .. } => Shape::Pen {
            points: copy_points(moved),
            color: *color,
            width: *width,
        },
        Shape::Text { text, color, size, .. } => Shape::Text {
            pos: moved[0],
            text: text.clone(),
            color: *color,
            size: *size,
        },
        Shape::Blur { .. } => shape.duplicate(),
    }
}

/// A translated shape stands at the points it was translated to.
pub proof fn law_translated_to_anchors(shape: ShapeView, to: Seq<Pos>)
    requires
        to.len() == anchors(shape).len(),
    ensures
        anchors(placed_by(shape, to)) == to,
{
    assert(anchors(placed_by(shape, to)) =~= to);
}

/// A shape translated to where it stands is the same shape.
pub proof fn law_translated_in_place(shape: ShapeView)
    ensures
        placed_by(shape, anchors(shape)) == shape,
{
}

/// Of two translations the last one decides.
pub proof fn law_translated_twice(shape: ShapeView, a: Seq<Pos>, b: Seq<Pos>)
    requires
        a.len() == anchors(shape).len(),
        b.len() == anchors(shape).len(),
    ensures
        placed_by(placed_by(shape, a), b) == placed_by(shape, b),
{
}

/// The segments that a stroke consists of, in the order in which it was drawn.
pub open spec fn strokes(shape: ShapeView) -> Seq<(Pos, Pos)> {
    match shape {
        ShapeView::Arrow { from, to, .. } => seq![(from, to)],
        ShapeView::Line { from, to, .. } => seq![(from, to)],
        ShapeView::Pen { points, .. } => if points.len() == 0 {
            Seq::empty()
        } else {
            Seq::new((points.len() - 1) as nat, |i: int| (points[i], points[i + 1]))
        },
        _ => Seq::empty(),
    }
}

/// The segments of a line, an arrow or a pen stroke; no other shape has any.
pub fn segments(shape: &Shape) -> (r: Vec<(Pos, Pos)>)
    ensures
        r@ == strokes(shape@),
{
    let mut r: Vec<(Pos, Pos)> = Vec::new();
    match shape {
        Shape::Arrow { from, to, .. } => {
            r.push((*from, *to));
        },
        Shape::Line { from, to, .. } => {
            r.push((*from, *to));
        },
        Shape::Pen { points, .. } => {
            let n: usize = points.len();
            let mut i: usize = 1;
            while i < n
                invariant
                    1 <= i,
                    n == points@.len(),
                    n > 0 ==> i <= n,
                    n == 0 ==> i == 1,
                    r@ == Seq::new((i - 1) as nat, |j: int| (points@[j], points@[j + 1])),
                decreases n - i,
            {
                r.push((points[i - 1], points[i]));
                i = i + 1;
            }
        },
        _ => {},
    }
    assert(r@ =~= strokes(shape@));
    r
}

/// What was measured of a shape and the pointer.
pub struct Probe {
    /// The pointer lies in a rectangle widened by the tolerance.
    pub outer: bool,
    /// The pointer lies in a rectangle narrowed by the tolerance.
    pub inner: bool,
    /// For each segment, whether the pointer is within the tolerance of it.
    pub near: Vec<bool>,
    /// The pointer lies in the box around a text.
    pub in_text: bool,
}

impl Probe {
    /// There is one flag for each segment of the shape.
    pub open spec fn measures(self, shape: ShapeView) -> bool {
        self.near@.len() == strokes(shape).len()
    }
}

/// Each of the shapes was measured.
pub open spec fn all_measured(shapes: Seq<ShapeView>, probes: Seq<Probe>) -> bool {
    &&& probes.len() == shapes.len()
    &&& forall|i: int| 0 <= i < shapes.len() ==> (#[trigger] probes[i]).measures(shapes[i])
}

/// The pointer touches the shape: a rectangle near its border, a stroke near one of its
/// segments, a text anywhere in its box. A pixelated area is never touched.
pub open spec fn touched(shape: ShapeView, probe: Probe) -> bool {
    match shape {
        ShapeView::Rect { .. } => probe.outer && !probe.inner,
        ShapeView::Arrow { .. } => probe.near@.contains(true),
        ShapeView::Line { .. } => probe.near@.contains(true),
        ShapeView::Pen { .. } => probe.near@.contains(true),
        ShapeView::Text { .. } => probe.in_text,
        ShapeView::Blur { .. } => false,
    }
}

/// Whether one of the flags is set.
fn any_set(flags: &Vec<bool>) -> (r: bool)
    ensures
        r == flags@.contains(true),
{
    let n: usize = flags.len();
    let mut i: usize = 0;
    while i < n
        invariant
            i <= n,
            n == flags@.len(),
            forall|j: int| 0 <= j < i ==> !#[trigger] flags@[j],
        decreases n - i,
    {
        if flags[i] {
            assert(flags@[i as int]);
            return true;
        }
        i = i + 1;
    }
    false
}

/// The topmost shape that the pointer touches, from what was measured of each shape.
pub open spec fn topmost(shapes: Seq<ShapeView>, probes: Seq<Probe>) -> Option<usize>
    decreases shapes.len(),
{
    if shapes.len() == 0 {
        None
    } else if touched(shapes.last(), probes[shapes.len() - 1]) {
        Some((shapes.len() - 1) as usize)
    } else {
        topmost(shapes.drop_last(), probes)
    }
}

/// The topmost shape that the pointer touches, from what was measured of each shape.
pub fn shape_hit(shapes: &Vec<Shape>, probes: &Vec<Probe>) -> (r: Option<usize>)
    requires
        all_measured(shape_views(shapes@), probes@),
    ensures
        r == topmost(shape_views(shapes@), probes@),
{
    let ghost views = shape_views(shapes@);
    let mut i: usize = shapes.len();
    assert(views.take(i as int) =~= views);
    while i > 0
        invariant
            i <= shapes@.len(),
            probes@.len() == shapes@.len(),
            views == shape_views(shapes@),
            topmost(views, probes@) == topmost(views.take(i as int), probes@),
        decreases i,
    {
        i = i - 1;
        let probe = &probes[i];
        let hit = match &shapes[i] {
            Shape::Rect { .. } => probe.outer && !probe.inner,
            Shape::Arrow { .. } => any_set(&probe.near),
            Shape::Line { .. } => any_set(&probe.near),
            Shape::Pen { .. } => any_set(&probe.near),
            Shape::Text { .. } => probe.in_text,
            Shape::Blur { .. } => false,
        };
        assert(hit == touched(views[i as int], probes@[i as int]));
        assert(views.take(i + 1).drop_last() =~= views.take(i as int));
        if hit {
            return Some(i);
        }
    }
    None
}

/// The shape that is hit is touched and no shape above it is; none is hit only where none is
/// touched.
pub proof fn law_hit_is_topmost(shapes: Seq<ShapeView>, probes: Seq<Probe>)
    requires
        probes.len() == shapes.len() <= usize::MAX,
    ensures
        match topmost(shapes, probes) {
            Some(i) => {
                &&& i < shapes.len()
                &&& touched(shapes[i as int], probes[i as int])
                &&& forall|j: int| i < j < shapes.len() ==> !touched(#[trigger] shapes[j], probes[j])
            },
            None => forall|j: int|
                0 <= j < shapes.len() ==> !touched(#[trigger] shapes[j], probes[j]),
        },
{
    lemma_topmost(shapes, probes);
}

proof fn lemma_topmost(shapes: Seq<ShapeView>, probes: Seq<Probe>)
    requires
        shapes.len() <= probes.len(),
        shapes.len() <= usize::MAX,
    ensures
        match topmost(shapes, probes) {
            Some(i) => {
                &&& i < shapes.len()
                &&& touched(shapes[i as int], probes[i as int])
                &&& forall|j: int| i < j < shapes.len() ==> !touched(#[trigger] shapes[j], probes[j])
            },
            None => forall|j: int|
                0 <= j < shapes.len() ==> !touched(#[trigger] shapes[j], probes[j]),
        },
    decreases shapes.len(),
{
    if shapes.len() > 0 && !touched(shapes.last(), probes[shapes.len() - 1]) {
        let below = shapes.drop_last();
        lemma_topmost(below, probes);
        assert forall|j: int|
            0 <= j < shapes.len() && (match topmost(below, probes) {
                Some(i) => i < j,
                None => true,
            }) implies !touched(#[trigger] shapes[j], probes[j]) by {
            if j < below.len() {
                assert(below[j] == shapes[j]);
            }
        }
    }
}

/// A pixelated area is never touched, nor is a pen stroke of fewer than two points.
pub proof fn law_some_shapes_are_never_touched(shape: ShapeView, probe: Probe)
    requires
        probe.measures(shape),
        match shape {
            ShapeView::Blur { .. } => true,
            ShapeView::Pen { points, .. } => points.len() < 2,
            _ => false,
        },
    ensures
        !touched(shape, probe),
{
}

/// A shape is hit among others exactly when it is hit alone and none above it is hit alone; none
/// is hit exactly when no shape is hit alone.
pub proof fn law_hit_among_others(shapes: Seq<ShapeView>, probes: Seq<Probe>, i: usize)
    requires
        all_measured(shapes, probes),
        shapes.len() <= usize::MAX,
    ensures
        topmost(shapes, probes) == Some(i) <==> {
            &&& i < shapes.len()
            &&& topmost(seq![shapes[i as int]], seq![probes[i as int]]) == Some(0usize)
            &&& forall|j: int|
                i < j < shapes.len() ==> topmost(
                    seq![#[trigger] shapes[j]],
                    seq![probes[j]],
                ) is None
        },
        topmost(shapes, probes) is None <==> forall|j: int|
            0 <= j < shapes.len() ==> topmost(seq![#[trigger] shapes[j]], seq![probes[j]]) is None,
{
    law_hit_is_topmost(shapes, probes);
    assert forall|j: int| 0 <= j < shapes.len() implies topmost(
        seq![#[trigger] shapes[j]],
        seq![probes[j]],
    ) == if touched(shapes[j], probes[j]) {
        Some(0usize)
    } else {
        None::<usize>
    } by {
        let (s, p) = (seq![shapes[j]], seq![probes[j]]);
        assert(s.last() == shapes[j]);
        assert(p[0] == probes[j]);
        assert(topmost(s.drop_last(), p) is None);
    }
}

/// A shape translated by a displacement, which moves each of its anchor points.
pub open spec fn translated_by(shape: ShapeView, d: spec_fn(Pos) -> Pos) -> ShapeView {
    placed_by(shape, Seq::new(anchors(shape).len(), |i: int| d(anchors(shape)[i])))
}

/// Translating a shape by nothing leaves it as it is.
pub proof fn law_translated_by_nothing(shape: ShapeView, d: spec_fn(Pos) -> Pos)
    requires
        forall|i: int| 0 <= i < anchors(shape).len() ==> d(#[trigger] anchors(shape)[i]) == anchors(
            shape,
        )[i],
    ensures
        translated_by(shape, d) == shape,
{
    let points = anchors(shape);
    assert(Seq::new(points.len(), |i: int| d(points[i])) =~= points);
    law_translated_in_place(shape);
}

/// Two translations one after the other are the translation by both displacements together:
/// `both` moves each anchor point to where moving it by `d` and then by `e` does.
pub proof fn law_translations_add_up(
    shape: ShapeView,
    d: spec_fn(Pos) -> Pos,
    e: spec_fn(Pos) -> Pos,
    both: spec_fn(Pos) -> Pos,
)
    requires
        forall|i: int|
            0 <= i < anchors(shape).len() ==> both(#[trigger] anchors(shape)[i]) == e(
                d(anchors(shape)[i]),
            ),
    ensures
        translated_by(translated_by(shape, d), e) == translated_by(shape, both),
{
    let points = anchors(shape);
    let once = Seq::new(points.len(), |i: int| d(points[i]));
    let twice = Seq::new(points.len(), |i: int| both(points[i]));
    law_translated_to_anchors(shape, once);
    assert(Seq::new(once.len(), |i: int| e(once[i])) =~= twice);
    law_translated_twice(shape, once, twice);
}

/// A shape translated there and back is the same shape: `e` moves each anchor point back that `d`
/// moved.
pub proof fn law_translated_there_and_back(
    shape: ShapeView,
    d: spec_fn(Pos) -> Pos,
    e: spec_fn(Pos) -> Pos,
)
    requires
        forall|i: int|
            0 <= i < anchors(shape).len() ==> e(d(#[trigger] anchors(shape)[i])) == anchors(
                shape,
            )[i],
    ensures
        translated_by(translated_by(shape, d), e) == shape,
{
    let stay = |p: Pos| p;
    law_translations_add_up(shape, d, e, stay);
    law_translated_by_nothing(shape, stay);
}

/// How many characters wide the box around a text is, at least one.
pub fn text_columns(text: &str) -> (r: usize)
    ensures
        r == if text@.len() == 0 {
            1
        } else {
            text@.len() as int
        },
{
    let n: usize = text.unicode_len();
    if n == 0 {
        1
    } else {
        n
    }
}

/// Replacing a shape changes that shape and no other, and is no step of the history; where there
/// is no such shape nothing changes.
pub proof fn law_replacing_changes_one_shape(s: SceneView, i: int, shape: ShapeView)
    ensures
        0 <= i < s.shapes.len() ==> s.with_shape(i, shape).shapes[i] == shape,
        s.with_shape(i, shape).shapes.len() == s.shapes.len(),
        forall|j: int|
            0 <= j < s.shapes.len() && j != i ==> #[trigger] s.with_shape(i, shape).shapes[j]
                == s.shapes[j],
        s.with_shape(i, shape).undo == s.undo,
        s.with_shape(i, shape).redo == s.redo,
{
}

/// Of two replacements of the same shape the last one decides, and replacements of different
/// shapes do not disturb each other.
pub proof fn law_replacements_are_independent(
    s: SceneView,
    i: int,
    j: int,
    a: ShapeView,
    b: ShapeView,
)
    ensures
        i == j ==> s.with_shape(i, a).with_shape(j, b) == s.with_shape(j, b),
        i != j ==> s.with_shape(i, a).with_shape(j, b) == s.with_shape(j, b).with_shape(i, a),
        0 <= i < s.shapes.len() ==> s.with_shape(i, s.shapes[i]) == s,
{
    if i == j {
        assert(s.with_shape(i, a).with_shape(j, b) =~= s.with_shape(j, b));
    } else {
        assert(s.with_shape(i, a).with_shape(j, b) =~= s.with_shape(j, b).with_shape(i, a));
    }
    if 0 <= i < s.shapes.len() {
        assert(s.with_shape(i, s.shapes[i]) =~= s);
    }
}

/// A new shape comes on top of the others, which stay as they are and where they are.
pub proof fn law_new_shape_comes_on_top(s: SceneView, shape: ShapeView)
    ensures
        s.pushed(shape).shapes.len() == s.shapes.len() + 1,
        s.pushed(shape).shapes[s.shapes.len() as int] == shape,
        forall|j: int|
            0 <= j < s.shapes.len() ==> #[trigger] s.pushed(shape).shapes[j] == s.shapes[j],
{
}

/// A change remembers the shapes as they were, after the states remembered before; the shapes
/// themselves stay. Of 200 remembered states the oldest goes.
pub proof fn law_change_remembers_shapes(s: SceneView, shape: ShapeView)
    ensures
        s.begun().shapes == s.shapes,
        s.pushed(shape).undo == s.begun().undo,
        s.pushed(shape).redo == s.begun().redo,
        s.begun().redo.len() == 0,
        s.begun().undo.len() > 0,
        s.begun().undo.last() == s.shapes,
        s.undo.len() < 200 ==> {
            &&& s.begun().undo.len() == s.undo.len() + 1
            &&& forall|j: int| 0 <= j < s.undo.len() ==> #[trigger] s.begun().undo[j] == s.undo[j]
        },
        s.undo.len() >= 200 ==> {
            &&& s.begun().undo.len() == s.undo.len()
            &&& forall|j: int|
                0 <= j < s.undo.len() - 1 ==> #[trigger] s.begun().undo[j] == s.undo[j + 1]
        },
{
}

/// Undoing shows the state remembered last and keeps the present one to go forward to; redoing
/// shows the state undone last and keeps the present one to go back to. Without such a state
/// nothing changes.
pub proof fn law_undo_and_redo_walk_the_history(s: SceneView)
    ensures
        s.undo.len() == 0 ==> s.undone() == s,
        s.undo.len() > 0 ==> {
            let n = s.undo.len() as int;
            let m = s.redo.len() as int;
            &&& s.undone().shapes == s.undo[n - 1]
            &&& s.undone().undo.len() == n - 1
            &&& forall|j: int| 0 <= j < n - 1 ==> #[trigger] s.undone().undo[j] == s.undo[j]
            &&& s.undone().redo.len() == m + 1
            &&& s.undone().redo[m] == s.shapes
            &&& forall|j: int| 0 <= j < m ==> #[trigger] s.undone().redo[j] == s.redo[j]
        },
        s.redo.len() == 0 ==> s.redone() == s,
        s.redo.len() > 0 ==> {
            let n = s.undo.len() as int;
            let m = s.redo.len() as int;
            &&& s.redone().shapes == s.redo[m - 1]
            &&& s.redone().redo.len() == m - 1
            &&& forall|j: int| 0 <= j < m - 1 ==> #[trigger] s.redone().redo[j] == s.redo[j]
            &&& s.redone().undo.len() == n + 1
            &&& s.redone().undo[n] == s.shapes
            &&& forall|j: int| 0 <= j < n ==> #[trigger] s.redone().undo[j] == s.undo[j]
        },
{
}

/// A new scene has no shape and no history.
pub proof fn law_blank_scene_is_empty()
    ensures
        SceneView::blank().shapes.len() == 0,
        SceneView::blank().undo.len() == 0,
        SceneView::blank().redo.len() == 0,
{
}

/// A shape is placed by its corners, its ends, its points or its position, in this order.
pub proof fn law_anchors_are_the_points_of_a_shape(shape: ShapeView)
    ensures
        match shape {
            ShapeView::Rect { rect, .. } => {
                &&& anchors(shape).len() == 2
                &&& anchors(shape)[0] == rect.min
                &&& anchors(shape)[1] == rect.max
            },
            ShapeView::Arrow { from, to, .. } | ShapeView::Line { from, to, .. } => {
                &&& anchors(shape).len() == 2
                &&& anchors(shape)[0] == from
                &&& anchors(shape)[1] == to
            },
            ShapeView::Pen { points, .. } => anchors(shape) == points,
            ShapeView::Text { pos, .. } => anchors(shape).len() == 1 && anchors(shape)[0] == pos,
            ShapeView::Blur { .. } => anchors(shape).len() == 0,
        },
{
}

/// A translation moves the points of a shape, each to its own place, and keeps what it looks
/// like: its kind, its color, its width, its text and its size. A pixelated area stays as it is.
pub proof fn law_translation_keeps_the_looks(shape: ShapeView, to: Seq<Pos>)
    requires
        to.len() == anchors(shape).len(),
    ensures
        match (shape, placed_by(shape, to)) {
            (
                ShapeView::Rect { color, width, .. },
                ShapeView::Rect { rect, color: c, width: w },
            ) => rect.min == to[0] && rect.max == to[1] && c == color && w == width,
            (
                ShapeView::Arrow { color, width, .. },
                ShapeView::Arrow { from, to: end, color: c, width: w },
            ) => from == to[0] && end == to[1] && c == color && w == width,
            (
                ShapeView::Line { color, width, .. },
                ShapeView::Line { from, to: end, color: c, width: w },
            ) => from == to[0] && end == to[1] && c == color && w == width,
            (
                ShapeView::Pen { color, width, .. },
                ShapeView::Pen { points, color: c, width: w },
            ) => points == to && c == color && w == width,
            (
                ShapeView::Text { text, color, size, .. },
                ShapeView::Text { pos, text: t, color: c, size: s },
            ) => pos == to[0] && t == text && c == color && s == size,
            (ShapeView::Blur { .. }, moved) => moved == shape,
            _ => false,
        },
{
}

/// An arrow and a line are one segment between their ends, a pen stroke joins each of its points
/// with the next one, and no other shape has segments.
pub proof fn law_segments_join_the_points(shape: ShapeView)
    ensures
        match shape {
            ShapeView::Arrow { from, to, .. } | ShapeView::Line { from, to, .. } => {
                &&& strokes(shape).len() == 1
                &&& strokes(shape)[0].0 == from
                &&& strokes(shape)[0].1 == to
            },
            ShapeView::Pen { points, .. } => {
                &&& points.len() >= 2 ==> strokes(shape).len() == points.len() - 1
                &&& points.len() < 2 ==> strokes(shape).len() == 0
                &&& forall|i: int|
                    0 <= i < points.len() - 1 ==> (#[trigger] strokes(shape)[i]).0 == points[i]
                        && strokes(shape)[i].1 == points[i + 1]
            },
            _ => strokes(shape).len() == 0,
        },
{
}

/// The pointer touches a rectangle between the widened and the narrowed one, a stroke near any
/// of its segments, and a text in its box; nothing else that was measured matters.
pub proof fn law_what_touches_a_shape(shape: ShapeView, probe: Probe)
    ensures
        match shape {
            ShapeView::Rect { .. } => touched(shape, probe) <==> probe.outer && !probe.inner,
            ShapeView::Text { .. } => touched(shape, probe) <==> probe.in_text,
            ShapeView::Blur { .. } => !touched(shape, probe),
            _ => touched(shape, probe) <==> exists|i: int|
                0 <= i < probe.near@.len() && #[trigger] probe.near@[i],
        },
{
    let near = probe.near@;
    if near.contains(true) {
        let i = choose|i: int| 0 <= i < near.len() && near[i] == true;
        assert(near[i]);
    }
    if exists|i: int| 0 <= i < near.len() && #[trigger] near[i] {
        let i = choose|i: int| 0 <= i < near.len() && #[trigger] near[i];
        assert(near[i] == true);
    }
}

} // verus!
