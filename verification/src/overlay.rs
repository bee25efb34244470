//! The overlay: what the user selects and draws on the frozen screen, step by step.
//!
//! A redraw of a window is a pass. It starts from a copy of the overlay's state, takes over
//! what the pointer and the buttons did, and is put back at its end.

use vstd::prelude::*;

use crate::capture::{Frame, FrameView};
use crate::color::{from_rgb, marker_color, marker_tint, Color};
use crate::export::{holds_its_pixels, keep_numbers, numbers, placed_size};
use crate::geometry::{Coord, Pos, Rect, Size};
use crate::pixelate::{add_brush_cells, brushed, Brush, BLUR_BRUSH, BLUR_CELL, BLUR_SIDE};
use crate::scene::{
    all_measured, anchors, law_hit_is_topmost, law_redo_reverts_undo, placed_by, pushed_all, shape_hit,
    shape_views, topmost, translated, Probe, Scene, SceneView, Shape, ShapeView, Tool,
};
use crate::text::{
    padded, parts_at_first, push_padded, split, split_once, split_parts, texts, trim, trimmed,
};

verus! {

/// What the user asked for with a button.
#[derive(Clone, Copy, Debug, PartialEq, Eq, Structural)]
pub enum Action {
    Copy,
    Save,
    Close,
}

/// What dragging does to the selection.
#[derive(Clone, Copy, Debug, PartialEq, Eq, Structural)]
pub enum SelMode {
    New,
    Move,
    /// Moves one of the eight handles, counted clockwise from the upper left corner.
    Resize(usize),
}

/// The smallest width and height of a selection: the bit pattern of five.
pub const MIN_SELECTION: u32 = 0x40a0_0000;

/// The size of new texts: the bit pattern of 24.
pub const TEXT_SIZE: u32 = 0x41c0_0000;

/// The width of new strokes: the bit pattern of three.
pub const STROKE_WIDTH: u32 = 0x4040_0000;

/// The width of the marker's strokes: the bit pattern of 16.
pub const MARKER_WIDTH: u32 = 0x4180_0000;

/// The smallest radius of the ring around the pen: the bit pattern of five.
pub const MIN_RING: u32 = 0x40a0_0000;

/// The radius of the ring around the marker: the bit pattern of eight.
pub const MARKER_RING: u32 = 0x4100_0000;

/// How wide and high the part of a selection is at least that counts as visible: the bit
/// pattern of a half.
pub const VISIBLE_SIZE: u32 = 0x3f00_0000;

/// A text that is being typed.
pub struct TextDraft {
    pub pos: Pos,
    pub buf: String,
    pub color: Color,
    pub size: Coord,
}

/// The contents of a `TextDraft`.
#[verifier::ext_equal]
pub struct TextDraftView {
    pub pos: Pos,
    pub buf: Seq<char>,
    pub color: Color,
    pub size: Coord,
}

impl View for TextDraft {
    type V = TextDraftView;

    open spec fn view(&self) -> TextDraftView {
        TextDraftView { pos: self.pos, buf: self.buf@, color: self.color, size: self.size }
    }
}

/// The index of the first flag that is set among the first `n`.
pub open spec fn first_set(flags: Seq<bool>, n: int) -> Option<usize>
    decreases n,
{
    if n <= 0 {
        None
    } else {
        match first_set(flags, n - 1) {
            Some(i) => Some(i),
            None => if flags[n - 1] {
                Some((n - 1) as usize)
            } else {
                None
            },
        }
    }
}

/// The first handle of the selection that is near the pointer.
pub fn hit_handle(near: &Vec<bool>) -> (r: Option<usize>)
    ensures
        r == first_set(near@, near@.len() as int),
{
    let n: usize = near.len();
    let mut r: Option<usize> = None;
    let mut i: usize = 0;
    while i < n
        invariant
            i <= n,
            n == near@.len(),
            r == first_set(near@, i as int),
        decreases n - i,
    {
        if r.is_none() && near[i] {
            r = Some(i);
        }
        i = i + 1;
    }
    r
}

/// The handle that is hit is near the pointer, and none before it is; none is hit only where
/// none is near.
pub proof fn law_first_handle_is_hit(near: Seq<bool>)
    requires
        near.len() <= usize::MAX,
    ensures
        match first_set(near, near.len() as int) {
            Some(h) => h < near.len() && near[h as int] && forall|i: int|
                0 <= i < h ==> !#[trigger] near[i],
            None => forall|i: int| 0 <= i < near.len() ==> !#[trigger] near[i],
        },
{
    lemma_first_set(near, near.len() as int);
}

proof fn lemma_first_set(flags: Seq<bool>, n: int)
    requires
        0 <= n <= flags.len() <= usize::MAX,
    ensures
        match first_set(flags, n) {
            Some(h) => h < n && flags[h as int] && forall|i: int|
                0 <= i < h ==> !#[trigger] flags[i],
            None => forall|i: int| 0 <= i < n ==> !#[trigger] flags[i],
        },
    decreases n,
{
    if n > 0 {
        lemma_first_set(flags, n - 1);
    }
}

/// The mouse cursors that the overlay uses.
#[derive(Clone, Copy, Debug, PartialEq, Eq, Structural)]
pub enum Cursor {
    Default,
    Crosshair,
    Grabbing,
    Move,
    Text,
    ResizeNwSe,
    ResizeNeSw,
    ResizeVertical,
    ResizeHorizontal,
    Hidden,
}

/// The cursor over a handle: it points the way that the handle moves.
pub open spec fn cursor_over(handle: usize) -> Cursor {
    if handle == 0 || handle == 4 {
        Cursor::ResizeNwSe
    } else if handle == 2 || handle == 6 {
        Cursor::ResizeNeSw
    } else if handle == 1 || handle == 5 {
        Cursor::ResizeVertical
    } else if handle == 3 || handle == 7 {
        Cursor::ResizeHorizontal
    } else {
        Cursor::Default
    }
}

/// The cursor over a handle.
pub fn handle_cursor(h: usize) -> (r: Cursor)
    ensures
        r == cursor_over(h),
{
    match h {
        0 => Cursor::ResizeNwSe,
        4 => Cursor::ResizeNwSe,
        2 => Cursor::ResizeNeSw,
        6 => Cursor::ResizeNeSw,
        1 => Cursor::ResizeVertical,
        5 => Cursor::ResizeVertical,
        3 => Cursor::ResizeHorizontal,
        7 => Cursor::ResizeHorizontal,
        _ => Cursor::Default,
    }
}

/// The handle lies on the left side.
pub open spec fn on_left(handle: usize) -> bool {
    handle == 0 || handle == 6 || handle == 7
}

/// The handle lies on the right side.
pub open spec fn on_right(handle: usize) -> bool {
    2 <= handle <= 4
}

/// The handle lies on the upper side.
pub open spec fn on_top(handle: usize) -> bool {
    handle <= 2
}

/// The handle lies on the lower side.
pub open spec fn on_bottom(handle: usize) -> bool {
    4 <= handle <= 6
}

/// The rectangle with the sides of a handle moved to a point, turned over where they pass the
/// opposite sides.
pub open spec fn resized(base: Rect, handle: usize, fp: Pos) -> Rect {
    let left = if on_left(handle) {
        fp.x
    } else {
        base.min.x
    };
    let right = if on_right(handle) {
        fp.x
    } else {
        base.max.x
    };
    let top = if on_top(handle) {
        fp.y
    } else {
        base.min.y
    };
    let bottom = if on_bottom(handle) {
        fp.y
    } else {
        base.max.y
    };
    Rect::spanned(Pos { x: left, y: top }, Pos { x: right, y: bottom })
}

/// The rectangle with the sides of a handle moved to `fp`.
pub fn resize_rect(base: Rect, handle: usize, fp: Pos) -> (r: Rect)
    ensures
        r == resized(base, handle, fp),
{
    let mut l = base.min.x;
    let mut r = base.max.x;
    let mut t = base.min.y;
    let mut b = base.max.y;
    match handle {
        0 => {
            l = fp.x;
            t = fp.y;
        },
        1 => {
            t = fp.y;
        },
        2 => {
            r = fp.x;
            t = fp.y;
        },
        3 => {
            r = fp.x;
        },
        4 => {
            r = fp.x;
            b = fp.y;
        },
        5 => {
            b = fp.y;
        },
        6 => {
            l = fp.x;
            b = fp.y;
        },
        7 => {
            l = fp.x;
        },
        _ => {},
    }
    Rect::from_two_pos(Pos { x: l, y: t }, Pos { x: r, y: b })
}

/// The rectangle's corners are numbers, and in order.
pub open spec fn in_order(r: Rect) -> bool {
    r.min.x.at_most(r.max.x) && r.min.y.at_most(r.max.y)
}

/// Dragging a handle to where it stands leaves the rectangle as it is. Left out is a rectangle
/// with the two zeroes, the positive and the negative one, on opposite sides.
pub proof fn law_resize_in_place(base: Rect, handle: usize, fp: Pos)
    requires
        in_order(base),
        base.min.x.below(base.max.x) || base.min.x == base.max.x,
        base.min.y.below(base.max.y) || base.min.y == base.max.y,
        on_left(handle) ==> fp.x == base.min.x,
        on_right(handle) ==> fp.x == base.max.x,
        on_top(handle) ==> fp.y == base.min.y,
        on_bottom(handle) ==> fp.y == base.max.y,
    ensures
        resized(base, handle, fp) == base,
{
}

/// The two coordinates are the same number.
pub open spec fn same_place(a: Coord, b: Coord) -> bool {
    a.at_most(b) && b.at_most(a)
}

/// However a handle is dragged, the corners stay in order, and a side that is not the handle's
/// stays a side of the rectangle.
pub proof fn law_resize_keeps_order(base: Rect, handle: usize, fp: Pos)
    requires
        in_order(base),
        !fp.x.is_nan(),
        !fp.y.is_nan(),
    ensures
        ({
            let r = resized(base, handle, fp);
            &&& in_order(r)
            &&& !on_left(handle) ==> same_place(r.min.x, base.min.x) || same_place(
                r.max.x,
                base.min.x,
            )
            &&& !on_right(handle) ==> same_place(r.min.x, base.max.x) || same_place(
                r.max.x,
                base.max.x,
            )
            &&& !on_top(handle) ==> same_place(r.min.y, base.min.y) || same_place(
                r.max.y,
                base.min.y,
            )
            &&& !on_bottom(handle) ==> same_place(r.min.y, base.max.y) || same_place(
                r.max.y,
                base.max.y,
            )
        }),
{
}

/// The contents of a shape, if there is one.
pub open spec fn shape_view(shape: Option<Shape>) -> Option<ShapeView> {
    match shape {
        Some(s) => Some(s@),
        None => None,
    }
}

/// The contents of a shape with its index, if there is one.
pub open spec fn moving_view(moving: Option<(usize, Shape)>) -> Option<(usize, ShapeView)> {
    match moving {
        Some((i, s)) => Some((i, s@)),
        None => None,
    }
}

/// The contents of a text, if there is one.
pub open spec fn draft_view(draft: Option<TextDraft>) -> Option<TextDraftView> {
    match draft {
        Some(d) => Some(d@),
        None => None,
    }
}

/// The characters of a text, if there is one.
pub open spec fn text_view(text: Option<String>) -> Option<Seq<char>> {
    match text {
        Some(t) => Some(t@),
        None => None,
    }
}

/// A copy of a shape, if there is one.
fn copy_shape(shape: &Option<Shape>) -> (r: Option<Shape>)
    ensures
        shape_view(r) == shape_view(*shape),
{
    match shape {
        Some(s) => Some(s.duplicate()),
        None => None,
    }
}

/// A copy of a shape with its index, if there is one.
fn copy_moving(moving: &Option<(usize, Shape)>) -> (r: Option<(usize, Shape)>)
    ensures
        moving_view(r) == moving_view(*moving),
{
    match moving {
        Some((i, s)) => Some((*i, s.duplicate())),
        None => None,
    }
}

/// The state of the overlay.
pub struct OverlayApp {
    /// What is selected.
    pub selection: Option<Rect>,
    /// Where the drag with the selection tool started.
    pub drag_start: Option<Pos>,
    /// What is drawn.
    pub scene: Scene,
    pub tool: Tool,
    pub color: Color,
    pub stroke_width: Coord,
    /// The shape that is being drawn.
    pub draft: Option<Shape>,
    /// Where the drag with a drawing tool started.
    pub draft_start: Option<Pos>,
    /// What was asked for with a button and is still to be done.
    pub pending: Option<Action>,
    /// What the drag does to the selection.
    pub sel_mode: Option<SelMode>,
    /// The selection when the drag started.
    pub sel_ref: Rect,
    /// The text that is being typed.
    pub text_edit: Option<TextDraft>,
    /// The shape that is being moved: its index, and the shape as it was.
    pub move_shape: Option<(usize, Shape)>,
    /// What of the text is selected: the first character, the one after the last, the caret.
    pub text_sel: Option<(usize, usize, usize)>,
}

/// The contents of an `OverlayApp`.
#[verifier::ext_equal]
pub struct OverlayView {
    pub selection: Option<Rect>,
    pub drag_start: Option<Pos>,
    pub scene: SceneView,
    pub tool: Tool,
    pub color: Color,
    pub stroke_width: Coord,
    pub draft: Option<ShapeView>,
    pub draft_start: Option<Pos>,
    pub pending: Option<Action>,
    pub sel_mode: Option<SelMode>,
    pub sel_ref: Rect,
    pub text_edit: Option<TextDraftView>,
    pub move_shape: Option<(usize, ShapeView)>,
    pub text_sel: Option<(usize, usize, usize)>,
}

impl View for OverlayApp {
    type V = OverlayView;

    open spec fn view(&self) -> OverlayView {
        OverlayView {
            selection: self.selection,
            drag_start: self.drag_start,
            scene: self.scene@,
            tool: self.tool,
            color: self.color,
            stroke_width: self.stroke_width,
            draft: shape_view(self.draft),
            draft_start: self.draft_start,
            pending: self.pending,
            sel_mode: self.sel_mode,
            sel_ref: self.sel_ref,
            text_edit: draft_view(self.text_edit),
            move_shape: moving_view(self.move_shape),
            text_sel: self.text_sel,
        }
    }
}

/// One redraw of a window: the parts of the overlay's state that it may change, and what it
/// decided.
pub struct Pass {
    pub selection: Option<Rect>,
    pub drag_start: Option<Pos>,
    pub tool: Tool,
    pub color: Color,
    pub stroke_width: Coord,
    pub draft: Option<Shape>,
    pub draft_start: Option<Pos>,
    pub sel_mode: Option<SelMode>,
    pub sel_ref: Rect,
    pub moving_shape: Option<(usize, Shape)>,
    /// A finished shape, to be added to the scene.
    pub committed: Option<Shape>,
    /// All shapes are to be removed.
    pub clear_scene: bool,
    /// A button was pressed.
    pub action: Option<Action>,
    /// A shape is to be replaced.
    pub move_apply: Option<(usize, Shape)>,
    /// A new text is to be typed.
    pub start_text: Option<Pos>,
    /// The text that is being typed.
    pub text_buf: Option<String>,
    /// The text has lost the keyboard.
    pub text_lost_focus: bool,
    /// What of the text is selected in the window that it is typed in.
    pub owner_text_sel: Option<(usize, usize, usize)>,
}

/// The contents of a `Pass`.
#[verifier::ext_equal]
pub struct PassView {
    pub selection: Option<Rect>,
    pub drag_start: Option<Pos>,
    pub tool: Tool,
    pub color: Color,
    pub stroke_width: Coord,
    pub draft: Option<ShapeView>,
    pub draft_start: Option<Pos>,
    pub sel_mode: Option<SelMode>,
    pub sel_ref: Rect,
    pub moving_shape: Option<(usize, ShapeView)>,
    pub committed: Option<ShapeView>,
    pub clear_scene: bool,
    pub action: Option<Action>,
    pub move_apply: Option<(usize, ShapeView)>,
    pub start_text: Option<Pos>,
    pub text_buf: Option<Seq<char>>,
    pub text_lost_focus: bool,
    pub owner_text_sel: Option<(usize, usize, usize)>,
}

impl View for Pass {
    type V = PassView;

    open spec fn view(&self) -> PassView {
        PassView {
            selection: self.selection,
            drag_start: self.drag_start,
            tool: self.tool,
            color: self.color,
            stroke_width: self.stroke_width,
            draft: shape_view(self.draft),
            draft_start: self.draft_start,
            sel_mode: self.sel_mode,
            sel_ref: self.sel_ref,
            moving_shape: moving_view(self.moving_shape),
            committed: shape_view(self.committed),
            clear_scene: self.clear_scene,
            action: self.action,
            move_apply: moving_view(self.move_apply),
            start_text: self.start_text,
            text_buf: text_view(self.text_buf),
            text_lost_focus: self.text_lost_focus,
            owner_text_sel: self.owner_text_sel,
        }
    }
}

/// A pointer that goes down: where, in the frame, and what was measured there.
pub struct Press {
    pub at: Pos,
    /// Of each shape.
    pub probes: Vec<Probe>,
    /// For each handle of the selection, whether it is near.
    pub near: Vec<bool>,
    /// Of the pixelating brush.
    pub brush: Brush,
}

/// A pointer that is held down: where, in the frame, and what was measured there.
pub struct Drag {
    pub at: Pos,
    /// The anchor points of the shape that is being moved, moved along with the pointer.
    pub moved: Vec<Pos>,
    /// The selection as it was, moved along with the pointer but kept in the frame.
    pub shifted: Rect,
    /// The size of the rectangle that dragging a handle makes.
    pub size: Size,
    /// Of the pixelating brush.
    pub brush: Brush,
}

/// The brush works on the overlay's grid, and the frame holds the pixels that it covers.
pub open spec fn can_brush(brush: Brush, frame: FrameView) -> bool {
    brush.well_formed() && brush.on_grid(BLUR_SIDE) && holds_its_pixels(frame)
}

/// The cells that the brush reaches, added to others.
pub open spec fn cells_under(
    cells: Seq<(u32, u32, Color)>,
    frame: FrameView,
    brush: Brush,
) -> Seq<(u32, u32, Color)> {
    brushed(
        cells,
        frame.rgba,
        frame.width as int,
        frame.height as int,
        brush,
        brush.rows@.len() as int,
    )
}

impl PassView {
    /// The pointer goes down with the selection tool: on a shape it starts to move the shape;
    /// else on a handle it starts to resize the selection, inside the selection to move it,
    /// and anywhere else to make a new one, for which what is drawn in the old one goes.
    pub open spec fn select_pressed(
        self,
        at: Pos,
        shapes: Seq<ShapeView>,
        probes: Seq<Probe>,
        near: Seq<bool>,
    ) -> PassView {
        let p = PassView { drag_start: Some(at), ..self };
        match topmost(shapes, probes) {
            Some(i) => PassView {
                moving_shape: Some((i, shapes[i as int])),
                sel_mode: None,
                ..p
            },
            None => match self.selection {
                Some(sel) => match first_set(near, near.len() as int) {
                    Some(h) => PassView {
                        sel_mode: Some(SelMode::Resize(h)),
                        sel_ref: sel,
                        ..p
                    },
                    None => if sel.has(at) {
                        PassView { sel_mode: Some(SelMode::Move), sel_ref: sel, ..p }
                    } else {
                        PassView { sel_mode: Some(SelMode::New), clear_scene: true, ..p }
                    },
                },
                None => PassView { sel_mode: Some(SelMode::New), ..p },
            },
        }
    }

    /// The pointer goes down with a drawing tool: the free-hand tools start their stroke.
    pub open spec fn draw_pressed(self, at: Pos, frame: FrameView, brush: Brush) -> PassView {
        let p = PassView { draft_start: Some(at), ..self };
        match self.tool {
            Tool::Pen => PassView {
                draft: Some(
                    ShapeView::Pen {
                        points: seq![at],
                        color: self.color,
                        width: self.stroke_width,
                    },
                ),
                ..p
            },
            Tool::Marker => PassView {
                draft: Some(
                    ShapeView::Pen {
                        points: seq![at],
                        color: marker_tint(self.color),
                        width: Coord { bits: MARKER_WIDTH },
                    },
                ),
                ..p
            },
            Tool::Blur => PassView {
                draft: Some(
                    ShapeView::Blur {
                        cell: Coord { bits: BLUR_CELL },
                        cells: cells_under(Seq::empty(), frame, brush),
                    },
                ),
                ..p
            },
            _ => p,
        }
    }

    /// The pointer goes down.
    pub open spec fn pressed(
        self,
        press: Press,
        shapes: Seq<ShapeView>,
        frame: FrameView,
    ) -> PassView {
        match self.tool {
            Tool::Select => self.select_pressed(press.at, shapes, press.probes@, press.near@),
            Tool::Text => self,
            _ => self.draw_pressed(press.at, frame, press.brush),
        }
    }

    /// The pointer moves while it is down with the selection tool.
    pub open spec fn select_dragged(self, drag: Drag) -> PassView {
        match self.drag_start {
            None => self,
            Some(start) => match self.moving_shape {
                Some((i, orig)) => PassView {
                    move_apply: Some((i, placed_by(orig, drag.moved@))),
                    ..self
                },
                None => match self.sel_mode {
                    Some(SelMode::New) => PassView {
                        selection: Some(Rect::spanned(start, drag.at)),
                        ..self
                    },
                    Some(SelMode::Move) => PassView { selection: Some(drag.shifted), ..self },
                    Some(SelMode::Resize(h)) => if (Coord { bits: MIN_SELECTION }).at_most(
                        drag.size.w,
                    ) && (Coord { bits: MIN_SELECTION }).at_most(drag.size.h) {
                        PassView { selection: Some(resized(self.sel_ref, h, drag.at)), ..self }
                    } else {
                        self
                    },
                    None => self,
                },
            },
        }
    }

    /// The pointer moves while it is down with a drawing tool: the straight shapes follow it
    /// from where it went down, the free-hand strokes grow.
    pub open spec fn draw_dragged(self, at: Pos, frame: FrameView, brush: Brush) -> PassView {
        match (self.tool, self.draft_start, self.draft) {
            (Tool::Rect, Some(from), _) => PassView {
                draft: Some(
                    ShapeView::Rect {
                        rect: Rect::spanned(from, at),
                        color: self.color,
                        width: self.stroke_width,
                    },
                ),
                ..self
            },
            (Tool::Line, Some(from), _) => PassView {
                draft: Some(
                    ShapeView::Line { from, to: at, color: self.color, width: self.stroke_width },
                ),
                ..self
            },
            (Tool::Arrow, Some(from), _) => PassView {
                draft: Some(
                    ShapeView::Arrow { from, to: at, color: self.color, width: self.stroke_width },
                ),
                ..self
            },
            (Tool::Pen, _, Some(ShapeView::Pen { points, color, width })) => PassView {
                draft: Some(ShapeView::Pen { points: points.push(at), color, width }),
                ..self
            },
            (Tool::Marker, _, Some(ShapeView::Pen { points, color, width })) => PassView {
                draft: Some(ShapeView::Pen { points: points.push(at), color, width }),
                ..self
            },
            (Tool::Blur, _, Some(ShapeView::Blur { cell, cells })) => PassView {
                draft: Some(ShapeView::Blur { cell, cells: cells_under(cells, frame, brush) }),
                ..self
            },
            _ => self,
        }
    }

    /// The pointer moves while it is down.
    pub open spec fn dragged(self, drag: Drag, frame: FrameView) -> PassView {
        match self.tool {
            Tool::Select => self.select_dragged(drag),
            Tool::Text => self,
            _ => self.draw_dragged(drag.at, frame, drag.brush),
        }
    }

    /// The pointer goes up: a new selection that is too small is dropped, a drawn shape is
    /// finished. `size` is that of the selection, if there is one.
    pub open spec fn released(self, size: Size) -> PassView {
        match self.tool {
            Tool::Select => PassView {
                selection: if self.sel_mode == Some(SelMode::New) && (size.w.below(
                    Coord { bits: MIN_SELECTION },
                ) || size.h.below(Coord { bits: MIN_SELECTION })) {
                    None
                } else {
                    self.selection
                },
                sel_mode: None,
                moving_shape: None,
                ..self
            },
            Tool::Text => self,
            _ => PassView { committed: self.draft, draft: None, draft_start: None, ..self },
        }
    }

    /// The pointer clicks: with the text tool a new text starts there.
    pub open spec fn clicked(self, at: Pos) -> PassView {
        match self.tool {
            Tool::Text => PassView { start_text: Some(at), ..self },
            _ => self,
        }
    }

    /// The pass can tell what the pointer went down on.
    pub open spec fn can_press(
        self,
        press: Press,
        shapes: Seq<ShapeView>,
        frame: FrameView,
    ) -> bool {
        &&& self.tool == Tool::Select ==> all_measured(shapes, press.probes@)
        &&& self.tool == Tool::Blur ==> can_brush(press.brush, frame)
    }

    /// The pass can tell where the pointer has moved things.
    pub open spec fn can_drag(self, drag: Drag, frame: FrameView) -> bool {
        &&& self.tool == Tool::Select ==> match self.moving_shape {
            Some((_, orig)) => drag.moved@.len() == anchors(orig).len(),
            None => true,
        }
        &&& self.tool == Tool::Blur ==> can_brush(drag.brush, frame)
    }
}

impl Pass {
    /// The pointer goes down with the selection tool.
    fn select_press(
        &mut self,
        at: Pos,
        shapes: &Vec<Shape>,
        probes: &Vec<Probe>,
        near: &Vec<bool>,
    )
        requires
            all_measured(shape_views(shapes@), probes@),
        ensures
            final(self)@ == old(self)@.select_pressed(
                at,
                shape_views(shapes@),
                probes@,
                near@,
            ),
    {
        let ghost before = self@;
        let ghost views = shape_views(shapes@);
        let count: usize = shapes.len();
        proof {
            law_hit_is_topmost(views, probes@);
        }
        self.drag_start = Some(at);
        match shape_hit(shapes, probes) {
            Some(i) => {
                assert(views[i as int] == shapes@[i as int]@);
                self.moving_shape = Some((i, shapes[i].duplicate()));
                self.sel_mode = None;
            },
            None => match self.selection {
                Some(sel) => match hit_handle(near) {
                    Some(h) => {
                        self.sel_mode = Some(SelMode::Resize(h));
                        self.sel_ref = sel;
                    },
                    None => {
                        if sel.contains(at) {
                            self.sel_mode = Some(SelMode::Move);
                            self.sel_ref = sel;
                        } else {
                            self.sel_mode = Some(SelMode::New);
                            self.clear_scene = true;
                        }
                    },
                },
                None => {
                    self.sel_mode = Some(SelMode::New);
                },
            },
        }
        assert(self@ =~= before.select_pressed(at, views, probes@, near@));
    }

    /// The pointer goes down with a drawing tool.
    fn draw_press(&mut self, at: Pos, frame: &Frame, brush: &Brush)
        requires
            old(self).tool == Tool::Blur ==> can_brush(*brush, frame@),
        ensures
            final(self)@ == old(self)@.draw_pressed(at, frame@, *brush),
    {
        let ghost before = self@;
        self.draft_start = Some(at);
        match self.tool {
            Tool::Pen => {
                let points = vec![at];
                assert(points@ =~= seq![at]);
                let (color, width) = (self.color, self.stroke_width);
                self.draft = Some(Shape::Pen { points, color, width });
            },
            Tool::Marker => {
                let points = vec![at];
                assert(points@ =~= seq![at]);
                let (color, width) = (marker_color(self.color), Coord { bits: MARKER_WIDTH });
                self.draft = Some(Shape::Pen { points, color, width });
            },
            Tool::Blur => {
                let mut cells: Vec<(u32, u32, Color)> = Vec::new();
                add_brush_cells(
                    &mut cells,
                    frame.rgba.as_slice(),
                    frame.width,
                    frame.height,
                    brush,
                );
                self.draft = Some(Shape::Blur { cell: Coord { bits: BLUR_CELL }, cells });
            },
            _ => {},
        }
        assert(self@ =~= before.draw_pressed(at, frame@, *brush));
    }

    /// The pointer goes down. The canvas reports it as the start of a drag.
    pub fn drag_started(&mut self, press: &Press, shapes: &Vec<Shape>, frame: &Frame)
        requires
            old(self)@.can_press(*press, shape_views(shapes@), frame@),
        ensures
            final(self)@ == old(self)@.pressed(*press, shape_views(shapes@), frame@),
    {
        match self.tool {
            Tool::Select => self.select_press(press.at, shapes, &press.probes, &press.near),
            Tool::Text => {},
            _ => self.draw_press(press.at, frame, &press.brush),
        }
    }

    /// The pointer moves while it is down with the selection tool.
    fn select_drag(&mut self, drag: &Drag)
        requires
            match old(self)@.moving_shape {
                Some((_, orig)) => drag.moved@.len() == anchors(orig).len(),
                None => true,
            },
        ensures
            final(self)@ == old(self)@.select_dragged(*drag),
    {
        let ghost before = self@;
        let start = match self.drag_start {
            Some(start) => start,
            None => return ,
        };
        match &self.moving_shape {
            Some((i, orig)) => {
                let moved = translated(orig, &drag.moved);
                self.move_apply = Some((*i, moved));
            },
            None => match self.sel_mode {
                Some(SelMode::New) => {
                    self.selection = Some(Rect::from_two_pos(start, drag.at));
                },
                Some(SelMode::Move) => {
                    self.selection = Some(drag.shifted);
                },
                Some(SelMode::Resize(h)) => {
                    let least = Coord { bits: MIN_SELECTION };
                    if least.le(drag.size.w) && least.le(drag.size.h) {
                        self.selection = Some(resize_rect(self.sel_ref, h, drag.at));
                    }
                },
                None => {},
            },
        }
        assert(self@ =~= before.select_dragged(*drag));
    }

    /// The pointer moves while it is down with a drawing tool.
    fn draw_drag(&mut self, at: Pos, frame: &Frame, brush: &Brush)
        requires
            old(self).tool == Tool::Blur ==> can_brush(*brush, frame@),
        ensures
            final(self)@ == old(self)@.draw_dragged(at, frame@, *brush),
    {
        let ghost before = self@;
        let (color, width) = (self.color, self.stroke_width);
        match self.tool {
            Tool::Rect => {
                if let Some(from) = self.draft_start {
                    let rect = Rect::from_two_pos(from, at);
                    self.draft = Some(Shape::Rect { rect, color, width });
                }
            },
            Tool::Line => {
                if let Some(from) = self.draft_start {
                    self.draft = Some(Shape::Line { from, to: at, color, width });
                }
            },
            Tool::Arrow => {
                if let Some(from) = self.draft_start {
                    self.draft = Some(Shape::Arrow { from, to: at, color, width });
                }
            },
            Tool::Pen | Tool::Marker => {
                self.draft = match self.draft.take() {
                    Some(Shape::Pen { points, color, width }) => {
                        let mut points = points;
                        points.push(at);
                        Some(Shape::Pen { points, color, width })
                    },
                    other => other,
                };
            },
            Tool::Blur => {
                self.draft = match self.draft.take() {
                    Some(Shape::Blur { cell, cells }) => {
                        let mut cells = cells;
                        add_brush_cells(
                            &mut cells,
                            frame.rgba.as_slice(),
                            frame.width,
                            frame.height,
                            brush,
                        );
                        Some(Shape::Blur { cell, cells })
                    },
                    other => other,
                };
            },
            _ => {},
        }
        assert(self@ =~= before.draw_dragged(at, frame@, *brush));
    }

    /// The pointer moves while it is down.
    pub fn dragged(&mut self, drag: &Drag, frame: &Frame)
        requires
            old(self)@.can_drag(*drag, frame@),
        ensures
            final(self)@ == old(self)@.dragged(*drag, frame@),
    {
        match self.tool {
            Tool::Select => self.select_drag(drag),
            Tool::Text => {},
            _ => self.draw_drag(drag.at, frame, &drag.brush),
        }
    }

    /// The pointer goes up. `size` is the size of the selection, if there is one.
    pub fn drag_stopped(&mut self, size: Size)
        ensures
            final(self)@ == old(self)@.released(size),
    {
        let ghost before = self@;
        match self.tool {
            Tool::Select => {
                let least = Coord { bits: MIN_SELECTION };
                if self.sel_mode == Some(SelMode::New) && (size.w.lt(least) || size.h.lt(least)) {
                    self.selection = None;
                }
                self.sel_mode = None;
                self.moving_shape = None;
            },
            Tool::Text => {},
            _ => {
                self.committed = self.draft.take();
                self.draft_start = None;
            },
        }
        assert(self@ =~= before.released(size));
    }

    /// The pointer clicks.
    pub fn clicked(&mut self, at: Pos)
        ensures
            final(self)@ == old(self)@.clicked(at),
    {
        match self.tool {
            Tool::Text => {
                self.start_text = Some(at);
            },
            _ => {},
        }
    }
}

/// The bit pattern of zero.
pub const ZERO: u32 = 0;

/// The rectangle with both corners at the origin.
pub open spec fn zero_rect() -> Rect {
    let origin = Pos { x: Coord { bits: ZERO }, y: Coord { bits: ZERO } };
    Rect { min: origin, max: origin }
}

/// The rectangle lies in a frame of the given size.
pub open spec fn lies_in_frame(r: Rect, frame: Size) -> bool {
    &&& (Coord { bits: ZERO }).at_most(r.min.x)
    &&& (Coord { bits: ZERO }).at_most(r.min.y)
    &&& r.max.x.at_most(frame.w)
    &&& r.max.y.at_most(frame.h)
}

/// The rectangle, if it lies in a frame of the given size.
fn kept_in_frame(r: Option<Rect>, frame: Size) -> (k: Option<Rect>)
    ensures
        k == match r {
            Some(rect) => if lies_in_frame(rect, frame) {
                Some(rect)
            } else {
                None
            },
            None => None,
        },
{
    let zero = Coord { bits: ZERO };
    match r {
        Some(rect) => if zero.le(rect.min.x) && zero.le(rect.min.y) && rect.max.x.le(frame.w)
            && rect.max.y.le(frame.h) {
            Some(rect)
        } else {
            None
        },
        None => None,
    }
}

/// A key that goes down, as far as the overlay knows it.
#[derive(Clone, Copy, Debug, PartialEq, Eq, Structural)]
pub enum Key {
    Escape,
    Enter,
    A,
    B,
    C,
    L,
    M,
    P,
    R,
    S,
    T,
    V,
    X,
    Y,
    Z,
    Other,
}

/// What follows from a key.
#[derive(Clone, Copy, Debug, PartialEq, Eq, Structural)]
pub enum Effect {
    Nothing,
    /// The windows are drawn anew.
    Redraw,
    /// The overlay goes.
    Cancel,
    /// The selection is copied and the overlay goes.
    Finish,
}

/// The tool that a key chooses.
pub open spec fn tool_of(key: Key) -> Option<Tool> {
    match key {
        Key::S => Some(Tool::Select),
        Key::V => Some(Tool::Select),
        Key::R => Some(Tool::Rect),
        Key::A => Some(Tool::Arrow),
        Key::L => Some(Tool::Line),
        Key::P => Some(Tool::Pen),
        Key::M => Some(Tool::Marker),
        Key::T => Some(Tool::Text),
        Key::X => Some(Tool::Blur),
        Key::B => Some(Tool::Blur),
        _ => None,
    }
}

/// The tool that a key chooses.
fn chosen_tool(key: Key) -> (r: Option<Tool>)
    ensures
        r == tool_of(key),
{
    match key {
        Key::S => Some(Tool::Select),
        Key::V => Some(Tool::Select),
        Key::R => Some(Tool::Rect),
        Key::A => Some(Tool::Arrow),
        Key::L => Some(Tool::Line),
        Key::P => Some(Tool::Pen),
        Key::M => Some(Tool::Marker),
        Key::T => Some(Tool::Text),
        Key::X => Some(Tool::Blur),
        Key::B => Some(Tool::Blur),
        _ => None,
    }
}

/// What a key does where no text is being typed: Escape cancels, Enter and Ctrl+C finish,
/// Ctrl+Z undoes, Ctrl+Y and Ctrl+Shift+Z redo, and the letters alone choose a tool.
pub open spec fn key_effect(key: Key, ctrl: bool, shift: bool) -> Effect {
    if key == Key::Escape {
        Effect::Cancel
    } else if key == Key::Enter || (ctrl && key == Key::C) {
        Effect::Finish
    } else if ctrl && (key == Key::Z || key == Key::Y) {
        Effect::Redraw
    } else if !ctrl && tool_of(key) is Some {
        Effect::Redraw
    } else {
        Effect::Nothing
    }
}

impl OverlayView {
    /// The overlay at its start, with the selection of the last time if that lies in the
    /// frame.
    pub open spec fn fresh(restored: Option<Rect>, frame: Size) -> OverlayView {
        OverlayView {
            selection: match restored {
                Some(r) => if lies_in_frame(r, frame) {
                    Some(r)
                } else {
                    None
                },
                None => None,
            },
            drag_start: None,
            scene: SceneView::blank(),
            tool: Tool::Select,
            color: Color { r: 255, g: 60, b: 60, a: 255 },
            stroke_width: Coord { bits: STROKE_WIDTH },
            draft: None,
            draft_start: None,
            pending: None,
            sel_mode: None,
            sel_ref: zero_rect(),
            text_edit: None,
            move_shape: None,
            text_sel: None,
        }
    }

    /// What a pass starts from.
    pub open spec fn pass(self) -> PassView {
        PassView {
            selection: self.selection,
            drag_start: self.drag_start,
            tool: self.tool,
            color: self.color,
            stroke_width: self.stroke_width,
            draft: self.draft,
            draft_start: self.draft_start,
            sel_mode: self.sel_mode,
            sel_ref: self.sel_ref,
            moving_shape: self.move_shape,
            committed: None,
            clear_scene: false,
            action: None,
            move_apply: None,
            start_text: None,
            text_buf: match self.text_edit {
                Some(d) => Some(d.buf),
                None => None,
            },
            text_lost_focus: false,
            owner_text_sel: None,
        }
    }

    /// The text that was being typed becomes a shape, unless it is blank.
    pub open spec fn text_committed(self) -> OverlayView {
        match self.text_edit {
            Some(d) => {
                let a = OverlayView { text_edit: None, ..self };
                if trimmed(d.buf).len() == 0 {
                    a
                } else {
                    OverlayView {
                        scene: self.scene.pushed(
                            ShapeView::Text {
                                pos: d.pos,
                                text: d.buf,
                                color: d.color,
                                size: d.size,
                            },
                        ),
                        ..a
                    }
                }
            },
            None => self,
        }
    }

    /// The state that the pass changed, with a shape moved where it was. The first step of a
    /// move is remembered, to be undone.
    pub open spec fn settled(self, p: PassView) -> OverlayView {
        let scene = if self.move_shape is None && p.moving_shape is Some {
            self.scene.begun()
        } else {
            self.scene
        };
        OverlayView {
            selection: p.selection,
            drag_start: p.drag_start,
            draft: p.draft,
            draft_start: p.draft_start,
            tool: p.tool,
            color: p.color,
            sel_mode: p.sel_mode,
            sel_ref: p.sel_ref,
            move_shape: p.moving_shape,
            scene: match p.move_apply {
                Some((i, shape)) => scene.with_shape(i as int, shape),
                None => scene,
            },
            ..self
        }
    }

    /// The text that is being typed, as it was typed on and moved.
    pub open spec fn retyped(self, p: PassView, text_pos: Pos) -> OverlayView {
        OverlayView {
            text_edit: match self.text_edit {
                Some(d) => Some(
                    TextDraftView {
                        pos: text_pos,
                        buf: match p.text_buf {
                            Some(buf) => buf,
                            None => d.buf,
                        },
                        ..d
                    },
                ),
                None => None,
            },
            ..self
        }
    }

    /// The text that was being typed, made a shape where the pass took it the keyboard or the
    /// tool.
    pub open spec fn text_settled(self, p: PassView) -> OverlayView {
        if p.text_lost_focus || p.tool != Tool::Text {
            self.text_committed()
        } else {
            self
        }
    }

    /// Nothing drawn or typed, where the pass asks for that.
    pub open spec fn cleared(self, p: PassView) -> OverlayView {
        if p.clear_scene {
            OverlayView { text_edit: None, scene: SceneView::blank(), ..self }
        } else {
            self
        }
    }

    /// A new text to be typed, where the pass asks for one.
    pub open spec fn text_started(self, p: PassView) -> OverlayView {
        match p.start_text {
            Some(pos) => OverlayView {
                text_edit: Some(
                    TextDraftView {
                        pos,
                        buf: Seq::empty(),
                        color: p.color,
                        size: Coord { bits: TEXT_SIZE },
                    },
                ),
                ..self.text_committed()
            },
            None => self,
        }
    }

    /// The shape that the pass finished, added.
    pub open spec fn drawn(self, p: PassView) -> OverlayView {
        match p.committed {
            Some(shape) => OverlayView { scene: self.scene.pushed(shape), ..self },
            None => self,
        }
    }

    /// The button that was pressed, remembered.
    pub open spec fn asked(self, p: PassView) -> OverlayView {
        if p.action is Some {
            OverlayView { pending: p.action, ..self }
        } else {
            self
        }
    }

    /// What of the text is selected: the window that shows the text knows it, and without a
    /// text nothing is.
    pub open spec fn text_selected(self, p: PassView, region: Rect) -> OverlayView {
        OverlayView {
            text_sel: match self.text_edit {
                Some(d) => if region.has(d.pos) {
                    p.owner_text_sel
                } else {
                    self.text_sel
                },
                None => None,
            },
            ..self
        }
    }

    /// The overlay after a pass of the window that shows `region`. `text_pos` is where the text
    /// that is being typed has been moved to.
    pub open spec fn after(self, p: PassView, region: Rect, text_pos: Pos) -> OverlayView {
        self.settled(p).retyped(p, text_pos).text_settled(p).cleared(p).text_started(p).drawn(
            p,
        ).asked(p).text_selected(p, region)
    }

    /// The overlay after a key. While a text is being typed, only Escape means something: it
    /// ends the text.
    pub open spec fn keyed(self, key: Key, ctrl: bool, shift: bool) -> OverlayView {
        if self.text_edit is Some {
            if key == Key::Escape {
                self.text_committed()
            } else {
                self
            }
        } else if ctrl && key == Key::Z && !shift {
            OverlayView { scene: self.scene.undone(), ..self }
        } else if ctrl && (key == Key::Y || key == Key::Z) {
            OverlayView { scene: self.scene.redone(), ..self }
        } else if !ctrl && tool_of(key) is Some {
            OverlayView { tool: tool_of(key)->Some_0, ..self }
        } else {
            self
        }
    }
}

impl OverlayApp {
    /// The overlay at its start. `restored` is the selection of the last time.
    pub fn new(restored: Option<Rect>, frame: Size) -> (r: OverlayApp)
        ensures
            r@ == OverlayView::fresh(restored, frame),
    {
        let origin = Pos { x: Coord { bits: ZERO }, y: Coord { bits: ZERO } };
        let r = OverlayApp {
            selection: kept_in_frame(restored, frame),
            drag_start: None,
            scene: Scene::new(),
            tool: Tool::Select,
            color: from_rgb(255, 60, 60),
            stroke_width: Coord { bits: STROKE_WIDTH },
            draft: None,
            draft_start: None,
            pending: None,
            sel_mode: None,
            sel_ref: Rect { min: origin, max: origin },
            text_edit: None,
            move_shape: None,
            text_sel: None,
        };
        assert(r@ =~= OverlayView::fresh(restored, frame));
        r
    }

    /// Starts a redraw of a window.
    pub fn begin_pass(&self) -> (r: Pass)
        ensures
            r@ == self@.pass(),
    {
        let text_buf: Option<String> = match &self.text_edit {
            Some(d) => Some(d.buf.clone()),
            None => None,
        };
        let r = Pass {
            selection: self.selection,
            drag_start: self.drag_start,
            tool: self.tool,
            color: self.color,
            stroke_width: self.stroke_width,
            draft: copy_shape(&self.draft),
            draft_start: self.draft_start,
            sel_mode: self.sel_mode,
            sel_ref: self.sel_ref,
            moving_shape: copy_moving(&self.move_shape),
            committed: None,
            clear_scene: false,
            action: None,
            move_apply: None,
            start_text: None,
            text_buf,
            text_lost_focus: false,
            owner_text_sel: None,
        };
        assert(r@ =~= self@.pass());
        r
    }

    /// Makes the text that is being typed a shape, unless it is blank.
    pub fn commit_text(&mut self)
        ensures
            final(self)@ == old(self)@.text_committed(),
    {
        let ghost before = self@;
        match self.text_edit.take() {
            Some(d) => {
                let body = trim(d.buf.as_str());
                if body.as_str().unicode_len() > 0 {
                    self.scene.push(
                        Shape::Text { pos: d.pos, text: d.buf, color: d.color, size: d.size },
                    );
                }
            },
            None => {},
        }
        assert(self@ =~= before.text_committed());
    }

    /// Ends a redraw of the window that shows `region`.
    pub fn end_pass(&mut self, pass: Pass, region: Rect, text_pos: Pos)
        ensures
            final(self)@ == old(self)@.after(pass@, region, text_pos),
    {
        let ghost before = self@;
        let ghost p = pass@;
        let move_just_started = self.move_shape.is_none() && pass.moving_shape.is_some();
        self.selection = pass.selection;
        self.drag_start = pass.drag_start;
        self.draft = pass.draft;
        self.draft_start = pass.draft_start;
        self.tool = pass.tool;
        self.color = pass.color;
        self.sel_mode = pass.sel_mode;
        self.sel_ref = pass.sel_ref;
        self.move_shape = pass.moving_shape;
        if move_just_started {
            self.scene.begin_change();
        }
        match pass.move_apply {
            Some((i, shape)) => self.scene.set_shape(i, shape),
            None => {},
        }
        let ghost a1 = before.settled(p);
        assert(self@ =~= a1);

        self.text_edit = match self.text_edit.take() {
            Some(d) => {
                let buf = match pass.text_buf {
                    Some(buf) => buf,
                    None => d.buf,
                };
                Some(TextDraft { pos: text_pos, buf, color: d.color, size: d.size })
            },
            None => None,
        };
        let ghost a2 = a1.retyped(p, text_pos);
        assert(self@ =~= a2);

        if pass.text_lost_focus || pass.tool != Tool::Text {
            self.commit_text();
        }
        let ghost a3 = a2.text_settled(p);
        assert(self@ =~= a3);

        if pass.clear_scene {
            self.text_edit = None;
            self.scene = Scene::new();
        }
        let ghost a4 = a3.cleared(p);
        assert(self@ =~= a4);

        match pass.start_text {
            Some(pos) => {
                self.commit_text();
                let buf = String::new();
                assert(buf@ =~= Seq::<char>::empty());
                self.text_edit = Some(
                    TextDraft { pos, buf, color: pass.color, size: Coord { bits: TEXT_SIZE } },
                );
            },
            None => {},
        }
        let ghost a5 = a4.text_started(p);
        assert(self@ =~= a5);

        match pass.committed {
            Some(shape) => self.scene.push(shape),
            None => {},
        }
        let ghost a6 = a5.drawn(p);
        assert(self@ =~= a6);

        if pass.action.is_some() {
            self.pending = pass.action;
        }
        let ghost a7 = a6.asked(p);
        assert(self@ =~= a7);

        let shown = match &self.text_edit {
            Some(d) => region.contains(d.pos),
            None => false,
        };
        if shown {
            self.text_sel = pass.owner_text_sel;
        } else if self.text_edit.is_none() {
            self.text_sel = None;
        }
        assert(self@ =~= a7.text_selected(p, region));
    }

    /// A key goes down.
    pub fn key_pressed(&mut self, key: Key, ctrl: bool, shift: bool) -> (r: Effect)
        ensures
            final(self)@ == old(self)@.keyed(key, ctrl, shift),
            r == if old(self)@.text_edit is Some {
                Effect::Redraw
            } else {
                key_effect(key, ctrl, shift)
            },
    {
        let ghost before = self@;
        if self.text_edit.is_some() {
            if key == Key::Escape {
                self.commit_text();
            }
            return Effect::Redraw;
        }
        if key == Key::Escape {
            return Effect::Cancel;
        }
        if key == Key::Enter || (ctrl && key == Key::C) {
            return Effect::Finish;
        }
        if ctrl && key == Key::Z && !shift {
            self.scene.undo();
            assert(self@ =~= before.keyed(key, ctrl, shift));
            return Effect::Redraw;
        }
        if ctrl && (key == Key::Y || key == Key::Z) {
            self.scene.redo();
            assert(self@ =~= before.keyed(key, ctrl, shift));
            return Effect::Redraw;
        }
        if !ctrl {
            if let Some(tool) = chosen_tool(key) {
                self.tool = tool;
                assert(self@ =~= before.keyed(key, ctrl, shift));
                return Effect::Redraw;
            }
        }
        Effect::Nothing
    }

    /// What was asked for with a button, which is then no longer to be done.
    pub fn take_pending(&mut self) -> (r: Option<Action>)
        ensures
            r == old(self)@.pending,
            final(self)@ == (OverlayView { pending: None, ..old(self)@ }),
    {
        self.pending.take()
    }
}

/// The radius of the ring that shows what a tool will draw: half the stroke, but not too
/// small, for the pen and the line, and a fixed one for the marker and the pixelating brush.
pub open spec fn ring_of(tool: Tool, half_stroke: Coord) -> Option<Coord> {
    match tool {
        Tool::Pen => Some(half_stroke.larger(Coord { bits: MIN_RING })),
        Tool::Line => Some(half_stroke.larger(Coord { bits: MIN_RING })),
        Tool::Marker => Some(Coord { bits: MARKER_RING }),
        Tool::Blur => Some(Coord { bits: BLUR_BRUSH }),
        _ => None,
    }
}

/// The radius of the ring that shows what the tool will draw, if it has one.
pub fn brush_ring(tool: Tool, half_stroke: Coord) -> (r: Option<Coord>)
    ensures
        r == ring_of(tool, half_stroke),
{
    match tool {
        Tool::Pen | Tool::Line => Some(half_stroke.max(Coord { bits: MIN_RING })),
        Tool::Marker => Some(Coord { bits: MARKER_RING }),
        Tool::Blur => Some(Coord { bits: BLUR_BRUSH }),
        _ => None,
    }
}

/// Where the pointer is and what was measured there, in the coordinates of the window.
pub struct Hover {
    /// The pointer, if it is over the canvas.
    pub at: Option<Pos>,
    /// The selection.
    pub selection: Rect,
    /// For each handle of the selection, whether it is near.
    pub near: Vec<bool>,
    /// The pointer is over the canvas or is dragging on it.
    pub active: bool,
}

impl PassView {
    /// The cursor of the selection tool.
    pub open spec fn select_cursor(self, hover: Hover) -> Cursor {
        match (self.selection, self.sel_mode, hover.at) {
            (None, _, _) => Cursor::Crosshair,
            (_, Some(SelMode::Resize(h)), _) => cursor_over(h),
            (_, Some(SelMode::Move), _) => Cursor::Grabbing,
            (_, _, Some(at)) => match first_set(hover.near@, hover.near@.len() as int) {
                Some(h) => cursor_over(h),
                None => if hover.selection.has(at) {
                    Cursor::Move
                } else {
                    Cursor::Crosshair
                },
            },
            _ => Cursor::Crosshair,
        }
    }

    /// The cursor: where a ring shows what is drawn, there is none.
    pub open spec fn cursor_icon(self, hover: Hover) -> Cursor {
        match self.tool {
            Tool::Select => self.select_cursor(hover),
            Tool::Text => Cursor::Text,
            Tool::Rect => Cursor::Crosshair,
            Tool::Arrow => Cursor::Crosshair,
            _ => if hover.active {
                Cursor::Hidden
            } else {
                Cursor::Crosshair
            },
        }
    }
}

impl Pass {
    /// The cursor that the canvas shows.
    pub fn cursor(&self, hover: &Hover) -> (r: Cursor)
        ensures
            r == self@.cursor_icon(*hover),
    {
        match self.tool {
            Tool::Select => {
                if self.selection.is_none() {
                    return Cursor::Crosshair;
                }
                match self.sel_mode {
                    Some(SelMode::Resize(h)) => handle_cursor(h),
                    Some(SelMode::Move) => Cursor::Grabbing,
                    _ => match hover.at {
                        Some(at) => match hit_handle(&hover.near) {
                            Some(h) => handle_cursor(h),
                            None => if hover.selection.contains(at) {
                                Cursor::Move
                            } else {
                                Cursor::Crosshair
                            },
                        },
                        None => Cursor::Crosshair,
                    },
                }
            },
            Tool::Text => Cursor::Text,
            tool => {
                if brush_ring(tool, self.stroke_width).is_some() && hover.active {
                    Cursor::Hidden
                } else {
                    Cursor::Crosshair
                }
            },
        }
    }
}

/// Whether a part of the selection of the given size is large enough to be shown.
pub fn is_visible(size: Size) -> (r: bool)
    ensures
        r <==> (Coord { bits: VISIBLE_SIZE }).below(size.w) && (Coord {
            bits: VISIBLE_SIZE,
        }).below(size.h),
{
    let least = Coord { bits: VISIBLE_SIZE };
    least.lt(size.w) && least.lt(size.h)
}

/// The label of a selection of `w` by `h` pixels.
pub fn size_label(w: i32, h: i32) -> (r: String)
    ensures
        r@ == padded(w as int, 0) + seq![' ', '\u{d7}', ' '] + padded(h as int, 0),
{
    let mut r = String::new();
    push_padded(&mut r, w, 0);
    r.push(' ');
    r.push('\u{d7}');
    r.push(' ');
    push_padded(&mut r, h, 0);
    assert(r@ =~= padded(w as int, 0) + seq![' ', '\u{d7}', ' '] + padded(h as int, 0));
    r
}

/// The place of the caret in a text: where it was put, else behind the last character.
pub fn caret_index(primary: Option<usize>, buf: &str) -> (r: usize)
    ensures
        r == match primary {
            Some(i) => i as int,
            None => buf@.len() as int,
        },
{
    match primary {
        Some(i) => i,
        None => buf.unicode_len(),
    }
}

/// The tools in the order of their buttons.
pub open spec fn button_order() -> Seq<Tool> {
    seq![
        Tool::Pen,
        Tool::Line,
        Tool::Arrow,
        Tool::Rect,
        Tool::Marker,
        Tool::Text,
        Tool::Blur,
        Tool::Select,
    ]
}

/// The tools in the order of their buttons.
pub fn toolbar() -> (r: Vec<Tool>)
    ensures
        r@ == button_order(),
{
    vec![
        Tool::Pen,
        Tool::Line,
        Tool::Arrow,
        Tool::Rect,
        Tool::Marker,
        Tool::Text,
        Tool::Blur,
        Tool::Select,
    ]
}

/// Every tool has exactly one button.
pub proof fn law_every_tool_has_one_button(tool: Tool)
    ensures
        exists|i: int| 0 <= i < button_order().len() && button_order()[i] == tool,
        forall|i: int, j: int|
            0 <= i < j < button_order().len() ==> #[trigger] button_order()[i]
                != #[trigger] button_order()[j],
{
    let order = button_order();
    assert(order[0] == Tool::Pen && order[1] == Tool::Line && order[2] == Tool::Arrow && order[3]
        == Tool::Rect && order[4] == Tool::Marker && order[5] == Tool::Text && order[6]
        == Tool::Blur && order[7] == Tool::Select);
}

/// There is nothing to show the overlay on.
#[derive(Clone, Copy, Debug, PartialEq, Eq, Structural)]
pub struct NoDisplay;

/// The regions of the frame that the overlay's windows show: the whole frame in one window, or
/// one monitor each.
pub fn window_regions(windowed: bool, frame: Rect, monitors: &Vec<Rect>) -> (r: Result<
    Vec<Rect>,
    NoDisplay,
>)
    ensures
        match r {
            Ok(regions) => if windowed {
                regions@ == seq![frame]
            } else {
                monitors@.len() > 0 && regions@ == monitors@
            },
            Err(_) => !windowed && monitors@.len() == 0,
        },
{
    if windowed {
        let regions = vec![frame];
        assert(regions@ =~= seq![frame]);
        return Ok(regions);
    }
    let n: usize = monitors.len();
    if n == 0 {
        return Err(NoDisplay);
    }
    let mut regions: Vec<Rect> = Vec::new();
    let mut i: usize = 0;
    while i < n
        invariant
            i <= n,
            n == monitors@.len(),
            regions@ == monitors@.take(i as int),
        decreases n - i,
    {
        regions.push(monitors[i]);
        assert(monitors@.take(i + 1) =~= monitors@.take(i as int).push(monitors@[i as int]));
        i = i + 1;
    }
    assert(monitors@.take(n as int) =~= monitors@);
    Ok(regions)
}

/// Each text without the white space around it.
pub open spec fn trimmed_all(parts: Seq<Seq<char>>) -> Seq<Seq<char>> {
    Seq::new(parts.len(), |i: int| trimmed(parts[i]))
}

/// The texts of the numbers in the description of a selection.
pub fn crop_fields(spec_text: &str) -> (r: Vec<String>)
    ensures
        texts(r@) == trimmed_all(split_parts(spec_text@, ',')),
{
    let parts = split(spec_text, ',');
    let n: usize = parts.len();
    let mut r: Vec<String> = Vec::new();
    let mut i: usize = 0;
    while i < n
        invariant
            i <= n,
            n == parts@.len(),
            r@.len() == i,
            forall|j: int| 0 <= j < i ==> (#[trigger] r@[j])@ == trimmed(texts(parts@)[j]),
        decreases n - i,
    {
        let part = trim(parts[i].as_str());
        assert(part@ == trimmed(texts(parts@)[i as int]));
        r.push(part);
        i = i + 1;
    }
    assert(texts(r@) =~= trimmed_all(texts(parts@)));
    r
}

/// The selection that is described, from what was read of each of its fields: exactly four
/// numbers.
pub fn parse_crop(values: &Vec<Option<Coord>>) -> (r: Option<(Pos, Size)>)
    ensures
        ({
            let v = numbers(values@, values@.len() as int);
            r == if v.len() == 4 {
                Some(placed_size(v))
            } else {
                None
            }
        }),
{
    let v = keep_numbers(values);
    if v.len() == 4 {
        Some((Pos { x: v[0], y: v[1] }, Size { w: v[2], h: v[3] }))
    } else {
        None
    }
}

/// The parts of the description of a text: two numbers, without white space around them, and
/// the text, which may hold commas.
pub open spec fn text_parts(s: Seq<char>) -> Option<(Seq<char>, Seq<char>, Seq<char>)> {
    match parts_at_first(s, ',') {
        Some((x, rest)) => match parts_at_first(rest, ',') {
            Some((y, text)) => Some((trimmed(x), trimmed(y), text)),
            None => None,
        },
        None => None,
    }
}

/// The parts of the description of a text, if it has all of them.
pub fn text_fields(spec_text: &str) -> (r: Option<(String, String, String)>)
    ensures
        match r {
            Some((x, y, text)) => text_parts(spec_text@) == Some((x@, y@, text@)),
            None => text_parts(spec_text@) is None,
        },
{
    match split_once(spec_text, ',') {
        Some((x, rest)) => match split_once(rest.as_str(), ',') {
            Some((y, text)) => Some((trim(x.as_str()), trim(y.as_str()), text)),
            None => None,
        },
        None => None,
    }
}

impl OverlayApp {
    /// Goes over to the text tool with a text that is already typed.
    pub fn type_text(&mut self, pos: Pos, text: String)
        ensures
            final(self)@ == (OverlayView {
                tool: Tool::Text,
                text_edit: Some(
                    TextDraftView {
                        pos,
                        buf: text@,
                        color: old(self)@.color,
                        size: Coord { bits: TEXT_SIZE },
                    },
                ),
                ..old(self)@
            }),
    {
        self.tool = Tool::Text;
        self.text_edit = Some(
            TextDraft { pos, buf: text, color: self.color, size: Coord { bits: TEXT_SIZE } },
        );
    }
}

/// The cells that brushes reach, one brush after the other.
pub open spec fn cells_under_all(
    frame: FrameView,
    brushes: Seq<Brush>,
    n: int,
) -> Seq<(u32, u32, Color)>
    decreases n,
{
    if n <= 0 {
        Seq::empty()
    } else {
        cells_under(cells_under_all(frame, brushes, n - 1), frame, brushes[n - 1])
    }
}

/// A point, by the bit patterns of its coordinates.
pub open spec fn point(x: u32, y: u32) -> Pos {
    Pos { x: Coord { bits: x }, y: Coord { bits: y } }
}

/// A point, by the bit patterns of its coordinates.
fn pos2(x: u32, y: u32) -> (r: Pos)
    ensures
        r == point(x, y),
{
    Pos { x: Coord { bits: x }, y: Coord { bits: y } }
}

/// One shape of each kind, to show what can be drawn: a rectangle from (400, 300) to
/// (800, 600), an arrow from (900, 400) to (1250, 700), a line from (300, 720) to (760, 760), a
/// text at (420, 240), and a pixelated stripe.
pub open spec fn demo_shapes(frame: FrameView, brushes: Seq<Brush>) -> Seq<ShapeView> {
    let red = Color { r: 255, g: 60, b: 60, a: 255 };
    let yellow = Color { r: 255, g: 200, b: 40, a: 255 };
    let green = Color { r: 60, g: 200, b: 90, a: 255 };
    seq![
        ShapeView::Rect {
            rect: Rect {
                min: point(0x43c8_0000, 0x4396_0000),
                max: point(0x4448_0000, 0x4416_0000),
            },
            color: red,
            width: Coord { bits: 0x4040_0000 },
        },
        ShapeView::Arrow {
            from: point(0x4461_0000, 0x43c8_0000),
            to: point(0x449c_4000, 0x442f_0000),
            color: yellow,
            width: Coord { bits: 0x4080_0000 },
        },
        ShapeView::Line {
            from: point(0x4396_0000, 0x4434_0000),
            to: point(0x443e_0000, 0x443e_0000),
            color: green,
            width: Coord { bits: 0x4040_0000 },
        },
        ShapeView::Text {
            pos: point(0x43d2_0000, 0x4370_0000),
            text: "rayshot text!"@,
            color: yellow,
            size: Coord { bits: 0x41e0_0000 },
        },
        ShapeView::Blur {
            cell: Coord { bits: BLUR_CELL },
            cells: cells_under_all(frame, brushes, brushes.len() as int),
        },
    ]
}

impl OverlayApp {
    /// Draws one shape of each kind. The brushes pixelate a stripe.
    pub fn draw_demo(&mut self, frame: &Frame, brushes: &Vec<Brush>)
        requires
            forall|i: int| 0 <= i < brushes@.len() ==> can_brush(#[trigger] brushes@[i], frame@),
        ensures
            final(self)@ == (OverlayView {
                scene: pushed_all(old(self)@.scene, demo_shapes(frame@, brushes@)),
                ..old(self)@
            }),
    {
        let ghost before = self@;
        let red = from_rgb(255, 60, 60);
        let yellow = from_rgb(255, 200, 40);
        let green = from_rgb(60, 200, 90);
        let three = Coord { bits: 0x4040_0000 };
        let n: usize = brushes.len();
        let mut cells: Vec<(u32, u32, Color)> = Vec::new();
        let mut i: usize = 0;
        while i < n
            invariant
                i <= n,
                n == brushes@.len(),
                forall|j: int|
                    0 <= j < brushes@.len() ==> can_brush(#[trigger] brushes@[j], frame@),
                cells@ == cells_under_all(frame@, brushes@, i as int),
            decreases n - i,
        {
            add_brush_cells(
                &mut cells,
                frame.rgba.as_slice(),
                frame.width,
                frame.height,
                &brushes[i],
            );
            i = i + 1;
        }
        let ghost shapes = demo_shapes(frame@, brushes@);
        self.scene.push(
            Shape::Rect {
                rect: Rect {
                    min: pos2(0x43c8_0000, 0x4396_0000),
                    max: pos2(0x4448_0000, 0x4416_0000),
                },
                color: red,
                width: three,
            },
        );
        self.scene.push(
            Shape::Arrow {
                from: pos2(0x4461_0000, 0x43c8_0000),
                to: pos2(0x449c_4000, 0x442f_0000),
                color: yellow,
                width: Coord { bits: 0x4080_0000 },
            },
        );
        self.scene.push(
            Shape::Line {
                from: pos2(0x4396_0000, 0x4434_0000),
                to: pos2(0x443e_0000, 0x443e_0000),
                color: green,
                width: three,
            },
        );
        self.scene.push(
            Shape::Text {
                pos: pos2(0x43d2_0000, 0x4370_0000),
                text: "rayshot text!".to_owned(),
                color: yellow,
                size: Coord { bits: 0x41e0_0000 },
            },
        );
        self.scene.push(Shape::Blur { cell: Coord { bits: BLUR_CELL }, cells });
        proof {
            assert(shapes.take(5) =~= shapes);
            assert(shapes.take(5).drop_last() =~= shapes.take(4));
            assert(shapes.take(4).drop_last() =~= shapes.take(3));
            assert(shapes.take(3).drop_last() =~= shapes.take(2));
            assert(shapes.take(2).drop_last() =~= shapes.take(1));
            assert(shapes.take(1).drop_last() =~= shapes.take(0));
            reveal_with_fuel(pushed_all, 6);
            assert(self@ =~= OverlayView { scene: pushed_all(before.scene, shapes), ..before });
        }
    }
}

/// A blank text leaves no shape behind.
pub proof fn law_blank_text_leaves_no_shape(a: OverlayView)
    requires
        a.text_edit is Some,
        trimmed(a.text_edit->Some_0.buf).len() == 0,
    ensures
        a.text_committed() == (OverlayView { text_edit: None, ..a }),
{
}

/// A typed text becomes the topmost shape, and undoing takes it back.
pub proof fn law_typed_text_can_be_undone(a: OverlayView)
    requires
        a.text_edit is Some,
        trimmed(a.text_edit->Some_0.buf).len() > 0,
    ensures
        a.text_committed().text_edit is None,
        a.text_committed().scene.shapes.len() == a.scene.shapes.len() + 1,
        a.text_committed().scene.undone().shapes == a.scene.shapes,
{
}

/// A pass in which nothing happens changes nothing, except that the window that shows a text
/// tells anew what of it is selected.
pub proof fn law_idle_pass_changes_nothing(a: OverlayView, region: Rect, text_pos: Pos)
    requires
        match a.text_edit {
            Some(d) => a.tool == Tool::Text && text_pos == d.pos,
            None => true,
        },
    ensures
        a.after(a.pass(), region, text_pos) == (OverlayView {
            text_sel: a.after(a.pass(), region, text_pos).text_sel,
            ..a
        }),
{
    assert(a.after(a.pass(), region, text_pos) =~= OverlayView {
        text_sel: a.after(a.pass(), region, text_pos).text_sel,
        ..a
    });
}

/// Whatever a pass decides, and whatever key is pressed, the history stays within its limit.
pub proof fn law_overlay_keeps_history_bounded(
    a: OverlayView,
    p: PassView,
    region: Rect,
    text_pos: Pos,
    key: Key,
    ctrl: bool,
    shift: bool,
)
    requires
        a.scene.well_formed(),
    ensures
        a.text_committed().scene.well_formed(),
        a.after(p, region, text_pos).scene.well_formed(),
        a.keyed(key, ctrl, shift).scene.well_formed(),
{
    let a1 = a.settled(p);
    let a2 = a1.retyped(p, text_pos);
    let a3 = a2.text_settled(p);
    let a4 = a3.cleared(p);
    let a5 = a4.text_started(p);
    assert(a1.scene.well_formed());
    assert(a3.scene.well_formed());
    assert(a5.scene.well_formed());
    assert(a5.drawn(p).scene.well_formed());
}

/// Pressing outside the selection, and on no shape, removes what is drawn or typed; the
/// selection stays until the pointer moves.
pub proof fn law_press_outside_starts_over(
    a: OverlayView,
    press: Press,
    frame: FrameView,
    region: Rect,
    text_pos: Pos,
)
    requires
        a.tool == Tool::Select,
        a.selection is Some,
        !a.selection->Some_0.has(press.at),
        topmost(a.scene.shapes, press.probes@) is None,
        first_set(press.near@, press.near@.len() as int) is None,
    ensures
        ({
            let b = a.after(
                a.pass().pressed(press, a.scene.shapes, frame),
                region,
                text_pos,
            );
            &&& b.scene == SceneView::blank()
            &&& b.text_edit is None
            &&& b.selection == a.selection
            &&& b.sel_mode == Some(SelMode::New)
        }),
{
}

/// Pressing on a shape, or inside the selection, removes nothing.
pub proof fn law_press_inside_keeps_shapes(
    a: OverlayView,
    press: Press,
    frame: FrameView,
    region: Rect,
    text_pos: Pos,
)
    requires
        a.tool == Tool::Select,
        a.text_edit is None,
        topmost(a.scene.shapes, press.probes@) is Some || a.selection is None
            || a.selection->Some_0.has(press.at),
    ensures
        a.after(
            a.pass().pressed(press, a.scene.shapes, frame),
            region,
            text_pos,
        ).scene.shapes == a.scene.shapes,
{
}

/// Without a selection, pressing on no shape and dragging selects the rectangle between the two
/// points.
pub proof fn law_drag_selects_rectangle(
    p: PassView,
    press: Press,
    shapes: Seq<ShapeView>,
    drag: Drag,
    frame: FrameView,
)
    requires
        p.tool == Tool::Select,
        p.selection is None,
        p.moving_shape is None,
        topmost(shapes, press.probes@) is None,
    ensures
        p.pressed(press, shapes, frame).dragged(drag, frame).selection == Some(
            Rect::spanned(press.at, drag.at),
        ),
{
}

/// A new selection that is too small when the pointer goes up is dropped; a moved or resized
/// one never is.
pub proof fn law_only_small_new_selections_are_dropped(p: PassView, size: Size)
    requires
        p.tool == Tool::Select,
        p.selection is Some,
    ensures
        p.released(size).selection is None <==> p.sel_mode == Some(SelMode::New) && (size.w.below(
            Coord { bits: MIN_SELECTION },
        ) || size.h.below(Coord { bits: MIN_SELECTION })),
        p.released(size).selection is Some ==> p.released(size).selection == p.selection,
{
}

/// Dragging a handle so that the selection would be too small leaves it as it is.
pub proof fn law_resize_refuses_small_sizes(p: PassView, drag: Drag, frame: FrameView)
    requires
        p.tool == Tool::Select,
        p.moving_shape is None,
        p.sel_mode is Some && p.sel_mode->Some_0 is Resize,
        drag.size.w.below(Coord { bits: MIN_SELECTION }) || drag.size.h.below(
            Coord { bits: MIN_SELECTION },
        ),
    ensures
        p.dragged(drag, frame) == p,
{
}

/// Drawing a shape is one step to undo.
pub proof fn law_drawing_is_one_step(
    a: OverlayView,
    p: PassView,
    size: Size,
    region: Rect,
    text_pos: Pos,
)
    requires
        a.text_edit is None,
        p.tool != Tool::Select && p.tool != Tool::Text,
        p.draft is Some,
        p.moving_shape == a.move_shape,
        p.move_apply is None,
        !p.clear_scene,
        p.start_text is None,
    ensures
        ({
            let b = a.after(p.released(size), region, text_pos);
            &&& b.scene.shapes == a.scene.shapes.push(p.draft->Some_0)
            &&& b.scene.undone().shapes == a.scene.shapes
            &&& b.draft is None
        }),
{
}

/// The overlay after several passes.
pub open spec fn after_all(
    a: OverlayView,
    passes: Seq<PassView>,
    region: Rect,
    text_pos: Pos,
) -> OverlayView
    decreases passes.len(),
{
    if passes.len() == 0 {
        a
    } else {
        after_all(a, passes.drop_last(), region, text_pos).after(passes.last(), region, text_pos)
    }
}

/// A pass in which a shape is being moved, and nothing else happens to the scene.
pub open spec fn only_moves(p: PassView) -> bool {
    &&& p.moving_shape is Some
    &&& p.committed is None
    &&& p.start_text is None
    &&& !p.clear_scene
}

proof fn lemma_moving(a: OverlayView, passes: Seq<PassView>, region: Rect, text_pos: Pos)
    requires
        a.text_edit is None,
        a.move_shape is None,
        passes.len() > 0,
        forall|i: int| 0 <= i < passes.len() ==> only_moves(#[trigger] passes[i]),
    ensures
        ({
            let b = after_all(a, passes, region, text_pos);
            &&& b.text_edit is None
            &&& b.move_shape is Some
            &&& b.scene.undo == a.scene.begun().undo
            &&& b.scene.redo == a.scene.begun().redo
        }),
    decreases passes.len(),
{
    let init = passes.drop_last();
    let p = passes.last();
    assert(only_moves(passes[passes.len() - 1]));
    if init.len() == 0 {
        assert(after_all(a, init, region, text_pos) == a);
    } else {
        assert forall|i: int| 0 <= i < init.len() implies only_moves(#[trigger] init[i]) by {
            assert(init[i] == passes[i]);
        }
        lemma_moving(a, init, region, text_pos);
    }
}

/// However many passes it takes to move a shape, the move is one step to undo: undoing shows the
/// shapes as they were.
pub proof fn law_moving_is_one_step(
    a: OverlayView,
    passes: Seq<PassView>,
    region: Rect,
    text_pos: Pos,
)
    requires
        a.text_edit is None,
        a.move_shape is None,
        passes.len() > 0,
        forall|i: int| 0 <= i < passes.len() ==> only_moves(#[trigger] passes[i]),
    ensures
        after_all(a, passes, region, text_pos).scene.undone().shapes == a.scene.shapes,
{
    lemma_moving(a, passes, region, text_pos);
}

/// Where no text is being typed, Ctrl+Y takes Ctrl+Z back.
pub proof fn law_redo_key_reverts_undo_key(a: OverlayView, shift: bool)
    requires
        a.text_edit is None,
        a.scene.undo.len() > 0,
    ensures
        a.keyed(Key::Z, true, false).keyed(Key::Y, true, shift) == a,
        a.keyed(Key::Z, true, false).keyed(Key::Z, true, true) == a,
{
    law_redo_reverts_undo(a.scene);
}

/// While a text is being typed, no key but Escape changes the overlay, and Escape ends the text.
pub proof fn law_typing_keeps_keys(a: OverlayView, key: Key, ctrl: bool, shift: bool)
    requires
        a.text_edit is Some,
    ensures
        key != Key::Escape ==> a.keyed(key, ctrl, shift) == a,
        a.keyed(Key::Escape, ctrl, shift).text_edit is None,
{
}

} // verus!
