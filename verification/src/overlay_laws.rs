//! What the overlay promises: where the selection goes, what is drawn and typed, and what
//! becomes of it at the end of a pass.

use vstd::prelude::*;

use crate::capture::FrameView;
use crate::color::{marker_tint, Color};
use crate::geometry::{Coord, Pos, Rect, Size};
use crate::overlay::{
    button_order, can_brush, cells_under_all, cursor_over, first_set, key_effect,
    law_first_handle_is_hit, ring_of, text_parts, trimmed_all, Cursor, Drag, Effect, Hover, Key,
    OverlayView, PassView, Press, SelMode, TextDraftView,
};
use crate::pixelate::{brushed, Brush};
use crate::scene::{
    anchors, law_hit_is_topmost, law_translated_to_anchors, placed_by, topmost, touched, ShapeView,
    Tool,
};
use crate::text::{law_first_separator_divides, trimmed};

verus! {

/// The pass after several movements of the pointer while it is down.
pub open spec fn dragged_all(p: PassView, drags: Seq<Drag>, frame: FrameView) -> PassView
    decreases drags.len(),
{
    if drags.len() == 0 {
        p
    } else {
        dragged_all(p, drags.drop_last(), frame).dragged(drags.last(), frame)
    }
}

/// `lo` and `hi` are `a` and `b`, the smaller one first.
pub open spec fn are_sorted(lo: Coord, hi: Coord, a: Coord, b: Coord) -> bool {
    &&& a.below(b) ==> lo == a && hi == b
    &&& b.below(a) ==> lo == b && hi == a
    &&& a == b ==> lo == a && hi == a
}

/// The size is at least five in both directions.
pub open spec fn is_large(size: Size) -> bool {
    let five = Coord { bits: 0x40a0_0000 };
    five.at_most(size.w) && five.at_most(size.h)
}

/// `h` is the first of the flags that is set.
pub open spec fn is_first(near: Seq<bool>, h: int) -> bool {
    &&& 0 <= h < near.len()
    &&& near[h]
    &&& forall|i: int| 0 <= i < h ==> !#[trigger] near[i]
}

/// No flag is set.
pub open spec fn none_set(near: Seq<bool>) -> bool {
    forall|i: int| 0 <= i < near.len() ==> !#[trigger] near[i]
}

/// The first flag that is set is found.
proof fn lemma_first_is_found(press: Press, h: usize)
    ensures
        is_first(press.near@, h as int) ==> first_set(press.near@, press.near@.len() as int)
            == Some(h),
        none_set(press.near@) ==> first_set(press.near@, press.near@.len() as int) is None,
{
    let near = press.near@;
    assert(press.near.len() == near.len());
    law_first_handle_is_hit(near);
    if is_first(near, h as int) {
        let found = first_set(near, near.len() as int);
        assert(near[h as int]);
        assert(found is Some);
        let g = found->Some_0;
        assert(!(g < h));
        assert(!(h < g));
    }
}

/// Dragging with the selection tool changes only the selection and the place of a shape.
proof fn lemma_select_drags_keep(p: PassView, drags: Seq<Drag>, frame: FrameView)
    requires
        p.tool == Tool::Select,
    ensures
        ({
            let q = dragged_all(p, drags, frame);
            q == PassView { selection: q.selection, move_apply: q.move_apply, ..p }
        }),
    decreases drags.len(),
{
    if drags.len() > 0 {
        lemma_select_drags_keep(p, drags.drop_last(), frame);
    }
}

/// The pointer goes down on a handle of the selection and moves, through however many places:
/// where it is in the end decides, and the selection is the one from before with only the sides
/// on which the handle lies moved to the pointer. The handles are counted clockwise from the
/// upper left corner; sides that pass each other change their roles.
pub proof fn law_dragged_handle_moves_its_sides(
    p: PassView,
    press: Press,
    shapes: Seq<ShapeView>,
    drags: Seq<Drag>,
    frame: FrameView,
    sel: Rect,
    h: usize,
)
    requires
        p.tool == Tool::Select,
        p.moving_shape is None,
        p.selection == Some(sel),
        topmost(shapes, press.probes@) is None,
        is_first(press.near@, h as int),
        h <= 7,
        drags.len() > 0,
        is_large(drags.last().size),
    ensures
        ({
            let at = drags.last().at;
            let q = dragged_all(p.pressed(press, shapes, frame), drags, frame);
            &&& q.selection is Some
            &&& q.sel_ref == sel
            &&& q.sel_mode == Some(SelMode::Resize(h))
            &&& ({
                let r = q.selection->Some_0;
                &&& (h == 0 || h == 6 || h == 7) ==> are_sorted(
                    r.min.x,
                    r.max.x,
                    at.x,
                    sel.max.x,
                )
                &&& (h == 2 || h == 3 || h == 4) ==> are_sorted(
                    r.min.x,
                    r.max.x,
                    sel.min.x,
                    at.x,
                )
                &&& (h == 1 || h == 5) ==> are_sorted(r.min.x, r.max.x, sel.min.x, sel.max.x)
                &&& (h == 0 || h == 1 || h == 2) ==> are_sorted(
                    r.min.y,
                    r.max.y,
                    at.y,
                    sel.max.y,
                )
                &&& (h == 4 || h == 5 || h == 6) ==> are_sorted(
                    r.min.y,
                    r.max.y,
                    sel.min.y,
                    at.y,
                )
                &&& (h == 3 || h == 7) ==> are_sorted(r.min.y, r.max.y, sel.min.y, sel.max.y)
            })
        }),
{
    lemma_first_is_found(press, h);
    let q = p.pressed(press, shapes, frame);
    lemma_select_drags_keep(q, drags.drop_last(), frame);
    let before = dragged_all(q, drags.drop_last(), frame);
    assert(before.sel_mode == Some(SelMode::Resize(h)));
    assert(before.dragged(drags.last(), frame) == dragged_all(q, drags, frame));
}

/// Inside the selection, each corner handle takes its own corner to the pointer and leaves the
/// opposite corner, and each side handle takes its own side and leaves the three others.
pub proof fn law_handle_dragged_inside(
    p: PassView,
    press: Press,
    shapes: Seq<ShapeView>,
    drag: Drag,
    frame: FrameView,
    sel: Rect,
    h: usize,
)
    requires
        p.tool == Tool::Select,
        p.moving_shape is None,
        p.selection == Some(sel),
        topmost(shapes, press.probes@) is None,
        is_first(press.near@, h as int),
        h <= 7,
        is_large(drag.size),
        sel.min.x.below(drag.at.x) && drag.at.x.below(sel.max.x),
        sel.min.y.below(drag.at.y) && drag.at.y.below(sel.max.y),
    ensures
        p.pressed(press, shapes, frame).dragged(drag, frame).selection == Some(
            if h == 0 {
                Rect { min: drag.at, max: sel.max }
            } else if h == 1 {
                Rect { min: Pos { x: sel.min.x, y: drag.at.y }, max: sel.max }
            } else if h == 2 {
                Rect {
                    min: Pos { x: sel.min.x, y: drag.at.y },
                    max: Pos { x: drag.at.x, y: sel.max.y },
                }
            } else if h == 3 {
                Rect { min: sel.min, max: Pos { x: drag.at.x, y: sel.max.y } }
            } else if h == 4 {
                Rect { min: sel.min, max: drag.at }
            } else if h == 5 {
                Rect { min: sel.min, max: Pos { x: sel.max.x, y: drag.at.y } }
            } else if h == 6 {
                Rect {
                    min: Pos { x: drag.at.x, y: sel.min.y },
                    max: Pos { x: sel.max.x, y: drag.at.y },
                }
            } else {
                Rect { min: Pos { x: drag.at.x, y: sel.min.y }, max: sel.max }
            },
        ),
{
    let drags = seq![drag];
    let q = p.pressed(press, shapes, frame);
    assert(drags.drop_last() =~= Seq::empty());
    assert(dragged_all(q, drags.drop_last(), frame) == q);
    assert(dragged_all(q, drags, frame) == q.dragged(drag, frame));
    law_dragged_handle_moves_its_sides(p, press, shapes, drags, frame, sel, h);
}

/// What the pointer starts when it goes down with the selection tool: on a shape, the topmost one
/// there, it takes hold of that shape; else on a handle of the selection, the first one there,
/// of that handle; else inside the selection of the selection; else it starts a new selection,
/// for which what is drawn goes if there was another one. The selection itself stays as it is.
pub proof fn law_press_with_the_selection_tool(
    p: PassView,
    press: Press,
    shapes: Seq<ShapeView>,
    frame: FrameView,
    h: usize,
)
    requires
        p.tool == Tool::Select,
        press.probes@.len() == shapes.len() <= usize::MAX,
    ensures
        ({
            let q = p.pressed(press, shapes, frame);
            let started = PassView { drag_start: Some(press.at), ..p };
            let on_shape = exists|j: int|
                0 <= j < shapes.len() && touched(#[trigger] shapes[j], press.probes@[j]);
            &&& on_shape ==> {
                &&& q.moving_shape is Some
                &&& ({
                    let (i, held) = q.moving_shape->Some_0;
                    &&& i < shapes.len()
                    &&& held == shapes[i as int]
                    &&& touched(shapes[i as int], press.probes@[i as int])
                    &&& forall|j: int|
                        i < j < shapes.len() ==> !touched(#[trigger] shapes[j], press.probes@[j])
                    &&& q == PassView { moving_shape: Some((i, held)), sel_mode: None, ..started }
                })
            }
            &&& !on_shape && p.selection is None ==> q == PassView {
                sel_mode: Some(SelMode::New),
                ..started
            }
            &&& !on_shape && p.selection is Some ==> {
                let sel = p.selection->Some_0;
                &&& is_first(press.near@, h as int) ==> q == PassView {
                    sel_mode: Some(SelMode::Resize(h)),
                    sel_ref: sel,
                    ..started
                }
                &&& none_set(press.near@) && sel.has(press.at) ==> q == PassView {
                    sel_mode: Some(SelMode::Move),
                    sel_ref: sel,
                    ..started
                }
                &&& none_set(press.near@) && !sel.has(press.at) ==> q == PassView {
                    sel_mode: Some(SelMode::New),
                    clear_scene: true,
                    ..started
                }
            }
        }),
{
    law_hit_is_topmost(shapes, press.probes@);
    lemma_first_is_found(press, h);
}

/// While the selection is being moved, it is where it was moved to; while a new one is being
/// made, it lies between where the pointer went down and where it is. Without a press before,
/// and where the pointer took hold of nothing, nothing changes. Nothing but the selection does.
pub proof fn law_drag_with_the_selection_tool(p: PassView, drag: Drag, frame: FrameView)
    requires
        p.tool == Tool::Select,
        p.moving_shape is None,
    ensures
        ({
            let q = p.dragged(drag, frame);
            &&& q == PassView { selection: q.selection, ..p }
            &&& p.drag_start is None || p.sel_mode is None ==> q == p
            &&& p.drag_start is Some && p.sel_mode == Some(SelMode::Move) ==> q.selection == Some(
                drag.shifted,
            )
            &&& p.drag_start is Some && p.sel_mode == Some(SelMode::New) ==> {
                let start = p.drag_start->Some_0;
                &&& q.selection is Some
                &&& ({
                    let r = q.selection->Some_0;
                    &&& are_sorted(r.min.x, r.max.x, start.x, drag.at.x)
                    &&& are_sorted(r.min.y, r.max.y, start.y, drag.at.y)
                })
            }
            &&& p.sel_mode is Some && p.sel_mode->Some_0 is Resize && !is_large(drag.size) ==> q
                == p
        }),
{
}

/// A shape that the pointer holds is to be put where the pointer moved its points, the shape that
/// was taken hold of and no other, and the selection stays.
pub proof fn law_drag_moves_the_held_shape(
    p: PassView,
    drag: Drag,
    frame: FrameView,
    i: usize,
    held: ShapeView,
)
    requires
        p.tool == Tool::Select,
        p.drag_start is Some,
        p.moving_shape == Some((i, held)),
        drag.moved@.len() == anchors(held).len(),
    ensures
        ({
            let q = p.dragged(drag, frame);
            &&& q == PassView { move_apply: q.move_apply, ..p }
            &&& q.move_apply is Some
            &&& q.move_apply->Some_0.0 == i
            &&& q.move_apply->Some_0.1 == placed_by(held, drag.moved@)
            &&& anchors(q.move_apply->Some_0.1) == drag.moved@
        }),
{
    law_translated_to_anchors(held, drag.moved@);
}

/// The color in which a free-hand tool draws.
pub open spec fn stroke_color(p: PassView) -> Color {
    if p.tool == Tool::Marker {
        marker_tint(p.color)
    } else {
        p.color
    }
}

/// The width with which a free-hand tool draws: the marker's is 16.
pub open spec fn stroke_width(p: PassView) -> Coord {
    if p.tool == Tool::Marker {
        Coord { bits: 0x4180_0000 }
    } else {
        p.stroke_width
    }
}

/// A stroke of the pen or the marker goes through every place where the pointer has been since it
/// went down, in order.
pub proof fn law_free_hand_stroke_keeps_every_point(
    p: PassView,
    press: Press,
    shapes: Seq<ShapeView>,
    drags: Seq<Drag>,
    frame: FrameView,
)
    requires
        p.tool == Tool::Pen || p.tool == Tool::Marker,
    ensures
        ({
            let q = dragged_all(p.pressed(press, shapes, frame), drags, frame);
            &&& q.draft is Some
            &&& q.draft->Some_0 is Pen
            &&& ({
                let points = q.draft->Some_0->Pen_points;
                &&& points.len() == drags.len() + 1
                &&& points[0] == press.at
                &&& forall|i: int| 0 <= i < drags.len() ==> points[i + 1] == (#[trigger] drags[i]).at
            })
            &&& q.draft->Some_0->Pen_color == stroke_color(p)
            &&& q.draft->Some_0->Pen_width == stroke_width(p)
            &&& q == PassView { draft: q.draft, draft_start: Some(press.at), ..p }
        }),
    decreases drags.len(),
{
    if drags.len() > 0 {
        let init = drags.drop_last();
        law_free_hand_stroke_keeps_every_point(p, press, shapes, init, frame);
        let q = dragged_all(p.pressed(press, shapes, frame), init, frame);
        let r = dragged_all(p.pressed(press, shapes, frame), drags, frame);
        assert(r == q.dragged(drags.last(), frame));
        let before = q.draft->Some_0->Pen_points;
        let after = r.draft->Some_0->Pen_points;
        assert(after == before.push(drags.last().at));
        assert forall|i: int| 0 <= i < drags.len() implies after[i + 1] == (#[trigger] drags[i]).at by {
            if i < init.len() {
                assert(init[i] == drags[i]);
                assert(after[i + 1] == before[i + 1]);
            }
        }
    }
}

/// Each movement of the pointer adds one point to a free-hand stroke, at its end, and keeps those
/// before it.
pub proof fn law_free_hand_drag_appends_a_point(
    p: PassView,
    drag: Drag,
    frame: FrameView,
    points: Seq<Pos>,
    color: Color,
    width: Coord,
)
    requires
        p.tool == Tool::Pen || p.tool == Tool::Marker,
        p.draft == Some(ShapeView::Pen { points, color, width }),
    ensures
        ({
            let q = p.dragged(drag, frame);
            &&& q == PassView { draft: q.draft, ..p }
            &&& q.draft is Some
            &&& q.draft->Some_0 is Pen
            &&& q.draft->Some_0->Pen_color == color
            &&& q.draft->Some_0->Pen_width == width
            &&& q.draft->Some_0->Pen_points.len() == points.len() + 1
            &&& q.draft->Some_0->Pen_points[points.len() as int] == drag.at
            &&& forall|i: int|
                0 <= i < points.len() ==> #[trigger] q.draft->Some_0->Pen_points[i] == points[i]
        }),
{
}

/// Drawing a straight shape changes only the shape that is being drawn.
proof fn lemma_straight_drags_keep(p: PassView, drags: Seq<Drag>, frame: FrameView)
    requires
        p.tool == Tool::Rect || p.tool == Tool::Line || p.tool == Tool::Arrow,
    ensures
        ({
            let q = dragged_all(p, drags, frame);
            q == PassView { draft: q.draft, ..p }
        }),
    decreases drags.len(),
{
    if drags.len() > 0 {
        lemma_straight_drags_keep(p, drags.drop_last(), frame);
    }
}

/// A straight shape goes from where the pointer went down to where it is, whatever way it took,
/// and has the color and the width that are chosen. A line and an arrow lead to the pointer; a
/// rectangle has the two places as opposite corners.
pub proof fn law_straight_shape_follows_the_pointer(
    p: PassView,
    press: Press,
    shapes: Seq<ShapeView>,
    drags: Seq<Drag>,
    frame: FrameView,
)
    requires
        p.tool == Tool::Rect || p.tool == Tool::Line || p.tool == Tool::Arrow,
        drags.len() > 0,
    ensures
        ({
            let q = dragged_all(p.pressed(press, shapes, frame), drags, frame);
            let at = drags.last().at;
            &&& q == PassView { draft: q.draft, draft_start: Some(press.at), ..p }
            &&& match q.draft {
                Some(ShapeView::Line { from, to, color, width }) => {
                    &&& p.tool == Tool::Line
                    &&& from == press.at
                    &&& to == at
                    &&& color == p.color
                    &&& width == p.stroke_width
                },
                Some(ShapeView::Arrow { from, to, color, width }) => {
                    &&& p.tool == Tool::Arrow
                    &&& from == press.at
                    &&& to == at
                    &&& color == p.color
                    &&& width == p.stroke_width
                },
                Some(ShapeView::Rect { rect, color, width }) => {
                    &&& p.tool == Tool::Rect
                    &&& are_sorted(rect.min.x, rect.max.x, press.at.x, at.x)
                    &&& are_sorted(rect.min.y, rect.max.y, press.at.y, at.y)
                    &&& color == p.color
                    &&& width == p.stroke_width
                },
                _ => false,
            }
        }),
{
    let q = p.pressed(press, shapes, frame);
    lemma_straight_drags_keep(q, drags.drop_last(), frame);
    let before = dragged_all(q, drags.drop_last(), frame);
    assert(dragged_all(q, drags, frame) == before.dragged(drags.last(), frame));
}

/// The pixelating brush starts with the cells that it reaches where the pointer goes down, and
/// adds those that it reaches where the pointer moves. Its cells are 16 pixels wide and high.
pub proof fn law_pixelating_brush_collects_cells(
    p: PassView,
    press: Press,
    shapes: Seq<ShapeView>,
    drag: Drag,
    frame: FrameView,
    cell: Coord,
    cells: Seq<(u32, u32, Color)>,
)
    requires
        p.tool == Tool::Blur,
    ensures
        p.pressed(press, shapes, frame) == (PassView {
            draft: Some(
                ShapeView::Blur {
                    cell: Coord { bits: 0x4180_0000 },
                    cells: brushed(
                        Seq::empty(),
                        frame.rgba,
                        frame.width as int,
                        frame.height as int,
                        press.brush,
                        press.brush.rows@.len() as int,
                    ),
                },
            ),
            draft_start: Some(press.at),
            ..p
        }),
        p.draft == Some(ShapeView::Blur { cell, cells }) ==> p.dragged(drag, frame) == (PassView {
            draft: Some(
                ShapeView::Blur {
                    cell,
                    cells: brushed(
                        cells,
                        frame.rgba,
                        frame.width as int,
                        frame.height as int,
                        drag.brush,
                        drag.brush.rows@.len() as int,
                    ),
                },
            ),
            ..p
        }),
{
}

/// With the text tool the pointer draws nothing; a click starts a text where it is, and with the
/// other tools it starts none.
pub proof fn law_only_the_text_tool_starts_texts(
    p: PassView,
    press: Press,
    shapes: Seq<ShapeView>,
    drag: Drag,
    frame: FrameView,
    size: Size,
    at: Pos,
)
    ensures
        p.tool == Tool::Text ==> {
            &&& p.pressed(press, shapes, frame) == p
            &&& p.dragged(drag, frame) == p
            &&& p.released(size) == p
            &&& p.clicked(at) == (PassView { start_text: Some(at), ..p })
        },
        p.tool != Tool::Text ==> p.clicked(at) == p,
{
}

/// When the pointer goes up, a drawing tool has finished just the shape that was being drawn, and
/// the selection tool lets go of what it held; only a new selection that is less than five wide
/// or high goes.
pub proof fn law_release_lets_go(p: PassView, size: Size)
    ensures
        p.tool != Tool::Select && p.tool != Tool::Text ==> p.released(size) == (PassView {
            committed: p.draft,
            draft: None,
            draft_start: None,
            ..p
        }),
        p.tool == Tool::Select ==> {
            let q = p.released(size);
            let five = Coord { bits: 0x40a0_0000 };
            &&& q == PassView {
                selection: q.selection,
                sel_mode: None,
                moving_shape: None,
                ..p
            }
            &&& p.sel_mode == Some(SelMode::New) && (size.w.below(five) || size.h.below(five))
                ==> q.selection is None
            &&& p.sel_mode != Some(SelMode::New) || (five.at_most(size.w) && five.at_most(size.h))
                ==> q.selection == p.selection
        },
{
}

/// A pass starts from the overlay's state, and with nothing decided.
pub proof fn law_pass_starts_from_the_state(a: OverlayView)
    ensures
        a.pass().selection == a.selection,
        a.pass().drag_start == a.drag_start,
        a.pass().tool == a.tool,
        a.pass().color == a.color,
        a.pass().stroke_width == a.stroke_width,
        a.pass().draft == a.draft,
        a.pass().draft_start == a.draft_start,
        a.pass().sel_mode == a.sel_mode,
        a.pass().sel_ref == a.sel_ref,
        a.pass().moving_shape == a.move_shape,
        a.text_edit is Some ==> a.pass().text_buf == Some(a.text_edit->Some_0.buf),
        a.text_edit is None ==> a.pass().text_buf is None,
        a.pass().committed is None,
        a.pass().action is None,
        a.pass().move_apply is None,
        a.pass().start_text is None,
        a.pass().owner_text_sel is None,
        !a.pass().clear_scene,
        !a.pass().text_lost_focus,
{
}

/// What a pass decided about the selection, the drag, the tool and the color holds after it; the
/// stroke width stays. A button that was pressed is to be done, and one that was pressed before
/// stays to be done where none was.
pub proof fn law_pass_is_put_back(a: OverlayView, p: PassView, region: Rect, text_pos: Pos)
    ensures
        ({
            let b = a.after(p, region, text_pos);
            &&& b.selection == p.selection
            &&& b.drag_start == p.drag_start
            &&& b.tool == p.tool
            &&& b.color == p.color
            &&& b.stroke_width == a.stroke_width
            &&& b.draft == p.draft
            &&& b.draft_start == p.draft_start
            &&& b.sel_mode == p.sel_mode
            &&& b.sel_ref == p.sel_ref
            &&& b.move_shape == p.moving_shape
            &&& b.pending == if p.action is Some {
                p.action
            } else {
                a.pending
            }
        }),
{
}

/// What is typed in the text after a pass: what the pass typed, else what was typed before.
pub open spec fn typed(a: OverlayView, p: PassView) -> Seq<char> {
    match p.text_buf {
        Some(buf) => buf,
        None => a.text_edit->Some_0.buf,
    }
}

/// The pass ends the text: another tool was chosen, the text lost the keyboard, or a new text
/// starts.
pub open spec fn ends_text(p: PassView) -> bool {
    p.tool != Tool::Text || p.text_lost_focus || p.start_text is Some
}

/// The shapes after a pass: those from before, with only the moved one replaced, or none of them
/// where everything goes; above them the text that ended, unless it is blank, at the place, in
/// the color and in the size in which it was typed; and above that the shape that was finished.
pub proof fn law_shapes_after_a_pass(a: OverlayView, p: PassView, region: Rect, text_pos: Pos)
    ensures
        ({
            let b = a.after(p, region, text_pos);
            let n = a.scene.shapes.len() as int;
            let ended = a.text_edit is Some && trimmed(typed(a, p)).len() > 0 && ends_text(p);
            let kept = if p.clear_scene {
                0
            } else {
                n
            };
            let texts = if ended && !p.clear_scene {
                1int
            } else {
                0
            };
            let drawn = if p.committed is Some {
                1int
            } else {
                0
            };
            &&& b.scene.shapes.len() == kept + texts + drawn
            &&& !p.clear_scene ==> forall|j: int|
                0 <= j < n && !(p.move_apply is Some && p.move_apply->Some_0.0 == j)
                    ==> #[trigger] b.scene.shapes[j] == a.scene.shapes[j]
            &&& !p.clear_scene && p.move_apply is Some && p.move_apply->Some_0.0 < n
                ==> b.scene.shapes[p.move_apply->Some_0.0 as int] == p.move_apply->Some_0.1
            &&& ended && !p.clear_scene ==> b.scene.shapes[n] == (ShapeView::Text {
                pos: text_pos,
                text: typed(a, p),
                color: a.text_edit->Some_0.color,
                size: a.text_edit->Some_0.size,
            })
            &&& p.committed is Some ==> b.scene.shapes[kept + texts] == p.committed->Some_0
        }),
{
}

/// The text after a pass: a new one starts empty, in the chosen color and in size 24; one that
/// ended, or that went with everything else, is gone; else it is the one from before, where it
/// was moved to and as it was typed on.
pub proof fn law_text_after_a_pass(a: OverlayView, p: PassView, region: Rect, text_pos: Pos)
    ensures
        ({
            let b = a.after(p, region, text_pos);
            &&& p.start_text is Some ==> b.text_edit == Some(
                TextDraftView {
                    pos: p.start_text->Some_0,
                    buf: Seq::empty(),
                    color: p.color,
                    size: Coord { bits: 0x41c0_0000 },
                },
            )
            &&& p.start_text is None && (a.text_edit is None || p.clear_scene || ends_text(p))
                ==> b.text_edit is None
            &&& p.start_text is None && a.text_edit is Some && !p.clear_scene && !ends_text(p)
                ==> b.text_edit == Some(
                TextDraftView {
                    pos: text_pos,
                    buf: typed(a, p),
                    color: a.text_edit->Some_0.color,
                    size: a.text_edit->Some_0.size,
                },
            )
            &&& b.text_edit is None ==> b.text_sel is None
            &&& b.text_edit is Some ==> b.text_sel == if region.has(b.text_edit->Some_0.pos) {
                p.owner_text_sel
            } else {
                a.text_sel
            }
        }),
{
}

/// The steps of the history that a pass makes: each added shape is one, and so is the start of a
/// move, which remembers the shapes as they were. A pass that adds none and starts no move leaves
/// the history as it is, and where everything goes the history goes too.
pub proof fn law_history_after_a_pass(a: OverlayView, p: PassView, region: Rect, text_pos: Pos)
    ensures
        ({
            let b = a.after(p, region, text_pos);
            let ended = a.text_edit is Some && trimmed(typed(a, p)).len() > 0 && ends_text(p);
            let n = b.scene.shapes.len() as int;
            &&& p.committed is Some || (ended && !p.clear_scene)
                ==> b.scene.undone().shapes == b.scene.shapes.take(n - 1) && b.scene.redo.len() == 0
            &&& p.committed is None && p.clear_scene ==> b.scene.undo.len() == 0
                && b.scene.redo.len() == 0
            &&& p.committed is None && !ended && !p.clear_scene && p.moving_shape is Some
                && a.move_shape is None ==> b.scene.undone().shapes == a.scene.shapes
                && b.scene.redo.len() == 0
            &&& p.committed is None && !ended && !p.clear_scene && (p.moving_shape is None
                || a.move_shape is Some) ==> b.scene.undo == a.scene.undo && b.scene.redo
                == a.scene.redo
        }),
{
    let b = a.after(p, region, text_pos);
    let n = b.scene.shapes.len() as int;
    let ended = a.text_edit is Some && trimmed(typed(a, p)).len() > 0 && ends_text(p);
    if p.committed is Some || (ended && !p.clear_scene) {
        assert(b.scene.undone().shapes =~= b.scene.shapes.take(n - 1));
    }
}

/// Picking a shape and moving it puts that shape, with its looks, at its moved points and leaves
/// all others as they were; undoing puts it back.
pub proof fn law_picked_shape_moves_alone(
    a: OverlayView,
    press: Press,
    drag: Drag,
    frame: FrameView,
    region: Rect,
    text_pos: Pos,
    i: usize,
)
    requires
        a.tool == Tool::Select,
        a.text_edit is None,
        a.move_shape is None,
        press.probes@.len() == a.scene.shapes.len() <= usize::MAX,
        topmost(a.scene.shapes, press.probes@) == Some(i),
        drag.moved@.len() == anchors(a.scene.shapes[i as int]).len(),
    ensures
        ({
            let b = a.after(a.pass().pressed(press, a.scene.shapes, frame), region, text_pos);
            let c = b.after(b.pass().dragged(drag, frame), region, text_pos);
            &&& i < a.scene.shapes.len()
            &&& b.scene.shapes == a.scene.shapes
            &&& c.scene.shapes.len() == a.scene.shapes.len()
            &&& anchors(c.scene.shapes[i as int]) == drag.moved@
            &&& c.scene.shapes[i as int] == placed_by(a.scene.shapes[i as int], drag.moved@)
            &&& forall|j: int|
                0 <= j < a.scene.shapes.len() && j != i ==> #[trigger] c.scene.shapes[j]
                    == a.scene.shapes[j]
            &&& c.scene.undone().shapes == a.scene.shapes
            &&& c.selection == a.selection
        }),
{
    law_hit_is_topmost(a.scene.shapes, press.probes@);
    law_translated_to_anchors(a.scene.shapes[i as int], drag.moved@);
}

/// A shape drawn with a free-hand tool, from the pointer's going down to its going up, becomes
/// the topmost shape, with all of its points, and the others stay.
pub proof fn law_drawn_stroke_becomes_a_shape(
    a: OverlayView,
    press: Press,
    drags: Seq<Drag>,
    frame: FrameView,
    size: Size,
    region: Rect,
    text_pos: Pos,
)
    requires
        a.tool == Tool::Pen || a.tool == Tool::Marker,
        a.text_edit is None,
    ensures
        ({
            let p = dragged_all(a.pass().pressed(press, a.scene.shapes, frame), drags, frame);
            let b = a.after(p.released(size), region, text_pos);
            let n = a.scene.shapes.len() as int;
            &&& b.scene.shapes.len() == n + 1
            &&& forall|j: int| 0 <= j < n ==> #[trigger] b.scene.shapes[j] == a.scene.shapes[j]
            &&& b.scene.shapes[n] is Pen
            &&& ({
                let points = b.scene.shapes[n]->Pen_points;
                &&& points.len() == drags.len() + 1
                &&& points[0] == press.at
                &&& forall|i: int| 0 <= i < drags.len() ==> points[i + 1] == (#[trigger] drags[i]).at
            })
            &&& b.draft is None
        }),
{
    law_free_hand_stroke_keeps_every_point(a.pass(), press, a.scene.shapes, drags, frame);
}

/// A text that ends becomes the topmost shape, where, in which color and in which size it was
/// typed; the other shapes stay, and a blank one leaves none.
pub proof fn law_ended_text_becomes_a_shape(a: OverlayView)
    requires
        a.text_edit is Some,
    ensures
        ({
            let d = a.text_edit->Some_0;
            let b = a.text_committed();
            let n = a.scene.shapes.len() as int;
            &&& b == OverlayView { text_edit: None, scene: b.scene, ..a }
            &&& trimmed(d.buf).len() == 0 ==> b.scene == a.scene
            &&& trimmed(d.buf).len() > 0 ==> {
                &&& b.scene.shapes.len() == n + 1
                &&& b.scene.shapes[n] == (ShapeView::Text {
                    pos: d.pos,
                    text: d.buf,
                    color: d.color,
                    size: d.size,
                })
                &&& forall|j: int| 0 <= j < n ==> #[trigger] b.scene.shapes[j] == a.scene.shapes[j]
            }
        }),
{
}

/// A new overlay has the selection tool, a stroke width of three, a red color and nothing drawn,
/// typed or asked for. It keeps the selection of the last time exactly if that lies in the frame.
pub proof fn law_new_overlay(restored: Option<Rect>, frame: Size)
    ensures
        ({
            let a = OverlayView::fresh(restored, frame);
            let zero = Coord { bits: 0 };
            &&& a.tool == Tool::Select
            &&& a.color == (Color { r: 255, g: 60, b: 60, a: 255 })
            &&& a.stroke_width == (Coord { bits: 0x4040_0000 })
            &&& a.scene.shapes.len() == 0
            &&& a.scene.undo.len() == 0
            &&& a.scene.redo.len() == 0
            &&& a.drag_start is None
            &&& a.draft is None
            &&& a.draft_start is None
            &&& a.pending is None
            &&& a.sel_mode is None
            &&& a.text_edit is None
            &&& a.move_shape is None
            &&& a.text_sel is None
            &&& restored is None ==> a.selection is None
            &&& restored is Some ==> {
                let r = restored->Some_0;
                let inside = zero.at_most(r.min.x) && zero.at_most(r.min.y) && r.max.x.at_most(
                    frame.w,
                ) && r.max.y.at_most(frame.h);
                &&& inside ==> a.selection == restored
                &&& !inside ==> a.selection is None
            }
        }),
{
}

/// What the keys do where no text is being typed. Without Ctrl the letters choose the tools: S
/// and V selecting, R the rectangle, A the arrow, L the line, P the pen, M the marker, T the
/// text, X and B pixelating. With Ctrl, Z undoes, Z with Shift and Y redo. Nothing else changes
/// the overlay.
pub proof fn law_keys_choose_tools_and_steps(a: OverlayView, key: Key, ctrl: bool, shift: bool)
    requires
        a.text_edit is None,
    ensures
        ({
            let b = a.keyed(key, ctrl, shift);
            &&& match key {
                Key::S | Key::V => !ctrl ==> b == OverlayView { tool: Tool::Select, ..a },
                Key::R => !ctrl ==> b == OverlayView { tool: Tool::Rect, ..a },
                Key::A => !ctrl ==> b == OverlayView { tool: Tool::Arrow, ..a },
                Key::L => !ctrl ==> b == OverlayView { tool: Tool::Line, ..a },
                Key::P => !ctrl ==> b == OverlayView { tool: Tool::Pen, ..a },
                Key::M => !ctrl ==> b == OverlayView { tool: Tool::Marker, ..a },
                Key::T => !ctrl ==> b == OverlayView { tool: Tool::Text, ..a },
                Key::X | Key::B => !ctrl ==> b == OverlayView { tool: Tool::Blur, ..a },
                Key::Escape | Key::Enter | Key::C | Key::Y | Key::Z | Key::Other => !ctrl ==> b
                    == a,
            }
            &&& ctrl && key != Key::Z && key != Key::Y ==> b == a
            &&& ctrl && key == Key::Z && !shift ==> b == OverlayView {
                scene: a.scene.undone(),
                ..a
            }
            &&& ctrl && key == Key::Z && shift ==> b == OverlayView {
                scene: a.scene.redone(),
                ..a
            }
            &&& ctrl && key == Key::Y ==> b == OverlayView { scene: a.scene.redone(), ..a }
        }),
{
}

/// What follows from the keys: Escape cancels; Enter, and C with Ctrl, finish; the keys that
/// change the overlay have it drawn anew; all others do nothing.
pub proof fn law_effects_of_the_keys(key: Key, ctrl: bool, shift: bool)
    ensures
        match key {
            Key::Escape => key_effect(key, ctrl, shift) is Cancel,
            Key::Enter => key_effect(key, ctrl, shift) is Finish,
            Key::C => key_effect(key, ctrl, shift) == if ctrl {
                Effect::Finish
            } else {
                Effect::Nothing
            },
            Key::Y | Key::Z => key_effect(key, ctrl, shift) == if ctrl {
                Effect::Redraw
            } else {
                Effect::Nothing
            },
            Key::Other => key_effect(key, ctrl, shift) is Nothing,
            _ => key_effect(key, ctrl, shift) == if ctrl {
                Effect::Nothing
            } else {
                Effect::Redraw
            },
        },
{
}

/// The cursor over a handle points both ways in which the handle moves: it is the same over
/// opposite handles and another one over neighbors.
pub proof fn law_cursor_points_along_the_handle(h: usize)
    ensures
        h == 0 || h == 4 ==> cursor_over(h) is ResizeNwSe,
        h == 1 || h == 5 ==> cursor_over(h) is ResizeVertical,
        h == 2 || h == 6 ==> cursor_over(h) is ResizeNeSw,
        h == 3 || h == 7 ==> cursor_over(h) is ResizeHorizontal,
        h > 7 ==> cursor_over(h) is Default,
{
}

/// The cursor of the selection tool tells what a press would take hold of, or what is held: that
/// of a handle while it is held or the pointer is near it, a fist while the selection is held,
/// arrows inside the selection, and a cross elsewhere and where nothing is selected.
pub proof fn law_cursor_of_the_selection_tool(p: PassView, hover: Hover, h: usize)
    requires
        p.tool == Tool::Select,
    ensures
        ({
            let c = p.cursor_icon(hover);
            let idle = p.sel_mode is None || p.sel_mode == Some(SelMode::New);
            &&& p.selection is None ==> c is Crosshair
            &&& p.selection is Some && p.sel_mode == Some(SelMode::Resize(h)) ==> c
                == cursor_over(h)
            &&& p.selection is Some && p.sel_mode == Some(SelMode::Move) ==> c is Grabbing
            &&& p.selection is Some && idle && hover.at is None ==> c is Crosshair
            &&& p.selection is Some && idle && hover.at is Some ==> {
                &&& is_first(hover.near@, h as int) ==> c == cursor_over(h)
                &&& none_set(hover.near@) && hover.selection.has(hover.at->Some_0) ==> c is Move
                &&& none_set(hover.near@) && !hover.selection.has(hover.at->Some_0) ==> c
                    is Crosshair
            }
        }),
{
    let near = hover.near@;
    assert(hover.near.len() == near.len());
    law_first_handle_is_hit(near);
    if is_first(near, h as int) {
        let found = first_set(near, near.len() as int);
        assert(near[h as int]);
        assert(found is Some);
        let g = found->Some_0;
        assert(!(g < h));
        assert(!(h < g));
    }
}

/// The cursors of the other tools: that of a text, a cross for rectangles and arrows, and none
/// for the tools with a ring while the pointer is on the canvas.
pub proof fn law_cursor_of_the_other_tools(p: PassView, hover: Hover)
    ensures
        p.tool == Tool::Text ==> p.cursor_icon(hover) is Text,
        p.tool == Tool::Rect || p.tool == Tool::Arrow ==> p.cursor_icon(hover) is Crosshair,
        p.tool == Tool::Pen || p.tool == Tool::Line || p.tool == Tool::Marker || p.tool
            == Tool::Blur ==> p.cursor_icon(hover) == if hover.active {
            Cursor::Hidden
        } else {
            Cursor::Crosshair
        },
{
}

/// The ring of the pen and of the line is half the stroke wide but not less than five, that of
/// the marker eight and that of the pixelating brush 16; no other tool has one.
pub proof fn law_rings_show_what_is_drawn(tool: Tool, half_stroke: Coord)
    ensures
        match tool {
            Tool::Pen | Tool::Line => {
                let five = Coord { bits: 0x40a0_0000 };
                let ring = ring_of(tool, half_stroke);
                &&& half_stroke.below(five) || half_stroke.is_nan() ==> ring == Some(five)
                &&& five.at_most(half_stroke) ==> ring == Some(half_stroke)
            },
            Tool::Marker => ring_of(tool, half_stroke) == Some(Coord { bits: 0x4100_0000 }),
            Tool::Blur => ring_of(tool, half_stroke) == Some(Coord { bits: 0x4180_0000 }),
            Tool::Select | Tool::Text | Tool::Rect | Tool::Arrow => ring_of(tool, half_stroke)
                is None,
        },
{
}

/// Every tool has one button, the pen the first one and selecting the last one.
pub proof fn law_every_tool_has_a_button(tool: Tool)
    ensures
        button_order().len() == 8,
        exists|i: int| 0 <= i < 8 && #[trigger] button_order()[i] == tool,
        forall|i: int, j: int|
            0 <= i < j < 8 ==> #[trigger] button_order()[i] != #[trigger] button_order()[j],
        button_order()[0] == Tool::Pen,
        button_order()[1] == Tool::Line,
        button_order()[2] == Tool::Arrow,
        button_order()[3] == Tool::Rect,
        button_order()[4] == Tool::Marker,
        button_order()[5] == Tool::Text,
        button_order()[6] == Tool::Blur,
        button_order()[7] == Tool::Select,
{
    let order = button_order();
    assert(order[0] == Tool::Pen);
    assert(order[1] == Tool::Line);
    assert(order[2] == Tool::Arrow);
    assert(order[3] == Tool::Rect);
    assert(order[4] == Tool::Marker);
    assert(order[5] == Tool::Text);
    assert(order[6] == Tool::Blur);
    assert(order[7] == Tool::Select);
}

/// The description of a text is divided at its first two commas; the numbers before them are
/// read without the white space around them, and the text after them is kept as it is, with the
/// commas it holds. With fewer commas it is no description.
pub proof fn law_text_is_described_by_three_parts(x: Seq<char>, y: Seq<char>, text: Seq<char>)
    requires
        !x.contains(','),
        !y.contains(','),
    ensures
        text_parts(x + seq![','] + y + seq![','] + text) == Some((trimmed(x), trimmed(y), text)),
        text_parts(x + seq![','] + y) is None,
        text_parts(x) is None,
{
    let rest = y + seq![','] + text;
    assert(x + seq![','] + y + seq![','] + text =~= x + seq![','] + rest);
    law_first_separator_divides(x, rest, ',');
    law_first_separator_divides(y, text, ',');
    law_first_separator_divides(x, y, ',');
}

/// Each field is trimmed for itself and stays in its place.
pub proof fn law_fields_are_trimmed_one_by_one(parts: Seq<Seq<char>>, i: int)
    requires
        0 <= i < parts.len(),
    ensures
        trimmed_all(parts).len() == parts.len(),
        trimmed_all(parts)[i] == trimmed(parts[i]),
{
}

/// Several brushes one after the other: each adds its cells to those of the brushes before it.
pub proof fn law_brushes_add_up(frame: FrameView, brushes: Seq<Brush>, n: int)
    requires
        0 < n <= brushes.len(),
    ensures
        cells_under_all(frame, brushes, 0).len() == 0,
        cells_under_all(frame, brushes, n) == brushed(
            cells_under_all(frame, brushes, n - 1),
            frame.rgba,
            frame.width as int,
            frame.height as int,
            brushes[n - 1],
            brushes[n - 1].rows@.len() as int,
        ),
{
}

/// The brush can be used exactly if its columns and rows stand every 16 pixels and the frame has
/// four bytes for each pixel.
pub proof fn law_brush_needs_the_grid_and_the_pixels(brush: Brush, frame: FrameView)
    requires
        brush.well_formed(),
    ensures
        can_brush(brush, frame) <==> {
            &&& brush.side == 16
            &&& forall|i: int|
                0 <= i < brush.cols@.len() ==> #[trigger] brush.cols@[i] == (brush.gx0 + i) * 16
            &&& forall|j: int|
                0 <= j < brush.rows@.len() ==> #[trigger] brush.rows@[j] == (brush.gy0 + j) * 16
            &&& frame.width * frame.height * 4 <= frame.rgba.len()
        },
{
}

} // verus!
