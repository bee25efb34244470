//! Pixelation: the brush covers cells of a grid, each with the average color of its pixels.

use vstd::prelude::*;

use crate::bytes::{lemma_pixel_index_in_bounds, pixel_index};
use crate::color::{from_rgb, Color};

verus! {

/// The bit pattern of the side of a cell, 16 pixels.
pub const BLUR_CELL: u32 = 0x4180_0000;

/// The bit pattern of the radius of the brush, 16 pixels.
pub const BLUR_BRUSH: u32 = 0x4180_0000;

/// The sum of channel `ch` over the pixels of row `y` from column `x0` up to `x1`.
pub open spec fn row_sum(rgba: Seq<u8>, fw: int, y: int, x0: int, x1: int, ch: int) -> int
    decreases x1 - x0,
{
    if x1 <= x0 {
        0
    } else {
        row_sum(rgba, fw, y, x0, x1 - 1, ch) + rgba[pixel_index(fw, x1 - 1, y, ch)]
    }
}

/// The sum of channel `ch` over the pixels of the columns from `x0` up to `x1` and the rows
/// from `y0` up to `y1`.
pub open spec fn block_sum(
    rgba: Seq<u8>,
    fw: int,
    x0: int,
    x1: int,
    y0: int,
    y1: int,
    ch: int,
) -> int
    decreases y1 - y0,
{
    if y1 <= y0 {
        0
    } else {
        block_sum(rgba, fw, x0, x1, y0, y1 - 1, ch) + row_sum(rgba, fw, y1 - 1, x0, x1, ch)
    }
}

/// Where a cell ends that begins at `from`: after `side` pixels or at the frame's edge.
pub open spec fn clipped(from: int, side: int, limit: int) -> int {
    if from + side <= limit {
        from + side
    } else {
        limit
    }
}

/// The average of channel `ch` over the part of a square cell that lies in the frame, rounded
/// down; `x0` and `y0` are its upper left pixel.
pub open spec fn cell_mean(
    rgba: Seq<u8>,
    fw: int,
    fh: int,
    x0: int,
    y0: int,
    side: int,
    ch: int,
) -> int {
    let x1 = clipped(x0, side, fw);
    let y1 = clipped(y0, side, fh);
    block_sum(rgba, fw, x0, x1, y0, y1, ch) / ((x1 - x0) * (y1 - y0))
}

/// The color that stands for a square cell: the average of its pixels in the frame, or black
/// where it has none.
pub open spec fn cell_paint(
    rgba: Seq<u8>,
    fw: int,
    fh: int,
    x0: int,
    y0: int,
    side: int,
) -> Color {
    if clipped(x0, side, fw) <= x0 || clipped(y0, side, fh) <= y0 {
        Color { r: 0, g: 0, b: 0, a: 255 }
    } else {
        Color {
            r: cell_mean(rgba, fw, fh, x0, y0, side, 0) as u8,
            g: cell_mean(rgba, fw, fh, x0, y0, side, 1) as u8,
            b: cell_mean(rgba, fw, fh, x0, y0, side, 2) as u8,
            a: 255,
        }
    }
}

/// A row's sum is not negative and at most 255 per pixel.
proof fn lemma_row_sum_bounds(rgba: Seq<u8>, fw: int, y: int, x0: int, x1: int, ch: int)
    requires
        x0 <= x1,
    ensures
        0 <= row_sum(rgba, fw, y, x0, x1, ch) <= 255 * (x1 - x0),
    decreases x1 - x0,
{
    if x0 < x1 {
        lemma_row_sum_bounds(rgba, fw, y, x0, x1 - 1, ch);
    }
}

/// A block's sum is not negative and at most 255 per pixel.
proof fn lemma_block_sum_bounds(
    rgba: Seq<u8>,
    fw: int,
    x0: int,
    x1: int,
    y0: int,
    y1: int,
    ch: int,
)
    requires
        x0 <= x1,
        y0 <= y1,
    ensures
        0 <= block_sum(rgba, fw, x0, x1, y0, y1, ch) <= 255 * ((x1 - x0) * (y1 - y0)),
    decreases y1 - y0,
{
    if y0 < y1 {
        lemma_block_sum_bounds(rgba, fw, x0, x1, y0, y1 - 1, ch);
        lemma_row_sum_bounds(rgba, fw, y1 - 1, x0, x1, ch);
        assert((x1 - x0) * (y1 - y0) == (x1 - x0) * (y1 - 1 - y0) + (x1 - x0)) by (nonlinear_arith);
    } else {
        assert((x1 - x0) * (y1 - y0) == 0) by (nonlinear_arith)
            requires
                y1 == y0,
        ;
    }
}

/// A cell's average is a channel value.
pub proof fn law_cell_mean_is_a_channel_value(
    rgba: Seq<u8>,
    fw: int,
    fh: int,
    x0: int,
    y0: int,
    side: int,
    ch: int,
)
    requires
        x0 < clipped(x0, side, fw),
        y0 < clipped(y0, side, fh),
    ensures
        0 <= cell_mean(rgba, fw, fh, x0, y0, side, ch) <= 255,
{
    let x1 = clipped(x0, side, fw);
    let y1 = clipped(y0, side, fh);
    let n = (x1 - x0) * (y1 - y0);
    let sum = block_sum(rgba, fw, x0, x1, y0, y1, ch);
    lemma_block_sum_bounds(rgba, fw, x0, x1, y0, y1, ch);
    assert(n > 0) by (nonlinear_arith)
        requires
            n == (x1 - x0) * (y1 - y0),
            x1 - x0 > 0,
            y1 - y0 > 0,
    ;
    assert(0 <= sum / n <= 255) by (nonlinear_arith)
        requires
            0 <= sum <= 255 * n,
            n > 0,
    ;
}

proof fn lemma_uniform_row(rgba: Seq<u8>, fw: int, y: int, x0: int, x1: int, ch: int, v: u8)
    requires
        x0 <= x1,
        forall|x: int| x0 <= x < x1 ==> rgba[#[trigger] pixel_index(fw, x, y, ch)] == v,
    ensures
        row_sum(rgba, fw, y, x0, x1, ch) == v * (x1 - x0),
    decreases x1 - x0,
{
    if x0 < x1 {
        lemma_uniform_row(rgba, fw, y, x0, x1 - 1, ch, v);
        assert(rgba[pixel_index(fw, x1 - 1, y, ch)] == v);
        assert(v * (x1 - x0) == v * (x1 - 1 - x0) + v) by (nonlinear_arith);
    } else {
        assert(v * (x1 - x0) == 0) by (nonlinear_arith)
            requires
                x1 == x0,
        ;
    }
}

proof fn lemma_uniform_block(
    rgba: Seq<u8>,
    fw: int,
    x0: int,
    x1: int,
    y0: int,
    y1: int,
    ch: int,
    v: u8,
)
    requires
        x0 <= x1,
        y0 <= y1,
        forall|x: int, y: int|
            x0 <= x < x1 && y0 <= y < y1 ==> rgba[#[trigger] pixel_index(fw, x, y, ch)] == v,
    ensures
        block_sum(rgba, fw, x0, x1, y0, y1, ch) == v * ((x1 - x0) * (y1 - y0)),
    decreases y1 - y0,
{
    if y0 < y1 {
        lemma_uniform_block(rgba, fw, x0, x1, y0, y1 - 1, ch, v);
        lemma_uniform_row(rgba, fw, y1 - 1, x0, x1, ch, v);
        assert(v * ((x1 - x0) * (y1 - y0)) == v * ((x1 - x0) * (y1 - 1 - y0)) + v * (x1 - x0))
            by (nonlinear_arith);
    } else {
        assert(v * ((x1 - x0) * (y1 - y0)) == 0) by (nonlinear_arith)
            requires
                y1 == y0,
        ;
    }
}

/// Where all pixels of a cell have the same channel value, their average is that value.
pub proof fn law_uniform_cell_keeps_its_value(
    rgba: Seq<u8>,
    fw: int,
    fh: int,
    x0: int,
    y0: int,
    side: int,
    ch: int,
    v: u8,
)
    requires
        x0 < clipped(x0, side, fw),
        y0 < clipped(y0, side, fh),
        forall|x: int, y: int|
            x0 <= x < clipped(x0, side, fw) && y0 <= y < clipped(y0, side, fh)
                ==> rgba[#[trigger] pixel_index(fw, x, y, ch)] == v,
    ensures
        cell_mean(rgba, fw, fh, x0, y0, side, ch) == v,
{
    let x1 = clipped(x0, side, fw);
    let y1 = clipped(y0, side, fh);
    let n = (x1 - x0) * (y1 - y0);
    lemma_uniform_block(rgba, fw, x0, x1, y0, y1, ch, v);
    assert(n > 0) by (nonlinear_arith)
        requires
            n == (x1 - x0) * (y1 - y0),
            x1 - x0 > 0,
            y1 - y0 > 0,
    ;
    assert(v * n / n == v) by (nonlinear_arith)
        requires
            n > 0,
    ;
}

/// The color that stands for the square cell of `side` pixels whose upper left pixel is
/// (`x0`, `y0`).
pub fn cell_color(rgba: &[u8], fw: u32, fh: u32, x0: u32, y0: u32, side: u32) -> (c: Color)
    requires
        rgba@.len() >= fw * fh * 4,
    ensures
        c == cell_paint(rgba@, fw as int, fh as int, x0 as int, y0 as int, side as int),
{
    let right: u64 = x0 as u64 + side as u64;
    let bottom: u64 = y0 as u64 + side as u64;
    let x1: u32 = if right <= fw as u64 {
        right as u32
    } else {
        fw
    };
    let y1: u32 = if bottom <= fh as u64 {
        bottom as u32
    } else {
        fh
    };
    if x1 <= x0 || y1 <= y0 {
        return from_rgb(0, 0, 0);
    }
    let ghost (w, h) = (fw as int, fh as int);
    let ghost (gx0, gx1, gy0, gy1) = (x0 as int, x1 as int, y0 as int, y1 as int);
    let total: usize = rgba.len();
    let width: usize = fw as usize;
    let mut r: u128 = 0;
    let mut g: u128 = 0;
    let mut b: u128 = 0;
    let mut y: u32 = y0;
    while y < y1
        invariant
            y0 <= y <= y1 <= fh,
            x0 < x1 <= fw,
            w == fw,
            h == fh,
            width == fw,
            gx0 == x0,
            gx1 == x1,
            gy0 == y0,
            total == rgba@.len(),
            total >= w * h * 4,
            r == block_sum(rgba@, w, gx0, gx1, gy0, y as int, 0),
            g == block_sum(rgba@, w, gx0, gx1, gy0, y as int, 1),
            b == block_sum(rgba@, w, gx0, gx1, gy0, y as int, 2),
            r <= 0xff_0000_0000 * (y - gy0),
            g <= 0xff_0000_0000 * (y - gy0),
            b <= 0xff_0000_0000 * (y - gy0),
        decreases y1 - y,
    {
        let ghost (r0, g0, b0) = (r as int, g as int, b as int);
        let mut x: u32 = x0;
        while x < x1
            invariant
                x0 <= x <= x1 <= fw,
                y0 <= y < y1 <= fh,
                w == fw,
                h == fh,
                width == fw,
                gx0 == x0,
                total == rgba@.len(),
                total >= w * h * 4,
                r == r0 + row_sum(rgba@, w, y as int, gx0, x as int, 0),
                g == g0 + row_sum(rgba@, w, y as int, gx0, x as int, 1),
                b == b0 + row_sum(rgba@, w, y as int, gx0, x as int, 2),
                0 <= r0 <= 0xff_0000_0000_0000_0000,
                0 <= g0 <= 0xff_0000_0000_0000_0000,
                0 <= b0 <= 0xff_0000_0000_0000_0000,
                r - r0 <= 255 * (x - gx0),
                g - g0 <= 255 * (x - gx0),
                b - b0 <= 255 * (x - gx0),
            decreases x1 - x,
        {
            proof {
                lemma_pixel_index_in_bounds(w, h, x as int, y as int, 0);
                lemma_pixel_index_in_bounds(w, h, x as int, y as int, 3);
                assert(0 <= y * width) by (nonlinear_arith)
                    requires
                        0 <= y,
                        0 <= width,
                ;
            }
            let i: usize = (y as usize * width + x as usize) * 4;
            assert(i == pixel_index(w, x as int, y as int, 0));
            r = r + rgba[i] as u128;
            g = g + rgba[i + 1] as u128;
            b = b + rgba[i + 2] as u128;
            x = x + 1;
        }
        y = y + 1;
    }
    assert(0 <= (x1 - x0) * (y1 - y0) <= u32::MAX * u32::MAX) by (nonlinear_arith)
        requires
            0 <= x1 - x0 <= u32::MAX,
            0 <= y1 - y0 <= u32::MAX,
    ;
    let n: u128 = (x1 - x0) as u128 * (y1 - y0) as u128;
    proof {
        assert(n > 0) by (nonlinear_arith)
            requires
                n == (x1 - x0) * (y1 - y0),
                x1 > x0,
                y1 > y0,
        ;
        law_cell_mean_is_a_channel_value(rgba@, w, h, gx0, gy0, side as int, 0);
        law_cell_mean_is_a_channel_value(rgba@, w, h, gx0, gy0, side as int, 1);
        law_cell_mean_is_a_channel_value(rgba@, w, h, gx0, gy0, side as int, 2);
    }
    from_rgb((r / n) as u8, (g / n) as u8, (b / n) as u8)
}

/// The side of the overlay's cells in whole pixels.
pub const BLUR_SIDE: u32 = 16;

/// A cell: its column, its row and its color.
pub type Cell = (u32, u32, Color);

/// `starts` are the first pixels of the cells from the `first` one on, in one direction, where
/// each is `side` pixels long.
pub open spec fn are_cell_starts(starts: Seq<u32>, first: u32, side: u32) -> bool {
    forall|i: int| 0 <= i < starts.len() ==> #[trigger] starts[i] == (first + i) * side
}

/// How many cells there are from `first` to `last`, both of them counted.
pub open spec fn cells_between(first: u32, last: u32) -> int {
    if first <= last {
        last - first + 1
    } else {
        0
    }
}

/// The part of the grid that the brush may reach, and which of its cells it does reach.
pub struct Brush {
    /// The first column.
    pub gx0: u32,
    /// The first row.
    pub gy0: u32,
    /// For each column, its leftmost pixel.
    pub cols: Vec<u32>,
    /// For each row, its topmost pixel.
    pub rows: Vec<u32>,
    /// For each cell, row by row, whether the brush reaches it.
    pub near: Vec<bool>,
    /// How many whole pixels wide and high a cell is.
    pub side: u32,
}

impl Brush {
    /// There is one flag per cell, and columns and rows can be numbered.
    pub open spec fn well_formed(self) -> bool {
        &&& self.near@.len() == self.rows@.len() * self.cols@.len()
        &&& self.gx0 + self.cols@.len() <= 0x1_0000_0000
        &&& self.gy0 + self.rows@.len() <= 0x1_0000_0000
    }

    /// The cells are `side` pixels wide and high and stand side by side, the first of them in the
    /// frame's corner.
    pub open spec fn on_grid(self, side: u32) -> bool {
        &&& self.side == side
        &&& are_cell_starts(self.cols@, self.gx0, side)
        &&& are_cell_starts(self.rows@, self.gy0, side)
    }

    /// The brush reaches the cell in the `i`-th column and the `j`-th row.
    pub open spec fn reaches(self, i: int, j: int) -> bool {
        self.near@[j * self.cols@.len() + i]
    }

    /// The cell in the `i`-th column and the `j`-th row, with the color of its pixels.
    pub open spec fn cell(self, rgba: Seq<u8>, fw: int, fh: int, i: int, j: int) -> Cell {
        (
            (self.gx0 + i) as u32,
            (self.gy0 + j) as u32,
            cell_paint(
                rgba,
                fw,
                fh,
                self.cols@[i] as int,
                self.rows@[j] as int,
                self.side as int,
            ),
        )
    }
}

/// The cell in column `gx` and row `gy` is among `cells`.
pub open spec fn has_cell(cells: Seq<Cell>, gx: int, gy: int) -> bool {
    exists|k: int| 0 <= k < cells.len() && (#[trigger] cells[k]).0 == gx && cells[k].1 == gy
}

/// No cell occurs twice.
pub open spec fn distinct_cells(cells: Seq<Cell>) -> bool {
    forall|k: int, l: int|
        0 <= k < l < cells.len() ==> (#[trigger] cells[k]).0 != (#[trigger] cells[l]).0
            || cells[k].1 != cells[l].1
}

/// `cells` after the brush has passed over the first `i` cells of the `j`-th row.
pub open spec fn brushed_row(
    cells: Seq<Cell>,
    rgba: Seq<u8>,
    fw: int,
    fh: int,
    b: Brush,
    i: int,
    j: int,
) -> Seq<Cell>
    decreases i,
{
    if i <= 0 {
        cells
    } else {
        let before = brushed_row(cells, rgba, fw, fh, b, i - 1, j);
        if b.reaches(i - 1, j) && !has_cell(before, b.gx0 + i - 1, b.gy0 + j) {
            before.push(b.cell(rgba, fw, fh, i - 1, j))
        } else {
            before
        }
    }
}

/// `cells` after the brush has passed over the first `j` rows: each cell that it reaches is
/// added, unless it is there already.
pub open spec fn brushed(
    cells: Seq<Cell>,
    rgba: Seq<u8>,
    fw: int,
    fh: int,
    b: Brush,
    j: int,
) -> Seq<Cell>
    decreases j,
{
    if j <= 0 {
        cells
    } else {
        brushed_row(
            brushed(cells, rgba, fw, fh, b, j - 1),
            rgba,
            fw,
            fh,
            b,
            b.cols@.len() as int,
            j - 1,
        )
    }
}

/// The last cell, in one direction, that the brush may reach: the one that it reaches at most,
/// or the last of the `count` cells of the frame.
pub fn last_cell(reached: u32, count: u32) -> (r: u32)
    ensures
        r == if count == 0 {
            0
        } else if reached < count {
            reached as int
        } else {
            count - 1
        },
{
    let last: u32 = count.saturating_sub(1);
    if reached < last {
        reached
    } else {
        last
    }
}

/// The first pixels of the cells from `first` to `last`.
fn starts(first: u32, last: u32, side: u32) -> (r: Vec<u32>)
    requires
        first <= last ==> last * side <= u32::MAX,
    ensures
        r@.len() == cells_between(first, last),
        are_cell_starts(r@, first, side),
{
    let mut r: Vec<u32> = Vec::new();
    if first > last {
        return r;
    }
    let mut n: u64 = first as u64;
    while n <= last as u64
        invariant
            first <= n <= last + 1,
            last * side <= u32::MAX,
            r@.len() == n - first,
            are_cell_starts(r@, first, side),
        decreases last + 1 - n,
    {
        assert(0 <= n * side <= last * side) by (nonlinear_arith)
            requires
                0 <= n <= last,
                0 <= side,
        ;
        r.push(n as u32 * side);
        n = n + 1;
    }
    r
}

/// The brush over the columns from `gx0` to `gx1` and the rows from `gy0` to `gy1` of a grid of
/// cells of `side` pixels; `near` tells, row by row, which of the cells it reaches.
pub fn grid_brush(gx0: u32, gx1: u32, gy0: u32, gy1: u32, side: u32, near: Vec<bool>) -> (r: Brush)
    requires
        near@.len() == cells_between(gy0, gy1) * cells_between(gx0, gx1),
        gx0 <= gx1 ==> gx1 * side <= u32::MAX,
        gy0 <= gy1 ==> gy1 * side <= u32::MAX,
    ensures
        r.well_formed(),
        r.on_grid(side),
        r.gx0 == gx0,
        r.gy0 == gy0,
        r.cols@.len() == cells_between(gx0, gx1),
        r.rows@.len() == cells_between(gy0, gy1),
        r.near@ == near@,
{
    Brush { gx0, gy0, cols: starts(gx0, gx1, side), rows: starts(gy0, gy1, side), near, side }
}

/// Whether the cell in column `gx` and row `gy` is among `cells`.
fn contains_cell(cells: &Vec<Cell>, gx: u32, gy: u32) -> (r: bool)
    ensures
        r == has_cell(cells@, gx as int, gy as int),
{
    let n: usize = cells.len();
    let mut k: usize = 0;
    while k < n
        invariant
            k <= n,
            n == cells@.len(),
            forall|l: int|
                0 <= l < k ==> !((#[trigger] cells@[l]).0 == gx && cells@[l].1 == gy),
        decreases n - k,
    {
        let c = &cells[k];
        if c.0 == gx && c.1 == gy {
            assert(cells@[k as int].0 == gx);
            return true;
        }
        k = k + 1;
    }
    false
}

/// Adds the cells that the brush reaches and that are not there yet, row by row.
pub fn add_brush_cells(cells: &mut Vec<Cell>, rgba: &[u8], fw: u32, fh: u32, brush: &Brush)
    requires
        brush.well_formed(),
        rgba@.len() >= fw * fh * 4,
    ensures
        final(cells)@ == brushed(
            old(cells)@,
            rgba@,
            fw as int,
            fh as int,
            *brush,
            brush.rows@.len() as int,
        ),
{
    let ghost start = cells@;
    let ghost (w, h) = (fw as int, fh as int);
    let columns: usize = brush.cols.len();
    let rows: usize = brush.rows.len();
    let flags: usize = brush.near.len();
    let mut j: usize = 0;
    while j < rows
        invariant
            j <= rows,
            brush.well_formed(),
            columns == brush.cols@.len(),
            rows == brush.rows@.len(),
            flags == brush.near@.len(),
            w == fw,
            h == fh,
            rgba@.len() >= fw * fh * 4,
            cells@ == brushed(start, rgba@, w, h, *brush, j as int),
        decreases rows - j,
    {
        let ghost row_start = cells@;
        let gy: u32 = (brush.gy0 as u64 + j as u64) as u32;
        let mut i: usize = 0;
        while i < columns
            invariant
                i <= columns,
                j < rows,
                brush.well_formed(),
                columns == brush.cols@.len(),
                rows == brush.rows@.len(),
                flags == brush.near@.len(),
                w == fw,
                h == fh,
                gy == brush.gy0 + j,
                rgba@.len() >= fw * fh * 4,
                cells@ == brushed_row(row_start, rgba@, w, h, *brush, i as int, j as int),
            decreases columns - i,
        {
            assert(0 <= j * columns && j * columns + i < rows * columns) by (nonlinear_arith)
                requires
                    0 <= j < rows,
                    0 <= i < columns,
            ;
            let gx: u32 = (brush.gx0 as u64 + i as u64) as u32;
            if brush.near[j * columns + i] && !contains_cell(cells, gx, gy) {
                let color = cell_color(rgba, fw, fh, brush.cols[i], brush.rows[j], brush.side);
                cells.push((gx, gy, color));
            }
            i = i + 1;
        }
        j = j + 1;
    }
}

/// What one row of the brush does: nothing is lost or moved, only reached cells of the row are
/// added, each with the color of its pixels, and every reached one is there in the end.
proof fn lemma_brushed_row(
    cells: Seq<Cell>,
    rgba: Seq<u8>,
    fw: int,
    fh: int,
    b: Brush,
    i: int,
    j: int,
)
    requires
        b.well_formed(),
        0 <= i <= b.cols@.len(),
        0 <= j < b.rows@.len(),
    ensures
        ({
            let after = brushed_row(cells, rgba, fw, fh, b, i, j);
            &&& cells.len() <= after.len()
            &&& after.take(cells.len() as int) == cells
            &&& distinct_cells(cells) ==> distinct_cells(after)
            &&& forall|i1: int|
                0 <= i1 < i && b.reaches(i1, j) ==> #[trigger] has_cell(
                    after,
                    b.gx0 + i1,
                    b.gy0 + j,
                )
            &&& forall|k: int|
                cells.len() <= k < after.len() ==> exists|i1: int|
                    0 <= i1 < i && b.reaches(i1, j) && #[trigger] after[k] == #[trigger] b.cell(
                        rgba,
                        fw,
                        fh,
                        i1,
                        j,
                    )
        }),
    decreases i,
{
    let after = brushed_row(cells, rgba, fw, fh, b, i, j);
    if i == 0 {
        assert(after.take(cells.len() as int) =~= cells);
    } else {
        lemma_brushed_row(cells, rgba, fw, fh, b, i - 1, j);
        let before = brushed_row(cells, rgba, fw, fh, b, i - 1, j);
        assert(after.take(cells.len() as int) =~= before.take(cells.len() as int));
        assert forall|i1: int| 0 <= i1 < i && b.reaches(i1, j) implies #[trigger] has_cell(
            after,
            b.gx0 + i1,
            b.gy0 + j,
        ) by {
            if i1 < i - 1 {
                assert(has_cell(before, b.gx0 + i1, b.gy0 + j));
                let k = choose|k: int|
                    0 <= k < before.len() && (#[trigger] before[k]).0 == b.gx0 + i1 && before[k].1
                        == b.gy0 + j;
                assert(after[k] == before[k]);
            } else if after.len() > before.len() {
                assert(after[after.len() - 1] == b.cell(rgba, fw, fh, i1, j));
                assert(after[after.len() - 1].0 == b.gx0 + i1);
            }
        }
        assert forall|k: int| cells.len() <= k < after.len() implies exists|i1: int|
            0 <= i1 < i && b.reaches(i1, j) && #[trigger] after[k] == #[trigger] b.cell(
                rgba,
                fw,
                fh,
                i1,
                j,
            ) by {
            if k < before.len() {
                assert(after[k] == before[k]);
                let i1 = choose|i1: int|
                    0 <= i1 < i - 1 && b.reaches(i1, j) && before[k] == #[trigger] b.cell(
                        rgba,
                        fw,
                        fh,
                        i1,
                        j,
                    );
                assert(after[k] == b.cell(rgba, fw, fh, i1, j));
            } else {
                assert(after[k] == b.cell(rgba, fw, fh, i - 1, j));
            }
        }
        if distinct_cells(cells) && after.len() > before.len() {
            assert forall|k: int, l: int| 0 <= k < l < after.len() implies (#[trigger] after[k]).0
                != (#[trigger] after[l]).0 || after[k].1 != after[l].1 by {
                assert(after[k] == before[k]);
                if l < before.len() {
                    assert(after[l] == before[l]);
                } else {
                    assert(after[l].0 == b.gx0 + i - 1);
                    assert(after[l].1 == b.gy0 + j);
                }
            }
        }
    }
}

/// What the brush has done after `j` rows.
proof fn lemma_brushed(cells: Seq<Cell>, rgba: Seq<u8>, fw: int, fh: int, b: Brush, j: int)
    requires
        b.well_formed(),
        0 <= j <= b.rows@.len(),
    ensures
        ({
            let after = brushed(cells, rgba, fw, fh, b, j);
            &&& cells.len() <= after.len()
            &&& after.take(cells.len() as int) == cells
            &&& distinct_cells(cells) ==> distinct_cells(after)
            &&& forall|i1: int, j1: int|
                0 <= i1 < b.cols@.len() && 0 <= j1 < j && b.reaches(i1, j1) ==> #[trigger] has_cell(
                    after,
                    b.gx0 + i1,
                    b.gy0 + j1,
                )
            &&& forall|k: int|
                cells.len() <= k < after.len() ==> exists|i1: int, j1: int|
                    0 <= i1 < b.cols@.len() && 0 <= j1 < j && b.reaches(i1, j1)
                        && #[trigger] after[k] == #[trigger] b.cell(rgba, fw, fh, i1, j1)
        }),
    decreases j,
{
    let after = brushed(cells, rgba, fw, fh, b, j);
    if j == 0 {
        assert(after.take(cells.len() as int) =~= cells);
    } else {
        lemma_brushed(cells, rgba, fw, fh, b, j - 1);
        let before = brushed(cells, rgba, fw, fh, b, j - 1);
        lemma_brushed_row(before, rgba, fw, fh, b, b.cols@.len() as int, j - 1);
        assert(after.take(before.len() as int).take(cells.len() as int) =~= after.take(
            cells.len() as int,
        ));
        assert forall|k: int| 0 <= k < before.len() implies after[k] == before[k] by {
            assert(after.take(before.len() as int)[k] == before[k]);
        }
        assert forall|i1: int, j1: int|
            0 <= i1 < b.cols@.len() && 0 <= j1 < j && b.reaches(i1, j1) implies #[trigger] has_cell(
            after,
            b.gx0 + i1,
            b.gy0 + j1,
        ) by {
            if j1 < j - 1 {
                assert(has_cell(before, b.gx0 + i1, b.gy0 + j1));
                let k = choose|k: int|
                    0 <= k < before.len() && (#[trigger] before[k]).0 == b.gx0 + i1 && before[k].1
                        == b.gy0 + j1;
                assert(after[k] == before[k]);
            }
        }
        assert forall|k: int| cells.len() <= k < after.len() implies exists|i1: int, j1: int|
            0 <= i1 < b.cols@.len() && 0 <= j1 < j && b.reaches(i1, j1) && #[trigger] after[k]
                == #[trigger] b.cell(rgba, fw, fh, i1, j1) by {
            if k < before.len() {
                let (i1, j1) = choose|i1: int, j1: int|
                    0 <= i1 < b.cols@.len() && 0 <= j1 < j - 1 && b.reaches(i1, j1) && before[k]
                        == #[trigger] b.cell(rgba, fw, fh, i1, j1);
                assert(after[k] == b.cell(rgba, fw, fh, i1, j1));
            } else {
                let i1 = choose|i1: int|
                    0 <= i1 < b.cols@.len() && b.reaches(i1, j - 1) && after[k]
                        == #[trigger] b.cell(rgba, fw, fh, i1, j - 1);
                assert(after[k] == b.cell(rgba, fw, fh, i1, j - 1));
            }
        }
    }
}

/// Brushing keeps the cells that were there, with their colors.
pub proof fn law_brush_keeps_cells(cells: Seq<Cell>, rgba: Seq<u8>, fw: int, fh: int, b: Brush)
    requires
        b.well_formed(),
    ensures
        cells.is_prefix_of(brushed(cells, rgba, fw, fh, b, b.rows@.len() as int)),
{
    lemma_brushed(cells, rgba, fw, fh, b, b.rows@.len() as int);
}

/// Brushing never paints a cell twice.
pub proof fn law_brush_keeps_cells_distinct(
    cells: Seq<Cell>,
    rgba: Seq<u8>,
    fw: int,
    fh: int,
    b: Brush,
)
    requires
        b.well_formed(),
        distinct_cells(cells),
    ensures
        distinct_cells(brushed(cells, rgba, fw, fh, b, b.rows@.len() as int)),
{
    lemma_brushed(cells, rgba, fw, fh, b, b.rows@.len() as int);
}

/// Every cell that the brush reaches is painted.
pub proof fn law_brush_paints_reached_cells(
    cells: Seq<Cell>,
    rgba: Seq<u8>,
    fw: int,
    fh: int,
    b: Brush,
    i: int,
    j: int,
)
    requires
        b.well_formed(),
        0 <= i < b.cols@.len(),
        0 <= j < b.rows@.len(),
        b.reaches(i, j),
    ensures
        has_cell(brushed(cells, rgba, fw, fh, b, b.rows@.len() as int), b.gx0 + i, b.gy0 + j),
{
    lemma_brushed(cells, rgba, fw, fh, b, b.rows@.len() as int);
}

/// Whatever the brush adds is a cell that it reaches, in the color of its pixels.
pub proof fn law_brush_adds_reached_cells_only(
    cells: Seq<Cell>,
    rgba: Seq<u8>,
    fw: int,
    fh: int,
    b: Brush,
    k: int,
)
    requires
        b.well_formed(),
        cells.len() <= k < brushed(cells, rgba, fw, fh, b, b.rows@.len() as int).len(),
    ensures
        exists|i: int, j: int|
            0 <= i < b.cols@.len() && 0 <= j < b.rows@.len() && b.reaches(i, j) && brushed(
                cells,
                rgba,
                fw,
                fh,
                b,
                b.rows@.len() as int,
            )[k] == #[trigger] b.cell(rgba, fw, fh, i, j),
{
    let rows = b.rows@.len() as int;
    lemma_brushed(cells, rgba, fw, fh, b, rows);
    let after = brushed(cells, rgba, fw, fh, b, rows);
    let (i, j) = choose|i: int, j: int|
        0 <= i < b.cols@.len() && 0 <= j < rows && b.reaches(i, j) && #[trigger] after[k]
            == #[trigger] b.cell(rgba, fw, fh, i, j);
    assert(after[k] == b.cell(rgba, fw, fh, i, j));
}

proof fn lemma_nothing_new(cells: Seq<Cell>, rgba: Seq<u8>, fw: int, fh: int, b: Brush, j: int)
    requires
        0 <= j <= b.rows@.len(),
        forall|i1: int, j1: int|
            0 <= i1 < b.cols@.len() && 0 <= j1 < b.rows@.len() && b.reaches(i1, j1)
                ==> #[trigger] has_cell(cells, b.gx0 + i1, b.gy0 + j1),
    ensures
        brushed(cells, rgba, fw, fh, b, j) == cells,
    decreases j,
{
    if j > 0 {
        lemma_nothing_new(cells, rgba, fw, fh, b, j - 1);
        lemma_nothing_new_in_row(cells, rgba, fw, fh, b, b.cols@.len() as int, j - 1);
    }
}

proof fn lemma_nothing_new_in_row(
    cells: Seq<Cell>,
    rgba: Seq<u8>,
    fw: int,
    fh: int,
    b: Brush,
    i: int,
    j: int,
)
    requires
        0 <= i <= b.cols@.len(),
        0 <= j < b.rows@.len(),
        forall|i1: int, j1: int|
            0 <= i1 < b.cols@.len() && 0 <= j1 < b.rows@.len() && b.reaches(i1, j1)
                ==> #[trigger] has_cell(cells, b.gx0 + i1, b.gy0 + j1),
    ensures
        brushed_row(cells, rgba, fw, fh, b, i, j) == cells,
    decreases i,
{
    if i > 0 {
        lemma_nothing_new_in_row(cells, rgba, fw, fh, b, i - 1, j);
        if b.reaches(i - 1, j) {
            assert(has_cell(cells, b.gx0 + (i - 1), b.gy0 + j));
        }
    }
}

/// Brushing the same place twice is the same as brushing it once.
pub proof fn law_brush_is_idempotent(cells: Seq<Cell>, rgba: Seq<u8>, fw: int, fh: int, b: Brush)
    requires
        b.well_formed(),
    ensures
        ({
            let rows = b.rows@.len() as int;
            let once = brushed(cells, rgba, fw, fh, b, rows);
            brushed(once, rgba, fw, fh, b, rows) == once
        }),
{
    let rows = b.rows@.len() as int;
    lemma_brushed(cells, rgba, fw, fh, b, rows);
    lemma_nothing_new(brushed(cells, rgba, fw, fh, b, rows), rgba, fw, fh, b, rows);
}

/// Two channels of pixels have the same place only if they are the same channel of the same
/// pixel.
proof fn lemma_pixel_index_is_unique(fw: int, x: int, y: int, ch: int, x2: int, y2: int, ch2: int)
    requires
        0 <= x < fw,
        0 <= x2 < fw,
        0 <= ch < 4,
        0 <= ch2 < 4,
        pixel_index(fw, x, y, ch) == pixel_index(fw, x2, y2, ch2),
    ensures
        x == x2,
        y == y2,
        ch == ch2,
{
    assert(y * fw + x == y2 * fw + x2);
    if y < y2 {
        assert(y * fw + fw <= y2 * fw) by (nonlinear_arith)
            requires
                y < y2,
                0 < fw,
        ;
    } else if y2 < y {
        assert(y2 * fw + fw <= y * fw) by (nonlinear_arith)
            requires
                y2 < y,
                0 < fw,
        ;
    }
}

proof fn lemma_row_sum_follows(
    rgba: Seq<u8>,
    fw: int,
    fh: int,
    row: int,
    x0: int,
    x1: int,
    ch: int,
    x: int,
    y: int,
    c: int,
    v: u8,
)
    requires
        0 <= x0 <= x1 <= fw,
        0 <= x < fw,
        0 <= ch < 4,
        0 <= c < 4,
        0 <= y < fh,
        0 <= row < fh,
        rgba.len() >= fw * fh * 4,
    ensures
        row_sum(rgba.update(pixel_index(fw, x, y, c), v), fw, row, x0, x1, ch) == row_sum(
            rgba,
            fw,
            row,
            x0,
            x1,
            ch,
        ) + if x0 <= x < x1 && row == y && c == ch {
            v - rgba[pixel_index(fw, x, y, c)]
        } else {
            0
        },
    decreases x1 - x0,
{
    if x0 < x1 {
        lemma_row_sum_follows(rgba, fw, fh, row, x0, x1 - 1, ch, x, y, c, v);
        lemma_pixel_index_in_bounds(fw, fh, x1 - 1, row, ch);
        lemma_pixel_index_in_bounds(fw, fh, x, y, c);
        if pixel_index(fw, x1 - 1, row, ch) == pixel_index(fw, x, y, c) {
            lemma_pixel_index_is_unique(fw, x1 - 1, row, ch, x, y, c);
        }
    }
}

proof fn lemma_block_sum_follows(
    rgba: Seq<u8>,
    fw: int,
    fh: int,
    x0: int,
    x1: int,
    y0: int,
    y1: int,
    ch: int,
    x: int,
    y: int,
    c: int,
    v: u8,
)
    requires
        0 <= x0 <= x1 <= fw,
        0 <= x < fw,
        0 <= ch < 4,
        0 <= c < 4,
        0 <= y < fh,
        0 <= y0,
        y1 <= fh,
        rgba.len() >= fw * fh * 4,
    ensures
        block_sum(rgba.update(pixel_index(fw, x, y, c), v), fw, x0, x1, y0, y1, ch) == block_sum(
            rgba,
            fw,
            x0,
            x1,
            y0,
            y1,
            ch,
        ) + if x0 <= x < x1 && y0 <= y < y1 && c == ch {
            v - rgba[pixel_index(fw, x, y, c)]
        } else {
            0
        },
    decreases y1 - y0,
{
    if y0 < y1 {
        lemma_block_sum_follows(rgba, fw, fh, x0, x1, y0, y1 - 1, ch, x, y, c, v);
        lemma_row_sum_follows(rgba, fw, fh, y1 - 1, x0, x1, ch, x, y, c, v);
    }
}

/// The sum over a block grows by just as much as a channel of one of its pixels does, and does
/// not depend on other channels, nor on pixels outside the block.
pub proof fn law_sum_follows_each_pixel(
    rgba: Seq<u8>,
    fw: int,
    fh: int,
    x0: int,
    x1: int,
    y0: int,
    y1: int,
    ch: int,
    x: int,
    y: int,
    c: int,
    v: u8,
)
    requires
        0 <= x0 <= x1 <= fw,
        0 <= x < fw,
        0 <= y < fh,
        0 <= y0,
        y1 <= fh,
        0 <= ch < 4,
        0 <= c < 4,
        rgba.len() >= fw * fh * 4,
    ensures
        block_sum(rgba.update((y * fw + x) * 4 + c, v), fw, x0, x1, y0, y1, ch) - block_sum(
            rgba,
            fw,
            x0,
            x1,
            y0,
            y1,
            ch,
        ) == if x0 <= x < x1 && y0 <= y < y1 && c == ch {
            v - rgba[(y * fw + x) * 4 + c]
        } else {
            0
        },
{
    lemma_pixel_index_in_bounds(fw, fh, x, y, c);
    lemma_block_sum_follows(rgba, fw, fh, x0, x1, y0, y1, ch, x, y, c, v);
}

/// The sum over black pixels is zero.
pub proof fn law_sum_of_black_is_zero(
    n: nat,
    fw: int,
    fh: int,
    x0: int,
    x1: int,
    y0: int,
    y1: int,
    ch: int,
)
    requires
        0 <= x0 <= x1 <= fw,
        0 <= y0 <= y1 <= fh,
        0 <= ch < 4,
        n >= fw * fh * 4,
    ensures
        block_sum(Seq::new(n, |i: int| 0u8), fw, x0, x1, y0, y1, ch) == 0,
{
    let black = Seq::new(n, |i: int| 0u8);
    assert forall|x: int, y: int| x0 <= x < x1 && y0 <= y < y1 implies black[#[trigger] pixel_index(
        fw,
        x,
        y,
        ch,
    )] == 0 by {
        lemma_pixel_index_in_bounds(fw, fh, x, y, ch);
    }
    lemma_uniform_block(black, fw, x0, x1, y0, y1, ch, 0);
}

/// The color of a cell is the average of its pixels in the frame, each channel rounded down, and
/// opaque: with `n` pixels, a channel's sum lies between `n` times the color's channel and `n`
/// times one more.
pub proof fn law_cell_color_is_the_average(
    rgba: Seq<u8>,
    fw: int,
    fh: int,
    x0: int,
    y0: int,
    x1: int,
    y1: int,
    side: int,
)
    requires
        0 <= x0 < x1,
        0 <= y0 < y1,
        x1 <= fw && x1 <= x0 + side && (x1 == fw || x1 == x0 + side),
        y1 <= fh && y1 <= y0 + side && (y1 == fh || y1 == y0 + side),
    ensures
        ({
            let c = cell_paint(rgba, fw, fh, x0, y0, side);
            let n = (x1 - x0) * (y1 - y0);
            let r = block_sum(rgba, fw, x0, x1, y0, y1, 0);
            let g = block_sum(rgba, fw, x0, x1, y0, y1, 1);
            let b = block_sum(rgba, fw, x0, x1, y0, y1, 2);
            &&& n > 0
            &&& n * c.r <= r < n * (c.r + 1)
            &&& n * c.g <= g < n * (c.g + 1)
            &&& n * c.b <= b < n * (c.b + 1)
            &&& c.a == 255
        }),
{
    let n = (x1 - x0) * (y1 - y0);
    assert(n > 0) by (nonlinear_arith)
        requires
            n == (x1 - x0) * (y1 - y0),
            x1 - x0 > 0,
            y1 - y0 > 0,
    ;
    assert(x1 == clipped(x0, side, fw));
    assert(y1 == clipped(y0, side, fh));
    assert forall|ch: int| 0 <= ch < 3 implies {
        let mean = #[trigger] cell_mean(rgba, fw, fh, x0, y0, side, ch);
        &&& 0 <= mean <= 255
        &&& n * mean <= block_sum(rgba, fw, x0, x1, y0, y1, ch) < n * (mean + 1)
    } by {
        law_cell_mean_is_a_channel_value(rgba, fw, fh, x0, y0, side, ch);
        let sum = block_sum(rgba, fw, x0, x1, y0, y1, ch);
        assert(n * (sum / n) <= sum < n * (sum / n + 1)) by (nonlinear_arith)
            requires
                n > 0,
        ;
    }
    let c = cell_paint(rgba, fw, fh, x0, y0, side);
    assert(c.r == cell_mean(rgba, fw, fh, x0, y0, side, 0));
    assert(c.g == cell_mean(rgba, fw, fh, x0, y0, side, 1));
    assert(c.b == cell_mean(rgba, fw, fh, x0, y0, side, 2));
}

/// A cell outside the frame, or without a pixel, is black.
pub proof fn law_cell_outside_is_black(
    rgba: Seq<u8>,
    fw: int,
    fh: int,
    x0: int,
    y0: int,
    side: int,
)
    requires
        x0 >= fw || y0 >= fh || side <= 0,
    ensures
        cell_paint(rgba, fw, fh, x0, y0, side) == (Color { r: 0, g: 0, b: 0, a: 255 }),
{
}

/// Each cell that the brush adds is one that it reaches, and has the color of its own pixels:
/// those from the beginning of its own column and its own row on.
pub proof fn law_brushed_cell_has_its_own_color(
    cells: Seq<Cell>,
    rgba: Seq<u8>,
    fw: int,
    fh: int,
    b: Brush,
    k: int,
)
    requires
        b.well_formed(),
        cells.len() <= k < brushed(cells, rgba, fw, fh, b, b.rows@.len() as int).len(),
    ensures
        ({
            let (gx, gy, color) = brushed(cells, rgba, fw, fh, b, b.rows@.len() as int)[k];
            &&& 0 <= gx - b.gx0 < b.cols@.len()
            &&& 0 <= gy - b.gy0 < b.rows@.len()
            &&& b.near@[(gy - b.gy0) * b.cols@.len() + (gx - b.gx0)]
            &&& color == cell_paint(
                rgba,
                fw,
                fh,
                b.cols@[gx - b.gx0] as int,
                b.rows@[gy - b.gy0] as int,
                b.side as int,
            )
        }),
{
    let rows = b.rows@.len() as int;
    law_brush_adds_reached_cells_only(cells, rgba, fw, fh, b, k);
    let after = brushed(cells, rgba, fw, fh, b, rows);
    let (i, j) = choose|i: int, j: int|
        0 <= i < b.cols@.len() && 0 <= j < rows && b.reaches(i, j) && after[k] == #[trigger] b.cell(
            rgba,
            fw,
            fh,
            i,
            j,
        );
    assert(after[k] == b.cell(rgba, fw, fh, i, j));
    assert(after[k].0 == b.gx0 + i);
    assert(after[k].1 == b.gy0 + j);
}

/// On a grid of cells of `side` pixels, each cell (`gx`, `gy`) that the brush adds has the color
/// of the square whose upper left pixel is (`gx * side`, `gy * side`).
pub proof fn law_grid_cell_has_the_color_of_its_square(
    cells: Seq<Cell>,
    rgba: Seq<u8>,
    fw: int,
    fh: int,
    b: Brush,
    side: u32,
    k: int,
)
    requires
        b.well_formed(),
        b.side == side,
        forall|i: int| 0 <= i < b.cols@.len() ==> #[trigger] b.cols@[i] == (b.gx0 + i) * side,
        forall|j: int| 0 <= j < b.rows@.len() ==> #[trigger] b.rows@[j] == (b.gy0 + j) * side,
        cells.len() <= k < brushed(cells, rgba, fw, fh, b, b.rows@.len() as int).len(),
    ensures
        ({
            let (gx, gy, color) = brushed(cells, rgba, fw, fh, b, b.rows@.len() as int)[k];
            color == cell_paint(rgba, fw, fh, gx * side, gy * side, side as int)
        }),
{
    law_brushed_cell_has_its_own_color(cells, rgba, fw, fh, b, k);
    let (gx, gy, color) = brushed(cells, rgba, fw, fh, b, b.rows@.len() as int)[k];
    assert(b.cols@[gx - b.gx0] == (b.gx0 + (gx - b.gx0)) * side);
    assert(b.rows@[gy - b.gy0] == (b.gy0 + (gy - b.gy0)) * side);
}

/// A brush on a grid has its columns and rows every `side` pixels, counted from the frame's
/// corner.
pub proof fn law_grid_is_regular(b: Brush, side: u32, i: int, j: int)
    requires
        b.on_grid(side),
        0 <= i < b.cols@.len(),
        0 <= j < b.rows@.len(),
    ensures
        b.side == side,
        b.cols@[i] == (b.gx0 + i) * side,
        b.rows@[j] == (b.gy0 + j) * side,
{
}

/// Every cell whose flag is set is there after the brush has passed, by its own column and row.
pub proof fn law_flagged_cells_are_painted(
    cells: Seq<Cell>,
    rgba: Seq<u8>,
    fw: int,
    fh: int,
    b: Brush,
    i: int,
    j: int,
)
    requires
        b.well_formed(),
        0 <= i < b.cols@.len(),
        0 <= j < b.rows@.len(),
        b.near@[j * b.cols@.len() + i],
    ensures
        ({
            let after = brushed(cells, rgba, fw, fh, b, b.rows@.len() as int);
            exists|k: int|
                0 <= k < after.len() && (#[trigger] after[k]).0 == b.gx0 + i && after[k].1 == b.gy0
                    + j
        }),
{
    law_brush_paints_reached_cells(cells, rgba, fw, fh, b, i, j);
    let after = brushed(cells, rgba, fw, fh, b, b.rows@.len() as int);
    assert(has_cell(after, b.gx0 + i, b.gy0 + j));
    let k = choose|k: int|
        0 <= k < after.len() && (#[trigger] after[k]).0 == b.gx0 + i && after[k].1 == b.gy0 + j;
    assert(after[k].0 == b.gx0 + i);
}

proof fn lemma_row_adds_absent_cells(
    cells: Seq<Cell>,
    rgba: Seq<u8>,
    fw: int,
    fh: int,
    b: Brush,
    i: int,
    j: int,
    k: int,
    l: int,
)
    requires
        b.well_formed(),
        0 <= i <= b.cols@.len(),
        0 <= j < b.rows@.len(),
        0 <= l < k,
        cells.len() <= k < brushed_row(cells, rgba, fw, fh, b, i, j).len(),
    ensures
        ({
            let after = brushed_row(cells, rgba, fw, fh, b, i, j);
            after[l].0 != after[k].0 || after[l].1 != after[k].1
        }),
    decreases i,
{
    if i > 0 {
        let before = brushed_row(cells, rgba, fw, fh, b, i - 1, j);
        let after = brushed_row(cells, rgba, fw, fh, b, i, j);
        if k < before.len() {
            lemma_row_adds_absent_cells(cells, rgba, fw, fh, b, i - 1, j, k, l);
            assert(after[k] == before[k]);
            assert(after[l] == before[l]);
        } else {
            assert(after[k] == b.cell(rgba, fw, fh, i - 1, j));
            assert(after[k].0 == b.gx0 + i - 1);
            assert(after[k].1 == b.gy0 + j);
            assert(after[l] == before[l]);
            assert(!has_cell(before, b.gx0 + i - 1, b.gy0 + j));
        }
    }
}

proof fn lemma_brush_adds_absent_cells(
    cells: Seq<Cell>,
    rgba: Seq<u8>,
    fw: int,
    fh: int,
    b: Brush,
    j: int,
    k: int,
    l: int,
)
    requires
        b.well_formed(),
        0 <= j <= b.rows@.len(),
        0 <= l < k,
        cells.len() <= k < brushed(cells, rgba, fw, fh, b, j).len(),
    ensures
        ({
            let after = brushed(cells, rgba, fw, fh, b, j);
            after[l].0 != after[k].0 || after[l].1 != after[k].1
        }),
    decreases j,
{
    if j > 0 {
        let before = brushed(cells, rgba, fw, fh, b, j - 1);
        let after = brushed(cells, rgba, fw, fh, b, j);
        let columns = b.cols@.len() as int;
        lemma_brushed_row(before, rgba, fw, fh, b, columns, j - 1);
        if k < before.len() {
            lemma_brush_adds_absent_cells(cells, rgba, fw, fh, b, j - 1, k, l);
            assert(after.take(before.len() as int)[k] == before[k]);
            assert(after.take(before.len() as int)[l] == before[l]);
        } else {
            lemma_row_adds_absent_cells(before, rgba, fw, fh, b, columns, j - 1, k, l);
        }
    }
}

/// The brush never adds a cell whose column and row are those of a cell before it, whether that
/// was there already or was added too.
pub proof fn law_brush_adds_absent_cells_only(
    cells: Seq<Cell>,
    rgba: Seq<u8>,
    fw: int,
    fh: int,
    b: Brush,
    k: int,
    l: int,
)
    requires
        b.well_formed(),
        0 <= l < k,
        cells.len() <= k < brushed(cells, rgba, fw, fh, b, b.rows@.len() as int).len(),
    ensures
        ({
            let after = brushed(cells, rgba, fw, fh, b, b.rows@.len() as int);
            after[l].0 != after[k].0 || after[l].1 != after[k].1
        }),
{
    lemma_brush_adds_absent_cells(cells, rgba, fw, fh, b, b.rows@.len() as int, k, l);
}

/// The overlay's cells are 16 pixels wide and high, and its brush reaches 16 pixels far; as a
/// single-precision number, 16 has the exponent 131 and no mantissa.
pub proof fn law_cells_are_16_pixels()
    ensures
        BLUR_SIDE == 16,
        BLUR_CELL == 131 * 0x80_0000,
        BLUR_BRUSH == BLUR_CELL,
{
}

} // verus!
