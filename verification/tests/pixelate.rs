use rayshot::color::{from_rgb, Color};
use rayshot::pixelate::{
    add_brush_cells, cell_color, grid_brush, last_cell, Brush, BLUR_BRUSH, BLUR_CELL, BLUR_SIDE,
};

/// A 4 by 2 frame whose red channel counts the pixels.
fn frame() -> Vec<u8> {
    let mut v = Vec::new();
    for i in 0..8u8 {
        v.extend_from_slice(&[i, 100, 255 - i, 9]);
    }
    v
}

/// A brush over the first cells of the first row, two pixels wide each.
fn brush(near: Vec<bool>) -> Brush {
    grid_brush(0, near.len() as u32 - 1, 0, 0, 2, near)
}

#[test]
fn sizes_are_sixteen() {
    assert_eq!((BLUR_CELL, BLUR_BRUSH), (16.0f32.to_bits(), 16.0f32.to_bits()));
    assert_eq!(f32::from_bits(BLUR_CELL) as u32, BLUR_SIDE);
}

#[test]
fn cell_color_is_the_rounded_down_average() {
    // Red: 0, 1, 4, 5 sum to 10; blue: 255, 254, 251, 250 sum to 1010.
    assert_eq!(cell_color(&frame(), 4, 2, 0, 0, 2), from_rgb(2, 100, 252));
    assert_eq!(cell_color(&frame(), 4, 2, 3, 1, 1), from_rgb(7, 100, 248));
}

#[test]
fn cells_are_cut_off_at_the_frame() {
    assert_eq!(cell_color(&frame(), 4, 2, 3, 0, 2), from_rgb(5, 100, 250));
    assert_eq!(cell_color(&frame(), 4, 2, 2, 1, 100), from_rgb(6, 100, 248));
}

#[test]
fn cells_outside_the_frame_are_black() {
    let black = from_rgb(0, 0, 0);
    assert_eq!(cell_color(&frame(), 4, 2, 4, 0, 2), black);
    assert_eq!(cell_color(&frame(), 4, 2, 0, 2, 2), black);
    assert_eq!(cell_color(&frame(), 4, 2, u32::MAX, 0, u32::MAX), black);
    assert_eq!(cell_color(&frame(), 4, 2, 0, 0, 0), black);
}

#[test]
fn brush_adds_reached_cells_once() {
    let mut cells: Vec<(u32, u32, Color)> = Vec::new();
    let b = brush(vec![true, true]);
    add_brush_cells(&mut cells, &frame(), 4, 2, &b);
    assert_eq!(
        cells,
        vec![(0, 0, from_rgb(2, 100, 252)), (1, 0, from_rgb(4, 100, 250))]
    );
    add_brush_cells(&mut cells, &frame(), 4, 2, &b);
    assert_eq!(cells.len(), 2);
}

#[test]
fn cells_of_one_color_keep_it() {
    assert_eq!(cell_color(&[7; 64], 4, 4, 1, 1, 3), from_rgb(7, 7, 7));
}

#[test]
fn brush_leaves_cells_that_it_does_not_reach() {
    let mut cells = vec![(7, 7, from_rgb(1, 1, 1))];
    let b = brush(vec![false, true]);
    add_brush_cells(&mut cells, &frame(), 4, 2, &b);
    assert_eq!(cells, vec![(7, 7, from_rgb(1, 1, 1)), (1, 0, from_rgb(4, 100, 250))]);
}

#[test]
fn brush_goes_row_by_row() {
    let mut cells = Vec::new();
    let b = grid_brush(5, 6, 3, 4, 1, vec![true, false, true, true]);
    add_brush_cells(&mut cells, &frame(), 4, 2, &b);
    let places: Vec<(u32, u32)> = cells.iter().map(|c| (c.0, c.1)).collect();
    assert_eq!(places, vec![(5, 3), (5, 4), (6, 4)]);
}

#[test]
fn grid_cells_begin_at_multiples_of_their_side() {
    let b = grid_brush(3, 5, 1, 1, 16, vec![true; 3]);
    assert_eq!((b.gx0, b.gy0, b.side), (3, 1, 16));
    assert_eq!((b.cols, b.rows), (vec![48, 64, 80], vec![16]));
    let none = grid_brush(2, 1, 0, 7, 16, vec![]);
    assert_eq!((none.cols.len(), none.rows.len()), (0, 8));
    let mut cells = Vec::new();
    let b = grid_brush(3, 4, 1, 1, 1, vec![true, true]);
    add_brush_cells(&mut cells, &frame(), 4, 2, &b);
    assert_eq!(
        cells,
        vec![(3, 1, from_rgb(7, 100, 248)), (4, 1, from_rgb(0, 0, 0))]
    );
}

/// Cells of one and a half pixels: the second begins in the second pixel, and each reaches over
/// one whole pixel.
#[test]
fn cells_may_begin_between_pixels() {
    let mut cells = Vec::new();
    let b = Brush {
        gx0: 1,
        gy0: 0,
        cols: vec![(1.0f32 * 1.5) as u32, (2.0f32 * 1.5) as u32],
        rows: vec![0],
        near: vec![true, true],
        side: 1.5f32 as u32,
    };
    add_brush_cells(&mut cells, &frame(), 4, 2, &b);
    assert_eq!(
        cells,
        vec![(1, 0, from_rgb(1, 100, 254)), (2, 0, from_rgb(3, 100, 252))]
    );
}

#[test]
fn old_colors_are_kept() {
    let mut cells = vec![(0, 0, from_rgb(1, 1, 1))];
    add_brush_cells(&mut cells, &frame(), 4, 2, &brush(vec![true]));
    assert_eq!(cells, vec![(0, 0, from_rgb(1, 1, 1))]);
}

#[test]
fn last_cell_lies_in_the_frame() {
    assert_eq!(last_cell(3, 10), 3);
    assert_eq!(last_cell(9, 10), 9);
    assert_eq!(last_cell(10, 10), 9);
    assert_eq!(last_cell(5, 0), 0);
}
