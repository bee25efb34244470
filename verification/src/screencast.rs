//! Frames that arrive as screencast streams, one per monitor, and their assembly into one
//! picture of the desktop.

use vstd::prelude::*;

use crate::bytes::{
    append_range, lemma_byte_is_channel, lemma_pixel_in_run, lemma_pixel_index_in_bounds,
    overwrite, pixel_index, zeroes,
};
use crate::capture::{Frame, FrameView};
use crate::text::{trim, trimmed};

verus! {

/// The pixel layouts that streams are negotiated in, and any other.
#[derive(Clone, Copy, Debug, PartialEq, Eq, Structural)]
pub enum VideoFormat {
    Bgrx,
    Rgbx,
    Bgra,
    Rgba,
    Other,
}

impl VideoFormat {
    /// Blue comes first.
    pub open spec fn swapped(self) -> bool {
        self is Bgrx || self is Bgra
    }

    /// The fourth byte is alpha, not padding.
    pub open spec fn has_alpha(self) -> bool {
        self is Rgba || self is Bgra
    }
}

/// One stream's picture, converted to red, green, blue and alpha bytes, and where its monitor
/// stands on the desktop.
pub struct Captured {
    pub pixels: Vec<u8>,
    pub w: u32,
    pub h: u32,
    pub pos: (i32, i32),
}

/// Channel `ch` of the pixel that starts at byte `at` of `src`: zero where `src` ends inside
/// the pixel.
pub open spec fn converted_channel(src: Seq<u8>, at: int, format: VideoFormat, ch: int) -> u8 {
    if at + 3 >= src.len() {
        0
    } else if ch == 3 {
        if format.has_alpha() {
            src[at + 3]
        } else {
            255
        }
    } else if format.swapped() {
        src[at + (2 - ch)]
    } else {
        src[at + ch]
    }
}

/// `out` is the `w` by `h` picture whose rows start every `row_bytes` bytes of `src`.
pub open spec fn is_rgba_of(
    out: Seq<u8>,
    src: Seq<u8>,
    w: int,
    h: int,
    row_bytes: int,
    format: VideoFormat,
) -> bool {
    &&& out.len() == w * h * 4
    &&& forall|x: int, y: int, ch: int|
        0 <= x < w && 0 <= y < h && 0 <= ch < 4 ==> #[trigger] out[pixel_index(w, x, y, ch)]
            == converted_channel(src, y * row_bytes + x * 4, format, ch)
}

/// Converts one pixel, if `src` holds it whole.
fn convert_pixel(out: &mut Vec<u8>, o: usize, src: &[u8], at: usize, format: VideoFormat)
    requires
        o + 4 <= old(out)@.len(),
        at + 3 < src@.len(),
    ensures
        final(out)@.len() == old(out)@.len(),
        forall|i: int|
            0 <= i < final(out)@.len() ==> #[trigger] final(out)@[i] == if o <= i < o + 4 {
                converted_channel(src@, at as int, format, i - o)
            } else {
                old(out)@[i]
            },
{
    let swap = matches!(format, VideoFormat::Bgrx | VideoFormat::Bgra);
    let has_alpha = matches!(format, VideoFormat::Rgba | VideoFormat::Bgra);
    let len: usize = out.len();
    let src_len: usize = src.len();
    if swap {
        out.set(o, src[at + 2]);
        out.set(o + 1, src[at + 1]);
        out.set(o + 2, src[at]);
    } else {
        out.set(o, src[at]);
        out.set(o + 1, src[at + 1]);
        out.set(o + 2, src[at + 2]);
    }
    out.set(o + 3, if has_alpha { src[at + 3] } else { 255u8 });
}

/// The pixels before (`xi`, `yi`), row by row, are converted, the others are still zero.
spec fn converted_before(
    out: Seq<u8>,
    src: Seq<u8>,
    w: int,
    h: int,
    row_bytes: int,
    format: VideoFormat,
    xi: int,
    yi: int,
) -> bool {
    &&& out.len() == w * h * 4
    &&& forall|x: int, y: int, ch: int|
        0 <= x < w && 0 <= y < h && 0 <= ch < 4 ==> #[trigger] out[pixel_index(w, x, y, ch)]
            == if y < yi || (y == yi && x < xi) {
            converted_channel(src, y * row_bytes + x * 4, format, ch)
        } else {
            0
        }
}

/// Converts the pixels of row `y`.
fn convert_row(
    out: &mut Vec<u8>,
    src: &[u8],
    w: usize,
    h: usize,
    row_bytes: usize,
    format: VideoFormat,
    y: usize,
)
    requires
        y < h,
        w * h * 4 <= usize::MAX,
        converted_before(old(out)@, src@, w as int, h as int, row_bytes as int, format, 0, y as int),
    ensures
        converted_before(final(out)@, src@, w as int, h as int, row_bytes as int, format, 0, y + 1),
{
    let len: usize = src.len();
    let start: usize = match y.checked_mul(row_bytes) {
        Some(start) => start,
        None => len,
    };
    let ghost true_start = y * row_bytes;
    assert(true_start == start || (len <= true_start && start == len));
    let mut x: usize = 0;
    while x < w
        invariant
            x <= w,
            y < h,
            w * h * 4 <= usize::MAX,
            len == src@.len(),
            true_start == y * row_bytes,
            true_start == start || (len <= true_start && start == len),
            converted_before(
                out@,
                src@,
                w as int,
                h as int,
                row_bytes as int,
                format,
                x as int,
                y as int,
            ),
        decreases w - x,
    {
        proof {
            lemma_pixel_index_in_bounds(w as int, h as int, x as int, y as int, 3);
            assert(0 <= y * w) by (nonlinear_arith)
                requires
                    0 <= y,
                    0 <= w,
            ;
        }
        let ghost before = out@;
        let o: usize = (y * w + x) * 4;
        assert(o == pixel_index(w as int, x as int, y as int, 0));
        if start < len && len - start > 3 && x <= (len - start - 4) / 4 {
            convert_pixel(out, o, src, start + x * 4, format);
        }
        assert forall|x1: int, y1: int, ch: int|
            0 <= x1 < w && 0 <= y1 < h && 0 <= ch < 4 implies #[trigger] out@[pixel_index(
            w as int,
            x1,
            y1,
            ch,
        )] == if y1 < y || (y1 == y && x1 < x + 1) {
            converted_channel(src@, y1 * row_bytes + x1 * 4, format, ch)
        } else {
            0
        } by {
            lemma_pixel_index_in_bounds(w as int, h as int, x1, y1, ch);
            lemma_pixel_in_run(w as int, x1, y1, ch, x as int, y as int, 1);
            assert(before[pixel_index(w as int, x1, y1, ch)] == if y1 < y || (y1 == y && x1 < x) {
                converted_channel(src@, y1 * row_bytes + x1 * 4, format, ch)
            } else {
                0
            });
        }
        x = x + 1;
    }
    assert forall|x1: int, y1: int, ch: int|
        0 <= x1 < w && 0 <= y1 < h && 0 <= ch < 4 implies #[trigger] out@[pixel_index(
        w as int,
        x1,
        y1,
        ch,
    )] == if y1 < y + 1 || (y1 == y + 1 && x1 < 0) {
        converted_channel(src@, y1 * row_bytes + x1 * 4, format, ch)
    } else {
        0
    } by {}
}

/// Converts a stream's bytes to red, green, blue and alpha. What `src` is too short for stays
/// zero.
pub fn to_rgba(src: &[u8], w: u32, h: u32, row_bytes: usize, format: VideoFormat) -> (out: Vec<u8>)
    requires
        w * h * 4 <= usize::MAX,
    ensures
        is_rgba_of(out@, src@, w as int, h as int, row_bytes as int, format),
{
    let (w, h): (usize, usize) = (w as usize, h as usize);
    assert(0 <= w * h) by (nonlinear_arith)
        requires
            0 <= w,
            0 <= h,
    ;
    let mut out: Vec<u8> = zeroes(w * h * 4);
    assert forall|x: int, y: int, ch: int|
        0 <= x < w && 0 <= y < h && 0 <= ch < 4 implies #[trigger] out@[pixel_index(
        w as int,
        x,
        y,
        ch,
    )] == 0 by {
        lemma_pixel_index_in_bounds(w as int, h as int, x, y, ch);
    }
    let mut y: usize = 0;
    while y < h
        invariant
            y <= h,
            w * h * 4 <= usize::MAX,
            converted_before(out@, src@, w as int, h as int, row_bytes as int, format, 0, y as int),
        decreases h - y,
    {
        convert_row(&mut out, src, w, h, row_bytes, format, y);
        y = y + 1;
    }
    out
}

/// The smaller of two numbers.
pub open spec fn least(a: int, b: int) -> int {
    if a <= b {
        a
    } else {
        b
    }
}

/// The larger of two numbers.
pub open spec fn greatest(a: int, b: int) -> int {
    if a >= b {
        a
    } else {
        b
    }
}

/// Where a picture stands on the desktop and how large it is.
pub struct Placed {
    pub x: int,
    pub y: int,
    pub w: int,
    pub h: int,
}

/// The smallest horizontal position of the pictures; zero where there is none.
pub open spec fn left_edge(places: Seq<Placed>) -> int
    decreases places.len(),
{
    if places.len() == 0 {
        0
    } else if places.len() == 1 {
        places[0].x
    } else {
        least(left_edge(places.drop_last()), places.last().x)
    }
}

/// The smallest vertical position of the pictures; zero where there is none.
pub open spec fn top_edge(places: Seq<Placed>) -> int
    decreases places.len(),
{
    if places.len() == 0 {
        0
    } else if places.len() == 1 {
        places[0].y
    } else {
        least(top_edge(places.drop_last()), places.last().y)
    }
}

/// How far to the right the pictures reach; zero where there is none.
pub open spec fn right_edge(places: Seq<Placed>) -> int
    decreases places.len(),
{
    if places.len() == 0 {
        0
    } else if places.len() == 1 {
        places[0].x + places[0].w
    } else {
        greatest(right_edge(places.drop_last()), places.last().x + places.last().w)
    }
}

/// How far down the pictures reach; zero where there is none.
pub open spec fn bottom_edge(places: Seq<Placed>) -> int
    decreases places.len(),
{
    if places.len() == 0 {
        0
    } else if places.len() == 1 {
        places[0].y + places[0].h
    } else {
        greatest(bottom_edge(places.drop_last()), places.last().y + places.last().h)
    }
}

/// The width of the smallest rectangle that holds all of the pictures, at least one pixel.
pub open spec fn desktop_width(places: Seq<Placed>) -> int {
    greatest(right_edge(places) - left_edge(places), 1)
}

/// The height of the smallest rectangle that holds all of the pictures, at least one pixel.
pub open spec fn desktop_height(places: Seq<Placed>) -> int {
    greatest(bottom_edge(places) - top_edge(places), 1)
}

/// One of the pictures has no pixel.
pub open spec fn any_blank(places: Seq<Placed>) -> bool {
    exists|i: int| 0 <= i < places.len() && is_blank(#[trigger] places[i])
}

/// The desktop's coordinates and size fit the machine's numbers.
pub open spec fn fits(places: Seq<Placed>) -> bool {
    &&& forall|i: int|
        0 <= i < places.len() ==> {
            let p = #[trigger] places[i];
            &&& p.w <= i32::MAX
            &&& p.h <= i32::MAX
            &&& p.x + p.w <= i32::MAX
            &&& p.y + p.h <= i32::MAX
        }
    &&& right_edge(places) - left_edge(places) <= i32::MAX
    &&& bottom_edge(places) - top_edge(places) <= i32::MAX
    &&& desktop_width(places) * desktop_height(places) * 4 <= usize::MAX
}

/// No picture reaches beyond the edges of the desktop.
pub proof fn law_edges_enclose_pictures(places: Seq<Placed>)
    ensures
        forall|i: int|
            0 <= i < places.len() ==> {
                let p = #[trigger] places[i];
                &&& left_edge(places) <= p.x
                &&& top_edge(places) <= p.y
                &&& p.x + p.w <= right_edge(places)
                &&& p.y + p.h <= bottom_edge(places)
            },
    decreases places.len(),
{
    if places.len() > 1 {
        law_edges_enclose_pictures(places.drop_last());
        assert forall|i: int| 0 <= i < places.len() implies {
            let p = #[trigger] places[i];
            &&& left_edge(places) <= p.x
            &&& top_edge(places) <= p.y
            &&& p.x + p.w <= right_edge(places)
            &&& p.y + p.h <= bottom_edge(places)
        } by {
            if i < places.len() - 1 {
                assert(places.drop_last()[i] == places[i]);
            }
        }
    }
}

/// Where one stream's picture stands.
pub open spec fn placed(c: Captured) -> Placed {
    Placed { x: c.pos.0 as int, y: c.pos.1 as int, w: c.w as int, h: c.h as int }
}

/// Where the streams' pictures stand.
pub open spec fn placements(slots: Seq<Captured>) -> Seq<Placed> {
    Seq::new(slots.len(), |i: int| placed(slots[i]))
}

/// A picture without a pixel.
pub open spec fn is_blank(p: Placed) -> bool {
    p.w == 0 || p.h == 0
}

/// The picture covers the desktop pixel (`x`, `y`), counted from (`left`, `top`).
pub open spec fn covers(c: Captured, left: int, top: int, x: int, y: int) -> bool {
    &&& c.pos.0 - left <= x < c.pos.0 - left + c.w
    &&& c.pos.1 - top <= y < c.pos.1 - top + c.h
}

/// Channel `ch` of the desktop pixel (`x`, `y`), counted from (`left`, `top`): that of the last
/// picture that covers it, and zero where none does.
pub open spec fn desktop_channel(
    slots: Seq<Captured>,
    left: int,
    top: int,
    x: int,
    y: int,
    ch: int,
) -> u8
    decreases slots.len(),
{
    if slots.len() == 0 {
        0
    } else if covers(slots.last(), left, top, x, y) {
        let c = slots.last();
        c.pixels@[pixel_index(c.w as int, x - (c.pos.0 - left), y - (c.pos.1 - top), ch)]
    } else {
        desktop_channel(slots.drop_last(), left, top, x, y, ch)
    }
}

/// The pictures hold all of their pixels.
pub open spec fn hold_pixels(slots: Seq<Captured>) -> bool {
    forall|i: int|
        0 <= i < slots.len() ==> {
            let c = #[trigger] slots[i];
            c.pixels@.len() >= c.w * c.h * 4
        }
}

/// Why the streams' pictures do not make a frame.
#[derive(Clone, Copy, Debug, PartialEq, Eq, Structural)]
pub enum ScreencastError {
    /// A stream produced a picture without a pixel.
    EmptyFrame,
    /// The portal handed out no stream.
    NoStreams,
    /// The streams did not produce their pictures in time.
    TimedOut,
}

/// `rgba` holds the desktop that `slots` make, of the given size and counted from
/// (`left`, `top`).
pub open spec fn is_desktop(
    rgba: Seq<u8>,
    slots: Seq<Captured>,
    width: int,
    height: int,
    left: int,
    top: int,
) -> bool {
    &&& rgba.len() == width * height * 4
    &&& forall|x: int, y: int, ch: int|
        0 <= x < width && 0 <= y < height && 0 <= ch < 4 ==> #[trigger] rgba[pixel_index(
            width,
            x,
            y,
            ch,
        )] == desktop_channel(slots, left, top, x, y, ch)
}

/// Draws one picture over the desktop made so far.
fn draw(
    rgba: &mut Vec<u8>,
    c: &Captured,
    width: usize,
    height: usize,
    ox: usize,
    oy: usize,
    Ghost(slots): Ghost<Seq<Captured>>,
    Ghost(left): Ghost<int>,
    Ghost(top): Ghost<int>,
)
    requires
        width * height * 4 <= usize::MAX,
        is_desktop(old(rgba)@, slots, width as int, height as int, left, top),
        ox == c.pos.0 - left,
        oy == c.pos.1 - top,
        ox + c.w <= width,
        oy + c.h <= height,
        c.pixels@.len() >= c.w * c.h * 4,
    ensures
        is_desktop(final(rgba)@, slots.push(*c), width as int, height as int, left, top),
{
    let w: usize = c.w as usize;
    let h: usize = c.h as usize;
    let ghost (wd, ht) = (width as int, height as int);
    let mut y: usize = 0;
    while y < h
        invariant
            y <= h,
            w == c.w,
            h == c.h,
            wd == width,
            ht == height,
            width * height * 4 <= usize::MAX,
            ox == c.pos.0 - left,
            oy == c.pos.1 - top,
            ox + w <= width,
            oy + h <= height,
            c.pixels.len() >= w * h * 4,
            rgba@.len() == wd * ht * 4,
            forall|x1: int, y1: int, ch: int|
                0 <= x1 < wd && 0 <= y1 < ht && 0 <= ch < 4 ==> #[trigger] rgba@[pixel_index(
                    wd,
                    x1,
                    y1,
                    ch,
                )] == if covers(*c, left, top, x1, y1) && y1 < oy + y {
                    c.pixels@[pixel_index(w as int, x1 - ox, y1 - oy, ch)]
                } else {
                    desktop_channel(slots, left, top, x1, y1, ch)
                },
        decreases h - y,
    {
        let ghost before = rgba@;
        let row: usize = oy + y;
        proof {
            lemma_row_fits(wd, ht, ox as int, row as int, w as int);
            lemma_row_fits(w as int, h as int, 0, y as int, w as int);
            assert(0 <= row * width) by (nonlinear_arith)
                requires
                    0 <= row,
                    0 <= width,
            ;
            assert(0 <= y * w) by (nonlinear_arith)
                requires
                    0 <= y,
                    0 <= w,
            ;
        }
        let at: usize = (row * width + ox) * 4;
        let from: usize = y * w * 4;
        overwrite(rgba, at, c.pixels.as_slice(), from, w * 4);
        assert forall|x1: int, y1: int, ch: int|
            0 <= x1 < wd && 0 <= y1 < ht && 0 <= ch < 4 implies #[trigger] rgba@[pixel_index(
            wd,
            x1,
            y1,
            ch,
        )] == if covers(*c, left, top, x1, y1) && y1 < oy + (y + 1) {
            c.pixels@[pixel_index(w as int, x1 - ox, y1 - oy, ch)]
        } else {
            desktop_channel(slots, left, top, x1, y1, ch)
        } by {
            lemma_pixel_index_in_bounds(wd, ht, x1, y1, ch);
            lemma_pixel_in_run(wd, x1, y1, ch, ox as int, row as int, w as int);
            assert(before[pixel_index(wd, x1, y1, ch)] == if covers(*c, left, top, x1, y1) && y1
                < oy + y {
                c.pixels@[pixel_index(w as int, x1 - ox, y1 - oy, ch)]
            } else {
                desktop_channel(slots, left, top, x1, y1, ch)
            });
        }
        y = y + 1;
    }
    assert forall|x1: int, y1: int, ch: int|
        0 <= x1 < wd && 0 <= y1 < ht && 0 <= ch < 4 implies #[trigger] rgba@[pixel_index(
        wd,
        x1,
        y1,
        ch,
    )] == desktop_channel(slots.push(*c), left, top, x1, y1, ch) by {
        assert(slots.push(*c).drop_last() =~= slots);
        assert(slots.push(*c).last() == *c);
    }
}

/// A run of `w` pixels inside a row lies inside the image's bytes.
proof fn lemma_row_fits(width: int, height: int, ox: int, row: int, w: int)
    requires
        0 <= ox,
        0 <= w,
        ox + w <= width,
        0 <= row < height,
    ensures
        (row * width + ox) * 4 + w * 4 <= width * height * 4,
{
    assert(row * width + width <= width * height) by (nonlinear_arith)
        requires
            0 <= row < height,
            0 <= width,
    ;
}

/// `f` is the desktop that `slots` make.
pub open spec fn is_composite(f: FrameView, slots: Seq<Captured>) -> bool {
    &&& f.width == desktop_width(placements(slots))
    &&& f.height == desktop_height(placements(slots))
    &&& is_desktop(
        f.rgba,
        slots,
        f.width as int,
        f.height as int,
        left_edge(placements(slots)),
        top_edge(placements(slots)),
    )
}

/// The placements of one picture more.
proof fn lemma_placements_take(slots: Seq<Captured>, i: int)
    requires
        0 <= i < slots.len(),
    ensures
        placements(slots.take(i + 1)).drop_last() == placements(slots.take(i)),
        placements(slots.take(i + 1)).last() == placed(slots[i]),
{
    assert(placements(slots.take(i + 1)).drop_last() =~= placements(slots.take(i)));
}

/// Puts the streams' pictures together, each at its monitor's position, a later one over an
/// earlier one, on a background of zeroes. Fails where a picture has no pixel.
pub fn composite(slots: &[Captured]) -> (r: Result<Frame, ScreencastError>)
    requires
        hold_pixels(slots@),
        !any_blank(placements(slots@)) ==> fits(placements(slots@)),
    ensures
        match r {
            Ok(f) => !any_blank(placements(slots@)) && is_composite(f@, slots@),
            Err(e) => any_blank(placements(slots@)) && e == ScreencastError::EmptyFrame,
        },
{
    let n: usize = slots.len();
    let ghost places = placements(slots@);
    let mut i: usize = 0;
    while i < n
        invariant
            i <= n,
            n == slots@.len(),
            places == placements(slots@),
            forall|j: int| 0 <= j < i ==> !is_blank(#[trigger] places[j]),
        decreases n - i,
    {
        if slots[i].w == 0 || slots[i].h == 0 {
            assert(is_blank(places[i as int]));
            return Err(ScreencastError::EmptyFrame);
        }
        i = i + 1;
    }
    assert(!any_blank(places));
    let mut left: i32 = 0;
    let mut top: i32 = 0;
    let mut right: i32 = 0;
    let mut bottom: i32 = 0;
    i = 0;
    while i < n
        invariant
            i <= n,
            n == slots@.len(),
            places == placements(slots@),
            fits(places),
            left == left_edge(placements(slots@.take(i as int))),
            top == top_edge(placements(slots@.take(i as int))),
            right == right_edge(placements(slots@.take(i as int))),
            bottom == bottom_edge(placements(slots@.take(i as int))),
        decreases n - i,
    {
        let c = &slots[i];
        proof {
            assert(*c == slots@[i as int]);
            assert(places[i as int] == placed(*c));
            lemma_placements_take(slots@, i as int);
        }
        let x: i32 = c.pos.0;
        let y: i32 = c.pos.1;
        let x2: i32 = x + c.w as i32;
        let y2: i32 = y + c.h as i32;
        if i == 0 || x < left {
            left = x;
        }
        if i == 0 || y < top {
            top = y;
        }
        if i == 0 || x2 > right {
            right = x2;
        }
        if i == 0 || y2 > bottom {
            bottom = y2;
        }
        i = i + 1;
    }
    assert(slots@.take(n as int) =~= slots@);
    proof {
        law_edges_enclose_pictures(places);
    }
    let fw: u32 = if right - left < 1 {
        1
    } else {
        (right - left) as u32
    };
    let fh: u32 = if bottom - top < 1 {
        1
    } else {
        (bottom - top) as u32
    };
    let width: usize = fw as usize;
    let height: usize = fh as usize;
    assert(0 <= width * height) by (nonlinear_arith)
        requires
            0 <= width,
            0 <= height,
    ;
    let mut rgba: Vec<u8> = zeroes(width * height * 4);
    assert forall|x: int, y: int, ch: int|
        0 <= x < width && 0 <= y < height && 0 <= ch < 4 implies #[trigger] rgba@[pixel_index(
        width as int,
        x,
        y,
        ch,
    )] == 0 by {
        lemma_pixel_index_in_bounds(width as int, height as int, x, y, ch);
    }
    i = 0;
    while i < n
        invariant
            i <= n,
            n == slots@.len(),
            places == placements(slots@),
            fits(places),
            hold_pixels(slots@),
            left == left_edge(places),
            top == top_edge(places),
            width == desktop_width(places),
            height == desktop_height(places),
            is_desktop(
                rgba@,
                slots@.take(i as int),
                width as int,
                height as int,
                left as int,
                top as int,
            ),
        decreases n - i,
    {
        let c = &slots[i];
        proof {
            law_edges_enclose_pictures(places);
            assert(*c == slots@[i as int]);
            assert(places[i as int] == placed(*c));
        }
        let ox: usize = (c.pos.0 - left) as usize;
        let oy: usize = (c.pos.1 - top) as usize;
        draw(
            &mut rgba,
            c,
            width,
            height,
            ox,
            oy,
            Ghost(slots@.take(i as int)),
            Ghost(left as int),
            Ghost(top as int),
        );
        assert(slots@.take(i + 1) =~= slots@.take(i as int).push(*c));
        i = i + 1;
    }
    assert(slots@.take(n as int) =~= slots@);
    Ok(Frame { width: fw, height: fh, rgba })
}

/// A pixel of the desktop shows the last of the pictures that cover it.
pub proof fn law_last_covering_picture_shows(
    slots: Seq<Captured>,
    i: int,
    left: int,
    top: int,
    x: int,
    y: int,
    ch: int,
)
    requires
        0 <= i < slots.len(),
        covers(slots[i], left, top, x, y),
        forall|j: int| i < j < slots.len() ==> !covers(#[trigger] slots[j], left, top, x, y),
    ensures
        desktop_channel(slots, left, top, x, y, ch) == slots[i].pixels@[pixel_index(
            slots[i].w as int,
            x - (slots[i].pos.0 - left),
            y - (slots[i].pos.1 - top),
            ch,
        )],
    decreases slots.len(),
{
    if i < slots.len() - 1 {
        assert(!covers(slots[slots.len() - 1], left, top, x, y));
        let before = slots.drop_last();
        assert forall|j: int| i < j < before.len() implies !covers(
            #[trigger] before[j],
            left,
            top,
            x,
            y,
        ) by {
            assert(before[j] == slots[j]);
        }
        law_last_covering_picture_shows(before, i, left, top, x, y, ch);
    }
}

/// A pixel of the desktop that no picture covers is zero.
pub proof fn law_uncovered_pixel_is_zero(
    slots: Seq<Captured>,
    left: int,
    top: int,
    x: int,
    y: int,
    ch: int,
)
    requires
        forall|j: int| 0 <= j < slots.len() ==> !covers(#[trigger] slots[j], left, top, x, y),
    ensures
        desktop_channel(slots, left, top, x, y, ch) == 0,
    decreases slots.len(),
{
    if slots.len() > 0 {
        assert(!covers(slots[slots.len() - 1], left, top, x, y));
        let before = slots.drop_last();
        assert forall|j: int| 0 <= j < before.len() implies !covers(
            #[trigger] before[j],
            left,
            top,
            x,
            y,
        ) by {
            assert(before[j] == slots[j]);
        }
        law_uncovered_pixel_is_zero(before, left, top, x, y, ch);
    }
}

/// The states of a stream.
#[derive(Clone, Copy, Debug, PartialEq, Eq, Structural)]
pub enum StreamState {
    Error,
    Unconnected,
    Connecting,
    Paused,
    Streaming,
}

/// A stream that the portal handed out: its node and where its monitor stands.
#[derive(Clone, Copy, Debug)]
pub struct StreamInfo {
    pub node_id: u32,
    pub pos: (i32, i32),
}

/// A stream whose monitor's position is not known stands at the origin.
pub open spec fn stream_info(node_id: u32, position: Option<(i32, i32)>) -> StreamInfo {
    StreamInfo {
        node_id,
        pos: match position {
            Some(pos) => pos,
            None => (0, 0),
        },
    }
}

/// The streams that the portal handed out, of which there is at least one.
pub fn stream_infos(streams: &Vec<(u32, Option<(i32, i32)>)>) -> (r: Result<
    Vec<StreamInfo>,
    ScreencastError,
>)
    ensures
        match r {
            Ok(infos) => {
                &&& streams@.len() > 0
                &&& infos@ == Seq::new(
                    streams@.len(),
                    |i: int| stream_info(streams@[i].0, streams@[i].1),
                )
            },
            Err(e) => streams@.len() == 0 && e == ScreencastError::NoStreams,
        },
{
    let n: usize = streams.len();
    let mut infos: Vec<StreamInfo> = Vec::new();
    let mut i: usize = 0;
    while i < n
        invariant
            i <= n,
            n == streams@.len(),
            infos@ == Seq::new(i as nat, |j: int| stream_info(streams@[j].0, streams@[j].1)),
        decreases n - i,
    {
        let (node_id, position) = streams[i];
        let pos: (i32, i32) = match position {
            Some(pos) => pos,
            None => (0, 0),
        };
        infos.push(StreamInfo { node_id, pos });
        i = i + 1;
        assert(infos@ =~= Seq::new(
            i as nat,
            |j: int| stream_info(streams@[j].0, streams@[j].1),
        ));
    }
    if n == 0 {
        return Err(ScreencastError::NoStreams);
    }
    Ok(infos)
}

/// The token kept from an earlier session: what its file holds, if that is more than white
/// space.
pub fn restore_token(file: &str) -> (r: Option<String>)
    ensures
        match r {
            Some(token) => trimmed(file@).len() > 0 && token@ == trimmed(file@),
            None => trimmed(file@).len() == 0,
        },
{
    let token = trim(file);
    if token.as_str().unicode_len() == 0 {
        None
    } else {
        Some(token)
    }
}

/// Whether a parameter that a stream announces is a format to take over: a format, and one of
/// raw video, as far as it can be read. `media` tells whether the format is one of video and
/// whether it is raw.
pub fn announces_raw_video(is_format: bool, media: Option<(bool, bool)>) -> (r: bool)
    ensures
        r <==> is_format && media == Some((true, true)),
{
    match media {
        Some((video, raw)) => is_format && video && raw,
        None => false,
    }
}

/// The last picture of a stream: its bytes, its size, how many bytes its rows are apart, its
/// layout, where its monitor stands, and whether there is a picture yet.
pub struct Slot {
    pub raw: Vec<u8>,
    pub w: u32,
    pub h: u32,
    pub stride: usize,
    pub format: VideoFormat,
    pub pos: (i32, i32),
    pub present: bool,
}

/// The contents of a `Slot`.
#[verifier::ext_equal]
pub struct SlotView {
    pub raw: Seq<u8>,
    pub w: u32,
    pub h: u32,
    pub stride: usize,
    pub format: VideoFormat,
    pub pos: (i32, i32),
    pub present: bool,
}

impl View for Slot {
    type V = SlotView;

    open spec fn view(&self) -> SlotView {
        SlotView {
            raw: self.raw@,
            w: self.w,
            h: self.h,
            stride: self.stride,
            format: self.format,
            pos: self.pos,
            present: self.present,
        }
    }
}

/// A buffer that a stream delivered: the size and the layout negotiated for it, how many bytes
/// its rows are apart by its own account, and its bytes, if it has any memory.
pub struct Buffer<'a> {
    pub w: u32,
    pub h: u32,
    pub stride: i32,
    pub format: VideoFormat,
    pub data: Option<&'a [u8]>,
}

/// How many nanoseconds lie at least between two pictures that are taken over from a stream.
pub const COPY_INTERVAL: u128 = 66_000_000;

/// How long a picture is waited for before a grab fails, in nanoseconds.
pub const GRAB_TIMEOUT: u128 = 700_000_000;

/// How long the first pictures are waited for, in nanoseconds.
pub const READY_TIMEOUT: u128 = 5_000_000_000;

/// The bytes of a buffer, none where it has no memory.
pub open spec fn buffer_bytes(b: Buffer) -> Seq<u8> {
    match b.data {
        Some(data) => data@,
        None => Seq::empty(),
    }
}

/// How many bytes the rows of a buffer are apart: what it says itself, and at least as many as
/// a row of pixels takes.
pub open spec fn row_bytes(b: Buffer) -> int {
    greatest(b.stride as int, b.w * 4)
}

/// A buffer with a picture, that comes late enough after the one before.
pub open spec fn is_taken(b: Buffer, since_last: u128) -> bool {
    &&& since_last >= COPY_INTERVAL
    &&& b.w > 0
    &&& b.h > 0
    &&& buffer_bytes(b).len() > 0
}

/// How much of a buffer the rows of its picture take.
pub open spec fn taken_bytes(b: Buffer) -> Seq<u8> {
    buffer_bytes(b).take(least(row_bytes(b) * b.h, buffer_bytes(b).len() as int))
}

impl SlotView {
    /// The slot of a stream that has not delivered a picture.
    pub open spec fn empty(pos: (i32, i32)) -> SlotView {
        SlotView {
            raw: Seq::empty(),
            w: 0,
            h: 0,
            stride: 0,
            format: VideoFormat::Bgrx,
            pos,
            present: false,
        }
    }

    /// The slot with the picture of a buffer.
    pub open spec fn holding(self, b: Buffer) -> SlotView {
        SlotView {
            raw: taken_bytes(b),
            w: b.w,
            h: b.h,
            stride: row_bytes(b) as usize,
            format: b.format,
            pos: self.pos,
            present: true,
        }
    }

    /// Where the slot's picture stands.
    pub open spec fn place(self) -> Placed {
        Placed {
            x: self.pos.0 as int,
            y: self.pos.1 as int,
            w: self.w as int,
            h: self.h as int,
        }
    }

    /// The slot's picture covers the desktop pixel (`x`, `y`), counted from (`left`, `top`).
    pub open spec fn shows(self, left: int, top: int, x: int, y: int) -> bool {
        &&& self.pos.0 - left <= x < self.pos.0 - left + self.w
        &&& self.pos.1 - top <= y < self.pos.1 - top + self.h
    }
}

/// Where the pictures of the slots stand.
pub open spec fn slot_places(slots: Seq<SlotView>) -> Seq<Placed> {
    Seq::new(slots.len(), |i: int| slots[i].place())
}

/// Channel `ch` of the desktop pixel (`x`, `y`), counted from (`left`, `top`): that of the last
/// slot whose picture covers it, and zero where none does.
pub open spec fn streamed_channel(
    slots: Seq<SlotView>,
    left: int,
    top: int,
    x: int,
    y: int,
    ch: int,
) -> u8
    decreases slots.len(),
{
    if slots.len() == 0 {
        0
    } else if slots.last().shows(left, top, x, y) {
        let s = slots.last();
        converted_channel(
            s.raw,
            (y - (s.pos.1 - top)) * s.stride + (x - (s.pos.0 - left)) * 4,
            s.format,
            ch,
        )
    } else {
        streamed_channel(slots.drop_last(), left, top, x, y, ch)
    }
}

/// `f` is the desktop that the pictures in the slots make.
pub open spec fn is_grab(f: FrameView, slots: Seq<SlotView>) -> bool {
    let places = slot_places(slots);
    &&& f.width == desktop_width(places)
    &&& f.height == desktop_height(places)
    &&& f.rgba.len() == f.width * f.height * 4
    &&& forall|x: int, y: int, ch: int|
        0 <= x < f.width && 0 <= y < f.height && 0 <= ch < 4 ==> #[trigger] f.rgba[pixel_index(
            f.width as int,
            x,
            y,
            ch,
        )] == streamed_channel(slots, left_edge(places), top_edge(places), x, y, ch)
}

/// The contents of a list of slots.
pub open spec fn slot_views(slots: Seq<Slot>) -> Seq<SlotView> {
    Seq::new(slots.len(), |i: int| slots[i]@)
}

/// What the streams have delivered so far, and how they are doing.
pub struct ScreencastSession {
    latest: Vec<Slot>,
    states: Vec<StreamState>,
}

/// The contents of a `ScreencastSession`.
#[verifier::ext_equal]
pub struct SessionView {
    pub slots: Seq<SlotView>,
    pub states: Seq<StreamState>,
}

impl View for ScreencastSession {
    type V = SessionView;

    closed spec fn view(&self) -> SessionView {
        SessionView { slots: slot_views(self.latest@), states: self.states@ }
    }
}

impl SessionView {
    /// A session in which no stream is connected yet.
    pub open spec fn started(infos: Seq<StreamInfo>) -> SessionView {
        SessionView {
            slots: Seq::new(infos.len(), |i: int| SlotView::empty(infos[i].pos)),
            states: Seq::new(infos.len(), |i: int| StreamState::Unconnected),
        }
    }

    /// Every stream has a slot and a state.
    pub open spec fn well_formed(self) -> bool {
        self.slots.len() == self.states.len()
    }

    /// There are streams, and all of them are running.
    pub open spec fn healthy(self) -> bool {
        &&& self.states.len() > 0
        &&& forall|i: int|
            0 <= i < self.states.len() ==> #[trigger] self.states[i] == StreamState::Streaming
    }

    /// Every stream has delivered a picture.
    pub open spec fn complete(self) -> bool {
        forall|i: int| 0 <= i < self.slots.len() ==> (#[trigger] self.slots[i]).present
    }

    /// One of the pictures has no pixel.
    pub open spec fn has_blank(self) -> bool {
        any_blank(slot_places(self.slots))
    }

    /// The pictures, and the desktop they make, fit the machine's numbers.
    pub open spec fn fits(self) -> bool {
        &&& forall|i: int|
            0 <= i < self.slots.len() ==> (#[trigger] self.slots[i]).w * self.slots[i].h * 4
                <= usize::MAX
        &&& !self.has_blank() ==> fits(slot_places(self.slots))
    }

    /// A stream's state replaced, if there is such a stream.
    pub open spec fn with_state(self, idx: int, state: StreamState) -> SessionView {
        if 0 <= idx < self.states.len() {
            SessionView { states: self.states.update(idx, state), ..self }
        } else {
            self
        }
    }

    /// A buffer of a stream taken over, if it is one to be taken.
    pub open spec fn with_buffer(self, idx: int, b: Buffer, since_last: u128) -> SessionView {
        if is_taken(b, since_last) {
            SessionView { slots: self.slots.update(idx, self.slots[idx].holding(b)), ..self }
        } else {
            self
        }
    }
}

/// What came of an attempt to get a picture of the desktop.
pub enum Attempt {
    /// It has to be tried again a little later.
    Again,
    /// It succeeded or failed for good.
    Done(Result<Frame, ScreencastError>),
}

/// What an attempt comes to, with the frame left open.
pub open spec fn is_attempt(a: Attempt, s: SessionView, elapsed: u128, timeout: u128) -> bool {
    if s.complete() {
        match a {
            Attempt::Done(Ok(f)) => !s.has_blank() && is_grab(f@, s.slots),
            Attempt::Done(Err(e)) => s.has_blank() && e == ScreencastError::EmptyFrame,
            Attempt::Again => false,
        }
    } else if elapsed > timeout {
        a == Attempt::Done(Err(ScreencastError::TimedOut))
    } else {
        a == Attempt::Again
    }
}

/// What a single capture waits for.
#[derive(Clone, Copy, Debug, PartialEq, Eq, Structural)]
pub enum CapturePhase {
    /// For the first pictures.
    Waiting,
    /// For the picture that is kept.
    Grabbing,
}

/// What a single capture does next.
pub enum CaptureStep {
    /// Sleep a little and go on in the same phase.
    Sleep,
    /// Go over to the next phase, and wait anew.
    Grab,
    /// Stop.
    Done(Result<Frame, ScreencastError>),
}

/// The desktop that converted pictures make is the one that the slots make.
proof fn lemma_streamed(
    captured: Seq<Captured>,
    slots: Seq<SlotView>,
    left: int,
    top: int,
    x: int,
    y: int,
    ch: int,
)
    requires
        captured.len() == slots.len(),
        0 <= ch < 4,
        forall|i: int|
            0 <= i < slots.len() ==> placed(#[trigger] captured[i]) == slots[i].place()
                && is_rgba_of(
                captured[i].pixels@,
                slots[i].raw,
                slots[i].w as int,
                slots[i].h as int,
                slots[i].stride as int,
                slots[i].format,
            ),
    ensures
        desktop_channel(captured, left, top, x, y, ch) == streamed_channel(
            slots,
            left,
            top,
            x,
            y,
            ch,
        ),
    decreases slots.len(),
{
    if slots.len() > 0 {
        let c = captured.last();
        let s = slots.last();
        assert(captured[slots.len() - 1] == c);
        assert(placed(c) == s.place());
        if s.shows(left, top, x, y) {
            let (x1, y1) = (x - (s.pos.0 - left), y - (s.pos.1 - top));
            assert(c.pixels@[pixel_index(s.w as int, x1, y1, ch)] == converted_channel(
                s.raw,
                y1 * s.stride + x1 * 4,
                s.format,
                ch,
            ));
        } else {
            assert forall|i: int| 0 <= i < slots.drop_last().len() implies placed(
                #[trigger] captured.drop_last()[i],
            ) == slots.drop_last()[i].place() && is_rgba_of(
                captured.drop_last()[i].pixels@,
                slots.drop_last()[i].raw,
                slots.drop_last()[i].w as int,
                slots.drop_last()[i].h as int,
                slots.drop_last()[i].stride as int,
                slots.drop_last()[i].format,
            ) by {
                assert(captured.drop_last()[i] == captured[i]);
            }
            lemma_streamed(captured.drop_last(), slots.drop_last(), left, top, x, y, ch);
        }
    }
}

impl ScreencastSession {
    /// A session with the given streams, none of which is connected yet.
    pub fn start(infos: &Vec<StreamInfo>) -> (r: ScreencastSession)
        ensures
            r@ == SessionView::started(infos@),
            r@.well_formed(),
    {
        let n: usize = infos.len();
        let mut latest: Vec<Slot> = Vec::new();
        let mut states: Vec<StreamState> = Vec::new();
        let mut i: usize = 0;
        while i < n
            invariant
                i <= n,
                n == infos@.len(),
                latest@.len() == i,
                forall|j: int| 0 <= j < i ==> (#[trigger] latest@[j])@ == SlotView::empty(
                    infos@[j].pos,
                ),
                states@ == Seq::new(i as nat, |j: int| StreamState::Unconnected),
            decreases n - i,
        {
            let slot = Slot {
                raw: Vec::new(),
                w: 0,
                h: 0,
                stride: 0,
                format: VideoFormat::Bgrx,
                pos: infos[i].pos,
                present: false,
            };
            assert(slot@ =~= SlotView::empty(infos@[i as int].pos));
            latest.push(slot);
            states.push(StreamState::Unconnected);
            i = i + 1;
        }
        let r = ScreencastSession { latest, states };
        assert(r@.slots =~= SessionView::started(infos@).slots);
        r
    }

    /// Whether there are streams and all of them are running.
    pub fn is_healthy(&self) -> (r: bool)
        ensures
            r == self@.healthy(),
    {
        let n: usize = self.states.len();
        let mut i: usize = 0;
        while i < n
            invariant
                i <= n,
                n == self.states@.len(),
                forall|j: int|
                    0 <= j < i ==> #[trigger] self.states@[j] == StreamState::Streaming,
            decreases n - i,
        {
            if self.states[i] != StreamState::Streaming {
                assert(self@.states[i as int] != StreamState::Streaming);
                return false;
            }
            i = i + 1;
        }
        n > 0
    }

    /// How many streams there are.
    pub fn streams(&self) -> (r: usize)
        ensures
            r == self@.slots.len(),
    {
        self.latest.len()
    }

    /// A stream has changed its state.
    pub fn state_changed(&mut self, idx: usize, state: StreamState)
        ensures
            final(self)@ == old(self)@.with_state(idx as int, state),
            old(self)@.well_formed() ==> final(self)@.well_formed(),
    {
        if idx < self.states.len() {
            self.states.set(idx, state);
        }
        assert(self@ =~= old(self)@.with_state(idx as int, state));
    }

    /// A stream has delivered a buffer, `since_last` nanoseconds after the last one that was
    /// taken over. Tells whether this one was.
    pub fn process(&mut self, idx: usize, buffer: Buffer, since_last: u128) -> (r: bool)
        requires
            idx < old(self)@.slots.len(),
            buffer.w * 4 <= usize::MAX,
        ensures
            r == is_taken(buffer, since_last),
            final(self)@ == old(self)@.with_buffer(idx as int, buffer, since_last),
            old(self)@.well_formed() ==> final(self)@.well_formed(),
    {
        if since_last < COPY_INTERVAL || buffer.w == 0 || buffer.h == 0 {
            return false;
        }
        let src: &[u8] = match buffer.data {
            Some(data) => data,
            None => return false,
        };
        let n: usize = src.len();
        if n == 0 {
            return false;
        }
        let stride: usize = if buffer.stride > 0 {
            buffer.stride as usize
        } else {
            0
        };
        let width: usize = buffer.w as usize * 4;
        let row: usize = if stride > width {
            stride
        } else {
            width
        };
        assert(row == row_bytes(buffer));
        let len: usize = match row.checked_mul(buffer.h as usize) {
            Some(size) => if size < n {
                size
            } else {
                n
            },
            None => n,
        };
        let mut raw: Vec<u8> = Vec::new();
        append_range(&mut raw, src, 0, len);
        assert(raw@ =~= taken_bytes(buffer));
        let pos: (i32, i32) = self.latest[idx].pos;
        let slot = Slot {
            raw,
            w: buffer.w,
            h: buffer.h,
            stride: row,
            format: buffer.format,
            pos,
            present: true,
        };
        let ghost before = self@;
        assert(self.latest@[idx as int]@ == before.slots[idx as int]);
        assert(slot@ =~= before.slots[idx as int].holding(buffer));
        self.latest.set(idx, slot);
        assert(self@ =~= before.with_buffer(idx as int, buffer, since_last));
        true
    }

    /// Whether every stream has delivered a picture.
    fn is_complete(&self) -> (r: bool)
        ensures
            r == self@.complete(),
    {
        let n: usize = self.latest.len();
        let mut i: usize = 0;
        while i < n
            invariant
                i <= n,
                n == self.latest@.len(),
                forall|j: int| 0 <= j < i ==> (#[trigger] self@.slots[j]).present,
            decreases n - i,
        {
            assert(self@.slots[i as int] == self.latest@[i as int]@);
            if !self.latest[i].present {
                return false;
            }
            i = i + 1;
        }
        true
    }

    /// The desktop that the pictures make.
    fn assemble(&self) -> (r: Result<Frame, ScreencastError>)
        requires
            self@.fits(),
        ensures
            match r {
                Ok(f) => !self@.has_blank() && is_grab(f@, self@.slots),
                Err(e) => self@.has_blank() && e == ScreencastError::EmptyFrame,
            },
    {
        let ghost slots = self@.slots;
        let n: usize = self.latest.len();
        let mut captured: Vec<Captured> = Vec::new();
        let mut i: usize = 0;
        while i < n
            invariant
                i <= n,
                n == self.latest@.len(),
                slots == self@.slots,
                self@.fits(),
                captured@.len() == i,
                forall|j: int|
                    0 <= j < i ==> placed(#[trigger] captured@[j]) == slots[j].place()
                        && is_rgba_of(
                        captured@[j].pixels@,
                        slots[j].raw,
                        slots[j].w as int,
                        slots[j].h as int,
                        slots[j].stride as int,
                        slots[j].format,
                    ),
            decreases n - i,
        {
            let s = &self.latest[i];
            assert(slots[i as int] == s@);
            let pixels = to_rgba(s.raw.as_slice(), s.w, s.h, s.stride, s.format);
            captured.push(Captured { pixels, w: s.w, h: s.h, pos: s.pos });
            i = i + 1;
        }
        assert(placements(captured@) =~= slot_places(slots));
        let r = composite(captured.as_slice());
        proof {
            let places = slot_places(slots);
            let (left, top) = (left_edge(places), top_edge(places));
            if r is Ok {
                let f = r->Ok_0;
                assert forall|x: int, y: int, ch: int|
                    0 <= x < f.width && 0 <= y < f.height && 0 <= ch < 4 implies #[trigger] f@.rgba[pixel_index(
                    f.width as int,
                    x,
                    y,
                    ch,
                )] == streamed_channel(slots, left, top, x, y, ch) by {
                    lemma_streamed(captured@, slots, left, top, x, y, ch);
                }
            }
        }
        r
    }

    /// One attempt to get a picture of the desktop, `elapsed` nanoseconds after the first: once
    /// every stream has delivered a picture it is decided, and after the timeout it fails.
    pub fn grab_inner(&self, elapsed: u128, timeout: u128) -> (r: Attempt)
        requires
            self@.complete() ==> self@.fits(),
        ensures
            is_attempt(r, self@, elapsed, timeout),
    {
        if self.is_complete() {
            Attempt::Done(self.assemble())
        } else if elapsed > timeout {
            Attempt::Done(Err(ScreencastError::TimedOut))
        } else {
            Attempt::Again
        }
    }

    /// Whether the streams have delivered their pictures, as far as that is known `elapsed`
    /// nanoseconds after the first question.
    pub fn wait_ready(&self, elapsed: u128, timeout: u128) -> (r: Option<bool>)
        requires
            self@.complete() ==> self@.fits(),
        ensures
            r == if self@.complete() {
                Some(!self@.has_blank())
            } else if elapsed > timeout {
                Some(false)
            } else {
                None
            },
    {
        match self.grab_inner(elapsed, timeout) {
            Attempt::Done(Ok(_)) => Some(true),
            Attempt::Done(Err(_)) => Some(false),
            Attempt::Again => None,
        }
    }

    /// One attempt to get a picture of the desktop, which fails after `GRAB_TIMEOUT`.
    pub fn grab(&self, elapsed: u128) -> (r: Attempt)
        requires
            self@.complete() ==> self@.fits(),
        ensures
            is_attempt(r, self@, elapsed, GRAB_TIMEOUT),
    {
        self.grab_inner(elapsed, GRAB_TIMEOUT)
    }

    /// Whether the pictures, and the desktop they make, fit the machine's numbers.
    pub fn fits_machine(&self) -> (r: bool)
        ensures
            r == self@.fits(),
    {
        let n: usize = self.latest.len();
        let ghost slots = self@.slots;
        let ghost places = slot_places(slots);
        let mut blank = false;
        let mut small = true;
        let mut left: i64 = 0;
        let mut top: i64 = 0;
        let mut right: i64 = 0;
        let mut bottom: i64 = 0;
        let mut i: usize = 0;
        while i < n
            invariant
                i <= n,
                n == self.latest@.len(),
                slots == self@.slots,
                places == slot_places(slots),
                forall|j: int|
                    0 <= j < i ==> (#[trigger] slots[j]).w * slots[j].h * 4 <= usize::MAX,
                blank <==> exists|j: int| 0 <= j < i && is_blank(#[trigger] places[j]),
                small <==> forall|j: int|
                    0 <= j < i ==> {
                        let p = #[trigger] places[j];
                        &&& p.w <= i32::MAX
                        &&& p.h <= i32::MAX
                        &&& p.x + p.w <= i32::MAX
                        &&& p.y + p.h <= i32::MAX
                    },
                left == left_edge(places.take(i as int)),
                top == top_edge(places.take(i as int)),
                right == right_edge(places.take(i as int)),
                bottom == bottom_edge(places.take(i as int)),
                -0x8000_0000 <= left <= 0x7fff_ffff,
                -0x8000_0000 <= top <= 0x7fff_ffff,
                -0x8000_0000 <= right <= 0x2_0000_0000,
                -0x8000_0000 <= bottom <= 0x2_0000_0000,
            decreases n - i,
        {
            let s = &self.latest[i];
            assert(slots[i as int] == s@);
            assert(places[i as int] == s@.place());
            assert(places.take(i + 1).drop_last() =~= places.take(i as int));
            assert(s.w * s.h <= u32::MAX * u32::MAX) by (nonlinear_arith)
                requires
                    s.w <= u32::MAX,
                    s.h <= u32::MAX,
            ;
            if s.w as u128 * s.h as u128 * 4 > usize::MAX as u128 {
                assert(slots[i as int].w * slots[i as int].h * 4 > usize::MAX);
                return false;
            }
            if s.w == 0 || s.h == 0 {
                blank = true;
                assert(is_blank(places[i as int]));
            }
            let (x, y): (i64, i64) = (s.pos.0 as i64, s.pos.1 as i64);
            let (x2, y2): (i64, i64) = (x + s.w as i64, y + s.h as i64);
            if s.w > 0x7fff_ffff || s.h > 0x7fff_ffff || x2 > 0x7fff_ffff || y2 > 0x7fff_ffff {
                small = false;
            }
            if i == 0 || x < left {
                left = x;
            }
            if i == 0 || y < top {
                top = y;
            }
            if i == 0 || x2 > right {
                right = x2;
            }
            if i == 0 || y2 > bottom {
                bottom = y2;
            }
            i = i + 1;
        }
        assert(places.take(n as int) =~= places);
        assert(blank == any_blank(places));
        if blank {
            return true;
        }
        let (across, down): (i64, i64) = (right - left, bottom - top);
        if !small || across > 0x7fff_ffff || down > 0x7fff_ffff {
            return false;
        }
        let width: u128 = if across < 1 {
            1
        } else {
            across as u128
        };
        let height: u128 = if down < 1 {
            1
        } else {
            down as u128
        };
        assert(width * height <= 0x8000_0000 * 0x8000_0000) by (nonlinear_arith)
            requires
                0 <= width <= 0x8000_0000,
                0 <= height <= 0x8000_0000,
        ;
        width * height * 4 <= usize::MAX as u128
    }
}

/// One step of a single capture, `elapsed` nanoseconds into its phase: the first pictures
/// are waited for, and a picture without a pixel among them counts as none; the desktop is
/// grabbed once they are there.
pub fn capture_once(
    session: &ScreencastSession,
    phase: CapturePhase,
    elapsed: u128,
) -> (r: CaptureStep)
    requires
        session@.complete() ==> session@.fits(),
    ensures
        match phase {
            CapturePhase::Waiting => r == if session@.complete() && !session@.has_blank() {
                CaptureStep::Grab
            } else if session@.complete() || elapsed > READY_TIMEOUT {
                CaptureStep::Done(Err(ScreencastError::TimedOut))
            } else {
                CaptureStep::Sleep
            },
            CapturePhase::Grabbing => match r {
                CaptureStep::Sleep => is_attempt(
                    Attempt::Again,
                    session@,
                    elapsed,
                    GRAB_TIMEOUT,
                ),
                CaptureStep::Done(done) => is_attempt(
                    Attempt::Done(done),
                    session@,
                    elapsed,
                    GRAB_TIMEOUT,
                ),
                CaptureStep::Grab => false,
            },
        },
{
    match phase {
        CapturePhase::Waiting => match session.wait_ready(elapsed, READY_TIMEOUT) {
            Some(true) => CaptureStep::Grab,
            Some(false) => CaptureStep::Done(Err(ScreencastError::TimedOut)),
            None => CaptureStep::Sleep,
        },
        CapturePhase::Grabbing => match session.grab(elapsed) {
            Attempt::Done(done) => CaptureStep::Done(done),
            Attempt::Again => CaptureStep::Sleep,
        },
    }
}

/// What a stream has delivered stays available, and the other streams' pictures stay as they
/// are.
pub proof fn law_pictures_stay(s: SessionView, idx: int, b: Buffer, since_last: u128, i: int)
    requires
        0 <= idx < s.slots.len(),
        0 <= i < s.slots.len(),
    ensures
        s.slots[i].present ==> s.with_buffer(idx, b, since_last).slots[i].present,
        i != idx ==> s.with_buffer(idx, b, since_last).slots[i] == s.slots[i],
        s.with_buffer(idx, b, since_last).states == s.states,
{
}

/// A session started with streams is neither healthy nor complete.
pub proof fn law_started_session_waits(infos: Seq<StreamInfo>)
    requires
        infos.len() > 0,
    ensures
        !SessionView::started(infos).healthy(),
        !SessionView::started(infos).complete(),
{
    let s = SessionView::started(infos);
    assert(s.states[0] != StreamState::Streaming);
    assert(!s.slots[0].present);
}

/// No picture that is taken over is without a pixel.
pub proof fn law_taken_pictures_have_pixels(
    s: SessionView,
    idx: int,
    b: Buffer,
    since_last: u128,
)
    requires
        0 <= idx < s.slots.len(),
        is_taken(b, since_last),
    ensures
        !is_blank(s.with_buffer(idx, b, since_last).slots[idx].place()),
{
}

/// Pixels that arrive as red, green, blue and alpha, with no gap between the rows, are kept as
/// they are.
pub proof fn law_tight_rgba_is_kept(out: Seq<u8>, src: Seq<u8>, w: int, h: int)
    requires
        0 < w,
        0 < h,
        src.len() == w * h * 4,
        is_rgba_of(out, src, w, h, w * 4, VideoFormat::Rgba),
    ensures
        out == src,
{
    assert forall|i: int| 0 <= i < src.len() implies #[trigger] out[i] == src[i] by {
        lemma_byte_is_channel(w, h, i);
        let (x, y, ch) = (i / 4 % w, i / 4 / w, i % 4);
        assert(y * (w * 4) == (y * w) * 4) by (nonlinear_arith);
        assert(out[pixel_index(w, x, y, ch)] == converted_channel(
            src,
            y * (w * 4) + x * 4,
            VideoFormat::Rgba,
            ch,
        ));
    }
    assert(out =~= src);
}

/// Every pixel keeps its own color: where blue comes first, the red, green and blue bytes of a
/// pixel are the third, second and first byte of that same pixel of the source, else they are
/// its first, second and third byte. Alpha is the fourth byte where the layout has alpha, and
/// full where it has not.
pub proof fn law_pixels_keep_their_own_color(
    out: Seq<u8>,
    src: Seq<u8>,
    w: int,
    h: int,
    row_bytes: int,
    format: VideoFormat,
    x: int,
    y: int,
)
    requires
        is_rgba_of(out, src, w, h, row_bytes, format),
        0 <= x < w,
        0 <= y < h,
        y * row_bytes + x * 4 + 3 < src.len(),
    ensures
        ({
            let o = (y * w + x) * 4;
            let i = y * row_bytes + x * 4;
            &&& match format {
                VideoFormat::Bgrx | VideoFormat::Bgra => {
                    &&& out[o] == src[i + 2]
                    &&& out[o + 1] == src[i + 1]
                    &&& out[o + 2] == src[i]
                },
                VideoFormat::Rgbx | VideoFormat::Rgba | VideoFormat::Other => {
                    &&& out[o] == src[i]
                    &&& out[o + 1] == src[i + 1]
                    &&& out[o + 2] == src[i + 2]
                },
            }
            &&& match format {
                VideoFormat::Rgba | VideoFormat::Bgra => out[o + 3] == src[i + 3],
                VideoFormat::Rgbx | VideoFormat::Bgrx | VideoFormat::Other => out[o + 3] == 255,
            }
        }),
{
    let at = y * row_bytes + x * 4;
    assert(out[pixel_index(w, x, y, 0)] == converted_channel(src, at, format, 0));
    assert(out[pixel_index(w, x, y, 1)] == converted_channel(src, at, format, 1));
    assert(out[pixel_index(w, x, y, 2)] == converted_channel(src, at, format, 2));
    assert(out[pixel_index(w, x, y, 3)] == converted_channel(src, at, format, 3));
}

/// A converted picture has four bytes for each pixel, and a pixel that the source does not hold
/// whole is zero in all of them.
pub proof fn law_missing_pixels_are_zero(
    out: Seq<u8>,
    src: Seq<u8>,
    w: int,
    h: int,
    row_bytes: int,
    format: VideoFormat,
    x: int,
    y: int,
)
    requires
        is_rgba_of(out, src, w, h, row_bytes, format),
        0 <= x < w,
        0 <= y < h,
        y * row_bytes + x * 4 + 3 >= src.len(),
    ensures
        out.len() == w * h * 4,
        out[(y * w + x) * 4] == 0,
        out[(y * w + x) * 4 + 1] == 0,
        out[(y * w + x) * 4 + 2] == 0,
        out[(y * w + x) * 4 + 3] == 0,
{
    let at = y * row_bytes + x * 4;
    assert(out[pixel_index(w, x, y, 0)] == converted_channel(src, at, format, 0));
    assert(out[pixel_index(w, x, y, 1)] == converted_channel(src, at, format, 1));
    assert(out[pixel_index(w, x, y, 2)] == converted_channel(src, at, format, 2));
    assert(out[pixel_index(w, x, y, 3)] == converted_channel(src, at, format, 3));
}

/// The bytes with the first and the third byte of each four exchanged.
pub open spec fn exchanged(src: Seq<u8>) -> Seq<u8> {
    Seq::new(
        src.len(),
        |k: int|
            if k % 4 == 0 && k + 2 < src.len() {
                src[k + 2]
            } else if k % 4 == 2 {
                src[k - 2]
            } else {
                src[k]
            },
    )
}

/// A picture with blue first becomes what the picture with red first becomes whose pixels have
/// their first and their third byte exchanged.
pub proof fn law_blue_first_is_red_first_exchanged(
    p: Seq<u8>,
    q: Seq<u8>,
    src: Seq<u8>,
    w: int,
    h: int,
    row_bytes: int,
    alpha: bool,
)
    requires
        0 < w,
        0 <= row_bytes,
        row_bytes % 4 == 0,
        is_rgba_of(
            p,
            src,
            w,
            h,
            row_bytes,
            if alpha {
                VideoFormat::Bgra
            } else {
                VideoFormat::Bgrx
            },
        ),
        is_rgba_of(
            q,
            exchanged(src),
            w,
            h,
            row_bytes,
            if alpha {
                VideoFormat::Rgba
            } else {
                VideoFormat::Rgbx
            },
        ),
    ensures
        p == q,
{
    let other = exchanged(src);
    assert forall|i: int| 0 <= i < p.len() implies #[trigger] p[i] == q[i] by {
        lemma_byte_is_channel(w, h, i);
        let (x, y, ch) = (i / 4 % w, i / 4 / w, i % 4);
        let at = y * row_bytes + x * 4;
        assert(0 <= y * row_bytes && (y * row_bytes) % 4 == 0) by (nonlinear_arith)
            requires
                0 <= y,
                0 <= row_bytes,
                row_bytes % 4 == 0,
        ;
        assert(at % 4 == 0);
        assert(p[pixel_index(w, x, y, ch)] == converted_channel(
            src,
            at,
            if alpha {
                VideoFormat::Bgra
            } else {
                VideoFormat::Bgrx
            },
            ch,
        ));
        assert(q[pixel_index(w, x, y, ch)] == converted_channel(
            other,
            at,
            if alpha {
                VideoFormat::Rgba
            } else {
                VideoFormat::Rgbx
            },
            ch,
        ));
        if at + 3 < src.len() {
            assert(other[at] == src[at + 2]);
            assert(other[at + 1] == src[at + 1]);
            assert(other[at + 2] == src[at]);
            assert(other[at + 3] == src[at + 3]);
        }
    }
    assert(p =~= q);
}

/// Pixels that arrive with blue first and with no gap between the rows are kept where they are,
/// each with its first and its third byte exchanged, and with full alpha where the layout has no
/// alpha.
pub proof fn law_tight_blue_first_is_exchanged(
    out: Seq<u8>,
    src: Seq<u8>,
    w: int,
    h: int,
    format: VideoFormat,
    p: int,
)
    requires
        0 < w,
        0 < h,
        src.len() == w * h * 4,
        format is Bgra || format is Bgrx,
        is_rgba_of(out, src, w, h, w * 4, format),
        0 <= p < w * h,
    ensures
        out.len() == src.len(),
        out[4 * p] == src[4 * p + 2],
        out[4 * p + 1] == src[4 * p + 1],
        out[4 * p + 2] == src[4 * p],
        out[4 * p + 3] == if format is Bgra {
            src[4 * p + 3]
        } else {
            255
        },
{
    lemma_byte_is_channel(w, h, 4 * p);
    let (x, y) = (4 * p / 4 % w, 4 * p / 4 / w);
    assert(4 * p / 4 == p);
    assert(y * (w * 4) == (y * w) * 4) by (nonlinear_arith);
    assert((y * w + x) * 4 == 4 * p);
    law_pixels_keep_their_own_color(out, src, w, h, w * 4, format, x, y);
}

/// The edges of the desktop are those of pictures.
pub proof fn law_edges_are_reached(places: Seq<Placed>)
    requires
        places.len() > 0,
    ensures
        exists|i: int| 0 <= i < places.len() && (#[trigger] places[i]).x == left_edge(places),
        exists|i: int| 0 <= i < places.len() && (#[trigger] places[i]).y == top_edge(places),
        exists|i: int|
            0 <= i < places.len() && (#[trigger] places[i]).x + places[i].w == right_edge(places),
        exists|i: int|
            0 <= i < places.len() && (#[trigger] places[i]).y + places[i].h == bottom_edge(places),
    decreases places.len(),
{
    let n = places.len() - 1;
    let last = places[n];
    if n > 0 {
        let before = places.drop_last();
        law_edges_are_reached(before);
        assert(forall|i: int| 0 <= i < n ==> #[trigger] before[i] == places[i]);
        let a = choose|i: int| 0 <= i < n && (#[trigger] before[i]).x == left_edge(before);
        let b = choose|i: int| 0 <= i < n && (#[trigger] before[i]).y == top_edge(before);
        let c = choose|i: int|
            0 <= i < n && (#[trigger] before[i]).x + before[i].w == right_edge(before);
        let d = choose|i: int|
            0 <= i < n && (#[trigger] before[i]).y + before[i].h == bottom_edge(before);
        assert(places[a].x == left_edge(places) || last.x == left_edge(places));
        assert(places[b].y == top_edge(places) || last.y == top_edge(places));
        assert(places[c].x + places[c].w == right_edge(places) || last.x + last.w == right_edge(
            places,
        ));
        assert(places[d].y + places[d].h == bottom_edge(places) || last.y + last.h == bottom_edge(
            places,
        ));
    }
}

/// The rectangle from (`left`, `top`) to (`right`, `bottom`) holds all of the places, and each
/// of its sides is that of one of them.
pub open spec fn just_holds(
    places: Seq<(int, int, int, int)>,
    left: int,
    top: int,
    right: int,
    bottom: int,
) -> bool {
    &&& forall|i: int|
        0 <= i < places.len() ==> {
            &&& left <= (#[trigger] places[i]).0
            &&& top <= places[i].1
            &&& places[i].0 + places[i].2 <= right
            &&& places[i].1 + places[i].3 <= bottom
        }
    &&& exists|i: int| 0 <= i < places.len() && left == (#[trigger] places[i]).0
    &&& exists|i: int| 0 <= i < places.len() && top == (#[trigger] places[i]).1
    &&& exists|i: int|
        0 <= i < places.len() && right == (#[trigger] places[i]).0 + places[i].2
    &&& exists|i: int|
        0 <= i < places.len() && bottom == (#[trigger] places[i]).1 + places[i].3
}

/// The edges of the desktop are the sides of the rectangle that just holds the pictures.
proof fn lemma_just_holds(
    places: Seq<Placed>,
    corners: Seq<(int, int, int, int)>,
    left: int,
    top: int,
    right: int,
    bottom: int,
)
    requires
        just_holds(corners, left, top, right, bottom),
        corners.len() == places.len(),
        forall|i: int|
            0 <= i < places.len() ==> #[trigger] corners[i] == (
                places[i].x,
                places[i].y,
                places[i].w,
                places[i].h,
            ),
    ensures
        left == left_edge(places),
        top == top_edge(places),
        right == right_edge(places),
        bottom == bottom_edge(places),
{
    law_edges_enclose_pictures(places);
    law_edges_are_reached(places);
    let n = places.len();
    let a = choose|i: int| 0 <= i < n && (#[trigger] places[i]).x == left_edge(places);
    let b = choose|i: int| 0 <= i < n && (#[trigger] places[i]).y == top_edge(places);
    let c = choose|i: int|
        0 <= i < n && (#[trigger] places[i]).x + places[i].w == right_edge(places);
    let d = choose|i: int|
        0 <= i < n && (#[trigger] places[i]).y + places[i].h == bottom_edge(places);
    assert(left <= corners[a].0);
    assert(top <= corners[b].1);
    assert(corners[c].0 + corners[c].2 <= right);
    assert(corners[d].1 + corners[d].3 <= bottom);
    let a = choose|i: int| 0 <= i < n && left == (#[trigger] corners[i]).0;
    let b = choose|i: int| 0 <= i < n && top == (#[trigger] corners[i]).1;
    let c = choose|i: int| 0 <= i < n && right == (#[trigger] corners[i]).0 + corners[i].2;
    let d = choose|i: int| 0 <= i < n && bottom == (#[trigger] corners[i]).1 + corners[i].3;
    assert(left_edge(places) <= places[a].x);
    assert(top_edge(places) <= places[b].y);
    assert(places[c].x + places[c].w <= right_edge(places));
    assert(places[d].y + places[d].h <= bottom_edge(places));
}

/// Where pictures stand: their left and upper sides, their widths and heights.
pub open spec fn picture_places(slots: Seq<Captured>) -> Seq<(int, int, int, int)> {
    Seq::new(
        slots.len(),
        |i: int|
            (
                slots[i].pos.0 as int,
                slots[i].pos.1 as int,
                slots[i].w as int,
                slots[i].h as int,
            ),
    )
}

/// Where the pictures of slots stand: their left and upper sides, their widths and heights.
pub open spec fn slot_corners(slots: Seq<SlotView>) -> Seq<(int, int, int, int)> {
    Seq::new(
        slots.len(),
        |i: int|
            (
                slots[i].pos.0 as int,
                slots[i].pos.1 as int,
                slots[i].w as int,
                slots[i].h as int,
            ),
    )
}

/// The point lies in the picture that stands at the given place.
pub open spec fn lies_in(place: (int, int, int, int), x: int, y: int) -> bool {
    place.0 <= x < place.0 + place.2 && place.1 <= y < place.1 + place.3
}

/// The pixel (`x`, `y`) of a picture shows on the desktop at the distance from the desktop's
/// corner at which it stands, unless a later picture hides it. The desktop is as large as the
/// rectangle that just holds the pictures.
pub proof fn law_picture_shows_where_it_stands(
    f: FrameView,
    slots: Seq<Captured>,
    left: int,
    top: int,
    right: int,
    bottom: int,
    i: int,
    x: int,
    y: int,
    ch: int,
)
    requires
        is_composite(f, slots),
        just_holds(picture_places(slots), left, top, right, bottom),
        0 <= i < slots.len(),
        0 <= x < slots[i].w,
        0 <= y < slots[i].h,
        0 <= ch < 4,
        forall|j: int|
            i < j < slots.len() ==> !lies_in(
                #[trigger] picture_places(slots)[j],
                slots[i].pos.0 + x,
                slots[i].pos.1 + y,
            ),
    ensures
        f.width == right - left,
        f.height == bottom - top,
        f.rgba.len() == f.width * f.height * 4,
        f.rgba[((slots[i].pos.1 - top + y) * f.width + (slots[i].pos.0 - left + x)) * 4 + ch]
            == slots[i].pixels@[(y * slots[i].w + x) * 4 + ch],
{
    let places = placements(slots);
    let corners = picture_places(slots);
    lemma_just_holds(places, corners, left, top, right, bottom);
    law_edges_enclose_pictures(places);
    assert(places[i] == placed(slots[i]));
    let (dx, dy) = (slots[i].pos.0 - left + x, slots[i].pos.1 - top + y);
    assert(covers(slots[i], left, top, dx, dy));
    assert forall|j: int| i < j < slots.len() implies !covers(
        #[trigger] slots[j],
        left,
        top,
        dx,
        dy,
    ) by {
        assert(!lies_in(corners[j], slots[i].pos.0 + x, slots[i].pos.1 + y));
    }
    law_last_covering_picture_shows(slots, i, left, top, dx, dy, ch);
    assert(f.rgba[pixel_index(f.width as int, dx, dy, ch)] == desktop_channel(
        slots,
        left,
        top,
        dx,
        dy,
        ch,
    ));
}

/// A pixel of the desktop where no picture stands is zero.
pub proof fn law_no_picture_leaves_zero(
    f: FrameView,
    slots: Seq<Captured>,
    left: int,
    top: int,
    right: int,
    bottom: int,
    x: int,
    y: int,
    ch: int,
)
    requires
        is_composite(f, slots),
        just_holds(picture_places(slots), left, top, right, bottom),
        0 <= x < f.width,
        0 <= y < f.height,
        0 <= ch < 4,
        forall|j: int|
            0 <= j < slots.len() ==> !lies_in(
                #[trigger] picture_places(slots)[j],
                left + x,
                top + y,
            ),
    ensures
        f.rgba[(y * f.width + x) * 4 + ch] == 0,
{
    let corners = picture_places(slots);
    lemma_just_holds(placements(slots), corners, left, top, right, bottom);
    assert forall|j: int| 0 <= j < slots.len() implies !covers(
        #[trigger] slots[j],
        left,
        top,
        x,
        y,
    ) by {
        assert(!lies_in(corners[j], left + x, top + y));
    }
    law_uncovered_pixel_is_zero(slots, left, top, x, y, ch);
    assert(f.rgba[pixel_index(f.width as int, x, y, ch)] == desktop_channel(
        slots,
        left,
        top,
        x,
        y,
        ch,
    ));
}

/// A pixel of the desktop shows the last of the slots whose pictures cover it.
proof fn lemma_last_slot_shows(
    slots: Seq<SlotView>,
    i: int,
    left: int,
    top: int,
    x: int,
    y: int,
    ch: int,
)
    requires
        0 <= i < slots.len(),
        slots[i].shows(left, top, x, y),
        forall|j: int| i < j < slots.len() ==> !(#[trigger] slots[j]).shows(left, top, x, y),
    ensures
        streamed_channel(slots, left, top, x, y, ch) == converted_channel(
            slots[i].raw,
            (y - (slots[i].pos.1 - top)) * slots[i].stride + (x - (slots[i].pos.0 - left)) * 4,
            slots[i].format,
            ch,
        ),
    decreases slots.len(),
{
    if i < slots.len() - 1 {
        assert(!slots[slots.len() - 1].shows(left, top, x, y));
        let before = slots.drop_last();
        assert forall|j: int| i < j < before.len() implies !(#[trigger] before[j]).shows(
            left,
            top,
            x,
            y,
        ) by {
            assert(before[j] == slots[j]);
        }
        lemma_last_slot_shows(before, i, left, top, x, y, ch);
    }
}

/// A pixel of the desktop that no slot's picture covers is zero.
proof fn lemma_no_slot_shows(
    slots: Seq<SlotView>,
    left: int,
    top: int,
    x: int,
    y: int,
    ch: int,
)
    requires
        forall|j: int| 0 <= j < slots.len() ==> !(#[trigger] slots[j]).shows(left, top, x, y),
    ensures
        streamed_channel(slots, left, top, x, y, ch) == 0,
    decreases slots.len(),
{
    if slots.len() > 0 {
        assert(!slots[slots.len() - 1].shows(left, top, x, y));
        let before = slots.drop_last();
        assert forall|j: int| 0 <= j < before.len() implies !(#[trigger] before[j]).shows(
            left,
            top,
            x,
            y,
        ) by {
            assert(before[j] == slots[j]);
        }
        lemma_no_slot_shows(before, left, top, x, y, ch);
    }
}

/// A grabbed desktop is as large as the rectangle that just holds the streams' pictures, and
/// each pixel of a picture that no later one hides shows there where its monitor stands, with
/// the color that its own bytes give it in the stream's layout.
pub proof fn law_grab_shows_the_streams(
    f: FrameView,
    slots: Seq<SlotView>,
    left: int,
    top: int,
    right: int,
    bottom: int,
    i: int,
    x: int,
    y: int,
)
    requires
        is_grab(f, slots),
        just_holds(slot_corners(slots), left, top, right, bottom),
        0 <= i < slots.len(),
        0 <= x < slots[i].w,
        0 <= y < slots[i].h,
        y * slots[i].stride + x * 4 + 3 < slots[i].raw.len(),
        forall|j: int|
            i < j < slots.len() ==> !lies_in(
                #[trigger] slot_corners(slots)[j],
                slots[i].pos.0 + x,
                slots[i].pos.1 + y,
            ),
    ensures
        f.width == right - left,
        f.height == bottom - top,
        f.rgba.len() == f.width * f.height * 4,
        ({
            let s = slots[i];
            let o = ((s.pos.1 - top + y) * f.width + (s.pos.0 - left + x)) * 4;
            let at = y * s.stride + x * 4;
            let blue_first = s.format is Bgrx || s.format is Bgra;
            let alpha = s.format is Rgba || s.format is Bgra;
            &&& f.rgba[o] == s.raw[at + if blue_first { 2int } else { 0 }]
            &&& f.rgba[o + 1] == s.raw[at + 1]
            &&& f.rgba[o + 2] == s.raw[at + if blue_first { 0int } else { 2 }]
            &&& f.rgba[o + 3] == if alpha { s.raw[at + 3] } else { 255 }
        }),
{
    let places = slot_places(slots);
    let corners = slot_corners(slots);
    lemma_just_holds(places, corners, left, top, right, bottom);
    law_edges_enclose_pictures(places);
    assert(places[i] == slots[i].place());
    let (dx, dy) = (slots[i].pos.0 - left + x, slots[i].pos.1 - top + y);
    assert(slots[i].shows(left, top, dx, dy));
    assert forall|j: int| i < j < slots.len() implies !(#[trigger] slots[j]).shows(
        left,
        top,
        dx,
        dy,
    ) by {
        assert(!lies_in(corners[j], slots[i].pos.0 + x, slots[i].pos.1 + y));
    }
    assert forall|ch: int| 0 <= ch < 4 implies #[trigger] f.rgba[pixel_index(
        f.width as int,
        dx,
        dy,
        ch,
    )] == converted_channel(
        slots[i].raw,
        y * slots[i].stride + x * 4,
        slots[i].format,
        ch,
    ) by {
        lemma_last_slot_shows(slots, i, left, top, dx, dy, ch);
    }
    assert(f.rgba[pixel_index(f.width as int, dx, dy, 0)] == f.rgba[(dy * f.width + dx) * 4]);
    assert(f.rgba[pixel_index(f.width as int, dx, dy, 1)] == f.rgba[(dy * f.width + dx) * 4 + 1]);
    assert(f.rgba[pixel_index(f.width as int, dx, dy, 2)] == f.rgba[(dy * f.width + dx) * 4 + 2]);
    assert(f.rgba[pixel_index(f.width as int, dx, dy, 3)] == f.rgba[(dy * f.width + dx) * 4 + 3]);
}

/// A pixel of a grabbed desktop where no monitor stands is zero.
pub proof fn law_grab_is_zero_between_the_streams(
    f: FrameView,
    slots: Seq<SlotView>,
    left: int,
    top: int,
    right: int,
    bottom: int,
    x: int,
    y: int,
    ch: int,
)
    requires
        is_grab(f, slots),
        just_holds(slot_corners(slots), left, top, right, bottom),
        0 <= x < f.width,
        0 <= y < f.height,
        0 <= ch < 4,
        forall|j: int|
            0 <= j < slots.len() ==> !lies_in(#[trigger] slot_corners(slots)[j], left + x, top + y),
    ensures
        f.rgba[(y * f.width + x) * 4 + ch] == 0,
{
    let corners = slot_corners(slots);
    lemma_just_holds(slot_places(slots), corners, left, top, right, bottom);
    assert forall|j: int| 0 <= j < slots.len() implies !(#[trigger] slots[j]).shows(
        left,
        top,
        x,
        y,
    ) by {
        assert(!lies_in(corners[j], left + x, top + y));
    }
    lemma_no_slot_shows(slots, left, top, x, y, ch);
    assert(f.rgba[pixel_index(f.width as int, x, y, ch)] == streamed_channel(
        slots,
        left,
        top,
        x,
        y,
        ch,
    ));
}

/// A buffer with memory, with pixels and not too soon after the last one is taken over: its size,
/// its layout and its first bytes, as many as its rows take. The rows are as far apart as the
/// buffer says, but not closer than they are long. The monitor stays where it stands.
pub proof fn law_taken_buffer_becomes_the_picture(
    s: SessionView,
    idx: int,
    b: Buffer,
    data: Seq<u8>,
    since_last: u128,
)
    requires
        0 <= idx < s.slots.len(),
        b.data is Some,
        data == b.data->Some_0@,
        data.len() > 0,
        b.w > 0,
        b.h > 0,
        b.w * 4 <= usize::MAX,
        since_last >= 66_000_000,
    ensures
        is_taken(b, since_last),
        ({
            let n = s.with_buffer(idx, b, since_last).slots[idx];
            &&& n.present
            &&& n.w == b.w
            &&& n.h == b.h
            &&& n.format == b.format
            &&& n.pos == s.slots[idx].pos
            &&& b.stride >= b.w * 4 ==> n.stride == b.stride
            &&& b.stride < b.w * 4 ==> n.stride == b.w * 4
            &&& n.raw.len() <= data.len()
            &&& n.raw.len() == data.len() || n.raw.len() == n.stride * b.h
            &&& n.raw.len() <= n.stride * b.h
            &&& forall|k: int| 0 <= k < n.raw.len() ==> #[trigger] n.raw[k] == data[k]
        }),
{
    assert(0 <= row_bytes(b) * b.h) by (nonlinear_arith)
        requires
            0 <= row_bytes(b),
            0 <= b.h,
    ;
}

/// A buffer without memory, without pixels or too soon after the last one changes nothing.
pub proof fn law_other_buffers_change_nothing(
    s: SessionView,
    idx: int,
    b: Buffer,
    since_last: u128,
)
    requires
        b.data is None || b.data->Some_0@.len() == 0 || b.w == 0 || b.h == 0 || since_last
            < 66_000_000,
    ensures
        !is_taken(b, since_last),
        s.with_buffer(idx, b, since_last) == s,
{
}

/// A stream's state is that of the stream whose state changed last; the other streams' states
/// and all of the pictures stay.
pub proof fn law_state_of_one_stream_changes(
    s: SessionView,
    idx: int,
    state: StreamState,
    i: int,
)
    requires
        0 <= i < s.states.len(),
    ensures
        s.with_state(idx, state).states.len() == s.states.len(),
        s.with_state(idx, state).states[i] == if i == idx {
            state
        } else {
            s.states[i]
        },
        s.with_state(idx, state).slots == s.slots,
{
}

/// A session is healthy exactly while it has streams and none of them is in another state than
/// streaming.
pub proof fn law_healthy_streams_all_run(s: SessionView)
    ensures
        s.states.len() == 0 ==> !s.healthy(),
        s.healthy() ==> forall|i: int|
            0 <= i < s.states.len() ==> #[trigger] s.states[i] is Streaming,
        s.states.len() > 0 && !s.healthy() ==> exists|i: int|
            0 <= i < s.states.len() && !(#[trigger] s.states[i] is Streaming),
{
}

/// A session starts with one empty slot per stream, where its monitor stands, and with no stream
/// connected. A stream whose monitor's position is not known stands at the origin.
pub proof fn law_session_starts_where_the_monitors_stand(
    infos: Seq<StreamInfo>,
    i: int,
    node_id: u32,
    position: Option<(i32, i32)>,
)
    requires
        0 <= i < infos.len(),
    ensures
        SessionView::started(infos).slots.len() == infos.len(),
        SessionView::started(infos).states.len() == infos.len(),
        SessionView::started(infos).slots[i].pos == infos[i].pos,
        !SessionView::started(infos).slots[i].present,
        SessionView::started(infos).slots[i].raw.len() == 0,
        SessionView::started(infos).states[i] is Unconnected,
        stream_info(node_id, position).node_id == node_id,
        position is Some ==> stream_info(node_id, position).pos == position->Some_0,
        position is None ==> stream_info(node_id, position).pos == (0i32, 0i32),
{
}

/// What comes of an attempt: while a picture is missing it is to be repeated, until it has taken
/// longer than allowed and fails; once all are there it gives the desktop, or fails if one of the
/// pictures has no pixel.
pub proof fn law_attempt_waits_for_every_stream(
    a: Attempt,
    s: SessionView,
    elapsed: u128,
    timeout: u128,
    i: int,
)
    requires
        is_attempt(a, s, elapsed, timeout),
    ensures
        0 <= i < s.slots.len() && !s.slots[i].present && elapsed <= timeout ==> a is Again,
        0 <= i < s.slots.len() && !s.slots[i].present && elapsed > timeout ==> a
            == Attempt::Done(Err(ScreencastError::TimedOut)),
        (forall|j: int| 0 <= j < s.slots.len() ==> (#[trigger] s.slots[j]).present) ==> {
            &&& 0 <= i < s.slots.len() && (s.slots[i].w == 0 || s.slots[i].h == 0) ==> a
                == Attempt::Done(Err(ScreencastError::EmptyFrame))
            &&& (forall|j: int|
                0 <= j < s.slots.len() ==> (#[trigger] s.slots[j]).w > 0 && s.slots[j].h > 0)
                ==> (a matches Attempt::Done(Ok(f)) && is_grab(f@, s.slots))
        },
{
    let places = slot_places(s.slots);
    if 0 <= i < s.slots.len() {
        assert(places[i] == s.slots[i].place());
        if s.slots[i].w == 0 || s.slots[i].h == 0 {
            assert(is_blank(places[i]));
        }
    }
    if forall|j: int| 0 <= j < s.slots.len() ==> (#[trigger] s.slots[j]).w > 0 && s.slots[j].h > 0 {
        assert forall|j: int| 0 <= j < places.len() implies !is_blank(#[trigger] places[j]) by {
            assert(places[j] == s.slots[j].place());
        }
        assert(!s.has_blank());
    }
}

/// A picture is waited for 700 milliseconds and the first ones five seconds; two pictures that
/// are taken over lie at least 66 milliseconds apart.
pub proof fn law_waiting_times()
    ensures
        GRAB_TIMEOUT == 700 * 1_000_000,
        READY_TIMEOUT == 5 * 1_000_000_000,
        COPY_INTERVAL == 66 * 1_000_000,
{
}

} // verus!
