//! Byte buffers: copying ranges, and the layout of row-major pixel data.

use vstd::arithmetic::div_mod::{lemma_fundamental_div_mod, lemma_mod_bound};
use vstd::prelude::*;

verus! {

/// `dst` with the `n` bytes from `at` on replaced by those of `src` from `from` on.
pub open spec fn overwritten(dst: Seq<u8>, at: int, src: Seq<u8>, from: int, n: int) -> Seq<u8> {
    Seq::new(dst.len(), |i: int| if at <= i < at + n { src[from + (i - at)] } else { dst[i] })
}

/// Appends `src[from..to]` to `dst`.
pub fn append_range(dst: &mut Vec<u8>, src: &[u8], from: usize, to: usize)
    requires
        from <= to <= src@.len(),
    ensures
        final(dst)@ == old(dst)@ + src@.subrange(from as int, to as int),
{
    let ghost start = dst@;
    let mut i: usize = from;
    while i < to
        invariant
            from <= i <= to <= src@.len(),
            dst@ == start + src@.subrange(from as int, i as int),
        decreases to - i,
    {
        dst.push(src[i]);
        assert(src@.subrange(from as int, i + 1) == src@.subrange(from as int, i as int).push(src@[i as int]));
        i = i + 1;
    }
}

/// Copies `n` bytes of `src`, from `from` on, over those of `dst` from `at` on.
pub fn overwrite(dst: &mut Vec<u8>, at: usize, src: &[u8], from: usize, n: usize)
    requires
        at + n <= old(dst)@.len(),
        from + n <= src@.len(),
    ensures
        final(dst)@ == overwritten(old(dst)@, at as int, src@, from as int, n as int),
{
    let ghost start = dst@;
    let mut i: usize = 0;
    while i < n
        invariant
            i <= n,
            at + n <= dst.len(),
            dst@.len() == start.len(),
            from + n <= src.len(),
            dst@ == overwritten(start, at as int, src@, from as int, i as int),
        decreases n - i,
    {
        dst.set(at + i, src[from + i]);
        i = i + 1;
    }
}

/// A buffer of `n` zero bytes.
pub fn zeroes(n: usize) -> (r: Vec<u8>)
    ensures
        r@ == Seq::new(n as nat, |i: int| 0u8),
{
    vec![0u8; n]
}

/// The index of channel `ch` of the pixel at (`x`, `y`) in rows of `width` pixels of four
/// bytes each.
pub open spec fn pixel_index(width: int, x: int, y: int, ch: int) -> int {
    (y * width + x) * 4 + ch
}

/// Every channel of every pixel of a `width` by `height` image lies inside its
/// `4 * width * height` bytes.
pub proof fn lemma_pixel_index_in_bounds(width: int, height: int, x: int, y: int, ch: int)
    requires
        0 <= x < width,
        0 <= y < height,
        0 <= ch < 4,
    ensures
        0 <= pixel_index(width, x, y, ch) < width * height * 4,
{
    assert(0 <= y * width) by (nonlinear_arith)
        requires
            0 <= y,
            0 <= width,
    ;
    assert(y * width + width <= width * height) by (nonlinear_arith)
        requires
            0 <= y < height,
            0 <= width,
    ;
}

/// A channel of the pixel (`x`, `y`) lies in the bytes of the `w` pixels that start at
/// (`ox`, `row`) exactly when the pixel is one of those.
pub proof fn lemma_pixel_in_run(width: int, x: int, y: int, ch: int, ox: int, row: int, w: int)
    requires
        0 <= x < width,
        0 <= ox,
        0 <= w,
        ox + w <= width,
        0 <= ch < 4,
    ensures
        ({
            let start = (row * width + ox) * 4;
            start <= pixel_index(width, x, y, ch) < start + w * 4 <==> (y == row && ox <= x < ox + w)
        }),
{
    if y < row {
        assert(y * width + width <= row * width) by (nonlinear_arith)
            requires
                y < row,
                0 <= width,
        ;
    } else if row < y {
        assert(row * width + width <= y * width) by (nonlinear_arith)
            requires
                row < y,
                0 <= width,
        ;
    }
}

/// Every byte of a `width` by `height` image is a channel of one of its pixels.
pub proof fn lemma_byte_is_channel(width: int, height: int, i: int)
    requires
        0 < width,
        0 <= i < width * height * 4,
    ensures
        ({
            let (x, y, ch) = (i / 4 % width, i / 4 / width, i % 4);
            &&& 0 <= x < width
            &&& 0 <= y < height
            &&& 0 <= ch < 4
            &&& pixel_index(width, x, y, ch) == i
        }),
{
    let p = i / 4;
    let (x, y) = (p % width, p / width);
    lemma_fundamental_div_mod(p, width);
    lemma_mod_bound(p, width);
    assert(y * width == width * y) by (nonlinear_arith);
    assert(0 <= y) by (nonlinear_arith)
        requires
            y == p / width,
            0 <= p,
            0 < width,
    ;
    assert(y < height) by (nonlinear_arith)
        requires
            y * width + x == p,
            0 <= x,
            p < width * height,
            0 < width,
    ;
}

} // verus!
