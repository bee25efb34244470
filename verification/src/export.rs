//! Finished screenshots: cropping, encoding, the names of their files and how long they are
//! kept.

use vstd::prelude::*;
use vstd::utf8::encode_utf8;

use crate::bytes::{
    append_range, lemma_byte_is_channel, lemma_pixel_index_in_bounds, pixel_index,
};
use crate::capture::{Frame, FrameView};
use crate::geometry::{Coord, Pos, Rect, Size};
pub use crate::paths::scratch_dir;
use crate::paths::{below, bytes_of, join, pictures_dir, saved_pictures_path, scratch_path};
use crate::text::{
    chars_of, decimal, is_space, joined, law_padded_reads_as_the_number, law_split_of_join,
    lemma_decimal_digits, number_of, padded, push_decimal, push_padded, split, split_parts,
    string_of, texts, trim, trimmed,
};

verus! {

/// How long a screenshot is kept in the scratch directory, in nanoseconds: a day.
pub const SCRATCH_MAX_AGE: u128 = 86_400_000_000_000;

/// Something in the scratch directory.
#[derive(Clone, Copy, Debug, PartialEq, Eq, Structural)]
pub struct Entry {
    /// It is a file.
    pub is_file: bool,
    /// How many nanoseconds ago it was changed, if that is known and not in the future.
    pub age: Option<u128>,
}

/// A file that is older than it may be.
pub open spec fn is_stale(e: Entry, max_age: u128) -> bool {
    e.is_file && (e.age matches Some(age) && age > max_age)
}

/// The indices below `n` of the stale entries.
pub open spec fn stale_indices(entries: Seq<Entry>, max_age: u128, n: int) -> Seq<usize>
    decreases n,
{
    if n <= 0 {
        Seq::empty()
    } else if is_stale(entries[n - 1], max_age) {
        stale_indices(entries, max_age, n - 1).push((n - 1) as usize)
    } else {
        stale_indices(entries, max_age, n - 1)
    }
}

/// The indices of the entries to remove: the files that are older than `max_age`.
pub fn cleanup_old(entries: &Vec<Entry>, max_age: u128) -> (r: Vec<usize>)
    ensures
        r@ == stale_indices(entries@, max_age, entries@.len() as int),
{
    let mut r: Vec<usize> = Vec::new();
    let n: usize = entries.len();
    let mut i: usize = 0;
    while i < n
        invariant
            i <= n,
            n == entries@.len(),
            r@ == stale_indices(entries@, max_age, i as int),
        decreases n - i,
    {
        let e = entries[i];
        let stale = match e.age {
            Some(age) => e.is_file && age > max_age,
            None => false,
        };
        if stale {
            r.push(i);
        }
        i = i + 1;
    }
    r
}

/// Exactly the stale entries are removed.
pub proof fn law_exactly_stale_entries_are_removed(entries: Seq<Entry>, max_age: u128, i: int)
    requires
        0 <= i < entries.len() <= usize::MAX,
    ensures
        stale_indices(entries, max_age, entries.len() as int).contains(i as usize) <==> is_stale(
            entries[i],
            max_age,
        ),
{
    lemma_stale_indices(entries, max_age, entries.len() as int, i);
}

proof fn lemma_stale_indices(entries: Seq<Entry>, max_age: u128, n: int, i: int)
    requires
        0 <= n <= entries.len() <= usize::MAX,
        0 <= i < entries.len(),
    ensures
        stale_indices(entries, max_age, n).contains(i as usize) <==> i < n && is_stale(
            entries[i],
            max_age,
        ),
    decreases n,
{
    let now = stale_indices(entries, max_age, n);
    if n > 0 {
        lemma_stale_indices(entries, max_age, n - 1, i);
        let before = stale_indices(entries, max_age, n - 1);
        if is_stale(entries[n - 1], max_age) {
            if now.contains(i as usize) {
                let k = choose|k: int| 0 <= k < now.len() && now[k] == i as usize;
                if k < before.len() {
                    assert(before[k] == i as usize);
                }
            }
            if before.contains(i as usize) {
                let k = choose|k: int| 0 <= k < before.len() && before[k] == i as usize;
                assert(now[k] == i as usize);
            }
            assert(now[before.len() as int] == (n - 1) as usize);
        }
    }
}

/// A moment in local time: the day of the month, the months since January, the years since
/// 1900, and the time of day.
#[derive(Clone, Copy, Debug, PartialEq, Eq, Structural)]
pub struct LocalTime {
    pub mday: i32,
    pub mon: i32,
    pub year: i32,
    pub hour: i32,
    pub min: i32,
    pub sec: i32,
}

/// The name of a file for a screenshot made at the given time.
pub open spec fn file_name(t: LocalTime) -> Seq<char> {
    "rayshot-"@ + padded(t.mday as int, 2) + seq!['-'] + padded(t.mon + 1, 2) + seq!['-'] + padded(
        t.year + 1900,
        4,
    ) + seq!['-'] + padded(t.hour as int, 2) + seq!['-'] + padded(t.min as int, 2) + seq!['-']
        + padded(t.sec as int, 2) + ".png"@
}

/// The name of a file for a screenshot made at the given time.
pub fn timestamped_filename(t: LocalTime) -> (r: String)
    requires
        t.mon < i32::MAX,
        t.year <= i32::MAX - 1900,
    ensures
        r@ == file_name(t),
{
    let mut r = "rayshot-".to_owned();
    push_padded(&mut r, t.mday, 2);
    r.push('-');
    push_padded(&mut r, t.mon + 1, 2);
    r.push('-');
    push_padded(&mut r, t.year + 1900, 4);
    r.push('-');
    push_padded(&mut r, t.hour, 2);
    r.push('-');
    push_padded(&mut r, t.min, 2);
    r.push('-');
    push_padded(&mut r, t.sec, 2);
    r.append(".png");
    assert(r@ =~= file_name(t));
    r
}

/// The name without the ending `.png`, if it has that.
pub open spec fn stem(name: Seq<char>) -> Seq<char> {
    if name.len() >= 4 && name.skip(name.len() - 4) == seq!['.', 'p', 'n', 'g'] {
        name.take(name.len() - 4)
    } else {
        name
    }
}

/// The `n`-th name to try, counted from one: the name itself, then numbered ones.
pub open spec fn nth_name(name: Seq<char>, n: int) -> Seq<char> {
    if n <= 1 {
        name
    } else {
        stem(name) + seq!['-'] + decimal(n as nat) + ".png"@
    }
}

/// The name without the ending `.png`, if it has that.
fn strip_png(name: &str) -> (r: String)
    ensures
        r@ == stem(name@),
{
    let chars = chars_of(name);
    let n: usize = chars.len();
    if n >= 4 && chars[n - 4] == '.' && chars[n - 3] == 'p' && chars[n - 2] == 'n' && chars[n - 1]
        == 'g' {
        assert(chars@.skip(n - 4) =~= seq!['.', 'p', 'n', 'g']);
        assert(chars@.take(n - 4) =~= chars@.subrange(0, n - 4));
        string_of(&chars, 0, n - 4)
    } else {
        proof {
            if n >= 4 && chars@.skip(n - 4) == seq!['.', 'p', 'n', 'g'] {
                let end = chars@.skip(n - 4);
                assert(end[0] == '.' && end[1] == 'p' && end[2] == 'n' && end[3] == 'g');
            }
        }
        name.to_owned()
    }
}

/// The `n`-th name to try.
fn candidate(name: &str, n: u32) -> (r: String)
    ensures
        r@ == nth_name(name@, n as int),
{
    if n <= 1 {
        return name.to_owned();
    }
    let mut r = strip_png(name);
    r.push('-');
    push_decimal(&mut r, n as u128);
    r.append(".png");
    assert(r@ =~= nth_name(name@, n as int));
    r
}

/// The `n`-th path to try in the directory `dir`.
pub open spec fn nth_path(dir: Seq<u8>, name: Seq<char>, n: int) -> Seq<u8> {
    below(dir, encode_utf8(nth_name(name, n)))
}

/// Asking `taken` for the given path can give the answer `answer`.
pub open spec fn answers<F: Fn(&Vec<u8>) -> bool>(taken: F, path: Seq<u8>, answer: bool) -> bool {
    exists|p: Vec<u8>| p@ == path && #[trigger] taken.ensures((&p,), answer)
}

/// `path` is the first of the paths to try that `taken` says is free, or the first of all if
/// it says that the first 999 are taken.
pub open spec fn is_unique_path<F: Fn(&Vec<u8>) -> bool>(
    path: Seq<u8>,
    dir: Seq<u8>,
    name: Seq<char>,
    taken: F,
) -> bool {
    ||| exists|n: int|
        {
            &&& 1 <= n < 1000
            &&& path == #[trigger] nth_path(dir, name, n)
            &&& answers(taken, path, false)
            &&& forall|m: int|
                1 <= m < n ==> answers(taken, #[trigger] nth_path(dir, name, m), true)
        }
    ||| {
        &&& path == nth_path(dir, name, 1)
        &&& forall|m: int|
            1 <= m < 1000 ==> answers(taken, #[trigger] nth_path(dir, name, m), true)
    }
}

/// The first path for a file of the given name in `dir` that is not taken.
pub fn unique_path<F: Fn(&Vec<u8>) -> bool>(dir: &Vec<u8>, name: &str, taken: F) -> (r: Vec<u8>)
    requires
        forall|p: &Vec<u8>| #[trigger] taken.requires((p,)),
    ensures
        is_unique_path(r@, dir@, name@, taken),
{
    let mut n: u32 = 1;
    while n < 1000
        invariant
            1 <= n <= 1000,
            forall|p: &Vec<u8>| #[trigger] taken.requires((p,)),
            forall|m: int|
                1 <= m < n ==> answers(taken, #[trigger] nth_path(dir@, name@, m), true),
        decreases 1000 - n,
    {
        let next = candidate(name, n);
        let path = join(dir, next.as_str());
        let answer = taken(&path);
        assert(taken.ensures((&path,), answer));
        assert(path@ == nth_path(dir@, name@, n as int));
        assert(answers(taken, nth_path(dir@, name@, n as int), answer));
        if !answer {
            return path;
        }
        n = n + 1;
    }
    join(dir, name)
}

/// The path under which a screenshot made at the given time is kept for a day.
pub fn save_to_scratch<F: Fn(&Vec<u8>) -> bool>(
    runtime: Option<&Vec<u8>>,
    home: Option<&Vec<u8>>,
    t: LocalTime,
    taken: F,
) -> (r: Vec<u8>)
    requires
        t.mon < i32::MAX,
        t.year <= i32::MAX - 1900,
        forall|p: &Vec<u8>| #[trigger] taken.requires((p,)),
    ensures
        is_unique_path(
            r@,
            scratch_path(bytes_of(runtime), bytes_of(home)),
            file_name(t),
            taken,
        ),
{
    let dir = scratch_dir(runtime, home);
    let name = timestamped_filename(t);
    unique_path(&dir, name.as_str(), taken)
}

/// The path under which a screenshot made at the given time is saved. `is_dir` tells whether the
/// user's directory for pictures is there.
pub fn save_to_pictures<F: Fn(&Vec<u8>) -> bool>(
    home: Option<&Vec<u8>>,
    is_dir: bool,
    t: LocalTime,
    taken: F,
) -> (r: Vec<u8>)
    requires
        t.mon < i32::MAX,
        t.year <= i32::MAX - 1900,
        forall|p: &Vec<u8>| #[trigger] taken.requires((p,)),
    ensures
        is_unique_path(r@, saved_pictures_path(bytes_of(home), is_dir), file_name(t), taken),
{
    let dir = pictures_dir(home, is_dir);
    let name = timestamped_filename(t);
    unique_path(&dir, name.as_str(), taken)
}

/// The number read from decimal digits.
spec fn value_of(digits: Seq<char>) -> nat
    decreases digits.len(),
{
    if digits.len() == 0 {
        0
    } else {
        value_of(digits.drop_last()) * 10 + digit_value(digits.last())
    }
}

spec fn digit_value(c: char) -> nat {
    ((c as u32) - ('0' as u32)) as nat
}

proof fn lemma_value_of_decimal(n: nat)
    ensures
        value_of(decimal(n)) == n,
    decreases n,
{
    if n < 10 {
        let d = decimal(n);
        assert(d.drop_last() =~= Seq::<char>::empty());
        assert(value_of(d.drop_last()) == 0);
    } else {
        lemma_value_of_decimal(n / 10);
        assert(decimal(n).drop_last() =~= decimal(n / 10));
    }
}

/// The names that are tried differ from each other.
pub proof fn law_tried_names_are_distinct(name: Seq<char>, m: int, n: int)
    requires
        1 <= m < n,
    ensures
        nth_name(name, m) != nth_name(name, n),
{
    let (a, b) = (nth_name(name, m), nth_name(name, n));
    let k = stem(name).len() + 1;
    let (da, db) = (decimal(m as nat), decimal(n as nat));
    reveal_strlit(".png");
    let png = ".png"@.len();
    assert(b.len() == k + db.len() + png);
    if m == 1 {
        lemma_decimal_digits(n as nat);
        assert(a.len() <= stem(name).len() + 4);
    } else if a == b {
        assert(a.len() == k + da.len() + png);
        assert(a.subrange(k as int, (k + da.len()) as int) =~= da);
        assert(b.subrange(k as int, (k + db.len()) as int) =~= db);
        assert(da == db);
        lemma_value_of_decimal(m as nat);
        lemma_value_of_decimal(n as nat);
    }
}

/// Why a frame does not become a file.
#[derive(Clone, Copy, Debug, PartialEq, Eq, Structural)]
pub enum ExportError {
    /// The pixel data is shorter than the dimensions call for.
    SizeMismatch,
    /// The encoder refused the image.
    Encode,
}

/// `image::ImageError`.
#[verifier::external_type_specification]
#[verifier::external_body]
pub struct ExImageError(image::ImageError);

/// The frame holds as many bytes as its dimensions call for, or more.
pub open spec fn holds_its_pixels(f: FrameView) -> bool {
    f.rgba.len() >= f.width * f.height * 4
}

/// The frame is an image: it holds its pixels, and the bytes of a row can be counted, even
/// where there is no row.
pub open spec fn makes_image(f: FrameView) -> bool {
    holds_its_pixels(f) && f.width * 4 <= usize::MAX
}

/// Whether the frame is an image.
pub fn is_image(frame: &Frame) -> (r: bool)
    ensures
        r == makes_image(frame@),
{
    assert(0 <= frame.width * frame.height <= u32::MAX * u32::MAX) by (nonlinear_arith)
        requires
            0 <= frame.width <= u32::MAX,
            0 <= frame.height <= u32::MAX,
    ;
    frame.rgba.len() as u128 >= frame.width as u128 * frame.height as u128 * 4
        && frame.width as u128 * 4 <= usize::MAX as u128
}

/// The PNG file of a `width` by `height` image with the given pixels, if the encoder makes one.
pub uninterp spec fn png_file(width: u32, height: u32, rgba: Seq<u8>) -> Option<Seq<u8>>;

/// Calls `image::ImageBuffer::write_to` with the format PNG on the image that
/// `image::RgbaImage::from_raw` makes of the pixels, which it does of at least
/// `4 * width * height` bytes, where that product, taken from the left, can be computed. What is
/// written depends on the arguments alone; how an image is encoded, and which sizes the encoder
/// refuses, is left to that crate.
#[verifier::external_body]
fn png_encode(width: u32, height: u32, rgba: &Vec<u8>) -> (r: Result<Vec<u8>, image::ImageError>)
    requires
        width * height * 4 <= rgba@.len(),
        width * 4 <= usize::MAX,
    ensures
        match r {
            Ok(png) => png_file(width, height, rgba@) == Some(png@),
            Err(_) => png_file(width, height, rgba@) is None,
        },
{
    let img = image::RgbaImage::from_raw(width, height, rgba.clone()).unwrap();
    let mut buf = std::io::Cursor::new(Vec::new());
    img.write_to(&mut buf, image::ImageFormat::Png)?;
    Ok(buf.into_inner())
}

/// The frame as a PNG file.
pub fn to_png_bytes(frame: &Frame) -> (r: Result<Vec<u8>, ExportError>)
    ensures
        match r {
            Ok(png) => makes_image(frame@) && png_file(
                frame.width,
                frame.height,
                frame.rgba@,
            ) == Some(png@),
            Err(ExportError::SizeMismatch) => !makes_image(frame@),
            Err(ExportError::Encode) => makes_image(frame@) && png_file(
                frame.width,
                frame.height,
                frame.rgba@,
            ) is None,
        },
{
    if !is_image(frame) {
        return Err(ExportError::SizeMismatch);
    }
    match png_encode(frame.width, frame.height, &frame.rgba) {
        Ok(png) => Ok(png),
        Err(_) => Err(ExportError::Encode),
    }
}

/// The smaller of two numbers.
pub open spec fn smaller(a: int, b: int) -> int {
    if a <= b {
        a
    } else {
        b
    }
}

/// `f` is the part of `full` that starts at (`x`, `y`) and is at most `w` by `h` pixels, as far
/// as it lies in `full`.
pub open spec fn is_crop(f: FrameView, full: FrameView, x: int, y: int, w: int, h: int) -> bool {
    let x0 = smaller(x, full.width as int);
    let y0 = smaller(y, full.height as int);
    &&& f.width == smaller(w, full.width - x0)
    &&& f.height == smaller(h, full.height - y0)
    &&& f.rgba.len() == f.width * f.height * 4
    &&& forall|i: int, j: int, ch: int|
        0 <= i < f.width && 0 <= j < f.height && 0 <= ch < 4 ==> #[trigger] f.rgba[pixel_index(
            f.width as int,
            i,
            j,
            ch,
        )] == full.rgba[pixel_index(full.width as int, x0 + i, y0 + j, ch)]
}

/// Calls `image::imageops::crop_imm` on the image that `image::RgbaImage::from_raw` makes of the
/// frame, which it does of at least `4 * width * height` bytes, where that product, taken from the
/// left, can be computed. The crop is the part of the image that starts at (`x`, `y`) and is `w`
/// by `h` pixels, moved and shortened as far as it would reach beyond the image.
#[verifier::external_body]
fn crop(full: &Frame, x: u32, y: u32, w: u32, h: u32) -> (f: Frame)
    requires
        makes_image(full@),
    ensures
        is_crop(f@, full@, x as int, y as int, w as int, h as int),
{
    let img = image::RgbaImage::from_raw(full.width, full.height, full.rgba.clone()).unwrap();
    let part = image::imageops::crop_imm(&img, x, y, w, h).to_image();
    Frame { width: part.width(), height: part.height(), rgba: part.into_raw() }
}

/// The part of the frame from (`x`, `y`) up to (`x2`, `y2`), if it has a pixel and the frame
/// is an image.
pub fn cropped_image(frame: &Frame, x: u32, y: u32, x2: u32, y2: u32) -> (r: Option<Frame>)
    ensures
        match r {
            Some(f) => {
                &&& x < x2 && y < y2
                &&& makes_image(frame@)
                &&& is_crop(f@, frame@, x as int, y as int, x2 - x, y2 - y)
            },
            None => x2 <= x || y2 <= y || !makes_image(frame@),
        },
{
    if x2 <= x || y2 <= y {
        return None;
    }
    if !is_image(frame) {
        return None;
    }
    Some(crop(frame, x, y, x2 - x, y2 - y))
}

/// The crop of the whole frame is the frame.
pub proof fn law_whole_crop_is_the_frame(f: FrameView, full: FrameView)
    requires
        full.well_formed(),
        full.width > 0,
        is_crop(f, full, 0, 0, full.width as int, full.height as int),
    ensures
        f == full,
{
    let (w, h) = (full.width as int, full.height as int);
    assert forall|i: int| 0 <= i < full.rgba.len() implies #[trigger] f.rgba[i] == full.rgba[i] by {
        lemma_byte_is_channel(w, h, i);
        let (x, y, ch) = (i / 4 % w, i / 4 / w, i % 4);
        assert(f.rgba[pixel_index(w, x, y, ch)] == full.rgba[pixel_index(w, 0 + x, 0 + y, ch)]);
    }
    assert(f.rgba =~= full.rgba);
}

/// A crop that lies in the frame has the size that was asked for.
pub proof fn law_inner_crop_has_its_size(
    f: FrameView,
    full: FrameView,
    x: int,
    y: int,
    w: int,
    h: int,
)
    requires
        0 <= x && 0 <= w && x + w <= full.width,
        0 <= y && 0 <= h && y + h <= full.height,
        is_crop(f, full, x, y, w, h),
    ensures
        f.width == w,
        f.height == h,
        f.well_formed(),
{
}

/// The numbers among what was read.
pub open spec fn numbers(values: Seq<Option<Coord>>, n: int) -> Seq<Coord>
    decreases n,
{
    if n <= 0 {
        Seq::empty()
    } else {
        match values[n - 1] {
            Some(v) => numbers(values, n - 1).push(v),
            None => numbers(values, n - 1),
        }
    }
}

/// The numbers among what was read, in order.
pub fn keep_numbers(values: &Vec<Option<Coord>>) -> (r: Vec<Coord>)
    ensures
        r@ == numbers(values@, values@.len() as int),
{
    let mut r: Vec<Coord> = Vec::new();
    let n: usize = values.len();
    let mut i: usize = 0;
    while i < n
        invariant
            i <= n,
            n == values@.len(),
            r@ == numbers(values@, i as int),
        decreases n - i,
    {
        if let Some(v) = values[i] {
            r.push(v);
        }
        i = i + 1;
    }
    r
}

/// A corner and a size.
pub open spec fn placed_size(v: Seq<Coord>) -> (Pos, Size) {
    (Pos { x: v[0], y: v[1] }, Size { w: v[2], h: v[3] })
}

/// The file of a selection: the texts of its four numbers with commas between them.
pub open spec fn selection_file(x: Seq<char>, y: Seq<char>, w: Seq<char>, h: Seq<char>) -> Seq<
    char,
> {
    joined(seq![x, y, w, h], seq![','])
}

/// The file of a selection, from the texts of its four numbers.
pub fn selection_text(x: &str, y: &str, w: &str, h: &str) -> (r: String)
    ensures
        r@ == selection_file(x@, y@, w@, h@),
{
    let mut r = x.to_owned();
    r.push(',');
    r.append(y);
    r.push(',');
    r.append(w);
    r.push(',');
    r.append(h);
    proof {
        lemma_selection_file(x@, y@, w@, h@);
    }
    assert(r@ =~= selection_file(x@, y@, w@, h@));
    r
}

proof fn lemma_selection_file(x: Seq<char>, y: Seq<char>, w: Seq<char>, h: Seq<char>)
    ensures
        selection_file(x, y, w, h) == x + seq![','] + y + seq![','] + w + seq![','] + h,
{
    let all = seq![x, y, w, h];
    assert(all.drop_last() =~= seq![x, y, w]);
    assert(seq![x, y, w].drop_last() =~= seq![x, y]);
    assert(seq![x, y].drop_last() =~= seq![x]);
    reveal_with_fuel(joined, 4);
}

/// The texts of the numbers in the file of the last selection.
pub open spec fn file_fields(text: Seq<char>) -> Seq<Seq<char>> {
    split_parts(trimmed(text), ',')
}

/// The texts of the numbers in the file of the last selection.
pub fn selection_fields(text: &str) -> (r: Vec<String>)
    ensures
        texts(r@) == file_fields(text@),
{
    let inner = trim(text);
    split(inner.as_str(), ',')
}

/// The selection that was read: four numbers, of which the size is above zero.
pub open spec fn read_selection(values: Seq<Option<Coord>>) -> Option<(Pos, Size)> {
    let v = numbers(values, values.len() as int);
    let zero = Coord { bits: 0 };
    if v.len() == 4 && zero.below(v[2]) && zero.below(v[3]) {
        Some(placed_size(v))
    } else {
        None
    }
}

/// The last selection, from what was read of each of its fields: four numbers, of which the
/// size is above zero.
pub fn load_last_selection(values: &Vec<Option<Coord>>) -> (r: Option<(Pos, Size)>)
    ensures
        r == read_selection(values@),
{
    let v = keep_numbers(values);
    let zero = Coord { bits: 0 };
    if v.len() == 4 && zero.lt(v[2]) && zero.lt(v[3]) {
        Some((Pos { x: v[0], y: v[1] }, Size { w: v[2], h: v[3] }))
    } else {
        None
    }
}

/// A text that a field can hold: without commas and white space.
pub open spec fn fits_field(s: Seq<char>) -> bool {
    forall|i: int| 0 <= i < s.len() ==> #[trigger] s[i] != ',' && !is_space(s[i])
}

/// The fields of a selection's file are the texts that it was made of.
pub proof fn law_written_fields_read_back(
    x: Seq<char>,
    y: Seq<char>,
    w: Seq<char>,
    h: Seq<char>,
)
    requires
        fits_field(x) && fits_field(y) && fits_field(w) && fits_field(h),
    ensures
        file_fields(selection_file(x, y, w, h)) == seq![x, y, w, h],
{
    let parts = seq![x, y, w, h];
    let text = selection_file(x, y, w, h);
    lemma_selection_file(x, y, w, h);
    assert forall|i: int| 0 <= i < text.len() implies !is_space(#[trigger] text[i]) by {
        let (a, b, c) = (x.len() as int, y.len() as int, w.len() as int);
        if i < a {
            assert(text[i] == x[i]);
        } else if a < i < a + 1 + b {
            assert(text[i] == y[i - a - 1]);
        } else if a + 1 + b < i < a + b + c + 2 {
            assert(text[i] == w[i - a - b - 2]);
        } else if a + b + c + 2 < i {
            assert(text[i] == h[i - a - b - c - 3]);
        }
    }
    assert(!is_space(text[text.len() - 1]));
    assert(trimmed(text) == text);
    assert forall|i: int| 0 <= i < parts.len() implies !(#[trigger] parts[i]).contains(',') by {
        assert(fits_field(parts[i]));
    }
    law_split_of_join(parts, ',');
}

/// What is read of each text.
pub open spec fn read_all(
    fields: Seq<Seq<char>>,
    read: spec_fn(Seq<char>) -> Option<Coord>,
) -> Seq<Option<Coord>> {
    Seq::new(fields.len(), |i: int| read(fields[i]))
}

/// A selection that was written is read back as it was, or not at all where its size is not above
/// zero: as long as each number is read back from what is written for it, and that text fits a
/// field.
pub proof fn law_saved_selection_is_loaded(
    pos: Pos,
    size: Size,
    write: spec_fn(Coord) -> Seq<char>,
    read: spec_fn(Seq<char>) -> Option<Coord>,
)
    requires
        forall|c: Coord|
            c == pos.x || c == pos.y || c == size.w || c == size.h ==> fits_field(
                #[trigger] write(c),
            ) && read(write(c)) == Some(c),
    ensures
        ({
            let text = selection_file(
                write(pos.x),
                write(pos.y),
                write(size.w),
                write(size.h),
            );
            read_selection(read_all(file_fields(text), read)) == if (Coord { bits: 0 }).below(
                size.w,
            ) && (Coord { bits: 0 }).below(size.h) {
                Some((pos, size))
            } else {
                None
            }
        }),
{
    let (x, y, w, h) = (write(pos.x), write(pos.y), write(size.w), write(size.h));
    law_written_fields_read_back(x, y, w, h);
    let values = read_all(file_fields(selection_file(x, y, w, h)), read);
    assert(values =~= seq![Some(pos.x), Some(pos.y), Some(size.w), Some(size.h)]);
    reveal_with_fuel(numbers, 5);
    assert(numbers(values, 4) =~= seq![pos.x, pos.y, size.w, size.h]);
}

/// The bit pattern of one.
pub const ONE: u32 = 0x3f80_0000;

/// What is kept of the selection when the overlay goes: its corner and its size, if it is more
/// than a pixel wide and high.
pub fn save_last_selection(selection: Option<Rect>, size: Size) -> (r: Option<(Pos, Size)>)
    ensures
        r == match selection {
            Some(sel) => if (Coord { bits: ONE }).below(size.w) && (Coord { bits: ONE }).below(
                size.h,
            ) {
                Some((sel.min, size))
            } else {
                None
            },
            None => None,
        },
{
    let one = Coord { bits: ONE };
    match selection {
        Some(sel) => if one.lt(size.w) && one.lt(size.h) {
            Some((sel.min, size))
        } else {
            None
        },
        None => None,
    }
}

/// How the graphics card hands out an image: the bytes of a row, the bytes that rows are
/// apart, and the bytes of the whole.
#[derive(Clone, Copy, Debug, PartialEq, Eq, Structural)]
pub struct Readback {
    pub unpadded: u32,
    pub padded: u32,
    pub size: u64,
}

/// The bytes that the rows of an image are apart: those of a row, rounded up to a multiple of
/// `align`.
pub open spec fn padded_row(w: int, align: int) -> int {
    (w * 4 + align - 1) / align * align
}

/// A row is not longer than the space for it, and the space is a multiple of `align` that is
/// not larger than needed.
pub proof fn law_padded_row_is_next_multiple(w: int, align: int)
    requires
        0 <= w,
        0 < align,
    ensures
        w * 4 <= padded_row(w, align) < w * 4 + align,
        padded_row(w, align) % align == 0,
{
    let n = w * 4 + align - 1;
    vstd::arithmetic::div_mod::lemma_fundamental_div_mod(n, align);
    vstd::arithmetic::div_mod::lemma_mod_bound(n, align);
    vstd::arithmetic::div_mod::lemma_mod_multiples_basic(n / align, align);
    assert(n / align * align == align * (n / align)) by (nonlinear_arith);
}

/// How the graphics card hands out an image of `w` by `h` pixels, if it has a pixel.
pub fn readback(w: u32, h: u32, align: u32) -> (r: Option<Readback>)
    requires
        align > 0,
        w * 4 <= u32::MAX,
        padded_row(w as int, align as int) <= u32::MAX,
        padded_row(w as int, align as int) * h <= u32::MAX,
    ensures
        match r {
            Some(b) => {
                &&& w > 0 && h > 0
                &&& b.unpadded == w * 4
                &&& b.padded == padded_row(w as int, align as int)
                &&& b.size == padded_row(w as int, align as int) * h
            },
            None => w == 0 || h == 0,
        },
{
    if w == 0 || h == 0 {
        return None;
    }
    let unpadded: u32 = w * 4;
    let n: u64 = unpadded as u64 + align as u64 - 1;
    proof {
        law_padded_row_is_next_multiple(w as int, align as int);
        assert(n as int / align as int * align as int == padded_row(w as int, align as int));
    }
    let rows: u64 = n / align as u64;
    let padded: u32 = (rows * align as u64) as u32;
    assert(0 <= padded * h) by (nonlinear_arith)
        requires
            0 <= padded,
            0 <= h,
    ;
    Some(Readback { unpadded, padded, size: (padded * h) as u64 })
}

/// `f` is the `w` by `h` image whose rows start every `padded` bytes of `data`.
pub open spec fn is_unpadded(f: FrameView, data: Seq<u8>, w: int, h: int, padded: int) -> bool {
    &&& f.width == w
    &&& f.height == h
    &&& f.rgba.len() == w * h * 4
    &&& forall|x: int, y: int, ch: int|
        0 <= x < w && 0 <= y < h && 0 <= ch < 4 ==> #[trigger] f.rgba[pixel_index(w, x, y, ch)]
            == data[y * padded + x * 4 + ch]
}

/// The image in what the graphics card handed out, without the gaps between the rows.
pub fn unpad_rows(data: &[u8], w: u32, h: u32, padded: u32) -> (f: Frame)
    requires
        w * 4 <= padded,
        padded * h <= data@.len(),
        padded * h <= u32::MAX,
    ensures
        is_unpadded(f@, data@, w as int, h as int, padded as int),
{
    let ghost wi = w as int;
    let mut rgba: Vec<u8> = Vec::new();
    let len: usize = data.len();
    let unpadded: usize = w as usize * 4;
    let mut y: u32 = 0;
    while y < h
        invariant
            y <= h,
            wi == w,
            unpadded == w * 4,
            w * 4 <= padded,
            len == data@.len(),
            padded * h <= len,
            padded * h <= u32::MAX,
            rgba@.len() == wi * y * 4,
            forall|x1: int, y1: int, ch: int|
                0 <= x1 < wi && 0 <= y1 < y && 0 <= ch < 4 ==> #[trigger] rgba@[pixel_index(
                    wi,
                    x1,
                    y1,
                    ch,
                )] == data@[y1 * padded + x1 * 4 + ch],
        decreases h - y,
    {
        let ghost before = rgba@;
        assert(y * padded + padded <= padded * h && 0 <= y * padded) by (nonlinear_arith)
            requires
                0 <= y < h,
                0 <= padded,
        ;
        assert(wi * (y + 1) == wi * y + wi) by (nonlinear_arith);
        assert(wi * y == y * wi) by (nonlinear_arith);
        let start: usize = (y * padded) as usize;
        append_range(&mut rgba, data, start, start + unpadded);
        assert forall|x1: int, y1: int, ch: int|
            0 <= x1 < wi && 0 <= y1 < y + 1 && 0 <= ch < 4 implies #[trigger] rgba@[pixel_index(
            wi,
            x1,
            y1,
            ch,
        )] == data@[y1 * padded + x1 * 4 + ch] by {
            if y1 < y {
                lemma_pixel_index_in_bounds(wi, y as int, x1, y1, ch);
                assert(before[pixel_index(wi, x1, y1, ch)] == data@[y1 * padded + x1 * 4 + ch]);
            } else {
                assert(pixel_index(wi, x1, y1, ch) == before.len() + x1 * 4 + ch);
            }
        }
        y = y + 1;
    }
    Frame { width: w, height: h, rgba }
}

/// Rows without gaps are handed out as they are.
pub proof fn law_unpadded_image_is_kept(f: FrameView, data: Seq<u8>, w: int, h: int)
    requires
        0 < w,
        0 <= h,
        data.len() == w * h * 4,
        is_unpadded(f, data, w, h, w * 4),
    ensures
        f.rgba == data,
{
    assert forall|i: int| 0 <= i < data.len() implies #[trigger] f.rgba[i] == data[i] by {
        lemma_byte_is_channel(w, h, i);
        let (x, y, ch) = (i / 4 % w, i / 4 / w, i % 4);
        assert(y * (w * 4) == (y * w) * 4) by (nonlinear_arith);
        assert(f.rgba[pixel_index(w, x, y, ch)] == data[y * (w * 4) + x * 4 + ch]);
    }
    assert(f.rgba =~= data);
}

/// What came of drawing the selection with its shapes.
pub enum Rendering {
    /// An image.
    Image(Frame),
    /// There is nothing selected.
    Empty,
    /// It could not be drawn.
    Failed,
}

/// The image to copy: the one that was drawn or, where drawing failed, the selected part of the
/// screen without the shapes. `corners` are the corners of the selection, if there is one.
pub fn finished_image(
    rendering: Rendering,
    frame: &Frame,
    corners: Option<(u32, u32, u32, u32)>,
) -> (r: Option<Frame>)
    ensures
        match rendering {
            Rendering::Image(f) => r == Some(f),
            Rendering::Empty => r is None,
            Rendering::Failed => match corners {
                Some((x, y, x2, y2)) => match r {
                    Some(f) => {
                        &&& x < x2 && y < y2
                        &&& makes_image(frame@)
                        &&& is_crop(f@, frame@, x as int, y as int, x2 - x, y2 - y)
                    },
                    None => x2 <= x || y2 <= y || !makes_image(frame@),
                },
                None => r is None,
            },
        },
{
    match rendering {
        Rendering::Image(f) => Some(f),
        Rendering::Empty => None,
        Rendering::Failed => match corners {
            Some((x, y, x2, y2)) => cropped_image(frame, x, y, x2, y2),
            None => None,
        },
    }
}

/// A crop is as large as was asked for, as far as the frame reaches, and each of its pixels is
/// the one of the frame that lies as far from the crop's corner.
pub proof fn law_crop_shows_the_part(
    f: FrameView,
    full: FrameView,
    x: int,
    y: int,
    w: int,
    h: int,
    i: int,
    j: int,
    ch: int,
)
    requires
        is_crop(f, full, x, y, w, h),
        0 <= x <= full.width,
        0 <= y <= full.height,
    ensures
        f.width == w || (f.width == full.width - x && f.width < w),
        f.height == h || (f.height == full.height - y && f.height < h),
        x + f.width <= full.width,
        y + f.height <= full.height,
        f.rgba.len() == f.width * f.height * 4,
        0 <= i < f.width && 0 <= j < f.height && 0 <= ch < 4 ==> f.rgba[(j * f.width + i) * 4 + ch]
            == full.rgba[((y + j) * full.width + (x + i)) * 4 + ch],
{
    if 0 <= i < f.width && 0 <= j < f.height && 0 <= ch < 4 {
        assert(f.rgba[pixel_index(f.width as int, i, j, ch)] == full.rgba[pixel_index(
            full.width as int,
            x + i,
            y + j,
            ch,
        )]);
    }
}

/// A crop that begins beyond the frame has no pixel.
pub proof fn law_crop_beyond_the_frame_is_empty(
    f: FrameView,
    full: FrameView,
    x: int,
    y: int,
    w: int,
    h: int,
)
    requires
        is_crop(f, full, x, y, w, h),
        0 <= w,
        0 <= h,
    ensures
        x >= full.width ==> f.width == 0,
        y >= full.height ==> f.height == 0,
{
}

/// Of what the graphics card handed out, each pixel is kept, whatever the gap between the rows.
pub proof fn law_unpadding_keeps_each_pixel(
    f: FrameView,
    data: Seq<u8>,
    w: int,
    h: int,
    padded: int,
    x: int,
    y: int,
    ch: int,
)
    requires
        is_unpadded(f, data, w, h, padded),
        0 <= x < w,
        0 <= y < h,
        0 <= ch < 4,
    ensures
        f.width == w,
        f.height == h,
        f.rgba.len() == w * h * 4,
        f.rgba[(y * w + x) * 4 + ch] == data[y * padded + x * 4 + ch],
{
    assert(f.rgba[pixel_index(w, x, y, ch)] == data[y * padded + x * 4 + ch]);
}

/// A frame is an image if it has at least four bytes for each pixel and its rows can be counted
/// in bytes.
pub proof fn law_image_has_four_bytes_per_pixel(f: FrameView)
    ensures
        makes_image(f) <==> f.width * f.height * 4 <= f.rgba.len() && f.width * 4 <= usize::MAX,
        f.well_formed() && f.width * 4 <= usize::MAX ==> makes_image(f),
{
}

/// An entry goes exactly if it is a file whose age is known and above the limit; the entries that
/// go are listed in their order, each once.
pub proof fn law_old_files_go_in_order(
    entries: Seq<Entry>,
    max_age: u128,
    i: int,
    k: int,
    l: int,
)
    requires
        0 <= i < entries.len() <= usize::MAX,
    ensures
        ({
            let going = stale_indices(entries, max_age, entries.len() as int);
            &&& going.contains(i as usize) <==> entries[i].is_file && entries[i].age is Some
                && entries[i].age->Some_0 > max_age
            &&& 0 <= k < l < going.len() ==> going[k] < going[l] < entries.len()
        }),
{
    law_exactly_stale_entries_are_removed(entries, max_age, i);
    lemma_stale_indices_increase(entries, max_age, entries.len() as int);
}

proof fn lemma_stale_indices_increase(entries: Seq<Entry>, max_age: u128, n: int)
    requires
        0 <= n <= entries.len() <= usize::MAX,
    ensures
        ({
            let going = stale_indices(entries, max_age, n);
            &&& forall|k: int| 0 <= k < going.len() ==> #[trigger] going[k] < n
            &&& forall|k: int, l: int|
                0 <= k < l < going.len() ==> #[trigger] going[k] < #[trigger] going[l]
        }),
    decreases n,
{
    if n > 0 {
        lemma_stale_indices_increase(entries, max_age, n - 1);
        let before = stale_indices(entries, max_age, n - 1);
        let going = stale_indices(entries, max_age, n);
        assert forall|k: int| 0 <= k < going.len() implies #[trigger] going[k] < n by {
            if k < before.len() {
                assert(going[k] == before[k]);
            }
        }
        assert forall|k: int, l: int| 0 <= k < l < going.len() implies #[trigger] going[k]
            < #[trigger] going[l] by {
            assert(going[k] == before[k]);
            if l < before.len() {
                assert(going[l] == before[l]);
            }
        }
    }
}

/// A screenshot is kept for a day.
pub proof fn law_scratch_files_are_kept_for_a_day()
    ensures
        SCRATCH_MAX_AGE == 24 * 60 * 60 * 1_000_000_000,
{
}

proof fn lemma_digits_hold_no_dash(n: int, width: int)
    requires
        0 <= n,
    ensures
        !padded(n, width).contains('-'),
        number_of(padded(n, width)) == n,
        padded(n, width).len() >= width,
{
    law_padded_reads_as_the_number(n, width);
    let s = padded(n, width);
    if s.contains('-') {
        let k = choose|k: int| 0 <= k < s.len() && s[k] == '-';
        assert(48 <= s[k] as u32);
    }
}

/// The name of a screenshot's file tells when it was made: between dashes stand the day, the
/// month counted from one, the year, the hour, the minute and the second, each as a number.
pub proof fn law_file_name_tells_the_time(t: LocalTime)
    requires
        0 <= t.mday,
        0 <= t.mon,
        -1900 <= t.year,
        0 <= t.hour,
        0 <= t.min,
        0 <= t.sec,
    ensures
        ({
            let name = file_name(t);
            let n = name.len() - 4;
            let fields = split_parts(name.take(n), '-');
            &&& n >= 0
            &&& name.skip(n) == seq!['.', 'p', 'n', 'g']
            &&& fields.len() == 7
            &&& fields[0] == seq!['r', 'a', 'y', 's', 'h', 'o', 't']
            &&& number_of(fields[1]) == t.mday
            &&& number_of(fields[2]) == t.mon + 1
            &&& number_of(fields[3]) == 1900 + t.year
            &&& number_of(fields[4]) == t.hour
            &&& number_of(fields[5]) == t.min
            &&& number_of(fields[6]) == t.sec
            &&& fields[1].len() >= 2 && fields[2].len() >= 2 && fields[3].len() >= 4
            &&& fields[4].len() >= 2 && fields[5].len() >= 2 && fields[6].len() >= 2
        }),
{
    reveal_strlit("rayshot-");
    reveal_strlit(".png");
    let first = seq!['r', 'a', 'y', 's', 'h', 'o', 't'];
    let parts = seq![
        first,
        padded(t.mday as int, 2),
        padded(t.mon + 1, 2),
        padded(t.year + 1900, 4),
        padded(t.hour as int, 2),
        padded(t.min as int, 2),
        padded(t.sec as int, 2),
    ];
    lemma_digits_hold_no_dash(t.mday as int, 2);
    lemma_digits_hold_no_dash(t.mon + 1, 2);
    lemma_digits_hold_no_dash(t.year + 1900, 4);
    lemma_digits_hold_no_dash(t.hour as int, 2);
    lemma_digits_hold_no_dash(t.min as int, 2);
    lemma_digits_hold_no_dash(t.sec as int, 2);
    let dash = seq!['-'];
    assert(!first.contains('-'));
    assert forall|i: int| 0 <= i < parts.len() implies !(#[trigger] parts[i]).contains('-') by {}
    law_split_of_join(parts, '-');
    assert(parts.drop_last() =~= parts.take(6));
    assert(parts.take(6).drop_last() =~= parts.take(5));
    assert(parts.take(5).drop_last() =~= parts.take(4));
    assert(parts.take(4).drop_last() =~= parts.take(3));
    assert(parts.take(3).drop_last() =~= parts.take(2));
    assert(parts.take(2).drop_last() =~= parts.take(1));
    reveal_with_fuel(joined, 7);
    let body = first + dash + parts[1] + dash + parts[2] + dash + parts[3] + dash + parts[4] + dash
        + parts[5] + dash + parts[6];
    assert(joined(parts, dash) =~= body);
    let name = file_name(t);
    assert("rayshot-"@ =~= first + dash);
    assert(name =~= body + ".png"@);
    let n = name.len() - 4;
    assert(name.take(n) =~= body);
    assert(name.skip(n) =~= seq!['.', 'p', 'n', 'g']);
}

/// The first name to try is the name itself; the later ones have a dash and their number before
/// the ending, which a name without it gets.
pub proof fn law_numbered_names(base: Seq<char>, n: int)
    ensures
        n <= 1 ==> nth_name(base, n) == base,
        n >= 2 ==> nth_name(base + seq!['.', 'p', 'n', 'g'], n) == base + seq!['-'] + decimal(
            n as nat,
        ) + seq!['.', 'p', 'n', 'g'],
        n >= 2 && (base.len() < 4 || base.skip(base.len() - 4) != seq!['.', 'p', 'n', 'g'])
            ==> nth_name(base, n) == base + seq!['-'] + decimal(n as nat)
            + seq!['.', 'p', 'n', 'g'],
{
    reveal_strlit(".png");
    let png = seq!['.', 'p', 'n', 'g'];
    assert(".png"@ =~= png);
    let name = base + png;
    assert(name.skip(name.len() - 4) =~= png);
    assert(name.take(name.len() - 4) =~= base);
}

/// As long as one of the first 999 paths to try can not be said to be taken, the path that is
/// found can be said to be free; it is one of the paths to try, and all before it were said to be
/// taken. If the first one is not said to be taken, it is that one.
pub proof fn law_found_path_is_free<F: Fn(&Vec<u8>) -> bool>(
    path: Seq<u8>,
    dir: Seq<u8>,
    name: Seq<char>,
    taken: F,
    m: int,
)
    requires
        is_unique_path(path, dir, name, taken),
        1 <= m <= 999,
        !answers(taken, below(dir, encode_utf8(nth_name(name, m))), true),
    ensures
        answers(taken, path, false),
        exists|n: int|
            1 <= n <= m && path == below(dir, encode_utf8(#[trigger] nth_name(name, n))) && forall|
                l: int,
            |
                1 <= l < n ==> answers(
                    taken,
                    below(dir, encode_utf8(#[trigger] nth_name(name, l))),
                    true,
                ),
        m == 1 ==> path == below(dir, encode_utf8(name)),
{
    let free = nth_path(dir, name, m);
    assert(!answers(taken, free, true));
    let n = choose|n: int|
        {
            &&& 1 <= n < 1000
            &&& path == #[trigger] nth_path(dir, name, n)
            &&& answers(taken, path, false)
            &&& forall|m: int|
                1 <= m < n ==> answers(taken, #[trigger] nth_path(dir, name, m), true)
        };
    assert(n <= m);
    assert forall|l: int| 1 <= l < n implies answers(
        taken,
        below(dir, encode_utf8(#[trigger] nth_name(name, l))),
        true,
    ) by {
        assert(answers(taken, nth_path(dir, name, l), true));
    }
    assert(path == below(dir, encode_utf8(nth_name(name, n))));
}

proof fn lemma_numbers_of_a_beginning(values: Seq<Option<Coord>>, v: Option<Coord>, n: int)
    requires
        n <= values.len(),
    ensures
        numbers(values.push(v), n) == numbers(values, n),
    decreases n,
{
    if n > 0 {
        lemma_numbers_of_a_beginning(values, v, n - 1);
    }
}

/// The numbers among what was read are kept in their order, and what is no number is passed over.
pub proof fn law_numbers_are_kept_in_order(values: Seq<Option<Coord>>, v: Coord)
    ensures
        ({
            let n = values.len() as int;
            &&& numbers(Seq::empty(), 0).len() == 0
            &&& numbers(values.push(Some(v)), n + 1) == numbers(values, n).push(v)
            &&& numbers(values.push(None), n + 1) == numbers(values, n)
        }),
{
    let n = values.len() as int;
    lemma_numbers_of_a_beginning(values, Some(v), n);
    lemma_numbers_of_a_beginning(values, None, n);
    assert(values.push(Some(v))[n] == Some(v));
    assert(values.push(None)[n] is None);
}

/// Four numbers are the corner and the size of a selection, in this order, if the size is above
/// zero; any other count of numbers is no selection.
pub proof fn law_selection_is_read_from_four_numbers(values: Seq<Option<Coord>>)
    ensures
        ({
            let v = numbers(values, values.len() as int);
            let zero = Coord { bits: 0 };
            &&& v.len() != 4 ==> read_selection(values) is None
            &&& v.len() == 4 && zero.below(v[2]) && zero.below(v[3]) ==> read_selection(values)
                == Some((Pos { x: v[0], y: v[1] }, Size { w: v[2], h: v[3] }))
            &&& v.len() == 4 && !(zero.below(v[2]) && zero.below(v[3])) ==> read_selection(values)
                is None
            &&& v.len() == 4 ==> placed_size(v) == (
                Pos { x: v[0], y: v[1] },
                Size { w: v[2], h: v[3] },
            )
        }),
{
}

/// The file of a selection holds its four numbers, in order and with commas between them; its
/// fields are read without the white space around the whole.
pub proof fn law_selection_file_holds_four_fields(
    x: Seq<char>,
    y: Seq<char>,
    w: Seq<char>,
    h: Seq<char>,
    text: Seq<char>,
)
    ensures
        selection_file(x, y, w, h) == x + seq![','] + y + seq![','] + w + seq![','] + h,
        file_fields(text) == split_parts(trimmed(text), ','),
{
    lemma_selection_file(x, y, w, h);
}

/// As a single-precision number, one has the exponent 127 and no mantissa.
pub proof fn law_bit_pattern_of_one()
    ensures
        ONE == 127 * 0x80_0000,
{
}

} // verus!
