//! Colors of annotations.

use vstd::prelude::*;

verus! {

/// A color with its red, green and blue channels multiplied by its alpha channel.
#[derive(Clone, Copy, Debug, PartialEq, Eq, Structural)]
pub struct Color {
    pub r: u8,
    pub g: u8,
    pub b: u8,
    pub a: u8,
}

/// `value * alpha / 255`, rounded to the nearest integer.
pub open spec fn scaled(value: u8, alpha: u8) -> int {
    (2 * value * alpha + 255) / 510
}

/// Calls `egui::Color32::from_rgba_unmultiplied`, which multiplies each of the three color
/// channels by the alpha channel, taken as a fraction of 255, and rounds to the nearest
/// integer. No product lies halfway between two integers, so the rounding leaves no choice.
#[verifier::external_body]
fn from_rgba_unmultiplied(r: u8, g: u8, b: u8, a: u8) -> (c: Color)
    ensures
        c.r == scaled(r, a),
        c.g == scaled(g, a),
        c.b == scaled(b, a),
        c.a == a,
{
    let c = egui::Color32::from_rgba_unmultiplied(r, g, b, a);
    Color { r: c.r(), g: c.g(), b: c.b(), a: c.a() }
}

/// An opaque color.
pub fn from_rgb(r: u8, g: u8, b: u8) -> (c: Color)
    ensures
        c == (Color { r, g, b, a: 255 }),
{
    Color { r, g, b, a: 255 }
}

/// The opacity of the marker's strokes.
pub const MARKER_ALPHA: u8 = 110;

/// The translucent color in which the marker draws.
pub open spec fn marker_tint(c: Color) -> Color {
    Color {
        r: scaled(c.r, MARKER_ALPHA) as u8,
        g: scaled(c.g, MARKER_ALPHA) as u8,
        b: scaled(c.b, MARKER_ALPHA) as u8,
        a: MARKER_ALPHA,
    }
}

/// The translucent color in which the marker draws when `c` is chosen.
pub fn marker_color(c: Color) -> (r: Color)
    ensures
        r == marker_tint(c),
{
    from_rgba_unmultiplied(c.r, c.g, c.b, MARKER_ALPHA)
}

/// The marker draws with an alpha of 110, and each of its color channels is that same channel of
/// the chosen color, times 110 and over 255, to the nearest integer.
pub proof fn law_marker_scales_each_channel(c: Color)
    ensures
        marker_tint(c).a == 110,
        -255 <= 2 * (255 * marker_tint(c).r - 110 * c.r) <= 255,
        -255 <= 2 * (255 * marker_tint(c).g - 110 * c.g) <= 255,
        -255 <= 2 * (255 * marker_tint(c).b - 110 * c.b) <= 255,
{
}

/// A channel scaled by full alpha stays as it is, and one scaled by none is zero.
pub proof fn law_scaled_by_the_extremes(value: u8)
    ensures
        scaled(value, 255) == value,
        scaled(value, 0) == 0,
{
}

} // verus!
