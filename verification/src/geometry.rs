//! Coordinates, points and rectangles.
//!
//! A coordinate is an IEEE 754 single-precision number, carried by its bit pattern. Comparing
//! such numbers needs nothing but integers; whatever needs their arithmetic is computed by the
//! caller and handed in as a coordinate.

use vstd::prelude::*;

verus! {

/// A single-precision number, by its bit pattern.
#[derive(Clone, Copy, Debug, PartialEq, Eq, Structural)]
pub struct Coord {
    pub bits: u32,
}

impl Coord {
    /// Not a number: all exponent bits set and a mantissa that is not zero.
    pub open spec fn is_nan(self) -> bool {
        if self.bits < 0x8000_0000 {
            self.bits > 0x7f80_0000
        } else {
            self.bits > 0xff80_0000
        }
    }

    /// The place of a number in the order of the numbers: the magnitude's bits, negated below
    /// zero. Both zeroes have the same place.
    pub open spec fn rank(self) -> int {
        if self.bits < 0x8000_0000 {
            self.bits as int
        } else {
            0x8000_0000 - self.bits
        }
    }

    /// `self <= other`, which no value is that is not a number.
    pub open spec fn at_most(self, other: Coord) -> bool {
        !self.is_nan() && !other.is_nan() && self.rank() <= other.rank()
    }

    /// `self < other`, which no value is that is not a number.
    pub open spec fn below(self, other: Coord) -> bool {
        !self.is_nan() && !other.is_nan() && self.rank() < other.rank()
    }

    /// The smaller of two coordinates: a number where only one of them is one.
    pub open spec fn smaller(self, other: Coord) -> Coord {
        if self.is_nan() || other.below(self) {
            other
        } else {
            self
        }
    }

    /// The larger of two coordinates: a number where only one of them is one.
    pub open spec fn larger(self, other: Coord) -> Coord {
        if self.is_nan() || self.below(other) {
            other
        } else {
            self
        }
    }

    /// Whether the coordinate is not a number.
    fn not_a_number(self) -> (r: bool)
        ensures
            r == self.is_nan(),
    {
        if self.bits < 0x8000_0000 {
            self.bits > 0x7f80_0000
        } else {
            self.bits > 0xff80_0000
        }
    }

    /// The coordinate's place in the order of the numbers.
    fn place(self) -> (r: i64)
        ensures
            r == self.rank(),
    {
        if self.bits < 0x8000_0000 {
            self.bits as i64
        } else {
            0x8000_0000i64 - self.bits as i64
        }
    }

    /// Whether `self <= other`.
    pub fn le(self, other: Coord) -> (r: bool)
        ensures
            r == self.at_most(other),
    {
        !self.not_a_number() && !other.not_a_number() && self.place() <= other.place()
    }

    /// Whether `self < other`.
    pub fn lt(self, other: Coord) -> (r: bool)
        ensures
            r == self.below(other),
    {
        !self.not_a_number() && !other.not_a_number() && self.place() < other.place()
    }

    /// The smaller of two coordinates.
    pub fn min(self, other: Coord) -> (r: Coord)
        ensures
            r == self.smaller(other),
    {
        if self.not_a_number() || other.lt(self) {
            other
        } else {
            self
        }
    }

    /// The larger of two coordinates.
    pub fn max(self, other: Coord) -> (r: Coord)
        ensures
            r == self.larger(other),
    {
        if self.not_a_number() || self.lt(other) {
            other
        } else {
            self
        }
    }
}

/// A point.
#[derive(Clone, Copy, Debug, PartialEq, Eq, Structural)]
pub struct Pos {
    pub x: Coord,
    pub y: Coord,
}

/// A rectangle, by its upper left and its lower right corner.
#[derive(Clone, Copy, Debug, PartialEq, Eq, Structural)]
pub struct Rect {
    pub min: Pos,
    pub max: Pos,
}

/// A width and a height.
#[derive(Clone, Copy, Debug, PartialEq, Eq, Structural)]
pub struct Size {
    pub w: Coord,
    pub h: Coord,
}

impl Rect {
    /// The rectangle with two given points as opposite corners.
    pub open spec fn spanned(a: Pos, b: Pos) -> Rect {
        Rect {
            min: Pos { x: a.x.smaller(b.x), y: a.y.smaller(b.y) },
            max: Pos { x: a.x.larger(b.x), y: a.y.larger(b.y) },
        }
    }

    /// The point lies in the rectangle or on its border.
    pub open spec fn has(self, p: Pos) -> bool {
        &&& self.min.x.at_most(p.x)
        &&& p.x.at_most(self.max.x)
        &&& self.min.y.at_most(p.y)
        &&& p.y.at_most(self.max.y)
    }

    /// What two rectangles have in common; its corners are out of order where that is nothing.
    pub open spec fn common(self, other: Rect) -> Rect {
        Rect {
            min: Pos {
                x: self.min.x.larger(other.min.x),
                y: self.min.y.larger(other.min.y),
            },
            max: Pos {
                x: self.max.x.smaller(other.max.x),
                y: self.max.y.smaller(other.max.y),
            },
        }
    }

    /// What the rectangle has in common with another.
    pub fn intersect(self, other: Rect) -> (r: Rect)
        ensures
            r == self.common(other),
    {
        Rect {
            min: Pos { x: self.min.x.max(other.min.x), y: self.min.y.max(other.min.y) },
            max: Pos { x: self.max.x.min(other.max.x), y: self.max.y.min(other.max.y) },
        }
    }

    /// The rectangle with `a` and `b` as opposite corners.
    pub fn from_two_pos(a: Pos, b: Pos) -> (r: Rect)
        ensures
            r == Rect::spanned(a, b),
    {
        Rect {
            min: Pos { x: a.x.min(b.x), y: a.y.min(b.y) },
            max: Pos { x: a.x.max(b.x), y: a.y.max(b.y) },
        }
    }

    /// Whether the rectangle, its border included, contains `p`.
    pub fn contains(self, p: Pos) -> (r: bool)
        ensures
            r == self.has(p),
    {
        self.min.x.le(p.x) && p.x.le(self.max.x) && self.min.y.le(p.y) && p.y.le(self.max.y)
    }
}

/// Numbers are ordered totally: of two, one is at most the other.
pub proof fn law_order_is_total(a: Coord, b: Coord)
    requires
        !a.is_nan(),
        !b.is_nan(),
    ensures
        a.at_most(b) || b.at_most(a),
        a.below(b) <==> !b.at_most(a),
{
}

/// The rectangle that two points span contains both of them, whichever comes first.
pub proof fn law_spanned_contains_corners(a: Pos, b: Pos)
    requires
        !a.x.is_nan() && !a.y.is_nan() && !b.x.is_nan() && !b.y.is_nan(),
    ensures
        Rect::spanned(a, b).has(a),
        Rect::spanned(a, b).has(b),
{
}

/// What two rectangles have in common contains exactly the points that both contain.
pub proof fn law_common_has_shared_points(a: Rect, b: Rect, p: Pos)
    requires
        !a.min.x.is_nan() && !a.min.y.is_nan() && !a.max.x.is_nan() && !a.max.y.is_nan(),
        !b.min.x.is_nan() && !b.min.y.is_nan() && !b.max.x.is_nan() && !b.max.y.is_nan(),
    ensures
        a.common(b).has(p) <==> a.has(p) && b.has(p),
{
}

/// Positive numbers are in the order of their bit patterns, negative ones in the reverse order,
/// and no negative number comes after a positive one; the two zeroes are equal.
pub proof fn law_order_of_bit_patterns(a: u32, b: u32)
    ensures
        a <= 0x7f80_0000 && b <= 0x7f80_0000 ==> {
            &&& (Coord { bits: a }).at_most(Coord { bits: b }) <==> a <= b
            &&& (Coord { bits: a }).below(Coord { bits: b }) <==> a < b
        },
        0x8000_0000 <= a <= 0xff80_0000 && 0x8000_0000 <= b <= 0xff80_0000 ==> {
            &&& (Coord { bits: a }).at_most(Coord { bits: b }) <==> b <= a
            &&& (Coord { bits: a }).below(Coord { bits: b }) <==> b < a
        },
        0x8000_0000 <= a <= 0xff80_0000 && b <= 0x7f80_0000 ==> {
            &&& (Coord { bits: a }).at_most(Coord { bits: b })
            &&& (Coord { bits: a }).below(Coord { bits: b }) <==> !(a == 0x8000_0000 && b == 0)
            &&& (Coord { bits: b }).at_most(Coord { bits: a }) <==> a == 0x8000_0000 && b == 0
            &&& !(Coord { bits: b }).below(Coord { bits: a })
        },
{
}

/// What is not a number, a bit pattern beyond one of the infinities, comes neither before nor
/// after anything, not even itself.
pub proof fn law_not_a_number_has_no_order(a: u32, other: Coord)
    requires
        0x7f80_0000 < a < 0x8000_0000 || 0xff80_0000 < a,
    ensures
        (Coord { bits: a }).is_nan(),
        !(Coord { bits: a }).at_most(other),
        !(Coord { bits: a }).below(other),
        !other.at_most(Coord { bits: a }),
        !other.below(Coord { bits: a }),
{
}

/// Of two different numbers the smaller and the larger are the two of them, in whatever order
/// they are given; of two equal ones it is the first, and what is not a number is passed over.
pub proof fn law_smaller_and_larger_of_two(a: Coord, b: Coord)
    ensures
        a.below(b) ==> a.smaller(b) == a && b.smaller(a) == a && a.larger(b) == b && b.larger(a)
            == b,
        a.at_most(b) && b.at_most(a) ==> a.smaller(b) == a && a.larger(b) == a,
        a.is_nan() ==> a.smaller(b) == b && a.larger(b) == b,
        b.is_nan() && !a.is_nan() ==> a.smaller(b) == a && a.larger(b) == a,
{
}

/// A rectangle contains a point exactly when the point lies beyond none of its four sides.
pub proof fn law_rect_contains_what_lies_beyond_no_side(r: Rect, p: Pos)
    requires
        !r.min.x.is_nan() && !r.min.y.is_nan() && !r.max.x.is_nan() && !r.max.y.is_nan(),
        !p.x.is_nan() && !p.y.is_nan(),
    ensures
        r.has(p) <==> !p.x.below(r.min.x) && !r.max.x.below(p.x) && !p.y.below(r.min.y)
            && !r.max.y.below(p.y),
{
}

/// The rectangle that two points span has their coordinates as its sides, each direction for
/// itself: the smaller one is the left or upper side, the larger one the right or lower side.
pub proof fn law_spanned_has_the_sides_of_its_corners(a: Pos, b: Pos)
    ensures
        a.x.below(b.x) ==> Rect::spanned(a, b).min.x == a.x && Rect::spanned(a, b).max.x == b.x,
        b.x.below(a.x) ==> Rect::spanned(a, b).min.x == b.x && Rect::spanned(a, b).max.x == a.x,
        a.x == b.x ==> Rect::spanned(a, b).min.x == a.x && Rect::spanned(a, b).max.x == a.x,
        a.y.below(b.y) ==> Rect::spanned(a, b).min.y == a.y && Rect::spanned(a, b).max.y == b.y,
        b.y.below(a.y) ==> Rect::spanned(a, b).min.y == b.y && Rect::spanned(a, b).max.y == a.y,
        a.y == b.y ==> Rect::spanned(a, b).min.y == a.y && Rect::spanned(a, b).max.y == a.y,
{
}

/// Every rectangle that contains two points contains what they span.
pub proof fn law_spanned_is_the_smallest(a: Pos, b: Pos, r: Rect, p: Pos)
    requires
        r.has(a),
        r.has(b),
        Rect::spanned(a, b).has(p),
    ensures
        r.has(p),
{
}

/// What two rectangles have in common begins where the later of them begins and ends where the
/// earlier of them ends, each direction for itself.
pub proof fn law_common_has_the_inner_sides(a: Rect, b: Rect)
    ensures
        a.min.x.below(b.min.x) ==> a.common(b).min.x == b.min.x && b.common(a).min.x == b.min.x,
        a.min.y.below(b.min.y) ==> a.common(b).min.y == b.min.y && b.common(a).min.y == b.min.y,
        a.max.x.below(b.max.x) ==> a.common(b).max.x == a.max.x && b.common(a).max.x == a.max.x,
        a.max.y.below(b.max.y) ==> a.common(b).max.y == a.max.y && b.common(a).max.y == a.max.y,
        a.common(a) == a,
{
}

} // verus!
