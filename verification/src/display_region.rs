//! Axis-aligned screen rectangles with integer coordinates.

use vstd::prelude::*;

verus! {

/// An axis-aligned rectangle: origin `(x, y)` plus `width` and `height`.
#[derive(Clone, Copy, Debug, PartialEq, Eq, Structural)]
pub struct DisplayRegion {
    pub x: i32,
    pub y: i32,
    pub width: i32,
    pub height: i32,
}

/// `v` clamped into the representable range of `i32`.
pub open spec fn clamp_to_i32(v: int) -> int {
    if v > i32::MAX as int {
        i32::MAX as int
    } else if v < i32::MIN as int {
        i32::MIN as int
    } else {
        v
    }
}

/// `a + b` computed exactly where it fits in `i32`, saturated at the type's
/// bounds otherwise (a guard against corrupt geometry read from the target).
pub fn clamped_add_i32(a: i32, b: i32) -> (r: i32)
    ensures
        r as int == clamp_to_i32(a + b),
{
    let wide: i64 = a as i64 + b as i64;
    if wide > i32::MAX as i64 {
        i32::MAX
    } else if wide < i32::MIN as i64 {
        i32::MIN
    } else {
        wide as i32
    }
}

impl DisplayRegion {
    pub fn new(x: i32, y: i32, width: i32, height: i32) -> (r: DisplayRegion)
        ensures
            r == (DisplayRegion { x, y, width, height }),
    {
        DisplayRegion { x, y, width, height }
    }

    /// The x coordinate just past the rectangle's right edge.
    pub fn right(&self) -> (r: i32)
        requires
            i32::MIN <= self.x + self.width <= i32::MAX,
        ensures
            r == self.x + self.width,
    {
        self.x + self.width
    }

    /// The y coordinate just past the rectangle's bottom edge.
    pub fn bottom(&self) -> (r: i32)
        requires
            i32::MIN <= self.y + self.height <= i32::MAX,
        ensures
            r == self.y + self.height,
    {
        self.y + self.height
    }

    /// `self` translated by the origin of `offset`, with each coordinate
    /// saturated at the bounds of `i32`. Width and height are kept.
    pub fn translated_by(&self, offset_x: i32, offset_y: i32) -> (r: DisplayRegion)
        ensures
            r == self.spec_translated_by(offset_x, offset_y),
    {
        DisplayRegion {
            x: clamped_add_i32(self.x, offset_x),
            y: clamped_add_i32(self.y, offset_y),
            width: self.width,
            height: self.height,
        }
    }

    /// What [`Self::translated_by`] returns.
    pub open spec fn spec_translated_by(self, offset_x: i32, offset_y: i32) -> DisplayRegion {
        DisplayRegion {
            x: clamp_to_i32(self.x + offset_x) as i32,
            y: clamp_to_i32(self.y + offset_y) as i32,
            width: self.width,
            height: self.height,
        }
    }
}

} // verus!
