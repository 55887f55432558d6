//! Immutable two-dimensional fixed-point vectors: every operation returns a
//! new value.

use crate::fixed::{fmul, fmul_spec, lemma_fmul_spec_bounds, COORD_BOUND, ROT_C, SCALE};
use vstd::prelude::*;

verus! {

/// A 2D vector of fixed-point scalars. A plain value type: no identity, no
/// interior mutation.
#[derive(Debug, PartialEq, Eq, Structural, Clone, Copy)]
pub struct Vec2 {
    pub x: i64,
    pub y: i64,
}

/// x component of `v` rotated by -45 degrees (the left steering probe):
/// `(x + y) * cos 45`.
pub open spec fn rot_left_x(v: Vec2) -> int {
    fmul_spec(v.x + v.y, ROT_C as int)
}

/// y component of `v` rotated by -45 degrees: `(y - x) * cos 45`.
pub open spec fn rot_left_y(v: Vec2) -> int {
    fmul_spec(v.y - v.x, ROT_C as int)
}

/// x component of `v` rotated by +45 degrees (the right steering probe):
/// `(x - y) * cos 45`.
pub open spec fn rot_right_x(v: Vec2) -> int {
    fmul_spec(v.x - v.y, ROT_C as int)
}

/// y component of `v` rotated by +45 degrees: `(x + y) * cos 45`.
pub open spec fn rot_right_y(v: Vec2) -> int {
    fmul_spec(v.x + v.y, ROT_C as int)
}

/// Unit speed up to fixed-point rounding: the squared magnitude of `v` lies
/// within four whole deposits' worth (`4 * SCALE`, about 0.006%) of
/// `SCALE * SCALE`, the squared magnitude of an exact unit vector.
pub open spec fn near_unit_speed(v: Vec2) -> bool {
    SCALE * SCALE - 4 * SCALE - 1 <= v.x * v.x + v.y * v.y <= SCALE * SCALE + 4 * SCALE
}

impl Vec2 {
    /// Both components within the crate's coordinate range.
    pub open spec fn in_bounds(self) -> bool {
        &&& -COORD_BOUND <= self.x <= COORD_BOUND
        &&& -COORD_BOUND <= self.y <= COORD_BOUND
    }

    /// Componentwise vector addition.
    pub fn plus(self, other: Vec2) -> (r: Vec2)
        requires
            i64::MIN <= self.x + other.x <= i64::MAX,
            i64::MIN <= self.y + other.y <= i64::MAX,
        ensures
            r.x == self.x + other.x,
            r.y == self.y + other.y,
    {
        Vec2 { x: self.x + other.x, y: self.y + other.y }
    }

    /// Uniform scaling by a fixed-point factor.
    pub fn scaled(self, k: i64) -> (r: Vec2)
        requires
            -(i64::MAX as int) <= fmul_spec(self.x as int, k as int) <= i64::MAX as int,
            -(i64::MAX as int) <= fmul_spec(self.y as int, k as int) <= i64::MAX as int,
        ensures
            r.x == fmul_spec(self.x as int, k as int),
            r.y == fmul_spec(self.y as int, k as int),
    {
        Vec2 { x: fmul(self.x, k), y: fmul(self.y, k) }
    }

    /// Rotation by -45 degrees, toward the left steering probe. Magnitude is
    /// preserved up to fixed-point rounding.
    pub fn rotated_left(self) -> (r: Vec2)
        requires
            self.in_bounds(),
        ensures
            r.x == rot_left_x(self),
            r.y == rot_left_y(self),
            -2 * COORD_BOUND <= r.x <= 2 * COORD_BOUND,
            -2 * COORD_BOUND <= r.y <= 2 * COORD_BOUND,
    {
        proof {
            lemma_fmul_spec_bounds(
                self.x + self.y,
                ROT_C as int,
                2 * COORD_BOUND as int,
                ROT_C as int,
            );
            lemma_fmul_spec_bounds(
                self.y - self.x,
                ROT_C as int,
                2 * COORD_BOUND as int,
                ROT_C as int,
            );
        }
        Vec2 { x: fmul(self.x + self.y, ROT_C), y: fmul(self.y - self.x, ROT_C) }
    }

    /// Rotation by +45 degrees, toward the right steering probe. Magnitude is
    /// preserved up to fixed-point rounding.
    pub fn rotated_right(self) -> (r: Vec2)
        requires
            self.in_bounds(),
        ensures
            r.x == rot_right_x(self),
            r.y == rot_right_y(self),
            -2 * COORD_BOUND <= r.x <= 2 * COORD_BOUND,
            -2 * COORD_BOUND <= r.y <= 2 * COORD_BOUND,
    {
        proof {
            lemma_fmul_spec_bounds(
                self.x - self.y,
                ROT_C as int,
                2 * COORD_BOUND as int,
                ROT_C as int,
            );
            lemma_fmul_spec_bounds(
                self.x + self.y,
                ROT_C as int,
                2 * COORD_BOUND as int,
                ROT_C as int,
            );
        }
        Vec2 { x: fmul(self.x - self.y, ROT_C), y: fmul(self.x + self.y, ROT_C) }
    }
}

} // verus!
