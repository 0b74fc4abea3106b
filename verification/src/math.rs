//! Points, vectors, sizes, rays and exact ratios on the integer grid.

use vstd::prelude::*;

verus! {

/// A point in 2-D space, in grid units.
#[derive(Debug, Clone, Copy, PartialEq, Eq, Structural)]
pub struct Point {
    pub x: i32,
    pub y: i32,
}

impl Point {
    /// Create a new point.
    pub fn new(x: i32, y: i32) -> (p: Self)
        ensures
            p.x == x,
            p.y == y,
    {
        Self { x: x, y: y }
    }

    /// The point moved by `offset`, each coordinate clamped to the grid.
    pub fn offset_by(self, offset: Point) -> (p: Self)
        ensures
            p.x == clamp_to_grid(self.x + offset.x),
            p.y == clamp_to_grid(self.y + offset.y),
    {
        Self {
            x: clamp(self.x as i128 + offset.x as i128),
            y: clamp(self.y as i128 + offset.y as i128),
        }
    }
}

/// A 2-D displacement or velocity, in grid units (per tick).
#[derive(Debug, Clone, Copy, PartialEq, Eq, Structural)]
pub struct Vector {
    pub x: i32,
    pub y: i32,
}

impl Vector {
    /// Create a new vector.
    pub fn new(x: i32, y: i32) -> (v: Self)
        ensures
            v.x == x,
            v.y == y,
    {
        Self { x: x, y: y }
    }
}

/// The full extent of a rectangle; both components are non-negative by type.
#[derive(Debug, Clone, Copy, PartialEq, Eq, Structural)]
pub struct Size {
    pub w: u32,
    pub h: u32,
}

impl Size {
    /// Create a new size.
    pub fn new(w: u32, h: u32) -> (s: Self)
        ensures
            s.w == w,
            s.h == h,
    {
        Self { w: w, h: h }
    }
}

/// A ray. The direction need not be normalized.
#[derive(Debug, Clone, Copy, PartialEq, Eq, Structural)]
pub struct Ray {
    pub origin: Point,
    pub direction: Vector,
}

impl Ray {
    /// Create a new ray.
    pub fn new(origin: Point, direction: Vector) -> (r: Self)
        ensures
            r.origin == origin,
            r.direction == direction,
    {
        Self { origin: origin, direction: direction }
    }
}

/// The nearest value on the grid: `v` itself where it fits, else the edge.
pub open spec fn clamp_to_grid(v: int) -> int {
    if v < i32::MIN {
        i32::MIN as int
    } else if v > i32::MAX {
        i32::MAX as int
    } else {
        v
    }
}

/// Clamp a wide value to the grid.
pub fn clamp(v: i128) -> (r: i32)
    ensures
        r == clamp_to_grid(v as int),
{
    if v < i32::MIN as i128 {
        i32::MIN
    } else if v > i32::MAX as i128 {
        i32::MAX
    } else {
        v as i32
    }
}

/// An exact extended ratio `num / den` with `den >= 0`.
///
/// A zero denominator stands for the value a division by zero gives: plus
/// infinity for a positive numerator, minus infinity for a negative one, and
/// no number at all for `0 / 0`.
pub struct Frac {
    pub num: int,
    pub den: int,
}

impl Frac {
    /// `0 / 0`: not a number.
    pub open spec fn undefined(self) -> bool {
        self.num == 0 && self.den == 0
    }

    /// A ratio with a positive denominator.
    pub open spec fn finite(self) -> bool {
        self.den > 0
    }

    /// Strictly less. False whenever either side is not a number.
    pub open spec fn lt(self, other: Frac) -> bool {
        if self.den == 0 && other.den == 0 {
            self.num < 0 && other.num > 0
        } else {
            self.num * other.den < other.num * self.den
        }
    }

    /// Strictly greater.
    pub open spec fn gt(self, other: Frac) -> bool {
        other.lt(self)
    }

    /// Below zero.
    pub open spec fn negative(self) -> bool {
        self.num < 0
    }

    /// The larger of two; `self` where neither is larger.
    pub open spec fn larger(self, other: Frac) -> Frac {
        if self.lt(other) {
            other
        } else {
            self
        }
    }

    /// In the half-open unit interval `[0, 1)`.
    pub open spec fn in_unit(self) -> bool {
        0 <= self.num < self.den
    }
}

/// An exact extended ratio of two machine integers; see [`Frac`].
#[derive(Debug, Clone, Copy, PartialEq, Eq, Structural)]
pub struct Ratio {
    pub num: i128,
    pub den: i128,
}

impl View for Ratio {
    type V = Frac;

    open spec fn view(&self) -> Frac {
        Frac { num: self.num as int, den: self.den as int }
    }
}

/// Numerators up to this size, in absolute value, can be compared.
pub const NUM_LIMIT: i128 = 0x100_0000_0000;

/// Denominators up to this size can be compared.
pub const DEN_LIMIT: i128 = 0x1_0000_0000_0000_0000;

/// The product of a numerator and a denominator within the limits is far
/// inside `i128`.
pub proof fn lemma_product_fits(a: int, b: int)
    requires
        -NUM_LIMIT <= a <= NUM_LIMIT,
        0 <= b <= DEN_LIMIT,
    ensures
        -0x100_0000_0000_0000_0000_0000_0000 <= a * b <= 0x100_0000_0000_0000_0000_0000_0000,
{
    assert(-0x100_0000_0000_0000_0000_0000_0000 <= a * b <= 0x100_0000_0000_0000_0000_0000_0000)
        by (nonlinear_arith)
        requires
            -0x100_0000_0000 <= a <= 0x100_0000_0000,
            0 <= b <= 0x1_0000_0000_0000_0000,
    ;
}

impl Ratio {
    /// Small enough to be compared without overflow.
    pub open spec fn comparable(self) -> bool {
        &&& -NUM_LIMIT <= self.num <= NUM_LIMIT
        &&& 0 <= self.den <= DEN_LIMIT
    }

    /// Whether `self` is strictly less than `other`.
    pub fn less(self, other: Ratio) -> (r: bool)
        requires
            self.comparable(),
            other.comparable(),
        ensures
            r == self@.lt(other@),
    {
        if self.den == 0 && other.den == 0 {
            self.num < 0 && other.num > 0
        } else {
            proof {
                lemma_product_fits(self.num as int, other.den as int);
                lemma_product_fits(other.num as int, self.den as int);
            }
            self.num * other.den < other.num * self.den
        }
    }

    /// Whether `self` is `0 / 0`.
    pub fn is_undefined(self) -> (r: bool)
        ensures
            r == self@.undefined(),
    {
        self.num == 0 && self.den == 0
    }
}

} // verus!
