//! Vectors of the integer plane: the mathematical `Vector`, over unbounded
//! integers, and the stored `Vec2`, whose components are `i64`.
use vstd::prelude::*;

verus! {

/// The quotient of `a` by a positive `d`, rounded toward zero.
pub open spec fn quot(a: int, d: int) -> int {
    if a >= 0 {
        a / d
    } else {
        -((-a) / d)
    }
}

/// The quotient of `a` by a positive `d`, rounded away from zero: it is
/// zero only where `a` is.
pub open spec fn quot_away(a: int, d: int) -> int {
    if a >= 0 {
        (a + d - 1) / d
    } else {
        -((-a + d - 1) / d)
    }
}

/// The magnitude of `a`.
pub open spec fn abs(a: int) -> int {
    if a >= 0 {
        a
    } else {
        -a
    }
}

/// A point or a displacement of the plane, with unbounded components.
pub struct Vector {
    pub x: int,
    pub y: int,
}

impl Vector {
    pub open spec fn zero() -> Vector {
        Vector { x: 0, y: 0 }
    }

    pub open spec fn plus(self, other: Vector) -> Vector {
        Vector { x: self.x + other.x, y: self.y + other.y }
    }

    pub open spec fn minus(self, other: Vector) -> Vector {
        Vector { x: self.x - other.x, y: self.y - other.y }
    }

    pub open spec fn negated(self) -> Vector {
        Vector { x: -self.x, y: -self.y }
    }

    /// The dot product with `other`.
    pub open spec fn dot(self, other: Vector) -> int {
        self.x * other.x + self.y * other.y
    }

    /// The square of the Euclidean length.
    pub open spec fn norm_sq(self) -> int {
        self.x * self.x + self.y * self.y
    }

    /// `self` times `num / den`, each component rounded toward zero.
    pub open spec fn scaled(self, num: int, den: int) -> Vector {
        Vector { x: quot(self.x * num, den), y: quot(self.y * num, den) }
    }

    /// `self` times `num / den`, each component rounded away from zero.
    pub open spec fn scaled_away(self, num: int, den: int) -> Vector {
        Vector { x: quot_away(self.x * num, den), y: quot_away(self.y * num, den) }
    }

    /// The cross product with `other`: zero where the two are parallel.
    pub open spec fn cross(self, other: Vector) -> int {
        self.x * other.y - self.y * other.x
    }

    /// Both components have a magnitude of at most `bound`.
    pub open spec fn within(self, bound: int) -> bool {
        -bound <= self.x <= bound && -bound <= self.y <= bound
    }

    /// Both components can be stored in an `i64`.
    pub open spec fn representable(self) -> bool {
        i64::MIN <= self.x <= i64::MAX && i64::MIN <= self.y <= i64::MAX
    }
}

/// A stored vector.
#[derive(Clone, Copy, Debug, PartialEq, Eq)]
pub struct Vec2 {
    pub x: i64,
    pub y: i64,
}

impl View for Vec2 {
    type V = Vector;

    open spec fn view(&self) -> Vector {
        Vector { x: self.x as int, y: self.y as int }
    }
}

impl Vec2 {
    pub fn new(x: i64, y: i64) -> (v: Vec2)
        ensures
            v.x == x,
            v.y == y,
    {
        Vec2 { x, y }
    }
}

/// The magnitude of `a`.
pub(crate) fn magnitude(a: i128) -> (m: u128)
    requires
        a > i128::MIN,
    ensures
        m == abs(a as int),
{
    if a >= 0 {
        a as u128
    } else {
        (-a) as u128
    }
}

/// The quotient of `a` by `d`, rounded away from zero.
pub(crate) fn divide_away(a: i128, d: i128) -> (q: i128)
    requires
        d > 0,
        i128::MIN + d <= a <= i128::MAX - d,
    ensures
        q == quot_away(a as int, d as int),
{
    if a >= 0 {
        (a + (d - 1)) / d
    } else {
        (a - (d - 1)) / d
    }
}

/// Rounding away from zero keeps the sign, is zero only at zero, and goes
/// less than `d` beyond `a`.
pub proof fn lemma_quot_away_range(a: int, d: int)
    requires
        d > 0,
    ensures
        a > 0 ==> quot_away(a, d) > 0 && (quot_away(a, d) - 1) * d < a <= quot_away(a, d) * d,
        a < 0 ==> quot_away(a, d) < 0 && quot_away(a, d) * d <= a < (quot_away(a, d) + 1) * d,
        a == 0 ==> quot_away(a, d) == 0,
        abs(quot_away(a, d)) <= abs(a),
        quot_away(-a, d) == -quot_away(a, d),
{
    let m = abs(a);
    let q = (m + d - 1) / d;
    assert(q * d <= m + d - 1 < (q + 1) * d && (m > 0 ==> q > 0) && (m == 0 ==> q == 0) && q <= m)
        by (nonlinear_arith)
        requires
            m >= 0,
            d > 0,
            q == (m + d - 1) / d,
    ;
    assert((-q + 1) * d == -((q - 1) * d) && (-q) * d == -(q * d) && (q - 1) * d == q * d - d && (q
        + 1) * d == q * d + d) by (nonlinear_arith);
}

/// Rounding toward zero never leaves the interval between zero and the exact
/// quotient: `quot(a, d) * d` lies between `0` and `a`, less than `d` away
/// from `a`.
pub proof fn lemma_quot_range(a: int, d: int)
    requires
        d > 0,
    ensures
        a >= 0 ==> 0 <= quot(a, d) * d <= a < (quot(a, d) + 1) * d,
        a <= 0 ==> (quot(a, d) - 1) * d < a <= quot(a, d) * d <= 0,
        abs(quot(a, d)) == abs(a) / d,
        abs(quot(a, d)) <= abs(a),
{
    let m = abs(a);
    let q = m / d;
    assert(0 <= q * d <= m < (q + 1) * d && q <= m) by (nonlinear_arith)
        requires
            m >= 0,
            d > 0,
            q == m / d,
    ;
    assert((-q - 1) * d == -((q + 1) * d) && (-q) * d == -(q * d)) by (nonlinear_arith);
}

/// Rounding toward zero commutes with negation.
pub proof fn lemma_quot_odd(a: int, d: int)
    requires
        d > 0,
    ensures
        quot(-a, d) == -quot(a, d),
{
    if a == 0 {
        assert(0int / d == 0) by (nonlinear_arith)
            requires
                d > 0,
        ;
    }
}

} // verus!
