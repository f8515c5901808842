use vstd::prelude::*;

verus! {

/// A point or displacement in the plane, in integer units.
#[derive(Clone, Copy, PartialEq, Eq, Debug)]
pub struct Vec2 {
    pub x: i64,
    pub y: i64,
}

/// Squared length of `(x, y)`.
pub open spec fn norm2_of(x: int, y: int) -> int {
    x * x + y * y
}

impl Vec2 {
    /// Componentwise difference `self - other`.
    pub fn sub(self, other: Vec2) -> (r: Vec2)
        requires
            i64::MIN <= self.x - other.x <= i64::MAX,
            i64::MIN <= self.y - other.y <= i64::MAX,
        ensures
            r.x == self.x - other.x,
            r.y == self.y - other.y,
    {
        Vec2 { x: self.x - other.x, y: self.y - other.y }
    }

    /// Both components multiplied by `k`.
    pub fn mul(self, k: i64) -> (r: Vec2)
        requires
            i64::MIN <= self.x * k <= i64::MAX,
            i64::MIN <= self.y * k <= i64::MAX,
        ensures
            r.x == self.x * k,
            r.y == self.y * k,
    {
        Vec2 { x: self.x * k, y: self.y * k }
    }

    /// Squared length `x² + y²`; never negative, zero only for the zero vector.
    pub fn norm2(&self) -> (r: u128)
        ensures
            r == norm2_of(self.x as int, self.y as int),
            r == 0 <==> (self.x == 0 && self.y == 0),
    {
        let ax: u128 = if self.x < 0 { (-(self.x as i128)) as u128 } else { self.x as u128 };
        let ay: u128 = if self.y < 0 { (-(self.y as i128)) as u128 } else { self.y as u128 };
        assert(ax * ax == self.x * self.x && ay * ay == self.y * self.y) by (nonlinear_arith)
            requires
                ax == self.x || ax == -self.x,
                ay == self.y || ay == -self.y,
        ;
        assert(ax * ax <= 0x4000_0000_0000_0000_0000_0000_0000_0000) by (nonlinear_arith)
            requires
                ax <= 0x8000_0000_0000_0000,
        ;
        assert(ay * ay <= 0x4000_0000_0000_0000_0000_0000_0000_0000) by (nonlinear_arith)
            requires
                ay <= 0x8000_0000_0000_0000,
        ;
        assert((ax * ax + ay * ay == 0) <==> (ax == 0 && ay == 0)) by (nonlinear_arith);
        ax * ax + ay * ay
    }
}

} // verus!
