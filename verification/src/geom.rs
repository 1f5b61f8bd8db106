//! Integer grid vectors and the hex distance metric.

use vstd::prelude::*;

verus! {

/// A point or offset on the integer coordinate grid of the hex map.
#[derive(Clone, Copy, PartialEq, Eq, Structural, Debug)]
pub struct V2(pub i32, pub i32);

/// Absolute value of a mathematical integer.
pub open spec fn abs_val(x: int) -> int {
    if x < 0 {
        -x
    } else {
        x
    }
}

/// Sign of a mathematical integer: -1, 0 or 1.
pub open spec fn sgn(x: int) -> int {
    if x < 0 {
        -1
    } else if x == 0 {
        0
    } else {
        1
    }
}

/// Larger of two mathematical integers.
pub open spec fn max_val(x: int, y: int) -> int {
    if x < y {
        y
    } else {
        x
    }
}

/// The hex distance a vector spans: when both components point the same way
/// (or either is zero with the other's sign matching, which only happens for
/// equal signs) the diagonal axis absorbs the shared part, so the distance is
/// the larger magnitude; when the components point opposite ways each must be
/// walked separately, so the magnitudes add.
pub open spec fn spec_hex_dist(v: V2) -> int {
    let x = v.0 as int;
    let y = v.1 as int;
    if sgn(x) == sgn(y) {
        max_val(abs_val(x), abs_val(y))
    } else {
        abs_val(x) + abs_val(y)
    }
}

/// Hex grid geometry for vectors.
pub trait HexGeom {
    /// Hex distance represented by a vector.
    fn hex_dist(&self) -> (d: i32)
        requires
            self.spec_dist() <= i32::MAX as int,
        ensures
            d == self.spec_dist(),
    ;

    /// The distance the executable method reports, as a mathematical value.
    spec fn spec_dist(&self) -> int;
}

impl HexGeom for V2 {
    open spec fn spec_dist(&self) -> int {
        spec_hex_dist(*self)
    }

    fn hex_dist(&self) -> (d: i32) {
        let x: i64 = self.0 as i64;
        let y: i64 = self.1 as i64;
        let ax: i64 = if x < 0 {
            -x
        } else {
            x
        };
        let ay: i64 = if y < 0 {
            -y
        } else {
            y
        };
        let sign_match: bool = (x < 0 && y < 0) || (x > 0 && y > 0) || (x == 0 && y == 0);
        if sign_match {
            if ax < ay {
                ay as i32
            } else {
                ax as i32
            }
        } else {
            (ax + ay) as i32
        }
    }
}

impl V2 {
    /// Component-wise sum.
    pub fn add(self, other: V2) -> (r: V2)
        requires
            i32::MIN <= self.0 + other.0 <= i32::MAX,
            i32::MIN <= self.1 + other.1 <= i32::MAX,
        ensures
            r.0 == self.0 + other.0,
            r.1 == self.1 + other.1,
    {
        V2(self.0 + other.0, self.1 + other.1)
    }

    /// Component-wise difference.
    pub fn sub(self, other: V2) -> (r: V2)
        requires
            i32::MIN <= self.0 - other.0 <= i32::MAX,
            i32::MIN <= self.1 - other.1 <= i32::MAX,
        ensures
            r.0 == self.0 - other.0,
            r.1 == self.1 - other.1,
    {
        V2(self.0 - other.0, self.1 - other.1)
    }

    /// Both components negated.
    pub fn neg(self) -> (r: V2)
        requires
            self.0 > i32::MIN,
            self.1 > i32::MIN,
        ensures
            r.0 == -self.0,
            r.1 == -self.1,
    {
        V2(-self.0, -self.1)
    }

    /// Both components multiplied by a scalar.
    pub fn scale(self, k: i32) -> (r: V2)
        requires
            i32::MIN <= self.0 * k <= i32::MAX,
            i32::MIN <= self.1 * k <= i32::MAX,
        ensures
            r.0 == self.0 * k,
            r.1 == self.1 * k,
    {
        let x: i64 = (self.0 as i64) * (k as i64);
        let y: i64 = (self.1 as i64) * (k as i64);
        V2(x as i32, y as i32)
    }
}

} // verus!
