//! Points on concentric hex rings, in exact polar form.
//!
//! A polar point pairs a ring radius with an angular position along the
//! ring.  The position is the exact rational `num / den` of a full ring
//! *winding* per unit of radius, so the position along the ring of the given
//! radius is `num * radius / den` cells.  Keeping the angle rather than the
//! scaled position makes stepping one ring outward exact: the fraction is
//! left untouched and only the radius grows.

use vstd::arithmetic::div_mod::lemma_fundamental_div_mod;
use vstd::prelude::*;

use crate::dir::spec_from_int;
use crate::dir::spec_to_v2;
use crate::geom::V2;

verus! {

/// Mathematical content of a `PolarPoint`: the exact angular fraction and
/// the ring radius.
pub struct PolarModel {
    pub num: int,
    pub den: int,
    pub radius: int,
}

/// A well-formed polar point: positive bounded denominator, a bounded ring
/// radius, and an angle that cannot run away more than a fixed slack past
/// the six windings of a full circle plus one winding of drift per ring.
pub open spec fn pm_wf(p: PolarModel) -> bool {
    &&& 1 <= p.den <= 0x1_0000_0000
    &&& 0 <= p.num <= (p.radius + 8) * p.den
    &&& 0 <= p.radius <= 0x7fff_ffff
}

/// Scaled position of the point along its own ring, doubled to stay in
/// integers: `2 * num * radius / den` is twice the cell position.
pub open spec fn pm_pos_twice_num(p: PolarModel) -> int {
    2 * p.num * p.radius
}

/// Index of the discrete hex cell along the circle that corresponds to this
/// point: the floor of the position plus one half.
pub open spec fn pm_winding(p: PolarModel) -> int {
    (pm_pos_twice_num(p) + p.den) / (2 * p.den)
}

/// Exclusive upper cell index of a sector ending at this point: the ceiling
/// of the position plus one half.
pub open spec fn pm_end_index(p: PolarModel) -> int {
    (pm_pos_twice_num(p) + p.den + 2 * p.den - 1) / (2 * p.den)
}

/// Whether this point's cell lies before the exclusive end bound of the
/// other point.
pub open spec fn pm_is_below(a: PolarModel, b: PolarModel) -> bool {
    pm_winding(a) < pm_end_index(b)
}

/// The cell of ring `radius` at reduced cell index `index`: walk `radius`
/// rings outward along the direction of `index / radius` sixths of the
/// circle, then `index % radius` steps along the ring in the direction two
/// steps further around, which advances along the ring edge without leaving
/// it.
pub open spec fn ring_cell(radius: int, index: int) -> V2 {
    let sector = index / radius;
    let offset = index % radius;
    let rod = spec_to_v2(spec_from_int(sector));
    let tangent = spec_to_v2(spec_from_int(sector + 2));
    V2(
        (rod.0 * radius + tangent.0 * offset) as i32,
        (rod.1 * radius + tangent.1 * offset) as i32,
    )
}

/// The grid coordinate of the point's cell.  Radius zero is the degenerate
/// single origin cell whatever the angle.
pub open spec fn pm_to_v2(p: PolarModel) -> V2 {
    if p.radius == 0 {
        V2(0i32, 0i32)
    } else {
        ring_cell(p.radius, pm_winding(p) % (6 * p.radius))
    }
}

/// The point at the same angle one ring further out.
pub open spec fn pm_further(p: PolarModel) -> PolarModel {
    PolarModel { num: p.num, den: p.den, radius: p.radius + 1 }
}

/// The point snapped to the representative angle of the next cell along the
/// ring: position `winding + 1/2`, as an angle `(2 * winding + 1)` over
/// `2 * radius`.
pub open spec fn pm_next(p: PolarModel) -> PolarModel {
    PolarModel { num: 2 * pm_winding(p) + 1, den: 2 * p.radius, radius: p.radius }
}

/// The coordinate outside the ring wedged between this point's cell and the
/// next cell, when the two are diagonal neighbours along the grid diagonal.
pub open spec fn pm_side_point(p: PolarModel) -> Option<V2> {
    let a = pm_to_v2(p);
    let b = pm_to_v2(pm_next(p));
    if b.0 == a.0 + 1 && b.1 == a.1 + 1 {
        Some(V2(b.0, a.1))
    } else if b.0 == a.0 - 1 && b.1 == a.1 - 1 {
        Some(V2(b.0, a.1))
    } else {
        None
    }
}

/// The winding index of a well-formed point is nonnegative and bounded by
/// the angle cap scaled to the ring, and the end index rounds up to at most
/// one cell further.
pub proof fn lemma_winding_bounds(p: PolarModel)
    requires
        pm_wf(p),
    ensures
        0 <= pm_winding(p) <= p.radius * (p.radius + 8),
        pm_winding(p) <= pm_end_index(p) <= pm_winding(p) + 1,
{
    let x = pm_pos_twice_num(p) + p.den;
    let y = x + 2 * p.den - 1;
    let d = 2 * p.den;
    lemma_fundamental_div_mod(x, d);
    lemma_fundamental_div_mod(y, d);
    assert(0 <= pm_pos_twice_num(p) <= 2 * ((p.radius + 8) * p.den) * p.radius)
        by (nonlinear_arith)
        requires
            0 <= p.num <= (p.radius + 8) * p.den,
            0 <= p.radius,
            1 <= p.den,
    {}
    assert(x / d >= 0 && x / d <= p.radius * (p.radius + 8) && y / d >= x / d && y / d <= x / d
        + 1) by (nonlinear_arith)
        requires
            x == d * (x / d) + x % d,
            y == d * (y / d) + y % d,
            0 <= x % d < d,
            0 <= y % d < d,
            y == x + d - 1,
            d == 2 * p.den,
            1 <= p.den,
            x == pm_pos_twice_num(p) + p.den,
            0 <= pm_pos_twice_num(p) <= 2 * ((p.radius + 8) * p.den) * p.radius,
            0 <= p.radius,
    {}
}

/// Points on a hex circle expressed in polar coordinates.
#[derive(Clone, Copy, PartialEq, Eq, Structural, Debug)]
pub struct PolarPoint {
    pub num: u64,
    pub den: u64,
    pub radius: u32,
}

impl PolarPoint {
    /// The mathematical value of this point.
    pub open spec fn model(self) -> PolarModel {
        PolarModel { num: self.num as int, den: self.den as int, radius: self.radius as int }
    }

    /// Well-formedness carried over from the model.
    pub open spec fn wf(self) -> bool {
        pm_wf(self.model())
    }

    /// A point at angle `num / den` windings per unit radius on the ring of
    /// the given radius.
    pub fn new(num: u64, den: u64, radius: u32) -> (p: PolarPoint)
        requires
            pm_wf(PolarModel { num: num as int, den: den as int, radius: radius as int }),
        ensures
            p.model() == (PolarModel { num: num as int, den: den as int, radius: radius as int }),
            p.wf(),
    {
        PolarPoint { num, den, radius }
    }

    /// The ring radius the point sits on.
    pub fn radius(&self) -> (r: u32)
        ensures
            r as int == self.model().radius,
    {
        self.radius
    }

    /// Index of the discrete hex cell along the circle that corresponds to
    /// this point.
    fn winding_index(&self) -> (w: u64)
        requires
            self.wf(),
        ensures
            w as int == pm_winding(self.model()),
    {
        proof {
            let ni = self.num as int;
            let di = self.den as int;
            let ri = self.radius as int;
            lemma_winding_bounds(self.model());
            assert(2 * ni * ri + 3 * di < 0x1000_0000_0000_0000_0000_0000_0000_0000)
                by (nonlinear_arith)
                requires
                    0 <= ni < 0x1_0000_0000_0000_0000,
                    1 <= di <= 0x1_0000_0000,
                    0 <= ri <= 0x8000_0000,
            {}
            assert(ri * (ri + 8) < 0x8000_0000_0000_0000) by (nonlinear_arith)
                requires
                    0 <= ri <= 0x7fff_ffff,
            {}
        }
        let n: u128 = self.num as u128;
        let d: u128 = self.den as u128;
        let r: u128 = self.radius as u128;
        let q: u128 = (2 * n * r + d) / (2 * d);
        q as u64
    }

    /// Exclusive upper cell index for a sector ending at this point.
    fn end_index(&self) -> (e: u64)
        requires
            self.wf(),
        ensures
            e as int == pm_end_index(self.model()),
    {
        proof {
            let ni = self.num as int;
            let di = self.den as int;
            let ri = self.radius as int;
            lemma_winding_bounds(self.model());
            assert(2 * ni * ri + 3 * di < 0x1000_0000_0000_0000_0000_0000_0000_0000)
                by (nonlinear_arith)
                requires
                    0 <= ni < 0x1_0000_0000_0000_0000,
                    1 <= di <= 0x1_0000_0000,
                    0 <= ri <= 0x8000_0000,
            {}
            assert(ri * (ri + 8) < 0x8000_0000_0000_0000) by (nonlinear_arith)
                requires
                    0 <= ri <= 0x7fff_ffff,
            {}
        }
        let n: u128 = self.num as u128;
        let d: u128 = self.den as u128;
        let r: u128 = self.radius as u128;
        let q: u128 = (2 * n * r + d + 2 * d - 1) / (2 * d);
        q as u64
    }

    /// Whether this point's cell lies before the other point's exclusive end
    /// bound.
    pub fn is_below(self, other: PolarPoint) -> (b: bool)
        requires
            self.wf(),
            other.wf(),
        ensures
            b == pm_is_below(self.model(), other.model()),
    {
        self.winding_index() < other.end_index()
    }

    /// The point corresponding to this one on the hex circle with radius +1.
    pub fn further(self) -> (p: PolarPoint)
        requires
            self.wf(),
            self.model().radius < 0x7fff_ffff,
        ensures
            p.model() == pm_further(self.model()),
            p.wf(),
    {
        proof {
            assert((self.model().radius + 8) * self.model().den <= (self.model().radius + 9)
                * self.model().den) by (nonlinear_arith)
                requires
                    1 <= self.model().den,
            {}
        }
        PolarPoint { num: self.num, den: self.den, radius: self.radius + 1 }
    }

    /// The point next to this one along the hex circle.
    pub fn next(self) -> (p: PolarPoint)
        requires
            self.wf(),
            self.model().radius >= 1,
            pm_winding(self.model()) < self.model().radius * (self.model().radius + 8),
        ensures
            p.model() == pm_next(self.model()),
            p.wf(),
    {
        proof {
            lemma_winding_bounds(self.model());
            let r = self.model().radius;
            let w = pm_winding(self.model());
            assert(r * (r + 8) < 0x7fff_ffff_ffff_ffff && 2 * w + 1 <= (r + 8) * (2 * r))
                by (nonlinear_arith)
                requires
                    1 <= r <= 0x7fff_ffff,
                    0 <= w < r * (r + 8),
            {}
        }
        let w: u64 = self.winding_index();
        PolarPoint { num: 2 * w + 1, den: 2 * (self.radius as u64), radius: self.radius }
    }

    /// The grid coordinate of the point's cell.
    pub fn to_v2(&self) -> (v: V2)
        requires
            self.wf(),
        ensures
            v == pm_to_v2(self.model()),
    {
        if self.radius == 0 {
            return V2(0, 0);
        }
        let w: u64 = self.winding_index();
        let r64: u64 = self.radius as u64;
        let idx: u64 = w % (6 * r64);
        let sector: u64 = idx / r64;
        let offset: u64 = idx % r64;
        proof {
            let ri = self.model().radius;
            let ii = idx as int;
            lemma_winding_bounds(self.model());
            lemma_fundamental_div_mod(ii, ri);
            assert(0 <= ii / ri < 6) by (nonlinear_arith)
                requires
                    1 <= ri,
                    0 <= ii < 6 * ri,
                    ii == ri * (ii / ri) + ii % ri,
                    0 <= ii % ri < ri,
            {}
        }
        let r_i: i64 = self.radius as i64;
        let o: i64 = offset as i64;
        let x: i64;
        let y: i64;
        if sector == 0 {
            x = -r_i + o;
            y = -r_i;
        } else if sector == 1 {
            x = o;
            y = -r_i + o;
        } else if sector == 2 {
            x = r_i;
            y = o;
        } else if sector == 3 {
            x = r_i - o;
            y = r_i;
        } else if sector == 4 {
            x = -o;
            y = r_i - o;
        } else {
            x = -r_i;
            y = -o;
        }
        V2(x as i32, y as i32)
    }

    /// If this point and the next point are adjacent diagonally, the
    /// coordinate outside of the circle between the two points.
    ///
    /// This is a helper for the field-of-view special case where acute
    /// corners of fake-isometric rooms are marked visible even though strict
    /// hex sight lines would keep them unseen.
    pub fn side_point(&self) -> (s: Option<V2>)
        requires
            self.wf(),
            self.model().radius >= 1,
            pm_winding(self.model()) < self.model().radius * (self.model().radius + 8),
        ensures
            s == pm_side_point(self.model()),
    {
        let nxt = self.next();
        let a = self.to_v2();
        let b = nxt.to_v2();
        let a0: i64 = a.0 as i64;
        let a1: i64 = a.1 as i64;
        let b0: i64 = b.0 as i64;
        let b1: i64 = b.1 as i64;
        if b0 == a0 + 1 && b1 == a1 + 1 {
            Some(V2(b.0, a.1))
        } else if b0 == a0 - 1 && b1 == a1 - 1 {
            Some(V2(b.0, a.1))
        } else {
            None
        }
    }
}

} // verus!
