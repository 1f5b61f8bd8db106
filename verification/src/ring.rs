//! Geometry of whole rings: every cell of the ring of radius `r` lies at
//! hex distance exactly `r`, and each such cell is hit by exactly one of
//! the ring's `6 * r` cell indices.

use vstd::arithmetic::div_mod::lemma_fundamental_div_mod;
use vstd::arithmetic::div_mod::lemma_mod_bound;
use vstd::prelude::*;

use crate::fov::lemma_index_frame;
use crate::geom::V2;
use crate::geom::spec_hex_dist;
use crate::polar::PolarModel;
use crate::polar::pm_side_point;
use crate::polar::pm_to_v2;
use crate::polar::pm_wf;
use crate::polar::pm_winding;
use crate::dir::spec_from_int;
use crate::dir::spec_to_v2;
use crate::polar::ring_cell;

verus! {

/// Splitting a ring index into its sector and offset recovers both parts.
pub proof fn lemma_sector_split(r: int, s: int, o: int)
    requires
        r >= 1,
        0 <= s < 6,
        0 <= o < r,
    ensures
        (s * r + o) / r == s,
        (s * r + o) % r == o,
{
    let i = s * r + o;
    lemma_fundamental_div_mod(i, r);
    assert(i / r == s && i % r == o) by (nonlinear_arith)
        requires
            i == r * (i / r) + i % r,
            0 <= i % r < r,
            i == s * r + o,
            0 <= o < r,
            r >= 1,
            0 <= s,
    {}
}

/// The sector and offset of a ring index lie in their ranges.
pub proof fn lemma_index_split(r: int, i: int)
    requires
        r >= 1,
        0 <= i < 6 * r,
    ensures
        0 <= i / r < 6,
        0 <= i % r < r,
        i == (i / r) * r + (i % r),
{
    lemma_fundamental_div_mod(i, r);
    assert(0 <= i / r < 6 && 0 <= i % r < r && i == (i / r) * r + (i % r)) by (nonlinear_arith)
        requires
            i == r * (i / r) + i % r,
            0 <= i % r < r,
            0 <= i < 6 * r,
            r >= 1,
    {}
}

/// Every cell of the ring of radius `r` lies at hex distance exactly `r`.
pub proof fn lemma_ring_cell_dist(r: int, i: int)
    requires
        1 <= r <= 0x7fff_ffff,
        0 <= i < 6 * r,
    ensures
        spec_hex_dist(ring_cell(r, i)) == r,
{
    lemma_index_split(r, i);
    let s = i / r;
    let o = i % r;
    let c = ring_cell(r, i);
    if s == 0 {
        assert(c == V2((-r + o) as i32, (-r) as i32));
        assert(spec_hex_dist(c) == r);
    } else if s == 1 {
        assert(c == V2(o as i32, (-r + o) as i32));
        assert(spec_hex_dist(c) == r);
    } else if s == 2 {
        assert(c == V2(r as i32, o as i32));
        assert(spec_hex_dist(c) == r);
    } else if s == 3 {
        assert(c == V2((r - o) as i32, r as i32));
        assert(spec_hex_dist(c) == r);
    } else if s == 4 {
        assert(c == V2((-o) as i32, (r - o) as i32));
        assert(spec_hex_dist(c) == r);
    } else {
        assert(s == 5);
        assert(c == V2((-r) as i32, (-o) as i32));
        assert(spec_hex_dist(c) == r);
    }
}

/// The ring index whose cell is `c`, on the ring of `c`'s own hex distance.
///
/// Reading the six arms of `ring_cell` backwards: each wedge of the ring is
/// recognised by which component or difference is pinned at the radius.
pub open spec fn ring_index_of(c: V2) -> int {
    let x = c.0 as int;
    let y = c.1 as int;
    let r = spec_hex_dist(c);
    if y == -r && x < 0 {
        x + r
    } else if x - y == r && 0 <= x && x < r {
        r + x
    } else if x == r && 0 <= y {
        2 * r + y
    } else if y == r && x > 0 {
        3 * r + r - x
    } else if y - x == r && x <= 0 && -r < x {
        4 * r + (-x)
    } else {
        5 * r + (-y)
    }
}

/// Every coordinate at hex distance `r >= 1` is the cell of its own ring
/// index, which lies within the ring's `6 * r` cells.
pub proof fn lemma_ring_cell_complete(c: V2)
    requires
        spec_hex_dist(c) >= 1,
    ensures
        0 <= ring_index_of(c) < 6 * spec_hex_dist(c),
        ring_cell(spec_hex_dist(c), ring_index_of(c)) == c,
{
    let x = c.0 as int;
    let y = c.1 as int;
    let r = spec_hex_dist(c);
    let i = ring_index_of(c);
    if y == -r && x < 0 {
        lemma_sector_split(r, 0, x + r);
        assert(ring_cell(r, i) == c);
    } else if x - y == r && 0 <= x && x < r {
        lemma_sector_split(r, 1, x);
        assert(ring_cell(r, i) == c);
    } else if x == r && 0 <= y {
        if y < r {
            lemma_sector_split(r, 2, y);
        } else {
            assert(y == r);
            lemma_sector_split(r, 3, 0);
        }
        assert(ring_cell(r, i) == c);
    } else if y == r && x > 0 {
        lemma_sector_split(r, 3, r - x);
        assert(ring_cell(r, i) == c);
    } else if y - x == r && x <= 0 && -r < x {
        lemma_sector_split(r, 4, -x);
        assert(ring_cell(r, i) == c);
    } else {
        assert(x == -r && y <= 0 && -r < y);
        lemma_sector_split(r, 5, -y);
        assert(ring_cell(r, i) == c);
    }
}

/// Reading a ring cell's index back from its coordinate recovers the
/// index: the ring's cells are pairwise distinct.
pub proof fn lemma_ring_index_inverse(r: int, i: int)
    requires
        1 <= r <= 0x7fff_ffff,
        0 <= i < 6 * r,
    ensures
        ring_index_of(ring_cell(r, i)) == i,
{
    lemma_index_split(r, i);
    lemma_ring_cell_dist(r, i);
    let s = i / r;
    let o = i % r;
    let c = ring_cell(r, i);
    if s == 0 {
        assert(c == V2((-r + o) as i32, (-r) as i32));
        assert(ring_index_of(c) == i);
    } else if s == 1 {
        assert(c == V2(o as i32, (-r + o) as i32));
        assert(ring_index_of(c) == i);
    } else if s == 2 {
        assert(c == V2(r as i32, o as i32));
        assert(ring_index_of(c) == i);
    } else if s == 3 {
        assert(c == V2((r - o) as i32, r as i32));
        assert(ring_index_of(c) == i);
    } else if s == 4 {
        assert(c == V2((-o) as i32, (r - o) as i32));
        assert(ring_index_of(c) == i);
    } else {
        assert(s == 5);
        assert(c == V2((-r) as i32, (-o) as i32));
        assert(ring_index_of(c) == i);
    }
}

/// The cell of any polar point sits at hex distance exactly the point's
/// ring radius.
pub proof fn lemma_point_cell_dist(q: PolarModel)
    requires
        q.den >= 1,
        q.num >= 0,
        1 <= q.radius <= 0x7fff_ffff,
    ensures
        spec_hex_dist(pm_to_v2(q)) == q.radius,
{
    lemma_index_frame(q);
    let w = pm_winding(q);
    let r = q.radius;
    lemma_mod_bound(w, 6 * r);
    lemma_ring_cell_dist(r, w % (6 * r));
}

/// The coordinates of a ring cell, written out for each sector.
#[verifier::rlimit(60)]
#[verifier::spinoff_prover]
pub proof fn lemma_cell_coords(r: int, i: int)
    requires
        1 <= r <= 0x7fff_ffff,
        0 <= i < 6 * r,
    ensures
        ({
            let s = i / r;
            let o = i % r;
            &&& (s == 0 ==> ring_cell(r, i) == V2((-r + o) as i32, (-r) as i32))
            &&& (s == 1 ==> ring_cell(r, i) == V2(o as i32, (-r + o) as i32))
            &&& (s == 2 ==> ring_cell(r, i) == V2(r as i32, o as i32))
            &&& (s == 3 ==> ring_cell(r, i) == V2((r - o) as i32, r as i32))
            &&& (s == 4 ==> ring_cell(r, i) == V2((-o) as i32, (r - o) as i32))
            &&& (s == 5 ==> ring_cell(r, i) == V2((-r) as i32, (-o) as i32))
        }),
{
    lemma_index_split(r, i);
    let s = i / r;
    let o = i % r;
    let c = ring_cell(r, i);
    assert(c == V2((spec_to_v2(spec_from_int(s)).0 * r + spec_to_v2(spec_from_int(s + 2)).0 * o)
        as i32, (spec_to_v2(spec_from_int(s)).1 * r + spec_to_v2(spec_from_int(s + 2)).1 * o)
        as i32));
    if s == 0 {
        assert(spec_from_int(0) == crate::dir::Dir6::North && spec_from_int(2)
            == crate::dir::Dir6::SouthEast);
        assert(c == V2((-r + o) as i32, (-r) as i32)) by (nonlinear_arith)
            requires
                c == V2(((-1) * r + 1 * o) as i32, ((-1) * r + 0 * o) as i32),
                1 <= r <= 0x7fff_ffff,
                0 <= o < r,
        {}
    } else if s == 1 {
        assert(ring_cell(r, i) == V2(o as i32, (-r + o) as i32));
    } else if s == 2 {
        assert(ring_cell(r, i) == V2(r as i32, o as i32));
    } else if s == 3 {
        assert(ring_cell(r, i) == V2((r - o) as i32, r as i32));
    } else if s == 4 {
        assert(ring_cell(r, i) == V2((-o) as i32, (r - o) as i32));
    } else {
        assert(s == 5);
        assert(ring_cell(r, i) == V2((-r) as i32, (-o) as i32));
    }
}

/// The winding index of the next point along the ring is one further, so
/// its cell index is the successor modulo the ring, wrapping at the end.
proof fn lemma_next_cell_index(wi: int, r: int)
    requires
        r >= 1,
        wi >= 0,
    ensures
        wi % (6 * r) < 6 * r - 1 ==> (wi + 1) % (6 * r) == wi % (6 * r) + 1,
        wi % (6 * r) == 6 * r - 1 ==> (wi + 1) % (6 * r) == 0,
{
    let n = 6 * r;
    lemma_fundamental_div_mod(wi, n);
    lemma_fundamental_div_mod(wi + 1, n);
    lemma_mod_bound(wi, n);
    lemma_mod_bound(wi + 1, n);
    let ia = wi % n;
    let ib = (wi + 1) % n;
    assert((ia < n - 1 ==> ib == ia + 1) && (ia == n - 1 ==> ib == 0)) by (nonlinear_arith)
        requires
            wi == n * (wi / n) + ia,
            wi + 1 == n * ((wi + 1) / n) + ib,
            0 <= ia < n,
            0 <= ib < n,
            n >= 6,
    {}
}

/// When a cell and the next cell along its ring are diagonal neighbours,
/// the coordinate wedged outside the ring between them lies at hex
/// distance one past the ring.
#[verifier::rlimit(60)]
pub proof fn lemma_side_point_dist(q: PolarModel)
    requires
        q.den >= 1,
        q.num >= 0,
        1 <= q.radius <= 0x7fff_fffe,
        pm_wf(q),
    ensures
        pm_side_point(q) is Some ==> spec_hex_dist(pm_side_point(q)->Some_0) == q.radius + 1,
{
    let r = q.radius;
    let n = 6 * r;
    lemma_index_frame(q);
    let wi = pm_winding(q);
    crate::fov::lemma_next_winding(q);
    lemma_mod_bound(wi, n);
    lemma_mod_bound(wi + 1, n);
    lemma_next_cell_index(wi, r);
    let ia = wi % n;
    let ib = (wi + 1) % n;
    lemma_index_split(r, ia);
    lemma_index_split(r, ib);
    let sa = ia / r;
    let oa = ia % r;
    let a = ring_cell(r, ia);
    let b = ring_cell(r, ib);
    lemma_cell_coords(r, ia);
    lemma_cell_coords(r, ib);
    assert(pm_to_v2(q) == a);
    assert(pm_to_v2(crate::polar::pm_next(q)) == b);
    if ia < n - 1 {
        if oa < r - 1 {
            // Step within one sector: the cells differ by the tangent
            // direction of that sector.
            assert(ib == sa * r + (oa + 1));
            lemma_sector_split(r, sa, oa + 1);
            assert(ib / r == sa && ib % r == oa + 1);
            if sa == 0 {
                assert(a == V2((-r + oa) as i32, (-r) as i32));
                assert(b == V2((-r + oa + 1) as i32, (-r) as i32));
            } else if sa == 1 {
                assert(a == V2(oa as i32, (-r + oa) as i32));
                assert(b == V2((oa + 1) as i32, (-r + oa + 1) as i32));
            } else if sa == 2 {
                assert(a == V2(r as i32, oa as i32));
                assert(b == V2(r as i32, (oa + 1) as i32));
            } else if sa == 3 {
                assert(a == V2((r - oa) as i32, r as i32));
                assert(b == V2((r - oa - 1) as i32, r as i32));
            } else if sa == 4 {
                assert(a == V2((-oa) as i32, (r - oa) as i32));
                assert(b == V2((-oa - 1) as i32, (r - oa - 1) as i32));
            } else {
                assert(sa == 5);
                assert(a == V2((-r) as i32, (-oa) as i32));
                assert(b == V2((-r) as i32, (-oa - 1) as i32));
            }
        } else {
            // Step across a sector boundary.
            assert(oa == r - 1);
            assert(ib == (sa + 1) * r) by (nonlinear_arith)
                requires
                    ib == ia + 1,
                    ia == sa * r + oa,
                    oa == r - 1,
            {}
            assert(sa <= 4) by (nonlinear_arith)
                requires
                    ib == (sa + 1) * r,
                    ib < 6 * r,
                    r >= 1,
                    0 <= sa < 6,
            {}
            lemma_sector_split(r, sa + 1, 0);
            assert(ib / r == sa + 1 && ib % r == 0);
            if sa == 0 {
                assert(a == V2((-1) as i32, (-r) as i32));
                assert(b == V2(0i32, (-r) as i32));
            } else if sa == 1 {
                assert(a == V2((r - 1) as i32, (-1) as i32));
                assert(b == V2(r as i32, 0i32));
            } else if sa == 2 {
                assert(a == V2(r as i32, (r - 1) as i32));
                assert(b == V2(r as i32, r as i32));
            } else if sa == 3 {
                assert(a == V2(1i32, r as i32));
                assert(b == V2(0i32, r as i32));
            } else {
                assert(sa == 4);
                assert(a == V2((-(r - 1)) as i32, 1i32));
                assert(b == V2((-r) as i32, 0i32));
            }
        }
    } else {
        // Wrapping past the ring's end back to its first cell.
        assert(ia == n - 1);
        assert(sa == 5 && oa == r - 1) by (nonlinear_arith)
            requires
                ia == 6 * r - 1,
                ia == sa * r + oa,
                0 <= oa < r,
                0 <= sa < 6,
                r >= 1,
        {}
        assert(ib == 0);
        lemma_sector_split(r, 0, 0);
        assert(a == V2((-r) as i32, (-(r - 1)) as i32));
        assert(b == V2((-r) as i32, (-r) as i32));
    }
    if pm_side_point(q) is Some {
        let sp = pm_side_point(q)->Some_0;
        assert(spec_hex_dist(sp) == r + 1);
    }
}

/// The cells of the ring of radius `r`, in index order.
pub open spec fn ring_seq(r: int) -> Seq<V2> {
    Seq::new((6 * r) as nat, |i: int| ring_cell(r, i))
}

/// All cells within hex distance `rad` of the origin, in one fixed order:
/// the origin first, then each ring outward in cell order.
pub open spec fn disc_seq(rad: int) -> Seq<V2>
    decreases rad,
{
    if rad <= 0 {
        seq![V2(0i32, 0i32)]
    } else {
        disc_seq(rad - 1) + ring_seq(rad)
    }
}

/// The set of all cells within hex distance `rad` of the origin.
pub open spec fn spec_disc(rad: int) -> Set<V2> {
    Set::new(|c: V2| spec_hex_dist(c) <= rad)
}

/// Only the origin sits at hex distance zero, and no cell sits below it.
pub proof fn lemma_dist_zero(c: V2)
    ensures
        spec_hex_dist(c) >= 0,
        spec_hex_dist(c) == 0 <==> c == V2(0i32, 0i32),
{
}

/// How many cells a disc has: its listing has one cell for the origin and
/// `6 * k` for each ring `k`.
pub proof fn lemma_disc_seq_len(rad: int)
    requires
        rad >= 0,
    ensures
        disc_seq(rad).len() == 1 + 3 * rad * (rad + 1),
    decreases rad,
{
    if rad == 0 {
        assert(3 * 0 * (0 + 1) == 0) by (nonlinear_arith);
    } else {
        lemma_disc_seq_len(rad - 1);
        assert(disc_seq(rad).len() == disc_seq(rad - 1).len() + 6 * rad);
        assert(disc_seq(rad - 1).len() + 6 * rad == 1 + 3 * rad * (rad + 1)) by (nonlinear_arith)
            requires
                disc_seq(rad - 1).len() == 1 + 3 * (rad - 1) * ((rad - 1) + 1),
                rad >= 1,
        {}
    }
}

/// The disc listing holds exactly the cells within distance `rad`.
pub proof fn lemma_disc_seq_membership(rad: int)
    requires
        0 <= rad <= 0x7fff_ffff,
    ensures
        forall|c: V2| #[trigger] disc_seq(rad).contains(c) <==> spec_hex_dist(c) <= rad,
    decreases rad,
{
    if rad == 0 {
        assert forall|c: V2| #[trigger] disc_seq(0).contains(c) <==> spec_hex_dist(c) <= 0 by {
            lemma_dist_zero(c);
            if spec_hex_dist(c) <= 0 {
                assert(disc_seq(0)[0] == c);
            }
        }
    } else {
        lemma_disc_seq_membership(rad - 1);
        assert forall|c: V2| #[trigger] disc_seq(rad).contains(c) <==> spec_hex_dist(c)
            <= rad by {
            let prefix = disc_seq(rad - 1);
            lemma_dist_zero(c);
            if disc_seq(rad).contains(c) {
                let i = choose|i: int| 0 <= i < disc_seq(rad).len() && disc_seq(rad)[i] == c;
                if i < prefix.len() {
                    assert(prefix[i] == c);
                    assert(prefix.contains(c));
                } else {
                    lemma_ring_cell_dist(rad, i - prefix.len());
                }
            }
            if spec_hex_dist(c) <= rad {
                if spec_hex_dist(c) <= rad - 1 {
                    assert(prefix.contains(c));
                    let i = choose|i: int| 0 <= i < prefix.len() && prefix[i] == c;
                    assert(disc_seq(rad)[i] == c);
                } else {
                    lemma_ring_cell_complete(c);
                    let i = ring_index_of(c);
                    assert(disc_seq(rad)[prefix.len() + i] == c);
                }
            }
        }
    }
}

/// No cell appears twice in the disc listing: rings at different radii are
/// disjoint, and within one ring the cell index can be read back from the
/// coordinate.
pub proof fn lemma_disc_seq_no_dup(rad: int)
    requires
        0 <= rad <= 0x7fff_ffff,
    ensures
        disc_seq(rad).no_duplicates(),
    decreases rad,
{
    if rad == 0 {
    } else {
        lemma_disc_seq_no_dup(rad - 1);
        lemma_disc_seq_membership(rad - 1);
        let prefix = disc_seq(rad - 1);
        let whole = disc_seq(rad);
        assert forall|i: int, j: int|
            0 <= i < whole.len() && 0 <= j < whole.len() && i != j implies whole[i]
            != whole[j] by {
            if i < prefix.len() && j < prefix.len() {
            } else if i >= prefix.len() && j >= prefix.len() {
                lemma_ring_index_inverse(rad, i - prefix.len());
                lemma_ring_index_inverse(rad, j - prefix.len());
            } else if i < prefix.len() {
                assert(prefix.contains(prefix[i]));
                lemma_ring_cell_dist(rad, j - prefix.len());
            } else {
                assert(prefix.contains(prefix[j]));
                lemma_ring_cell_dist(rad, i - prefix.len());
            }
        }
    }
}

/// A disc of radius `rad` holds exactly `1 + 3 * rad * (rad + 1)` cells.
pub proof fn lemma_disc_cardinality(rad: int)
    requires
        0 <= rad <= 0x7fff_ffff,
    ensures
        spec_disc(rad).finite(),
        spec_disc(rad).len() == 1 + 3 * rad * (rad + 1),
        disc_seq(rad).to_set() == spec_disc(rad),
{
    broadcast use vstd::seq_lib::seq_to_set_is_finite;

    lemma_disc_seq_len(rad);
    lemma_disc_seq_membership(rad);
    lemma_disc_seq_no_dup(rad);
    disc_seq(rad).unique_seq_to_set();
    assert(disc_seq(rad).to_set() =~= spec_disc(rad));
}

} // verus!
