//! Field of view on a hexagonal map.
//!
//! The algorithm walks concentric rings outward from the origin, keeping a
//! stack of ring sectors of uniform opacity.  A transparent sector seen in
//! full is expanded one ring outward; a change of opacity splits the sector.
//! The whole traversal is mirrored by a mathematical step function over a
//! model state, and the driver's `next` is proved to follow it exactly, so
//! the emitted sequence of coordinates is a function of the opacity
//! predicate and the range alone.

use vstd::prelude::*;

use crate::dir::Dir6;
use crate::geom::V2;
use crate::geom::max_val;
use crate::polar::PolarModel;
use crate::polar::PolarPoint;
use crate::polar::pm_end_index;
use crate::polar::pm_further;
use crate::polar::pm_is_below;
use crate::polar::pm_next;
use crate::polar::pm_side_point;
use crate::polar::pm_to_v2;
use crate::polar::pm_wf;
use crate::polar::pm_winding;
use vstd::arithmetic::div_mod::lemma_fundamental_div_mod;

verus! {

// ---------------------------------------------------------------------------
// The model: sectors, states and the step function.
// ---------------------------------------------------------------------------
/// Mathematical content of one scan sector: a maximal arc of one ring known
/// to share one opacity value, scanned from `pt` toward `end`, with `begin`
/// kept for later outward expansion.
pub struct SectorModel {
    pub begin: PolarModel,
    pub pt: PolarModel,
    pub end: PolarModel,
    pub group_opaque: bool,
}

/// Model state of a traversal: the pending side-channel coordinates and the
/// stack of pending sectors, both with their last element on top.
#[verifier::ext_equal]
pub struct FovState {
    pub side: Seq<V2>,
    pub stack: Seq<SectorModel>,
}

/// Outcome of one iteration of the traversal: the sequence is exhausted, a
/// coordinate is emitted, or the state changed without an emission.
pub enum StepResult {
    Done,
    Emit { after: FovState, out: V2 },
    Continue { next_state: FovState },
}

/// Angle comparison of two polar points, by cross multiplication.
pub open spec fn angle_le(a: PolarModel, b: PolarModel) -> bool {
    a.num * b.den <= b.num * a.den
}

/// Strict angle comparison of two polar points.
pub open spec fn angle_lt(a: PolarModel, b: PolarModel) -> bool {
    a.num * b.den < b.num * a.den
}

/// Whether a point is a cell-representative position, winding minus a half,
/// as produced by stepping to the next cell along a ring.
pub open spec fn next_form(p: PolarModel) -> bool {
    2 * p.num * p.radius == (2 * pm_winding(p) - 1) * p.den
}

/// The sector pushed when the scan of `s` reaches a cell of the other
/// opacity `op`: the rest of the arc, rescanned from the boundary cell under
/// the new opacity.
pub open spec fn rest_sector(s: SectorModel, op: bool) -> SectorModel {
    SectorModel { begin: s.pt, pt: s.pt, end: s.end, group_opaque: op }
}

/// The sector covering the arc from `s.begin` to `till` one ring further
/// out, fresh for scanning, under the opacity `p` reports at its first cell.
pub open spec fn expand_sector(
    p: spec_fn(V2) -> bool,
    s: SectorModel,
    till: PolarModel,
) -> SectorModel {
    SectorModel {
        begin: pm_further(s.begin),
        pt: pm_further(s.begin),
        end: pm_further(till),
        group_opaque: p(pm_to_v2(pm_further(s.begin))),
    }
}

/// Whether the acute-corner rule fires while scanning the current cell of
/// `s`: the scan continues to an adjacent diagonal cell, both cells are
/// opaque, the outside corner coordinate between them is opaque too, and the
/// ring is within range.
pub open spec fn corner_applies(p: spec_fn(V2) -> bool, range: int, s: SectorModel) -> bool {
    match pm_side_point(s.pt) {
        Some(sp) => pm_is_below(pm_next(s.pt), s.end) && s.group_opaque && p(
            pm_to_v2(pm_next(s.pt)),
        ) && p(sp) && s.begin.radius < range,
        None => false,
    }
}

/// One iteration of the traversal, exactly as the driver works: pop the side
/// channel first; otherwise process the top sector, emitting its current
/// cell and advancing when the opacity matches, splitting the sector when it
/// changes, and expanding outward when a transparent sector is exhausted.
pub open spec fn fov_step(
    p: spec_fn(V2) -> bool,
    range: int,
    iso: bool,
    st: FovState,
) -> StepResult {
    if st.side.len() > 0 {
        StepResult::Emit {
            after: FovState { side: st.side.drop_last(), stack: st.stack },
            out: st.side.last(),
        }
    } else if st.stack.len() == 0 {
        StepResult::Done
    } else {
        let s = st.stack.last();
        let rest = st.stack.drop_last();
        if pm_is_below(s.pt, s.end) {
            let pos = pm_to_v2(s.pt);
            let op = p(pos);
            if op != s.group_opaque {
                let pushed = rest.push(rest_sector(s, op));
                if !s.group_opaque && s.begin.radius < range {
                    StepResult::Continue {
                        next_state: FovState {
                            side: st.side,
                            stack: pushed.push(expand_sector(p, s, s.pt)),
                        },
                    }
                } else {
                    StepResult::Continue { next_state: FovState { side: st.side, stack: pushed } }
                }
            } else {
                let advanced = SectorModel {
                    begin: s.begin,
                    pt: pm_next(s.pt),
                    end: s.end,
                    group_opaque: s.group_opaque,
                };
                let side2 = if iso && corner_applies(p, range, s) {
                    st.side.push(pm_side_point(s.pt)->Some_0)
                } else {
                    st.side
                };
                StepResult::Emit {
                    after: FovState { side: side2, stack: rest.push(advanced) },
                    out: pos,
                }
            }
        } else {
            if !s.group_opaque && s.begin.radius < range {
                StepResult::Continue {
                    next_state: FovState {
                        side: st.side,
                        stack: rest.push(expand_sector(p, s, s.end)),
                    },
                }
            } else {
                StepResult::Continue { next_state: FovState { side: st.side, stack: rest } }
            }
        }
    }
}

/// The state a traversal starts from: the whole first ring as one sector
/// under the opacity of the first cell, and the origin in the side channel.
pub open spec fn fov_init(p: spec_fn(V2) -> bool) -> FovState {
    FovState {
        side: seq![V2(0i32, 0i32)],
        stack: seq![
            SectorModel {
                begin: PolarModel { num: 0, den: 1, radius: 1 },
                pt: PolarModel { num: 0, den: 1, radius: 1 },
                end: PolarModel { num: 6, den: 1, radius: 1 },
                group_opaque: p(V2(-1i32, -1i32)),
            },
        ],
    }
}

/// The state after `n` non-emitting iterations; absorbing once an iteration
/// would emit or finish.
pub open spec fn fov_advance(
    p: spec_fn(V2) -> bool,
    range: int,
    iso: bool,
    st: FovState,
    n: nat,
) -> FovState
    decreases n,
{
    if n == 0 {
        st
    } else {
        let prev = fov_advance(p, range, iso, st, (n - 1) as nat);
        match fov_step(p, range, iso, prev) {
            StepResult::Continue { next_state } => next_state,
            _ => prev,
        }
    }
}

/// Whether the first `n` iterations from `st` all continue without emitting.
pub open spec fn fov_all_continue(
    p: spec_fn(V2) -> bool,
    range: int,
    iso: bool,
    st: FovState,
    n: nat,
) -> bool {
    forall|m: nat|
        m < n ==> (fov_step(p, range, iso, fov_advance(p, range, iso, st, m)) is Continue)
}

/// What one pull of the driver leaves behind: after some run of non-emitting
/// iterations from `st0`, either a coordinate is emitted and the state
/// `stf` is the one the step function prescribes, or the traversal is done,
/// nothing is returned, and the state rests.
pub open spec fn step_outcome(
    p: spec_fn(V2) -> bool,
    range: int,
    iso: bool,
    st0: FovState,
    n: nat,
    r: Option<V2>,
    stf: FovState,
) -> bool {
    &&& fov_all_continue(p, range, iso, st0, n)
    &&& {
        let res = fov_step(p, range, iso, fov_advance(p, range, iso, st0, n));
        ||| (res is Emit && r == Some(res->out) && stf == res->after)
        ||| (res is Done && r is None && stf == fov_advance(p, range, iso, st0, n))
    }
}

// ---------------------------------------------------------------------------
// Well-formedness of model states.
// ---------------------------------------------------------------------------
/// A well-formed sector: three well-formed points of one ring within range,
/// angles capped by the slack the construction can reach, the arc not
/// degenerate, the scan position at or past the start and either still at
/// the start or snapped to a cell representative, and the opacity flag
/// telling the truth about the cell the arc began at.
pub open spec fn sector_wf(
    p: spec_fn(V2) -> bool,
    range: int,
    s: SectorModel,
) -> bool {
    &&& pm_wf(s.begin) && pm_wf(s.pt) && pm_wf(s.end)
    &&& s.begin.radius == s.pt.radius && s.pt.radius == s.end.radius
    &&& 1 <= s.pt.radius && s.pt.radius <= max_val(range, 1)
    &&& s.begin.num <= (s.begin.radius + 6) * s.begin.den
    &&& s.pt.num <= (s.pt.radius + 6) * s.pt.den
    &&& s.end.num <= (s.end.radius + 5) * s.end.den
    &&& angle_le(s.begin, s.pt)
    &&& angle_lt(s.begin, s.end)
    &&& (s.pt == s.begin || next_form(s.pt))
    &&& s.group_opaque == p(pm_to_v2(s.begin))
}

/// A well-formed traversal state: every sector well formed, and every buried
/// sector still has a cell to scan (only the top sector may be exhausted).
pub open spec fn fov_state_wf(p: spec_fn(V2) -> bool, range: int, st: FovState) -> bool {
    &&& forall|i: int| 0 <= i < st.stack.len() ==> sector_wf(p, range, #[trigger] st.stack[i])
    &&& forall|i: int|
        0 <= i < st.stack.len() - 1 ==> pm_is_below(
            #[trigger] st.stack[i].pt,
            st.stack[i].end,
        )
}

// ---------------------------------------------------------------------------
// Arithmetic groundwork.
// ---------------------------------------------------------------------------
/// Frame of the winding and end indices of a point: the doubled scaled
/// position `2*num*radius + den` sits between consecutive multiples of twice
/// the denominator at the winding index, and the end index rounds the same
/// quotient upward.
pub proof fn lemma_index_frame(a: PolarModel)
    requires
        a.den >= 1,
        a.num >= 0,
        a.radius >= 0,
    ensures
        2 * a.den * pm_winding(a) <= 2 * a.num * a.radius + a.den,
        2 * a.num * a.radius + a.den < 2 * a.den * (pm_winding(a) + 1),
        2 * a.den * pm_end_index(a) >= 2 * a.num * a.radius + a.den,
        2 * a.den * (pm_end_index(a) - 1) < 2 * a.num * a.radius + a.den,
        pm_winding(a) <= pm_end_index(a) <= pm_winding(a) + 1,
        pm_winding(a) >= 0,
{
    let x = 2 * a.num * a.radius + a.den;
    let y = x + 2 * a.den - 1;
    let d = 2 * a.den;
    lemma_fundamental_div_mod(x, d);
    lemma_fundamental_div_mod(y, d);
    assert(2 * a.num * a.radius >= 0) by (nonlinear_arith)
        requires
            a.num >= 0,
            a.radius >= 0,
    {}
    assert(d * (x / d) <= x && x < d * (x / d + 1) && d * (y / d) >= x && d * (y / d - 1) < x && x
        / d <= y / d <= x / d + 1 && x / d >= 0) by (nonlinear_arith)
        requires
            x == d * (x / d) + x % d,
            y == d * (y / d) + y % d,
            0 <= x % d < d,
            0 <= y % d < d,
            y == x + d - 1,
            d >= 2,
            x >= 1,
    {}
    assert(2 * a.den * pm_winding(a) == d * (x / d));
    assert(2 * a.den * pm_end_index(a) == d * (y / d));
}

/// Windings are ordered as the angles are, on one ring: a point at a lower
/// or equal angle has a lower or equal winding index, and a strictly lower
/// angle keeps the winding below the other point's end index.
pub proof fn lemma_angle_order(a: PolarModel, b: PolarModel)
    requires
        a.den >= 1,
        b.den >= 1,
        a.num >= 0,
        b.num >= 0,
        a.radius >= 1,
        a.radius == b.radius,
    ensures
        angle_le(a, b) ==> pm_winding(a) <= pm_winding(b),
        angle_lt(a, b) ==> pm_winding(a) < pm_end_index(b),
        angle_le(a, b) ==> pm_end_index(a) <= pm_end_index(b),
{
    lemma_index_frame(a);
    lemma_index_frame(b);
    let r = a.radius;
    let xa = 2 * a.num * r + a.den;
    let xb = 2 * b.num * r + b.den;
    let wa = pm_winding(a);
    let wb = pm_winding(b);
    let ea = pm_end_index(a);
    let eb = pm_end_index(b);
    if angle_le(a, b) {
        assert(xa * b.den <= xb * a.den) by (nonlinear_arith)
            requires
                a.num * b.den <= b.num * a.den,
                r >= 1,
                xa == 2 * a.num * r + a.den,
                xb == 2 * b.num * r + b.den,
        {}
        assert(wa <= wb && ea <= eb) by (nonlinear_arith)
            requires
                xa * b.den <= xb * a.den,
                a.den >= 1,
                b.den >= 1,
                2 * a.den * wa <= xa,
                xa < 2 * a.den * (wa + 1),
                2 * b.den * wb <= xb,
                xb < 2 * b.den * (wb + 1),
                2 * a.den * ea >= xa,
                2 * a.den * (ea - 1) < xa,
                2 * b.den * eb >= xb,
                2 * b.den * (eb - 1) < xb,
        {}
    }
    if angle_lt(a, b) {
        assert(xa * b.den < xb * a.den) by (nonlinear_arith)
            requires
                a.num * b.den < b.num * a.den,
                r >= 1,
                xa == 2 * a.num * r + a.den,
                xb == 2 * b.num * r + b.den,
        {}
        assert(wa < eb) by (nonlinear_arith)
            requires
                xa * b.den < xb * a.den,
                a.den >= 1,
                b.den >= 1,
                2 * a.den * wa <= xa,
                2 * b.den * eb >= xb,
        {}
    }
}

/// Stepping to the next cell advances the winding index by exactly one.
pub proof fn lemma_next_winding(a: PolarModel)
    requires
        pm_wf(a),
        a.radius >= 1,
    ensures
        pm_winding(pm_next(a)) == pm_winding(a) + 1,
        next_form(pm_next(a)),
        pm_next(a).den == 2 * a.radius,
        pm_next(a).num == 2 * pm_winding(a) + 1,
{
    let w = pm_winding(a);
    lemma_index_frame(a);
    let b = pm_next(a);
    assert(2 * b.num * b.radius + b.den == 4 * a.radius * (w + 1)) by (nonlinear_arith)
        requires
            b.num == 2 * w + 1,
            b.den == 2 * a.radius,
            b.radius == a.radius,
            a.radius >= 1,
    {}
    let x = 2 * b.num * b.radius + b.den;
    let d = 2 * b.den;
    lemma_fundamental_div_mod(x, d);
    assert(x / d == w + 1) by (nonlinear_arith)
        requires
            x == d * (x / d) + x % d,
            0 <= x % d < d,
            x == 4 * a.radius * (w + 1),
            d == 4 * a.radius,
            a.radius >= 1,
            w >= 0,
    {}
    assert(2 * b.num * b.radius == (2 * pm_winding(b) - 1) * b.den) by (nonlinear_arith)
        requires
            pm_winding(b) == w + 1,
            b.num == 2 * w + 1,
            b.den == 2 * a.radius,
            b.radius == a.radius,
    {}
}

/// Two points of one ring with the same winding index sit on the same cell.
pub proof fn lemma_same_cell(a: PolarModel, b: PolarModel)
    requires
        a.radius == b.radius,
        pm_winding(a) == pm_winding(b),
    ensures
        pm_to_v2(a) == pm_to_v2(b),
{
}

/// A point whose angle is capped at `radius + k` windings per unit radius
/// has its winding index capped at `radius * (radius + k)` and its end
/// index one above that.
pub proof fn lemma_angle_cap_indices(a: PolarModel, k: int)
    requires
        a.den >= 1,
        0 <= a.num <= (a.radius + k) * a.den,
        a.radius >= 1,
        k >= 0,
    ensures
        pm_winding(a) <= a.radius * (a.radius + k),
        pm_end_index(a) <= a.radius * (a.radius + k) + 1,
{
    lemma_index_frame(a);
    let w = pm_winding(a);
    let e = pm_end_index(a);
    let r = a.radius;
    let d = a.den;
    assert(w <= r * (r + k) && e <= r * (r + k) + 1) by (nonlinear_arith)
        requires
            2 * d * w <= 2 * a.num * r + d,
            2 * d * (e - 1) < 2 * a.num * r + d,
            0 <= a.num <= (r + k) * d,
            d >= 1,
            r >= 1,
            k >= 0,
    {}
}

/// In a well-formed sector whose scan still has a cell to go, the scan
/// point's winding index stays within the cap that stepping to the next
/// cell asks for, and below the end index of the arc.
pub proof fn lemma_scan_point_ok(p: spec_fn(V2) -> bool, range: int, s: SectorModel)
    requires
        sector_wf(p, range, s),
        pm_is_below(s.pt, s.end),
    ensures
        pm_winding(s.pt) <= s.pt.radius * (s.pt.radius + 5),
        pm_winding(s.pt) < s.pt.radius * (s.pt.radius + 8),
{
    lemma_angle_cap_indices(s.end, 5);
    let r = s.pt.radius;
    assert(r * (r + 5) + 1 <= r * (r + 8)) by (nonlinear_arith)
        requires
            r >= 1,
    {}
}

/// Emitting the current cell and advancing the scan keeps the sector well
/// formed.
pub proof fn lemma_advance_sector(p: spec_fn(V2) -> bool, range: int, s: SectorModel)
    requires
        sector_wf(p, range, s),
        pm_is_below(s.pt, s.end),
    ensures
        sector_wf(
            p,
            range,
            SectorModel {
                begin: s.begin,
                pt: pm_next(s.pt),
                end: s.end,
                group_opaque: s.group_opaque,
            },
        ),
{
    let r = s.pt.radius;
    let w = pm_winding(s.pt);
    lemma_scan_point_ok(p, range, s);
    lemma_next_winding(s.pt);
    lemma_index_frame(s.pt);
    let b = pm_next(s.pt);
    // Well-formedness and the angle cap of the advanced point.
    assert(b.den >= 1 && b.den <= 0x1_0000_0000 && 0 <= b.num <= (b.radius + 8) * b.den && b.num
        <= (b.radius + 6) * b.den) by (nonlinear_arith)
        requires
            b.num == 2 * w + 1,
            b.den == 2 * r,
            b.radius == r,
            1 <= r <= 0x7fff_ffff,
            0 <= w <= r * (r + 5),
    {}
    // The advanced point does not fall behind the arc's start.
    assert(s.begin.num * b.den <= b.num * s.begin.den) by (nonlinear_arith)
        requires
            s.begin.num * s.pt.den <= s.pt.num * s.begin.den,
            2 * s.pt.den * w <= 2 * s.pt.num * r + s.pt.den,
            2 * s.pt.num * r + s.pt.den < 2 * s.pt.den * (w + 1),
            b.num == 2 * w + 1,
            b.den == 2 * r,
            s.begin.den >= 1,
            s.pt.den >= 1,
            s.begin.num >= 0,
            r >= 1,
            s.begin.radius == r,
    {}
}

/// When the scanned cell's opacity differs from the running flag, the scan
/// point has moved past the arc's first cell and sits on a cell
/// representative angle strictly between the arc's ends.
pub proof fn lemma_branch_point(p: spec_fn(V2) -> bool, range: int, s: SectorModel, op: bool)
    requires
        sector_wf(p, range, s),
        pm_is_below(s.pt, s.end),
        op == p(pm_to_v2(s.pt)),
        op != s.group_opaque,
    ensures
        next_form(s.pt),
        pm_winding(s.pt) >= pm_winding(s.begin) + 1,
        angle_lt(s.begin, s.pt),
        angle_lt(s.pt, s.end),
        sector_wf(p, range, rest_sector(s, op)),
        pm_is_below(rest_sector(s, op).pt, rest_sector(s, op).end),
{
    let r = s.pt.radius;
    lemma_angle_order(s.begin, s.pt);
    if s.pt == s.begin {
        assert(false);
    }
    if pm_winding(s.pt) == pm_winding(s.begin) {
        lemma_same_cell(s.begin, s.pt);
        assert(false);
    }
    let w = pm_winding(s.pt);
    let wb = pm_winding(s.begin);
    lemma_index_frame(s.begin);
    lemma_index_frame(s.pt);
    lemma_index_frame(s.end);
    // Strictly past the start: position w - 1/2 exceeds the start position,
    // which is below wb + 1/2.
    assert(s.begin.num * s.pt.den < s.pt.num * s.begin.den) by (nonlinear_arith)
        requires
            2 * s.pt.num * r == (2 * w - 1) * s.pt.den,
            2 * s.begin.num * r + s.begin.den < 2 * s.begin.den * (wb + 1),
            w >= wb + 1,
            s.begin.den >= 1,
            s.pt.den >= 1,
            r >= 1,
            s.begin.radius == r,
    {}
    // Strictly before the end: position w - 1/2 is below the end position,
    // since w is below the end index.
    assert(s.pt.num * s.end.den < s.end.num * s.pt.den) by (nonlinear_arith)
        requires
            2 * s.pt.num * r == (2 * w - 1) * s.pt.den,
            2 * s.end.den * (pm_end_index(s.end) - 1) < 2 * s.end.num * r + s.end.den,
            w <= pm_end_index(s.end) - 1,
            s.end.den >= 1,
            s.pt.den >= 1,
            r >= 1,
            s.end.radius == r,
    {}
}

/// A freshly expanded sector one ring outward is well formed and has at
/// least one cell to scan, whenever the arc it comes from is not degenerate
/// and the new ring is within range.
pub proof fn lemma_expand_sector(
    p: spec_fn(V2) -> bool,
    range: int,
    s: SectorModel,
    till: PolarModel,
)
    requires
        range <= 0x7fff_ffff,
        sector_wf(p, range, s),
        pm_wf(till),
        till.radius == s.begin.radius,
        angle_lt(s.begin, till),
        till.num <= (till.radius + 6) * till.den,
        s.begin.radius < range,
    ensures
        sector_wf(p, range, expand_sector(p, s, till)),
        pm_is_below(expand_sector(p, s, till).pt, expand_sector(p, s, till).end),
{
    let e = expand_sector(p, s, till);
    let r = s.begin.radius;
    assert(e.begin.num <= (e.begin.radius + 6) * e.begin.den && e.end.num <= (e.end.radius + 5)
        * e.end.den && e.begin.num <= (e.begin.radius + 8) * e.begin.den && e.end.num <= (
    e.end.radius + 8) * e.end.den) by (nonlinear_arith)
        requires
            e.begin.num == s.begin.num,
            e.begin.den == s.begin.den,
            e.begin.radius == r + 1,
            e.end.num == till.num,
            e.end.den == till.den,
            e.end.radius == r + 1,
            s.begin.num <= (r + 6) * s.begin.den,
            till.num <= (r + 6) * till.den,
            s.begin.den >= 1,
            till.den >= 1,
    {}
    lemma_angle_order(e.pt, e.end);
}

// ---------------------------------------------------------------------------
// The executable driver.
// ---------------------------------------------------------------------------
/// The opacity answer a deterministic predicate gives for a coordinate, as
/// a mathematical function.
pub open spec fn pred_of<F: Fn(V2) -> bool>(f: F) -> spec_fn(V2) -> bool {
    |c: V2| choose|b: bool| call_ensures(f, (c,), b)
}

/// A predicate the driver can rely on: callable on every coordinate, and
/// with only one possible answer per coordinate.
pub open spec fn pred_deterministic<F: Fn(V2) -> bool>(f: F) -> bool {
    &&& forall|c: V2| call_requires(f, (c,))
    &&& forall|c: V2, b1: bool, b2: bool|
        call_ensures(f, (c,), b1) && call_ensures(f, (c,), b2) ==> b1 == b2
}

/// Any answer a deterministic predicate actually returned is the answer of
/// its mathematical function.
pub proof fn lemma_call_pred<F: Fn(V2) -> bool>(f: F, c: V2, b: bool)
    requires
        pred_deterministic(f),
        call_ensures(f, (c,), b),
    ensures
        pred_of(f)(c) == b,
{
    let picked = choose|bb: bool| call_ensures(f, (c,), bb);
    assert(call_ensures(f, (c,), picked)) by {
        assert(call_ensures(f, (c,), b));
    }
}

/// Law: the traversal is deterministic.  From one starting state, under one
/// predicate, range and corner setting, a pull of the driver has exactly one
/// outcome: any two results and follow-up states that satisfy the driver's
/// contract are the same.  Two drivers built with equal predicates and
/// ranges therefore produce identical ordered output sequences.
pub proof fn lemma_next_deterministic(
    p: spec_fn(V2) -> bool,
    range: int,
    iso: bool,
    st0: FovState,
    n1: nat,
    n2: nat,
    r1: Option<V2>,
    r2: Option<V2>,
    stf1: FovState,
    stf2: FovState,
)
    requires
        step_outcome(p, range, iso, st0, n1, r1, stf1),
        step_outcome(p, range, iso, st0, n2, r2, stf2),
    ensures
        n1 == n2,
        r1 == r2,
        stf1 == stf2,
{
    if n1 < n2 {
        assert(fov_step(p, range, iso, fov_advance(p, range, iso, st0, n1)) is Continue);
        assert(false);
    }
    if n2 < n1 {
        assert(fov_step(p, range, iso, fov_advance(p, range, iso, st0, n2)) is Continue);
        assert(false);
    }
}

/// One scan sector of the driver's stack.
pub struct Sector {
    /// Start point of current sector.
    pub begin: PolarPoint,
    /// Point currently being processed.
    pub pt: PolarPoint,
    /// End point of current sector.
    pub end: PolarPoint,
    /// Currently iterating through a sequence of opaque cells.
    pub group_opaque: bool,
}

impl Sector {
    /// The mathematical content of the sector.
    pub open spec fn model(self) -> SectorModel {
        SectorModel {
            begin: self.begin.model(),
            pt: self.pt.model(),
            end: self.end.model(),
            group_opaque: self.group_opaque,
        }
    }
}

/// The models of a stack of sectors, bottom first.
pub open spec fn stack_models(v: Seq<Sector>) -> Seq<SectorModel> {
    v.map_values(|s: Sector| s.model())
}

/// Mapping to models commutes with pushing a sector.
pub proof fn lemma_stack_models_push(v: Seq<Sector>, x: Sector)
    ensures
        stack_models(v.push(x)) == stack_models(v).push(x.model()),
{
    assert(stack_models(v.push(x)) =~= stack_models(v).push(x.model()));
}

/// Mapping to models commutes with popping the top sector.
pub proof fn lemma_stack_models_pop(v: Seq<Sector>)
    requires
        v.len() > 0,
    ensures
        stack_models(v.subrange(0, v.len() - 1)) == stack_models(v).drop_last(),
        stack_models(v).last() == v.last().model(),
        stack_models(v).len() == v.len(),
{
    assert(stack_models(v.subrange(0, v.len() - 1)) =~= stack_models(v).drop_last());
}

/// Field of view iterator for a hexagonal map.
///
/// Takes a function that indicates opaque cells and yields the visible
/// locations from around the origin up to the given radius.
pub struct HexFov<F> {
    /// Predicate for whether a given point will block the field of view.
    pub is_opaque: F,
    pub range: u32,
    pub stack: Vec<Sector>,
    pub fake_isometric_hack: bool,
    /// Extra values generated by special cases.
    pub side_channel: Vec<V2>,
}

impl<F: Fn(V2) -> bool> HexFov<F> {
    /// The opacity predicate as a mathematical function.
    pub open spec fn pred(self) -> spec_fn(V2) -> bool {
        pred_of(self.is_opaque)
    }

    /// The model state of the traversal.
    pub open spec fn state(self) -> FovState {
        FovState { side: self.side_channel@, stack: stack_models(self.stack@) }
    }

    /// A well-formed driver: a dependable predicate, a range the ring
    /// arithmetic can carry, and a well-formed model state.
    pub open spec fn wf(self) -> bool {
        &&& pred_deterministic(self.is_opaque)
        &&& self.range <= 0x7fff_ffff
        &&& fov_state_wf(self.pred(), self.range as int, self.state())
    }

    /// A new field-of-view traversal from the origin, seeing out to
    /// `range`.
    ///
    /// The predicate must be callable on every coordinate and must answer
    /// every coordinate deterministically; the range cap is what the i32
    /// coordinate grid can hold.
    pub fn new(is_opaque: F, range: u32) -> (fov: HexFov<F>)
        requires
            pred_deterministic(is_opaque),
            range <= 0x7fff_ffff,
        ensures
            fov.wf(),
            fov.is_opaque == is_opaque,
            fov.range == range,
            !fov.fake_isometric_hack,
            fov.state() == fov_init(pred_of(is_opaque)),
    {
        // The origin position V2(0, 0) is a special case for the traversal
        // algorithm, but it's also always present, so instead of adding ugly
        // branches to the actual iterator, we just seed it into the side
        // channel here.
        let first = Dir6::from_int(0).to_v2();
        let init_group = is_opaque(first);
        let begin = PolarPoint::new(0, 1, 1);
        let pt = PolarPoint::new(0, 1, 1);
        let end = PolarPoint::new(6, 1, 1);
        let mut stack: Vec<Sector> = Vec::new();
        stack.push(Sector { begin, pt, end, group_opaque: init_group });
        let mut side_channel: Vec<V2> = Vec::new();
        side_channel.push(V2(0, 0));
        let fov = HexFov { is_opaque, range, stack, fake_isometric_hack: false, side_channel };
        proof {
            let p = pred_of(fov.is_opaque);
            lemma_call_pred(fov.is_opaque, first, init_group);
            let b0 = PolarModel { num: 0, den: 1, radius: 1 };
            assert((2 * 0int * 1 + 1) / (2int * 1) == 0 && 0int % 6 == 0 && 0int / 1 == 0 && 0int
                % 1 == 0 && 2int % 6 == 2) by (nonlinear_arith);
            assert(pm_winding(b0) == 0);
            assert(pm_to_v2(b0) == V2(-1i32, -1i32));
            assert(fov.state() =~= fov_init(p));
            let s0 = fov.state().stack[0];
            assert(angle_lt(s0.begin, s0.end));
            assert(sector_wf(p, range as int, s0));
        }
        fov
    }

    /// Make wall tiles in acute corners visible when running the algorithm
    /// so that the complete wall rectangle of fake-isometric rooms will
    /// appear in the field of view.
    pub fn fake_isometric(self) -> (fov: HexFov<F>)
        ensures
            fov.is_opaque == self.is_opaque,
            fov.range == self.range,
            fov.fake_isometric_hack,
            fov.state() == self.state(),
            self.wf() ==> fov.wf(),
    {
        let mut fov = self;
        fov.fake_isometric_hack = true;
        fov
    }

    /// The next visible coordinate, or nothing once the traversal is done.
    ///
    /// One pull performs the model iterations the step function prescribes,
    /// up to and including the first one that emits a coordinate or ends
    /// the traversal.
    #[verifier::loop_isolation(false)]
    #[verifier::rlimit(100)]
    #[verifier::spinoff_prover]
    pub fn next(&mut self) -> (r: Option<V2>)
        requires
            old(self).wf(),
        ensures
            final(self).wf(),
            final(self).is_opaque == old(self).is_opaque,
            final(self).range == old(self).range,
            final(self).fake_isometric_hack == old(self).fake_isometric_hack,
            exists|n: nat|
                step_outcome(
                    old(self).pred(),
                    old(self).range as int,
                    old(self).fake_isometric_hack,
                    old(self).state(),
                    n,
                    r,
                    final(self).state(),
                ),
    {
        let ghost p = self.pred();
        let ghost range_i = self.range as int;
        let ghost iso = self.fake_isometric_hack;
        let ghost st0 = self.state();
        if let Some(v) = self.side_channel.pop() {
            proof {
                assert(self.state() =~= (FovState { side: st0.side.drop_last(), stack: st0.stack }));
                assert(step_outcome(p, range_i, iso, st0, 0, Some(v), self.state()));
            }
            return Some(v);
        }
        // The loop runs at most three iterations per pull: an exhausted
        // sector can be followed only by a sector with a cell left to scan,
        // whose processing either emits or splits it, and a fresh split or
        // expansion emits its first cell at once.  The ghost phase `k`
        // tracks how many iterations can remain; `m` counts the model
        // iterations taken so far.
        let ghost mut m: nat = 0;
        let ghost mut k: int = 3;
        loop
            invariant
                self.wf(),
                self.is_opaque == old(self).is_opaque,
                self.range == old(self).range,
                self.fake_isometric_hack == old(self).fake_isometric_hack,
                self.side_channel@.len() == 0,
                p == self.pred(),
                range_i == self.range as int,
                iso == self.fake_isometric_hack,
                st0 == old(self).state(),
                self.state() == fov_advance(p, range_i, iso, st0, m),
                fov_all_continue(p, range_i, iso, st0, m),
                1 <= k <= 3,
                k == 1 ==> self.stack@.len() > 0 && self.state().stack.last().pt
                    == self.state().stack.last().begin,
                k == 2 ==> (self.stack@.len() > 0 ==> pm_is_below(
                    self.state().stack.last().pt,
                    self.state().stack.last().end,
                )),
            decreases k,
        {
            let ghost scur = self.state();
            let ghost pre_stack = self.stack@;
            let popped = self.stack.pop();
            if popped.is_none() {
                proof {
                    assert(fov_step(p, range_i, iso, scur) is Done);
                    assert(self.state() =~= scur);
                    assert(step_outcome(p, range_i, iso, st0, m, None::<V2>, self.state()));
                }
                return None;
            }
            let mut current = popped.unwrap();
            proof {
                lemma_stack_models_pop(pre_stack);
            }
            let ghost s = current.model();
            let ghost rest = scur.stack.drop_last();
            assert(sector_wf(p, range_i, s));
            if current.pt.is_below(current.end) {
                proof {
                    lemma_scan_point_ok(p, range_i, s);
                }
                let pos = current.pt.to_v2();
                let current_opaque = (self.is_opaque)(pos);
                proof {
                    lemma_call_pred(self.is_opaque, pos, current_opaque);
                }
                if current_opaque != current.group_opaque {
                    proof {
                        lemma_branch_point(p, range_i, s, current_opaque);
                        if k == 1 {
                            lemma_same_cell(s.begin, s.pt);
                            assert(false);
                        }
                    }
                    // Terrain opacity changed, branch out: the rest of this
                    // sector is rescanned under the new opacity.
                    let split = Sector {
                        begin: current.pt,
                        pt: current.pt,
                        end: current.end,
                        group_opaque: current_opaque,
                    };
                    self.stack.push(split);
                    proof {
                        lemma_stack_models_push(pre_stack.subrange(0, pre_stack.len() - 1), split);
                    }
                    // If this was a visible sector and we're below range,
                    // branch out further.
                    if !current.group_opaque && current.begin.radius() < self.range {
                        let nb = current.begin.further();
                        let nbv = nb.to_v2();
                        let nop = (self.is_opaque)(nbv);
                        let ghost mid_stack = self.stack@;
                        let grown = Sector {
                            begin: nb,
                            pt: nb,
                            end: current.pt.further(),
                            group_opaque: nop,
                        };
                        self.stack.push(grown);
                        proof {
                            lemma_call_pred(self.is_opaque, nbv, nop);
                            lemma_expand_sector(p, range_i, s, s.pt);
                            lemma_stack_models_push(mid_stack, grown);
                            assert(self.state().stack =~= rest.push(rest_sector(s, current_opaque)).push(
                                expand_sector(p, s, s.pt)));
                        }
                    } else {
                        proof {
                            assert(self.state().stack =~= rest.push(rest_sector(s, current_opaque)));
                        }
                    }
                    proof {
                        let stepres = fov_step(p, range_i, iso, scur);
                        assert(stepres is Continue);
                        assert(self.state() =~= stepres->next_state);
                        assert(fov_advance(p, range_i, iso, st0, m + 1) == self.state());
                        m = m + 1;
                        assert(fov_all_continue(p, range_i, iso, st0, m)) by {
                            assert(forall|mm: nat|
                                mm < m ==> (fov_step(p, range_i, iso, fov_advance(p, range_i, iso, st0, mm))
                                    is Continue));
                        }
                        k = 1;
                    }
                } else {
                    // Hack for making acute corner tiles of fake-isometric
                    // rooms visible.
                    if self.fake_isometric_hack {
                        if let Some(side_pt) = current.pt.side_point() {
                            let nxt = current.pt.next();
                            if nxt.is_below(current.end) && current.group_opaque {
                                let front = (self.is_opaque)(nxt.to_v2());
                                proof {
                                    lemma_call_pred(self.is_opaque, pm_to_v2(pm_next(s.pt)), front);
                                }
                                if front {
                                    let side_op = (self.is_opaque)(side_pt);
                                    proof {
                                        lemma_call_pred(self.is_opaque, side_pt, side_op);
                                    }
                                    if side_op && current.begin.radius() < self.range {
                                        self.side_channel.push(side_pt);
                                        assert(corner_applies(p, range_i, s));
                                    } else {
                                        assert(!corner_applies(p, range_i, s));
                                    }
                                } else {
                                    assert(!corner_applies(p, range_i, s));
                                }
                            } else {
                                assert(!corner_applies(p, range_i, s));
                            }
                        } else {
                            assert(!corner_applies(p, range_i, s));
                        }
                    }
                    // Proceed along the current sector.
                    let new_pt = current.pt.next();
                    current.pt = new_pt;
                    self.stack.push(current);
                    proof {
                        lemma_advance_sector(p, range_i, s);
                        lemma_stack_models_push(pre_stack.subrange(0, pre_stack.len() - 1), current);
                        let stepres = fov_step(p, range_i, iso, scur);
                        assert(stepres is Emit);
                        assert(stepres->out == pos);
                        assert(self.state() =~= stepres->after);
                        assert(step_outcome(p, range_i, iso, st0, m, Some(pos), self.state()));
                    }
                    return Some(pos);
                }
            } else {
                // Hit the end of the sector.
                proof {
                    if k == 1 {
                        lemma_angle_order(s.pt, s.end);
                        assert(false);
                    }
                    if k == 2 {
                        assert(false);
                    }
                }
                // If this was a visible sector and we're below range, branch
                // out further.
                if !current.group_opaque && current.begin.radius() < self.range {
                    let nb = current.begin.further();
                    let nbv = nb.to_v2();
                    let nop = (self.is_opaque)(nbv);
                    let grown = Sector {
                        begin: nb,
                        pt: nb,
                        end: current.end.further(),
                        group_opaque: nop,
                    };
                    self.stack.push(grown);
                    proof {
                        lemma_call_pred(self.is_opaque, nbv, nop);
                        assert(s.end.num <= (s.end.radius + 6) * s.end.den) by (nonlinear_arith)
                            requires
                                s.end.num <= (s.end.radius + 5) * s.end.den,
                                s.end.den >= 1,
                        {}
                        lemma_expand_sector(p, range_i, s, s.end);
                        lemma_stack_models_push(pre_stack.subrange(0, pre_stack.len() - 1), grown);
                        assert(self.state().stack =~= rest.push(expand_sector(p, s, s.end)));
                        k = 1;
                    }
                } else {
                    proof {
                        assert(self.state().stack =~= rest);
                        k = 2;
                    }
                }
                proof {
                    let stepres = fov_step(p, range_i, iso, scur);
                    assert(stepres is Continue);
                    assert(self.state() =~= stepres->next_state);
                    assert(fov_advance(p, range_i, iso, st0, m + 1) == self.state());
                    m = m + 1;
                    assert(fov_all_continue(p, range_i, iso, st0, m)) by {
                        assert(forall|mm: nat|
                            mm < m ==> (fov_step(p, range_i, iso, fov_advance(p, range_i, iso, st0, mm))
                                is Continue));
                    }
                }
            }
        }
    }
}

} // verus!
