//! Termination of the traversal under any predicate.
//!
//! Every iteration of the step function strictly decreases a potential:
//! each pending sector is weighted by its remaining cells and its whole
//! arc, scaled by a power of the rings it may still expand across.  The
//! potential is finite, so every traversal finishes.

use vstd::prelude::*;

use crate::fov::FovState;
use crate::fov::SectorModel;
use crate::fov::StepResult;
use crate::fov::angle_le;
use crate::fov::fov_init;
use crate::fov::fov_state_wf;
use crate::fov::fov_step;
use crate::fov::lemma_angle_order;
use crate::fov::lemma_branch_point;
use crate::fov::lemma_index_frame;
use crate::fov::lemma_next_winding;
use crate::fov::sector_wf;
use crate::geom::V2;
use crate::geom::max_val;
use crate::polar::PolarModel;
use crate::polar::pm_end_index;
use crate::polar::pm_further;
use crate::polar::pm_winding;
use crate::trace::fov_done_within;
use crate::trace::lemma_step_preserves;
use crate::trace::side_ok;

verus! {

/// Powers of twenty, the weight one ring of expansion headroom carries.
pub open spec fn pow20(e: nat) -> int
    decreases e,
{
    if e == 0 {
        1
    } else {
        20 * pow20((e - 1) as nat)
    }
}

/// Powers of twenty are at least one.
pub proof fn lemma_pow20_pos(e: nat)
    ensures
        pow20(e) >= 1,
    decreases e,
{
    if e > 0 {
        lemma_pow20_pos((e - 1) as nat);
    }
}

/// Expanding an arc one ring outward at most doubles its cell count, plus
/// a constant for the rounding at each end.
pub proof fn lemma_expand_arc_bound(b: PolarModel, t: PolarModel)
    requires
        b.den >= 1,
        t.den >= 1,
        b.num >= 0,
        t.num >= 0,
        b.radius == t.radius,
        1 <= t.radius,
        angle_le(b, t),
    ensures
        pm_end_index(pm_further(t)) - pm_winding(pm_further(b)) <= 2 * (pm_end_index(t)
            - pm_winding(b)) + 2,
{
    let r = t.radius;
    let tn = t.num;
    let td = t.den;
    let bn = b.num;
    let bd = b.den;
    lemma_index_frame(t);
    lemma_index_frame(b);
    lemma_index_frame(pm_further(t));
    lemma_index_frame(pm_further(b));
    let et = pm_end_index(t);
    let wb = pm_winding(b);
    let ef = pm_end_index(pm_further(t));
    let wf_ = pm_winding(pm_further(b));
    // Frames, written with one denominator each.
    assert(2 * td * ef <= 2 * tn * (r + 1) + 3 * td - 1) by (nonlinear_arith)
        requires
            2 * td * (ef - 1) < 2 * tn * (r + 1) + td,
            td >= 1,
    {}
    assert(2 * bd * wf_ >= 2 * bn * (r + 1) - bd + 1) by (nonlinear_arith)
        requires
            2 * bn * (r + 1) + bd < 2 * bd * (wf_ + 1),
            bd >= 1,
    {}
    assert(2 * tn * r <= td * (2 * et - 1)) by (nonlinear_arith)
        requires
            2 * td * et >= 2 * tn * r + td,
    {}
    assert(2 * bn * r >= bd * (2 * wb - 1)) by (nonlinear_arith)
        requires
            2 * bd * wb <= 2 * bn * r + bd,
    {}
    // Cross-multiplied atoms: the numerators over the common denominator,
    // and the denominator product itself.
    let u = tn * bd;
    let v = bn * td;
    let m = td * bd;
    assert(u >= v && m >= 1 && u >= 0 && v >= 0) by (nonlinear_arith)
        requires
            u == tn * bd,
            v == bn * td,
            m == td * bd,
            bn * td <= tn * bd,
            td >= 1,
            bd >= 1,
            tn >= 0,
            bn >= 0,
    {}
    // The angular width at radius r is below the arc's index width.
    assert(2 * r * u <= m * (2 * et - 1)) by (nonlinear_arith)
        requires
            2 * tn * r <= td * (2 * et - 1),
            u == tn * bd,
            m == td * bd,
            bd >= 1,
    {}
    assert(2 * r * v >= m * (2 * wb - 1)) by (nonlinear_arith)
        requires
            2 * bn * r >= bd * (2 * wb - 1),
            v == bn * td,
            m == td * bd,
            td >= 1,
    {}
    assert(2 * r * u - 2 * r * v <= 2 * m * (et - wb)) by (nonlinear_arith)
        requires
            2 * r * u <= m * (2 * et - 1),
            2 * r * v >= m * (2 * wb - 1),
    {}
    // The expanded arc's index width is below its angular width at radius
    // r + 1, with two cells of rounding slack.
    assert(2 * m * ef <= 2 * (r + 1) * u + 3 * m - bd) by (nonlinear_arith)
        requires
            2 * td * ef <= 2 * tn * (r + 1) + 3 * td - 1,
            u == tn * bd,
            m == td * bd,
            bd >= 1,
    {}
    assert(2 * m * wf_ >= 2 * (r + 1) * v - m + td) by (nonlinear_arith)
        requires
            2 * bd * wf_ >= 2 * bn * (r + 1) - bd + 1,
            v == bn * td,
            m == td * bd,
            td >= 1,
    {}
    // Combine: the angular width only doubles from radius r to r + 1.
    assert(2 * (r + 1) * u - 2 * (r + 1) * v <= 2 * (2 * r * u - 2 * r * v)) by (nonlinear_arith)
        requires
            u >= v,
            r >= 1,
    {}
    assert(ef - wf_ <= 2 * (et - wb) + 2) by (nonlinear_arith)
        requires
            2 * m * ef <= 2 * (r + 1) * u + 3 * m - bd,
            2 * m * wf_ >= 2 * (r + 1) * v - m + td,
            2 * (r + 1) * u - 2 * (r + 1) * v <= 2 * (2 * r * u - 2 * r * v),
            2 * r * u - 2 * r * v <= 2 * m * (et - wb),
            m >= 1,
            td >= 1,
            bd >= 1,
    {}
}

/// The potential one pending sector carries: twice its remaining cells
/// plus its whole arc and one, scaled by the expansion headroom below the
/// range.
pub open spec fn sector_pot(range: int, s: SectorModel) -> int {
    let cap = max_val(range, 1);
    let w = max_val(0, pm_end_index(s.end) - pm_winding(s.pt));
    let arc = max_val(0, pm_end_index(s.end) - pm_winding(s.begin));
    (2 * w + arc + 1) * pow20((cap - s.pt.radius) as nat)
}

/// The potential of a stack of sectors.
pub open spec fn stack_pot(range: int, stk: Seq<SectorModel>) -> int
    decreases stk.len(),
{
    if stk.len() == 0 {
        0
    } else {
        stack_pot(range, stk.drop_last()) + sector_pot(range, stk.last())
    }
}

/// The potential of a whole state.
pub open spec fn state_pot(range: int, st: FovState) -> int {
    st.side.len() + stack_pot(range, st.stack)
}

/// Sector potentials are positive, and stack potentials nonnegative.
pub proof fn lemma_pot_bounds(range: int, stk: Seq<SectorModel>)
    ensures
        stack_pot(range, stk) >= 0,
        forall|i: int|
            0 <= i < stk.len() ==> sector_pot(range, #[trigger] stk[i]) >= 1,
    decreases stk.len(),
{
    assert forall|i: int| 0 <= i < stk.len() implies sector_pot(range, #[trigger] stk[i]) >= 1 by {
        let s = stk[i];
        let cap = max_val(range, 1);
        lemma_pow20_pos((cap - s.pt.radius) as nat);
        assert((2 * max_val(0, pm_end_index(s.end) - pm_winding(s.pt)) + max_val(
            0,
            pm_end_index(s.end) - pm_winding(s.begin),
        ) + 1) * pow20((cap - s.pt.radius) as nat) >= 1) by (nonlinear_arith)
            requires
                pow20((cap - s.pt.radius) as nat) >= 1,
                max_val(0, pm_end_index(s.end) - pm_winding(s.pt)) >= 0,
                max_val(0, pm_end_index(s.end) - pm_winding(s.begin)) >= 0,
        {}
    }
    if stk.len() > 0 {
        lemma_pot_bounds(range, stk.drop_last());
        assert(stk.drop_last().len() == stk.len() - 1);
        assert(stk[stk.len() - 1] == stk.last());
    }
}

/// Pushing a sector adds its potential.
pub proof fn lemma_stack_pot_push(range: int, stk: Seq<SectorModel>, s: SectorModel)
    ensures
        stack_pot(range, stk.push(s)) == stack_pot(range, stk) + sector_pot(range, s),
{
    assert(stk.push(s).drop_last() =~= stk);
    assert(stk.push(s).last() == s);
}

/// One iteration of the traversal strictly decreases the potential.
pub proof fn lemma_step_decreases(p: spec_fn(V2) -> bool, range: int, iso: bool, st: FovState)
    requires
        range <= 0x7fff_ffff,
        fov_state_wf(p, range, st),
    ensures
        fov_step(p, range, iso, st) is Emit ==> state_pot(
            range,
            fov_step(p, range, iso, st)->after,
        ) < state_pot(range, st),
        fov_step(p, range, iso, st) is Continue ==> state_pot(
            range,
            fov_step(p, range, iso, st)->next_state,
        ) < state_pot(range, st),
{
    let cap = max_val(range, 1);
    if st.side.len() > 0 {
    } else if st.stack.len() == 0 {
    } else {
        let s = st.stack.last();
        let rest = st.stack.drop_last();
        assert(sector_wf(p, range, s)) by {
            assert(st.stack[st.stack.len() - 1] == s);
        }
        let pw = pow20((cap - s.pt.radius) as nat);
        lemma_pow20_pos((cap - s.pt.radius) as nat);
        let e = pm_end_index(s.end);
        let wt = pm_winding(s.pt);
        let wb = pm_winding(s.begin);
        lemma_angle_order(s.begin, s.pt);
        lemma_angle_order(s.begin, s.end);
        assert(wb < e);
        let arc = e - wb;
        if crate::polar::pm_is_below(s.pt, s.end) {
            let w = e - wt;
            assert(w >= 1);
            assert(wb <= wt);
            assert(sector_pot(range, s) == (2 * w + arc + 1) * pw);
            let op = p(crate::polar::pm_to_v2(s.pt));
            if op != s.group_opaque {
                lemma_branch_point(p, range, s, op);
                let d = wt - wb;
                assert(d >= 1);
                let split = crate::fov::rest_sector(s, op);
                assert(sector_pot(range, split) == (3 * w + 1) * pw);
                lemma_stack_pot_push(range, rest, split);
                if !s.group_opaque && s.begin.radius < range {
                    let grown = crate::fov::expand_sector(p, s, s.pt);
                    lemma_stack_pot_push(range, rest.push(split), grown);
                    lemma_expand_arc_bound(s.begin, s.pt);
                    lemma_index_frame(s.pt);
                    let ef = pm_end_index(pm_further(s.pt));
                    let wf_ = pm_winding(pm_further(s.begin));
                    assert(pm_end_index(s.pt) <= wt + 1);
                    assert(ef - wf_ <= 2 * d + 4);
                    let arcx = max_val(0, ef - wf_);
                    assert(arcx <= 2 * d + 4);
                    assert(sector_pot(range, grown) == (3 * arcx + 1) * pow20(
                        (cap - (s.begin.radius + 1)) as nat,
                    ));
                    let pwx = pow20((cap - (s.begin.radius + 1)) as nat);
                    lemma_pow20_pos((cap - (s.begin.radius + 1)) as nat);
                    assert(pw == 20 * pwx);
                    assert((3 * w + 1) * pw + (3 * arcx + 1) * pwx < (2 * w + arc + 1) * pw)
                        by (nonlinear_arith)
                        requires
                            pw == 20 * pwx,
                            pwx >= 1,
                            arc == w + d,
                            d >= 1,
                            w >= 1,
                            0 <= arcx <= 2 * d + 4,
                    {}
                } else {
                    assert((3 * w + 1) * pw < (2 * w + arc + 1) * pw) by (nonlinear_arith)
                        requires
                            pw >= 1,
                            arc >= w + 1,
                            w >= 1,
                    {}
                }
            } else {
                lemma_next_winding(s.pt);
                let moved = SectorModel {
                    begin: s.begin,
                    pt: crate::polar::pm_next(s.pt),
                    end: s.end,
                    group_opaque: s.group_opaque,
                };
                lemma_stack_pot_push(range, rest, moved);
                assert(sector_pot(range, moved) == (2 * (w - 1) + arc + 1) * pw);
                assert((2 * (w - 1) + arc + 1) * pw + 1 < (2 * w + arc + 1) * pw)
                    by (nonlinear_arith)
                    requires
                        pw >= 1,
                        w >= 1,
                        arc >= 0,
                {}
            }
        } else {
            assert(e - wt <= 0);
            assert(sector_pot(range, s) == (arc + 1) * pw);
            if !s.group_opaque && s.begin.radius < range {
                let grown = crate::fov::expand_sector(p, s, s.end);
                lemma_stack_pot_push(range, rest, grown);
                lemma_expand_arc_bound(s.begin, s.end);
                let ef = pm_end_index(pm_further(s.end));
                let wf_ = pm_winding(pm_further(s.begin));
                assert(ef - wf_ <= 2 * arc + 2);
                let arcx = max_val(0, ef - wf_);
                assert(arcx <= 2 * arc + 2);
                let pwx = pow20((cap - (s.begin.radius + 1)) as nat);
                lemma_pow20_pos((cap - (s.begin.radius + 1)) as nat);
                assert(pw == 20 * pwx);
                assert(sector_pot(range, grown) == (3 * arcx + 1) * pwx);
                assert((3 * arcx + 1) * pwx < (arc + 1) * pw) by (nonlinear_arith)
                    requires
                        pw == 20 * pwx,
                        pwx >= 1,
                        arc >= 1,
                        0 <= arcx <= 2 * arc + 2,
                {}
            } else {
                assert((arc + 1) * pw >= 1) by (nonlinear_arith)
                    requires
                        pw >= 1,
                        arc >= 1,
                {}
            }
        }
    }
}

/// Enough fuel stays enough.
pub proof fn lemma_done_within_mono(
    p: spec_fn(V2) -> bool,
    range: int,
    iso: bool,
    st: FovState,
    m: nat,
    n: nat,
)
    requires
        fov_done_within(p, range, iso, st, m),
        m <= n,
    ensures
        fov_done_within(p, range, iso, st, n),
    decreases m,
{
    match fov_step(p, range, iso, st) {
        StepResult::Done => {},
        StepResult::Emit { after, out } => {
            lemma_done_within_mono(p, range, iso, after, (m - 1) as nat, (n - 1) as nat);
        },
        StepResult::Continue { next_state } => {
            lemma_done_within_mono(p, range, iso, next_state, (m - 1) as nat, (n - 1) as nat);
        },
    }
}

/// Any run of the plain traversal from a well-formed state finishes within
/// its potential's worth of iterations.
pub proof fn lemma_run_terminates(p: spec_fn(V2) -> bool, range: int, iso: bool, st: FovState)
    requires
        range <= 0x7fff_ffff,
        fov_state_wf(p, range, st),
        side_ok(range, st),
    ensures
        fov_done_within(p, range, iso, st, state_pot(range, st) as nat),
    decreases state_pot(range, st),
{
    lemma_pot_bounds(range, st.stack);
    lemma_step_preserves(p, range, iso, st);
    lemma_step_decreases(p, range, iso, st);
    let pot = state_pot(range, st);
    match fov_step(p, range, iso, st) {
        StepResult::Done => {},
        StepResult::Emit { after, out } => {
            lemma_pot_bounds(range, after.stack);
            lemma_run_terminates(p, range, iso, after);
            lemma_done_within_mono(
                p,
                range,
                iso,
                after,
                state_pot(range, after) as nat,
                (pot - 1) as nat,
            );
        },
        StepResult::Continue { next_state } => {
            lemma_pot_bounds(range, next_state.stack);
            lemma_run_terminates(p, range, iso, next_state);
            lemma_done_within_mono(
                p,
                range,
                iso,
                next_state,
                state_pot(range, next_state) as nat,
                (pot - 1) as nat,
            );
        },
    }
}

/// Law: whatever the predicate answers, and with or without the
/// acute-corner rule, a traversal finishes in finitely many iterations.
pub proof fn lemma_traversal_finite(p: spec_fn(V2) -> bool, range: int, iso: bool)
    requires
        0 <= range <= 0x7fff_ffff,
    ensures
        exists|fuel: nat| fov_done_within(p, range, iso, fov_init(p), fuel),
{
    crate::trace::lemma_init_state_wf(p, range);
    lemma_run_terminates(p, range, iso, fov_init(p));
    assert(fov_done_within(
        p,
        range,
        iso,
        fov_init(p),
        state_pot(range, fov_init(p)) as nat,
    ));
}

} // verus!
