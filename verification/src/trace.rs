//! Whole traversals of the field-of-view model.
//!
//! `fov_step` describes one iteration; here whole runs are described: the
//! sequence of coordinates a traversal emits within a given number of
//! iterations, and how one pull of the driver relates to it.

use vstd::prelude::*;

use crate::fov::FovState;
use crate::fov::StepResult;
use crate::fov::fov_advance;
use crate::fov::fov_all_continue;
use crate::fov::fov_init;
use crate::fov::corner_applies;
use crate::fov::fov_state_wf;
use crate::fov::fov_step;
use crate::fov::lemma_advance_sector;
use crate::fov::lemma_branch_point;
use crate::fov::lemma_expand_sector;
use crate::fov::sector_wf;
use crate::fov::step_outcome;
use crate::geom::V2;
use crate::geom::max_val;
use crate::geom::spec_hex_dist;
use crate::polar::PolarModel;
use crate::polar::pm_to_v2;
use crate::polar::pm_winding;
use crate::ring::lemma_disc_cardinality;
use crate::ring::lemma_point_cell_dist;
use crate::ring::spec_disc;

verus! {

/// The coordinates the traversal emits within `fuel` iterations, in order.
pub open spec fn fov_outputs(
    p: spec_fn(V2) -> bool,
    range: int,
    iso: bool,
    st: FovState,
    fuel: nat,
) -> Seq<V2>
    decreases fuel,
{
    if fuel == 0 {
        Seq::empty()
    } else {
        match fov_step(p, range, iso, st) {
            StepResult::Done => Seq::empty(),
            StepResult::Emit { after, out } => seq![out] + fov_outputs(
                p,
                range,
                iso,
                after,
                (fuel - 1) as nat,
            ),
            StepResult::Continue { next_state } => fov_outputs(
                p,
                range,
                iso,
                next_state,
                (fuel - 1) as nat,
            ),
        }
    }
}

/// Whether the traversal reaches its end within `fuel` iterations.
pub open spec fn fov_done_within(
    p: spec_fn(V2) -> bool,
    range: int,
    iso: bool,
    st: FovState,
    fuel: nat,
) -> bool
    decreases fuel,
{
    match fov_step(p, range, iso, st) {
        StepResult::Done => true,
        StepResult::Emit { after, out } => fuel > 0 && fov_done_within(
            p,
            range,
            iso,
            after,
            (fuel - 1) as nat,
        ),
        StepResult::Continue { next_state } => fuel > 0 && fov_done_within(
            p,
            range,
            iso,
            next_state,
            (fuel - 1) as nat,
        ),
    }
}

/// Advancing one more iteration is advancing from the continuation state.
pub proof fn lemma_advance_shift(
    p: spec_fn(V2) -> bool,
    range: int,
    iso: bool,
    st: FovState,
    n: nat,
)
    requires
        fov_step(p, range, iso, st) is Continue,
    ensures
        fov_advance(p, range, iso, st, n + 1) == fov_advance(
            p,
            range,
            iso,
            fov_step(p, range, iso, st)->next_state,
            n,
        ),
    decreases n,
{
    let st1 = fov_step(p, range, iso, st)->next_state;
    if n == 0 {
        assert(fov_advance(p, range, iso, st, 0) == st);
        assert(fov_advance(p, range, iso, st1, 0) == st1);
        assert(fov_advance(p, range, iso, st, 1) == st1);
    } else {
        lemma_advance_shift(p, range, iso, st, (n - 1) as nat);
        assert(fov_advance(p, range, iso, st, n + 1) == fov_advance(p, range, iso, st1, n));
    }
}

/// What one pull of the driver means for the run as a whole: with fuel to
/// spare, an emitting pull contributes its coordinate to the front of the
/// output sequence and the rest comes from the state it leaves behind; a
/// pull that returns nothing closes an output sequence that is empty from
/// here on.
pub proof fn lemma_outcome_unrolls_outputs(
    p: spec_fn(V2) -> bool,
    range: int,
    iso: bool,
    st: FovState,
    n: nat,
    r: Option<V2>,
    stf: FovState,
    fuel: nat,
)
    requires
        step_outcome(p, range, iso, st, n, r, stf),
        fuel >= n + 1,
    ensures
        r is Some ==> fov_outputs(p, range, iso, st, fuel) == seq![r->Some_0] + fov_outputs(
            p,
            range,
            iso,
            stf,
            (fuel - n - 1) as nat,
        ),
        r is None ==> fov_outputs(p, range, iso, st, fuel) == Seq::<V2>::empty(),
        r is None ==> fov_done_within(p, range, iso, st, n),
    decreases n,
{
    if n == 0 {
        assert(fov_advance(p, range, iso, st, 0) == st);
    } else {
        assert(fov_step(p, range, iso, fov_advance(p, range, iso, st, 0)) is Continue) by {
            assert(fov_all_continue(p, range, iso, st, n));
        }
        assert(fov_advance(p, range, iso, st, 0) == st);
        let st1 = fov_step(p, range, iso, st)->next_state;
        assert(step_outcome(p, range, iso, st1, (n - 1) as nat, r, stf)) by {
            lemma_advance_shift(p, range, iso, st, (n - 1) as nat);
            assert forall|m: nat| m < n - 1 implies (fov_step(
                p,
                range,
                iso,
                fov_advance(p, range, iso, st1, m),
            ) is Continue) by {
                lemma_advance_shift(p, range, iso, st, m);
                assert(fov_advance(p, range, iso, st, m + 1) == fov_advance(p, range, iso, st1, m));
                assert(fov_all_continue(p, range, iso, st, n));
                assert(m + 1 < n);
            }
        }
        lemma_outcome_unrolls_outputs(p, range, iso, st1, (n - 1) as nat, r, stf, (fuel - 1) as nat);
    }
}

/// Whether everything waiting in the side channel lies within the disc the
/// traversal may speak of.
pub open spec fn side_ok(range: int, st: FovState) -> bool {
    forall|i: int|
        0 <= i < st.side.len() ==> spec_hex_dist(#[trigger] st.side[i]) <= max_val(range, 1)
}

/// One iteration of the traversal keeps the state well formed, keeps the
/// side channel within the disc, and emits only coordinates within the
/// disc.
pub proof fn lemma_step_preserves(p: spec_fn(V2) -> bool, range: int, iso: bool, st: FovState)
    requires
        range <= 0x7fff_ffff,
        fov_state_wf(p, range, st),
        side_ok(range, st),
    ensures
        ({
            let res = fov_step(p, range, iso, st);
            &&& (res is Emit ==> fov_state_wf(p, range, res->after) && side_ok(range, res->after)
                && spec_hex_dist(res->out) <= max_val(range, 1))
            &&& (res is Continue ==> fov_state_wf(p, range, res->next_state) && side_ok(
                range,
                res->next_state,
            ))
        }),
{
    if st.side.len() > 0 {
    } else if st.stack.len() == 0 {
    } else {
        let s = st.stack.last();
        let rest = st.stack.drop_last();
        assert(sector_wf(p, range, s)) by {
            assert(st.stack[st.stack.len() - 1] == s);
        }
        if crate::polar::pm_is_below(s.pt, s.end) {
            let pos = pm_to_v2(s.pt);
            let op = p(pos);
            if op != s.group_opaque {
                lemma_branch_point(p, range, s, op);
                if !s.group_opaque && s.begin.radius < range {
                    lemma_expand_sector(p, range, s, s.pt);
                }
            } else {
                lemma_advance_sector(p, range, s);
                lemma_point_cell_dist(s.pt);
                if iso && corner_applies(p, range, s) {
                    crate::fov::lemma_scan_point_ok(p, range, s);
                    crate::ring::lemma_side_point_dist(s.pt);
                }
            }
        } else {
            if !s.group_opaque && s.begin.radius < range {
                assert(s.end.num <= (s.end.radius + 6) * s.end.den) by (nonlinear_arith)
                    requires
                        s.end.num <= (s.end.radius + 5) * s.end.den,
                        s.end.den >= 1,
                {}
                lemma_expand_sector(p, range, s, s.end);
            }
        }
    }
}

/// Every coordinate the plain traversal emits from a well-formed state lies
/// within the disc of the range (or of the first ring, whose sector exists
/// whatever the range).
pub proof fn lemma_outputs_in_disc(
    p: spec_fn(V2) -> bool,
    range: int,
    iso: bool,
    st: FovState,
    fuel: nat,
)
    requires
        range <= 0x7fff_ffff,
        fov_state_wf(p, range, st),
        side_ok(range, st),
    ensures
        forall|i: int|
            0 <= i < fov_outputs(p, range, iso, st, fuel).len() ==> spec_hex_dist(
                #[trigger] fov_outputs(p, range, iso, st, fuel)[i],
            ) <= max_val(range, 1),
    decreases fuel,
{
    if fuel > 0 {
        lemma_step_preserves(p, range, iso, st);
        let outs = fov_outputs(p, range, iso, st, fuel);
        match fov_step(p, range, iso, st) {
            StepResult::Done => {},
            StepResult::Emit { after, out } => {
                lemma_outputs_in_disc(p, range, iso, after, (fuel - 1) as nat);
                let rest = fov_outputs(p, range, iso, after, (fuel - 1) as nat);
                assert forall|i: int| 0 <= i < outs.len() implies spec_hex_dist(outs[i])
                    <= max_val(range, 1) by {
                    if i > 0 {
                        assert(outs[i] == rest[i - 1]);
                    }
                }
            },
            StepResult::Continue { next_state } => {
                lemma_outputs_in_disc(p, range, iso, next_state, (fuel - 1) as nat);
                let rest = fov_outputs(p, range, iso, next_state, (fuel - 1) as nat);
                assert forall|i: int| 0 <= i < outs.len() implies spec_hex_dist(outs[i])
                    <= max_val(range, 1) by {
                    assert(outs[i] == rest[i]);
                }
            },
        }
    }
}

/// The starting state of a traversal is well formed under any predicate
/// and any representable range.
pub proof fn lemma_init_state_wf(p: spec_fn(V2) -> bool, range: int)
    requires
        0 <= range <= 0x7fff_ffff,
    ensures
        fov_state_wf(p, range, fov_init(p)),
        side_ok(range, fov_init(p)),
{
    let b0 = PolarModel { num: 0, den: 1, radius: 1 };
    assert((2 * 0int * 1 + 1) / (2int * 1) == 0 && 0int % 6 == 0 && 0int / 1 == 0 && 0int % 1
        == 0) by (nonlinear_arith);
    assert(pm_winding(b0) == 0);
    assert(pm_to_v2(b0) == V2(-1i32, -1i32));
    let s0 = fov_init(p).stack[0];
    assert(sector_wf(p, range, s0));
    assert(spec_hex_dist(V2(0i32, 0i32)) == 0);
}

/// Law: a traversal of range `r` never emits more than `1 + 3 * r * (r + 1)`
/// distinct coordinates, the count of all cells within hex distance `r`,
/// however far it is run, whatever the predicate answers, and whether or
/// not the acute-corner rule is on.
pub proof fn lemma_output_count_bounded(p: spec_fn(V2) -> bool, range: int, iso: bool, fuel: nat)
    requires
        1 <= range <= 0x7fff_ffff,
    ensures
        fov_outputs(p, range, iso, fov_init(p), fuel).to_set().finite(),
        fov_outputs(p, range, iso, fov_init(p), fuel).to_set().len() <= 1 + 3 * range * (range
            + 1),
{
    broadcast use vstd::seq_lib::seq_to_set_is_finite;

    lemma_init_state_wf(p, range);
    lemma_outputs_in_disc(p, range, iso, fov_init(p), fuel);
    let outs = fov_outputs(p, range, iso, fov_init(p), fuel);
    lemma_disc_cardinality(range);
    assert(outs.to_set().subset_of(spec_disc(range))) by {
        assert forall|c: V2| outs.to_set().contains(c) implies spec_disc(range).contains(c) by {
            let i = choose|i: int| 0 <= i < outs.len() && outs[i] == c;
            assert(spec_hex_dist(outs[i]) <= max_val(range, 1));
        }
    }
    vstd::set_lib::lemma_len_subset(outs.to_set(), spec_disc(range));
}

} // verus!
