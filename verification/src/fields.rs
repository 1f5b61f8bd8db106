//! Traversals of uniform fields.
//!
//! Two landmark cases of the field of view have closed-form runs: a fully
//! transparent field yields exactly the cells within range, and a fully
//! opaque first ring seals the view at distance one.  Both runs pass
//! through states with a single sector scanning one whole ring, described
//! and stepped here.

use vstd::arithmetic::div_mod::lemma_mod_bound;
use vstd::prelude::*;

use crate::fov::fov_init;
use crate::geom::spec_hex_dist;
use crate::ring::lemma_ring_cell_dist;
use crate::ring::spec_disc;
use crate::trace::fov_done_within;
use crate::trace::fov_outputs;

use crate::fov::FovState;
use crate::fov::SectorModel;
use crate::fov::StepResult;
use crate::fov::corner_applies;
use crate::fov::fov_step;
use crate::geom::V2;
use crate::polar::PolarModel;
use crate::polar::pm_end_index;
use crate::polar::pm_next;
use crate::polar::pm_to_v2;
use crate::polar::pm_winding;
use crate::polar::ring_cell;

verus! {

/// The start-of-ring polar point of ring `k`: angle zero.
pub open spec fn ring_start(k: int) -> PolarModel {
    PolarModel { num: 0, den: 1, radius: k }
}

/// The end-of-ring polar point of ring `k`: six windings per unit radius.
pub open spec fn ring_end(k: int) -> PolarModel {
    PolarModel { num: 6, den: 1, radius: k }
}

/// The scan position of ring `k` after `j` cells were emitted: the start
/// for `j == 0`, and the representative angle of cell `j` after that.
pub open spec fn scan_point(k: int, j: int) -> PolarModel {
    if j == 0 {
        ring_start(k)
    } else {
        PolarModel { num: 2 * j - 1, den: 2 * k, radius: k }
    }
}

/// A traversal state scanning the whole of ring `k` as one sector of
/// opacity `op`, `j` cells in, with nothing else pending.
pub open spec fn uniform_state(k: int, j: int, op: bool) -> FovState {
    FovState {
        side: Seq::empty(),
        stack: seq![
            SectorModel {
                begin: ring_start(k),
                pt: scan_point(k, j),
                end: ring_end(k),
                group_opaque: op,
            },
        ],
    }
}

/// The winding index of each scan position is the count of cells emitted,
/// and a whole ring's exclusive end index is one past its last cell.
pub proof fn lemma_scan_indices(k: int, j: int)
    requires
        k >= 1,
        j >= 0,
    ensures
        pm_winding(scan_point(k, j)) == j,
        pm_end_index(ring_end(k)) == 6 * k + 1,
        j >= 1 ==> pm_next(scan_point(k, j - 1)) == scan_point(k, j),
{
    let q = scan_point(k, j);
    if j == 0 {
        assert((2 * 0int * k + 1) / (2int * 1) == 0) by (nonlinear_arith)
            requires
                k >= 1,
        {}
        assert(pm_winding(q) == 0);
    } else {
        assert((2 * (2 * j - 1) * k + 2 * k) / (2 * (2 * k)) == j) by (nonlinear_arith)
            requires
                k >= 1,
                j >= 1,
        {}
        assert(pm_winding(q) == j);
    }
    assert((2 * 6 * k + 1 + 2 * 1 - 1) / (2int * 1) == 6 * k + 1) by (nonlinear_arith)
        requires
            k >= 1,
    {}
    assert(pm_end_index(ring_end(k)) == 6 * k + 1);
    if j >= 1 {
        lemma_scan_indices_prev(k, j);
    }
}

/// Helper: the next point after scan position `j - 1` is scan position `j`.
proof fn lemma_scan_indices_prev(k: int, j: int)
    requires
        k >= 1,
        j >= 1,
    ensures
        pm_winding(scan_point(k, j - 1)) == j - 1,
        pm_next(scan_point(k, j - 1)) == scan_point(k, j),
    decreases j,
{
    let q = scan_point(k, j - 1);
    if j - 1 == 0 {
        assert((2 * 0int * k + 1) / (2int * 1) == 0) by (nonlinear_arith)
            requires
                k >= 1,
        {}
        assert(pm_winding(q) == 0);
    } else {
        assert((2 * (2 * (j - 1) - 1) * k + 2 * k) / (2 * (2 * k)) == j - 1) by (nonlinear_arith)
            requires
                k >= 1,
                j >= 2,
        {}
        assert(pm_winding(q) == j - 1);
    }
    assert(pm_next(q) == scan_point(k, j));
}

/// Stepping a uniform scan whose current cell agrees with the sector's
/// opacity emits that cell and moves one cell on.  The acute-corner rule
/// stays quiet when either the corner setting or the sector's opacity is
/// off.
pub proof fn lemma_uniform_scan_step(
    p: spec_fn(V2) -> bool,
    range: int,
    iso: bool,
    k: int,
    j: int,
    op: bool,
)
    requires
        1 <= k <= 0x7fff_ffff,
        0 <= j <= 6 * k,
        op == p(ring_cell(k, j % (6 * k))),
        !(iso && op),
    ensures
        fov_step(p, range, iso, uniform_state(k, j, op)) == (StepResult::Emit {
            after: uniform_state(k, j + 1, op),
            out: ring_cell(k, j % (6 * k)),
        }),
{
    lemma_scan_indices(k, j);
    let st = uniform_state(k, j, op);
    let s = st.stack.last();
    assert(pm_winding(s.pt) == j);
    assert(pm_end_index(s.end) == 6 * k + 1);
    assert(crate::polar::pm_is_below(s.pt, s.end));
    assert(pm_to_v2(s.pt) == ring_cell(k, j % (6 * k)));
    assert(!(iso && corner_applies(p, range, s)));
    lemma_scan_indices(k, j + 1);
    let res = fov_step(p, range, iso, st);
    assert(res is Emit);
    assert(res->after.stack =~= uniform_state(k, j + 1, op).stack);
    assert(res->after.side =~= uniform_state(k, j + 1, op).side);
    assert(res->after == uniform_state(k, j + 1, op));
}

/// Stepping a uniform scan that has passed its ring's last cell closes the
/// sector: an opaque or full-range ring leaves nothing behind, a
/// transparent ring within range opens the next ring whole.
pub proof fn lemma_uniform_scan_end(
    p: spec_fn(V2) -> bool,
    range: int,
    iso: bool,
    k: int,
    op: bool,
)
    requires
        1 <= k <= 0x7fff_ffff,
    ensures
        op || k >= range ==> fov_step(p, range, iso, uniform_state(k, 6 * k + 1, op))
            == (StepResult::Continue {
            next_state: FovState { side: Seq::empty(), stack: Seq::empty() },
        }),
        !op && k < range ==> fov_step(p, range, iso, uniform_state(k, 6 * k + 1, op))
            == (StepResult::Continue {
            next_state: uniform_state(k + 1, 0, p(ring_cell(k + 1, 0))),
        }),
{
    lemma_scan_indices(k, 6 * k + 1);
    let st = uniform_state(k, 6 * k + 1, op);
    let s = st.stack.last();
    assert(!crate::polar::pm_is_below(s.pt, s.end));
    if op || k >= range {
        let res = fov_step(p, range, iso, st);
        assert(res is Continue);
        assert(res->next_state.stack =~= Seq::<SectorModel>::empty());
        assert(res->next_state == (FovState {
            side: Seq::<V2>::empty(),
            stack: Seq::<SectorModel>::empty(),
        }));
    } else {
        lemma_scan_indices(k + 1, 0);
        let res = fov_step(p, range, iso, st);
        assert(res is Continue);
        let grown = crate::fov::expand_sector(p, s, s.end);
        assert(grown.begin == ring_start(k + 1));
        assert(grown.end == ring_end(k + 1));
        assert(pm_to_v2(ring_start(k + 1)) == ring_cell(k + 1, 0)) by {
            vstd::arithmetic::div_mod::lemma_mod_bound(0, 6 * (k + 1));
            assert(0int % (6 * (k + 1)) == 0) by (nonlinear_arith)
                requires
                    k >= 1,
            {}
        }
        assert(res->next_state.stack =~= uniform_state(k + 1, 0, p(ring_cell(k + 1, 0))).stack);
        assert(res->next_state == uniform_state(k + 1, 0, p(ring_cell(k + 1, 0))));
    }
}

/// Pulling the first value of a fresh traversal emits the origin from the
/// side channel and leaves the whole first ring to scan.
pub proof fn lemma_init_unfold(p: spec_fn(V2) -> bool, range: int, iso: bool)
    ensures
        fov_step(p, range, iso, fov_init(p)) == (StepResult::Emit {
            after: uniform_state(1, 0, p(V2(-1i32, -1i32))),
            out: V2(0i32, 0i32),
        }),
{
    let st = fov_init(p);
    let res = fov_step(p, range, iso, st);
    assert(res is Emit);
    assert(res->out == V2(0i32, 0i32));
    assert(res->after.side =~= Seq::<V2>::empty());
    assert(res->after.stack =~= uniform_state(1, 0, p(V2(-1i32, -1i32))).stack);
    assert(res->after == uniform_state(1, 0, p(V2(-1i32, -1i32))));
}

/// A run across the remainder of an all-opaque ring emits each remaining
/// cell in order, wraps once past the ring's end, and finishes without
/// expanding outward.
proof fn lemma_opaque_scan(p: spec_fn(V2) -> bool, range: int, k: int, j: int, fuel: nat)
    requires
        1 <= k <= 0x7fff_ffff,
        0 <= j <= 6 * k + 1,
        fuel >= 6 * k + 2 - j,
        forall|i: int| 0 <= i < 6 * k ==> p(#[trigger] ring_cell(k, i)),
    ensures
        fov_outputs(p, range, false, uniform_state(k, j, true), fuel) =~= Seq::new(
            (6 * k + 1 - j) as nat,
            |t: int| ring_cell(k, (j + t) % (6 * k)),
        ),
        fov_done_within(p, range, false, uniform_state(k, j, true), fuel),
    decreases 6 * k + 2 - j,
{
    let st = uniform_state(k, j, true);
    let outs = fov_outputs(p, range, false, st, fuel);
    let want = Seq::new((6 * k + 1 - j) as nat, |t: int| ring_cell(k, (j + t) % (6 * k)));
    if j <= 6 * k {
        lemma_mod_bound(j, 6 * k);
        lemma_uniform_scan_step(p, range, false, k, j, true);
        lemma_opaque_scan(p, range, k, j + 1, (fuel - 1) as nat);
        let rest = fov_outputs(p, range, false, uniform_state(k, j + 1, true), (fuel - 1) as nat);
        assert(outs == seq![ring_cell(k, j % (6 * k))] + rest);
        assert forall|t: int| 0 <= t < want.len() implies outs[t] == want[t] by {
            if t > 0 {
                assert(rest[t - 1] == ring_cell(k, (j + 1 + (t - 1)) % (6 * k)));
            }
        }
        assert(outs =~= want);
    } else {
        lemma_uniform_scan_end(p, range, false, k, true);
        let empty_state = FovState { side: Seq::<V2>::empty(), stack: Seq::<SectorModel>::empty() };
        assert(fov_step(p, range, false, empty_state) is Done);
        assert(fov_outputs(p, range, false, empty_state, (fuel - 1) as nat) == Seq::<V2>::empty());
        assert(outs =~= want);
        assert(fov_done_within(p, range, false, empty_state, (fuel - 1) as nat));
    }
}

/// Iterations enough to finish a transparent run from the start of ring
/// `k` out to ring `range`.
pub open spec fn transparent_fuel(k: int, range: int) -> nat
    decreases range - k,
{
    if k < range {
        ((6 * k + 2) as nat + transparent_fuel(k + 1, range)) as nat
    } else {
        (6 * k + 2) as nat
    }
}

/// The cells a transparent run emits from ring `k` outward: each ring's
/// cells in order, wrapping once past each ring's end.
pub open spec fn rings_out(k: int, range: int) -> Seq<V2>
    decreases range - k,
{
    let own = Seq::new((6 * k + 1) as nat, |j: int| ring_cell(k, j % (6 * k)));
    if k < range {
        own + rings_out(k + 1, range)
    } else {
        own
    }
}

/// A transparent run emits ring after ring, each in full, until the range
/// is reached, and then finishes.
proof fn lemma_transparent_scan(p: spec_fn(V2) -> bool, range: int, k: int, j: int, fuel: nat)
    requires
        forall|c: V2| !#[trigger] p(c),
        1 <= k <= range,
        range <= 0x7fff_ffff,
        0 <= j <= 6 * k + 1,
        fuel >= 6 * k + 2 - j + (if k < range {
            transparent_fuel(k + 1, range) as int
        } else {
            0
        }),
    ensures
        fov_outputs(p, range, false, uniform_state(k, j, false), fuel) =~= Seq::new(
            (6 * k + 1 - j) as nat,
            |t: int| ring_cell(k, (j + t) % (6 * k)),
        ) + (if k < range {
            rings_out(k + 1, range)
        } else {
            Seq::<V2>::empty()
        }),
        fov_done_within(p, range, false, uniform_state(k, j, false), fuel),
    decreases range - k, 6 * k + 2 - j,
{
    let st = uniform_state(k, j, false);
    let outs = fov_outputs(p, range, false, st, fuel);
    let own = Seq::new((6 * k + 1 - j) as nat, |t: int| ring_cell(k, (j + t) % (6 * k)));
    let tail = if k < range {
        rings_out(k + 1, range)
    } else {
        Seq::<V2>::empty()
    };
    if j <= 6 * k {
        lemma_mod_bound(j, 6 * k);
        lemma_uniform_scan_step(p, range, false, k, j, false);
        lemma_transparent_scan(p, range, k, j + 1, (fuel - 1) as nat);
        let rest = fov_outputs(p, range, false, uniform_state(k, j + 1, false), (fuel - 1) as nat);
        assert(outs == seq![ring_cell(k, j % (6 * k))] + rest);
        assert forall|t: int| 0 <= t < own.len() + tail.len() implies outs[t] == (own + tail)[t] by {
            let prev = Seq::new((6 * k - j) as nat, |t2: int| ring_cell(k, (j + 1 + t2) % (6 * k)));
            if t > 0 && t < own.len() {
                assert(rest[t - 1] == (prev + tail)[t - 1]);
                assert((prev + tail)[t - 1] == prev[t - 1]);
                assert(prev[t - 1] == ring_cell(k, (j + 1 + (t - 1)) % (6 * k)));
            } else if t >= own.len() {
                assert(rest[t - 1] == (prev + tail)[t - 1]);
                assert((prev + tail)[t - 1] == tail[t - 1 - prev.len()]);
            }
        }
        assert(outs =~= own + tail);
    } else {
        lemma_uniform_scan_end(p, range, false, k, false);
        if k < range {
            assert(!p(ring_cell(k + 1, 0)));
            lemma_transparent_scan(p, range, k + 1, 0, (fuel - 1) as nat);
            let rest = fov_outputs(
                p,
                range,
                false,
                uniform_state(k + 1, 0, false),
                (fuel - 1) as nat,
            );
            assert(outs == rest);
            let own2 = Seq::new(
                (6 * (k + 1) + 1) as nat,
                |t: int| ring_cell(k + 1, (0 + t) % (6 * (k + 1))),
            );
            let tail2 = if k + 1 < range {
                rings_out(k + 2, range)
            } else {
                Seq::<V2>::empty()
            };
            assert(rest =~= own2 + tail2);
            assert(rings_out(k + 1, range) =~= own2 + tail2);
            assert(outs =~= own + tail);
        } else {
            let empty_state = FovState {
                side: Seq::<V2>::empty(),
                stack: Seq::<SectorModel>::empty(),
            };
            assert(fov_step(p, range, false, empty_state) is Done);
            assert(fov_outputs(p, range, false, empty_state, (fuel - 1) as nat)
                == Seq::<V2>::empty());
            assert(outs =~= own + tail);
            assert(fov_done_within(p, range, false, empty_state, (fuel - 1) as nat));
        }
    }
}

/// Every coordinate a transparent run from ring `k` emits lies between
/// distance `k` and the range, and every such coordinate is emitted.
proof fn lemma_rings_out_membership(k: int, range: int)
    requires
        1 <= k <= range,
        range <= 0x7fff_ffff,
    ensures
        forall|c: V2| #[trigger] rings_out(k, range).contains(c) <==> k <= spec_hex_dist(c)
            <= range,
    decreases range - k,
{
    let own = Seq::new((6 * k + 1) as nat, |j: int| ring_cell(k, j % (6 * k)));
    if k < range {
        lemma_rings_out_membership(k + 1, range);
    }
    assert forall|c: V2| #[trigger] rings_out(k, range).contains(c) <==> k <= spec_hex_dist(c)
        <= range by {
        if rings_out(k, range).contains(c) {
            let i = choose|i: int| 0 <= i < rings_out(k, range).len() && rings_out(k, range)[i]
                == c;
            if i < own.len() {
                lemma_mod_bound(i, 6 * k);
                lemma_ring_cell_dist(k, i % (6 * k));
            } else {
                assert(rings_out(k + 1, range)[i - own.len()] == c);
                assert(rings_out(k + 1, range).contains(c));
            }
        }
        if k <= spec_hex_dist(c) <= range {
            if spec_hex_dist(c) == k {
                crate::ring::lemma_ring_cell_complete(c);
                let i = crate::ring::ring_index_of(c);
                assert(i % (6 * k) == i) by (nonlinear_arith)
                    requires
                        0 <= i < 6 * k,
                {}
                assert(own[i] == c);
                assert(rings_out(k, range)[i] == c);
            } else {
                assert(rings_out(k + 1, range).contains(c));
                let i = choose|i: int|
                    0 <= i < rings_out(k + 1, range).len() && #[trigger] rings_out(
                        k + 1,
                        range,
                    )[i] == c;
                assert(rings_out(k, range)[own.len() + i] == c);
            }
        }
    }
}

/// Law: with a predicate that never blocks sight, a traversal of range
/// `r >= 1` yields exactly the cells within hex distance `r`, beginning
/// with the origin, and finishes within its fixed budget of iterations.
///
/// The emitted sequence is pinned exactly by `lemma_transparent_scan`: the
/// scan of each full ring runs one winding past the ring's end, so each
/// ring's first cell is revisited once as the scan wraps; every other cell
/// appears exactly once.
pub proof fn lemma_transparent_field(p: spec_fn(V2) -> bool, range: int)
    requires
        1 <= range <= 0x7fff_ffff,
        forall|c: V2| !#[trigger] p(c),
    ensures
        fov_done_within(p, range, false, fov_init(p), 1 + transparent_fuel(1, range)),
        fov_outputs(p, range, false, fov_init(p), 1 + transparent_fuel(1, range)).to_set()
            == spec_disc(range),
        fov_outputs(p, range, false, fov_init(p), 1 + transparent_fuel(1, range))[0] == V2(
            0i32,
            0i32,
        ),
{
    let fuel = 1 + transparent_fuel(1, range);
    lemma_init_unfold(p, range, false);
    lemma_transparent_scan(p, range, 1, 0, (fuel - 1) as nat);
    let outs = fov_outputs(p, range, false, fov_init(p), fuel);
    let body = fov_outputs(p, range, false, uniform_state(1, 0, false), (fuel - 1) as nat);
    assert(outs == seq![V2(0i32, 0i32)] + body);
    let own = Seq::new(7nat, |t: int| ring_cell(1, (0 + t) % 6));
    let tail = if 1 < range {
        rings_out(2, range)
    } else {
        Seq::<V2>::empty()
    };
    assert(body =~= own + tail);
    assert(body =~= rings_out(1, range)) by {
        let whole = Seq::new(7nat, |j: int| ring_cell(1, j % 6));
        assert(own =~= whole);
        if 1 < range {
            assert(rings_out(1, range) == whole + rings_out(2, range));
        } else {
            assert(rings_out(1, range) == whole);
            assert(own + tail =~= whole);
        }
    }
    lemma_rings_out_membership(1, range);
    assert(outs.to_set() =~= spec_disc(range)) by {
        assert forall|c: V2| outs.to_set().contains(c) implies spec_hex_dist(c) <= range by {
            let i = choose|i: int| 0 <= i < outs.len() && outs[i] == c;
            crate::ring::lemma_dist_zero(c);
            if i > 0 {
                assert(body[i - 1] == c);
                assert(rings_out(1, range).contains(c));
            }
        }
        assert forall|c: V2| spec_hex_dist(c) <= range implies outs.to_set().contains(c) by {
            crate::ring::lemma_dist_zero(c);
            if spec_hex_dist(c) == 0 {
                assert(outs[0] == c);
            } else {
                assert(rings_out(1, range).contains(c));
                let i = choose|i: int|
                    0 <= i < rings_out(1, range).len() && #[trigger] rings_out(1, range)[i] == c;
                assert(body[i] == c);
                assert(outs[1 + i] == c);
            }
        }
    }
}

/// Law: with a predicate opaque exactly on the first ring and transparent
/// elsewhere, the traversal yields exactly the origin and the six cells at
/// hex distance one, whatever the range: nothing at distance two or more is
/// produced.  The run begins at the origin and finishes within a fixed
/// number of iterations.
pub proof fn lemma_opaque_ring_blocks(p: spec_fn(V2) -> bool, range: int)
    requires
        0 <= range <= 0x7fff_ffff,
        forall|c: V2| #[trigger] p(c) <==> spec_hex_dist(c) == 1,
    ensures
        fov_done_within(p, range, false, fov_init(p), 10),
        fov_outputs(p, range, false, fov_init(p), 10).to_set() == spec_disc(1),
        fov_outputs(p, range, false, fov_init(p), 10)[0] == V2(0i32, 0i32),
{
    assert forall|i: int| 0 <= i < 6 implies p(#[trigger] ring_cell(1, i)) by {
        lemma_ring_cell_dist(1, i);
    }
    assert(spec_hex_dist(V2(-1i32, -1i32)) == 1);
    lemma_init_unfold(p, range, false);
    lemma_opaque_scan(p, range, 1, 0, 9);
    let outs = fov_outputs(p, range, false, fov_init(p), 10);
    let cells = Seq::new(7nat, |t: int| ring_cell(1, (0 + t) % 6));
    assert(outs =~= seq![V2(0i32, 0i32)] + cells);
    assert(outs.to_set() =~= spec_disc(1)) by {
        assert forall|c: V2| outs.to_set().contains(c) implies spec_hex_dist(c) <= 1 by {
            let i = choose|i: int| 0 <= i < outs.len() && outs[i] == c;
            if i > 0 {
                lemma_mod_bound(i - 1, 6);
                lemma_ring_cell_dist(1, (i - 1) % 6);
            }
        }
        assert forall|c: V2| spec_hex_dist(c) <= 1 implies outs.to_set().contains(c) by {
            crate::ring::lemma_dist_zero(c);
            if spec_hex_dist(c) == 0 {
                assert(outs[0] == c);
            } else {
                crate::ring::lemma_ring_cell_complete(c);
                let i = crate::ring::ring_index_of(c);
                assert(i % 6 == i) by (nonlinear_arith)
                    requires
                        0 <= i < 6,
                {}
                assert(outs[1 + i] == c);
            }
        }
    }
}

} // verus!
