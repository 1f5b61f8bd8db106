use std::collections::HashSet;

use phage::fov::HexFov;
use phage::geom::HexGeom;
use phage::geom::V2;

fn collect<F: Fn(V2) -> bool>(mut fov: HexFov<F>) -> Vec<(i32, i32)> {
    let mut out: Vec<(i32, i32)> = Vec::new();
    while let Some(v) = fov.next() {
        out.push((v.0, v.1));
        assert!(out.len() < 100_000, "traversal did not stay finite");
    }
    out
}

fn disc(r: i32) -> HashSet<(i32, i32)> {
    let mut set = HashSet::new();
    for x in -r..=r {
        for y in -r..=r {
            if V2(x, y).hex_dist() <= r {
                set.insert((x, y));
            }
        }
    }
    set
}

#[test]
fn transparent_field_yields_disc() {
    for r in 1..=4u32 {
        let out = collect(HexFov::new(|_c: V2| false, r));
        assert_eq!(out[0], (0, 0), "origin must come first");
        let seen: HashSet<(i32, i32)> = out.iter().cloned().collect();
        assert_eq!(seen, disc(r as i32));
    }
}

#[test]
fn opaque_ring_blocks_expansion() {
    let out = collect(HexFov::new(|c: V2| c.hex_dist() == 1, 5));
    let seen: HashSet<(i32, i32)> = out.iter().cloned().collect();
    assert_eq!(seen, disc(1));
    assert_eq!(out[0], (0, 0));
}

#[test]
fn determinism() {
    let pred = |c: V2| (c.0 * 7 + c.1 * 13).rem_euclid(3) == 0;
    let a = collect(HexFov::new(pred, 6));
    let b = collect(HexFov::new(pred, 6));
    assert_eq!(a, b);
}

#[test]
fn corner_extension_gating() {
    // Two adjacent ring-1 cells forming a concave diagonal notch, with the
    // wall corner outside the notch opaque as well.
    let pred = |c: V2| {
        let p = (c.0, c.1);
        p == (0, -1) || p == (1, 0) || p == (1, -1)
    };
    let with_ext = collect(HexFov::new(pred, 2).fake_isometric());
    let without = collect(HexFov::new(pred, 2));
    assert_eq!(with_ext.iter().filter(|&&p| p == (1, -1)).count(), 1);
    assert_eq!(without.iter().filter(|&&p| p == (1, -1)).count(), 0);
}

#[test]
fn corner_extension_respects_range() {
    // At range 1 the ring of the notch is not below the range, so the
    // corner rule does not fire.
    let pred = |c: V2| {
        let p = (c.0, c.1);
        p == (0, -1) || p == (1, 0) || p == (1, -1)
    };
    let out = collect(HexFov::new(pred, 1).fake_isometric());
    assert_eq!(out.iter().filter(|&&p| p == (1, -1)).count(), 0);
}

#[test]
fn distinct_count_bound() {
    for r in 1..=5i32 {
        let out = collect(HexFov::new(|_c: V2| false, r as u32));
        let seen: HashSet<(i32, i32)> = out.iter().cloned().collect();
        assert_eq!(seen.len() as i32, 1 + 3 * r * (r + 1));
    }
    // An arbitrary opacity pattern also stays within the bound.
    let r = 6i32;
    let out = collect(HexFov::new(|c: V2| (c.0 + 2 * c.1).rem_euclid(5) == 0, r as u32));
    let seen: HashSet<(i32, i32)> = out.iter().cloned().collect();
    assert!(seen.len() as i32 <= 1 + 3 * r * (r + 1));
}

#[test]
fn walls_are_seen_but_block() {
    // A wall across the east side: cells behind it stay unseen.
    let out = collect(HexFov::new(|c: V2| c.0 == 2, 4));
    let seen: HashSet<(i32, i32)> = out.iter().cloned().collect();
    // The wall cells in the arc are visible themselves.
    assert!(seen.contains(&(2, 0)));
    // Cells straight behind the wall are not.
    assert!(!seen.contains(&(4, 0)));
    assert!(!seen.contains(&(3, 0)));
}

#[test]
fn zero_range_still_emits_first_ring() {
    // The initial sector covers the whole first ring regardless of range;
    // only expansion beyond it is gated.
    let out = collect(HexFov::new(|_c: V2| false, 0));
    assert_eq!(out[0], (0, 0));
    let seen: HashSet<(i32, i32)> = out.iter().cloned().collect();
    assert_eq!(seen, disc(1));
}
