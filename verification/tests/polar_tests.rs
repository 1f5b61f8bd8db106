use phage::geom::V2;
use phage::polar::PolarPoint;

#[test]
fn polar_first_ring_cells() {
    // Angle zero on ring one is the north cell.
    assert_eq!(PolarPoint::new(0, 1, 1).to_v2(), V2(-1, -1));
    // One half winding on: cell one of the ring.
    assert_eq!(PolarPoint::new(1, 2, 1).to_v2(), V2(0, -1));
    // A full circle of six windings wraps back to the north cell.
    assert_eq!(PolarPoint::new(6, 1, 1).to_v2(), V2(-1, -1));
}

#[test]
fn polar_next_walks_the_ring() {
    let mut p = PolarPoint::new(0, 1, 2);
    let expected = [
        V2(-2, -2),
        V2(-1, -2),
        V2(0, -2),
        V2(1, -1),
        V2(2, 0),
        V2(2, 1),
        V2(2, 2),
        V2(1, 2),
        V2(0, 2),
        V2(-1, 1),
        V2(-2, 0),
        V2(-2, -1),
        V2(-2, -2),
    ];
    for want in expected {
        assert_eq!(p.to_v2(), want);
        p = p.next();
    }
}

#[test]
fn polar_further_keeps_the_angle() {
    // The start of a ring expands to the start of the next ring.
    let p = PolarPoint::new(0, 1, 1).further();
    assert_eq!(p.radius(), 2);
    assert_eq!(p.to_v2(), V2(-2, -2));
    // A half-winding angle on ring one lands between the cells of ring two.
    let q = PolarPoint::new(1, 2, 1).further();
    assert_eq!(q.radius(), 2);
    assert_eq!(q.to_v2(), V2(-1, -2));
}

#[test]
fn polar_is_below() {
    let begin = PolarPoint::new(0, 1, 1);
    let end = PolarPoint::new(6, 1, 1);
    assert!(begin.is_below(end));
    // Windings zero through six lie below the exclusive end of a full
    // ring-one arc; the seventh does not.
    let mut p = begin;
    for _ in 0..7 {
        assert!(p.is_below(end));
        p = p.next();
    }
    assert!(!p.is_below(end));
}

#[test]
fn polar_side_points() {
    // Cell one of ring one steps diagonally to cell two, so the wedge
    // coordinate outside the ring appears.
    let p = PolarPoint::new(1, 2, 1);
    assert_eq!(p.to_v2(), V2(0, -1));
    assert_eq!(p.next().to_v2(), V2(1, 0));
    assert_eq!(p.side_point(), Some(V2(1, -1)));
    // The start of ring one steps sideways, not diagonally.
    assert_eq!(PolarPoint::new(0, 1, 1).side_point(), None);
    // Going up the left rim of ring one.
    let q = PolarPoint::new(7, 2, 1);
    assert_eq!(q.to_v2(), V2(0, 1));
    assert_eq!(q.next().to_v2(), V2(-1, 0));
    assert_eq!(q.side_point(), Some(V2(-1, 1)));
}
