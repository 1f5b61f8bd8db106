use phage::dir::Dir6;
use phage::dir::Dir6::North;
use phage::dir::Dir6::NorthEast;
use phage::dir::Dir6::NorthWest;
use phage::dir::Dir6::South;
use phage::dir::Dir6::SouthEast;
use phage::geom::V2;

#[test]
fn test_dir6() {
    assert_eq!(North, Dir6::from_int(0));
    assert_eq!(NorthWest, Dir6::from_int(-1));
    assert_eq!(NorthWest, Dir6::from_int(5));
    assert_eq!(NorthEast, Dir6::from_int(1));

    assert_eq!(NorthEast, Dir6::from_v2(V2(20, -21)));
    assert_eq!(SouthEast, Dir6::from_v2(V2(20, -10)));
    assert_eq!(North, Dir6::from_v2(V2(-10, -10)));
    assert_eq!(South, Dir6::from_v2(V2(1, 1)));

    for i in 0..6 {
        let d = Dir6::from_int(i);
        let v = d.to_v2();
        let v1 = Dir6::from_int(i - 1).to_v2();
        let v2 = Dir6::from_int(i + 1).to_v2();

        // Test static iter
        assert_eq!(Some(d), Dir6::iter().iter().nth(i as usize).map(|&x| x));

        // Test vector mapping.
        assert_eq!(d, Dir6::from_v2(v));

        // Test opposite dir vector mapping.
        assert_eq!(Dir6::from_int(i + 3), Dir6::from_v2(v.neg()));

        // Test approximation of longer vectors.
        assert_eq!(d, Dir6::from_v2(v.scale(3)));
        assert_eq!(d, Dir6::from_v2(v.scale(3).add(v1)));
        assert_eq!(d, Dir6::from_v2(v.scale(3).add(v2)));
    }
}

#[test]
fn dir6_add_sub() {
    assert_eq!(North.add(1), NorthEast);
    assert_eq!(North.add(7), NorthEast);
    assert_eq!(North.sub(1), NorthWest);
    assert_eq!(SouthEast.add(3), NorthWest);
    assert_eq!(SouthEast.sub(9), NorthWest);
}

#[test]
fn dir6_zero_vector() {
    // The zero vector falls in the first angular slice.
    assert_eq!(NorthEast, Dir6::from_v2(V2(0, 0)));
}
