//! The six hex directions and their vector mappings.

use vstd::prelude::*;

use crate::geom::V2;

verus! {

/// Hex grid directions.
#[derive(Clone, Copy, PartialEq, Eq, Structural, Debug)]
pub enum Dir6 {
    North,
    NorthEast,
    SouthEast,
    South,
    SouthWest,
    NorthWest,
}

/// Index of a direction in the standard order, 0 through 5.
pub open spec fn dir_index(d: Dir6) -> int {
    match d {
        Dir6::North => 0,
        Dir6::NorthEast => 1,
        Dir6::SouthEast => 2,
        Dir6::South => 3,
        Dir6::SouthWest => 4,
        Dir6::NorthWest => 5,
    }
}

/// The direction with the given index reduced by floor-modulo 6.
pub open spec fn spec_from_int(i: int) -> Dir6 {
    let k = i % 6;
    if k == 0 {
        Dir6::North
    } else if k == 1 {
        Dir6::NorthEast
    } else if k == 2 {
        Dir6::SouthEast
    } else if k == 3 {
        Dir6::South
    } else if k == 4 {
        Dir6::SouthWest
    } else {
        Dir6::NorthWest
    }
}

/// The unit offset vector of a direction.
pub open spec fn spec_to_v2(d: Dir6) -> V2 {
    match d {
        Dir6::North => V2(-1i32, -1i32),
        Dir6::NorthEast => V2(0i32, -1i32),
        Dir6::SouthEast => V2(1i32, 0i32),
        Dir6::South => V2(1i32, 1i32),
        Dir6::SouthWest => V2(0i32, 1i32),
        Dir6::NorthWest => V2(-1i32, 0i32),
    }
}

/// Hexadecant of a point of the standard plane within one quadrant image.
///
/// For `px > 0 || (px == 0 && py == 0)` and `py >= 0`, gives which of the
/// first four angular sixteenths `[k*pi/8, (k+1)*pi/8)` holds the point's
/// polar angle.  The odd boundaries have irrational tangents `sqrt(2) - 1`
/// and `sqrt(2) + 1`, so the tests square the linear forms; no nonzero
/// integer point lies exactly on those rays.
pub open spec fn quadrant_hexadecant(px: int, py: int) -> int {
    if (px + py) * (px + py) < 2 * (px * px) {
        0
    } else if py < px {
        1
    } else if (px + py) * (px + py) > 2 * (py * py) {
        2
    } else {
        3
    }
}

/// Hexadecant of a grid vector: which of the sixteen equal angular slices of
/// the full circle holds the vector's direction.
///
/// Slices are numbered from the ray of grid vector `(0, -1)` (slice 0 starts
/// there) turning toward `(1, 0)`, matching an angle of `atan2(x, -y)`
/// normalised to `[0, 2*pi)` and divided by `pi/8`.  In the standard plane
/// this is the angle of the point `(-y, x)` from the positive axis, so the
/// four quadrants are handled by rotating into the first one.  The zero
/// vector counts as slice 0.
pub open spec fn spec_hexadecant(x: int, y: int) -> int {
    let px = -y;
    let py = x;
    if px == 0 && py == 0 {
        0
    } else if px > 0 && py >= 0 {
        quadrant_hexadecant(px, py)
    } else if px <= 0 && py > 0 {
        4 + quadrant_hexadecant(py, -px)
    } else if px < 0 && py <= 0 {
        8 + quadrant_hexadecant(-px, -py)
    } else {
        12 + quadrant_hexadecant(-py, px)
    }
}

/// The direction whose own slices contain the given hexadecant: slices are
/// grouped 13-14, 15-0-1, 2-4, 5-6, 7-9 and 10-12, each group centred on the
/// ray of one direction's unit vector.
pub open spec fn dir_of_hexadecant(h: int) -> Dir6 {
    if h == 13 || h == 14 {
        Dir6::North
    } else if h == 15 || h == 0 || h == 1 {
        Dir6::NorthEast
    } else if 2 <= h <= 4 {
        Dir6::SouthEast
    } else if h == 5 || h == 6 {
        Dir6::South
    } else if 7 <= h <= 9 {
        Dir6::SouthWest
    } else {
        Dir6::NorthWest
    }
}

/// The closest hex direction of an arbitrary grid vector.
pub open spec fn spec_from_v2(v: V2) -> Dir6 {
    dir_of_hexadecant(spec_hexadecant(v.0 as int, v.1 as int))
}

impl Dir6 {
    /// Convert a vector into the closest hex direction.
    ///
    /// The plane is cut into sixteen equal angular slices around the origin;
    /// the vector is assigned its slice exactly, with integer arithmetic, and
    /// the slice picks the hex direction whose unit vector lies nearest.
    pub fn from_v2(v: V2) -> (d: Dir6)
        ensures
            d == spec_from_v2(v),
    {
        let px: i64 = -(v.1 as i64);
        let py: i64 = v.0 as i64;
        let h: i32 = if px == 0 && py == 0 {
            0
        } else if px > 0 && py >= 0 {
            Dir6::quadrant_part(px, py)
        } else if px <= 0 && py > 0 {
            4 + Dir6::quadrant_part(py, -px)
        } else if px < 0 && py <= 0 {
            8 + Dir6::quadrant_part(-px, -py)
        } else {
            12 + Dir6::quadrant_part(-py, px)
        };
        let b: i32 = if h == 13 || h == 14 {
            0
        } else if h == 15 || h == 0 || h == 1 {
            1
        } else if 2 <= h && h <= 4 {
            2
        } else if h == 5 || h == 6 {
            3
        } else if 7 <= h && h <= 9 {
            4
        } else {
            5
        };
        Dir6::from_int(b)
    }

    /// One quadrant's worth of the hexadecant computation.
    fn quadrant_part(px: i64, py: i64) -> (h: i32)
        requires
            -0x8000_0000 <= px <= 0x8000_0000,
            -0x8000_0000 <= py <= 0x8000_0000,
        ensures
            h == quadrant_hexadecant(px as int, py as int),
    {
        let s: i128 = (px as i128) + (py as i128);
        let sq: i128 = Dir6::square(s);
        let px2: i128 = Dir6::square(px as i128);
        let py2: i128 = Dir6::square(py as i128);
        proof {
            assert(sq == (px as int + py as int) * (px as int + py as int));
            assert(px2 == (px as int) * (px as int));
            assert(py2 == (py as int) * (py as int));
        }
        if sq < 2 * px2 {
            0
        } else if py < px {
            1
        } else if sq > 2 * py2 {
            2
        } else {
            3
        }
    }

    /// A value times itself, on magnitudes far below the i128 range.
    fn square(v: i128) -> (r: i128)
        requires
            -0x1_0000_0000_0000 <= v <= 0x1_0000_0000_0000,
        ensures
            r == v * v,
            0 <= r <= 0x1_0000_0000_0000_0000_0000_0000,
    {
        proof {
            assert(0 <= v * v <= 0x1_0000_0000_0000_0000_0000_0000) by (nonlinear_arith)
                requires
                    -0x1_0000_0000_0000 <= v <= 0x1_0000_0000_0000,
            {}
        }
        v * v
    }

    /// Convert an integer to a hex dir using modular arithmetic.
    pub fn from_int(i: i32) -> (d: Dir6)
        ensures
            d == spec_from_int(i as int),
    {
        let k: i32 = ((i % 6) + 6) % 6;
        if k == 0 {
            Dir6::North
        } else if k == 1 {
            Dir6::NorthEast
        } else if k == 2 {
            Dir6::SouthEast
        } else if k == 3 {
            Dir6::South
        } else if k == 4 {
            Dir6::SouthWest
        } else {
            Dir6::NorthWest
        }
    }

    /// Convert a hex dir into the corresponding unit vector.
    pub fn to_v2(&self) -> (v: V2)
        ensures
            v == spec_to_v2(*self),
    {
        match *self {
            Dir6::North => V2(-1, -1),
            Dir6::NorthEast => V2(0, -1),
            Dir6::SouthEast => V2(1, 0),
            Dir6::South => V2(1, 1),
            Dir6::SouthWest => V2(0, 1),
            Dir6::NorthWest => V2(-1, 0),
        }
    }

    /// The six hex dirs in the standard order.
    pub fn iter() -> (dirs: Vec<Dir6>)
        ensures
            dirs@.len() == 6,
            forall|i: int| 0 <= i < 6 ==> dirs@[i] == spec_from_int(i),
    {
        let mut dirs: Vec<Dir6> = Vec::new();
        dirs.push(Dir6::North);
        dirs.push(Dir6::NorthEast);
        dirs.push(Dir6::SouthEast);
        dirs.push(Dir6::South);
        dirs.push(Dir6::SouthWest);
        dirs.push(Dir6::NorthWest);
        dirs
    }

    /// Turn this direction `n` steps clockwise in the standard order.
    pub fn add(self, n: i32) -> (d: Dir6)
        ensures
            d == spec_from_int(dir_index(self) + n),
    {
        let idx: i32 = match self {
            Dir6::North => 0,
            Dir6::NorthEast => 1,
            Dir6::SouthEast => 2,
            Dir6::South => 3,
            Dir6::SouthWest => 4,
            Dir6::NorthWest => 5,
        };
        Dir6::from_int(idx + (n % 6))
    }

    /// Turn this direction `n` steps counter-clockwise in the standard order.
    pub fn sub(self, n: i32) -> (d: Dir6)
        ensures
            d == spec_from_int(dir_index(self) - n),
    {
        let idx: i32 = match self {
            Dir6::North => 0,
            Dir6::NorthEast => 1,
            Dir6::SouthEast => 2,
            Dir6::South => 3,
            Dir6::SouthWest => 4,
            Dir6::NorthWest => 5,
        };
        Dir6::from_int(idx - (n % 6))
    }
}

/// Law: converting a direction's unit vector back to a direction returns the
/// direction itself.
pub proof fn lemma_dir6_roundtrip(d: Dir6)
    ensures
        spec_from_v2(spec_to_v2(d)) == d,
{
    match d {
        Dir6::North => assert(spec_from_v2(spec_to_v2(Dir6::North)) == Dir6::North),
        Dir6::NorthEast => assert(spec_from_v2(spec_to_v2(Dir6::NorthEast)) == Dir6::NorthEast),
        Dir6::SouthEast => assert(spec_from_v2(spec_to_v2(Dir6::SouthEast)) == Dir6::SouthEast),
        Dir6::South => assert(spec_from_v2(spec_to_v2(Dir6::South)) == Dir6::South),
        Dir6::SouthWest => assert(spec_from_v2(spec_to_v2(Dir6::SouthWest)) == Dir6::SouthWest),
        Dir6::NorthWest => assert(spec_from_v2(spec_to_v2(Dir6::NorthWest)) == Dir6::NorthWest),
    }
}

/// Law: converting the negation of a direction's unit vector gives the
/// opposite direction, three steps around the circle.
pub proof fn lemma_dir6_opposite(d: Dir6)
    ensures
        spec_from_v2(V2((-spec_to_v2(d).0) as i32, (-spec_to_v2(d).1) as i32)) == spec_from_int(
            dir_index(d) + 3,
        ),
{
    match d {
        Dir6::North => assert(spec_from_v2(V2(1i32, 1i32)) == Dir6::South),
        Dir6::NorthEast => assert(spec_from_v2(V2(0i32, 1i32)) == Dir6::SouthWest),
        Dir6::SouthEast => assert(spec_from_v2(V2(-1i32, 0i32)) == Dir6::NorthWest),
        Dir6::South => assert(spec_from_v2(V2(-1i32, -1i32)) == Dir6::North),
        Dir6::SouthWest => assert(spec_from_v2(V2(0i32, -1i32)) == Dir6::NorthEast),
        Dir6::NorthWest => assert(spec_from_v2(V2(1i32, 0i32)) == Dir6::SouthEast),
    }
}

/// Law: the direction of a vector is kept under scaling its unit vector by 3
/// and under adding one neighbouring direction's unit vector to that.
pub proof fn lemma_dir6_stability(d: Dir6)
    ensures
        spec_from_v2(V2((3 * spec_to_v2(d).0) as i32, (3 * spec_to_v2(d).1) as i32)) == d,
        spec_from_v2(
            V2(
                (3 * spec_to_v2(d).0 + spec_to_v2(spec_from_int(dir_index(d) - 1)).0) as i32,
                (3 * spec_to_v2(d).1 + spec_to_v2(spec_from_int(dir_index(d) - 1)).1) as i32,
            ),
        ) == d,
        spec_from_v2(
            V2(
                (3 * spec_to_v2(d).0 + spec_to_v2(spec_from_int(dir_index(d) + 1)).0) as i32,
                (3 * spec_to_v2(d).1 + spec_to_v2(spec_from_int(dir_index(d) + 1)).1) as i32,
            ),
        ) == d,
{
    match d {
        Dir6::North => {
            assert(spec_from_v2(V2(-3i32, -3i32)) == Dir6::North);
            assert(spec_from_v2(V2(-4i32, -3i32)) == Dir6::North);
            assert(spec_from_v2(V2(-3i32, -4i32)) == Dir6::North);
        },
        Dir6::NorthEast => {
            assert(spec_from_v2(V2(0i32, -3i32)) == Dir6::NorthEast);
            assert(spec_from_v2(V2(-1i32, -4i32)) == Dir6::NorthEast);
            assert(spec_from_v2(V2(1i32, -3i32)) == Dir6::NorthEast);
        },
        Dir6::SouthEast => {
            assert(spec_from_v2(V2(3i32, 0i32)) == Dir6::SouthEast);
            assert(spec_from_v2(V2(3i32, -1i32)) == Dir6::SouthEast);
            assert(spec_from_v2(V2(4i32, 1i32)) == Dir6::SouthEast);
        },
        Dir6::South => {
            assert(spec_from_v2(V2(3i32, 3i32)) == Dir6::South);
            assert(spec_from_v2(V2(4i32, 3i32)) == Dir6::South);
            assert(spec_from_v2(V2(3i32, 4i32)) == Dir6::South);
        },
        Dir6::SouthWest => {
            assert(spec_from_v2(V2(0i32, 3i32)) == Dir6::SouthWest);
            assert(spec_from_v2(V2(1i32, 4i32)) == Dir6::SouthWest);
            assert(spec_from_v2(V2(-1i32, 3i32)) == Dir6::SouthWest);
        },
        Dir6::NorthWest => {
            assert(spec_from_v2(V2(-3i32, 0i32)) == Dir6::NorthWest);
            assert(spec_from_v2(V2(-3i32, 1i32)) == Dir6::NorthWest);
            assert(spec_from_v2(V2(-4i32, -1i32)) == Dir6::NorthWest);
        },
    }
}

} // verus!
