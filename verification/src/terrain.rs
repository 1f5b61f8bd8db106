//! Terrain kinds and the sight, shot and movement rules they obey.

use vstd::prelude::*;
use vstd::string::StrSliceExecFns;
use vstd::string::StringSliceAdditionalSpecFns;

verus! {

/// The terrain of one map cell.
#[derive(Clone, Copy, PartialEq, Eq, Structural, Debug)]
pub enum TerrainType {
    Void,
    Floor,
    Chasm,
    Water,
    Shallows,
    Magma,
    Downstairs,
    Wall,
    Rock,
    Tree,
    Grass,
    /// Render variant, do not use directly.
    Grass2,
    Stalagmite,
    Portal,
    Door,
    OpenDoor,
    Window,
    Table,
    Fountain,
    Altar,
    Barrel,
    Grave,
    Stone,
    Menhir,
    DeadTree,
    TallGrass,
}

/// The display name of a terrain, as a character sequence.
pub open spec fn spec_terrain_name(t: TerrainType) -> Seq<char> {
    match t {
        TerrainType::Void => "void"@,
        TerrainType::Floor => "floor"@,
        TerrainType::Chasm => "chasm"@,
        TerrainType::Water => "water"@,
        TerrainType::Shallows => "shallows"@,
        TerrainType::Magma => "magma"@,
        TerrainType::Downstairs => "stairs down"@,
        TerrainType::Wall => "wall"@,
        TerrainType::Rock => "rock"@,
        TerrainType::Tree => "tree"@,
        TerrainType::Grass => "grass"@,
        TerrainType::Grass2 => "grass"@,
        TerrainType::Stalagmite => "stalagmite"@,
        TerrainType::Portal => "portal"@,
        TerrainType::Door => "door"@,
        TerrainType::OpenDoor => "open door"@,
        TerrainType::Window => "window"@,
        TerrainType::Table => "table"@,
        TerrainType::Fountain => "fountain"@,
        TerrainType::Altar => "altar"@,
        TerrainType::Barrel => "barrel"@,
        TerrainType::Grave => "grave"@,
        TerrainType::Stone => "stone"@,
        TerrainType::Menhir => "menhir"@,
        TerrainType::DeadTree => "dead tree"@,
        TerrainType::TallGrass => "tall grass"@,
    }
}

/// The terrain a name denotes: the first terrain in the standard order whose
/// name has the given bytes, if any.
pub open spec fn spec_from_name(s: Seq<u8>) -> Option<TerrainType> {
    if s == "void".spec_bytes() {
        Some(TerrainType::Void)
    } else if s == "floor".spec_bytes() {
        Some(TerrainType::Floor)
    } else if s == "chasm".spec_bytes() {
        Some(TerrainType::Chasm)
    } else if s == "water".spec_bytes() {
        Some(TerrainType::Water)
    } else if s == "shallows".spec_bytes() {
        Some(TerrainType::Shallows)
    } else if s == "magma".spec_bytes() {
        Some(TerrainType::Magma)
    } else if s == "stairs down".spec_bytes() {
        Some(TerrainType::Downstairs)
    } else if s == "wall".spec_bytes() {
        Some(TerrainType::Wall)
    } else if s == "rock".spec_bytes() {
        Some(TerrainType::Rock)
    } else if s == "tree".spec_bytes() {
        Some(TerrainType::Tree)
    } else if s == "grass".spec_bytes() {
        Some(TerrainType::Grass)
    } else if s == "stalagmite".spec_bytes() {
        Some(TerrainType::Stalagmite)
    } else if s == "portal".spec_bytes() {
        Some(TerrainType::Portal)
    } else if s == "door".spec_bytes() {
        Some(TerrainType::Door)
    } else if s == "open door".spec_bytes() {
        Some(TerrainType::OpenDoor)
    } else if s == "window".spec_bytes() {
        Some(TerrainType::Window)
    } else if s == "table".spec_bytes() {
        Some(TerrainType::Table)
    } else if s == "fountain".spec_bytes() {
        Some(TerrainType::Fountain)
    } else if s == "altar".spec_bytes() {
        Some(TerrainType::Altar)
    } else if s == "barrel".spec_bytes() {
        Some(TerrainType::Barrel)
    } else if s == "grave".spec_bytes() {
        Some(TerrainType::Grave)
    } else if s == "stone".spec_bytes() {
        Some(TerrainType::Stone)
    } else if s == "menhir".spec_bytes() {
        Some(TerrainType::Menhir)
    } else if s == "dead tree".spec_bytes() {
        Some(TerrainType::DeadTree)
    } else if s == "tall grass".spec_bytes() {
        Some(TerrainType::TallGrass)
    } else {
        None
    }
}

/// Whether two strings consist of the same bytes.
fn str_eq(a: &str, b: &str) -> (r: bool)
    ensures
        r == (a.spec_bytes() == b.spec_bytes()),
{
    let av = a.as_bytes_vec();
    let bv = b.as_bytes_vec();
    if av.len() != bv.len() {
        return false;
    }
    let mut i: usize = 0;
    while i < av.len()
        invariant
            i <= av@.len(),
            av@.len() == bv@.len(),
            av@ == a.spec_bytes(),
            bv@ == b.spec_bytes(),
            forall|j: int| 0 <= j < i ==> av@[j] == bv@[j],
        decreases av@.len() - i,
    {
        if av[i] != bv[i] {
            return false;
        }
        i += 1;
    }
    proof {
        assert(a.spec_bytes() =~= b.spec_bytes());
    }
    true
}

impl TerrainType {
    /// The first terrain in the standard order with the given name, if any.
    pub fn from_name(name: &str) -> (t: Option<TerrainType>)
        ensures
            t == spec_from_name(name.spec_bytes()),
    {
        if str_eq(name, "void") {
            Some(TerrainType::Void)
        } else if str_eq(name, "floor") {
            Some(TerrainType::Floor)
        } else if str_eq(name, "chasm") {
            Some(TerrainType::Chasm)
        } else if str_eq(name, "water") {
            Some(TerrainType::Water)
        } else if str_eq(name, "shallows") {
            Some(TerrainType::Shallows)
        } else if str_eq(name, "magma") {
            Some(TerrainType::Magma)
        } else if str_eq(name, "stairs down") {
            Some(TerrainType::Downstairs)
        } else if str_eq(name, "wall") {
            Some(TerrainType::Wall)
        } else if str_eq(name, "rock") {
            Some(TerrainType::Rock)
        } else if str_eq(name, "tree") {
            Some(TerrainType::Tree)
        } else if str_eq(name, "grass") {
            Some(TerrainType::Grass)
        } else if str_eq(name, "stalagmite") {
            Some(TerrainType::Stalagmite)
        } else if str_eq(name, "portal") {
            Some(TerrainType::Portal)
        } else if str_eq(name, "door") {
            Some(TerrainType::Door)
        } else if str_eq(name, "open door") {
            Some(TerrainType::OpenDoor)
        } else if str_eq(name, "window") {
            Some(TerrainType::Window)
        } else if str_eq(name, "table") {
            Some(TerrainType::Table)
        } else if str_eq(name, "fountain") {
            Some(TerrainType::Fountain)
        } else if str_eq(name, "altar") {
            Some(TerrainType::Altar)
        } else if str_eq(name, "barrel") {
            Some(TerrainType::Barrel)
        } else if str_eq(name, "grave") {
            Some(TerrainType::Grave)
        } else if str_eq(name, "stone") {
            Some(TerrainType::Stone)
        } else if str_eq(name, "menhir") {
            Some(TerrainType::Menhir)
        } else if str_eq(name, "dead tree") {
            Some(TerrainType::DeadTree)
        } else if str_eq(name, "tall grass") {
            Some(TerrainType::TallGrass)
        } else {
            None
        }
    }

    /// Whether the terrain is some kind of wall piece.
    pub fn is_wall(self) -> (r: bool)
        ensures
            r == matches!(self, TerrainType::Wall | TerrainType::Rock | TerrainType::Door
                | TerrainType::OpenDoor | TerrainType::Window),
    {
        match self {
            TerrainType::Wall
            | TerrainType::Rock
            | TerrainType::Door
            | TerrainType::OpenDoor
            | TerrainType::Window => true,
            _ => false,
        }
    }

    /// Whether the terrain blocks lines of sight.
    pub fn blocks_sight(self) -> (r: bool)
        ensures
            r == matches!(self, TerrainType::Wall | TerrainType::Rock | TerrainType::Door
                | TerrainType::Tree | TerrainType::DeadTree | TerrainType::TallGrass),
    {
        match self {
            TerrainType::Wall
            | TerrainType::Rock
            | TerrainType::Door
            | TerrainType::Tree
            | TerrainType::DeadTree
            | TerrainType::TallGrass => true,
            _ => false,
        }
    }

    /// Whether the terrain stops a projectile.
    pub fn blocks_shot(self) -> (r: bool)
        ensures
            r == matches!(self, TerrainType::Wall | TerrainType::Rock | TerrainType::Tree
                | TerrainType::Stalagmite | TerrainType::Door | TerrainType::Menhir
                | TerrainType::DeadTree),
    {
        match self {
            TerrainType::Wall
            | TerrainType::Rock
            | TerrainType::Tree
            | TerrainType::Stalagmite
            | TerrainType::Door
            | TerrainType::Menhir
            | TerrainType::DeadTree => true,
            _ => false,
        }
    }

    /// Whether the terrain cannot be walked on.
    pub fn blocks_walk(self) -> (r: bool)
        ensures
            r == !matches!(self, TerrainType::Floor | TerrainType::Shallows | TerrainType::Grass
                | TerrainType::Grass2 | TerrainType::Downstairs | TerrainType::Portal
                | TerrainType::Door | TerrainType::OpenDoor | TerrainType::TallGrass),
    {
        match self {
            TerrainType::Floor
            | TerrainType::Shallows
            | TerrainType::Grass
            | TerrainType::Grass2
            | TerrainType::Downstairs
            | TerrainType::Portal
            | TerrainType::Door
            | TerrainType::OpenDoor
            | TerrainType::TallGrass => false,
            _ => true,
        }
    }

    /// Whether the terrain leads out of the area.
    pub fn is_exit(self) -> (r: bool)
        ensures
            r == matches!(self, TerrainType::Downstairs),
    {
        match self {
            TerrainType::Downstairs => true,
            _ => false,
        }
    }

    /// Whether things may be spawned on the terrain: walkable ground that is
    /// not an exit.
    pub fn valid_spawn_spot(self) -> (r: bool)
        ensures
            r == (!matches!(self, TerrainType::Floor | TerrainType::Shallows | TerrainType::Grass
                | TerrainType::Grass2 | TerrainType::Downstairs | TerrainType::Portal
                | TerrainType::Door | TerrainType::OpenDoor | TerrainType::TallGrass) == false
                && !matches!(self, TerrainType::Downstairs)),
    {
        !self.blocks_walk() && !self.is_exit()
    }

    /// Whether the terrain is a closed door.
    pub fn is_door(self) -> (r: bool)
        ensures
            r == (self == TerrainType::Door),
    {
        match self {
            TerrainType::Door => true,
            _ => false,
        }
    }

    /// Whether the terrain glows by itself.
    pub fn is_luminous(self) -> (r: bool)
        ensures
            r == (self == TerrainType::Magma),
    {
        match self {
            TerrainType::Magma => true,
            _ => false,
        }
    }

    /// Whether the terrain is a hole one can fall into.
    pub fn is_hole(self) -> (r: bool)
        ensures
            r == (self == TerrainType::Chasm),
    {
        match self {
            TerrainType::Chasm => true,
            _ => false,
        }
    }

    /// The display name of the terrain.
    pub fn name(self) -> (r: &'static str)
        ensures
            r@ == spec_terrain_name(self),
    {
        match self {
            TerrainType::Void => "void",
            TerrainType::Floor => "floor",
            TerrainType::Chasm => "chasm",
            TerrainType::Water => "water",
            TerrainType::Shallows => "shallows",
            TerrainType::Magma => "magma",
            TerrainType::Downstairs => "stairs down",
            TerrainType::Wall => "wall",
            TerrainType::Rock => "rock",
            TerrainType::Tree => "tree",
            TerrainType::Grass => "grass",
            TerrainType::Grass2 => "grass",
            TerrainType::Stalagmite => "stalagmite",
            TerrainType::Portal => "portal",
            TerrainType::Door => "door",
            TerrainType::OpenDoor => "open door",
            TerrainType::Window => "window",
            TerrainType::Table => "table",
            TerrainType::Fountain => "fountain",
            TerrainType::Altar => "altar",
            TerrainType::Barrel => "barrel",
            TerrainType::Grave => "grave",
            TerrainType::Stone => "stone",
            TerrainType::Menhir => "menhir",
            TerrainType::DeadTree => "dead tree",
            TerrainType::TallGrass => "tall grass",
        }
    }
}

} // verus!
