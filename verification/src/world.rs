//! Landscape and area descriptions the game rules consult.

use vstd::prelude::*;

use crate::terrain::TerrainType;

verus! {

/// How much of a cell the player currently perceives.
#[derive(Clone, Copy, PartialEq, Eq, Structural, Debug)]
pub enum FovStatus {
    Seen,
    Remembered,
}

/// Landscape type.  Also serves as a habitat description for entity
/// spawning: a thing carries the biome it may appear in, an area the biome
/// it consists of, and `Anywhere` overlaps them all.
#[derive(Clone, Copy, PartialEq, Eq, Structural, Debug)]
pub enum Biome {
    Overland,
    Base,
    /// For things showing up at any biome.
    Anywhere,
}

/// Whether a thing of biome `a` belongs to the habitat of biome `b`: the
/// two are the same, or either is `Anywhere`.
pub open spec fn spec_biomes_overlap(a: Biome, b: Biome) -> bool {
    a == b || a == Biome::Anywhere || b == Biome::Anywhere
}

impl Biome {
    /// The terrain an area of this biome consists of by default.
    pub fn default_terrain(self) -> (t: TerrainType)
        ensures
            t == TerrainType::Rock,
    {
        match self {
            _ => TerrainType::Rock,
        }
    }
}

/// The kind of area a thing lives in: its biome and its depth.
#[derive(Clone, Copy, PartialEq, Eq, Structural, Debug)]
pub struct AreaSpec {
    pub biome: Biome,
    pub depth: i32,
}

impl AreaSpec {
    pub fn new(biome: Biome, depth: i32) -> (spec: AreaSpec)
        ensures
            spec.biome == biome,
            spec.depth == depth,
    {
        AreaSpec { biome, depth }
    }

    /// Return whether a thing with this spec can be spawned in an
    /// environment with the given spec: its depth must be defined and
    /// reached, and its biome must overlap the environment's.
    pub fn can_hatch_in(&self, environment: &AreaSpec) -> (r: bool)
        ensures
            r == (self.depth >= 0 && self.depth <= environment.depth && spec_biomes_overlap(
                self.biome,
                environment.biome,
            )),
    {
        self.depth >= 0 && self.depth <= environment.depth && (match (self.biome,
        environment.biome) {
            (Biome::Anywhere, _) => true,
            (_, Biome::Anywhere) => true,
            (Biome::Overland, Biome::Overland) => true,
            (Biome::Base, Biome::Base) => true,
            _ => false,
        })
    }
}

} // verus!
