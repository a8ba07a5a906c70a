//! World configuration: biomes and the settings of the generator that hold
//! no fractional values.

use vstd::prelude::*;

verus! {

#[derive(Debug, Clone, Copy, PartialEq, Eq, Structural)]
pub enum Biome {
    Plains,
    Desert,
    Forest,
    Mountains,
    Ocean,
    Beach,
    Taiga,
    Swamp,
}

impl Biome {
    /// The block at the top of the ground: sand in deserts and on beaches,
    /// gravel in swamps, grass elsewhere.
    pub fn surface_block(&self) -> (id: u8)
        ensures
            id == match *self {
                Biome::Desert | Biome::Beach => 12u8,
                Biome::Swamp => 13u8,
                _ => 2u8,
            },
    {
        match self {
            Biome::Desert | Biome::Beach => 12,  // Sand
            Biome::Swamp => 13,  // Gravel
            _ => 2,  // Grass
        }
    }

    /// The block just below the surface: sand in deserts and on beaches,
    /// gravel in swamps, dirt elsewhere.
    pub fn subsurface_block(&self) -> (id: u8)
        ensures
            id == match *self {
                Biome::Desert | Biome::Beach => 12u8,
                Biome::Swamp => 13u8,
                _ => 3u8,
            },
    {
        match self {
            Biome::Desert | Biome::Beach => 12,  // Sand
            Biome::Swamp => 13,  // Gravel
            _ => 3,  // Dirt
        }
    }

    pub fn has_trees(&self) -> (r: bool)
        ensures
            r == (*self == Biome::Forest || *self == Biome::Taiga || *self == Biome::Swamp),
    {
        matches!(self, Biome::Forest | Biome::Taiga | Biome::Swamp)
    }

    pub fn has_snow(&self) -> (r: bool)
        ensures
            r == (*self == Biome::Mountains || *self == Biome::Taiga),
    {
        matches!(self, Biome::Mountains | Biome::Taiga)
    }

    pub fn is_warm(&self) -> (r: bool)
        ensures
            r == (*self == Biome::Desert || *self == Biome::Plains),
    {
        matches!(self, Biome::Desert | Biome::Plains)
    }
}

#[derive(Debug, Clone, Copy, PartialEq, Eq)]
pub struct WorldSettings {
    pub seed: u32,
}

#[derive(Debug, Clone, Copy, PartialEq, Eq)]
pub struct OresConfig {
    pub enabled: bool,
    pub coal: OreSettings,
    pub iron: OreSettings,
    pub gold: OreSettings,
    pub diamond: OreSettings,
}

#[derive(Debug, Clone, Copy, PartialEq, Eq)]
pub struct OreSettings {
    pub block_id: u8,
    pub vein_size: usize,
    pub attempts_per_chunk: usize,
    pub min_height: usize,
    pub max_height: usize,
}

} // verus!
