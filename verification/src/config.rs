//! Tunable configuration for the planet and terrain system, and the planet
//! scale presets.

use vstd::prelude::*;

verus! {

/// Radius of the miniature debug planet, in metres.
pub const MINIATURE_PLANET_RADIUS_M: u32 = 36_000;
/// Radius of the Earth-scale planet, in metres.
pub const EARTH_RADIUS_M: u32 = 6_371_000;
/// Planet radius used when nothing selects a preset, in metres.
pub const PLANET_RADIUS_DEFAULT: u32 = MINIATURE_PLANET_RADIUS_M;
/// Deepest quadtree level of the miniature planet.
pub const MAX_QUADTREE_DEPTH: u8 = 12;
/// Deepest quadtree level of the Earth-scale planet.
pub const EARTH_MAX_QUADTREE_DEPTH: u8 = 17;
/// Vertices per chunk edge.
pub const CHUNK_VERT_RES: u32 = 17;
/// Quads per chunk edge (`CHUNK_VERT_RES - 1`).
pub const CHUNK_QUADS_PER_EDGE: u32 = 16;
/// Splits processed per frame.
pub const LOD_SPLIT_BUDGET_PER_FRAME: usize = 48;
/// Active chunks beyond which splitting stops (live terrain is never evicted
/// to satisfy it).
pub const ACTIVE_CHUNK_CAP: usize = 5000;
/// Level of the persistent coarse coverage floor (the six face roots).
pub const MINIMUM_TERRAIN_COVERAGE_LOD: u8 = 0;
/// Simulation ticks per second.
pub const FIXED_TPS: i32 = 30;

/// Explicit planet-scale configurations; the miniature planet is the default.
#[derive(Clone, Copy, Debug, PartialEq, Eq, Structural)]
pub enum PlanetPreset {
    MiniatureDebug,
    EarthScale,
}

impl Default for PlanetPreset {
    fn default() -> (p: Self)
        ensures
            p == PlanetPreset::MiniatureDebug,
    {
        PlanetPreset::MiniatureDebug
    }
}

impl PlanetPreset {
    /// Planet radius of the preset in metres: 36 km for the miniature
    /// planet, Earth's mean radius at Earth scale.
    pub fn radius_m(self) -> (r: u32)
        ensures
            r == match self {
                PlanetPreset::MiniatureDebug => MINIATURE_PLANET_RADIUS_M,
                PlanetPreset::EarthScale => EARTH_RADIUS_M,
            },
    {
        match self {
            PlanetPreset::MiniatureDebug => MINIATURE_PLANET_RADIUS_M,
            PlanetPreset::EarthScale => EARTH_RADIUS_M,
        }
    }

    /// Render distance of the preset in metres: eight planet radii.
    pub fn max_render_distance_m(self) -> (d: u64)
        ensures
            d == 8 * self.radius_m_spec(),
    {
        self.radius_m() as u64 * 8
    }

    /// The radius `radius_m` returns.
    pub open spec fn radius_m_spec(self) -> u32 {
        match self {
            PlanetPreset::MiniatureDebug => MINIATURE_PLANET_RADIUS_M,
            PlanetPreset::EarthScale => EARTH_RADIUS_M,
        }
    }

    /// Deepest quadtree level for the preset: 12 for the miniature planet,
    /// 17 at Earth scale.
    pub fn max_quadtree_depth(self) -> (depth: u8)
        ensures
            depth == match self {
                PlanetPreset::MiniatureDebug => MAX_QUADTREE_DEPTH,
                PlanetPreset::EarthScale => EARTH_MAX_QUADTREE_DEPTH,
            },
    {
        match self {
            PlanetPreset::MiniatureDebug => MAX_QUADTREE_DEPTH,
            PlanetPreset::EarthScale => EARTH_MAX_QUADTREE_DEPTH,
        }
    }
}

/// World sample-cache configuration for a preset: (capacity in entries,
/// quadtree level at which samples are cached).
pub fn preset_cache_config(preset: PlanetPreset) -> (config: (usize, u8))
    ensures
        config == match preset {
            PlanetPreset::MiniatureDebug => (262144usize, 16u8),
            PlanetPreset::EarthScale => (1048576usize, 22u8),
        },
{
    match preset {
        PlanetPreset::MiniatureDebug => (262144, 16),
        PlanetPreset::EarthScale => (1048576, 22),
    }
}

/// Version of the core planet library.
pub fn version() -> (v: &'static str)
    ensures
        v@ == "0"@,
{
    "0"
}

} // verus!
