//! Chunk culling decisions that depend on the quadtree alone.

use vstd::prelude::*;
use crate::cell::CellKey;
use crate::config::MINIMUM_TERRAIN_COVERAGE_LOD;

verus! {

/// Root cube faces are the coarse terrain-coverage floor at extreme camera
/// distances: they bypass the distance cull (horizon and frustum culling
/// still apply).
pub fn is_minimum_coverage_chunk(key: CellKey) -> (b: bool)
    ensures
        b == (key.lod == 0),
{
    key.lod <= MINIMUM_TERRAIN_COVERAGE_LOD
}

} // verus!
