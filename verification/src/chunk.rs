//! Per-chunk bookkeeping components and LOD-transition markers.

use vstd::prelude::*;
use crate::cell::CellKey;

verus! {

/// The quadtree cell a terrain chunk renders, and the level each of its four
/// edges is stitched to (`[NegU, PosU, NegV, PosV]`).
#[derive(Clone, Debug)]
pub struct ChunkComponent {
    pub key: CellKey,
    pub neighbor_depth: [u8; 4],
}

impl ChunkComponent {
    /// A fresh chunk whose edges all match its own level (no stitching).
    pub fn new(key: CellKey) -> (c: Self)
        ensures
            c.key == key,
            forall|k: int| 0 <= k < 4 ==> #[trigger] c.neighbor_depth[k] == key.lod,
    {
        ChunkComponent { key, neighbor_depth: [key.lod; 4] }
    }
}

/// Marker for a freshly split child whose mesh is still generating; the four
/// children are revealed together once all have meshes.
#[derive(Clone, Debug, Default)]
pub struct HoldHidden;

/// Marker for the children of a parent being merged; they stay visible until
/// the parent's mesh is ready.
#[derive(Clone, Debug, Default)]
pub struct HoldForMerge;

/// Whether a chunk fades in or out during a LOD handoff.
#[derive(Clone, Copy, Debug, PartialEq, Eq, Structural)]
pub enum LodTransitionRole {
    Incoming,
    Outgoing,
}

/// Extra draws allowed at once for LOD handoff dithering.
pub const MAX_LOD_TRANSITION_EXTRA_DRAWS: usize = 64;

/// Whether `additional_draws` more handoff draws fit in the budget, given
/// `extra_draws_in_use` (the sum saturates instead of overflowing).
pub fn lod_transition_has_capacity(extra_draws_in_use: usize, additional_draws: usize) -> (b: bool)
    ensures
        b == (extra_draws_in_use + additional_draws <= MAX_LOD_TRANSITION_EXTRA_DRAWS),
{
    extra_draws_in_use.saturating_add(additional_draws) <= MAX_LOD_TRANSITION_EXTRA_DRAWS
}

/// Tag bit set on every chunk taking part in a LOD handoff.
pub const LOD_TRANSITION_ACTIVE_BIT: u32 = 0x8000_0000;

/// Tag bit set when the chunk is the incoming side of the handoff.
pub const LOD_TRANSITION_INCOMING_BIT: u32 = 0x4000_0000;

/// Low bits of the tag that hold the handoff progress, quantised to
/// `0..=LOD_TRANSITION_PROGRESS_MASK`.
pub const LOD_TRANSITION_PROGRESS_MASK: u32 = 0xffff;

/// The shader tag of a chunk in a LOD handoff: the active bit, the incoming
/// bit for the incoming role, and the quantised progress in the low bits.
pub fn lod_transition_tag(role: LodTransitionRole, quantized_progress: u32) -> (tag: u32)
    requires
        quantized_progress <= LOD_TRANSITION_PROGRESS_MASK,
    ensures
        tag & LOD_TRANSITION_ACTIVE_BIT == LOD_TRANSITION_ACTIVE_BIT,
        (tag & LOD_TRANSITION_INCOMING_BIT == LOD_TRANSITION_INCOMING_BIT) == (role == LodTransitionRole::Incoming),
        (tag & LOD_TRANSITION_INCOMING_BIT == 0) == (role == LodTransitionRole::Outgoing),
        tag & LOD_TRANSITION_PROGRESS_MASK == quantized_progress,
        tag == LOD_TRANSITION_ACTIVE_BIT | (if role == LodTransitionRole::Incoming { LOD_TRANSITION_INCOMING_BIT } else { 0 })
            | quantized_progress,
{
    let role_bit: u32 = match role {
        LodTransitionRole::Incoming => LOD_TRANSITION_INCOMING_BIT,
        LodTransitionRole::Outgoing => 0,
    };
    let tag = LOD_TRANSITION_ACTIVE_BIT | role_bit | quantized_progress;
    proof {
        let q = quantized_progress;
        assert((0x8000_0000u32 | 0x4000_0000u32 | q) & 0x8000_0000u32 == 0x8000_0000u32) by (bit_vector);
        assert((0x8000_0000u32 | 0u32 | q) & 0x8000_0000u32 == 0x8000_0000u32) by (bit_vector);
        assert(q <= 0xffffu32 ==> (0x8000_0000u32 | 0x4000_0000u32 | q) & 0x4000_0000u32 == 0x4000_0000u32) by (bit_vector);
        assert(q <= 0xffffu32 ==> (0x8000_0000u32 | 0u32 | q) & 0x4000_0000u32 == 0u32) by (bit_vector);
        assert(q <= 0xffffu32 ==> (0x8000_0000u32 | 0x4000_0000u32 | q) & 0xffffu32 == q) by (bit_vector);
        assert(q <= 0xffffu32 ==> (0x8000_0000u32 | 0u32 | q) & 0xffffu32 == q) by (bit_vector);
    }
    tag
}

/// Whether a finished mesh built for `payload_key` may be attached to the
/// live chunk keyed `entity_key` (a reused entity may now hold another cell).
pub fn pending_mesh_matches_chunk(entity_key: CellKey, payload_key: CellKey) -> (b: bool)
    ensures
        b == (entity_key == payload_key),
{
    entity_key == payload_key
}

} // verus!
