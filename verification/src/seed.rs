//! Deterministic seed types. A `SystemSeed` (a whole solar system) derives a
//! `PlanetSeed` per planet from a ChaCha8 child stream, so each body's
//! procedural generation is stable and independent of the others.

use vstd::prelude::*;
use crate::rng::{chacha8_fill_bytes, rng_child, rng_from_seed, seed_from_u64_key, spec_child_key, stream_bytes};

verus! {

/// A raw `u64` seed.
#[derive(Clone, Copy, Debug, PartialEq, Eq, Hash, Structural)]
pub struct Seed(pub u64);

/// Seed for a single planet's procedural generation.
#[derive(Clone, Copy, Debug, PartialEq, Eq, Hash, Structural)]
pub struct PlanetSeed(pub u64);

/// Seed for an entire solar system.
#[derive(Clone, Copy, Debug, PartialEq, Eq, Hash, Structural)]
pub struct SystemSeed(pub u64);

/// The `u64` whose little-endian bytes are `b[0..8]`.
pub open spec fn le_u64(b: Seq<u8>) -> int {
    b[0] + 0x100 * (b[1] + 0x100 * (b[2] + 0x100 * (b[3] + 0x100 * (b[4] + 0x100 * (b[5]
        + 0x100 * (b[6] + 0x100 * b[7]))))))
}

/// The integer whose little-endian bytes are `bytes` (what
/// `u64::from_le_bytes` gives).
fn u64_from_le_bytes(bytes: [u8; 8]) -> (x: u64)
    ensures
        x as int == le_u64(bytes@),
{
    let b = bytes;
    b[0] as u64 + 0x100 * (b[1] as u64 + 0x100 * (b[2] as u64 + 0x100 * (b[3] as u64 + 0x100 * (b[4] as u64
        + 0x100 * (b[5] as u64 + 0x100 * (b[6] as u64 + 0x100 * b[7] as u64))))))
}

/// The planet seed of planet `planet_index` in system `system`: the first
/// eight bytes (little-endian) of the child stream keyed by the system
/// stream's first 32 bytes mixed with the index.
pub open spec fn spec_planet_seed(system: u64, planet_index: u32) -> u64 {
    let parent = stream_bytes(seed_from_u64_key(system), 0, 32);
    let child = spec_child_key(parent, planet_index as u64);
    le_u64(stream_bytes(child, 0, 8)) as u64
}

impl SystemSeed {
    /// Derives the deterministic seed of planet `planet_index`.
    pub fn planet_seed(self, planet_index: u32) -> (seed: PlanetSeed)
        ensures
            seed.0 == spec_planet_seed(self.0, planet_index),
    {
        let mut rng = rng_from_seed(self.0);
        let mut child = rng_child(&mut rng, planet_index as u64);
        let mut buf = [0u8; 8];
        chacha8_fill_bytes(&mut child, &mut buf);
        PlanetSeed(u64_from_le_bytes(buf))
    }
}

/// Planet seeds are a function of the system seed and the planet index:
/// asking twice gives the same seed.
pub proof fn lemma_planet_seed_repeatable(system: u64, a: u32, b: u32)
    requires
        a == b,
    ensures
        spec_planet_seed(system, a) == spec_planet_seed(system, b),
{
}

} // verus!
