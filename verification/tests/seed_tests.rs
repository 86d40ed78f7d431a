use er_planet::rng::{child_key, rng_child, rng_from_seed, Rng};
use er_planet::seed::{PlanetSeed, SystemSeed};
use rand::{RngCore, SeedableRng};
use rand_chacha::ChaCha8Rng;
use std::collections::HashSet;

fn sample(mut rng: Rng) -> [u64; 4] {
    [rng.next_u64(), rng.next_u64(), rng.next_u64(), rng.next_u64()]
}

#[test]
fn planet_seed_is_repeatable_and_domain_separated() {
    let system = SystemSeed(0xC0FFEE);
    assert_eq!(system.planet_seed(3), system.planet_seed(3));
    assert_ne!(system.planet_seed(0), system.planet_seed(1));
    assert_ne!(system.planet_seed(0), SystemSeed(0xC0FFEF).planet_seed(0));
}

#[test]
fn planet_seed_remains_unique_over_a_deterministic_roster() {
    let system = SystemSeed(0xD15EA5E);
    let seeds: HashSet<PlanetSeed> = (0..64).map(|index| system.planet_seed(index)).collect();
    assert_eq!(seeds.len(), 64);
}

#[test]
fn seed_replays_an_identical_stream() {
    assert_eq!(sample(rng_from_seed(0xC0FFEE)), sample(rng_from_seed(0xC0FFEE)));
    assert_ne!(sample(rng_from_seed(1)), sample(rng_from_seed(2)));
}

#[test]
fn child_stream_replays_and_consumes_exactly_its_seed_material() {
    let mut first_parent = rng_from_seed(0xBAD5EED);
    let mut second_parent = rng_from_seed(0xBAD5EED);

    let first_child = rng_child(&mut first_parent, 17);
    let second_child = rng_child(&mut second_parent, 17);
    assert_eq!(sample(first_child), sample(second_child));
    assert_eq!(sample(first_parent), sample(second_parent));
}

#[test]
fn child_mix_selects_an_independent_stream() {
    let mut first_parent = rng_from_seed(42);
    let mut second_parent = rng_from_seed(42);

    assert_ne!(sample(rng_child(&mut first_parent, 1)), sample(rng_child(&mut second_parent, 2)));
}

// The library stream matches ChaCha8 seeded the same way, and a child
// consumes exactly 32 parent bytes.
#[test]
fn streams_match_chacha8() {
    let mut ours = rng_from_seed(99);
    let mut reference = ChaCha8Rng::seed_from_u64(99);
    assert_eq!(ours.next_u64(), reference.next_u64());

    let mut parent = rng_from_seed(5);
    let mut reference = ChaCha8Rng::seed_from_u64(5);
    let mut bytes = [0u8; 32];
    reference.fill_bytes(&mut bytes);
    let mut child = rng_child(&mut parent, 0x0102_0304_0506_0708);
    let mut reference_child = ChaCha8Rng::from_seed(child_key(bytes, 0x0102_0304_0506_0708));
    assert_eq!(child.next_u64(), reference_child.next_u64());
    assert_eq!(parent.next_u64(), reference.next_u64());
}

#[test]
fn child_key_xors_mix_bytes_cyclically() {
    let key = child_key([0u8; 32], 0x0807_0605_0403_0201);
    for (i, b) in key.iter().enumerate() {
        assert_eq!(*b as usize, i % 8 + 1);
    }
    let parent = [0xffu8; 32];
    assert_eq!(child_key(parent, 0), parent);
}

#[test]
fn planet_seed_matches_its_derivation() {
    let system = SystemSeed(0xC0FFEE);
    let mut parent = ChaCha8Rng::seed_from_u64(0xC0FFEE);
    let mut bytes = [0u8; 32];
    parent.fill_bytes(&mut bytes);
    let mut child = ChaCha8Rng::from_seed(child_key(bytes, 3));
    let mut out = [0u8; 8];
    child.fill_bytes(&mut out);
    assert_eq!(system.planet_seed(3), PlanetSeed(u64::from_le_bytes(out)));
}

// The key `seed_from_u64_key` states, computed step by step: eight PCG32
// outputs (XSH-RR, state advanced first), little-endian.
fn pcg32_key(mut state: u64) -> [u8; 32] {
    let mut key = [0u8; 32];
    for word in 0..8 {
        state = state.wrapping_mul(6364136223846793005).wrapping_add(11634580027462260723);
        let xorshifted = (((state >> 18) ^ state) >> 27) as u32;
        let rot = (state >> 59) as u32;
        let x = if rot == 0 { xorshifted } else { (xorshifted >> rot) | (xorshifted << (32 - rot)) };
        key[word * 4..word * 4 + 4].copy_from_slice(&x.to_le_bytes());
    }
    key
}

#[test]
fn seed_from_u64_key_is_the_pcg32_expansion() {
    for seed in [0u64, 1, 7, 0xC0FFEE, u64::MAX] {
        assert_eq!(ChaCha8Rng::seed_from_u64(seed).get_seed(), pcg32_key(seed));
    }
}
