//! Deterministic random streams (ChaCha8) for procedural generation.
//!
//! A stream is the ChaCha8 keystream of a 32-byte key, read as 32-bit words
//! from word 0 on. `Rng` carries, as ghost state, the key it was seeded with
//! and how many words it has consumed, so that every draw is stated as a
//! slice of that keystream.

use vstd::prelude::*;
use rand::{RngCore, SeedableRng};
use rand_chacha::ChaCha8Rng;

verus! {

#[verifier::external_type_specification]
#[verifier::external_body]
pub struct ExChaCha8Rng(ChaCha8Rng);

/// Word `index` (counting 32-bit words from the start) of the ChaCha8
/// keystream, stream 0, for the 32-byte `key`.
pub uninterp spec fn chacha8_word(key: Seq<u8>, index: nat) -> u32;

/// PCG32 multiplier and increment used by `SeedableRng::seed_from_u64`.
pub const PCG32_MUL: u64 = 6364136223846793005;
pub const PCG32_INC: u64 = 11634580027462260723;

/// The PCG32 state after `k` advances from `seed` (each advance is
/// `state * PCG32_MUL + PCG32_INC`, wrapping).
pub open spec fn pcg32_state(seed: u64, k: nat) -> u64
    decreases k,
{
    if k == 0 {
        seed
    } else {
        (pcg32_state(seed, (k - 1) as nat) * PCG32_MUL + PCG32_INC) as u64
    }
}

/// `x` rotated right by `r < 32` bits.
pub open spec fn rotate_right_u32(x: u32, r: u32) -> u32 {
    if r == 0 { x } else { ((x >> r) | (x << ((32 - r) as u32))) as u32 }
}

/// The PCG32 output (XSH-RR) of an advanced state.
pub open spec fn pcg32_output(state: u64) -> u32 {
    rotate_right_u32((((state >> 18u64) ^ state) >> 27u64) as u32, (state >> 59u64) as u32)
}

/// The 32-byte key that `SeedableRng::seed_from_u64` derives from a `u64`
/// seed: eight PCG32 outputs (the state advanced before each), each written
/// least significant byte first.
pub open spec fn seed_from_u64_key(seed: u64) -> Seq<u8> {
    Seq::new(32, |i: int| le_byte(pcg32_output(pcg32_state(seed, (i / 4 + 1) as nat)), i % 4))
}

/// Byte `k` (0 = least significant) of a 32-bit word.
pub open spec fn le_byte(w: u32, k: int) -> u8 {
    ((w >> ((8 * k) as u32)) & 0xffu32) as u8
}

/// `n` bytes of the keystream of `key` starting at word `start`, each word
/// contributing its bytes least significant first.
pub open spec fn stream_bytes(key: Seq<u8>, start: nat, n: nat) -> Seq<u8> {
    Seq::new(n, |b: int| le_byte(chacha8_word(key, start + (b / 4) as nat), b % 4))
}

/// A deterministic generator: the ChaCha8 keystream of a key, consumed word
/// by word.
pub struct Rng {
    inner: ChaCha8Rng,
    key: Ghost<Seq<u8>>,
    word_pos: Ghost<nat>,
}

impl Rng {
    /// The key whose keystream this generator produces.
    pub closed spec fn key(&self) -> Seq<u8> {
        self.key@
    }

    /// Number of keystream words consumed so far.
    pub closed spec fn word_pos(&self) -> nat {
        self.word_pos@
    }

    /// `rand_core`'s `RngCore::next_u64` on the ChaCha8 block generator: the
    /// next two keystream words, the first as the low half.
    #[verifier::external_body]
    pub fn next_u64(&mut self) -> (x: u64)
        ensures
            final(self).key() == old(self).key(),
            final(self).word_pos() == old(self).word_pos() + 2,
            x == chacha8_word(old(self).key(), old(self).word_pos()) as u64
                + chacha8_word(old(self).key(), old(self).word_pos() + 1) as u64 * 0x1_0000_0000,
    {
        self.inner.next_u64()
    }
}

/// `ChaCha8Rng::seed_from_u64` (rand_core's provided method, which fills
/// the 32-byte seed with PCG32 output and calls `from_seed`): a generator at
/// the start of the keystream of `seed_from_u64_key(seed)`.
#[verifier::external_body]
fn chacha8_seed_from_u64(seed: u64) -> (r: Rng)
    ensures
        r.key() == seed_from_u64_key(seed),
        r.word_pos() == 0,
{
    Rng { inner: ChaCha8Rng::seed_from_u64(seed), key: Ghost(seed_from_u64_key(seed)), word_pos: Ghost(0) }
}

/// `ChaCha8Rng::from_seed`: a generator at the start of the keystream of
/// the 32-byte key `seed`.
#[verifier::external_body]
fn chacha8_from_seed(seed: [u8; 32]) -> (r: Rng)
    ensures
        r.key() == seed@,
        r.word_pos() == 0,
{
    Rng { inner: ChaCha8Rng::from_seed(seed), key: Ghost(seed@), word_pos: Ghost(0) }
}

/// `RngCore::fill_bytes` on the ChaCha8 block generator: fills `dest` with
/// the next keystream words, least significant byte first, consuming
/// `ceil(len / 4)` words (the unused bytes of a final partial word are
/// dropped).
#[verifier::external_body]
pub(crate) fn chacha8_fill_bytes(rng: &mut Rng, dest: &mut [u8])
    ensures
        final(rng).key() == old(rng).key(),
        final(rng).word_pos() == old(rng).word_pos() + (old(dest)@.len() + 3) / 4,
        final(dest)@ == stream_bytes(old(rng).key(), old(rng).word_pos(), old(dest)@.len()),
{
    rng.inner.fill_bytes(dest)
}

/// A deterministic generator for `seed`: the start of the keystream of
/// `seed_from_u64_key(seed)`.
pub fn rng_from_seed(seed: u64) -> (r: Rng)
    ensures
        r.key() == seed_from_u64_key(seed),
        r.word_pos() == 0,
{
    chacha8_seed_from_u64(seed)
}

/// The child key derived from 32 parent bytes and `mix`: byte `i` is XORed
/// with byte `i % 8` (least significant first) of `mix`.
pub open spec fn spec_child_key(parent_bytes: Seq<u8>, mix: u64) -> Seq<u8> {
    Seq::new(32, |i: int| parent_bytes[i] ^ (((mix >> ((i % 8) * 8) as u64) & 0xffu64) as u8))
}

/// Mixes `mix` into 32 bytes of parent output, giving the key of a child
/// stream.
pub fn child_key(parent_bytes: [u8; 32], mix: u64) -> (key: [u8; 32])
    ensures
        key@ == spec_child_key(parent_bytes@, mix),
{
    let mut bytes = parent_bytes;
    let mut i: usize = 0;
    while i < 32
        invariant
            i <= 32,
            bytes@.len() == 32,
            forall|k: int| 0 <= k < i ==> #[trigger] bytes@[k] == spec_child_key(parent_bytes@, mix)[k],
            forall|k: int| i <= k < 32 ==> #[trigger] bytes@[k] == parent_bytes@[k],
        decreases 32 - i,
    {
        let shift: u64 = ((i % 8) * 8) as u64;
        bytes[i] = bytes[i] ^ (((mix >> shift) & 0xff) as u8);
        i = i + 1;
    }
    proof {
        assert(bytes@ =~= spec_child_key(parent_bytes@, mix));
    }
    bytes
}

/// Derives an independent child stream from `parent`: the parent advances
/// by exactly 32 bytes (8 words) and the child is keyed by those bytes
/// mixed with `mix`.
pub fn rng_child(parent: &mut Rng, mix: u64) -> (child: Rng)
    ensures
        final(parent).key() == old(parent).key(),
        final(parent).word_pos() == old(parent).word_pos() + 8,
        child.key() == spec_child_key(stream_bytes(old(parent).key(), old(parent).word_pos(), 32), mix),
        child.word_pos() == 0,
{
    let mut bytes = [0u8; 32];
    chacha8_fill_bytes(parent, &mut bytes);
    let key = child_key(bytes, mix);
    chacha8_from_seed(key)
}

/// Distinct mixes give distinct child keys: some byte of the two mixes
/// differs, and the key byte XORed with it differs too.
pub proof fn lemma_child_keys_distinct(parent_bytes: Seq<u8>, a: u64, b: u64)
    requires
        parent_bytes.len() == 32,
        a != b,
    ensures
        spec_child_key(parent_bytes, a) != spec_child_key(parent_bytes, b),
{
    assert(exists|k: u64| k < 8 && #[trigger] ((a >> (k * 8)) & 0xff) != ((b >> (k * 8)) & 0xff)) by {
        assert(a != b ==> ((a >> 0u64) & 0xff) != ((b >> 0u64) & 0xff) || ((a >> 8u64) & 0xff) != ((b >> 8u64) & 0xff)
            || ((a >> 16u64) & 0xff) != ((b >> 16u64) & 0xff) || ((a >> 24u64) & 0xff) != ((b >> 24u64) & 0xff)
            || ((a >> 32u64) & 0xff) != ((b >> 32u64) & 0xff) || ((a >> 40u64) & 0xff) != ((b >> 40u64) & 0xff)
            || ((a >> 48u64) & 0xff) != ((b >> 48u64) & 0xff) || ((a >> 56u64) & 0xff) != ((b >> 56u64) & 0xff))
            by (bit_vector);
        if ((a >> 0u64) & 0xff) != ((b >> 0u64) & 0xff) {
            assert(((a >> (0u64 * 8)) & 0xff) != ((b >> (0u64 * 8)) & 0xff));
        } else if ((a >> 8u64) & 0xff) != ((b >> 8u64) & 0xff) {
            assert(((a >> (1u64 * 8)) & 0xff) != ((b >> (1u64 * 8)) & 0xff));
        } else if ((a >> 16u64) & 0xff) != ((b >> 16u64) & 0xff) {
            assert(((a >> (2u64 * 8)) & 0xff) != ((b >> (2u64 * 8)) & 0xff));
        } else if ((a >> 24u64) & 0xff) != ((b >> 24u64) & 0xff) {
            assert(((a >> (3u64 * 8)) & 0xff) != ((b >> (3u64 * 8)) & 0xff));
        } else if ((a >> 32u64) & 0xff) != ((b >> 32u64) & 0xff) {
            assert(((a >> (4u64 * 8)) & 0xff) != ((b >> (4u64 * 8)) & 0xff));
        } else if ((a >> 40u64) & 0xff) != ((b >> 40u64) & 0xff) {
            assert(((a >> (5u64 * 8)) & 0xff) != ((b >> (5u64 * 8)) & 0xff));
        } else if ((a >> 48u64) & 0xff) != ((b >> 48u64) & 0xff) {
            assert(((a >> (6u64 * 8)) & 0xff) != ((b >> (6u64 * 8)) & 0xff));
        } else {
            assert(((a >> (7u64 * 8)) & 0xff) != ((b >> (7u64 * 8)) & 0xff));
        }
    }
    let k = choose|k: u64| k < 8 && #[trigger] ((a >> (k * 8)) & 0xff) != ((b >> (k * 8)) & 0xff);
    let p = parent_bytes[k as int];
    let ax = (a >> (k * 8)) & 0xff;
    let bx = (b >> (k * 8)) & 0xff;
    assert(((a >> (k * 8)) & 0xff) <= 0xff) by (bit_vector);
    assert(((b >> (k * 8)) & 0xff) <= 0xff) by (bit_vector);
    let x = ax as u8;
    let y = bx as u8;
    assert(x != y);
    assert(p ^ x != p ^ y) by (bit_vector)
        requires
            x != y,
    ;
    assert(spec_child_key(parent_bytes, a)[k as int] == p ^ x);
    assert(spec_child_key(parent_bytes, b)[k as int] == p ^ y);
}

} // verus!
