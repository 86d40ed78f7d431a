//! Terrain-tile streaming bookkeeping: the chart level for a face's tile
//! grid and the per-frame history of main-thread provider work.

use vstd::prelude::*;
use std::collections::VecDeque;
use vstd::arithmetic::power2::{pow2, lemma_pow2_unfold};
use crate::text::{decimal_string, signed_decimal_string, spec_decimal, spec_signed_decimal};

verus! {

/// Frames of provider timing kept (older frames are evicted first).
pub const PROVIDER_TIMING_HISTORY_CAP: usize = 60_000;

/// The chart quadtree level for `tiles_per_face_edge` tiles: the smallest
/// level whose `2^level` charts per edge cover every tile (level 0 for zero
/// or one tile).
pub fn compute_chart_level(tiles_per_face_edge: u16) -> (level: u8)
    ensures
        pow2(level as nat) >= tiles_per_face_edge,
        level == 0 || pow2((level - 1) as nat) < tiles_per_face_edge,
        level <= 16,
{
    let mut level: u8 = 0;
    let mut charts: u32 = 1;
    proof {
        vstd::arithmetic::power2::lemma2_to64();
    }
    while charts < tiles_per_face_edge as u32
        invariant
            charts == pow2(level as nat),
            level <= 16,
            level == 0 || pow2((level - 1) as nat) < tiles_per_face_edge,
            charts <= 0x10000,
        decreases 0x10000 - charts,
    {
        proof {
            vstd::arithmetic::power2::lemma2_to64();
            assert(level < 16) by {
                if level >= 16 {
                    assert(level == 16);
                }
            }
            lemma_pow2_unfold((level + 1) as nat);
        }
        charts = charts * 2;
        level = level + 1;
    }
    level
}

/// Ascending order on `u64`.
pub open spec fn u64_leq() -> spec_fn(u64, u64) -> bool {
    |a: u64, b: u64| a <= b
}

/// `u64_leq` is a total order.
pub proof fn lemma_u64_leq_total()
    ensures
        vstd::relations::total_ordering(u64_leq()),
{
    let leq = u64_leq();
    assert(vstd::relations::reflexive(leq));
    assert(vstd::relations::antisymmetric(leq));
    assert(vstd::relations::transitive(leq));
    assert(vstd::relations::strongly_connected(leq));
}

/// `slice::sort_unstable` on `u64`s: the same values (as a multiset), in
/// ascending order.
#[verifier::external_body]
fn sort_u64s(v: &mut Vec<u64>)
    ensures
        final(v)@.to_multiset() == old(v)@.to_multiset(),
        vstd::relations::sorted_by(final(v)@, u64_leq()),
{
    v.sort_unstable()
}

/// Sum of the values of `s`.
pub open spec fn sum_u64(s: Seq<u64>) -> int
    decreases s.len(),
{
    if s.len() == 0 { 0 } else { sum_u64(s.drop_last()) + s.last() }
}

/// The samples after closing a frame whose total is `frame`: appended as
/// the newest, the oldest dropped when the history was full.
pub open spec fn after_finalize(samples: Seq<u64>, frame: u64) -> Seq<u64> {
    if samples.len() >= PROVIDER_TIMING_HISTORY_CAP {
        samples.drop_first().push(frame)
    } else {
        samples.push(frame)
    }
}

/// Main-thread microseconds spent on terrain-provider work per frame, for
/// the recent frames (oldest first), plus the frame being accumulated.
pub struct ProviderTimingHistory {
    samples_us: VecDeque<u64>,
    current_frame_us: u64,
}

impl ProviderTimingHistory {
    /// The history never holds more than `PROVIDER_TIMING_HISTORY_CAP` frames.
    #[verifier::type_invariant]
    spec fn within_cap(&self) -> bool {
        self.samples_us@.len() <= PROVIDER_TIMING_HISTORY_CAP
    }

    /// Per-frame totals of finished frames, oldest first.
    pub closed spec fn samples(&self) -> Seq<u64> {
        self.samples_us@
    }

    /// Microseconds accumulated for the frame in progress.
    pub closed spec fn current_frame(&self) -> u64 {
        self.current_frame_us
    }

    /// Adds `us` microseconds to the current frame (saturating at
    /// `u64::MAX`).
    pub fn add_us(&mut self, us: u64)
        ensures
            final(self).samples() == old(self).samples(),
            final(self).current_frame() == if old(self).current_frame() + us > u64::MAX {
                u64::MAX
            } else {
                (old(self).current_frame() + us) as u64
            },
    {
        proof {
            use_type_invariant(&*self);
        }
        self.current_frame_us = self.current_frame_us.saturating_add(us);
    }

    /// Closes the current frame: its total becomes the newest sample,
    /// evicting the oldest when `PROVIDER_TIMING_HISTORY_CAP` samples are
    /// held, and the accumulator restarts at zero.
    pub fn finalize_frame(&mut self)
        ensures
            final(self).samples() == after_finalize(old(self).samples(), old(self).current_frame()),
            final(self).current_frame() == 0,
            final(self).samples().len() <= PROVIDER_TIMING_HISTORY_CAP,
    {
        proof {
            use_type_invariant(&*self);
        }
        let mut samples: VecDeque<u64> = VecDeque::new();
        std::mem::swap(&mut samples, &mut self.samples_us);
        if samples.len() >= PROVIDER_TIMING_HISTORY_CAP {
            samples.pop_front();
        }
        samples.push_back(self.current_frame_us);
        proof {
            lemma_history_stays_bounded(old(self).samples(), old(self).current_frame());
        }
        self.samples_us = samples;
        self.current_frame_us = 0;
    }

    /// Number of recorded frames (never more than
    /// `PROVIDER_TIMING_HISTORY_CAP`).
    pub fn len(&self) -> (n: usize)
        ensures
            n == self.samples().len(),
            n <= PROVIDER_TIMING_HISTORY_CAP,
    {
        proof {
            use_type_invariant(self);
        }
        self.samples_us.len()
    }

    /// Whether no frame has been recorded.
    pub fn is_empty(&self) -> (b: bool)
        ensures
            b == (self.samples().len() == 0),
    {
        self.samples_us.len() == 0
    }

    /// The largest recorded frame total, if any frame was recorded.
    pub fn max_us(&self) -> (m: Option<u64>)
        ensures
            m is None <==> self.samples().len() == 0,
            m matches Some(x) ==> self.samples().contains(x)
                && forall|k: int| 0 <= k < self.samples().len() ==> #[trigger] self.samples()[k] <= x,
    {
        let n = self.samples_us.len();
        if n == 0 {
            return None;
        }
        let mut best = self.samples_us[0];
        assert(self.samples_us@.subrange(0, 1)[0] == best);
        let mut k: usize = 1;
        while k < n
            invariant
                n == self.samples_us@.len(),
                1 <= k <= n,
                self.samples_us@.subrange(0, k as int).contains(best),
                forall|m: int| 0 <= m < k ==> #[trigger] self.samples_us@[m] <= best,
            decreases n - k,
        {
            let x = self.samples_us[k];
            if x > best {
                best = x;
                assert(self.samples_us@.subrange(0, k + 1)[k as int] == best);
            } else {
                let ghost w = choose|w: int| 0 <= w < k && self.samples_us@.subrange(0, k as int)[w] == best;
                assert(self.samples_us@.subrange(0, k + 1)[w] == best);
            }
            k = k + 1;
        }
        assert(self.samples_us@.subrange(0, n as int) =~= self.samples_us@);
        Some(best)
    }

    /// Sum of the recorded frame totals.
    pub fn total_us(&self) -> (t: u128)
        ensures
            t == sum_u64(self.samples()),
    {
        let n = self.samples_us.len();
        let mut total: u128 = 0;
        let mut k: usize = 0;
        while k < n
            invariant
                n == self.samples_us@.len(),
                k <= n,
                total == sum_u64(self.samples_us@.subrange(0, k as int)),
                total <= k * 0xffff_ffff_ffff_ffffu128,
            decreases n - k,
        {
            let x = self.samples_us[k];
            proof {
                let pre = self.samples_us@.subrange(0, k as int);
                let next = self.samples_us@.subrange(0, k + 1);
                assert(next.drop_last() =~= pre);
                assert(next.last() == x);
                assert(k * 0xffff_ffff_ffff_ffffu128 + 0xffff_ffff_ffff_ffffu128 == (k + 1) * 0xffff_ffff_ffff_ffffu128) by (nonlinear_arith);
                assert((k + 1) * 0xffff_ffff_ffff_ffffu128 <= 0x1_0000_0000_0000_0000 * 0xffff_ffff_ffff_ffffu128) by (nonlinear_arith)
                    requires
                        k < usize::MAX,
                ;
            }
            total = total + x as u128;
            k = k + 1;
        }
        assert(self.samples_us@.subrange(0, n as int) =~= self.samples_us@);
        total
    }

    /// The recorded frame totals in ascending order.
    pub fn sorted_samples_us(&self) -> (sorted: Vec<u64>)
        ensures
            sorted@ == self.samples().sort_by(u64_leq()),
    {
        let n = self.samples_us.len();
        let mut v: Vec<u64> = Vec::new();
        let mut k: usize = 0;
        while k < n
            invariant
                n == self.samples_us@.len(),
                k <= n,
                v@ == self.samples_us@.subrange(0, k as int),
            decreases n - k,
        {
            v.push(self.samples_us[k]);
            k = k + 1;
            assert(v@ =~= self.samples_us@.subrange(0, k as int));
        }
        assert(self.samples_us@.subrange(0, n as int) =~= self.samples_us@);
        sort_u64s(&mut v);
        proof {
            lemma_u64_leq_total();
            self.samples().lemma_sort_by_ensures(u64_leq());
            vstd::seq_lib::lemma_sorted_unique(v@, self.samples().sort_by(u64_leq()), u64_leq());
        }
        v
    }

    /// The frame total of rank `rank` in ascending order (the largest when
    /// `rank` is past the end); `None` when nothing was recorded.
    pub fn sample_at_rank(&self, rank: usize) -> (x: Option<u64>)
        ensures
            self.samples().len() == 0 ==> x is None,
            self.samples().len() > 0 ==> x == Some(self.samples().sort_by(u64_leq())[
                if rank < self.samples().len() { rank as int } else { self.samples().len() - 1 }
            ]),
    {
        let sorted = self.sorted_samples_us();
        proof {
            lemma_u64_leq_total();
            self.samples().lemma_sort_by_ensures(u64_leq());
            vstd::seq_lib::to_multiset_len(self.samples());
            vstd::seq_lib::to_multiset_len(self.samples().sort_by(u64_leq()));
        }
        if sorted.len() == 0 {
            return None;
        }
        let last = sorted.len() - 1;
        let idx = if rank < last { rank } else { last };
        Some(sorted[idx])
    }

    /// The recorded per-frame totals, oldest first.
    pub fn samples_us(&self) -> (s: &VecDeque<u64>)
        ensures
            s@ == self.samples(),
    {
        &self.samples_us
    }
}

impl Default for ProviderTimingHistory {
    fn default() -> (h: Self)
        ensures
            h.samples().len() == 0,
            h.current_frame() == 0,
    {
        ProviderTimingHistory { samples_us: VecDeque::with_capacity(4096), current_frame_us: 0 }
    }
}

/// The history never holds more than `PROVIDER_TIMING_HISTORY_CAP` frames
/// and always ends with the newest frame: closing a frame keeps a
/// within-cap history within the cap, and only the oldest frame can be
/// evicted.
pub proof fn lemma_history_stays_bounded(before: Seq<u64>, frame: u64)
    requires
        before.len() <= PROVIDER_TIMING_HISTORY_CAP,
    ensures
        after_finalize(before, frame).len() <= PROVIDER_TIMING_HISTORY_CAP,
        after_finalize(before, frame).last() == frame,
        before.len() < PROVIDER_TIMING_HISTORY_CAP ==> after_finalize(before, frame).drop_last() == before,
        before.len() == PROVIDER_TIMING_HISTORY_CAP ==> after_finalize(before, frame).drop_last() == before.drop_first(),
{
    assert(before.push(frame).drop_last() =~= before);
    if before.len() > 0 {
        assert(before.drop_first().push(frame).drop_last() =~= before.drop_first());
    }
}

/// Native output resolution of the terrain model (samples per tile edge).
pub const NATIVE_MODEL_RESOLUTION: u16 = 512;

/// Native ground distance of one model sample, in metres.
pub const NATIVE_PIXEL_SCALE_M: u16 = 30;

/// Extra samples on each side of a stored tile.
pub const TILE_HALO: u16 = 1;

/// API upsampling factor used unless the command line asks otherwise.
pub const API_SCALE: u8 = 1;

/// What the model produces and how it is requested: native resolution and
/// sample spacing, the API's upsampling factor, the halo and the number of
/// tiles along a cube-face edge.
#[derive(Clone, Copy, Debug, PartialEq, Eq, Structural)]
pub struct TerrainDiffusionMetadata {
    pub native_resolution: u16,
    pub native_pixel_scale_m: u16,
    pub api_scale: u8,
    pub halo_samples: u16,
    pub tiles_per_face_edge: u16,
}

impl TerrainDiffusionMetadata {
    /// Samples per stored tile edge: the native resolution plus a halo on
    /// each side.
    pub fn stored_resolution(&self) -> (r: u16)
        requires
            self.native_resolution + 2 * self.halo_samples <= u16::MAX,
        ensures
            r == self.native_resolution + 2 * self.halo_samples,
    {
        self.native_resolution + self.halo_samples * 2
    }

    /// Whether the API interpolates above the native resolution.
    pub fn is_upsampled(&self) -> (b: bool)
        ensures
            b == (self.api_scale > 1),
    {
        self.api_scale > 1
    }

    /// Ground distance of one delivered sample in whole metres: the native
    /// spacing divided by the upsampling factor (a factor of 0 counts as 1).
    pub fn effective_pixel_scale_m(&self) -> (m: u16)
        ensures
            m == (self.native_pixel_scale_m as int) / (if self.api_scale == 0 { 1int } else { self.api_scale as int }),
    {
        let divisor: u16 = if self.api_scale == 0 { 1 } else { self.api_scale as u16 };
        self.native_pixel_scale_m / divisor
    }

    /// The native model settings with the given upsampling factor and tile
    /// count per face edge.
    pub fn for_tiles(api_scale: u8, tiles_per_face_edge: u16) -> (m: Self)
        ensures
            m == (TerrainDiffusionMetadata {
                native_resolution: NATIVE_MODEL_RESOLUTION,
                native_pixel_scale_m: NATIVE_PIXEL_SCALE_M,
                api_scale,
                halo_samples: TILE_HALO,
                tiles_per_face_edge,
            }),
    {
        TerrainDiffusionMetadata {
            native_resolution: NATIVE_MODEL_RESOLUTION,
            native_pixel_scale_m: NATIVE_PIXEL_SCALE_M,
            api_scale,
            halo_samples: TILE_HALO,
            tiles_per_face_edge,
        }
    }
}

impl Default for TerrainDiffusionMetadata {
    /// Native settings with four tiles per face edge.
    fn default() -> (m: Self)
        ensures
            m == (TerrainDiffusionMetadata {
                native_resolution: NATIVE_MODEL_RESOLUTION,
                native_pixel_scale_m: NATIVE_PIXEL_SCALE_M,
                api_scale: API_SCALE,
                halo_samples: TILE_HALO,
                tiles_per_face_edge: 4,
            }),
    {
        Self::for_tiles(API_SCALE, 4)
    }
}

/// The model revision recorded with cached tiles:
/// `terrain-diffusion-native30m-api-scale<scale>_NATIVE`, or `_UPSAMPLED`
/// when the scale is above 1.
pub open spec fn spec_model_revision(api_scale: u8) -> Seq<char> {
    "terrain-diffusion-native30m-api-scale"@ + spec_decimal(api_scale as nat)
        + (if api_scale > 1 { "_UPSAMPLED"@ } else { "_NATIVE"@ })
}

/// The model revision string for `api_scale`.
pub fn model_revision(api_scale: u8) -> (r: String)
    ensures
        r@ == spec_model_revision(api_scale),
{
    let mut r = String::from_str("terrain-diffusion-native30m-api-scale");
    let scale = decimal_string(api_scale as u64);
    r.append(scale.as_str());
    r.append(if api_scale > 1 { "_UPSAMPLED" } else { "_NATIVE" });
    r
}

/// Samples along the edge of a tile's core (without halo).
pub const TILE_CORE_RESOLUTION: u16 = 512;

/// Samples along the edge of a stored tile: the core plus a halo on each
/// side.
pub const STORED_TILE_RESOLUTION: u16 = 514;

/// The sample window the sidecar is asked for, for tile `(x, y)` of cube
/// face `face` with `tiles_per_face_edge` tiles per edge: rows `i1..i2` (the
/// faces are stacked along `i`) and columns `j1..j2`, each widened by the
/// halo.
pub open spec fn spec_tile_window(face: u8, x: u16, y: u16, tiles_per_face_edge: u16) -> (int, int, int, int) {
    let core = TILE_CORE_RESOLUTION as int;
    let i1 = face * (tiles_per_face_edge * core) + y * core - TILE_HALO;
    let j1 = x * core - TILE_HALO;
    (i1, j1, i1 + STORED_TILE_RESOLUTION, j1 + STORED_TILE_RESOLUTION)
}

/// The request window of a tile (see `spec_tile_window`).
pub fn tile_request_window(face: u8, x: u16, y: u16, tiles_per_face_edge: u16) -> (w: (i32, i32, i32, i32))
    requires
        face * (tiles_per_face_edge * 512) + y * 512 + 513 <= i32::MAX,
    ensures
        (w.0 as int, w.1 as int, w.2 as int, w.3 as int) == spec_tile_window(face, x, y, tiles_per_face_edge),
{
    assert(tiles_per_face_edge * 512 <= 0xffff * 512) by (nonlinear_arith)
        requires
            tiles_per_face_edge <= 0xffff,
    ;
    assert(face * (tiles_per_face_edge * 512) >= 0) by (nonlinear_arith);
    let face_span: i32 = tiles_per_face_edge as i32 * TILE_CORE_RESOLUTION as i32;
    let i1: i32 = face as i32 * face_span + y as i32 * TILE_CORE_RESOLUTION as i32 - TILE_HALO as i32;
    let j1: i32 = x as i32 * TILE_CORE_RESOLUTION as i32 - TILE_HALO as i32;
    (i1, j1, i1 + STORED_TILE_RESOLUTION as i32, j1 + STORED_TILE_RESOLUTION as i32)
}

/// The request path for a tile: `/terrain?i1=..&j1=..&i2=..&j2=..&scale=..&seed=..`.
pub open spec fn spec_tile_request_path(face: u8, x: u16, y: u16, tiles_per_face_edge: u16, api_scale: u8, seed: u64) -> Seq<char> {
    let (i1, j1, i2, j2) = spec_tile_window(face, x, y, tiles_per_face_edge);
    "/terrain?i1="@ + spec_signed_decimal(i1) + "&j1="@ + spec_signed_decimal(j1) + "&i2="@
        + spec_signed_decimal(i2) + "&j2="@ + spec_signed_decimal(j2) + "&scale="@
        + spec_decimal(api_scale as nat) + "&seed="@ + spec_decimal(seed as nat)
}

/// The request path for a tile (see `spec_tile_request_path`).
pub fn tile_request_path(face: u8, x: u16, y: u16, tiles_per_face_edge: u16, api_scale: u8, seed: u64) -> (p: String)
    requires
        face * (tiles_per_face_edge * 512) + y * 512 + 513 <= i32::MAX,
    ensures
        p@ == spec_tile_request_path(face, x, y, tiles_per_face_edge, api_scale, seed),
{
    let (i1, j1, i2, j2) = tile_request_window(face, x, y, tiles_per_face_edge);
    let mut p = String::from_str("/terrain?i1=");
    p.append(signed_decimal_string(i1).as_str());
    p.append("&j1=");
    p.append(signed_decimal_string(j1).as_str());
    p.append("&i2=");
    p.append(signed_decimal_string(i2).as_str());
    p.append("&j2=");
    p.append(signed_decimal_string(j2).as_str());
    p.append("&scale=");
    p.append(decimal_string(api_scale as u64).as_str());
    p.append("&seed=");
    p.append(decimal_string(seed).as_str());
    p
}

/// Whether a reply's grid has the stored tile size in both directions.
pub fn is_stored_tile_shape(height: u16, width: u16) -> (b: bool)
    ensures
        b == (height == STORED_TILE_RESOLUTION && width == STORED_TILE_RESOLUTION),
{
    height == STORED_TILE_RESOLUTION && width == STORED_TILE_RESOLUTION
}

} // verus!
