use er_planet::cell::CellKey;
use er_planet::chunk::{
    lod_transition_has_capacity, lod_transition_tag, ChunkComponent, LodTransitionRole, LOD_TRANSITION_ACTIVE_BIT,
    LOD_TRANSITION_INCOMING_BIT, LOD_TRANSITION_PROGRESS_MASK,
};
use er_planet::config::{preset_cache_config, PlanetPreset, EARTH_RADIUS_M, PLANET_RADIUS_DEFAULT};
use er_planet::culling::is_minimum_coverage_chunk;
use er_planet::gpu_telemetry::{adapter_sample, best_adapter_index, sample, GpuTelemetrySample, GpuTelemetryStatus};
use er_planet::profiler::FrameProfiler;
use er_planet::scheduling::{live_mesh_requests, split_mesh_dispatch, can_admit_split_meshes, cross_generation_work_is_bounded, mesh_dispatch_slots, near_cap};
use er_planet::streaming::{
    compute_chart_level, is_stored_tile_shape, model_revision, tile_request_path, tile_request_window,
    ProviderTimingHistory, TerrainDiffusionMetadata, NATIVE_PIXEL_SCALE_M,
    PROVIDER_TIMING_HISTORY_CAP,
};
use std::time::Duration;

#[test]
fn chunk_component_neighbor_depth_default() {
    let key = CellKey { face: 0, i: 1, j: 2, lod: 3 };
    let chunk = ChunkComponent::new(key);
    assert_eq!(chunk.neighbor_depth, [3, 3, 3, 3]);
}

#[test]
fn only_root_faces_are_minimum_coverage_chunks() {
    assert!(is_minimum_coverage_chunk(CellKey { face: 0, i: 0, j: 0, lod: 0 }));
    assert!(!is_minimum_coverage_chunk(CellKey { face: 0, i: 0, j: 0, lod: 1 }));
}

#[test]
fn earth_preset_uses_physical_radius_and_close_lod() {
    assert_eq!(PlanetPreset::EarthScale.radius_m(), EARTH_RADIUS_M);
    assert_eq!(PlanetPreset::EarthScale.max_quadtree_depth(), 17);
}

#[test]
fn miniature_preset_preserves_existing_default() {
    assert_eq!(PlanetPreset::default(), PlanetPreset::MiniatureDebug);
    assert_eq!(PlanetPreset::default().radius_m(), PLANET_RADIUS_DEFAULT);
}

#[test]
fn preset_radii_and_render_distances_are_exact() {
    assert_eq!(PlanetPreset::MiniatureDebug.radius_m(), 36_000);
    assert_eq!(PlanetPreset::EarthScale.radius_m(), 6_371_000);
    assert_eq!(PlanetPreset::MiniatureDebug.max_render_distance_m(), 288_000);
    assert_eq!(PlanetPreset::EarthScale.max_render_distance_m(), 50_968_000);
}

#[test]
fn preset_depths_and_default() {
    assert_eq!(PlanetPreset::EarthScale.max_quadtree_depth(), 17);
    assert_eq!(PlanetPreset::MiniatureDebug.max_quadtree_depth(), 12);
    assert_eq!(PlanetPreset::default(), PlanetPreset::MiniatureDebug);
    assert_eq!(preset_cache_config(PlanetPreset::EarthScale), (1_048_576, 22));
    assert_eq!(er_planet::config::version(), "0");
    assert_eq!(er_planet::terrain::version(), "0");
}

#[test]
fn sample_does_not_panic() {
    let s = sample();
    assert!(!s.description.is_empty() || !s.is_available());
}

#[test]
fn unavailable_sample_reports_reason() {
    let s = sample();
    assert_eq!(s.status, GpuTelemetryStatus::Unavailable("GPU telemetry not supported on this OS".to_owned()));
    let available = GpuTelemetrySample { status: GpuTelemetryStatus::Available, ..s.clone() };
    assert!(available.is_available());
    let partial = GpuTelemetrySample { status: GpuTelemetryStatus::Partial, ..s };
    assert!(!partial.is_available());
}

#[test]
fn lod_transition_overlap_budget_is_strictly_bounded() {
    assert!(lod_transition_has_capacity(0, 1));
    assert!(lod_transition_has_capacity(60, 4));
    assert!(!lod_transition_has_capacity(64, 1));
    assert!(!lod_transition_has_capacity(usize::MAX, 1));
    assert_ne!(LodTransitionRole::Incoming, LodTransitionRole::Outgoing);
}

#[test]
fn mesh_dispatch_slots_enforce_the_inflight_cap() {
    assert_eq!(mesh_dispatch_slots(128, 0), 128);
    assert_eq!(mesh_dispatch_slots(128, 127), 1);
    assert_eq!(mesh_dispatch_slots(128, 128), 0);
    assert_eq!(mesh_dispatch_slots(128, 160), 0);
}

#[test]
fn breadth_mesh_admission_applies_backpressure_but_never_blocks_focus() {
    assert!(can_admit_split_meshes(false, 252, 128));
    assert!(!can_admit_split_meshes(false, 253, 128));
    assert!(can_admit_split_meshes(true, usize::MAX, 128));
    assert!(can_admit_split_meshes(false, 0, usize::MAX));
}

#[test]
fn near_cap_uses_percentages() {
    assert!(near_cap(900, 1000, 90));
    assert!(!near_cap(899, 1000, 90));
    assert!(near_cap(usize::MAX, usize::MAX, 100));
}

#[test]
fn chart_level_exact_power_of_two() {
    assert_eq!(compute_chart_level(4), 2);
    assert_eq!(compute_chart_level(1), 0);
    assert_eq!(compute_chart_level(2), 1);
    assert_eq!(compute_chart_level(8), 3);
    assert_eq!(compute_chart_level(16), 4);
}

#[test]
fn chart_level_non_power_of_two_rounds_up() {
    assert_eq!(compute_chart_level(652), 10);
    assert_eq!(1u32 << compute_chart_level(652), 1024);
    for n in [1u16, 3, 5, 7, 100, 511, 512, 513, 651, 652, 653, 1023, 1024] {
        let level = compute_chart_level(n);
        let charts = 1u32 << level;
        assert!(charts >= n as u32, "tiles_per_face_edge={n}: charts_per_edge={charts} < {n}");
    }
    assert_eq!(compute_chart_level(0), 0);
    assert_eq!(compute_chart_level(u16::MAX), 16);
}

#[test]
fn provider_timing_accumulates_within_frame() {
    let mut timing = ProviderTimingHistory::default();
    assert!(timing.is_empty());
    timing.add_us(100);
    timing.add_us(200);
    assert!(timing.is_empty());
    timing.finalize_frame();
    assert_eq!(timing.len(), 1);
    assert_eq!(timing.samples_us().iter().copied().collect::<Vec<_>>(), vec![300]);
}

#[test]
fn provider_timing_ring_buffer_evicts_oldest() {
    let mut timing = ProviderTimingHistory::default();
    for i in 0..(PROVIDER_TIMING_HISTORY_CAP + 10) {
        timing.add_us((i % 1000) as u64 + 1);
        timing.finalize_frame();
    }
    assert_eq!(timing.len(), PROVIDER_TIMING_HISTORY_CAP);
    assert_eq!(timing.samples_us()[0], 11);
}

#[test]
fn provider_timing_saturating_add() {
    let mut timing = ProviderTimingHistory::default();
    timing.add_us(u64::MAX);
    timing.add_us(1);
    timing.finalize_frame();
    assert_eq!(timing.samples_us()[0], u64::MAX);
}

#[test]
fn profiler_records_in_order_and_clears() {
    let mut profiler = FrameProfiler::default();
    profiler.record("a", Duration::from_millis(1));
    profiler.record("b", Duration::from_millis(2));
    assert_eq!(profiler.timings, vec![("a", Duration::from_millis(1)), ("b", Duration::from_millis(2))]);
    let _ = profiler.total();
    profiler.clear();
    assert!(profiler.timings.is_empty());
}

#[test]
fn profiler_clear_at_restarts_the_frame_at_the_given_instant() {
    let mut profiler = FrameProfiler::default();
    profiler.record("a", Duration::from_millis(1));
    let earlier = std::time::Instant::now().checked_sub(Duration::from_millis(200)).unwrap();
    profiler.clear_at(earlier);
    assert!(profiler.timings().is_empty());
    assert!(profiler.total() >= Duration::from_millis(200));
    profiler.clear_at(std::time::Instant::now());
    assert!(profiler.total() < Duration::from_millis(200));
}

#[test]
fn unavailable_sample_carries_the_given_reason() {
    let s = er_planet::gpu_telemetry::unavailable("GetDesc1 failed");
    assert_eq!(s.status, GpuTelemetryStatus::Unavailable("GetDesc1 failed".to_string()));
    assert!(!s.is_available());
    assert_eq!(s.vram_budget_bytes, 0);
}

#[test]
fn pending_mesh_key_must_match_live_entity_key() {
    let key = CellKey { face: 2, i: 7, j: 9, lod: 5 };
    let other = CellKey { i: 8, ..key };
    assert!(er_planet::chunk::pending_mesh_matches_chunk(key, key));
    assert!(!er_planet::chunk::pending_mesh_matches_chunk(key, other));
}

#[test]
fn lod_transition_tags_encode_role_and_clamped_progress() {
    // Progress -1.0 clamps to 0, 2.0 clamps to the full mask, 0.5 rounds to 32768.
    let incoming_start = lod_transition_tag(LodTransitionRole::Incoming, 0);
    let incoming_end = lod_transition_tag(LodTransitionRole::Incoming, LOD_TRANSITION_PROGRESS_MASK);
    let outgoing_half = lod_transition_tag(LodTransitionRole::Outgoing, 32_768);

    assert_ne!(incoming_start & LOD_TRANSITION_ACTIVE_BIT, 0);
    assert_ne!(incoming_start & LOD_TRANSITION_INCOMING_BIT, 0);
    assert_eq!(incoming_start & LOD_TRANSITION_PROGRESS_MASK, 0);
    assert_eq!(incoming_end & LOD_TRANSITION_PROGRESS_MASK, LOD_TRANSITION_PROGRESS_MASK);
    assert_eq!(outgoing_half & LOD_TRANSITION_INCOMING_BIT, 0);
    assert!((outgoing_half & LOD_TRANSITION_PROGRESS_MASK).abs_diff(32_768) <= 1);
    assert_eq!(outgoing_half, 0x8000_8000);
}

#[test]
fn metadata_default_unupsampled() {
    let meta = TerrainDiffusionMetadata::default();
    assert!(!meta.is_upsampled());
    assert_eq!(meta.effective_pixel_scale_m(), NATIVE_PIXEL_SCALE_M);
    assert_eq!(meta.stored_resolution(), 514);
}

#[test]
fn metadata_upsampled_flag() {
    let meta = TerrainDiffusionMetadata { api_scale: 4, ..TerrainDiffusionMetadata::default() };
    assert!(meta.is_upsampled());
    assert_eq!(meta.effective_pixel_scale_m(), 7);
}

#[test]
fn metadata_scale_zero_divisor_guarded() {
    let meta = TerrainDiffusionMetadata { api_scale: 0, ..TerrainDiffusionMetadata::default() };
    assert!(!meta.is_upsampled());
    assert_eq!(meta.effective_pixel_scale_m(), NATIVE_PIXEL_SCALE_M);
}

#[test]
fn model_revision_names_scale_and_upsampling() {
    assert_eq!(model_revision(1), "terrain-diffusion-native30m-api-scale1_NATIVE");
    assert_eq!(model_revision(4), "terrain-diffusion-native30m-api-scale4_UPSAMPLED");
    assert_eq!(model_revision(255), "terrain-diffusion-native30m-api-scale255_UPSAMPLED");
}

#[test]
fn tile_requests_cover_the_tile_and_its_halo() {
    assert_eq!(tile_request_window(0, 0, 0, 4), (-1, -1, 513, 513));
    assert_eq!(tile_request_window(2, 3, 1, 4), (4607, 1535, 5121, 2049));
    assert_eq!(
        tile_request_path(0, 0, 0, 4, 1, 7),
        "/terrain?i1=-1&j1=-1&i2=513&j2=513&scale=1&seed=7"
    );
    assert_eq!(
        tile_request_path(2, 3, 1, 4, 4, 0xC0FFEE),
        "/terrain?i1=4607&j1=1535&i2=5121&j2=2049&scale=4&seed=12648430"
    );
    assert!(is_stored_tile_shape(514, 514));
    assert!(!is_stored_tile_shape(514, 512));
}

#[test]
fn cross_generation_bound_scales_with_active_chunks_and_shifts() {
    assert!(cross_generation_work_is_bounded(100, 0, 100));
    assert!(!cross_generation_work_is_bounded(101, 0, 100));
    assert!(cross_generation_work_is_bounded(300, 2, 100));
    assert!(!cross_generation_work_is_bounded(301, 2, 100));
    assert!(cross_generation_work_is_bounded(usize::MAX, u64::MAX, 2));
}

#[test]
fn provider_timing_max_and_total() {
    let mut h = ProviderTimingHistory::default();
    assert_eq!(h.max_us(), None);
    assert_eq!(h.total_us(), 0);
    for us in [300u64, 1_200, 50] {
        h.add_us(us);
        h.finalize_frame();
    }
    h.add_us(u64::MAX);
    h.add_us(5);
    h.finalize_frame();
    assert_eq!(h.max_us(), Some(u64::MAX));
    assert_eq!(h.total_us(), 1_550u128 + u64::MAX as u128);
}

// Percentile ranks are rounded from `pct / 100 * (len - 1)` by the caller.
fn percentile_rank(len: usize, pct: f64) -> usize {
    ((pct / 100.0) * (len as f64 - 1.0)).round() as usize
}

#[test]
fn provider_timing_empty_returns_none() {
    let timing = ProviderTimingHistory::default();
    assert!(timing.is_empty());
    assert_eq!(timing.len(), 0);
    assert_eq!(timing.sample_at_rank(0), None);
    assert_eq!(timing.max_us(), None);
    assert!(timing.sorted_samples_us().is_empty());
}

#[test]
fn provider_timing_percentiles_correct() {
    let mut timing = ProviderTimingHistory::default();
    for i in [7u64, 3, 10, 1, 9, 2, 8, 4, 6, 5] {
        timing.add_us(i * 100);
        timing.finalize_frame();
    }
    assert_eq!(timing.len(), 10);
    assert_eq!(timing.sample_at_rank(percentile_rank(10, 50.0)), Some(600));
    assert_eq!(timing.sample_at_rank(percentile_rank(10, 95.0)), Some(1_000));
    assert_eq!(timing.sample_at_rank(usize::MAX), Some(1_000));
    assert_eq!(timing.max_us(), Some(1_000));
    assert_eq!(timing.sorted_samples_us(), (1..=10).map(|i| i * 100).collect::<Vec<u64>>());
}

// Tile counts per face edge come from the planet radius in floating point:
// 4 for the 36 km miniature planet and 652 at Earth scale.
#[test]
fn chart_level_for_actual_planet_radii() {
    let tiles = |radius: f64| ((std::f64::consts::PI * radius / 2.0) / (512.0 * 30.0)).ceil() as u16;
    let miniature = tiles(36_000.0);
    assert_eq!(miniature, 4);
    assert_eq!(compute_chart_level(miniature), 2);
    let earth = tiles(6_371_000.0);
    assert_eq!(earth, 652);
    assert_eq!(compute_chart_level(earth), 10);
}

#[test]
fn stale_refresh_key_is_not_compatible_with_reused_entity() {
    let queued = CellKey { face: 1, i: 3, j: 4, lod: 6 };
    let current = CellKey { j: 5, ..queued };
    assert!(!er_planet::chunk::pending_mesh_matches_chunk(current, queued));
}

#[test]
fn adapter_choice_prefers_most_dedicated_memory_first_on_ties() {
    assert_eq!(best_adapter_index(&[]), None);
    assert_eq!(best_adapter_index(&[0]), Some(0));
    assert_eq!(best_adapter_index(&[512, 8192, 1024]), Some(1));
    assert_eq!(best_adapter_index(&[4096, 1024, 4096]), Some(0));
    assert_eq!(best_adapter_index(&[0, 0, 1]), Some(2));
}

#[test]
fn adapter_sample_is_available_only_with_memory_figures() {
    let full = adapter_sample("GPU".to_string(), 0x10de, 0x2204, 24 << 30, Some((20 << 30, 3 << 30, 1 << 30)));
    assert_eq!(full.status, GpuTelemetryStatus::Available);
    assert!(full.is_available());
    assert_eq!((full.vram_budget_bytes, full.vram_usage_bytes, full.vram_reservation_bytes), (20 << 30, 3 << 30, 1 << 30));
    assert_eq!((full.vendor_id, full.device_id, full.dedicated_video_memory_bytes), (0x10de, 0x2204, 24 << 30));
    let partial = adapter_sample("GPU".to_string(), 1, 2, 3, None);
    assert_eq!(partial.status, GpuTelemetryStatus::Partial);
    assert_eq!(partial.description, "GPU");
    assert_eq!((partial.vram_budget_bytes, partial.vram_usage_bytes, partial.vram_reservation_bytes), (0, 0, 0));
}

#[test]
fn mesh_dispatch_drops_stale_requests_and_starts_only_the_free_slots() {
    let key = |i: u32| CellKey { face: 2, i, j: 1, lod: 4 };
    let requests = [(1, key(1)), (2, key(2)), (3, key(3)), (4, key(4))];
    // Entity 2 now holds another cell; entity 4 is gone.
    let live = [(1, key(1)), (2, key(9)), (3, key(3))];
    let kept = live_mesh_requests(&requests, &live);
    assert_eq!(kept, vec![(1, key(1)), (3, key(3))]);
    let (now, later) = split_mesh_dispatch(&kept, 1);
    assert_eq!(now, vec![(1, key(1))]);
    assert_eq!(later, vec![(3, key(3))]);
    let (now, later) = split_mesh_dispatch(&kept, 8);
    assert_eq!((now.len(), later.len()), (2, 0));
    let (now, later) = split_mesh_dispatch(&kept, 0);
    assert_eq!((now.len(), later.len()), (0, 2));
}
