//! Planet terrain library: spherified-cube cell keys and adjacency, the
//! per-face quadtree, chunk index buffers, deterministic seeds, command-line
//! and settings-file reading, the terrain sidecar's reply format, and the
//! decisions that budget terrain work (chunk cap, mesh admission, stage
//! timing, benchmark progress).

pub mod cell;
pub mod quadtree;
pub mod lod_queue;
pub mod screenshot;
pub mod field_refresh;
pub mod surface_test;
pub mod handoff;
pub mod config;
pub mod chunk;
pub mod chunk_cap;
pub mod culling;
pub mod terrain;
pub mod mesh;
pub mod text;
pub mod cli;
pub mod launch;
pub mod settings;
pub mod rng;
pub mod seed;
pub mod profiler;
pub mod frame_timing;
pub mod gpu_telemetry;
pub mod streaming;
pub mod terrain_response;
pub mod scheduling;
pub mod bench;
