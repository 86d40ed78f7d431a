# er_planet

A verified library for a spherified-cube planet terrain engine, written in
Verus. `src/` holds the logic with its contracts and proofs; `app/` is a small
command-line program around it with the floating-point geometry and the
process-level I/O.

## Library modules (`src/`)

- `cell`, `quadtree`: cell keys on the six cube faces, exact edge adjacency
  across faces, split/merge navigation, the active-chunk table, coarser
  neighbour search for edge stitching and 2:1 balancing, the set of chunks
  whose stitching must be rebuilt, stitch neighbourhoods and the containing-ancestor walk.
- `lod_queue`: a frame of the LOD queue (which pending splits and merges
  are carried out under the budget, on the balancing target, respecting
  retained handoffs) and the split and merge requests of a LOD update.
- `handoff`: finishing retained split and merge handoffs (who fades,
  who is despawned, who is revealed) under the handoff draw budget.
- `field_refresh`: rebuilding chunk meshes after new terrain-field data,
  with the bounded waiting queue.
- `screenshot`: the per-frame decisions of a screenshot run.
- `mesh`: vertex layout, the chunk index buffer (surface grid and skirts)
  and which cube faces need reversed winding.
- `surface_test`: command-line options of the timed surface-streaming test.
- `rng`, `seed`: ChaCha8 streams and per-planet seeds.
- `cli`, `launch`, `text`, `settings`: command-line options, seed values, the
  settings file and a small verified text toolkit.
- `terrain_response`, `streaming`: the terrain sidecar's HTTP reply format,
  tile request paths, chart levels and provider timing history.
- `chunk`, `chunk_cap`, `scheduling`, `culling`, `frame_timing`,
  `profiler`, `gpu_telemetry`, `config`, `terrain`: chunk bookkeeping, the
  frame-budget controller for the chunk cap, mesh work budgets, stage timing
  and telemetry records.

## Layout

- `src/`: verified library (run Verus on `src/lib.rs`).
- `tests/`: integration tests of the library.
- `app/`: the command-line program (`app/main.rs`).
