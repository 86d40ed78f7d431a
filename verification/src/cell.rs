//! Spherical quadtree cell keys on the six faces of a spherified cube and
//! their edge adjacency.
//!
//! Faces are numbered 0..5 = +X, -X, +Y, -Y, +Z, -Z. Face `f` fixes axis
//! `f / 2` at `+1` (even `f`) or `-1` (odd `f`); its `u` coordinate runs along
//! the positive direction of axis `[1, 1, 0, 0, 0, 0][f]` and its `v`
//! coordinate along axis `[2, 2, 2, 2, 1, 1][f]`. A cell `(i, j)` at level
//! `lod` covers `u` in `[i, i + 1] / 2^lod` and `v` in `[j, j + 1] / 2^lod`.
//!
//! Adjacency is exact integer arithmetic: a step inside a face moves the
//! index by one; a step off a face lands on the face of the stepped axis,
//! in the row touching the shared cube edge, keeping the index along the
//! axis both faces share.

use vstd::prelude::*;
use vstd::arithmetic::power2::pow2;
use vstd::bits::{lemma_u32_shl_is_mul, lemma_u32_pow2_no_overflow};

verus! {

/// Number of cube faces.
pub const FACE_COUNT: usize = 6;

/// A leaf of a per-face quadtree: cell `(i, j)` of face `face` at level `lod`,
/// where a face has `2^lod` cells per edge (level 0 is the whole face).
#[derive(Clone, Copy, Debug, PartialEq, Eq, Hash, Structural)]
pub struct CellKey {
    pub face: u8,
    pub i: u32,
    pub j: u32,
    pub lod: u8,
}

/// Which of the four cell edges a neighbour lies across.
#[derive(Clone, Copy, Debug, PartialEq, Eq, Structural)]
pub enum NeighborSide {
    NegU,
    PosU,
    NegV,
    PosV,
}

/// Cells per face edge at level `lod`.
pub open spec fn edge_cells(lod: u8) -> nat {
    pow2(lod as nat)
}

impl CellKey {
    /// A key names an actual cell: a real face, a level whose cell count fits
    /// in `u32`, and indices inside the face.
    pub open spec fn wf(self) -> bool {
        &&& self.face < 6
        &&& self.lod < 32
        &&& self.i < edge_cells(self.lod)
        &&& self.j < edge_cells(self.lod)
    }
}

/// Axis fixed by a face (0 = x, 1 = y, 2 = z).
pub open spec fn face_axis(face: u8) -> int {
    face as int / 2
}

/// Whether a face sits on the positive end of its axis.
pub open spec fn face_is_positive(face: u8) -> bool {
    face % 2 == 0
}

/// Axis along which a face's `u` coordinate increases.
pub open spec fn face_u_axis(face: u8) -> int {
    if face < 2 { 1 } else { 0 }
}

/// Axis along which a face's `v` coordinate increases.
pub open spec fn face_v_axis(face: u8) -> int {
    if face < 4 { 2 } else { 1 }
}

/// The face fixing `axis` at its positive or negative end.
pub open spec fn face_on_axis(axis: int, positive: bool) -> u8 {
    (axis * 2 + if positive { 0int } else { 1int }) as u8
}

/// Whether a side steps along `u` (otherwise along `v`).
pub open spec fn side_steps_u(side: NeighborSide) -> bool {
    side is NegU || side is PosU
}

/// Whether a side steps toward increasing coordinates.
pub open spec fn side_is_positive(side: NeighborSide) -> bool {
    side is PosU || side is PosV
}

/// The side stepping along `u` (if `steps_u`) or `v`, in the given direction.
pub open spec fn side_of(steps_u: bool, positive: bool) -> NeighborSide {
    if steps_u {
        if positive { NeighborSide::PosU } else { NeighborSide::NegU }
    } else {
        if positive { NeighborSide::PosV } else { NeighborSide::NegV }
    }
}

/// Whether the step across `side` stays on the key's own face.
pub open spec fn step_stays_on_face(key: CellKey, side: NeighborSide) -> bool {
    let idx = if side_steps_u(side) { key.i as int } else { key.j as int };
    if side_is_positive(side) {
        idx + 1 < edge_cells(key.lod)
    } else {
        idx > 0
    }
}

/// The cell adjacent to `key` across `side`, on the same face or, at a face
/// edge, on the adjoining face.
pub open spec fn spec_cell_neighbor(key: CellKey, side: NeighborSide) -> CellKey {
    let n = edge_cells(key.lod);
    let positive = side_is_positive(side);
    if step_stays_on_face(key, side) {
        if side_steps_u(side) {
            CellKey {
                face: key.face,
                i: (if positive { key.i + 1 } else { key.i - 1 }) as u32,
                j: key.j,
                lod: key.lod,
            }
        } else {
            CellKey {
                face: key.face,
                i: key.i,
                j: (if positive { key.j + 1 } else { key.j - 1 }) as u32,
                lod: key.lod,
            }
        }
    } else {
        let fixed = face_axis(key.face);
        let stepped = if side_steps_u(side) {
            face_u_axis(key.face)
        } else {
            face_v_axis(key.face)
        };
        let shared = 3 - fixed - stepped;
        let target = face_on_axis(stepped, positive);
        let fixed_idx = (if face_is_positive(key.face) { n - 1 } else { 0 }) as u32;
        let shared_idx = if shared == face_u_axis(key.face) { key.i } else { key.j };
        if face_u_axis(target) == fixed {
            CellKey { face: target, i: fixed_idx, j: shared_idx, lod: key.lod }
        } else {
            CellKey { face: target, i: shared_idx, j: fixed_idx, lod: key.lod }
        }
    }
}

/// The side of `spec_cell_neighbor(key, side)` that leads back to `key`.
pub open spec fn back_side(key: CellKey, side: NeighborSide) -> NeighborSide {
    if step_stays_on_face(key, side) {
        side_of(side_steps_u(side), !side_is_positive(side))
    } else {
        let target = spec_cell_neighbor(key, side).face;
        side_of(face_u_axis(target) == face_axis(key.face), face_is_positive(key.face))
    }
}

/// Cells per face edge at `lod`: `2^lod`.
pub fn cells_per_edge(lod: u8) -> (n: u32)
    requires
        lod < 32,
    ensures
        n == edge_cells(lod),
        n >= 1,
{
    proof {
        lemma_u32_pow2_no_overflow(lod as nat);
        lemma_u32_shl_is_mul(1, lod as u32);
    }
    1u32 << (lod as u32)
}

/// One neighbour of a cell, across its `side` edge, wrapping onto the
/// adjoining cube face at face edges.
pub fn cell_neighbor(key: CellKey, side: NeighborSide) -> (nb: CellKey)
    requires
        key.wf(),
    ensures
        nb == spec_cell_neighbor(key, side),
        nb.wf(),
        nb.lod == key.lod,
{
    let n = cells_per_edge(key.lod);
    let (steps_u, positive) = match side {
        NeighborSide::NegU => (true, false),
        NeighborSide::PosU => (true, true),
        NeighborSide::NegV => (false, false),
        NeighborSide::PosV => (false, true),
    };
    let idx = if steps_u { key.i } else { key.j };
    let stays = if positive { idx < n - 1 } else { idx > 0 };
    if stays {
        let moved = if positive { idx + 1 } else { idx - 1 };
        if steps_u {
            CellKey { face: key.face, i: moved, j: key.j, lod: key.lod }
        } else {
            CellKey { face: key.face, i: key.i, j: moved, lod: key.lod }
        }
    } else {
        let face = key.face;
        let fixed: u8 = face / 2;
        let u_axis: u8 = if face < 2 { 1 } else { 0 };
        let v_axis: u8 = if face < 4 { 2 } else { 1 };
        let stepped: u8 = if steps_u { u_axis } else { v_axis };
        let shared: u8 = 3 - fixed - stepped;
        let target: u8 = stepped * 2 + if positive { 0 } else { 1 };
        let fixed_idx: u32 = if face % 2 == 0 { n - 1 } else { 0 };
        let shared_idx: u32 = if shared == u_axis { key.i } else { key.j };
        let target_u_axis: u8 = if target < 2 { 1 } else { 0 };
        if target_u_axis == fixed {
            CellKey { face: target, i: fixed_idx, j: shared_idx, lod: key.lod }
        } else {
            CellKey { face: target, i: shared_idx, j: fixed_idx, lod: key.lod }
        }
    }
}

/// All four neighbours in the order `[NegU, PosU, NegV, PosV]`.
pub fn cell_neighbors(key: CellKey) -> (nbs: [CellKey; 4])
    requires
        key.wf(),
    ensures
        nbs[0] == spec_cell_neighbor(key, NeighborSide::NegU),
        nbs[1] == spec_cell_neighbor(key, NeighborSide::PosU),
        nbs[2] == spec_cell_neighbor(key, NeighborSide::NegV),
        nbs[3] == spec_cell_neighbor(key, NeighborSide::PosV),
{
    [
        cell_neighbor(key, NeighborSide::NegU),
        cell_neighbor(key, NeighborSide::PosU),
        cell_neighbor(key, NeighborSide::NegV),
        cell_neighbor(key, NeighborSide::PosV),
    ]
}

/// Every cell has a neighbour across each of its four edges, and that
/// neighbour is again a cell at the same level.
pub proof fn lemma_neighbor_is_cell(key: CellKey, side: NeighborSide)
    requires
        key.wf(),
    ensures
        spec_cell_neighbor(key, side).wf(),
        spec_cell_neighbor(key, side).lod == key.lod,
{
    lemma_u32_pow2_no_overflow(key.lod as nat);
}

/// Adjacency is symmetric: stepping across an edge and then back across the
/// matching edge of the neighbour returns to the starting cell.
pub proof fn lemma_neighbor_symmetric(key: CellKey, side: NeighborSide)
    requires
        key.wf(),
    ensures
        spec_cell_neighbor(spec_cell_neighbor(key, side), back_side(key, side)) == key,
{
    lemma_u32_pow2_no_overflow(key.lod as nat);
    if !step_stays_on_face(key, side) {
        lemma_crossing_cases(key, side);
    }
}

proof fn lemma_face_axes(face: u8)
    requires
        face < 6,
    ensures
        0 <= face_axis(face) < 3,
        0 <= face_u_axis(face) < 3,
        0 <= face_v_axis(face) < 3,
        face_axis(face) != face_u_axis(face),
        face_axis(face) != face_v_axis(face),
        face_u_axis(face) != face_v_axis(face),
        face_on_axis(face_axis(face), face_is_positive(face)) == face,
{
}

proof fn lemma_face_on_axis(axis: int, positive: bool)
    requires
        0 <= axis < 3,
    ensures
        face_on_axis(axis, positive) < 6,
        face_axis(face_on_axis(axis, positive)) == axis,
        face_is_positive(face_on_axis(axis, positive)) == positive,
{
}

proof fn lemma_crossing_cases(key: CellKey, side: NeighborSide)
    requires
        key.wf(),
        !step_stays_on_face(key, side),
    ensures
        !step_stays_on_face(spec_cell_neighbor(key, side), back_side(key, side)),
        spec_cell_neighbor(spec_cell_neighbor(key, side), back_side(key, side)) == key,
{
    lemma_u32_pow2_no_overflow(key.lod as nat);
    let n = edge_cells(key.lod);
    let f = key.face;
    let pos = side_is_positive(side);
    let fixed = face_axis(f);
    let stepped = if side_steps_u(side) { face_u_axis(f) } else { face_v_axis(f) };
    let shared = 3 - fixed - stepped;
    lemma_face_axes(f);
    lemma_face_on_axis(stepped, pos);
    let g = face_on_axis(stepped, pos);
    lemma_face_axes(g);
    lemma_face_on_axis(fixed, face_is_positive(f));
    let nb = spec_cell_neighbor(key, side);
    assert(nb.face == g);
    let back = back_side(key, side);
    assert(side_steps_u(back) == (face_u_axis(g) == fixed));
    assert(side_is_positive(back) == face_is_positive(f));
    let stepped2 = if side_steps_u(back) { face_u_axis(g) } else { face_v_axis(g) };
    assert(stepped2 == fixed);
    assert(3 - face_axis(g) - stepped2 == shared);
    assert(face_on_axis(stepped2, side_is_positive(back)) == f);
    let fixed_idx = if face_is_positive(f) { n - 1 } else { 0 };
    let shared_idx = if shared == face_u_axis(f) { key.i } else { key.j };
    let back_idx = if side_steps_u(back) { nb.i } else { nb.j };
    assert(back_idx == fixed_idx);
    assert((if shared == face_u_axis(g) { nb.i } else { nb.j }) == shared_idx);
    let step_idx = if side_steps_u(side) { key.i } else { key.j };
    assert(step_idx == if pos { n - 1 } else { 0 });
    assert(!step_stays_on_face(nb, back));
    let res = spec_cell_neighbor(nb, back);
    assert(res.face == f);
    if face_u_axis(f) == stepped {
        assert(key.i == step_idx);
        assert(key.j == shared_idx);
    } else {
        assert(face_v_axis(f) == stepped);
        assert(key.j == step_idx);
        assert(key.i == shared_idx);
    }
}

/// Inside a face (away from its edges) the neighbours are the cells whose
/// index differs by one along the stepped coordinate.
pub proof fn lemma_interior_neighbors(key: CellKey)
    requires
        key.wf(),
        0 < key.i,
        key.i + 1 < edge_cells(key.lod),
        0 < key.j,
        key.j + 1 < edge_cells(key.lod),
    ensures
        spec_cell_neighbor(key, NeighborSide::NegU) == (CellKey { i: (key.i - 1) as u32, ..key }),
        spec_cell_neighbor(key, NeighborSide::PosU) == (CellKey { i: (key.i + 1) as u32, ..key }),
        spec_cell_neighbor(key, NeighborSide::NegV) == (CellKey { j: (key.j - 1) as u32, ..key }),
        spec_cell_neighbor(key, NeighborSide::PosV) == (CellKey { j: (key.j + 1) as u32, ..key }),
{
}

} // verus!
