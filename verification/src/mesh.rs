//! Chunk mesh topology: vertex layout, the triangle index buffer of a chunk
//! (surface grid plus four edge skirts), and the mesh memory estimate.
//!
//! A chunk has `N = CHUNK_VERT_RES` vertices per edge. Surface vertex
//! `(gi, gj)` has index `gj * N + gi`; after the `N * N` surface vertices come
//! four skirt strips of `N` vertices each (top `gj = 0`, bottom `gj = N - 1`,
//! left `gi = 0`, right `gi = N - 1`), each hanging below its surface edge.

use vstd::prelude::*;
use crate::cell::{face_axis, face_is_positive, face_u_axis, face_v_axis, NeighborSide};
use crate::config::{CHUNK_QUADS_PER_EDGE, CHUNK_VERT_RES};

verus! {

/// Bytes of vertex attribute data per terrain vertex.
pub const BYTES_PER_VERTEX: usize = 52;

/// Vertices per chunk: the surface grid plus four skirt strips.
pub const VERTS_PER_CHUNK: usize = 17 * 17 + 4 * 17;

/// Indices per chunk: two triangles per surface quad and per skirt quad.
pub const INDICES_PER_CHUNK: usize = 16 * 16 * 6 + 4 * 16 * 6;

/// Estimated GPU bytes of one chunk mesh: vertex data plus its indices.
pub const ESTIMATED_BYTES_PER_CHUNK_MESH: usize = VERTS_PER_CHUNK * BYTES_PER_VERTEX
    + INDICES_PER_CHUNK * 2;

/// The triangle `(a, b, c)`, or `(a, c, b)` when the winding is flipped.
pub open spec fn tri(a: int, b: int, c: int, flip: bool) -> Seq<u32> {
    if flip {
        seq![a as u32, c as u32, b as u32]
    } else {
        seq![a as u32, b as u32, c as u32]
    }
}

proof fn lemma_tri_len(a: int, b: int, c: int, flip: bool)
    ensures
        #[trigger] tri(a, b, c, flip).len() == 3,
{
}

/// Appends one triangle, in flipped winding when `flip`.
pub fn append_tri(indices: &mut Vec<u32>, a: u32, b: u32, c: u32, flip: bool)
    ensures
        final(indices)@ == old(indices)@ + tri(a as int, b as int, c as int, flip),
{
    if flip {
        indices.push(a);
        indices.push(c);
        indices.push(b);
    } else {
        indices.push(a);
        indices.push(b);
        indices.push(c);
    }
    proof {
        assert(final(indices)@ =~= old(indices)@ + tri(a as int, b as int, c as int, flip));
    }
}

/// Index of the `k`-th vertex along the surface edge on `side` of an
/// `n`-by-`n` vertex grid.
pub open spec fn spec_edge_vertex_index(side: NeighborSide, k: int, n: int) -> int {
    match side {
        NeighborSide::NegU => k * n,
        NeighborSide::PosU => k * n + n - 1,
        NeighborSide::NegV => k,
        NeighborSide::PosV => (n - 1) * n + k,
    }
}

/// Index of the `k`-th vertex along the chunk edge on `side`.
pub fn edge_vertex_index(side: NeighborSide, k: usize, n: usize) -> (idx: usize)
    requires
        1 <= n,
        k < n,
        n * n <= usize::MAX,
    ensures
        idx == spec_edge_vertex_index(side, k as int, n as int),
        idx < n * n,
{
    proof {
        assert(k * n + n - 1 < n * n) by (nonlinear_arith)
            requires k < n, 1 <= n;
        assert((n - 1) * n + k < n * n) by (nonlinear_arith)
            requires k < n, 1 <= n;
        assert(k * n <= k * n + n - 1);
    }
    match side {
        NeighborSide::NegU => k * n,
        NeighborSide::PosU => k * n + n - 1,
        NeighborSide::NegV => k,
        NeighborSide::PosV => (n - 1) * n + k,
    }
}

/// The two triangles of surface quad `(gi, gj)`.
pub open spec fn surface_quad(gi: int, gj: int, flip: bool) -> Seq<u32> {
    let v00 = gj * 17 + gi;
    let v10 = gj * 17 + gi + 1;
    let v01 = (gj + 1) * 17 + gi;
    let v11 = (gj + 1) * 17 + gi + 1;
    tri(v00, v10, v11, flip) + tri(v00, v11, v01, flip)
}

/// First vertex index of skirt strip `strip` (0 top, 1 bottom, 2 left,
/// 3 right).
pub open spec fn skirt_base(strip: int) -> int {
    289 + 17 * strip
}

/// The two triangles joining skirt quad `k` of strip `strip` to its surface
/// edge, wound to face outward.
pub open spec fn skirt_quad(strip: int, k: int, flip: bool) -> Seq<u32> {
    let s0 = skirt_base(strip) + k;
    let s1 = skirt_base(strip) + k + 1;
    if strip == 0 {
        tri(k, s0, s1, flip) + tri(k, s1, k + 1, flip)
    } else if strip == 1 {
        tri(272 + k, s1, s0, flip) + tri(272 + k, 272 + k + 1, s1, flip)
    } else if strip == 2 {
        tri(k * 17, s1, s0, flip) + tri(k * 17, (k + 1) * 17, s1, flip)
    } else {
        tri(k * 17 + 16, s0, s1, flip) + tri(k * 17 + 16, s1, (k + 1) * 17 + 16, flip)
    }
}

/// Quad number `q` of a chunk: the 256 surface quads row by row, then the
/// 16 quads of each skirt strip.
pub open spec fn chunk_quad(q: int, flip: bool) -> Seq<u32> {
    if q < 256 {
        surface_quad(q % 16, q / 16, flip)
    } else {
        skirt_quad((q - 256) / 16, (q - 256) % 16, flip)
    }
}

/// The complete index buffer of a chunk: the six indices of each quad in
/// quad order.
pub open spec fn spec_chunk_indices(flip: bool) -> Seq<u32> {
    Seq::new(1920, |t: int| chunk_quad(t / 6, flip)[t % 6])
}

proof fn lemma_extend(done: Seq<u32>, q: int, flip: bool)
    requires
        0 <= q < 320,
        done =~= spec_chunk_indices(flip).take(6 * q),
    ensures
        done + chunk_quad(q, flip) =~= spec_chunk_indices(flip).take(6 * (q + 1)),
{
    assert(chunk_quad(q, flip).len() == 6) by {
        if q < 256 {
        } else {
            let strip = (q - 256) / 16;
            assert(0 <= strip < 4);
        }
    }
    assert forall|t: int| 6 * q <= t < 6 * (q + 1) implies #[trigger] (done + chunk_quad(q, flip))[t]
        == spec_chunk_indices(flip)[t] by {
        assert(t / 6 == q);
        assert(t % 6 == t - 6 * q);
    }
}

/// Builds the triangle index buffer of a chunk mesh in 32-bit indices (see
/// `chunk_mesh_indices`).
fn chunk_mesh_indices_wide(flip_winding: bool) -> (indices: Vec<u32>)
    ensures
        indices@ == spec_chunk_indices(flip_winding),
        indices@.len() == INDICES_PER_CHUNK,
{
    let n: u32 = CHUNK_VERT_RES;
    let quads: u32 = CHUNK_QUADS_PER_EDGE;
    let mut indices: Vec<u32> = Vec::new();
    let ghost flip = flip_winding;

    let mut gj: u32 = 0;
    while gj < quads
        invariant
            flip == flip_winding,
            n == 17,
            quads == 16,
            gj <= 16,
            indices@ =~= spec_chunk_indices(flip).take(6 * (16 * gj)),
        decreases 16 - gj,
    {
        let mut gi: u32 = 0;
        while gi < quads
            invariant
                flip == flip_winding,
                n == 17,
                quads == 16,
                gj < 16,
                gi <= 16,
                indices@ =~= spec_chunk_indices(flip).take(6 * (16 * gj + gi)),
            decreases 16 - gi,
        {
            let ghost before = indices@;
            let v00 = gj * n + gi;
            let v10 = gj * n + gi + 1;
            let v01 = (gj + 1) * n + gi;
            let v11 = (gj + 1) * n + gi + 1;
            append_tri(&mut indices, v00, v10, v11, flip_winding);
            append_tri(&mut indices, v00, v11, v01, flip_winding);
            proof {
                let t1 = tri(v00 as int, v10 as int, v11 as int, flip);
                let t2 = tri(v00 as int, v11 as int, v01 as int, flip);
                lemma_tri_len(v00 as int, v10 as int, v11 as int, flip);
                lemma_tri_len(v00 as int, v11 as int, v01 as int, flip);
                assert(indices@ =~= before + (t1 + t2));
                let q = 16 * gj + gi;
                assert(q % 16 == gi && q / 16 == gj);
                assert(chunk_quad(q as int, flip) == surface_quad(gi as int, gj as int, flip));
                assert(v00 as int == gj * 17 + gi);
                assert(v11 as int == (gj + 1) * 17 + gi + 1);
                assert(v01 as int == (gj + 1) * 17 + gi);
                lemma_extend(before, q as int, flip);
                assert(indices@ =~= before + chunk_quad(q as int, flip));
            }
            gi = gi + 1;
        }
        gj = gj + 1;
    }

    let top_skirt: u32 = n * n;
    let bot_skirt: u32 = top_skirt + n;
    let left_skirt: u32 = bot_skirt + n;
    let right_skirt: u32 = left_skirt + n;

    let mut gi: u32 = 0;
    while gi < quads
        invariant
            flip == flip_winding,
            n == 17,
            quads == 16,
            top_skirt == 289,
            gi <= 16,
            indices@ =~= spec_chunk_indices(flip).take(6 * (256 + gi)),
        decreases 16 - gi,
    {
        let ghost before = indices@;
        let g0 = gi;
        let g1 = gi + 1;
        let s0 = top_skirt + gi;
        let s1 = top_skirt + gi + 1;
        append_tri(&mut indices, g0, s0, s1, flip_winding);
        append_tri(&mut indices, g0, s1, g1, flip_winding);
        proof {
            let t1 = tri(g0 as int, s0 as int, s1 as int, flip);
            let t2 = tri(g0 as int, s1 as int, g1 as int, flip);
            assert(t1.len() == 3 && t2.len() == 3);
            assert(indices@ =~= before + (t1 + t2));
            let q = 256 + gi;
            assert((q - 256) / 16 == 0 && (q - 256) % 16 == gi);
            assert(chunk_quad(q as int, flip) == skirt_quad(0, gi as int, flip));
            lemma_extend(before, q as int, flip);
            assert(indices@ =~= before + chunk_quad(q as int, flip));
        }
        gi = gi + 1;
    }

    let mut gi: u32 = 0;
    while gi < quads
        invariant
            flip == flip_winding,
            n == 17,
            quads == 16,
            bot_skirt == 306,
            gi <= 16,
            indices@ =~= spec_chunk_indices(flip).take(6 * (272 + gi)),
        decreases 16 - gi,
    {
        let ghost before = indices@;
        let g0 = (n - 1) * n + gi;
        let g1 = (n - 1) * n + gi + 1;
        let s0 = bot_skirt + gi;
        let s1 = bot_skirt + gi + 1;
        append_tri(&mut indices, g0, s1, s0, flip_winding);
        append_tri(&mut indices, g0, g1, s1, flip_winding);
        proof {
            let t1 = tri(g0 as int, s1 as int, s0 as int, flip);
            let t2 = tri(g0 as int, g1 as int, s1 as int, flip);
            assert(t1.len() == 3 && t2.len() == 3);
            assert(indices@ =~= before + (t1 + t2));
            let q = 272 + gi;
            assert((q - 256) / 16 == 1 && (q - 256) % 16 == gi);
            assert(chunk_quad(q as int, flip) == skirt_quad(1, gi as int, flip));
            lemma_extend(before, q as int, flip);
            assert(indices@ =~= before + chunk_quad(q as int, flip));
        }
        gi = gi + 1;
    }

    let mut gj: u32 = 0;
    while gj < quads
        invariant
            flip == flip_winding,
            n == 17,
            quads == 16,
            left_skirt == 323,
            gj <= 16,
            indices@ =~= spec_chunk_indices(flip).take(6 * (288 + gj)),
        decreases 16 - gj,
    {
        let ghost before = indices@;
        let g0 = gj * n;
        let g1 = (gj + 1) * n;
        let s0 = left_skirt + gj;
        let s1 = left_skirt + gj + 1;
        append_tri(&mut indices, g0, s1, s0, flip_winding);
        append_tri(&mut indices, g0, g1, s1, flip_winding);
        proof {
            let t1 = tri(g0 as int, s1 as int, s0 as int, flip);
            let t2 = tri(g0 as int, g1 as int, s1 as int, flip);
            assert(t1.len() == 3 && t2.len() == 3);
            assert(indices@ =~= before + (t1 + t2));
            let q = 288 + gj;
            assert((q - 256) / 16 == 2 && (q - 256) % 16 == gj);
            assert(chunk_quad(q as int, flip) == skirt_quad(2, gj as int, flip));
            lemma_extend(before, q as int, flip);
            assert(indices@ =~= before + chunk_quad(q as int, flip));
        }
        gj = gj + 1;
    }

    let mut gj: u32 = 0;
    while gj < quads
        invariant
            flip == flip_winding,
            n == 17,
            quads == 16,
            right_skirt == 340,
            gj <= 16,
            indices@ =~= spec_chunk_indices(flip).take(6 * (304 + gj)),
        decreases 16 - gj,
    {
        let ghost before = indices@;
        let g0 = gj * n + (n - 1);
        let g1 = (gj + 1) * n + (n - 1);
        let s0 = right_skirt + gj;
        let s1 = right_skirt + gj + 1;
        append_tri(&mut indices, g0, s0, s1, flip_winding);
        append_tri(&mut indices, g0, s1, g1, flip_winding);
        proof {
            let t1 = tri(g0 as int, s0 as int, s1 as int, flip);
            let t2 = tri(g0 as int, s1 as int, g1 as int, flip);
            assert(t1.len() == 3 && t2.len() == 3);
            assert(indices@ =~= before + (t1 + t2));
            let q = 304 + gj;
            assert((q - 256) / 16 == 3 && (q - 256) % 16 == gj);
            assert(chunk_quad(q as int, flip) == skirt_quad(3, gj as int, flip));
            lemma_extend(before, q as int, flip);
            assert(indices@ =~= before + chunk_quad(q as int, flip));
        }
        gj = gj + 1;
    }
    proof {
        assert(spec_chunk_indices(flip).take(6 * 320int) =~= spec_chunk_indices(flip));
    }
    indices
}

proof fn lemma_quad_in_range(q: int, flip: bool)
    requires
        0 <= q < 320,
    ensures
        chunk_quad(q, flip).len() == 6,
        forall|m: int| 0 <= m < 6 ==> (#[trigger] chunk_quad(q, flip)[m]) < 357,
{
    if q < 256 {
        assert(q / 16 < 16 && q % 16 < 16);
    } else {
        let strip = (q - 256) / 16;
        assert(0 <= strip < 4);
        assert((q - 256) % 16 < 16);
    }
}

/// Every index of a chunk's index buffer names one of its
/// `VERTS_PER_CHUNK` vertices, whichever winding is used.
pub proof fn lemma_chunk_indices_in_range(flip: bool)
    ensures
        spec_chunk_indices(flip).len() == INDICES_PER_CHUNK,
        forall|t: int| 0 <= t < INDICES_PER_CHUNK ==> (#[trigger] spec_chunk_indices(flip)[t]) < VERTS_PER_CHUNK,
{
    assert forall|t: int| 0 <= t < INDICES_PER_CHUNK implies (#[trigger] spec_chunk_indices(flip)[t]) < VERTS_PER_CHUNK by {
        lemma_quad_in_range(t / 6, flip);
    }
}

/// Flipping the winding reverses every triangle: triangle `(a, b, c)` of the
/// unflipped buffer is `(a, c, b)` in the flipped one.
pub proof fn lemma_flip_reverses_triangles(k: int)
    requires
        0 <= k < INDICES_PER_CHUNK / 3,
    ensures
        spec_chunk_indices(true)[3 * k] == spec_chunk_indices(false)[3 * k],
        spec_chunk_indices(true)[3 * k + 1] == spec_chunk_indices(false)[3 * k + 2],
        spec_chunk_indices(true)[3 * k + 2] == spec_chunk_indices(false)[3 * k + 1],
{
    let q = k / 2;
    lemma_quad_in_range(q, true);
    lemma_quad_in_range(q, false);
    assert((3 * k) / 6 == q && (3 * k + 1) / 6 == q && (3 * k + 2) / 6 == q);
    if q >= 256 {
        let strip = (q - 256) / 16;
        assert(0 <= strip < 4);
    }
}

/// Builds the triangle index buffer of a chunk mesh as 16-bit indices (every
/// index names one of the `VERTS_PER_CHUNK` vertices): two triangles per
/// surface quad, then two per quad of the top, bottom, left and right skirt
/// strips. `flip_winding` reverses every triangle, for faces whose `(u, v)`
/// parameterisation is left-handed.
pub fn chunk_mesh_indices(flip_winding: bool) -> (indices: Vec<u16>)
    ensures
        indices@.len() == INDICES_PER_CHUNK,
        forall|t: int| 0 <= t < INDICES_PER_CHUNK ==> #[trigger] indices@[t] as int == spec_chunk_indices(flip_winding)[t],
        forall|t: int| 0 <= t < INDICES_PER_CHUNK ==> #[trigger] indices@[t] < VERTS_PER_CHUNK,
{
    let wide = chunk_mesh_indices_wide(flip_winding);
    proof {
        lemma_chunk_indices_in_range(flip_winding);
    }
    let mut indices: Vec<u16> = Vec::new();
    let mut t: usize = 0;
    while t < wide.len()
        invariant
            wide@ == spec_chunk_indices(flip_winding),
            wide@.len() == INDICES_PER_CHUNK,
            forall|m: int| 0 <= m < INDICES_PER_CHUNK ==> (#[trigger] wide@[m]) < VERTS_PER_CHUNK,
            t <= wide@.len(),
            indices@.len() == t,
            forall|m: int| 0 <= m < t ==> #[trigger] indices@[m] as int == wide@[m],
        decreases wide@.len() - t,
    {
        let x = wide[t];
        assert(x < VERTS_PER_CHUNK);
        indices.push(x as u16);
        t = t + 1;
    }
    indices
}

/// Orientation of the axis triple `(a, b, c)` (0 = x, 1 = y, 2 = z): 1 when
/// it is a cyclic order of x, y, z, -1 when anticyclic, 0 when an axis
/// repeats (the sign of `e_a x e_b . e_c`).
pub open spec fn axis_orientation(a: int, b: int, c: int) -> int {
    if a == b || b == c || a == c {
        0
    } else if (b - a + 3) % 3 == 1 {
        1
    } else {
        -1
    }
}

/// Whether a face's `(u, v)` frame is left-handed seen from outside the
/// planet: `u x v` points inward, against the face's outward normal.
pub open spec fn face_is_left_handed(face: u8) -> bool {
    axis_orientation(face_u_axis(face), face_v_axis(face), face_axis(face))
        * (if face_is_positive(face) { 1int } else { -1int }) < 0
}

/// Whether chunks on `face` need reversed triangles to face outward: the
/// faces whose `(u, v)` frame is left-handed, which are faces 1, 2 and 5.
pub fn face_flips_winding(face: u8) -> (flip: bool)
    requires
        face < 6,
    ensures
        flip == face_is_left_handed(face),
        flip == (face == 1 || face == 2 || face == 5),
{
    proof {
        assert(axis_orientation(1, 2, 0) == 1);
        assert(axis_orientation(0, 2, 1) == -1);
        assert(axis_orientation(0, 1, 2) == 1);
        if face == 0 {
            assert(face_axis(face) == 0 && face_u_axis(face) == 1 && face_v_axis(face) == 2);
            assert(face_is_positive(face) == true);
            assert(!face_is_left_handed(face));
        }
        if face == 1 {
            assert(face_axis(face) == 0 && face_u_axis(face) == 1 && face_v_axis(face) == 2);
            assert(face_is_positive(face) == false);
            assert(face_is_left_handed(face));
        }
        if face == 2 {
            assert(face_axis(face) == 1 && face_u_axis(face) == 0 && face_v_axis(face) == 2);
            assert(face_is_positive(face) == true);
            assert(face_is_left_handed(face));
        }
        if face == 3 {
            assert(face_axis(face) == 1 && face_u_axis(face) == 0 && face_v_axis(face) == 2);
            assert(face_is_positive(face) == false);
            assert(!face_is_left_handed(face));
        }
        if face == 4 {
            assert(face_axis(face) == 2 && face_u_axis(face) == 0 && face_v_axis(face) == 1);
            assert(face_is_positive(face) == true);
            assert(!face_is_left_handed(face));
        }
        if face == 5 {
            assert(face_axis(face) == 2 && face_u_axis(face) == 0 && face_v_axis(face) == 1);
            assert(face_is_positive(face) == false);
            assert(face_is_left_handed(face));
        }
    }
    face == 1 || face == 2 || face == 5
}

/// The index buffer of a chunk on `face`: `chunk_mesh_indices` with the
/// winding reversed exactly on the left-handed faces.
pub fn chunk_mesh_indices_for_face(face: u8) -> (indices: Vec<u16>)
    requires
        face < 6,
    ensures
        indices@.len() == INDICES_PER_CHUNK,
        forall|t: int| 0 <= t < INDICES_PER_CHUNK ==>
            #[trigger] indices@[t] as int == spec_chunk_indices(face_is_left_handed(face))[t],
{
    let flip = face_flips_winding(face);
    chunk_mesh_indices(flip)
}

/// The triangle of the unflipped index buffer that traverses the directed
/// edge `a -> b`: surface quad `(gi, gj)` is number `16 gj + gi` and skirt
/// quad `k` of strip `s` is number `256 + 16 s + k`, and quad `q` holds
/// triangles `2q` and `2q + 1`.
#[verifier::opaque]
pub open spec fn edge_owner(a: int, b: int) -> int {
    if a < 289 && b < 289 {
        let r = a / 17;
        let c = a % 17;
        if b == a + 1 {
            if r < 16 { 2 * (16 * r + c) } else { 2 * (272 + c) + 1 }
        } else if b == a + 17 {
            if c >= 1 { 2 * (16 * r + c - 1) } else { 2 * (288 + r) + 1 }
        } else if b == a - 18 {
            2 * (16 * (r - 1) + c - 1)
        } else if b == a + 18 {
            2 * (16 * r + c) + 1
        } else if b == a - 1 {
            if r >= 1 { 2 * (16 * (r - 1) + c - 1) + 1 } else { 2 * (256 + a - 1) + 1 }
        } else if c <= 15 {
            2 * (16 * (r - 1) + c) + 1
        } else {
            2 * (304 + r - 1) + 1
        }
    } else if a < 289 {
        if b < 306 {
            if b - 289 == a { 2 * (256 + a) } else { 2 * (256 + a) + 1 }
        } else if b < 323 {
            if b - a == 35 { 2 * a } else { 2 * (a - 1) + 1 }
        } else if b < 340 {
            if b - 324 == a / 17 { 2 * (288 + a / 17) } else { 2 * (288 + a / 17 - 1) + 1 }
        } else {
            if b - 340 == a / 17 { 2 * (304 + a / 17) } else { 2 * (304 + a / 17) + 1 }
        }
    } else if b < 289 {
        if a < 306 {
            if b == a - 290 { 2 * (a - 34) } else { 2 * (a - 34) + 1 }
        } else if a < 323 {
            if a - b == 34 { 2 * (a - 34) } else { 2 * (a - 35) + 1 }
        } else if a < 340 {
            if b == 17 * (a - 323) { 2 * (a - 35) } else { 2 * (a - 36) + 1 }
        } else {
            if b == 17 * (a - 341) + 16 { 2 * (a - 37) } else { 2 * (a - 37) + 1 }
        }
    } else {
        if a < 306 {
            2 * (a - 33)
        } else if a < 323 {
            2 * (a - 35)
        } else if a < 340 {
            2 * (a - 36)
        } else {
            2 * (a - 36)
        }
    }
}

proof fn lemma_div17(g: int, c: int)
    requires
        0 <= g,
        0 <= c < 17,
    ensures
        (17 * g + c) / 17 == g,
        (17 * g + c) % 17 == c,
{
    vstd::arithmetic::div_mod::lemma_fundamental_div_mod_converse(17 * g + c, 17, g, c);
}

/// Each directed edge of the two triangles of quad `q` of the unflipped
/// buffer is owned by that triangle, and each triangle has three distinct
/// corners.
proof fn lemma_quad_edges_owned(q: int)
    requires
        0 <= q < 320,
    ensures
        ({
            let t = chunk_quad(q, false);
            &&& edge_owner(t[0] as int, t[1] as int) == 2 * q
            &&& edge_owner(t[1] as int, t[2] as int) == 2 * q
            &&& edge_owner(t[2] as int, t[0] as int) == 2 * q
            &&& edge_owner(t[3] as int, t[4] as int) == 2 * q + 1
            &&& edge_owner(t[4] as int, t[5] as int) == 2 * q + 1
            &&& edge_owner(t[5] as int, t[3] as int) == 2 * q + 1
            &&& t[0] != t[1] && t[1] != t[2] && t[2] != t[0]
            &&& t[3] != t[4] && t[4] != t[5] && t[5] != t[3]
        }),
{
    reveal(edge_owner);
    lemma_quad_in_range(q, false);
    if q < 256 {
        let gi = q % 16;
        let gj = q / 16;
        assert(q == 16 * gj + gi);
        let v = 17 * gj + gi;
        lemma_div17(gj, gi);
        lemma_div17(gj, gi + 1);
        lemma_div17(gj + 1, gi);
        lemma_div17(gj + 1, gi + 1);
        assert(v + 1 == 17 * gj + (gi + 1));
        assert(v + 17 == 17 * (gj + 1) + gi);
        assert(v + 18 == 17 * (gj + 1) + (gi + 1));
        assert((gj + 1) * 17 == 17 * gj + 17);
    } else {
        let strip = (q - 256) / 16;
        let k = (q - 256) % 16;
        assert(q == 256 + 16 * strip + k);
        assert(0 <= strip < 4);
        if strip == 2 {
            lemma_div17(k, 0);
            lemma_div17(k + 1, 0);
            assert(k * 17 == 17 * k);
            assert((k + 1) * 17 == 17 * (k + 1));
        } else if strip == 3 {
            lemma_div17(k, 16);
            lemma_div17(k + 1, 16);
            assert(k * 17 + 16 == 17 * k + 16);
            assert((k + 1) * 17 + 16 == 17 * (k + 1) + 16);
        }
    }
}

/// Corner `p` of triangle `t` of the buffer is corner `3 (t % 2) + p` of
/// quad `t / 2`.
proof fn lemma_corner(flip: bool, t: int, p: int)
    requires
        0 <= t < 640,
        0 <= p < 3,
    ensures
        spec_chunk_indices(flip)[3 * t + p] == chunk_quad(t / 2, flip)[3 * (t % 2) + p],
{
    assert((3 * t + p) / 6 == t / 2);
    assert((3 * t + p) % 6 == 3 * (t % 2) + p);
}

/// Triangle `t` owns each of its directed edges (taken backwards in the
/// flipped buffer, whose triangles are reversed), and its corners are
/// distinct.
proof fn lemma_triangle_edges_owned(flip: bool, t: int)
    requires
        0 <= t < 640,
    ensures
        ({
            let x = spec_chunk_indices(flip)[3 * t] as int;
            let y = spec_chunk_indices(flip)[3 * t + 1] as int;
            let z = spec_chunk_indices(flip)[3 * t + 2] as int;
            &&& x != y && y != z && z != x
            &&& !flip ==> edge_owner(x, y) == t && edge_owner(y, z) == t && edge_owner(z, x) == t
            &&& flip ==> edge_owner(y, x) == t && edge_owner(z, y) == t && edge_owner(x, z) == t
        }),
{
    lemma_quad_edges_owned(t / 2);
    lemma_corner(false, t, 0);
    lemma_corner(false, t, 1);
    lemma_corner(false, t, 2);
    assert(t == 2 * (t / 2) + t % 2);
    if flip {
        lemma_flip_reverses_triangles(t);
    }
}

/// The index buffer is consistently oriented, whichever winding is used: no
/// directed edge is traversed by two triangles (nor twice by one), so
/// wherever two triangles share an edge, including the seams between the
/// surface and each skirt strip, they traverse it in opposite directions
/// and face the same way.
#[verifier::spinoff_prover]
#[verifier::rlimit(100)]
pub proof fn lemma_chunk_indices_consistently_oriented(flip: bool, t1: int, p1: int, t2: int, p2: int)
    requires
        0 <= t1 < INDICES_PER_CHUNK / 3,
        0 <= t2 < INDICES_PER_CHUNK / 3,
        0 <= p1 < 3,
        0 <= p2 < 3,
        spec_chunk_indices(flip)[3 * t1 + p1] == spec_chunk_indices(flip)[3 * t2 + p2],
        spec_chunk_indices(flip)[3 * t1 + (p1 + 1) % 3] == spec_chunk_indices(flip)[3 * t2 + (p2 + 1) % 3],
    ensures
        t1 == t2,
        p1 == p2,
{
    lemma_triangle_edges_owned(flip, t1);
    lemma_triangle_edges_owned(flip, t2);
    let i = spec_chunk_indices(flip);
    let u = i[3 * t1 + p1] as int;
    let v = i[3 * t1 + (p1 + 1) % 3] as int;
    if flip {
        assert(edge_owner(v, u) == t1);
        assert(edge_owner(v, u) == t2);
    } else {
        assert(edge_owner(u, v) == t1);
        assert(edge_owner(u, v) == t2);
    }
    assert(t1 == t2);
    let x = i[3 * t1] as int;
    let y = i[3 * t1 + 1] as int;
    let z = i[3 * t1 + 2] as int;
    assert(x != y && y != z && z != x);
    if p1 != p2 {
        assert(i[3 * t1 + p1] != i[3 * t1 + p2]);
    }
}

} // verus!
