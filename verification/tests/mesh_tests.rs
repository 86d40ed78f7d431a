use er_planet::cell::NeighborSide;
use er_planet::config::{CHUNK_QUADS_PER_EDGE, CHUNK_VERT_RES};
use er_planet::mesh::{
    append_tri, chunk_mesh_indices, chunk_mesh_indices_for_face, edge_vertex_index, face_flips_winding, BYTES_PER_VERTEX,
    ESTIMATED_BYTES_PER_CHUNK_MESH, INDICES_PER_CHUNK, VERTS_PER_CHUNK,
};

#[test]
fn estimated_bytes_match_vertex_and_index_counts() {
    let n = CHUNK_VERT_RES as usize;
    let quads = CHUNK_QUADS_PER_EDGE as usize;
    let expected_verts = n * n + 4 * n;
    let expected_indices = quads * quads * 6 + 4 * quads * 6;
    assert_eq!(VERTS_PER_CHUNK, expected_verts);
    assert_eq!(INDICES_PER_CHUNK, expected_indices);
    assert_eq!(
        ESTIMATED_BYTES_PER_CHUNK_MESH,
        expected_verts * BYTES_PER_VERTEX + expected_indices * 2
    );
}

#[test]
fn estimated_bytes_nonzero_and_scales() {
    const _: () = assert!(ESTIMATED_BYTES_PER_CHUNK_MESH > 0);
    let bytes_for_100 = 100 * ESTIMATED_BYTES_PER_CHUNK_MESH;
    assert_eq!(bytes_for_100 / ESTIMATED_BYTES_PER_CHUNK_MESH, 100);
}

#[test]
fn chunk_index_buffer_counts_and_range() {
    for flip in [false, true] {
        let indices = chunk_mesh_indices(flip);
        assert_eq!(indices.len(), INDICES_PER_CHUNK);
        assert!(indices.iter().all(|&i| (i as usize) < VERTS_PER_CHUNK));
        let used: std::collections::HashSet<u16> = indices.iter().copied().collect();
        assert_eq!(used.len(), VERTS_PER_CHUNK);
    }
}

#[test]
fn chunk_index_buffer_first_and_skirt_triangles() {
    let indices = chunk_mesh_indices(false);
    assert_eq!(&indices[..6], &[0, 1, 18, 0, 18, 17]);
    let top = 16 * 16 * 6;
    assert_eq!(&indices[top..top + 6], &[0, 289, 290, 0, 290, 1]);
    let right_last = INDICES_PER_CHUNK - 6;
    assert_eq!(&indices[right_last..], &[271, 355, 356, 271, 356, 288]);
}

#[test]
fn flipped_winding_reverses_every_triangle() {
    let plain = chunk_mesh_indices(false);
    let flipped = chunk_mesh_indices(true);
    for t in plain.chunks(3).zip(flipped.chunks(3)) {
        assert_eq!([t.0[0], t.0[2], t.0[1]], [t.1[0], t.1[1], t.1[2]]);
    }
}

#[test]
fn append_tri_respects_flip() {
    let mut v = vec![9];
    append_tri(&mut v, 1, 2, 3, false);
    append_tri(&mut v, 1, 2, 3, true);
    assert_eq!(v, vec![9, 1, 2, 3, 1, 3, 2]);
}

#[test]
fn edge_vertices_lie_on_their_edges() {
    let n = 17;
    assert_eq!(edge_vertex_index(NeighborSide::NegU, 3, n), 51);
    assert_eq!(edge_vertex_index(NeighborSide::PosU, 3, n), 67);
    assert_eq!(edge_vertex_index(NeighborSide::NegV, 3, n), 3);
    assert_eq!(edge_vertex_index(NeighborSide::PosV, 3, n), 275);
}

// The chunk mesh has 17 * 17 surface and 4 * 17 skirt vertices and a 16-bit
// index buffer of 16 * 16 * 6 + 4 * 16 * 6 entries.
#[test]
fn chunk_mesh_vertex_and_index_counts() {
    let n = 17usize;
    let quads = 16usize;
    assert_eq!(VERTS_PER_CHUNK, n * n + 4 * n);
    let indices: Vec<u16> = chunk_mesh_indices(false);
    assert_eq!(indices.len(), quads * quads * 6 + 4 * quads * 6);
}

#[test]
fn face_winding_follows_uv_handedness() {
    let flips: Vec<bool> = (0..6u8).map(face_flips_winding).collect();
    assert_eq!(flips, vec![false, true, true, false, false, true]);
    let m0 = chunk_mesh_indices_for_face(0);
    let m1 = chunk_mesh_indices_for_face(1);
    assert_eq!(&m0[0..6], &[0, 1, 18, 0, 18, 17]);
    assert_eq!(&m1[0..6], &[0, 18, 1, 0, 17, 18]);
    assert_eq!(chunk_mesh_indices_for_face(2), m1);
    assert_eq!(chunk_mesh_indices_for_face(4), m0);
}
