use er_planet::cell::{cell_neighbor, cell_neighbors, cells_per_edge, CellKey, NeighborSide};

#[test]
fn interior_neighbors() {
    let lod = 3u8;
    let n = cells_per_edge(lod);
    for face in 0..6u8 {
        for i in 1..n - 1 {
            for j in 1..n - 1 {
                let k = CellKey { face, i, j, lod };
                assert_eq!(cell_neighbor(k, NeighborSide::NegU), CellKey { face, i: i - 1, j, lod });
                assert_eq!(cell_neighbor(k, NeighborSide::PosU), CellKey { face, i: i + 1, j, lod });
                assert_eq!(cell_neighbor(k, NeighborSide::NegV), CellKey { face, i, j: j - 1, lod });
                assert_eq!(cell_neighbor(k, NeighborSide::PosV), CellKey { face, i, j: j + 1, lod });
            }
        }
    }
}

// Cube topology: the face reached across each edge of each face; the edge
// midpoint lies on the shared cube edge and the neighbour's centre lies
// within one cell of it.
#[test]
fn edge_neighbors_wrap() {
    const EXPECTED: [[u8; 4]; 6] = [
        [3, 2, 5, 4],
        [3, 2, 5, 4],
        [1, 0, 5, 4],
        [1, 0, 5, 4],
        [1, 0, 3, 2],
        [1, 0, 3, 2],
    ];
    let lod = 3u8;
    let n = cells_per_edge(lod);
    let cell_ang = std::f64::consts::FRAC_PI_2 / n as f64;
    let sides = [NeighborSide::NegU, NeighborSide::PosU, NeighborSide::NegV, NeighborSide::PosV];
    for face in 0..6u8 {
        for (s, side) in sides.iter().enumerate() {
            let (i, j) = match s {
                0 => (0u32, n / 2),
                1 => (n - 1, n / 2),
                2 => (n / 2, 0),
                _ => (n / 2, n - 1),
            };
            let k = CellKey { face, i, j, lod };
            let nb = cell_neighbor(k, *side);
            assert_eq!(nb.face, EXPECTED[face as usize][s]);
            assert_eq!(nb.lod, lod);
            assert!(nb.i < n && nb.j < n);

            let (eu, ev) = match s {
                0 => (0.0, (j as f64 + 0.5) / n as f64),
                1 => (1.0, (j as f64 + 0.5) / n as f64),
                2 => ((i as f64 + 0.5) / n as f64, 0.0),
                _ => ((i as f64 + 0.5) / n as f64, 1.0),
            };
            let edge_dir = uv_to_dir(face as usize, eu, ev);
            let faxis = (face / 2) as usize;
            let adj_axis = if s < 2 { UA[face as usize] } else { VA[face as usize] };
            assert!((edge_dir[faxis].abs() - edge_dir[adj_axis].abs()).abs() < 1e-9);
            let m = cells_per_edge(nb.lod) as f64;
            let center = uv_to_dir(nb.face as usize, (nb.i as f64 + 0.5) / m, (nb.j as f64 + 0.5) / m);
            let dot = (0..3).map(|x| center[x] * edge_dir[x]).sum::<f64>().clamp(-1.0, 1.0);
            assert!(dot.acos() < cell_ang);
        }
    }
}

// Crossing +X's PosU edge lands on +Y at its x = +1 column, keeping z.
#[test]
fn edge_neighbor_exact_cells() {
    let k = CellKey { face: 0, i: 7, j: 2, lod: 3 };
    assert_eq!(cell_neighbor(k, NeighborSide::PosU), CellKey { face: 2, i: 7, j: 2, lod: 3 });
    let k = CellKey { face: 1, i: 7, j: 5, lod: 3 };
    assert_eq!(cell_neighbor(k, NeighborSide::PosU), CellKey { face: 2, i: 0, j: 5, lod: 3 });
    let k = CellKey { face: 4, i: 3, j: 0, lod: 3 };
    assert_eq!(cell_neighbor(k, NeighborSide::NegV), CellKey { face: 3, i: 3, j: 7, lod: 3 });
    let root = CellKey { face: 5, i: 0, j: 0, lod: 0 };
    assert_eq!(cell_neighbor(root, NeighborSide::NegU), CellKey { face: 1, i: 0, j: 0, lod: 0 });
}

// Every neighbour relation can be walked back.
#[test]
fn neighbors_are_symmetric() {
    for lod in 0..4u8 {
        let n = cells_per_edge(lod);
        for face in 0..6u8 {
            for i in 0..n {
                for j in 0..n {
                    let k = CellKey { face, i, j, lod };
                    for nb in cell_neighbors(k) {
                        assert!(cell_neighbors(nb).contains(&k), "{k:?} -> {nb:?}");
                    }
                }
            }
        }
    }
}

#[test]
fn neighbors_are_in_side_order() {
    let k = CellKey { face: 2, i: 3, j: 3, lod: 3 };
    assert_eq!(
        cell_neighbors(k),
        [
            cell_neighbor(k, NeighborSide::NegU),
            cell_neighbor(k, NeighborSide::PosU),
            cell_neighbor(k, NeighborSide::NegV),
            cell_neighbor(k, NeighborSide::PosV),
        ]
    );
}

#[test]
fn cells_per_edge_is_a_power_of_two() {
    assert_eq!(cells_per_edge(0), 1);
    assert_eq!(cells_per_edge(3), 8);
    assert_eq!(cells_per_edge(17), 131_072);
    assert_eq!(cells_per_edge(31), 1 << 31);
}

// Reference: the neighbour found geometrically in floating point (step one
// cell in uv, project onto the sphere, re-derive face and cell).
const FC: [[f64; 3]; 6] = [
    [1.0, -1.0, -1.0],
    [-1.0, -1.0, -1.0],
    [-1.0, 1.0, -1.0],
    [-1.0, -1.0, -1.0],
    [-1.0, -1.0, 1.0],
    [-1.0, -1.0, -1.0],
];
const FU: [[f64; 3]; 6] = [
    [0.0, 2.0, 0.0],
    [0.0, 2.0, 0.0],
    [2.0, 0.0, 0.0],
    [2.0, 0.0, 0.0],
    [2.0, 0.0, 0.0],
    [2.0, 0.0, 0.0],
];
const FV: [[f64; 3]; 6] = [
    [0.0, 0.0, 2.0],
    [0.0, 0.0, 2.0],
    [0.0, 0.0, 2.0],
    [0.0, 0.0, 2.0],
    [0.0, 2.0, 0.0],
    [0.0, 2.0, 0.0],
];
const UA: [usize; 6] = [1, 1, 0, 0, 0, 0];
const VA: [usize; 6] = [2, 2, 2, 2, 1, 1];

fn uv_to_dir(f: usize, u: f64, v: f64) -> [f64; 3] {
    let p: Vec<f64> = (0..3).map(|k| FC[f][k] + FU[f][k] * u + FV[f][k] * v).collect();
    let l = (p[0] * p[0] + p[1] * p[1] + p[2] * p[2]).sqrt();
    [p[0] / l, p[1] / l, p[2] / l]
}

fn dir_to_uv(d: [f64; 3]) -> (usize, f64, f64) {
    let (ax, ay, az) = (d[0].abs(), d[1].abs(), d[2].abs());
    let (axis, val) = if ax >= ay && ax >= az {
        (0, d[0])
    } else if ay >= az {
        (1, d[1])
    } else {
        (2, d[2])
    };
    let sign = if val >= 0.0 { 1.0 } else { -1.0 };
    let f = axis * 2 + if sign > 0.0 { 0 } else { 1 };
    let t = sign / val;
    let c = [d[0] * t, d[1] * t, d[2] * t];
    (f, (c[UA[f]] + 1.0) / 2.0, (c[VA[f]] + 1.0) / 2.0)
}

fn float_neighbor(face: u8, i: u32, j: u32, lod: u8, side: usize) -> (u8, u32, u32) {
    let n = (1u32 << lod) as f64;
    let (uc, vc) = ((i as f64 + 0.5) / n, (j as f64 + 0.5) / n);
    let step = 1.0 / n;
    let (nu, nv) = match side {
        0 => (uc - step, vc),
        1 => (uc + step, vc),
        2 => (uc, vc - step),
        _ => (uc, vc + step),
    };
    let (f, u, v) = dir_to_uv(uv_to_dir(face as usize, nu, nv));
    let max = n - 1.0;
    let ci = (u * n).floor().max(0.0).min(max) as u32;
    let cj = (v * n).floor().max(0.0).min(max) as u32;
    (f as u8, ci, cj)
}

#[test]
fn neighbor_matches_float_projection() {
    let sides = [NeighborSide::NegU, NeighborSide::PosU, NeighborSide::NegV, NeighborSide::PosV];
    for lod in 0..6u8 {
        let n = cells_per_edge(lod);
        for face in 0..6u8 {
            for i in 0..n {
                for j in 0..n {
                    for (s, side) in sides.iter().enumerate() {
                        let nb = cell_neighbor(CellKey { face, i, j, lod }, *side);
                        assert_eq!((nb.face, nb.i, nb.j), float_neighbor(face, i, j, lod, s));
                    }
                }
            }
        }
    }
    // Earth-scale depth: the cells along every face edge.
    let lod = 17u8;
    let n = cells_per_edge(lod);
    for face in 0..6u8 {
        for t in (0..n).step_by(997).chain([0, n - 1]) {
            for (i, j) in [(0, t), (n - 1, t), (t, 0), (t, n - 1)] {
                for (s, side) in sides.iter().enumerate() {
                    let nb = cell_neighbor(CellKey { face, i, j, lod }, *side);
                    assert_eq!((nb.face, nb.i, nb.j), float_neighbor(face, i, j, lod, s));
                }
            }
        }
    }
}
