use odl::mesh::IndexedMesh;
use odl::stl::{STLTriangle, STL};

fn tri(points: [[f32; 3]; 3]) -> STLTriangle {
    STLTriangle { normal: [0, 0, 0], points: points.map(|p| p.map(f32::to_bits)) }
}

#[test]
fn shared_corners_become_one_vertex() {
    let a = [0.0, 0.0, 0.0];
    let b = [1.0, 0.0, 0.0];
    let c = [0.0, 1.0, 0.0];
    let d = [1.0, 1.0, 0.0];
    let stl = STL { triangles: vec![tri([a, b, c]), tri([b, d, c])] };
    let m = IndexedMesh::from_stl(stl);
    let positions: Vec<[f32; 3]> = m.positions.iter().map(|p| p.map(f32::from_bits)).collect();
    assert_eq!(positions, vec![a, b, c, d]);
    assert_eq!(m.indices, vec![0, 1, 2, 1, 3, 2]);
}

#[test]
fn odd_corner_count_is_padded() {
    let a = [0.0, 0.0, 0.0];
    let b = [1.0, 0.0, 0.0];
    let c = [0.0, 1.0, 0.0];
    let m = IndexedMesh::from_stl(STL { triangles: vec![tri([c, b, a])] });
    assert_eq!(m.indices, vec![0, 1, 2, 0]);
    assert_eq!(m.positions.len(), 3);
}

#[test]
fn zeros_of_both_signs_are_one_position() {
    let m = IndexedMesh::from_stl(STL { triangles: vec![tri([[0.0, 0.0, 0.0], [-0.0, 0.0, -0.0], [1.0, 2.0, 3.0]])] });
    assert_eq!(m.positions.len(), 2);
    assert_eq!(m.indices, vec![0, 0, 1, 0]);
}

#[test]
fn nan_corners_are_never_shared() {
    let n = [f32::NAN, 0.0, 0.0];
    let m = IndexedMesh::from_stl(STL { triangles: vec![tri([n, n, n])] });
    assert_eq!(m.positions.len(), 3);
    assert_eq!(m.indices, vec![0, 1, 2, 0]);
}

#[test]
fn empty_mesh() {
    let m = IndexedMesh::from_stl(STL { triangles: vec![] });
    assert!(m.positions.is_empty());
    assert!(m.indices.is_empty());
}
