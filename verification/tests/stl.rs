use odl::stl::{STLFileError, STLTriangle, STL};

fn put_u32(data: &mut Vec<u8>, v: u32) {
    data.extend_from_slice(&v.to_le_bytes());
}

fn put_f32(data: &mut Vec<u8>, v: f32) {
    data.extend_from_slice(&v.to_le_bytes());
}

fn file(triangles: &[[f32; 12]], count: u32) -> Vec<u8> {
    let mut data = vec![0u8; 80];
    put_u32(&mut data, count);
    for t in triangles {
        for v in t {
            put_f32(&mut data, *v);
        }
        data.extend_from_slice(&[0, 0]);
    }
    data
}

#[test]
fn too_short_for_header() {
    assert_eq!(STL::try_from_bytes(&[0u8; 83]).unwrap_err(), STLFileError::InvalidByteCount);
    assert_eq!(STL::try_from_bytes(&[]).unwrap_err(), STLFileError::InvalidByteCount);
}

#[test]
fn header_only() {
    let stl = STL::try_from_bytes(&file(&[], 0)).unwrap();
    assert_eq!(stl.triangles.len(), 0);
}

#[test]
fn one_triangle() {
    let t = [0.0, 0.0, 1.0, 1.0, 2.0, 3.0, -4.5, 5.25, 6.0, 7.0, 8.0, 9.0];
    let stl = STL::try_from_bytes(&file(&[t], 1)).unwrap();
    assert_eq!(stl.triangles.len(), 1);
    let tri = stl.triangles[0];
    assert_eq!(tri.normal.map(f32::from_bits), [0.0, 0.0, 1.0]);
    assert_eq!(tri.points[0].map(f32::from_bits), [1.0, 2.0, 3.0]);
    assert_eq!(tri.points[1].map(f32::from_bits), [-4.5, 5.25, 6.0]);
    assert_eq!(tri.points[2].map(f32::from_bits), [7.0, 8.0, 9.0]);
}

#[test]
fn last_facet_needs_no_attribute_bytes() {
    let t = [1.0; 12];
    let mut data = file(&[t], 1);
    data.truncate(data.len() - 2);
    let stl = STL::try_from_bytes(&data).unwrap();
    assert_eq!(stl.triangles[0].points[2].map(f32::from_bits), [1.0, 1.0, 1.0]);
}

#[test]
fn triangles_in_file_order() {
    let a = [1.0; 12];
    let b = [2.0; 12];
    let stl = STL::try_from_bytes(&file(&[a, b], 2)).unwrap();
    assert_eq!(stl.triangles[0].normal.map(f32::from_bits), [1.0; 3]);
    assert_eq!(stl.triangles[1].normal.map(f32::from_bits), [2.0; 3]);
}

#[test]
fn count_is_little_endian() {
    let mut data = vec![0u8; 84];
    data[80] = 1;
    data.extend_from_slice(&[0u8; 48]);
    let stl = STL::try_from_bytes(&data).unwrap();
    assert_eq!(stl.triangles.len(), 1);
}

#[test]
fn get_vec3_reads_bits() {
    let mut data = vec![0xffu8; 2];
    put_u32(&mut data, 0x0102_0304);
    put_u32(&mut data, 5);
    put_u32(&mut data, u32::MAX);
    assert_eq!(STL::get_vec3(&data, 2), [0x0102_0304, 5, u32::MAX]);
}

#[test]
fn get_triangle_reads_four_vectors() {
    let mut data = Vec::new();
    for i in 0..12u32 {
        put_u32(&mut data, i);
    }
    let t: STLTriangle = STL::get_triangle(&data, 0);
    assert_eq!(t.normal, [0, 1, 2]);
    assert_eq!(t.points, [[3, 4, 5], [6, 7, 8], [9, 10, 11]]);
}

#[test]
fn facets_fit_checks_the_count() {
    assert!(STL::facets_fit(&[0u8; 10]));
    assert!(STL::facets_fit(&file(&[], 0)));
    let t = [1.0; 12];
    let data = file(&[t], 1);
    assert!(STL::facets_fit(&data));
    assert!(STL::facets_fit(&data[..data.len() - 2]));
    assert!(!STL::facets_fit(&data[..data.len() - 3]));
    assert!(!STL::facets_fit(&file(&[t], 2)));
}
