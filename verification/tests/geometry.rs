use yarn::geometry::{
    check_indices, check_uvs, check_vertices, Geometry, GeometryCompressed, GeometryExpanded,
};

fn vertex(x: f32, y: f32, z: f32) -> (u32, u32, u32) {
    (x.to_bits(), y.to_bits(), z.to_bits())
}

fn uv(u: f32, v: f32) -> (u32, u32) {
    (u.to_bits(), v.to_bits())
}

fn numbers(v: &[(u32, u32, u32)]) -> Vec<(f32, f32, f32)> {
    v.iter()
        .map(|&(x, y, z)| (f32::from_bits(x), f32::from_bits(y), f32::from_bits(z)))
        .collect()
}

fn pairs(v: &[(u32, u32)]) -> Vec<(f32, f32)> {
    v.iter().map(|&(a, b)| (f32::from_bits(a), f32::from_bits(b))).collect()
}

#[test]
fn compress_decompress() {
    let geometry = Geometry::new(
        vec![vertex(1.0, 2.0, 3.0); 10],
        vec![uv(0.0, 1.0); 6],
        vec![(1, 2); 16],
    )
    .unwrap();

    let compressed = geometry.compress().unwrap();
    let new_geometry = compressed.decompress().unwrap();

    assert_eq!(new_geometry.vertices(), geometry.vertices());
    assert_eq!(new_geometry.uvs(), geometry.uvs());
    assert_eq!(new_geometry.indices(), geometry.indices());
}

#[test]
fn condense_expand() {
    let expanded =
        GeometryExpanded::new(vec![vertex(1.0, 2.0, 3.0); 3], vec![uv(0.0, 1.0); 3]).unwrap();

    let geometry = expanded.condense();
    let new_expanded = geometry.expand();

    assert_eq!(new_expanded.vertices(), expanded.vertices());
    assert_eq!(new_expanded.uvs(), expanded.uvs());

    assert_eq!(geometry.vertices().len(), 1);
    assert_eq!(geometry.uvs().len(), 1);
    assert_eq!(geometry.indices(), &[(0, 0), (0, 0), (0, 0)][..]);
}

#[test]
fn new_then_expand_follows_the_index_pairs() {
    let geometry = Geometry::new(
        vec![vertex(0.0, 0.0, 0.0), vertex(1.0, 0.0, 0.0), vertex(0.0, 1.0, 0.0)],
        vec![uv(0.0, 0.0), uv(1.0, 0.0)],
        vec![(0, 0), (1, 1), (2, 0)],
    )
    .unwrap();

    let expanded = geometry.expand();

    assert_eq!(
        numbers(expanded.vertices()),
        vec![(0.0, 0.0, 0.0), (1.0, 0.0, 0.0), (0.0, 1.0, 0.0)]
    );
    assert_eq!(pairs(expanded.uvs()), vec![(0.0, 0.0), (1.0, 0.0), (0.0, 0.0)]);
}

#[test]
fn new_keeps_what_it_is_given() {
    let vertices = vec![vertex(-1.5, 2.0, 3.25), vertex(4.0, 5.0, 6.0)];
    let uvs = vec![uv(0.25, 0.75)];
    let indices = vec![(1, 0), (0, 0)];
    let geometry = Geometry::new(vertices.clone(), uvs.clone(), indices.clone()).unwrap();
    assert_eq!(geometry.vertices(), &vertices[..]);
    assert_eq!(geometry.uvs(), &uvs[..]);
    assert_eq!(geometry.indices(), &indices[..]);
}

#[test]
fn new_accepts_an_empty_mesh() {
    let geometry = Geometry::new(vec![], vec![], vec![]).unwrap();
    assert!(geometry.vertices().is_empty());
    assert!(geometry.expand().vertices().is_empty());
    let expanded = GeometryExpanded::new(vec![], vec![]).unwrap();
    let condensed = expanded.condense();
    assert!(condensed.vertices().is_empty());
    assert!(condensed.uvs().is_empty());
    assert!(condensed.indices().is_empty());
}

#[test]
fn new_refuses_a_coordinate_that_is_not_finite() {
    let good = vertex(1.0, 2.0, 3.0);
    for bad in [f32::NAN, f32::INFINITY, f32::NEG_INFINITY] {
        assert!(Geometry::new(vec![vertex(bad, 0.0, 0.0)], vec![], vec![]).is_none());
        assert!(Geometry::new(vec![vertex(0.0, bad, 0.0)], vec![], vec![]).is_none());
        assert!(Geometry::new(vec![good, vertex(0.0, 0.0, bad)], vec![], vec![]).is_none());
        assert!(Geometry::new(vec![good], vec![uv(bad, 0.0)], vec![]).is_none());
        assert!(Geometry::new(vec![good], vec![uv(0.0, bad)], vec![]).is_none());
    }
    assert!(Geometry::new(vec![vertex(f32::MAX, f32::MIN, f32::MIN_POSITIVE)], vec![], vec![])
        .is_some());
}

#[test]
fn new_refuses_an_index_out_of_range() {
    let vertices = vec![vertex(0.0, 0.0, 0.0); 2];
    let uvs = vec![uv(0.0, 0.0); 3];
    assert!(Geometry::new(vertices.clone(), uvs.clone(), vec![(1, 2)]).is_some());
    assert!(Geometry::new(vertices.clone(), uvs.clone(), vec![(2, 0)]).is_none());
    assert!(Geometry::new(vertices.clone(), uvs.clone(), vec![(0, 3)]).is_none());
    assert!(Geometry::new(vertices, uvs, vec![(0, 0), (1, 2), (usize::MAX, 0)]).is_none());
    assert!(Geometry::new(vec![], vec![], vec![(0, 0)]).is_none());
}

#[test]
fn expanded_new_refuses_lengths_that_differ() {
    assert!(GeometryExpanded::new(vec![vertex(0.0, 0.0, 0.0); 2], vec![uv(0.0, 0.0); 3]).is_none());
    assert!(GeometryExpanded::new(vec![vertex(0.0, 0.0, 0.0)], vec![]).is_none());
    assert!(GeometryExpanded::new(vec![vertex(0.0, 0.0, 0.0); 2], vec![uv(0.0, 0.0); 2]).is_some());
}

#[test]
fn expanded_new_refuses_a_coordinate_that_is_not_finite() {
    assert!(GeometryExpanded::new(vec![vertex(f32::NAN, 0.0, 0.0)], vec![uv(0.0, 0.0)]).is_none());
    assert!(
        GeometryExpanded::new(vec![vertex(0.0, 0.0, 0.0)], vec![uv(0.0, f32::INFINITY)]).is_none()
    );
}

#[test]
fn expanded_new_keeps_what_it_is_given() {
    let vertices = vec![vertex(1.0, 2.0, 3.0), vertex(-1.0, -2.0, -3.0)];
    let uvs = vec![uv(0.5, 0.5), uv(0.0, 1.0)];
    let expanded = GeometryExpanded::new(vertices.clone(), uvs.clone()).unwrap();
    assert_eq!(expanded.vertices(), &vertices[..]);
    assert_eq!(expanded.uvs(), &uvs[..]);
}

#[test]
fn condense_sorts_by_value_and_drops_repetitions() {
    let expanded = GeometryExpanded::new(
        vec![
            vertex(2.0, 0.0, 0.0),
            vertex(-1.0, 5.0, 0.0),
            vertex(2.0, 0.0, 0.0),
            vertex(-1.0, -5.0, 0.0),
            vertex(0.5, 0.0, -0.25),
        ],
        vec![uv(1.0, 0.0), uv(0.0, 0.0), uv(1.0, 0.0), uv(0.0, 1.0), uv(0.0, 0.0)],
    )
    .unwrap();

    let geometry = expanded.condense();

    assert_eq!(
        numbers(geometry.vertices()),
        vec![(-1.0, -5.0, 0.0), (-1.0, 5.0, 0.0), (0.5, 0.0, -0.25), (2.0, 0.0, 0.0)]
    );
    assert_eq!(pairs(geometry.uvs()), vec![(0.0, 0.0), (0.0, 1.0), (1.0, 0.0)]);
    assert_eq!(geometry.indices(), &[(3, 2), (1, 0), (3, 2), (0, 1), (2, 0)][..]);

    let back = geometry.expand();
    assert_eq!(back.vertices(), expanded.vertices());
    assert_eq!(back.uvs(), expanded.uvs());
}

#[test]
fn condense_takes_both_zeros_for_one_value() {
    let expanded = GeometryExpanded::new(
        vec![vertex(0.0, 1.0, 1.0), vertex(-0.0, 1.0, 1.0)],
        vec![uv(-0.0, 0.0), uv(0.0, -0.0)],
    )
    .unwrap();

    let geometry = expanded.condense();

    assert_eq!(geometry.vertices().len(), 1);
    assert_eq!(geometry.uvs().len(), 1);
    assert_eq!(geometry.indices(), &[(0, 0), (0, 0)][..]);
    let back = geometry.expand();
    assert_eq!(numbers(back.vertices()), numbers(expanded.vertices()));
    assert_eq!(pairs(back.uvs()), pairs(expanded.uvs()));
}

#[test]
fn condense_orders_small_and_large_magnitudes() {
    let values = [
        f32::MIN,
        -1.0e10,
        -1.0,
        -f32::MIN_POSITIVE,
        0.0,
        f32::MIN_POSITIVE,
        1.0e-10,
        1.0,
        f32::MAX,
    ];
    let mut vertices = Vec::new();
    let mut uvs = Vec::new();
    for v in values.iter().rev() {
        vertices.push(vertex(*v, 0.0, 0.0));
        uvs.push(uv(0.0, *v));
    }
    let geometry = GeometryExpanded::new(vertices, uvs).unwrap().condense();
    let sorted: Vec<f32> = numbers(geometry.vertices()).iter().map(|v| v.0).collect();
    assert_eq!(sorted, values.to_vec());
    let sorted: Vec<f32> = pairs(geometry.uvs()).iter().map(|t| t.1).collect();
    assert_eq!(sorted, values.to_vec());
    let n = values.len();
    let expected: Vec<(usize, usize)> = (0..n).map(|k| (n - 1 - k, n - 1 - k)).collect();
    assert_eq!(geometry.indices(), &expected[..]);
}

#[test]
fn compress_gives_other_bytes_than_it_was_given() {
    let geometry = Geometry::new(
        vec![vertex(1.0, 2.0, 3.0); 100],
        vec![uv(0.0, 1.0); 100],
        vec![(7, 9); 100],
    )
    .unwrap();
    let compressed = geometry.compress().unwrap();
    // 100 vertices of 12 bytes alone are more than what is left of them.
    assert!(compressed.data().len() < 1200);
    assert!(!compressed.data().is_empty());
    let back = compressed.decompress().unwrap();
    assert_eq!(back.vertices(), geometry.vertices());
    assert_eq!(back.uvs(), geometry.uvs());
    assert_eq!(back.indices(), geometry.indices());
}

#[test]
fn compress_is_a_function_of_the_mesh() {
    let make = || {
        Geometry::new(vec![vertex(1.0, -2.0, 3.5); 4], vec![uv(0.5, 1.0); 2], vec![(3, 1), (0, 0)])
            .unwrap()
    };
    assert_eq!(make().compress().unwrap().data(), make().compress().unwrap().data());
}

#[test]
fn decompress_refuses_bytes_that_are_no_mesh() {
    assert!(GeometryCompressed::new(vec![]).decompress().is_none());
    assert!(GeometryCompressed::new(vec![1, 2, 3, 4, 5, 6, 7, 8, 9]).decompress().is_none());
    assert!(GeometryCompressed::new(vec![0xff; 64]).decompress().is_none());
}

#[test]
fn compressed_new_keeps_the_bytes() {
    let compressed = GeometryCompressed::new(vec![9, 8, 7]);
    assert_eq!(compressed.data(), &[9, 8, 7][..]);
}

#[test]
fn checks_tell_what_is_finite_and_within_bounds() {
    assert!(check_vertices(&vec![]));
    assert!(check_vertices(&vec![vertex(0.0, -1.0, 2.5)]));
    assert!(!check_vertices(&vec![vertex(0.0, -1.0, 2.5), vertex(0.0, f32::NAN, 0.0)]));
    assert!(check_uvs(&vec![uv(0.0, 1.0)]));
    assert!(!check_uvs(&vec![uv(f32::NEG_INFINITY, 1.0)]));
    assert!(check_indices(&vec![], 0, 0));
    assert!(check_indices(&vec![(0, 1), (2, 0)], 3, 2));
    assert!(!check_indices(&vec![(0, 1), (3, 0)], 3, 2));
    assert!(!check_indices(&vec![(0, 2)], 3, 2));
}
