use malx::geometry::{
    disk_indices, mesh_vertex_layout, ring_indices, ring_vertex_layout, sphere_indices,
    VertexFormat,
};

#[test]
fn smallest_sphere() {
    // 3 sectors, 2 stacks: only the two polar rows of triangles.
    let idx = sphere_indices(3, 2);
    assert_eq!(idx, vec![1, 4, 5, 2, 5, 6, 3, 6, 7, 4, 8, 5, 5, 9, 6, 6, 10, 7]);
}

#[test]
fn small_requests_are_raised() {
    assert_eq!(sphere_indices(0, 0), sphere_indices(3, 2));
    assert_eq!(sphere_indices(2, 1), sphere_indices(3, 2));
}

#[test]
fn sphere_counts_and_ranges() {
    for (s, t) in [(3u32, 2u32), (4, 3), (32, 16), (7, 5)] {
        let idx = sphere_indices(s, t);
        assert_eq!(idx.len() as u32, 6 * s * (t - 1));
        let vertices = (s + 1) * (t + 1);
        assert!(idx.iter().all(|&i| i < vertices));
        for tri in idx.chunks(3) {
            assert!(tri[0] != tri[1] && tri[0] != tri[2] && tri[1] != tri[2]);
        }
    }
}

#[test]
fn sphere_middle_row_quad() {
    // 4 sectors, 3 stacks: first quad of the middle row (i = 1, j = 0).
    let idx = sphere_indices(4, 3);
    // row 0 contributes 3 indices per quad (4 quads)
    assert_eq!(&idx[12..18], &[5, 10, 6, 6, 10, 11]);
}

#[test]
fn ring_segments() {
    let idx = ring_indices(10, 2);
    assert_eq!(idx, vec![10, 11, 12, 11, 13, 12, 12, 13, 14, 13, 15, 14]);
    assert!(idx.iter().all(|&i| (10..10 + 2 * 3).contains(&i)));
    assert_eq!(ring_indices(0, 0), Vec::<u32>::new());
}

#[test]
fn disk_fan() {
    let idx = disk_indices(5, 3);
    assert_eq!(idx, vec![5, 6, 7, 5, 7, 8, 5, 8, 9]);
    assert!(idx.iter().all(|&i| (5..5 + 3 + 2).contains(&i)));
}

#[test]
fn mesh_vertex_is_56_bytes_tightly_packed() {
    let l = mesh_vertex_layout();
    assert_eq!(l.array_stride, 56);
    let offsets: Vec<u64> = l.attributes.iter().map(|a| a.offset).collect();
    assert_eq!(offsets, vec![0, 12, 24, 32, 44]);
    let locations: Vec<u32> = l.attributes.iter().map(|a| a.shader_location).collect();
    assert_eq!(locations, vec![0, 1, 2, 3, 4]);
    assert_eq!(l.attributes[2].format, VertexFormat::Float32x2);
}

#[test]
fn ring_vertex_layout_is_padded_to_32_bytes() {
    let l = ring_vertex_layout();
    assert_eq!(l.array_stride, 32);
    let offsets: Vec<u64> = l.attributes.iter().map(|a| a.offset).collect();
    assert_eq!(offsets, vec![0, 12, 16]);
    assert_eq!(l.attributes[1].format, VertexFormat::Float32);
}
