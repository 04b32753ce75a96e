use malx::error::LoadError;
use malx::obj::{
    build_mesh_topology, parse_face, parse_face_vertex, scan_obj, AttributeKind, FaceVertex,
    VertexSource,
};

fn fv(pos: u32, uv: u32, nor: u32) -> FaceVertex {
    FaceVertex { pos, uv, nor }
}

fn obj_message(e: LoadError) -> String {
    match e {
        LoadError::Obj(m) => m,
        other => panic!("expected an OBJ error, got {:?}", other),
    }
}

#[test]
fn face_vertex_position_only() {
    assert_eq!(parse_face_vertex("7", 0).unwrap(), fv(6, 0, 0));
}

#[test]
fn face_vertex_all_fields() {
    assert_eq!(parse_face_vertex("3/5/2", 4).unwrap(), fv(2, 5, 2));
}

#[test]
fn face_vertex_missing_uv() {
    assert_eq!(parse_face_vertex("3//2", 0).unwrap(), fv(2, 0, 2));
}

#[test]
fn face_vertex_extra_fields_ignored() {
    assert_eq!(parse_face_vertex("1/2/3/4", 0).unwrap(), fv(0, 2, 3));
}

#[test]
fn face_vertex_plus_sign_accepted() {
    assert_eq!(parse_face_vertex("+2/+1", 0).unwrap(), fv(1, 1, 0));
}

#[test]
fn face_vertex_bad_token() {
    let m = obj_message(parse_face_vertex("a/1", 2).unwrap_err());
    assert_eq!(m, "line 3: bad face token 'a/1'");
}

#[test]
fn face_vertex_bad_uv() {
    let m = obj_message(parse_face_vertex("1/-2", 9).unwrap_err());
    assert_eq!(m, "line 10: bad face token '1/-2'");
}

#[test]
fn face_vertex_empty_position() {
    let m = obj_message(parse_face_vertex("/1/1", 0).unwrap_err());
    assert_eq!(m, "line 1: bad face token '/1/1'");
}

#[test]
fn face_vertex_negative_index() {
    let m = obj_message(parse_face_vertex("-1", 0).unwrap_err());
    assert_eq!(m, "line 1: non-positive index");
}

#[test]
fn face_vertex_zero_index() {
    let m = obj_message(parse_face_vertex("0/1", 11).unwrap_err());
    assert_eq!(m, "line 12: non-positive index");
}

#[test]
fn face_vertex_overflowing_index() {
    let m = obj_message(parse_face_vertex("2147483648", 0).unwrap_err());
    assert_eq!(m, "line 1: bad face token '2147483648'");
    assert_eq!(parse_face_vertex("2147483647", 0).unwrap(), fv(2147483646, 0, 0));
}

#[test]
fn face_triangle() {
    let tris = parse_face("1 2 3", 0).unwrap();
    assert_eq!(tris, vec![[fv(0, 0, 0), fv(1, 0, 0), fv(2, 0, 0)]]);
}

#[test]
fn face_quad_is_fan_triangulated() {
    let tris = parse_face("1/1 2/2 3/3 4/4", 0).unwrap();
    assert_eq!(tris.len(), 2);
    assert_eq!(tris[0], [fv(0, 1, 0), fv(1, 2, 0), fv(2, 3, 0)]);
    assert_eq!(tris[1], [fv(0, 1, 0), fv(2, 3, 0), fv(3, 4, 0)]);
}

#[test]
fn face_pentagon_has_three_triangles_sharing_first_corner() {
    let tris = parse_face("5 4 3 2 1", 0).unwrap();
    assert_eq!(tris.len(), 3);
    for t in &tris {
        assert_eq!(t[0], fv(4, 0, 0));
    }
    assert_eq!(tris[2], [fv(4, 0, 0), fv(1, 0, 0), fv(0, 0, 0)]);
}

#[test]
fn face_tabs_and_unicode_spaces_separate_corners() {
    let tris = parse_face("1\t2\u{3000}3", 0).unwrap();
    assert_eq!(tris.len(), 1);
}

#[test]
fn face_too_few_corners() {
    let m = obj_message(parse_face("1 2", 6).unwrap_err());
    assert_eq!(m, "line 7: face needs \u{2265}3 vertices");
}

#[test]
fn face_first_bad_corner_reported() {
    let m = obj_message(parse_face("1 x 0", 0).unwrap_err());
    assert_eq!(m, "line 1: bad face token 'x'");
}

#[test]
fn scan_single_object() {
    let src = "# comment\nv 0 0 0\nv 1 0 0\nv 0 1 0\nvt 0 0\nvn 0 0 1\nf 1/1/1 2/1/1 3/1/1\n";
    let scan = scan_obj(src);
    assert_eq!(scan.attributes.len(), 5);
    assert_eq!(scan.attributes[0].kind, AttributeKind::Position);
    assert_eq!(scan.attributes[0].line_no, 1);
    assert_eq!(scan.attributes[0].text, "0 0 0");
    assert_eq!(scan.attributes[3].kind, AttributeKind::TexCoord);
    assert_eq!(scan.attributes[4].kind, AttributeKind::Normal);
    let meshes = scan.meshes.unwrap();
    assert_eq!(meshes.len(), 1);
    assert_eq!(meshes[0].name, "default");
    assert_eq!(meshes[0].faces, vec![[fv(0, 1, 1), fv(1, 1, 1), fv(2, 1, 1)]]);
}

#[test]
fn scan_groups_become_separate_meshes() {
    let src = "v 0 0 0\nv 1 0 0\nv 0 1 0\no first\nf 1 2 3\ng second\nf 3 2 1\nf 1 2 3\n";
    let meshes = scan_obj(src).meshes.unwrap();
    assert_eq!(meshes.len(), 2);
    assert_eq!(meshes[0].name, "first");
    assert_eq!(meshes[0].faces.len(), 1);
    assert_eq!(meshes[1].name, "second");
    assert_eq!(meshes[1].faces.len(), 2);
}

#[test]
fn scan_groups_without_faces_are_dropped() {
    let src = "o empty\no also_empty\nv 0 0 0\nf 1 1 1\no trailing\n";
    let meshes = scan_obj(src).meshes.unwrap();
    assert_eq!(meshes.len(), 1);
    assert_eq!(meshes[0].name, "also_empty");
}

#[test]
fn scan_ignores_materials_and_unknown_keywords() {
    let src = "mtllib a.mtl\nusemtl red\ns off\nv 0 0 0\nf 1 1 1\n";
    let scan = scan_obj(src);
    assert_eq!(scan.attributes.len(), 1);
    assert_eq!(scan.meshes.unwrap().len(), 1);
}

#[test]
fn scan_crlf_and_indentation() {
    let src = "  v 1 2 3  \r\n\tf 1 1 1\r\n";
    let scan = scan_obj(src);
    assert_eq!(scan.attributes[0].text, "1 2 3");
    assert_eq!(scan.meshes.unwrap()[0].faces.len(), 1);
}

#[test]
fn scan_without_geometry_is_refused() {
    let scan = scan_obj("v 0 0 0\n# nothing else\n");
    assert_eq!(scan.attributes.len(), 1);
    assert_eq!(obj_message(scan.meshes.unwrap_err()), "file contains no geometry");
    assert_eq!(obj_message(scan_obj("").meshes.unwrap_err()), "file contains no geometry");
}

#[test]
fn scan_stops_at_first_bad_line() {
    let src = "v 0 0 0\nf 1 2\nv 1 1 1\nf 1 1 1\n";
    let scan = scan_obj(src);
    assert_eq!(scan.attributes.len(), 1);
    assert_eq!(obj_message(scan.meshes.unwrap_err()), "line 2: face needs \u{2265}3 vertices");
}

#[test]
fn scan_keyword_needs_whitespace() {
    // "vx" is not "v"; "f1" is not "f".
    let scan = scan_obj("vx 1 2 3\nf1 2 3\nv 0 0 0\nf 1 1 1\n");
    assert_eq!(scan.attributes.len(), 1);
    assert_eq!(scan.meshes.unwrap()[0].faces.len(), 1);
}

#[test]
fn topology_shares_identical_corners() {
    let faces = vec![
        [fv(0, 0, 0), fv(1, 0, 0), fv(2, 0, 0)],
        [fv(0, 0, 0), fv(2, 0, 0), fv(3, 0, 0)],
    ];
    let topo = build_mesh_topology(&faces, 4, 0, 0);
    assert_eq!(topo.indices, vec![0, 1, 2, 0, 2, 3]);
    assert_eq!(topo.vertices.len(), 4);
    assert_eq!(topo.vertices[3], VertexSource { position: Some(3), normal: None, uv: None });
}

#[test]
fn topology_distinguishes_uv_and_normal() {
    let faces = vec![[fv(0, 1, 1), fv(0, 2, 1), fv(0, 1, 2)]];
    let topo = build_mesh_topology(&faces, 1, 2, 2);
    assert_eq!(topo.indices, vec![0, 1, 2]);
    assert_eq!(topo.vertices[0], VertexSource { position: Some(0), normal: Some(0), uv: Some(0) });
    assert_eq!(topo.vertices[1], VertexSource { position: Some(0), normal: Some(0), uv: Some(1) });
    assert_eq!(topo.vertices[2], VertexSource { position: Some(0), normal: Some(1), uv: Some(0) });
}

#[test]
fn topology_out_of_range_attributes_use_defaults() {
    let faces = vec![[fv(9, 3, 4), fv(0, 0, 0), fv(1, 1, 1)]];
    let topo = build_mesh_topology(&faces, 2, 1, 1);
    assert_eq!(topo.vertices[0], VertexSource { position: None, normal: None, uv: None });
    assert_eq!(topo.vertices[1], VertexSource { position: Some(0), normal: None, uv: None });
    assert_eq!(topo.vertices[2], VertexSource { position: Some(1), normal: Some(0), uv: Some(0) });
}

#[test]
fn topology_key_packing_merges_colliding_indices() {
    // Position 2^20 and texture coordinate 1 pack to the same key.
    let faces = vec![[fv(1 << 20, 0, 0), fv(0, 1, 0), fv(0, 0, 0)]];
    let topo = build_mesh_topology(&faces, 0, 0, 0);
    assert_eq!(topo.indices, vec![0, 0, 1]);
}

#[test]
fn topology_one_index_per_corner() {
    let faces = parse_face("1/1/1 2/2/2 3/3/3 4/4/4 5/5/5", 0).unwrap();
    let topo = build_mesh_topology(&faces, 5, 5, 5);
    assert_eq!(topo.indices.len(), 3 * faces.len());
    assert!(topo.indices.iter().all(|&i| (i as usize) < topo.vertices.len()));
    assert_eq!(topo.vertices.len(), 5);
}

#[test]
fn scan_inserted_ignored_lines_change_nothing() {
    let plain = "v 0 0 0\nv 1 0 0\nv 0 1 0\no first\nf 1 2 3\ng second\nf 3 2 1\n";
    let padded = "mtllib a.mtl\nv 0 0 0\n\n# note\nv 1 0 0\nv 0 1 0\nusemtl red\no first\ns 1\nf 1 2 3\n   \ng second\nf 3 2 1\n";
    let a = scan_obj(plain).meshes.unwrap();
    let b = scan_obj(padded).meshes.unwrap();
    assert_eq!(a.len(), b.len());
    for (x, y) in a.iter().zip(b.iter()) {
        assert_eq!(x.name, y.name);
        assert_eq!(x.faces, y.faces);
    }
    // A refused file stays refused.
    assert!(scan_obj("v 0 0 0\nf 1 2\n").meshes.is_err());
    assert!(scan_obj("v 0 0 0\nusemtl red\nf 1 2\n").meshes.is_err());
}

#[test]
fn face_on_the_last_possible_line() {
    assert_eq!(parse_face("1 2 3", usize::MAX).unwrap(), vec![[fv(0, 0, 0), fv(1, 0, 0), fv(2, 0, 0)]]);
    let e = parse_face("1 2", usize::MAX).unwrap_err();
    assert_eq!(obj_message(e), format!("line {}: face needs \u{2265}3 vertices", usize::MAX as u128 + 1));
    let e = parse_face_vertex("x", usize::MAX).unwrap_err();
    assert_eq!(obj_message(e), format!("line {}: bad face token 'x'", usize::MAX as u128 + 1));
}

#[test]
fn scan_ignored_last_line_without_newline() {
    let plain = "v 0 0 0\nf 1 1 1\n";
    for padded in ["v 0 0 0\nf 1 1 1\nusemtl red", "v 0 0 0\nf 1 1 1\n# end", "v 0 0 0\nf 1 1 1\n   "] {
        let a = scan_obj(plain).meshes.unwrap();
        let b = scan_obj(padded).meshes.unwrap();
        assert_eq!(a.len(), b.len());
        assert_eq!(a[0].name, b[0].name);
        assert_eq!(a[0].faces, b[0].faces);
    }
    assert!(scan_obj("v 0 0 0\n").meshes.is_err());
    assert!(scan_obj("v 0 0 0\nmtllib x.mtl").meshes.is_err());
}
