use glam::Vec3;
use roboview_core::io::obj::{allocation_sizes, parse_obj, Counts};
use roboview_core::io::{MeshData, ObjError, Point3, ScalarValue};

fn value(v: &ScalarValue) -> f32 {
    match v {
        ScalarValue::Integer(i) => *i as f64 as f32,
        ScalarValue::FloatText(t) => std::str::from_utf8(t).unwrap().parse::<f32>().unwrap(),
        ScalarValue::DoubleText(t) => std::str::from_utf8(t).unwrap().parse::<f64>().unwrap() as f32,
        ScalarValue::FloatBits(b) => f32::from_bits(*b),
        ScalarValue::DoubleBits(b) => f64::from_bits(*b) as f32,
    }
}

fn vec3(p: &Point3) -> Vec3 {
    Vec3::new(value(&p.x), value(&p.y), value(&p.z))
}

fn vecs(points: &[Point3]) -> Vec<Vec3> {
    points.iter().map(vec3).collect()
}

/// Bounds of the finite points: `None` when there is none.
fn bounds_of(points: &[Vec3]) -> Option<(Vec3, Vec3)> {
    let mut min = Vec3::splat(f32::INFINITY);
    let mut max = Vec3::splat(f32::NEG_INFINITY);
    let mut finite = false;
    for p in points {
        if p.is_finite() {
            finite = true;
            min = min.min(*p);
            max = max.max(*p);
        }
    }
    if finite {
        Some((min, max))
    } else {
        None
    }
}

fn parse_ok(bytes: &[u8]) -> MeshData {
    parse_obj(bytes).expect("fixture must load")
}

fn parse_err(bytes: &[u8]) -> ObjError {
    parse_obj(bytes).expect_err("fixture must be rejected")
}

/// The (1-based line, reason) pair of a line-anchored rejection.
fn malformed_of(bytes: &[u8]) -> (usize, String) {
    match parse_err(bytes) {
        ObjError::Malformed { line, reason } => (line, reason),
        other => panic!("expected a line-anchored error, got {other:?}"),
    }
}

fn indices_of(data: &MeshData) -> &[u32] {
    data.indices.as_deref().expect("fixture must carry faces")
}

#[test]
fn scatter_without_faces() {
    let data = parse_ok(b"v 0 0 0\nv 1 0 0\nv 0 1 0");
    let positions = vecs(&data.positions);
    assert_eq!(
        positions,
        [Vec3::ZERO, Vec3::new(1.0, 0.0, 0.0), Vec3::new(0.0, 1.0, 0.0)]
    );
    assert!(data.indices.is_none());
    assert!(data.normals.is_none());
    let bounds = bounds_of(&positions).expect("finite vertices must yield bounds");
    assert_eq!(bounds.0, Vec3::ZERO);
    assert_eq!(bounds.1, Vec3::new(1.0, 1.0, 0.0));
    assert_eq!(data.face_count(), 0);
}

#[test]
fn empty_file_is_an_empty_scatter() {
    let data = parse_ok(b"");
    assert!(data.positions.is_empty());
    assert!(data.indices.is_none());
    assert!(data.normals.is_none());
    assert!(bounds_of(&vecs(&data.positions)).is_none());
}

#[test]
fn normals_kept_without_faces() {
    let data = parse_ok(b"v 0 0 0\nvn 1 0 0\nvn 0 1 0");
    let normals = data.normals.as_deref().expect("normals must be present");
    assert_eq!(vecs(normals), [Vec3::X, Vec3::Y]);
    assert!(data.indices.is_none());
}

#[test]
fn triangle_mesh_with_normals() {
    let file = b"v 0 0 0\nv 1 0 0\nv 1 1 0\nv 0 1 0\n\
vn 0 0 1\nvn 0 0 1\nvn 0 0 1\nvn 0 0 1\n\
f 1//1 2//2 3//3\nf 1//1 3//3 4//4\n";
    let data = parse_ok(file);
    assert_eq!(data.vertex_count(), 4);
    assert_eq!(indices_of(&data), &[0, 1, 2, 0, 2, 3]);
    assert_eq!(data.face_count(), 2);
    let normals = data.normals.as_deref().expect("normals must be present");
    assert_eq!(normals.len(), 4);
    assert_eq!(vec3(&normals[0]), Vec3::Z);
}

#[test]
fn mixed_face_styles_vt_ignored() {
    let file =
        b"v 0 0 0\nv 1 0 0\nv 0 1 0\nv 1 1 0\nv 2 0 0\nv 2 1 0\nv 3 0 0\nv 3 1 0\nv 1 2 0\n\
vt 0.5 0.5\n\
vn 0 0 1\nvn 0 0 1\nvn 0 0 1\n\
f 1/1 2/2 3/3\n\
f 4//1 5//2 6//3\n\
f 7 8 9\n\
f 1/xyz 2/-2 3/3\n";
    let data = parse_ok(file);
    assert_eq!(indices_of(&data), &[0, 1, 2, 3, 4, 5, 6, 7, 8, 0, 1, 2]);
    assert_eq!(data.vertex_count(), 9);
}

#[test]
fn unknown_records_are_ignored_whole_line() {
    let file = b"# exported model\n\
o group one\n\
mtllib scene.mtl\n\
v 0 0 0\n\
v 1 0 0\n\
usemtl red\n\
o group two\n\
v 1 1 0\n\
v 0 1 0\n\
g extra\n\
s off\n\
f 1 2 4\n\
\n\
f 1 4 3\n";
    let data = parse_ok(file);
    assert_eq!(data.vertex_count(), 4);
    assert_eq!(indices_of(&data), &[0, 1, 3, 0, 3, 2]);
}

#[test]
fn faces_may_precede_vertices() {
    let file = b"f 1 2 3\nv 0 0 0\nv 1 0 0\nv 0 1 0\n";
    let data = parse_ok(file);
    assert_eq!(indices_of(&data), &[0, 1, 2]);
}

#[test]
fn negative_indices_rejected_with_value() {
    let (line, reason) = malformed_of(b"v 0 0 0\nv 1 0 0\nv 0 1 0\n\nf 1 -2 3\n");
    assert_eq!(line, 5, "blank lines must count into line numbers");
    assert!(reason.contains("-2"), "reason must carry the index: {reason}");
    assert!(reason.contains("negative"), "reason: {reason}");

    let (line, reason) = malformed_of(
        b"v 0 0 0\nv 1 0 0\nv 0 1 0\nvn 0 0 1\nvn 0 0 1\nvn 0 0 1\nf 1//-1 2//2 3//3\n",
    );
    assert_eq!(line, 7);
    assert!(reason.contains("negative normal index -1"), "reason: {reason}");
}

#[test]
fn zero_indices_rejected() {
    let (_, reason) = malformed_of(b"v 0 0 0\nv 1 0 0\nv 0 1 0\nf 0 2 3\n");
    assert!(reason.contains("index 0"), "reason: {reason}");
    assert!(reason.contains("1-based"), "reason: {reason}");
}

#[test]
fn out_of_range_references_rejected() {
    let (line, reason) = malformed_of(b"v 0 0 0\nv 1 0 0\nv 0 1 0\nf 1 2 4\n");
    assert_eq!(line, 4);
    assert!(
        reason.contains("vertex index 4 is out of range") && reason.contains("3 vertices"),
        "reason: {reason}"
    );

    let (_, reason) =
        malformed_of(b"v 0 0 0\nv 1 0 0\nv 0 1 0\nvn 0 0 1\nvn 0 0 1\nf 1//1 2//3 3//2\n");
    assert!(
        reason.contains("normal index 3 is out of range") && reason.contains("2 normals"),
        "reason: {reason}"
    );

    let (_, reason) = malformed_of(b"v 0 0 0\nv 1 0 0\nv 0 1 0\nf 1//1 2//1 3//1\n");
    assert!(reason.contains("0 normals"), "reason: {reason}");
}

#[test]
fn non_triangle_faces_reject_the_whole_file() {
    let (line, reason) = malformed_of(b"v 0 0 0\nv 1 0 0\nv 0 1 0\nv 1 1 0\nf 1 2 3 4\n");
    assert_eq!(line, 5);
    assert!(reason.contains("triangles only"), "reason: {reason}");

    let (line, reason) = malformed_of(b"v 0 0 0\nv 1 0 0\nv 0 1 0\nf 1 2\n");
    assert_eq!(line, 4);
    assert!(reason.contains("triangles only"), "reason: {reason}");

    let file = b"v 0 0 0\nv 1 0 0\nv 0 1 0\nv 1 1 0\nf 1 2 3\nf 1 2 3 4\n";
    assert!(matches!(parse_err(file), ObjError::Malformed { line: 6, .. }));
}

#[test]
fn malformed_corners_rejected() {
    let (line, reason) = malformed_of(b"v 0 0 0\nv 1 0 0\nv 0 1 0\nf 1/2/3/4 2 3\n");
    assert_eq!(line, 4);
    assert!(reason.contains("v/vt/vn"), "reason: {reason}");

    let (_, reason) = malformed_of(b"v 0 0 0\nv 1 0 0\nv 0 1 0\nf /1 2 3\n");
    assert!(
        reason.contains("missing") || reason.contains("v, v/vt"),
        "reason: {reason}"
    );

    let (_, reason) = malformed_of(b"v 0 0 0\nv 1 0 0\nv 0 1 0\nf x 2 3\n");
    assert!(reason.contains("invalid vertex index \"x\""), "reason: {reason}");

    let data = parse_ok(b"v 0 0 0\nv 1 0 0\nv 0 1 0\nf 1// 2// 3//\n");
    assert_eq!(indices_of(&data), &[0, 1, 2]);
}

#[test]
fn vector_record_shape_errors() {
    let (line, reason) = malformed_of(b"v 0 0 0\nv 1 2\n");
    assert_eq!(line, 2);
    assert!(
        reason.contains("exactly 3 numeric values, found 2"),
        "reason: {reason}"
    );

    let (line, reason) = malformed_of(b"vn 0 0 1\nvn 1 2 3 4\n");
    assert_eq!(line, 2);
    assert!(reason.contains("vn must declare exactly 3"), "reason: {reason}");

    let (line, reason) = malformed_of(b"v 1 2 three\n");
    assert_eq!(line, 1);
    assert!(reason.contains("three"), "reason: {reason}");
}

#[test]
fn obj_crlf_and_missing_final_newline() {
    let file = b"v 0 0 0\r\nv 1 0 0\r\nv 0 1 0\r\nvn 0 0 1\r\nvn 0 0 1\r\nvn 0 0 1\r\n\
f 1//1 2//2 3//3\r\nf 1//1 2//2 3//3";
    let data = parse_ok(file);
    assert_eq!(data.vertex_count(), 3);
    assert_eq!(indices_of(&data), &[0, 1, 2, 0, 1, 2]);
}

#[test]
fn non_finite_vertices_kept_bounds_exclude_them() {
    let file = b"v nan inf 0\nv -inf 1 2\nv 3 4 5\nf 1 2 3\n";
    let data = parse_ok(file);
    let positions = vecs(&data.positions);
    assert!(positions[0].x.is_nan());
    assert_eq!(positions[0].y, f32::INFINITY);
    assert_eq!(positions[1].x, f32::NEG_INFINITY);
    assert_eq!(indices_of(&data), &[0, 1, 2]);
    let bounds = bounds_of(&positions).expect("one finite vertex must yield bounds");
    assert_eq!(bounds.0, Vec3::new(3.0, 4.0, 5.0));
    assert_eq!(bounds.1, Vec3::new(3.0, 4.0, 5.0));

    let data = parse_ok(b"v nan nan nan\nv inf 0 0\n");
    assert!(bounds_of(&vecs(&data.positions)).is_none());
}

#[test]
fn keyword_boundary_kept_unknown_lines_ignored() {
    let data = parse_ok(b"vx 1 2 3\nvp 4 5\nv 0 0 0\nv 1 0 0\nv 0 1 0\nf 1 2 3\n");
    assert_eq!(data.vertex_count(), 3);
    let (line, _) = malformed_of(b"v 0 0 0\nv\n");
    assert_eq!(line, 2);
}

#[test]
fn obj_counting_prevalidation_rejects_unrepresentable_counts() {
    let over_index_space = |faces: u128| Counts {
        vertices: u128::from(u32::MAX) + 2,
        faces,
        ..Counts::default()
    };
    assert!(matches!(
        allocation_sizes(over_index_space(1)),
        Err(ObjError::Limit { .. })
    ));
    assert!(matches!(
        allocation_sizes(Counts {
            vertices: u128::MAX,
            ..Counts::default()
        }),
        Err(ObjError::Limit { .. })
    ));
    assert!(matches!(
        allocation_sizes(Counts {
            vertices: 3,
            faces: u128::MAX,
            ..Counts::default()
        }),
        Err(ObjError::Limit { .. })
    ));
    assert!(matches!(
        allocation_sizes(Counts {
            vertices: 3,
            normals: u128::from(u32::MAX) + 2,
            faces: 1,
        }),
        Err(ObjError::Limit { .. })
    ));
    let (vertices, normals, indices) =
        allocation_sizes(Counts::default()).expect("zero counts must be fine");
    assert_eq!((vertices, normals, indices), (0, 0, 0));
    let (vertices, normals, indices) = allocation_sizes(Counts {
        vertices: 9,
        normals: 3,
        faces: 4,
    })
    .expect("moderate counts must pass");
    assert_eq!((vertices, normals, indices), (9, 3, 12));
}
