use glam::Vec3;
use roboview_core::io::path_xyz::{checked_capacity, parse_xyz};
use roboview_core::io::{PathData, PathError, Point3, ScalarValue};

fn value(v: &ScalarValue) -> f32 {
    match v {
        ScalarValue::Integer(i) => *i as f64 as f32,
        ScalarValue::FloatText(t) => std::str::from_utf8(t).unwrap().parse::<f32>().unwrap(),
        ScalarValue::DoubleText(t) => std::str::from_utf8(t).unwrap().parse::<f64>().unwrap() as f32,
        ScalarValue::FloatBits(b) => f32::from_bits(*b),
        ScalarValue::DoubleBits(b) => f64::from_bits(*b) as f32,
    }
}

fn vecs(points: &[Point3]) -> Vec<Vec3> {
    points
        .iter()
        .map(|p| Vec3::new(value(&p.x), value(&p.y), value(&p.z)))
        .collect()
}

/// Bounds of the finite points: `None` when there is none.
fn bounds_of(points: &[Vec3]) -> Option<(Vec3, Vec3)> {
    let mut min = Vec3::splat(f32::INFINITY);
    let mut max = Vec3::splat(f32::NEG_INFINITY);
    let mut finite = false;
    for p in points {
        if p.is_finite() {
            finite = true;
            min = min.min(*p);
            max = max.max(*p);
        }
    }
    if finite {
        Some((min, max))
    } else {
        None
    }
}

fn parse_ok(bytes: &[u8]) -> PathData {
    parse_xyz(bytes).expect("fixture must load")
}

fn parse_err(bytes: &[u8]) -> PathError {
    parse_xyz(bytes).expect_err("fixture must be rejected")
}

/// The (1-based line, reason) pair of a line-anchored rejection.
fn malformed_of(bytes: &[u8]) -> (usize, String) {
    match parse_err(bytes) {
        PathError::Malformed { line, reason } => (line, reason),
        other => panic!("expected a line-anchored error, got {other:?}"),
    }
}

#[test]
fn space_separated_points_in_file_order() {
    let file = b"1.5 -2.25 1e2\n10 0.2 -3\n4 5 6";
    let data = parse_ok(file);
    let points = vecs(&data.points);
    assert_eq!(
        points,
        [
            Vec3::new(1.5, -2.25, 100.0),
            Vec3::new(10.0, 0.2, -3.0),
            Vec3::new(4.0, 5.0, 6.0)
        ]
    );
    let bounds = bounds_of(&points).expect("finite points must yield bounds");
    assert_eq!(bounds.0, Vec3::new(1.5, -2.25, -3.0));
    assert_eq!(bounds.1, Vec3::new(10.0, 5.0, 100.0));
    assert_eq!(data.point_count(), 3);
}

#[test]
fn delimiter_class_is_space_tab_and_comma() {
    let file = b"1 2 3\n4,5,6\n7\t8\t9\n10,\t11 ,12\n";
    let data = parse_ok(file);
    assert_eq!(
        vecs(&data.points),
        [
            Vec3::new(1.0, 2.0, 3.0),
            Vec3::new(4.0, 5.0, 6.0),
            Vec3::new(7.0, 8.0, 9.0),
            Vec3::new(10.0, 11.0, 12.0)
        ]
    );
}

#[test]
fn title_row_skipped() {
    let data = parse_ok(b"x y z\n1 2 3\n4 5 6\n");
    assert_eq!(data.point_count(), 2);

    let data = parse_ok(b"X,Y,Z\n0,0,0\n1,1,1\n");
    assert_eq!(data.point_count(), 2);

    let data = parse_ok(b"# scan header\n\nx, y, z\n1 2 3\n4 5 6\n");
    assert_eq!(data.point_count(), 2);

    match parse_err(b"1 2 3 # note\n4 5 6\n") {
        PathError::TooFewPoints { points } => assert_eq!(points, 1),
        other => panic!("expected TooFewPoints, got {other:?}"),
    }
}

#[test]
fn title_row_only_consumes_one_line() {
    let (line, reason) = malformed_of(b"x y z\n1 2 3\n4 5 6\nstill a title\n");
    assert_eq!(line, 4);
    assert!(reason.contains("still"), "reason: {reason}");
}

#[test]
fn comments_and_blank_lines_skipped_anywhere() {
    let data = parse_ok(b"# first\n1 2 3\n   # indented comment\n\n4 5 6\n");
    assert_eq!(data.point_count(), 2);

    let (line, reason) = malformed_of(b"1 2 3\n4 5 6 # note\n");
    assert_eq!(line, 2);
    assert!(
        reason.contains("expected exactly 3 values, found 5"),
        "reason: {reason}"
    );
}

#[test]
fn wrong_token_count_reports_line() {
    let (line, reason) = malformed_of(b"1 2 3\n4 5\n");
    assert_eq!(line, 2);
    assert!(
        reason.contains("expected exactly 3 values, found 2"),
        "reason: {reason}"
    );

    let (line, _) = malformed_of(b"1 2 3\n4 5 6 7\n");
    assert_eq!(line, 2);
}

#[test]
fn non_numeric_value_reports_line() {
    let (line, reason) = malformed_of(b"1 2 3\n4 two 6\n");
    assert_eq!(line, 2);
    assert!(reason.contains("two"), "reason: {reason}");
}

#[test]
fn too_few_points_rejected() {
    match parse_err(b"1 2 3\n") {
        PathError::TooFewPoints { points } => assert_eq!(points, 1),
        other => panic!("expected TooFewPoints, got {other:?}"),
    }

    for file in [
        b"".as_slice(),
        b"# nothing\n\n".as_slice(),
        b"x y z\n".as_slice(),
    ] {
        match parse_err(file) {
            PathError::TooFewPoints { points } => assert_eq!(points, 0),
            other => panic!("expected TooFewPoints, got {other:?}"),
        }
    }
}

#[test]
fn non_finite_points_kept_bounds_exclude_them() {
    let data = parse_ok(b"nan inf 0\n1 2 3\n");
    let points = vecs(&data.points);
    assert!(points[0].x.is_nan());
    assert_eq!(points[0].y, f32::INFINITY);
    let bounds = bounds_of(&points).expect("one finite point must yield bounds");
    assert_eq!(bounds.0, Vec3::new(1.0, 2.0, 3.0));
    assert_eq!(bounds.1, Vec3::new(1.0, 2.0, 3.0));

    let data = parse_ok(b"-inf 0 0\n0 nan 1\n");
    assert!(bounds_of(&vecs(&data.points)).is_none());
}

#[test]
fn path_xyz_crlf_and_missing_final_newline() {
    let data = parse_ok(b"1 2 3\r\n4\t5,6\r\n7 8 9");
    assert_eq!(data.point_count(), 3);
    let points = vecs(&data.points);
    assert_eq!(points[1], Vec3::new(4.0, 5.0, 6.0));
    assert_eq!(points[2], Vec3::new(7.0, 8.0, 9.0));
}

#[test]
fn path_xyz_counting_prevalidation_rejects_unrepresentable_counts() {
    assert!(matches!(
        checked_capacity(u128::MAX),
        Err(PathError::Limit { .. })
    ));
    assert_eq!(checked_capacity(2).expect("two points must pass"), 2);

    let data = parse_ok(b"1 2 3\n4 5 6\n");
    assert_eq!(data.points.capacity(), 2);
}

#[test]
fn counted_points_match_the_parsed_points() {
    // The counting pass sees exactly the lines the parse turns into points.
    let file = b"x y z\n# comment\n1 2 3\n\n4,5,6\n7 8 9\n";
    assert_eq!(roboview_core::io::path_xyz::count_points(file), 3);
    assert_eq!(parse_ok(file).point_count(), 3);
}
