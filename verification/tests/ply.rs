use glam::Vec3;
use roboview_core::io::ply::body::{decode_ascii_scalar, decode_binary_scalar};
use roboview_core::io::ply::{parse_ply, ScalarType};
use roboview_core::io::{
    Color, ColorSample, Format, Point3, PointCloudData, PointCloudError, ScalarValue,
};

/// The number a field stores, as the loader's host reads it.
fn number(v: &ScalarValue) -> f64 {
    match v {
        ScalarValue::Integer(i) => *i as f64,
        ScalarValue::FloatText(t) => std::str::from_utf8(t).unwrap().parse::<f32>().unwrap() as f64,
        ScalarValue::DoubleText(t) => std::str::from_utf8(t).unwrap().parse::<f64>().unwrap(),
        ScalarValue::FloatBits(b) => f32::from_bits(*b) as f64,
        ScalarValue::DoubleBits(b) => f64::from_bits(*b),
    }
}

fn vec3(p: &Point3) -> Vec3 {
    Vec3::new(number(&p.x) as f32, number(&p.y) as f32, number(&p.z) as f32)
}

fn color(c: &ColorSample) -> Color {
    Color {
        r: number(&c.r) as u8,
        g: number(&c.g) as u8,
        b: number(&c.b) as u8,
    }
}

fn positions_of(data: &PointCloudData) -> Vec<Vec3> {
    data.positions.iter().map(vec3).collect()
}

fn colors_of(data: &PointCloudData) -> Option<Vec<Color>> {
    data.colors.as_ref().map(|cs| cs.iter().map(color).collect())
}

/// Bounds of the finite points: `None` when there is none.
fn bounds_of(points: &[Vec3]) -> Option<(Vec3, Vec3)> {
    let mut min = Vec3::splat(f32::INFINITY);
    let mut max = Vec3::splat(f32::NEG_INFINITY);
    let mut finite = false;
    for p in points {
        if p.is_finite() {
            finite = true;
            min = min.min(*p);
            max = max.max(*p);
        }
    }
    if finite {
        Some((min, max))
    } else {
        None
    }
}

fn le32(value: u32) -> [u8; 4] {
    value.to_le_bytes()
}

fn f32_bytes(value: f32) -> [u8; 4] {
    value.to_le_bytes()
}

fn f64_bytes(value: f64) -> [u8; 8] {
    value.to_le_bytes()
}

/// ASCII fixture: header over `props` (one header line each) and `body`.
fn ascii_fixture(vertex_count: u64, props: &[&str], body: &str) -> Vec<u8> {
    let mut text = format!("ply\nformat ascii 1.0\nelement vertex {vertex_count}\n");
    for prop in props {
        text.push_str(prop);
        text.push('\n');
    }
    text.push_str("end_header\n");
    text.push_str(body);
    text.into_bytes()
}

/// Concatenate heterogeneous byte parts into one binary fixture body.
fn body(parts: &[&[u8]]) -> Vec<u8> {
    let mut out = Vec::new();
    for part in parts {
        out.extend_from_slice(part);
    }
    out
}

/// Binary fixture: header over `props`, `body` bytes appended verbatim.
fn binary_fixture(vertex_count: u64, props: &[&str], body: &[u8]) -> Vec<u8> {
    let mut text = format!("ply\nformat binary_little_endian 1.0\nelement vertex {vertex_count}\n");
    for prop in props {
        text.push_str(prop);
        text.push('\n');
    }
    text.push_str("end_header\n");
    let mut bytes = text.into_bytes();
    bytes.extend_from_slice(body);
    bytes
}

fn parse_ok(bytes: &[u8]) -> PointCloudData {
    parse_ply(bytes).expect("fixture must load")
}

fn parse_err(bytes: &[u8]) -> PointCloudError {
    parse_ply(bytes).expect_err("fixture must be rejected")
}

#[test]
fn ascii_xyz_float() {
    let file = ascii_fixture(
        2,
        &["property float x", "property float y", "property float z"],
        "1.5 -2.25 0\n10 0.2 3\n",
    );
    let data = parse_ok(&file);
    let positions = positions_of(&data);
    assert_eq!(
        positions,
        [Vec3::new(1.5, -2.25, 0.0), Vec3::new(10.0, 0.2, 3.0)]
    );
    assert!(data.colors.is_none());
    let bounds = bounds_of(&positions).expect("finite points must yield bounds");
    assert_eq!(bounds.0, Vec3::new(1.5, -2.25, 0.0));
    assert_eq!(bounds.1, Vec3::new(10.0, 0.2, 3.0));
    assert_eq!(data.format, Format::Ply);
}

#[test]
fn ascii_scientific_notation_and_blank_lines_in_body_rejected() {
    let file = ascii_fixture(
        2,
        &["property float x", "property float y", "property float z"],
        "1e1 -2.5e-1 3e0\n4 5 6",
    );
    let data = parse_ok(&file);
    assert_eq!(positions_of(&data)[0].x, 10.0);
    assert_eq!(positions_of(&data)[0].y, -0.25);
    assert_eq!(positions_of(&data)[0].z, 3.0);

    let file = ascii_fixture(
        2,
        &["property float x", "property float y", "property float z"],
        "1 2 3\n\n4 5 6\n",
    );
    assert!(matches!(parse_err(&file), PointCloudError::Malformed { .. }));
}

#[test]
fn ascii_crlf_header_and_body() {
    let mut file = b"ply\r\nformat ascii 1.0\r\nelement vertex 2\r\nproperty float x\r\nproperty float y\r\nproperty float z\r\nend_header\r\n".to_vec();
    file.extend_from_slice(b"1  2   3\r\n4\t5 6\r\n");
    let data = parse_ok(&file);
    assert_eq!(data.point_count(), 2);
    assert_eq!(positions_of(&data)[1], Vec3::new(4.0, 5.0, 6.0));
}

#[test]
fn elements_before_and_after_vertex() {
    let file = b"ply\nformat ascii 1.0\nelement face 1\nproperty int vertex_indices\nelement vertex 1\nproperty float x\nproperty float y\nproperty float z\nend_header\n42\n1 2 3\n".to_vec();
    let data = parse_ok(&file);
    assert_eq!(positions_of(&data), &[Vec3::new(1.0, 2.0, 3.0)]);

    let file = b"ply\nformat ascii 1.0\nelement vertex 1\nproperty float x\nproperty float y\nproperty float z\nelement face 1\nproperty list uchar int vertex_indices\nend_header\n1 2 3\n3 0 0 0\n".to_vec();
    let data = parse_ok(&file);
    assert_eq!(positions_of(&data), &[Vec3::new(1.0, 2.0, 3.0)]);
}

#[test]
fn list_property_rejected() {
    let file = ascii_fixture(
        1,
        &[
            "property float x",
            "property float y",
            "property float z",
            "property list uchar int vertex_indices",
        ],
        "1 2 3\n",
    );
    assert!(matches!(parse_err(&file), PointCloudError::Malformed { .. }));

    let file = b"ply\nformat ascii 1.0\nelement face 1\nproperty list uchar int vertex_indices\nelement vertex 1\nproperty float x\nproperty float y\nproperty float z\nend_header\n".to_vec();
    assert!(matches!(parse_err(&file), PointCloudError::Malformed { .. }));
}

#[test]
fn missing_or_bad_header_pieces() {
    assert!(matches!(parse_err(b""), PointCloudError::Malformed { .. }));
    let file = b"plyx\nformat ascii 1.0\nelement vertex 1\nproperty float x\nend_header\n";
    assert!(matches!(parse_err(file), PointCloudError::Malformed { .. }));
    let file = b"ply\nformat ascii 1.0\nelement vertex 0\nproperty float x\nproperty float y\nproperty float z\nend_header";
    assert!(parse_ok(file).point_count() == 0);
    let file = b"ply\nformat ascii 1.0\nelement vertex 0\n";
    assert!(matches!(parse_err(file), PointCloudError::Malformed { .. }));
    let file = b"ply\nelement vertex 0\nend_header\n";
    assert!(matches!(parse_err(file), PointCloudError::Malformed { .. }));
    let file = b"ply\nformat ascii 1.0\nmystery line here\nend_header\n";
    assert!(matches!(parse_err(file), PointCloudError::Malformed { .. }));
    let file = b"ply\nformat ascii 1.0\nelement vertex 0\nproperty float32 x\nend_header\n";
    assert!(matches!(parse_err(file), PointCloudError::Malformed { .. }));
}

#[test]
fn unsupported_storage_modes() {
    for mode in [
        b"binary_big_endian".as_slice(),
        b"binary_little_endian2".as_slice(),
    ] {
        let mut file = b"ply\nformat ".to_vec();
        file.extend_from_slice(mode);
        file.extend_from_slice(b" 1.0\nelement vertex 0\nend_header\n");
        assert!(matches!(parse_err(&file), PointCloudError::Malformed { .. }));
    }
    let file = b"ply\nformat ascii nope\nelement vertex 0\nend_header\n";
    assert!(matches!(parse_err(file), PointCloudError::Malformed { .. }));
}

#[test]
fn ascii_color_channels() {
    let file = ascii_fixture(
        2,
        &[
            "property float x",
            "property float y",
            "property float z",
            "property uchar r",
            "property uchar g",
            "property uchar b",
        ],
        "0 0 0 255 0 0\n1 2 3 10 20 30\n",
    );
    let data = parse_ok(&file);
    let colors = colors_of(&data).expect("colors must be present");
    assert_eq!(colors[0], Color { r: 255, g: 0, b: 0 });
    assert_eq!(colors[1], Color { r: 10, g: 20, b: 30 });
    assert_eq!(data.positions.len(), colors.len());
}

#[test]
fn ascii_color_channels_out_of_order_and_extra_props() {
    let file = ascii_fixture(
        1,
        &[
            "property uchar b",
            "property uchar r",
            "property uchar g",
            "property float x",
            "property float y",
            "property float z",
            "property float nx",
        ],
        "3 1 2 0 0 0 0\n",
    );
    let data = parse_ok(&file);
    let colors = colors_of(&data).expect("colors must be present");
    assert_eq!(colors[0], Color { r: 1, g: 2, b: 3 });
}

#[test]
fn ascii_rgb_dialect_three_tokens() {
    let file = ascii_fixture(
        1,
        &[
            "property float x",
            "property float y",
            "property float z",
            "property uchar rgb",
        ],
        "1 2 3 200 100 50\n",
    );
    let data = parse_ok(&file);
    let colors = colors_of(&data).expect("dialect colors must be present");
    assert_eq!(colors[0], Color { r: 200, g: 100, b: 50 });
}

#[test]
fn partial_or_float_channels_mean_no_color() {
    let file = ascii_fixture(
        1,
        &[
            "property float x",
            "property float y",
            "property float z",
            "property uchar r",
            "property uchar g",
        ],
        "1 2 3 4 5\n",
    );
    let data = parse_ok(&file);
    assert!(data.colors.is_none());

    let file = ascii_fixture(
        1,
        &[
            "property float x",
            "property float y",
            "property float z",
            "property float r",
            "property float g",
            "property float b",
        ],
        "1 2 3 0.5 0.5 0.5\n",
    );
    let data = parse_ok(&file);
    assert!(data.colors.is_none());
}

#[test]
fn both_color_layouts_rejected() {
    let file = ascii_fixture(
        0,
        &[
            "property float x",
            "property float y",
            "property float z",
            "property uchar r",
            "property uchar g",
            "property uchar b",
            "property uchar rgb",
        ],
        "",
    );
    assert!(matches!(parse_err(&file), PointCloudError::Malformed { .. }));
}

#[test]
fn coordinate_type_matrix() {
    let file = ascii_fixture(
        1,
        &["property uchar x", "property short y", "property float z"],
        "",
    );
    assert!(matches!(parse_err(&file), PointCloudError::Malformed { .. }));

    let file = ascii_fixture(
        1,
        &["property uchar x", "property double y", "property int z"],
        "1 2.5 3\n",
    );
    let data = parse_ok(&file);
    assert_eq!(positions_of(&data)[0], Vec3::new(1.0, 2.5, 3.0));

    let file = ascii_fixture(0, &["property float x", "property float y"], "");
    assert!(matches!(parse_err(&file), PointCloudError::Malformed { .. }));
    let file = b"ply\nformat ascii 1.0\nelement face 0\nend_header\n";
    assert!(matches!(parse_err(file), PointCloudError::Malformed { .. }));
}

#[test]
fn ascii_nan_inf_kept_and_excluded_from_bounds() {
    let file = ascii_fixture(
        3,
        &["property float x", "property float y", "property float z"],
        "nan inf 0\n1 2 3\n-inf -2 4\n",
    );
    let data = parse_ok(&file);
    let positions = positions_of(&data);
    assert!(positions[0].x.is_nan());
    assert_eq!(positions[0].y, f32::INFINITY);
    assert_eq!(positions[2].x, f32::NEG_INFINITY);
    let bounds = bounds_of(&positions).expect("one finite point must yield bounds");
    assert_eq!(bounds.0, Vec3::new(1.0, 2.0, 3.0));
    assert_eq!(bounds.1, Vec3::new(1.0, 2.0, 3.0));
}

#[test]
fn all_non_finite_gives_no_bounds() {
    let file = ascii_fixture(
        2,
        &["property float x", "property float y", "property float z"],
        "nan 1 2\ninf nan nan\n",
    );
    let data = parse_ok(&file);
    assert!(bounds_of(&positions_of(&data)).is_none());
    assert_eq!(data.point_count(), 2);
}

#[test]
fn ascii_errors() {
    let file = ascii_fixture(
        1,
        &[
            "property float x",
            "property float y",
            "property float z",
            "property uchar r",
            "property uchar g",
            "property uchar b",
        ],
        "0 0 0 300 0 0\n",
    );
    assert!(matches!(parse_err(&file), PointCloudError::Malformed { .. }));
    let file = ascii_fixture(
        1,
        &["property float x", "property float y", "property float z"],
        "1 2 three\n",
    );
    assert!(matches!(parse_err(&file), PointCloudError::Malformed { .. }));
    let file = ascii_fixture(
        1,
        &["property float x", "property float y", "property float z"],
        "1 2\n",
    );
    assert!(matches!(parse_err(&file), PointCloudError::Malformed { .. }));
    let file = ascii_fixture(
        2,
        &["property float x", "property float y", "property float z"],
        "1 2 3\n",
    );
    assert!(matches!(parse_err(&file), PointCloudError::Malformed { .. }));
    let file = ascii_fixture(
        1,
        &["property int x", "property int y", "property int z"],
        "1 2.5 3\n",
    );
    assert!(matches!(parse_err(&file), PointCloudError::Malformed { .. }));
}

#[test]
fn binary_xyz_float_and_colors() {
    let body = body(&[
        &f32_bytes(1.0),
        &f32_bytes(2.0),
        &f32_bytes(3.0),
        &[255, 0, 0],
        &f32_bytes(4.0),
        &f32_bytes(5.0),
        &f32_bytes(6.0),
        &[10, 20, 30],
    ]);
    let file = binary_fixture(
        2,
        &[
            "property float x",
            "property float y",
            "property float z",
            "property uchar r",
            "property uchar g",
            "property uchar b",
        ],
        &body,
    );
    let data = parse_ok(&file);
    assert_eq!(
        positions_of(&data),
        &[Vec3::new(1.0, 2.0, 3.0), Vec3::new(4.0, 5.0, 6.0)]
    );
    let colors = colors_of(&data).expect("colors must be present");
    assert_eq!(colors[0], Color { r: 255, g: 0, b: 0 });
    assert_eq!(colors[1], Color { r: 10, g: 20, b: 30 });
}

#[test]
fn binary_rgb_dialect_15_byte_stride() {
    let body = body(&[
        &f32_bytes(1.0),
        &f32_bytes(2.0),
        &f32_bytes(3.0),
        &[200, 100, 50],
        &f32_bytes(-4.0),
        &f32_bytes(-5.0),
        &f32_bytes(6.0),
        &[1, 2, 3],
    ]);
    let file = binary_fixture(
        2,
        &[
            "property float x",
            "property float y",
            "property float z",
            "property uchar rgb",
        ],
        &body,
    );
    let data = parse_ok(&file);
    assert_eq!(
        positions_of(&data),
        &[Vec3::new(1.0, 2.0, 3.0), Vec3::new(-4.0, -5.0, 6.0)]
    );
    let colors = colors_of(&data).expect("dialect colors must be present");
    assert_eq!(colors[0], Color { r: 200, g: 100, b: 50 });
    assert_eq!(colors[1], Color { r: 1, g: 2, b: 3 });
}

#[test]
fn binary_integer_and_double_coordinates() {
    let body = body(&[
        &le32(7),
        &le32(8),
        &f64_bytes(9.5),
        &le32(3),
        &le32(4),
        &f64_bytes(-2.5),
    ]);
    let file = binary_fixture(
        2,
        &["property uint x", "property uint y", "property double z"],
        &body,
    );
    let data = parse_ok(&file);
    assert_eq!(
        positions_of(&data),
        &[Vec3::new(7.0, 8.0, 9.5), Vec3::new(3.0, 4.0, -2.5)]
    );
}

#[test]
fn binary_extra_scalar_props_are_skipped() {
    let body = body(&[
        &f32_bytes(1.0),
        &f32_bytes(2.0),
        &f32_bytes(3.0),
        &le32(42),
        &f32_bytes(4.0),
        &f32_bytes(5.0),
        &f32_bytes(6.0),
        &le32(7),
    ]);
    let file = binary_fixture(
        2,
        &[
            "property float x",
            "property float y",
            "property float z",
            "property int quality",
        ],
        &body,
    );
    let data = parse_ok(&file);
    assert_eq!(
        positions_of(&data),
        &[Vec3::new(1.0, 2.0, 3.0), Vec3::new(4.0, 5.0, 6.0)]
    );
}

#[test]
fn binary_truncated_and_huge_count_rejected() {
    let body: Vec<u8> = [f32_bytes(1.0), f32_bytes(2.0), f32_bytes(3.0)].concat();
    let file = binary_fixture(
        2,
        &["property float x", "property float y", "property float z"],
        &body,
    );
    assert!(matches!(parse_err(&file), PointCloudError::Malformed { .. }));

    let file = binary_fixture(
        u64::from(u32::MAX),
        &["property float x", "property float y", "property float z"],
        &body,
    );
    assert!(matches!(parse_err(&file), PointCloudError::Malformed { .. }));
}

#[test]
fn binary_nan_inf_kept_and_colors_synced() {
    let body = body(&[
        &f32_bytes(f32::NAN),
        &f32_bytes(f32::INFINITY),
        &f32_bytes(0.0),
        &[1, 2, 3],
        &f32_bytes(f32::NEG_INFINITY),
        &f32_bytes(1.0),
        &f32_bytes(2.0),
        &[4, 5, 6],
        &f32_bytes(3.0),
        &f32_bytes(4.0),
        &f32_bytes(5.0),
        &[7, 8, 9],
    ]);
    let file = binary_fixture(
        3,
        &[
            "property float x",
            "property float y",
            "property float z",
            "property uchar r",
            "property uchar g",
            "property uchar b",
        ],
        &body,
    );
    let data = parse_ok(&file);
    let positions = positions_of(&data);
    assert!(positions[0].x.is_nan());
    assert_eq!(positions[0].y, f32::INFINITY);
    assert_eq!(positions[1].x, f32::NEG_INFINITY);
    let colors = colors_of(&data).expect("colors must stay in sync");
    assert_eq!(colors[0], Color { r: 1, g: 2, b: 3 });
    assert_eq!(colors[1], Color { r: 4, g: 5, b: 6 });
    assert_eq!(colors[2], Color { r: 7, g: 8, b: 9 });
    let bounds = bounds_of(&positions).expect("one finite point must yield bounds");
    assert_eq!(bounds.0, Vec3::new(3.0, 4.0, 5.0));
    assert_eq!(bounds.1, Vec3::new(3.0, 4.0, 5.0));
}

#[test]
fn empty_vertex_element() {
    let file = ascii_fixture(
        0,
        &["property float x", "property float y", "property float z"],
        "",
    );
    let data = parse_ok(&file);
    assert_eq!(data.point_count(), 0);
    assert!(data.colors.is_none());
    assert!(bounds_of(&positions_of(&data)).is_none());

    let file = binary_fixture(
        0,
        &["property float x", "property float y", "property float z"],
        b"",
    );
    let data = parse_ok(&file);
    assert_eq!(data.point_count(), 0);
}

#[test]
fn comment_and_obj_info_lines_ignored() {
    let file = b"ply\nformat ascii 1.0\ncomment made by a robot\nobj_info xyz\ncomment\n\nelement vertex 1\nproperty float x\nproperty float y\nproperty float z\nend_header\n1 2 3\n".to_vec();
    let data = parse_ok(&file);
    assert_eq!(positions_of(&data), &[Vec3::new(1.0, 2.0, 3.0)]);
}

// Messages and values the library states exactly.

fn reason_of(bytes: &[u8]) -> String {
    match parse_err(bytes) {
        PointCloudError::Malformed { reason } => reason,
        other => panic!("expected a malformed error, got {other:?}"),
    }
}

#[test]
fn header_messages_name_the_offending_piece() {
    assert_eq!(reason_of(b""), "PLY: not a PLY file: the file is empty");
    assert_eq!(
        reason_of(b"ply\nformat ascii 1.0\nmystery line here\nend_header\n"),
        "PLY header: unrecognized keyword \"mystery\""
    );
    assert_eq!(
        reason_of(b"ply\nformat ascii 1.0\nelement vertex 0\nproperty float32 x\nend_header\n"),
        "PLY header: unknown property type \"float32\""
    );
    assert_eq!(
        reason_of(b"ply\nformat ascii 1.0\nelement vertex 12x\nend_header\n"),
        "PLY header: invalid element count \"12x\""
    );
    assert_eq!(
        reason_of(b"ply\nformat ascii 1.0\nformat ascii 1.0\nend_header\n"),
        "PLY header: duplicate \"format\" line"
    );
    assert_eq!(
        reason_of(b"ply\nformat ascii 1.0\nelement vertex 0\n"),
        "PLY header: missing \"end_header\" line"
    );
}

#[test]
fn body_messages_carry_the_counts() {
    let body: Vec<u8> = [f32_bytes(1.0), f32_bytes(2.0), f32_bytes(3.0)].concat();
    let file = binary_fixture(
        2,
        &["property float x", "property float y", "property float z"],
        &body,
    );
    assert_eq!(
        reason_of(&file),
        "PLY binary data: header declares 2 vertices at a 12-byte stride (24 bytes required), but only 12 bytes of body data remain"
    );
    let file = ascii_fixture(
        3,
        &["property float x", "property float y", "property float z"],
        "1 2 3\n4 5 6",
    );
    assert_eq!(
        reason_of(&file),
        "PLY ASCII data: file ends after 2 of 3 declared vertex records"
    );
    let file = ascii_fixture(
        1,
        &["property float x", "property float y", "property float z"],
        "1 2\n",
    );
    assert_eq!(
        reason_of(&file),
        "PLY ASCII data: vertex record 0 has 2 tokens; expected 3 (one per declared property)"
    );
    let file = ascii_fixture(
        1,
        &["property int x", "property int y", "property int z"],
        "1 2.5 3\n",
    );
    assert_eq!(reason_of(&file), "PLY ASCII data: expected a \"int\" number");
}

#[test]
fn binary_signed_integers_decode_in_twos_complement() {
    let body = body(&[&[0xff], &le32(0xffff_fffd), &[0x34, 0x12], &[9]]);
    let file = binary_fixture(
        1,
        &["property char q", "property int x", "property ushort y", "property uchar z"],
        &body,
    );
    // `char` cannot back a coordinate but is a fine skipped property.
    let data = parse_ok(&file);
    assert_eq!(data.positions[0].x, ScalarValue::Integer(-3));
    assert_eq!(data.positions[0].y, ScalarValue::Integer(0x1234));
    assert_eq!(data.positions[0].z, ScalarValue::Integer(9));
}

#[test]
fn binary_scalars_need_their_exact_width() {
    assert_eq!(decode_binary_scalar(&[1, 2, 3], ScalarType::Int), None);
    assert_eq!(
        decode_binary_scalar(&[0xfe, 0xff], ScalarType::Short),
        Some(ScalarValue::Integer(-2))
    );
    assert_eq!(
        decode_binary_scalar(&1.5f32.to_le_bytes(), ScalarType::Float),
        Some(ScalarValue::FloatBits(1.5f32.to_bits()))
    );
    assert_eq!(
        decode_binary_scalar(&(-2.5f64).to_le_bytes(), ScalarType::Double),
        Some(ScalarValue::DoubleBits((-2.5f64).to_bits()))
    );
}

#[test]
fn ascii_scalars_are_range_checked_per_type() {
    assert!(matches!(
        decode_ascii_scalar(b"300", ScalarType::UChar),
        Err(PointCloudError::Malformed { .. })
    ));
    assert_eq!(
        decode_ascii_scalar(b"-5", ScalarType::Char).unwrap(),
        ScalarValue::Integer(-5)
    );
    assert_eq!(
        decode_ascii_scalar(b"-inf", ScalarType::Double).unwrap(),
        ScalarValue::DoubleText(b"-inf".to_vec())
    );
    assert!(matches!(
        decode_ascii_scalar(&[0xff], ScalarType::Float),
        Err(PointCloudError::Malformed { reason }) if reason == "PLY ASCII data: numeric token is not valid UTF-8"
    ));
}
