use roboview_core::displays::DisplayKind;
use roboview_core::io::Color;
use roboview_core::render::colors::{
    axis_x_color_srgb, axis_y_color_srgb, axis_z_color_srgb, line_amber_srgb, pack_colors,
    with_selected_flags, APPEARANCE_FLAG_OVERRIDE, APPEARANCE_FLAG_SELECTED,
    COLOR_STRIDE_BYTES, DEFAULT_POINT_COLOR_SRGB,
};
use roboview_core::render::counters::{snapshot, HandleLedger};
use roboview_core::render::faces::face_corners;
use roboview_core::render::strips::{finite_runs, pack_strips, pack_strips_into};

fn live(ledger: &HandleLedger, kind: DisplayKind) -> u64 {
    let rows = snapshot(ledger);
    let &(_, (created, destroyed)) = rows
        .iter()
        .find(|(key, _)| key == kind.as_str())
        .expect("kind must have an entry after a note");
    created - destroyed
}

#[test]
fn ledger_balances_uploads_against_handle_holding_drops() {
    let mut ledger = HandleLedger::new();
    let untouched = snapshot(&ledger);
    assert!(
        untouched
            .iter()
            .all(|&(_, (created, destroyed))| created == 0 && destroyed == 0),
        "an untouched ledger has nothing to report: {untouched:?}"
    );

    for kind in [
        DisplayKind::PointCloud,
        DisplayKind::Mesh,
        DisplayKind::Path,
        DisplayKind::Frame,
        DisplayKind::Marker,
    ] {
        for _ in 0..50 {
            ledger.note_uploaded(kind);
            assert_eq!(live(&ledger, kind), 1, "one pending handle after the add");
            ledger.note_object_dropped(kind);
        }
        assert_eq!(live(&ledger, kind), 0, "round {kind:?} ends balanced");
    }
}

#[test]
fn snapshot_lists_noted_kinds_in_kind_order() {
    let mut ledger = HandleLedger::new();
    assert!(snapshot(&ledger).is_empty());
    ledger.note_uploaded(DisplayKind::Path);
    ledger.note_uploaded(DisplayKind::Path);
    ledger.note_object_dropped(DisplayKind::Mesh);
    let rows = snapshot(&ledger);
    assert_eq!(
        rows,
        vec![("mesh".to_string(), (0, 1)), ("path".to_string(), (2, 0))]
    );
}

#[test]
fn axis_color_constants_match_002_a4_semantic_colors() {
    assert_eq!(axis_x_color_srgb(), Color { r: 255, g: 0, b: 0 });
    assert_eq!(axis_y_color_srgb(), Color { r: 0, g: 255, b: 0 });
    assert_eq!(axis_z_color_srgb(), Color { r: 0, g: 0, b: 255 });
}

#[test]
fn path_strips_split_non_finite_points_into_finite_runs() {
    // Points a, b, NaN, c, d, e: runs [a, b] and [c, d, e].
    let runs = finite_runs(&[true, true, false, true, true, true]);
    assert_eq!(runs.len(), 2, "two finite runs, one strip each");
    assert_eq!(runs[0], (0, 2));
    assert_eq!(runs[1], (3, 3));
    for run in &runs {
        assert!(run.1 >= 2, "every strip holds at least two points");
    }
}

#[test]
fn path_strips_drop_single_point_runs_that_cannot_segment() {
    // NaN, a, inf, b, c, NaN: only [b, c] survives.
    let runs = finite_runs(&[false, true, false, true, true, false]);
    assert_eq!(runs.len(), 1, "only the two-point run survives");
    assert_eq!(runs[0], (3, 2));
    assert_eq!(runs[0].1, 2);

    // A lone finite point between NaNs has nothing to segment: no strip.
    let runs = finite_runs(&[false, true, false]);
    assert!(runs.is_empty());
}

#[test]
fn path_strips_of_an_all_finite_or_all_invalid_path() {
    let runs = finite_runs(&[true, true]);
    assert_eq!(runs.len(), 1);
    assert_eq!(runs[0], (0, 2));

    assert!(finite_runs(&[false; 4]).is_empty());
    assert!(finite_runs(&[]).is_empty());
}

#[test]
fn pack_strips_flattens_strips_and_repeats_colors_per_vertex() {
    let strips = [(axis_x_color_srgb(), 2), (line_amber_srgb(), 3)];
    let (color_bytes, ranges) = pack_strips(&strips);

    assert_eq!(color_bytes.len(), 5 * COLOR_STRIDE_BYTES as usize);
    assert_eq!(ranges, [(0, 2), (2, 3)]);

    assert_eq!(&color_bytes[0..4], &[255, 0, 0, 255]);
    assert_eq!(&color_bytes[4..8], &[255, 0, 0, 255]);
    assert_eq!(&color_bytes[8..12], &[255, 196, 100, 255]);
}

#[test]
fn pack_strips_skips_empty_strips_in_the_ranges() {
    let strips = [(line_amber_srgb(), 2), (axis_y_color_srgb(), 0), (axis_z_color_srgb(), 2)];
    let (color_bytes, ranges) = pack_strips(&strips);
    assert_eq!(ranges, [(0, 2), (2, 2)]);
    assert_eq!(&color_bytes[8..12], &[0, 0, 255, 255]);
}

#[test]
fn file_colors_pack_as_rgba8_bytes_with_opaque_alpha() {
    let colors = [Color { r: 255, g: 0, b: 128 }];
    let bytes = pack_colors(1, Some(&colors));
    assert_eq!(bytes, [255, 0, 128, 255]);
}

#[test]
fn missing_colors_pack_the_default_color_per_point() {
    let bytes = pack_colors(2, None);
    assert_eq!(bytes.len(), 8);
    assert_eq!(&bytes[0..4], &DEFAULT_POINT_COLOR_SRGB);
    assert_eq!(&bytes[4..8], &DEFAULT_POINT_COLOR_SRGB);
}

#[test]
fn with_selected_toggles_only_the_selection_bit() {
    let base = APPEARANCE_FLAG_OVERRIDE;
    let selected = with_selected_flags(base, true);
    assert_eq!(
        selected,
        APPEARANCE_FLAG_OVERRIDE | APPEARANCE_FLAG_SELECTED,
        "the override must survive setting the selection marker"
    );
    assert_eq!(with_selected_flags(selected, false), base, "clearing is lossless");
    assert_eq!(with_selected_flags(base, false), base);
    assert_eq!(with_selected_flags(selected, true), selected);
}

#[test]
fn expand_faces_of_an_index_less_mesh_is_empty() {
    let (faces, skipped) = face_corners(&[], &[]);
    assert!(faces.is_empty());
    assert_eq!(skipped, 0);
}

#[test]
fn face_corners_skip_out_of_range_non_finite_and_partial_faces() {
    // Vertices 0..=3 finite, 4 non-finite. Faces: valid; collinear;
    // duplicate corner; non-finite corner; out of range; partial chunk.
    let finite = [true, true, true, true, false];
    let indices = [0, 1, 2, 0, 1, 3, 0, 0, 1, 0, 4, 2, 0, 1, 99, 0, 1];
    let (faces, skipped) = face_corners(&finite, &indices);
    // Collinear and duplicate-corner faces reference finite vertices: only
    // their normals (the host's part) reject them.
    assert_eq!(faces, [(0, 1, 2), (0, 1, 3), (0, 0, 1)]);
    assert_eq!(skipped, 3, "non-finite corner, out of range, partial chunk");
}

#[test]
fn pack_strips_into_replaces_what_the_buffers_held() {
    let c = Color { r: 1, g: 2, b: 3 };
    let mut colors = vec![9u8; 7];
    let mut ranges = vec![(5u32, 5u32)];
    pack_strips_into(&[(c, 2), (c, 2)], &mut colors, &mut ranges);
    assert_eq!(colors, [1, 2, 3, 255].repeat(4));
    assert_eq!(ranges, vec![(0, 2), (2, 2)]);
    pack_strips_into(&[], &mut colors, &mut ranges);
    assert!(colors.is_empty());
    assert!(ranges.is_empty());
}
