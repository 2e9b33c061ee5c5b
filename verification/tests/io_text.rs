use roboview_core::io::text::{
    parse_integer, parse_number, ws_tokens, xyz_tokens, LineIter, NumberTokenError,
};
use roboview_core::io::{format_for_extension, Format, PointCloudError};

fn all_lines(bytes: &[u8]) -> Vec<Vec<u8>> {
    let mut it = LineIter::new(bytes);
    let mut out = Vec::new();
    while let Some(line) = it.next() {
        out.push(line.to_vec());
    }
    out
}

#[test]
fn lines_strip_crlf_and_keep_blank_lines() {
    assert_eq!(
        all_lines(b"a\r\n\nb\nc"),
        vec![b"a".to_vec(), b"".to_vec(), b"b".to_vec(), b"c".to_vec()]
    );
    // A final newline does not open an empty last line.
    assert_eq!(all_lines(b"a\n"), vec![b"a".to_vec()]);
    assert!(all_lines(b"").is_empty());
}

#[test]
fn tokens_drop_empty_runs_per_delimiter_class() {
    assert_eq!(ws_tokens(b"  1\t2 \x0c3 "), vec![&b"1"[..], &b"2"[..], &b"3"[..]]);
    assert_eq!(xyz_tokens(b"1,\t2 ,3"), vec![&b"1"[..], &b"2"[..], &b"3"[..]]);
    // Form feed is not an XYZ delimiter: it stays inside the token.
    assert_eq!(xyz_tokens(b"1\x0c2"), vec![&b"1\x0c2"[..]]);
}

#[test]
fn number_tokens_follow_the_float_grammar() {
    for ok in [&b"1"[..], b"-2.5e-1", b"+.5", b"5.", b"nan", b"-Infinity", b"INF", b"1E3"] {
        assert_eq!(parse_number(ok), Ok(()), "{:?}", std::str::from_utf8(ok));
    }
    for bad in [&b""[..], b".", b"e3", b"1e", b"1.2.3", b"three", b"0x10", b"--1"] {
        assert_eq!(parse_number(bad), Err(NumberTokenError::Invalid));
    }
    assert_eq!(parse_number(&[0xff, 0x31]), Err(NumberTokenError::NotUtf8));
}

#[test]
fn integer_tokens_are_range_checked() {
    assert_eq!(parse_integer(b"255", false, 0, 255), Some(255));
    assert_eq!(parse_integer(b"256", false, 0, 255), None);
    assert_eq!(parse_integer(b"+7", false, 0, 255), Some(7));
    assert_eq!(parse_integer(b"-7", false, 0, 255), None);
    assert_eq!(parse_integer(b"-128", true, -128, 127), Some(-128));
    assert_eq!(parse_integer(b"2.5", true, -128, 127), None);
}

#[test]
fn point_cloud_formats_follow_the_lowercased_extension() {
    assert!(matches!(format_for_extension("ply"), Ok(Format::Ply)));
    assert!(matches!(format_for_extension("PLY"), Ok(Format::Ply)));
    assert!(matches!(format_for_extension("Pcd"), Ok(Format::Pcd)));
    match format_for_extension("XYZ") {
        Err(PointCloudError::UnsupportedFormat { extension }) => assert_eq!(extension, "xyz"),
        other => panic!("expected an unsupported format, got {other:?}"),
    }
    match format_for_extension("") {
        Err(PointCloudError::UnsupportedFormat { extension }) => assert_eq!(extension, ""),
        other => panic!("expected an unsupported format, got {other:?}"),
    }
}
