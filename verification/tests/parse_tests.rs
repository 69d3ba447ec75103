use trackview::TrackPoint;
use trackview::parse::TrackError;
use trackview::parse::parse_real;
use trackview::parse::parse_track_file;

fn line(s: &str) -> Vec<u8> {
    s.as_bytes().to_vec()
}

#[test]
fn round_trip_three_points() {
    let lines = vec![line("3"), line("1 2 3"), line("4.5 -6 0.25"), line("-0.001 0 7")];
    let pts = parse_track_file(&lines).unwrap();
    assert_eq!(pts.len(), 3);
    assert_eq!(pts[0], TrackPoint { x: 1000, y: 2000, z: 3000 });
    assert_eq!(pts[1], TrackPoint { x: 4500, y: -6000, z: 250 });
    assert_eq!(pts[2], TrackPoint { x: -1, y: 0, z: 7000 });
}

#[test]
fn fraction_digits_beyond_third_truncate() {
    let lines = vec![line("1"), line("1.23456 0.9999 2.0")];
    let pts = parse_track_file(&lines).unwrap();
    assert_eq!(pts[0], TrackPoint { x: 1234, y: 999, z: 2000 });
}

#[test]
fn count_is_informational() {
    let lines = vec![line("5"), line("1 1 1"), line("2 2 2")];
    let pts = parse_track_file(&lines).unwrap();
    assert_eq!(pts.len(), 2);
}

#[test]
fn leading_blank_lines_are_skipped() {
    let lines = vec![line(""), line(""), line("1"), line("3 4 5")];
    let pts = parse_track_file(&lines).unwrap();
    assert_eq!(pts.len(), 1);
    assert_eq!(pts[0], TrackPoint { x: 3000, y: 4000, z: 5000 });
}

#[test]
fn two_fields_give_format_error_with_line_number() {
    let lines = vec![line("1"), line("1 2")];
    let err = parse_track_file(&lines).unwrap_err();
    assert_eq!(err, TrackError::FormatError { line: 2, content: line("1 2") });
}

#[test]
fn non_numeric_field_gives_format_error_with_line_number() {
    let lines = vec![line("1"), line("1 a 3")];
    let err = parse_track_file(&lines).unwrap_err();
    assert_eq!(err, TrackError::FormatError { line: 2, content: line("1 a 3") });
}

#[test]
fn first_malformed_line_is_reported() {
    let lines = vec![line("3"), line("1 2 3"), line("x y z"), line("also bad")];
    let err = parse_track_file(&lines).unwrap_err();
    assert_eq!(err, TrackError::FormatError { line: 3, content: line("x y z") });
}

#[test]
fn bad_count_line_is_reported() {
    let lines = vec![line("abc"), line("1 2 3")];
    let err = parse_track_file(&lines).unwrap_err();
    assert_eq!(err, TrackError::FormatError { line: 1, content: line("abc") });
}

#[test]
fn empty_file_reports_missing_count() {
    let lines: Vec<Vec<u8>> = Vec::new();
    let err = parse_track_file(&lines).unwrap_err();
    assert_eq!(err, TrackError::FormatError { line: 1, content: Vec::new() });
}

#[test]
fn all_blank_file_reports_missing_count() {
    let lines = vec![line(""), line("")];
    let err = parse_track_file(&lines).unwrap_err();
    assert_eq!(err, TrackError::FormatError { line: 3, content: Vec::new() });
}

#[test]
fn four_fields_are_rejected() {
    let lines = vec![line("1"), line("1 2 3 4")];
    let err = parse_track_file(&lines).unwrap_err();
    assert_eq!(err, TrackError::FormatError { line: 2, content: line("1 2 3 4") });
}

#[test]
fn doubled_space_makes_an_empty_field() {
    let lines = vec![line("1"), line("1  2 3")];
    assert!(parse_track_file(&lines).is_err());
}

#[test]
fn signs_are_parsed() {
    let lines = vec![line("1"), line("+1.5 -2 3")];
    let pts = parse_track_file(&lines).unwrap();
    assert_eq!(pts[0], TrackPoint { x: 1500, y: -2000, z: 3000 });
}

#[test]
fn oversized_integer_part_is_rejected() {
    let lines = vec![line("1"), line("1234567890123456 0 0")];
    let err = parse_track_file(&lines).unwrap_err();
    assert_eq!(
        err,
        TrackError::FormatError { line: 2, content: line("1234567890123456 0 0") }
    );
}

#[test]
fn real_number_grammar_edges() {
    assert_eq!(parse_real(&line("12.")), Some(12000));
    assert_eq!(parse_real(&line(".5")), Some(500));
    assert_eq!(parse_real(&line("-0")), Some(0));
    assert_eq!(parse_real(&line("007")), Some(7000));
    assert_eq!(parse_real(&line("999999999999999")), Some(999_999_999_999_999_000));
    assert_eq!(parse_real(&line("")), None);
    assert_eq!(parse_real(&line(".")), None);
    assert_eq!(parse_real(&line("+")), None);
    assert_eq!(parse_real(&line("1.2.3")), None);
    assert_eq!(parse_real(&line("1e5")), None);
    assert_eq!(parse_real(&line(" 1")), None);
}
