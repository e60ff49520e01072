use termrender::fixed::ONE;
use termrender::geom::Vec4;
use termrender::parse::{load_model, parse_fixed, parse_index, ParseErrorKind};

fn bytes(s: &str) -> Vec<u8> {
    s.as_bytes().to_vec()
}

#[test]
fn fixed_number_forms() {
    assert_eq!(parse_fixed(&bytes("2")), Some(2 * ONE));
    assert_eq!(parse_fixed(&bytes("-1.5")), Some(-(ONE + ONE / 2)));
    assert_eq!(parse_fixed(&bytes("0.25")), Some(ONE / 4));
    assert_eq!(parse_fixed(&bytes(".5")), Some(ONE / 2));
    assert_eq!(parse_fixed(&bytes("+3.0")), Some(3 * ONE));
    // Rounding half up at the sixteen-bit resolution.
    assert_eq!(parse_fixed(&bytes("0.999999")), Some(ONE));
}

#[test]
fn fixed_number_exponents() {
    assert_eq!(parse_fixed(&bytes("1e3")), Some(1000 * ONE));
    assert_eq!(parse_fixed(&bytes("1.5e2")), Some(150 * ONE));
    assert_eq!(parse_fixed(&bytes("2E1")), Some(20 * ONE));
    assert_eq!(parse_fixed(&bytes("1e+2")), Some(100 * ONE));
    // 0.001 * 65536 = 65.536, rounded half up.
    assert_eq!(parse_fixed(&bytes("1e-3")), Some(66));
    assert_eq!(parse_fixed(&bytes("-2.5e-1")), Some(-ONE / 4));
    // An exponent needs digits, and more than two are out of range.
    assert_eq!(parse_fixed(&bytes("1e")), None);
    assert_eq!(parse_fixed(&bytes("1e-")), None);
    assert_eq!(parse_fixed(&bytes("1e100")), None);
}

#[test]
fn fixed_number_rejects() {
    assert_eq!(parse_fixed(&bytes("")), None);
    assert_eq!(parse_fixed(&bytes("-")), None);
    assert_eq!(parse_fixed(&bytes(".")), None);
    assert_eq!(parse_fixed(&bytes("1.2.3")), None);
    assert_eq!(parse_fixed(&bytes("1e2.5")), None);
    assert_eq!(parse_fixed(&bytes("abc")), None);
}

#[test]
fn index_forms() {
    assert_eq!(parse_index(&bytes("7")), Some(7));
    assert_eq!(parse_index(&bytes("5/1/2")), Some(5));
    assert_eq!(parse_index(&bytes("5//2")), Some(5));
    assert_eq!(parse_index(&bytes("/2")), None);
    assert_eq!(parse_index(&bytes("x")), None);
}

#[test]
fn quad_face_fans_into_two_triangles() {
    // A quadrilateral face over four distinct vertices yields exactly the
    // two triangles (1,2,3) and (1,3,4), in that order.
    let src = bytes("v 0 0 0\nv 1 0 0\nv 1 1 0\nv 0 1 0\nf 1 2 3 4\n");
    let tris = load_model(&src).unwrap();
    assert_eq!(tris.len(), 2);
    let v1 = Vec4 { x: 0, y: 0, z: 0, w: ONE };
    let v2 = Vec4 { x: ONE, y: 0, z: 0, w: ONE };
    let v3 = Vec4 { x: ONE, y: ONE, z: 0, w: ONE };
    let v4 = Vec4 { x: 0, y: ONE, z: 0, w: ONE };
    assert_eq!(tris[0].v0, v1);
    assert_eq!(tris[0].v1, v2);
    assert_eq!(tris[0].v2, v3);
    assert_eq!(tris[1].v0, v1);
    assert_eq!(tris[1].v1, v3);
    assert_eq!(tris[1].v2, v4);
}

#[test]
fn comments_and_unknown_lines_are_ignored() {
    let src = bytes("# a comment\nvt 0 0\no thing\nv 0 0 0\nv 1 0 0\nv 0 1 0\nf 1 2 3\n");
    let tris = load_model(&src).unwrap();
    assert_eq!(tris.len(), 1);
}

#[test]
fn missing_vertex_field_is_fatal() {
    let e = load_model(&bytes("v 1 2\n")).unwrap_err();
    assert_eq!(e.line, 1);
    assert_eq!(e.kind, ParseErrorKind::MissingField);
}

#[test]
fn bad_coordinate_is_fatal() {
    let e = load_model(&bytes("v 0 0 0\nv a 2 3\n")).unwrap_err();
    assert_eq!(e.line, 2);
    assert_eq!(e.kind, ParseErrorKind::BadNumber);
}

#[test]
fn bad_reference_is_fatal() {
    let e = load_model(&bytes("v 0 0 0\nf 1 x 1\n")).unwrap_err();
    assert_eq!(e.line, 2);
    assert_eq!(e.kind, ParseErrorKind::BadIndex);
}

#[test]
fn out_of_range_reference_is_fatal() {
    let e = load_model(&bytes("v 0 0 0\nv 1 0 0\nv 0 1 0\nf 1 2 9\n")).unwrap_err();
    assert_eq!(e.line, 4);
    assert_eq!(e.kind, ParseErrorKind::BadIndex);
}

#[test]
fn two_reference_face_draws_nothing() {
    let tris = load_model(&bytes("v 0 0 0\nv 1 0 0\nf 1 2\n")).unwrap();
    assert_eq!(tris.len(), 0);
}

#[test]
fn out_of_range_two_reference_face_is_fatal() {
    // A face that yields no triangle still has every reference checked.
    let e = load_model(&bytes("f 1 9\n")).unwrap_err();
    assert_eq!(e.line, 1);
    assert_eq!(e.kind, ParseErrorKind::BadIndex);
}

#[test]
fn lone_reference_face_is_fatal() {
    let e = load_model(&bytes("v 0 0 0\nf 1\n")).unwrap_err();
    assert_eq!(e.kind, ParseErrorKind::MissingField);
}

#[test]
fn empty_input_is_an_empty_model() {
    assert_eq!(load_model(&bytes("")).unwrap().len(), 0);
}
