use wavefront::Error;
use wavefront::Obj;

fn lines(ls: &[&str]) -> Vec<String> {
    ls.iter().map(|s| s.to_string()).collect()
}

fn parse_err(ls: &[&str]) -> Error {
    match Obj::from_lines(&lines(ls)) {
        Ok(_) => panic!("expected the parse to fail"),
        Err(e) => e,
    }
}

#[test]
fn zero_index_is_invalid() {
    let e = parse_err(&["f 0/1/1 1/1/1 1/1/1"]);
    assert_eq!(e, Error::InvalidIndex(0));
}

#[test]
fn relative_index_without_enough_history() {
    let e = parse_err(&["v 1 1 1", "f -5 1 1"]);
    assert_eq!(e, Error::InvalidIndex(-5));
}

#[test]
fn relative_index_resolving_to_zero() {
    let e = parse_err(&["v 1 1 1", "f -2 1 1"]);
    assert_eq!(e, Error::InvalidIndex(-2));
}

#[test]
fn lone_object_directive_needs_a_name() {
    let e = parse_err(&["o"]);
    assert_eq!(e, Error::ExpectedName(1));
}

#[test]
fn invalid_object_name_is_fatal() {
    let e = parse_err(&["v 0 0 0", "o b@d"]);
    assert_eq!(e, Error::ExpectedName(2));
}

#[test]
fn non_numeric_face_index() {
    let e = parse_err(&["v 0 0 0", "f x 1 1"]);
    assert_eq!(e, Error::ExpectedIdx(2));
}

#[test]
fn missing_position_subfield() {
    let e = parse_err(&["v 0 0 0", "f /1/1"]);
    assert_eq!(e, Error::ExpectedIdx(2));
}

#[test]
fn absolute_index_beyond_final_buffer() {
    let e = parse_err(&["v 0 0 0", "f 5"]);
    assert_eq!(e, Error::InvalidIndex(5));
}

#[test]
fn uv_index_beyond_final_buffer() {
    let e = parse_err(&["v 0 0 0", "vt 0 0 0", "f 1/2/"]);
    assert_eq!(e, Error::InvalidIndex(2));
}

#[test]
fn normal_index_beyond_final_buffer() {
    let e = parse_err(&["v 0 0 0", "vn 0 0 1", "f 1//2"]);
    assert_eq!(e, Error::InvalidIndex(2));
}

#[test]
fn uv_index_equal_to_buffer_length_is_valid() {
    let model = Obj::from_lines(&lines(&["v 0 0 0", "vt 0 0 0", "f 1/1/"])).unwrap();
    let poly = model.object("").unwrap().group("").unwrap().polygon(0).unwrap();
    assert_eq!(poly.vertex(0).unwrap().uv_index(), Some(0));
}

#[test]
fn plus_signed_index_is_accepted() {
    let model = Obj::from_lines(&lines(&["v 0 0 0", "f +1"])).unwrap();
    let poly = model.object("").unwrap().group("").unwrap().polygon(0).unwrap();
    assert_eq!(poly.vertex(0).unwrap().position_index(), 0);
}

#[test]
fn first_error_wins() {
    // the bad face on line 2 aborts before line 3 is ever seen
    let e = parse_err(&["v 0 0 0", "f 0", "o"]);
    assert_eq!(e, Error::InvalidIndex(0));
}

#[test]
fn overflowing_index_is_not_a_number() {
    let e = parse_err(&["v 0 0 0", "f 99999999999999999999999999"]);
    assert_eq!(e, Error::ExpectedIdx(2));
}

#[test]
fn empty_face_line_is_legal() {
    let model = Obj::from_lines(&lines(&["f"])).unwrap();
    let poly = model.object("").unwrap().group("").unwrap().polygon(0).unwrap();
    assert_eq!(poly.vertex_count(), 0);
    assert_eq!(poly.triangles().len(), 0);
}
