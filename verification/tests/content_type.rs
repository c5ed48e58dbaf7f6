use tiny_multipart::{MultipartParser, boundary_from_content_type};

#[test]
fn boundary_needs_the_media_type() {
    assert_eq!(boundary_from_content_type(b"text/plain; boundary=abc"), None);
    assert_eq!(boundary_from_content_type(b"multipart/form-data"), None);
    assert_eq!(boundary_from_content_type(b"multipart/form-data; charset=utf-8"), None);
}

#[test]
fn boundary_allows_surrounding_space() {
    assert_eq!(
        boundary_from_content_type(b" \tmultipart/form-data ;boundary = abc \t"),
        Some(b"abc".as_slice())
    );
    assert_eq!(boundary_from_content_type(b"multipart/form-data; boundary=abc;"), None);
    assert_eq!(
        boundary_from_content_type(b" \tmultipart/form-data; boundary = abc \t"),
        Some(b"abc".as_slice())
    );
}

#[test]
fn boundary_must_be_valid() {
    assert_eq!(boundary_from_content_type(b"multipart/form-data; boundary=\"ends \""), None);
    assert_eq!(boundary_from_content_type(b"multipart/form-data; boundary=\"\""), None);
    assert_eq!(
        boundary_from_content_type(b"multipart/form-data; boundary=\"with space\""),
        Some(b"with space".as_slice())
    );
    let long = [b'a'; 71];
    let mut header = b"multipart/form-data; boundary=".to_vec();
    header.extend_from_slice(&long);
    assert_eq!(boundary_from_content_type(&header), None);
    header.pop();
    assert_eq!(boundary_from_content_type(&header), Some(&long[..70]));
}

#[test]
fn extracted_boundary_is_accepted_by_the_parser() {
    let header = b"multipart/form-data; boundary=\"a'()+_,-./:=? z\"";
    let boundary = boundary_from_content_type(header).unwrap();
    assert_eq!(boundary, b"a'()+_,-./:=? z");
    assert!(MultipartParser::new(boundary).is_ok());
}
