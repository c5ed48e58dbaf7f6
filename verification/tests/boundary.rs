use tiny_multipart::boundary_from_content_type;

#[test]
fn test_parse_boundary() {
    let content_type = b"multipart/form-data; boundary=X-BOUNDARY";
    assert_eq!(
        boundary_from_content_type(content_type),
        Some(b"X-BOUNDARY".as_slice())
    );

    let content_type = b"multipart/form-data; boundary=\"--X-BOUNDARY\"";
    assert_eq!(
        boundary_from_content_type(content_type),
        Some(b"--X-BOUNDARY".as_slice())
    );

    let content_type = b"multipart/form-data; boundary=------X-BOUNDARY";
    assert_eq!(
        boundary_from_content_type(content_type),
        Some(b"------X-BOUNDARY".as_slice())
    );

    let content_type =
        b"Multipart/Form-Data; charset=utf-8; BOUNDARY=\"X-BOUNDARY\"; ignored=yes";
    assert_eq!(
        boundary_from_content_type(content_type),
        Some(b"X-BOUNDARY".as_slice())
    );

    let content_type = b"boundary=------X-BOUNDARY";
    assert!(boundary_from_content_type(content_type).is_none());

    let content_type = b"multipart/form-data; boundary=valid@invalid";
    assert!(boundary_from_content_type(content_type).is_none());

    let content_type = b"multipart/form-data; boundary=first; boundary=second";
    assert!(boundary_from_content_type(content_type).is_none());
}
