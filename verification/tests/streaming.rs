use tiny_multipart::capi::{RetCode, parser_next};
use tiny_multipart::{Error, MultipartParser, Outcome};

const BODY: &[u8] = b"preamble text\r\n--X-BOUNDARY\r\nContent-Disposition: form-data; name=\"first\"\r\n\r\none\r\n--X-BOUNDARY \t\r\nContent-Disposition: form-data; name=second; filename=\"s.txt\"\r\nContent-Type:  text/plain \r\n\r\nline1\r\n--X-BOUNDARYnot\r\nline2\r\n--X-BOUNDARY--\r\n";

type Owned = (Vec<u8>, Vec<u8>, Option<Vec<u8>>, Option<Vec<u8>>);

fn own(entry: &tiny_multipart::Entry) -> Owned {
    (
        entry.name().to_vec(),
        entry.value().to_vec(),
        entry.filename().map(|f| f.to_vec()),
        entry.content_type().map(|c| c.to_vec()),
    )
}

/// Feeds `data` in chunks of `chunk` bytes, draining what each step consumes.
fn stream(data: &[u8], chunk: usize) -> Result<Vec<Owned>, Error> {
    let mut parser = MultipartParser::new(b"X-BOUNDARY").unwrap();
    let mut buffer = Vec::new();
    let mut offset = 0;
    let mut entries = Vec::new();
    loop {
        let end = (offset + chunk).min(data.len());
        buffer.extend_from_slice(&data[offset..end]);
        offset = end;
        loop {
            match parser.parse_next(&buffer)? {
                Outcome::Entry { entry, consumed } => {
                    entries.push(own(&entry));
                    buffer.drain(..consumed);
                }
                Outcome::Done { consumed } => {
                    buffer.drain(..consumed);
                    return Ok(entries);
                }
                Outcome::NeedMore => break,
            }
        }
        assert!(offset < data.len(), "truncated body");
    }
}

fn expected() -> Vec<Owned> {
    vec![
        (b"first".to_vec(), b"one".to_vec(), None, None),
        (
            b"second".to_vec(),
            b"line1\r\n--X-BOUNDARYnot\r\nline2".to_vec(),
            Some(b"s.txt".to_vec()),
            Some(b"text/plain".to_vec()),
        ),
    ]
}

#[test]
fn chunk_size_does_not_change_the_entries() {
    for chunk in 1..=BODY.len() {
        assert_eq!(stream(BODY, chunk), Ok(expected()), "chunk size {chunk}");
    }
}

#[test]
fn retrying_after_need_more_matches_a_fresh_parse() {
    let mut fresh = MultipartParser::new(b"X-BOUNDARY").unwrap();
    let whole = fresh.parse_next(BODY).unwrap();
    for cut in 0..BODY.len() {
        let mut parser = MultipartParser::new(b"X-BOUNDARY").unwrap();
        match parser.parse_next(&BODY[..cut]).unwrap() {
            Outcome::NeedMore => assert_eq!(parser.parse_next(BODY), Ok(whole), "cut {cut}"),
            decided => assert_eq!(decided, whole, "cut {cut}"),
        }
    }
}

#[test]
fn more_input_keeps_a_decided_error() {
    let body = b"--X-BOUNDARY\r\nX-Other: a\r\n\r\nvalue\r\n--X-BOUNDARY--\r\n";
    let mut first = MultipartParser::new(b"X-BOUNDARY").unwrap();
    assert_eq!(first.parse_next(&body[..30]), Err(Error::MissingContentDisposition));
    let mut second = MultipartParser::new(b"X-BOUNDARY").unwrap();
    assert_eq!(second.parse_next(body), Err(Error::MissingContentDisposition));
}

#[test]
fn only_done_after_the_closing_delimiter() {
    let body = b"--X-BOUNDARY--";
    let mut parser = MultipartParser::new(b"X-BOUNDARY").unwrap();
    assert_eq!(parser.parse_next(body), Ok(Outcome::Done { consumed: 14 }));
    assert_eq!(parser.parse_next(b"--X-BOUNDARY\r\n"), Ok(Outcome::Done { consumed: 0 }));
    let mut entries = parser.entries(b"anything");
    assert_eq!(entries.next(), None);
    assert_eq!(entries.next(), None);
}

#[test]
fn only_done_after_an_error() {
    let mut parser = MultipartParser::new(b"X-BOUNDARY").unwrap();
    let mut entries = parser.entries(b"--X-BOUNDARY\r\n\r\nvalue\r\n--X-BOUNDARY--\r\n");
    assert_eq!(entries.next(), Some(Err(Error::MalformedBody)));
    assert_eq!(entries.next(), None);
    assert_eq!(parser.parse_next(b"--X-BOUNDARY--"), Ok(Outcome::Done { consumed: 0 }));
}

#[test]
fn close_delimiter_tail_arrives_later() {
    let body = b"--X-BOUNDARY-- \t\r\n";
    let mut early = MultipartParser::new(b"X-BOUNDARY").unwrap();
    assert_eq!(early.parse_next(&body[..14]), Ok(Outcome::Done { consumed: 14 }));
    let mut late = MultipartParser::new(b"X-BOUNDARY").unwrap();
    assert_eq!(late.parse_next(body), Ok(Outcome::Done { consumed: body.len() }));
}

#[test]
fn partial_and_complete_modes_differ_on_junk_after_the_close_delimiter() {
    let body = b"--X-BOUNDARY\r\nContent-Disposition: form-data; name=a\r\n\r\nv\r\n--X-BOUNDARY--junk";
    let mut partial = MultipartParser::new(b"X-BOUNDARY").unwrap();
    match partial.parse_next(body) {
        Ok(Outcome::Entry { entry, consumed }) => {
            assert_eq!(entry.value(), b"v");
            assert_eq!(consumed, 59);
        }
        other => panic!("expected an entry, got {other:?}"),
    }
    let mut complete = MultipartParser::new(b"X-BOUNDARY").unwrap();
    assert_eq!(
        complete.entries(body).next(),
        Some(Err(Error::MissingClosingBoundary))
    );
}

#[test]
fn cursor_past_a_shrunken_input_is_malformed() {
    let body = b"preamble\r\n--X-BOUNDARY\r\nContent-Disposition: form-data; name=a\r\n\r\nval";
    let mut parser = MultipartParser::new(b"X-BOUNDARY").unwrap();
    assert_eq!(parser.parse_next(body), Ok(Outcome::NeedMore));
    assert_eq!(parser.parse_next(b""), Err(Error::MalformedBody));
    assert_eq!(parser.parse_next(body), Ok(Outcome::Done { consumed: 0 }));
}

fn run(body: &[u8]) -> Option<Result<tiny_multipart::Entry<'_>, Error>> {
    let mut parser = MultipartParser::new(b"B").unwrap();
    let mut entries = parser.entries(body);
    entries.next()
}

#[test]
fn every_error_variant_is_reachable() {
    assert!(matches!(MultipartParser::new(b"bad@boundary"), Err(Error::InvalidBoundary)));
    assert!(matches!(MultipartParser::new(b"ends with space "), Err(Error::InvalidBoundary)));
    assert!(MultipartParser::new(&[b'x'; 70]).is_ok());

    assert_eq!(run(b"no delimiter here"), Some(Err(Error::MissingOpeningBoundary)));
    assert_eq!(
        run(b"--B\r\nContent-Disposition: form-data; name=a\r\n\r\nno end"),
        Some(Err(Error::MissingClosingBoundary))
    );
    assert_eq!(
        run(b"--B\r\nContent-Disposition: form-data; filename=f\r\n\r\nv\r\n--B--"),
        Some(Err(Error::MissingName))
    );
    assert_eq!(
        run(b"--B\r\nContent-Type: text/plain\r\n\r\nv\r\n--B--"),
        Some(Err(Error::MissingContentDisposition))
    );
    assert_eq!(run(b"--B\r\n\r\nv\r\n--B--"), Some(Err(Error::MalformedBody)));
}

#[test]
fn name_counts_only_after_form_data() {
    let mut parser = MultipartParser::new(b"B").unwrap();
    let mut entries = parser.entries(b"--B\r\nContent-Disposition: name=early; form-data; name=late\r\n\r\nv\r\n--B--");
    assert_eq!(entries.next().unwrap().unwrap().name(), b"late");
    assert_eq!(entries.next(), None);
}

#[test]
fn error_messages() {
    assert_eq!(Error::InvalidBoundary.message(), "invalid multipart boundary");
    assert_eq!(Error::MissingOpeningBoundary.message(), "multipart body has no opening boundary");
    assert_eq!(Error::MissingClosingBoundary.message(), "multipart part has no closing boundary");
    assert_eq!(Error::MissingName.message(), "name is missing from the content-disposition header");
    assert_eq!(
        Error::MissingContentDisposition.message(),
        "content-disposition is missing from the part headers"
    );
    assert_eq!(Error::MalformedBody.message(), "malformed multipart body");
}

#[test]
fn c_api_steps_and_codes() {
    assert_eq!(RetCode::Entry.code(), 0);
    assert_eq!(RetCode::Eos.code(), 1);
    assert_eq!(RetCode::Error.code(), 2);

    let mut parser = MultipartParser::new(b"X-BOUNDARY").unwrap();
    let (code, entry, rest) = parser_next(&mut parser, BODY);
    assert_eq!(code, RetCode::Entry);
    assert_eq!(own(&entry.unwrap()), expected()[0]);
    let (code, entry, rest) = parser_next(&mut parser, rest);
    assert_eq!(code, RetCode::Entry);
    assert_eq!(own(&entry.unwrap()), expected()[1]);
    let (code, entry, rest) = parser_next(&mut parser, rest);
    assert_eq!((code, entry, rest), (RetCode::Eos, None, b"".as_slice()));
    let (code, entry, rest) = parser_next(&mut parser, b"tail");
    assert_eq!((code, entry, rest), (RetCode::Eos, None, b"tail".as_slice()));

    let mut parser = MultipartParser::new(b"X-BOUNDARY").unwrap();
    let truncated = &BODY[..40];
    let (code, entry, rest) = parser_next(&mut parser, truncated);
    assert_eq!((code, entry, rest), (RetCode::Error, None, truncated));
}

#[test]
fn every_step_consumes_within_the_input() {
    let mut parser = MultipartParser::new(b"X-BOUNDARY").unwrap();
    let mut rest: &[u8] = BODY;
    loop {
        match parser.parse_next(rest).unwrap() {
            Outcome::Entry { consumed, .. } => {
                assert!(0 < consumed && consumed <= rest.len());
                rest = &rest[consumed..];
            }
            Outcome::Done { consumed } => {
                assert_eq!(consumed, rest.len());
                break;
            }
            Outcome::NeedMore => panic!("the body is complete"),
        }
    }
}

#[test]
fn need_more_at_the_end_means_truncated() {
    for cut in 0..BODY.len() {
        let prefix = &BODY[..cut];
        let mut partial = MultipartParser::new(b"X-BOUNDARY").unwrap();
        if partial.parse_next(prefix) == Ok(Outcome::NeedMore) {
            let mut complete = MultipartParser::new(b"X-BOUNDARY").unwrap();
            let first = complete.entries(prefix).next();
            assert!(matches!(first, Some(Err(_))), "cut {cut}: {first:?}");
        }
    }
    let mut partial = MultipartParser::new(b"X-BOUNDARY").unwrap();
    assert_eq!(partial.parse_next(b"--X-BOUND"), Ok(Outcome::NeedMore));
    let mut complete = MultipartParser::new(b"X-BOUNDARY").unwrap();
    assert_eq!(
        complete.entries(b"--X-BOUND").next(),
        Some(Err(Error::MissingOpeningBoundary))
    );
}

#[test]
fn c_api_step_matches_the_iterator_step() {
    let mut by_iterator = MultipartParser::new(b"X-BOUNDARY").unwrap();
    let mut entries = by_iterator.entries(BODY);
    let mut by_c_api = MultipartParser::new(b"X-BOUNDARY").unwrap();
    let mut rest: &[u8] = BODY;
    loop {
        let item = entries.next();
        let (code, entry, next) = parser_next(&mut by_c_api, rest);
        rest = next;
        match item {
            Some(Ok(e)) => {
                assert_eq!(code, RetCode::Entry);
                assert_eq!(entry, Some(e));
            }
            None => {
                assert_eq!((code, entry), (RetCode::Eos, None));
                break;
            }
            Some(Err(_)) => {
                assert_eq!((code, entry), (RetCode::Error, None));
                break;
            }
        }
    }
    assert!(rest.is_empty());
}
