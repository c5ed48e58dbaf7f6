use tiny_multipart::error::Failure;
use tiny_multipart::parser::{Stream, delimiter_suffix, entry_info, find_valid_marker, next_entry, skip_preamble};
use tiny_multipart::state::{Boundary, Delimiter, Progress, State};

fn state(boundary: &[u8]) -> State {
    State::new(Boundary::new(boundary).unwrap())
}

fn suffix_stream(input: &[u8], complete: bool, saved_state: Option<State>) -> Stream<'_> {
    let mut state = saved_state.unwrap_or_else(|| state(b"B"));
    state.progress.get_or_insert_with(|| Progress::new(0, 0));
    Stream::new(input, !complete, state)
}

fn is_incomplete(result: &Result<(), Failure>) -> bool {
    matches!(result, Err(error) if error.is_incomplete())
}

#[test]
fn test_delimiter_suffix_complete_and_partial_inputs() {
    for suffix in [
        b"\r\n".as_slice(),
        b" \t\r\n",
        b"--",
        b"-- \t",
        b"--\r\n",
        b"-- \t\r\nepilogue",
    ] {
        let mut input = suffix_stream(suffix, true, None);
        assert!(delimiter_suffix(&mut input).is_ok(), "{suffix:?}");
    }

    for suffix in [b"".as_slice(), b"-", b" ", b"\r"] {
        let mut input = suffix_stream(suffix, false, None);
        assert!(is_incomplete(&delimiter_suffix(&mut input)), "{suffix:?}");
    }

    for suffix in [b"".as_slice(), b"-", b"x", b"--x", b" \t"] {
        let mut input = suffix_stream(suffix, true, None);
        let result = delimiter_suffix(&mut input);
        assert!(result.is_err() && !is_incomplete(&result), "{suffix:?}");
    }

    for suffix in [b"--".as_slice(), b"-- ", b"--\r", b"--x"] {
        let mut input = suffix_stream(suffix, false, None);
        assert!(delimiter_suffix(&mut input).is_ok(), "{suffix:?}");
    }
}

#[test]
fn test_delimiter_suffix_resumes_after_padding() {
    let mut suffix = b" \t".to_vec();
    let mut input = suffix_stream(&suffix, false, None);

    assert!(is_incomplete(&delimiter_suffix(&mut input)));
    assert_eq!(input.state.progress.unwrap().delim, Delimiter::Open);
    assert_eq!(input.state.progress.unwrap().padding_len, 2);

    let state = input.state;
    suffix.extend_from_slice(b"  ");
    let mut input = suffix_stream(&suffix, false, Some(state));
    assert!(is_incomplete(&delimiter_suffix(&mut input)));
    assert_eq!(input.state.progress.unwrap().padding_len, 4);

    let state = input.state;
    suffix.extend_from_slice(b"\r\n");
    let mut input = suffix_stream(&suffix, false, Some(state));
    assert!(delimiter_suffix(&mut input).is_ok());
}

#[test]
fn test_marker_search_resumes_with_boundary_overlap() {
    let marker = b"\r\n--X-BOUNDARY";
    let mut data = vec![b'x'; 1024];
    let mut input = Stream::new(data.as_slice(), true, state(b"X-BOUNDARY"));

    let error = find_valid_marker(&mut input).unwrap_err();
    assert!(error.is_incomplete());
    assert_eq!(input.state.search_off, data.len() - (marker.len() - 1));

    let state = input.state;
    data.extend_from_slice(marker);
    data.extend_from_slice(b"\r\n");
    let mut input = Stream::new(data.as_slice(), true, state);

    assert_eq!(find_valid_marker(&mut input), Ok(1024));
    assert_eq!(input.state.search_off, 0);
}

#[test]
fn test_preamble_preserves_later_delimiter_progress() {
    let mut data = b"--B invalid\r\npreamble\r\n--B \t".to_vec();
    let mut stream = Stream::new(data.as_slice(), true, state(b"B"));

    assert!(is_incomplete(&skip_preamble(&mut stream)));
    let progress = stream.state.progress.unwrap();
    assert!(progress.marker_off > 0);
    assert_eq!(progress.padding_len, 2);

    let state = stream.state;
    data.extend_from_slice(b"  ");
    let mut stream = Stream::new(data.as_slice(), true, state);

    assert!(is_incomplete(&skip_preamble(&mut stream)));
    let progress = stream.state.progress.unwrap();
    assert_eq!(progress.padding_len, 4);

    let state = stream.state;
    data.extend_from_slice(b"\r\n");
    let mut stream = Stream::new(data.as_slice(), true, state);

    assert!(skip_preamble(&mut stream).is_ok());
}

#[derive(Debug)]
struct TestCase<'a> {
    input: &'a [u8],
    expected_name: Option<&'a [u8]>,
    expected_filename: Option<&'a [u8]>,
    expected_content_type: Option<&'a [u8]>,
    expect_error: bool,
}

impl<'a> TestCase<'a> {
    /// Create a new test case with the given input.
    fn new(input: &'a [u8]) -> Self {
        Self {
            input,
            expected_name: None,
            expected_filename: None,
            expected_content_type: None,
            expect_error: false,
        }
    }

    /// Set the expected `name` value.
    fn expected_name(mut self, name: &'a [u8]) -> Self {
        self.expected_name = Some(name);
        self
    }

    /// Set the expected `filename` value.
    fn expected_filename(mut self, filename: &'a [u8]) -> Self {
        self.expected_filename = Some(filename);
        self
    }

    /// Set the expected `content_type` value.
    fn expected_content_type(mut self, content_type: &'a [u8]) -> Self {
        self.expected_content_type = Some(content_type);
        self
    }

    /// Mark this test case as expecting a parse error.
    fn expect_error(mut self) -> Self {
        self.expect_error = true;
        self
    }

    /// Run the test case.
    fn run(self) {
        let mut stream = Stream::new(self.input, false, State::for_metadata());
        let result = entry_info(&mut stream);

        match self.expect_error {
            true => assert!(result.is_err()),
            false => {
                let info = result.expect("Parsing should succeed");
                assert_eq!(info.name, self.expected_name.expect("Name is set"));
                assert_eq!(info.filename, self.expected_filename);
                assert_eq!(info.content_type, self.expected_content_type);
            }
        }
    }
}

#[test]
fn test_valid_headers_with_filename() {
    TestCase::new(b"Content-Disposition: form-data; name=foo; filename=dummy.txt\r\nContent-Type: text/plain\r\n\r\n")
    .expected_name(b"foo")
    .expected_filename(b"dummy.txt")
    .expected_content_type(b"text/plain")
    .run();
}

#[test]
fn test_valid_headers_without_filename() {
    TestCase::new(b"Content-Disposition: form-data; name=foo\r\n\r\n")
        .expected_name(b"foo")
        .run();
}

#[test]
fn test_extra_whitespace_and_case_insensitivity() {
    TestCase::new(b"  CoNtEnT-DiSpOsItIoN:   form-data  ;   name  =   foo  ; filename  =   dummy.txt  \r\n content-type:  text/plain \r\n  \r\n")
    .expected_name(b"foo")
    .expected_filename(b"dummy.txt")
    .expected_content_type(b"text/plain")
    .run();
}

#[test]
fn test_multiple_headers_last_one_wins() {
    TestCase::new(b"Content-Disposition: form-data; name=first\r\nContent-Disposition: form-data; name=second; filename=second.txt\r\nContent-Type: text/plain\r\n\r\n")
    .expected_name(b"second")
    .expected_filename(b"second.txt")
    .expected_content_type(b"text/plain")
    .run();
}

#[test]
fn test_ignore_unknown_headers_among_known_headers() {
    TestCase::new(b"Content-Disposition: form-data; name=foo\r\nX-Custom: ignoreme\r\nContent-Type: text/plain\r\n\r\n")
    .expected_name(b"foo")
    .expected_content_type(b"text/plain")
    .run();
}

#[test]
fn test_ignore_multiple_unknown_headers() {
    TestCase::new(b"X-Ignored: value1\r\nContent-Disposition: form-data; name=foo; filename=dummy.txt\r\nX-Extra: value2\r\nContent-Type: text/plain\r\nX-Another: value3\r\n\r\n")
    .expected_name(b"foo")
    .expected_filename(b"dummy.txt")
    .expected_content_type(b"text/plain")
    .run();
}

#[test]
fn test_only_unknown_headers_results_in_error() {
    TestCase::new(b"X-Unknown: foo\r\nAnother-Header: bar\r\n")
        .expect_error()
        .run();
}

#[test]
fn test_missing_content_disposition() {
    TestCase::new(b"Content-Type: text/plain\r\n\r\n")
        .expect_error()
        .run();
}

#[test]
fn test_missing_name_in_content_disposition() {
    TestCase::new(b"Content-Disposition: form-data; filename=dummy.txt\r\n\r\n")
        .expect_error()
        .run();
}

#[test]
fn test_invalid_header_token() {
    TestCase::new(
        b"Content-Disposition: form-data; name=foo\r\n\
          invalid-header-name() : value\r\n\r\n",
    )
    .expect_error()
    .run();

    TestCase::new(
        b"Content-Disposition: form-data; name=foo\r\n\
          invalid\x7fheader: value\r\n\r\n",
    )
    .expect_error()
    .run();
}

#[test]
fn close_delimiter_ignores_the_cached_search() {
    let mut cached = state(b"B");
    cached.search_off = 3;
    cached.progress = Some(Progress::new(1, 5));
    let data = b"--B--  \r\nepilogue";
    for partial in [false, true] {
        let mut stream = Stream::new(data.as_slice(), partial, cached);
        assert_eq!(next_entry(&mut stream), Ok(None));
        assert_eq!(stream.pos, 9);
        assert_eq!(stream.partial, partial);
        assert_eq!(stream.state, cached);
    }
}

#[test]
fn marker_is_zero_after_the_boundary() {
    let st = state(b"B");
    assert_eq!(st.marker_len, 5);
    assert_eq!(&st.marker[..5], b"\r\n--B");
    assert!(st.marker[5..].iter().all(|&b| b == 0));
}

#[test]
fn metadata_state_is_the_state_of_an_underscore_boundary() {
    assert_eq!(State::for_metadata(), state(b"_"));
    assert_eq!(State::for_metadata().line_marker(), b"\r\n--_");
}
