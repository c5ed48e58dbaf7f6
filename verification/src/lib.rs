//! A zero-copy, resumable parser for `multipart/form-data` bodies.
use vstd::prelude::*;

pub mod bounds;
pub mod cache;
pub mod capi;
pub mod charsets;
pub mod error;
pub mod grammar;
pub mod laws;
pub mod parser;
pub mod primitives;
pub mod rules;
pub mod stability;
pub mod state;
pub mod trivia;
pub mod truncation;

pub use error::Error;

use crate::cache::{entry_cache_ok, lemma_entry_cache_extend, lemma_pre_cache_extend, pre_cache_ok};
use crate::error::{Failure, spec_error_of};
use crate::grammar::{EntrySpans, InfoSpans, Span, spec_boundary_param, spec_next_entry, spec_skip_preamble};
use crate::rules::boundary_param;
use crate::parser::{Stream, next_entry, no_close, skip_preamble};
use crate::stability::is_prefix;
use crate::state::{Boundary, State, spec_crlf_dashes, spec_valid_boundary};

verus! {

/// The bytes of `s` that `sp` covers.
pub open spec fn span_view(s: Seq<u8>, sp: Span) -> Seq<u8> {
    s.subrange(sp.start as int, sp.end as int)
}

/// The bytes of an optional slice.
pub open spec fn opt_view(o: Option<&[u8]>) -> Option<Seq<u8>> {
    match o {
        Some(v) => Some(v@),
        None => None,
    }
}

/// The bytes of `s` that an optional span covers.
pub open spec fn opt_span_view(s: Seq<u8>, sp: Option<Span>) -> Option<Seq<u8>> {
    match sp {
        Some(x) => Some(span_view(s, x)),
        None => None,
    }
}

/// Holds metadata for a single multipart form data entry.
#[derive(Debug, Copy, Clone, Eq, PartialEq)]
pub struct EntryInfo<'a> {
    /// The `name` attribute from `Content-Disposition`.
    pub name: &'a [u8],
    /// The optional `filename` attribute from `Content-Disposition`.
    pub filename: Option<&'a [u8]>,
    /// The optional `Content-Type`.
    pub content_type: Option<&'a [u8]>,
}

impl<'a> EntryInfo<'a> {
    /// This metadata holds the bytes of `s` that `sp` locates.
    pub open spec fn matches(&self, s: Seq<u8>, sp: InfoSpans) -> bool {
        &&& self.name@ == span_view(s, sp.name)
        &&& opt_view(self.filename) == opt_span_view(s, sp.filename)
        &&& opt_view(self.content_type) == opt_span_view(s, sp.content_type)
    }
}

/// Represents a single multipart form data entry, including its metadata and value.
#[derive(Debug, Copy, Clone, Eq, PartialEq)]
pub struct Entry<'a> {
    /// Metadata describing this form data entry.
    info: EntryInfo<'a>,
    /// The raw bytes of the entry's content.
    value: &'a [u8],
}

impl<'a> Entry<'a> {
    /// The `name` bytes.
    pub closed spec fn name_view(&self) -> Seq<u8> {
        self.info.name@
    }

    /// The `filename` bytes, if any.
    pub closed spec fn filename_view(&self) -> Option<Seq<u8>> {
        opt_view(self.info.filename)
    }

    /// The `Content-Type` bytes, if any.
    pub closed spec fn content_type_view(&self) -> Option<Seq<u8>> {
        opt_view(self.info.content_type)
    }

    /// The value bytes.
    pub closed spec fn value_view(&self) -> Seq<u8> {
        self.value@
    }

    /// This entry holds the bytes of `s` that `sp` locates.
    pub open spec fn matches(&self, s: Seq<u8>, sp: EntrySpans) -> bool {
        &&& self.name_view() == span_view(s, sp.info.name)
        &&& self.filename_view() == opt_span_view(s, sp.info.filename)
        &&& self.content_type_view() == opt_span_view(s, sp.info.content_type)
        &&& self.value_view() == span_view(s, sp.value)
    }

    /// An entry made of `info` and `value`.
    pub(crate) fn from_parts(info: EntryInfo<'a>, value: &'a [u8]) -> (r: Self)
        ensures
            r.name_view() == info.name@,
            r.filename_view() == opt_view(info.filename),
            r.content_type_view() == opt_view(info.content_type),
            r.value_view() == value@,
    {
        Entry { info, value }
    }

    /// Returns the `name` attribute from the `Content-Disposition` header.
    pub fn name(&self) -> (r: &'a [u8])
        ensures
            r@ == self.name_view(),
    {
        self.info.name
    }

    /// Returns the optional `filename` attribute from the `Content-Disposition` header.
    pub fn filename(&self) -> (r: Option<&'a [u8]>)
        ensures
            opt_view(r) == self.filename_view(),
    {
        self.info.filename
    }

    /// Returns the optional `Content-Type` header value.
    pub fn content_type(&self) -> (r: Option<&'a [u8]>)
        ensures
            opt_view(r) == self.content_type_view(),
    {
        self.info.content_type
    }

    /// Returns the raw bytes of the entry's content.
    pub fn value(&self) -> (r: &'a [u8])
        ensures
            r@ == self.value_view(),
    {
        self.value
    }
}

/// Where the parser stands between calls.
#[derive(Debug, Copy, Clone, PartialEq, Eq, Structural)]
pub enum Phase {
    /// Reading the preamble, which appears before the first boundary and is ignored.
    Preamble,
    /// Reading the form entries.
    Body,
    /// Parsing has completed or failed.
    Done,
}

/// The parser's phase and where its unconsumed input starts.
pub struct ParserView {
    pub phase: Phase,
    pub cursor: usize,
}

/// What one parse step yields, located in the input.
pub enum Step {
    /// An entry at `spans`; the input is consumed up to `consumed`.
    Entry { spans: EntrySpans, consumed: usize },
    /// The closing delimiter; the input is consumed up to `consumed`.
    Done { consumed: usize },
    /// More bytes are required.
    NeedMore,
    /// The body is malformed.
    Fail(Error),
}

/// `\r\n--boundary`, the marker that starts every delimiter after the first line.
pub open spec fn line_marker_of(boundary: Seq<u8>) -> Seq<u8> {
    spec_crlf_dashes() + boundary
}

/// A failed rule: a partial input that ends too early needs more bytes and
/// leaves the parser where it was; any other failure ends parsing.
pub open spec fn spec_after_error(e: Failure, partial: bool, v: ParserView) -> (Step, ParserView) {
    if e is Incomplete && partial {
        (Step::NeedMore, v)
    } else {
        (Step::Fail(spec_error_of(e)), ParserView { phase: Phase::Done, cursor: v.cursor })
    }
}

/// One entry, or the closing delimiter, from position `p`.
pub open spec fn spec_entry_step(s: Seq<u8>, p: usize, m: Seq<u8>, partial: bool) -> (Step, ParserView) {
    match spec_next_entry(s, p, m, partial) {
        Ok((q, Some(sp))) => (Step::Entry { spans: sp, consumed: q }, ParserView { phase: Phase::Body, cursor: 0 }),
        Ok((q, None)) => (Step::Done { consumed: q }, ParserView { phase: Phase::Done, cursor: 0 }),
        Err(e) => spec_after_error(e, partial, ParserView { phase: Phase::Body, cursor: p }),
    }
}

/// One call of the parser at `v` on the input `s` with line marker `m`:
/// what it yields and where the parser stands afterwards.
pub open spec fn spec_parse_next(v: ParserView, s: Seq<u8>, m: Seq<u8>, partial: bool) -> (Step, ParserView) {
    if v.phase == Phase::Done {
        (Step::Done { consumed: 0 }, v)
    } else if v.cursor > s.len() {
        (Step::Fail(Error::MalformedBody), ParserView { phase: Phase::Done, cursor: v.cursor })
    } else if v.phase == Phase::Preamble {
        match spec_skip_preamble(s, v.cursor, m, partial) {
            Err(e) => spec_after_error(e, partial, v),
            Ok(p) => spec_entry_step(s, p, m, partial),
        }
    } else {
        spec_entry_step(s, v.cursor, m, partial)
    }
}

/// The result of one call of [`MultipartParser::parse_next`].
#[derive(Debug, Copy, Clone, Eq, PartialEq)]
pub enum Outcome<'a> {
    /// A complete entry was parsed.
    ///
    /// The caller may discard the first `consumed` bytes before the next call.
    Entry {
        /// The parsed entry, borrowing from the supplied input.
        entry: Entry<'a>,
        /// The number of input bytes consumed through this entry.
        consumed: usize,
    },
    /// The closing boundary was parsed.
    Done {
        /// The number of bytes consumed through the closing boundary line.
        consumed: usize,
    },
    /// More bytes are required.
    ///
    /// The caller must retain the current input, append more bytes, and retry
    /// with the full retained slice.
    NeedMore,
}

/// A call's result is the step `st` on the input `s`.
pub open spec fn outcome_matches(r: Result<Outcome, Error>, st: Step, s: Seq<u8>) -> bool {
    match (r, st) {
        (Ok(Outcome::Entry { entry, consumed }), Step::Entry { spans, consumed: c }) => entry.matches(s, spans)
            && consumed == c,
        (Ok(Outcome::Done { consumed }), Step::Done { consumed: c }) => consumed == c,
        (Ok(Outcome::NeedMore), Step::NeedMore) => true,
        (Err(e), Step::Fail(f)) => e == f,
        _ => false,
    }
}

/// A caller-buffered, resumable `multipart/form-data` parser.
///
/// This parser retains only parsing state and the boundary. The caller owns the
/// input buffer. After [`Outcome::NeedMore`], append data and retry with the
/// entire unconsumed slice. After [`Outcome::Entry`], discard the reported
/// `consumed` prefix before parsing the next entry.
#[derive(Debug)]
pub struct MultipartParser {
    phase: Phase,
    state: State,
    cursor: usize,
}

impl View for MultipartParser {
    type V = ParserView;

    closed spec fn view(&self) -> ParserView {
        ParserView { phase: self.phase, cursor: self.cursor }
    }
}

impl MultipartParser {
    /// The boundary the parser was made with.
    pub closed spec fn boundary(&self) -> Seq<u8> {
        self.state.value_seq()
    }

    /// The parser's state is consistent; every parser keeps it.
    #[verifier::type_invariant]
    pub closed spec fn wf(&self) -> bool {
        &&& self.state.wf()
        &&& spec_valid_boundary(self.state.value_seq())
        &&& no_close(self.state)
    }

    /// What the parser caches of earlier calls holds of the input `x`: a call
    /// on `x` then gives exactly what [`spec_parse_next`] gives.
    pub closed spec fn resumable_with(&self, x: Seq<u8>) -> bool {
        match self.phase {
            Phase::Done => true,
            Phase::Preamble => pre_cache_ok(self.state, x, self.cursor, self.state.line_marker_seq()),
            Phase::Body => entry_cache_ok(self.state, x, self.cursor, self.state.line_marker_seq()),
        }
    }

    /// A consistent parser's boundary is valid.
    pub proof fn lemma_boundary_valid(&self)
        requires
            self.wf(),
        ensures
            spec_valid_boundary(self.boundary()),
    {
    }

    proof fn lemma_marker(&self)
        requires
            self.wf(),
        ensures
            self.state.line_marker_seq() == line_marker_of(self.boundary()),
            line_marker_of(self.boundary()).len() >= 5,
    {
        let st = self.state;
        assert(st.line_marker_seq() =~= st.marker@.subrange(0, 4) + st.value_seq());
    }

    /// Creates a multipart parser.
    ///
    /// Returns [`Error::InvalidBoundary`] when `boundary` does not satisfy the
    /// RFC 2046 boundary grammar.
    pub fn new(boundary: &[u8]) -> (r: Result<Self, Error>)
        ensures
            r is Ok <==> spec_valid_boundary(boundary@),
            r matches Err(e) ==> e == Error::InvalidBoundary,
            r matches Ok(p) ==> {
                &&& p.wf()
                &&& p.boundary() == boundary@
                &&& p@ == ParserView { phase: Phase::Preamble, cursor: 0 }
                &&& forall|x: Seq<u8>| p.resumable_with(x)
            },
    {
        let boundary = match Boundary::new(boundary) {
            Ok(b) => b,
            Err(e) => return Err(e),
        };
        let p = MultipartParser { phase: Phase::Preamble, state: State::new(boundary), cursor: 0 };
        proof {
            assert forall|x: Seq<u8>| p.resumable_with(x) by {}
        }
        Ok(p)
    }

    /// Attempts to parse one entry from the caller-owned input.
    ///
    /// An otherwise valid prefix returns [`Outcome::NeedMore`]. Bytes
    /// already supplied must remain unchanged when retrying with additional
    /// data. If the transport reaches EOF while this method still returns
    /// [`Outcome::NeedMore`], the multipart body is truncated.
    ///
    /// Returns a multipart syntax error. The parser is exhausted after an
    /// error.
    pub fn parse_next<'a>(&mut self, input: &'a [u8]) -> (r: Result<Outcome<'a>, Error>)
        ensures
            final(self).boundary() == old(self).boundary(),
            old(self).resumable_with(input@) ==> {
                let (st, v) = spec_parse_next(old(self)@, input@, line_marker_of(old(self).boundary()), true);
                &&& outcome_matches(r, st, input@)
                &&& final(self)@ == v
                &&& (r matches Ok(Outcome::NeedMore) ==> forall|x: Seq<u8>|
                    is_prefix(input@, x) && x.len() <= usize::MAX ==> #[trigger] final(self).resumable_with(x))
            },
            r matches Ok(Outcome::Entry { consumed, .. }) ==> consumed <= input.len(),
            r matches Ok(Outcome::Done { consumed }) ==> consumed <= input.len(),
            (r is Err || r matches Ok(Outcome::Done { .. })) ==> final(self)@.phase == Phase::Done,
            !(r matches Ok(Outcome::NeedMore)) ==> forall|x: Seq<u8>| #[trigger] final(self).resumable_with(x),
            old(self)@.phase == Phase::Done ==> (r matches Ok(Outcome::Done { consumed }) && consumed == 0
                && final(self)@ == old(self)@),
    {
        self.parse_next_impl(input, false)
    }

    /// One parse step; `complete` treats the end of `input` as the end of
    /// the body, so that it never asks for more bytes.
    pub fn parse_next_impl<'a>(&mut self, input: &'a [u8], complete: bool) -> (r: Result<Outcome<'a>, Error>)
        ensures
            final(self).boundary() == old(self).boundary(),
            old(self).resumable_with(input@) ==> {
                let (st, v) = spec_parse_next(old(self)@, input@, line_marker_of(old(self).boundary()), !complete);
                &&& outcome_matches(r, st, input@)
                &&& final(self)@ == v
                &&& (r matches Ok(Outcome::NeedMore) ==> forall|x: Seq<u8>|
                    is_prefix(input@, x) && x.len() <= usize::MAX ==> #[trigger] final(self).resumable_with(x))
            },
            r matches Ok(Outcome::Entry { consumed, .. }) ==> consumed <= input.len(),
            r matches Ok(Outcome::Done { consumed }) ==> consumed <= input.len(),
            r matches Ok(Outcome::NeedMore) ==> !complete,
            (r is Err || r matches Ok(Outcome::Done { .. })) ==> final(self)@.phase == Phase::Done,
            !(r matches Ok(Outcome::NeedMore)) ==> forall|x: Seq<u8>| #[trigger] final(self).resumable_with(x),
            old(self)@.phase == Phase::Done ==> (r matches Ok(Outcome::Done { consumed }) && consumed == 0
                && final(self)@ == old(self)@),
    {
        proof {
            use_type_invariant(&*self);
        }
        if self.phase == Phase::Done {
            return Ok(Outcome::Done { consumed: 0 });
        }
        if self.cursor > input.len() {
            self.phase = Phase::Done;
            return Err(Error::MalformedBody);
        }
        let ghost s = input@;
        let ghost m = self.state.line_marker_seq();
        let ghost old_self = *self;
        let ghost resumable = self.resumable_with(s);
        proof {
            self.lemma_marker();
            crate::bounds::lemma_slice_fits(input);
        }
        let mut stream = Stream::new(input, !complete, self.state);
        stream.pos = self.cursor;
        if self.phase == Phase::Preamble {
            match skip_preamble(&mut stream) {
                Ok(()) => {},
                Err(e) => {
                    self.state = stream.state;
                    let r = self.handle_error(e, complete);
                    proof {
                        if resumable && (r matches Ok(Outcome::NeedMore)) {
                            assert forall|x: Seq<u8>| is_prefix(s, x) && x.len() <= usize::MAX implies #[trigger] self.resumable_with(x) by {
                                lemma_pre_cache_extend(self.state, s, x, self.cursor, m);
                            }
                        }
                    }
                    return r;
                },
            }
            self.phase = Phase::Body;
            self.cursor = stream.pos;
        }
        proof {
            if resumable && old_self.phase == Phase::Preamble {
                assert(stream.state.fresh());
            }
        }
        self.state = stream.state;
        self.finish_step(stream, complete)
    }

    /// Parses the delimiter and the entry at the stream position, the
    /// parser's cursor, and records where the parser stands.
    fn finish_step<'a>(&mut self, stream: Stream<'a>, complete: bool) -> (r: Result<Outcome<'a>, Error>)
        requires
            old(self).wf(),
            old(self).phase == Phase::Body,
            old(self).cursor == stream.pos,
            old(self).state == stream.state,
            stream.wf(),
            stream.partial == !complete,
        ensures
            final(self).wf(),
            final(self).boundary() == old(self).boundary(),
            old(self).resumable_with(stream.input@) ==> {
                let (st, v) = spec_entry_step(stream.input@, stream.pos, line_marker_of(old(self).boundary()), !complete);
                &&& outcome_matches(r, st, stream.input@)
                &&& final(self)@ == v
                &&& (r matches Ok(Outcome::NeedMore) ==> forall|x: Seq<u8>|
                    is_prefix(stream.input@, x) && x.len() <= usize::MAX ==> #[trigger] final(self).resumable_with(x))
            },
            r matches Ok(Outcome::Entry { consumed, .. }) ==> consumed <= stream.input@.len(),
            r matches Ok(Outcome::Done { consumed }) ==> consumed <= stream.input@.len(),
            r matches Ok(Outcome::NeedMore) ==> !complete,
            (r is Err || r matches Ok(Outcome::Done { .. })) ==> final(self)@.phase == Phase::Done,
            !(r matches Ok(Outcome::NeedMore)) ==> forall|x: Seq<u8>| #[trigger] final(self).resumable_with(x),
    {
        let ghost s = stream.input@;
        let ghost m = self.state.line_marker_seq();
        let ghost resumable = self.resumable_with(s);
        proof {
            self.lemma_marker();
        }
        let mut stream = stream;
        let entry_start = self.cursor;
        match next_entry(&mut stream) {
            Ok(Some(entry)) => {
                self.state = stream.state;
                self.phase = Phase::Body;
                self.cursor = 0;
                Ok(Outcome::Entry { entry, consumed: stream.pos })
            },
            Ok(None) => {
                self.state = stream.state;
                self.phase = Phase::Done;
                self.cursor = 0;
                Ok(Outcome::Done { consumed: stream.pos })
            },
            Err(e) => {
                self.state = stream.state;
                self.cursor = entry_start;
                let r = self.handle_error(e, complete);
                proof {
                    if resumable && (r matches Ok(Outcome::NeedMore)) {
                        assert forall|x: Seq<u8>| is_prefix(s, x) && x.len() <= usize::MAX implies #[trigger] self.resumable_with(x) by {
                            lemma_entry_cache_extend(self.state, s, x, self.cursor, m);
                        }
                    }
                }
                r
            },
        }
    }

    /// Returns an iterator over a complete multipart body.
    ///
    /// Unlike [`MultipartParser::parse_next`], this uses complete-input
    /// semantics, so truncated input produces an error instead of
    /// [`Outcome::NeedMore`].
    pub fn entries<'parser, 'input>(&'parser mut self, input: &'input [u8]) -> (r: Entries<'parser, 'input>)
        ensures
            r.parser_view() == old(self)@,
            r.remaining() == input@,
            r.boundary() == old(self).boundary(),
            r.resumable() == old(self).resumable_with(input@),
    {
        Entries { parser: self, input }
    }

    /// A failure that only lacks input asks for more unless the input is
    /// complete; any other failure ends parsing.
    fn handle_error<'a>(&mut self, error: Failure, complete: bool) -> (r: Result<Outcome<'a>, Error>)
        ensures
            error is Incomplete && !complete ==> r == Ok::<Outcome<'a>, Error>(Outcome::NeedMore) && *final(self) == *old(self),
            !(error is Incomplete && !complete) ==> r == Err::<Outcome<'a>, Error>(spec_error_of(error))
                && final(self).state == old(self).state && final(self).cursor == old(self).cursor
                && final(self).phase == Phase::Done,
    {
        if error.is_incomplete() && !complete {
            Ok(Outcome::NeedMore)
        } else {
            proof {
                use_type_invariant(&*self);
            }
            self.phase = Phase::Done;
            Err(Error::from_failure(error))
        }
    }
}

/// An iterator over entries in a complete multipart body.
#[derive(Debug)]
pub struct Entries<'parser, 'input> {
    parser: &'parser mut MultipartParser,
    input: &'input [u8],
}

/// What one step of [`Entries`] yields: an entry located in the input, the
/// end of the entries, or an error.
pub open spec fn entries_item_matches(r: Option<Result<Entry, Error>>, st: Step, s: Seq<u8>) -> bool {
    match (r, st) {
        (Some(Ok(entry)), Step::Entry { spans, .. }) => entry.matches(s, spans),
        (None, Step::Done { .. }) => true,
        (Some(Err(e)), Step::Fail(f)) => e == f,
        _ => false,
    }
}

/// The input that remains after a step.
pub open spec fn remaining_after(st: Step, s: Seq<u8>) -> Seq<u8> {
    match st {
        Step::Entry { consumed, .. } => s.subrange(consumed as int, s.len() as int),
        Step::Done { consumed } => s.subrange(consumed as int, s.len() as int),
        _ => s,
    }
}

impl<'parser, 'input> Entries<'parser, 'input> {
    /// Where the underlying parser stands.
    pub closed spec fn parser_view(&self) -> ParserView {
        (*self.parser)@
    }

    /// The input not consumed yet.
    pub closed spec fn remaining(&self) -> Seq<u8> {
        self.input@
    }

    /// The boundary of the underlying parser.
    pub closed spec fn boundary(&self) -> Seq<u8> {
        self.parser.boundary()
    }

    /// The underlying parser's cache holds of the remaining input.
    pub closed spec fn resumable(&self) -> bool {
        self.parser.resumable_with(self.input@)
    }

    /// The next entry, `None` after the closing delimiter, or the error that
    /// ends the body. After `None` or an error, every later call gives `None`.
    pub fn next(&mut self) -> (r: Option<Result<Entry<'input>, Error>>)
        ensures
            final(self).boundary() == old(self).boundary(),
            final(self).resumable(),
            old(self).resumable() ==> {
                let (st, v) = spec_parse_next(
                    old(self).parser_view(),
                    old(self).remaining(),
                    line_marker_of(old(self).boundary()),
                    false,
                );
                &&& entries_item_matches(r, st, old(self).remaining())
                &&& final(self).parser_view() == v
                &&& final(self).remaining() == remaining_after(st, old(self).remaining())
            },
            (r is None || r matches Some(Err(_))) ==> final(self).parser_view().phase == Phase::Done,
            old(self).parser_view().phase == Phase::Done ==> r is None,
            final(self).remaining().len() <= old(self).remaining().len(),
            old(self).resumable() && (r matches Some(Ok(_))) ==> final(self).remaining().len() < old(
                self,
            ).remaining().len(),
    {
        proof {
            use_type_invariant(&*self.parser);
            crate::bounds::lemma_slice_fits(self.input);
            self.parser.lemma_boundary_valid();
            crate::laws::law_steps_consume_input(
                self.parser_view(),
                self.remaining(),
                self.boundary(),
                false,
            );
        }
        let input = self.input;
        match self.parser.parse_next_impl(input, true) {
            Ok(Outcome::Entry { entry, consumed }) => {
                self.input = &input[consumed..input.len()];
                Some(Ok(entry))
            },
            Ok(Outcome::Done { consumed }) => {
                self.input = &input[consumed..input.len()];
                None
            },
            Ok(Outcome::NeedMore) => {
                self.parser.phase = Phase::Done;
                Some(Err(Error::MalformedBody))
            },
            Err(error) => Some(Err(error)),
        }
    }
}

/// The boundary that a `multipart/form-data` Content-Type value names: the
/// value of its only `boundary` parameter, when that is a valid boundary.
pub open spec fn spec_boundary_from_content_type(s: Seq<u8>) -> Option<Seq<u8>> {
    match spec_boundary_param(s) {
        Some(v) => if spec_valid_boundary(span_view(s, v)) {
            Some(span_view(s, v))
        } else {
            None
        },
        None => None,
    }
}

/// Extracts a valid boundary from a `multipart/form-data` Content-Type value.
pub fn boundary_from_content_type(input: &[u8]) -> (r: Option<&[u8]>)
    ensures
        match r {
            Some(b) => spec_boundary_from_content_type(input@) == Some(b@),
            None => spec_boundary_from_content_type(input@) is None,
        },
        r matches Some(b) ==> spec_valid_boundary(b@),
{
    match boundary_param(input) {
        Some(v) => {
            let b = &input[v.start..v.end];
            match Boundary::new(b) {
                Ok(_) => Some(b),
                Err(_) => None,
            }
        },
        None => None,
    }
}

} // verus!
