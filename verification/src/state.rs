//! Resumable state carried between partial-input retries.
use vstd::prelude::*;

use crate::error::Error;

verus! {

/// The longest boundary that RFC 2046 allows.
pub const MAX_BOUNDARY_LEN: usize = 70;

/// `\r\n--`
pub open spec fn spec_crlf_dashes() -> Seq<u8> {
    seq![13u8, 10u8, 45u8, 45u8]
}

/// An RFC 2046 `bchars` byte.
pub open spec fn spec_is_boundary_byte(b: u8) -> bool {
    ||| 48 <= b <= 57
    ||| 65 <= b <= 90
    ||| 97 <= b <= 122
    ||| b == 39 || b == 40 || b == 41 || b == 43 || b == 95 || b == 44 || b == 45
    ||| b == 46 || b == 47 || b == 58 || b == 61 || b == 63 || b == 32
}

/// RFC 2046: `boundary := 0*69<bchars> bcharsnospace`.
pub open spec fn spec_valid_boundary(v: Seq<u8>) -> bool {
    &&& 1 <= v.len() <= MAX_BOUNDARY_LEN
    &&& forall|i: int| 0 <= i < v.len() ==> spec_is_boundary_byte(#[trigger] v[i])
    &&& v.last() != 32
}

/// Whether `byte` is an RFC 2046 `bchars` byte.
pub fn is_boundary_byte(byte: u8) -> (r: bool)
    ensures
        r == spec_is_boundary_byte(byte),
{
    (48 <= byte && byte <= 57) || (65 <= byte && byte <= 90) || (97 <= byte && byte <= 122)
        || byte == 39 || byte == 40 || byte == 41 || byte == 43 || byte == 95 || byte == 44
        || byte == 45 || byte == 46 || byte == 47 || byte == 58 || byte == 61 || byte == 63
        || byte == 32
}

/// A boundary that satisfies the RFC 2046 boundary grammar.
#[derive(Debug, Copy, Clone, Eq, PartialEq)]
pub struct Boundary<'a>(&'a [u8]);

impl<'a> Boundary<'a> {
    /// The boundary's bytes.
    pub closed spec fn bytes(self) -> Seq<u8> {
        self.0@
    }

    /// Every boundary value satisfies the grammar.
    pub closed spec fn wf(self) -> bool {
        spec_valid_boundary(self.0@)
    }

    /// Validates and wraps a boundary value.
    pub fn new(value: &'a [u8]) -> (r: Result<Self, Error>)
        ensures
            r is Ok <==> spec_valid_boundary(value@),
            r matches Ok(b) ==> b.bytes() == value@ && b.wf(),
            r matches Err(e) ==> e == Error::InvalidBoundary,
    {
        if value.len() == 0 || value.len() > MAX_BOUNDARY_LEN || value[value.len() - 1] == 32 {
            return Err(Error::InvalidBoundary);
        }
        let mut i: usize = 0;
        while i < value.len()
            invariant
                i <= value@.len(),
                forall|j: int| 0 <= j < i ==> spec_is_boundary_byte(#[trigger] value@[j]),
            decreases value@.len() - i,
        {
            if !is_boundary_byte(value[i]) {
                return Err(Error::InvalidBoundary);
            }
            i = i + 1;
        }
        Ok(Boundary(value))
    }

    /// The boundary's bytes.
    pub fn as_bytes(self) -> (r: &'a [u8])
        ensures
            r@ == self.bytes(),
    {
        self.0
    }
}

/// The kind of boundary delimiter currently being validated.
#[derive(Debug, Copy, Clone, Eq, PartialEq, Structural)]
pub enum Delimiter {
    /// Not enough of the suffix has been parsed to identify the delimiter.
    Unknown,
    /// A delimiter introducing another multipart entry.
    Open,
    /// The delimiter terminating the multipart body.
    Close,
}

/// Bytes between the marker and its transport padding: `--` for a close
/// delimiter, nothing otherwise.
pub open spec fn spec_prefix_len(d: Delimiter) -> usize {
    match d {
        Delimiter::Close => 2,
        _ => 0,
    }
}

/// Cached progress while validating a possible boundary delimiter.
#[derive(Debug, Copy, Clone, Eq, PartialEq)]
pub struct Progress {
    /// Offset of the candidate marker in the retained input.
    pub marker_off: usize,
    /// Length of the initial or line marker that was matched.
    pub marker_len: usize,
    /// Transport-padding bytes already checked after the marker.
    pub padding_len: usize,
    /// Resolved delimiter kind.
    pub delim: Delimiter,
}

impl Progress {
    pub fn new(marker_off: usize, marker_len: usize) -> (r: Self)
        ensures
            r.marker_off == marker_off,
            r.marker_len == marker_len,
            r.padding_len == 0,
            r.delim == Delimiter::Unknown,
    {
        Progress { marker_off, marker_len, padding_len: 0, delim: Delimiter::Unknown }
    }

    /// The offsets of this progress can be added without overflow.
    pub open spec fn wf(self) -> bool {
        &&& self.marker_off < usize::MAX
        &&& self.marker_off + self.marker_len + spec_prefix_len(self.delim) + self.padding_len
            <= usize::MAX
        &&& (self.delim == Delimiter::Unknown ==> self.padding_len == 0)
    }
}

/// Persistent parser data retained between partial-input retries.
#[derive(Debug, Copy, Clone, Eq, PartialEq)]
pub struct State {
    /// Boundary prefixed with `\r\n--` for delimiter matching.
    pub marker: [u8; 74],
    /// Used length of `marker`.
    pub marker_len: u8,
    /// Offset where the next boundary search should resume.
    pub search_off: usize,
    /// Validation progress for a boundary candidate split across input chunks.
    pub progress: Option<Progress>,
}

impl State {
    /// The marker holds `\r\n--` and a non-empty boundary, and any cached
    /// progress has offsets that fit in a `usize`.
    pub open spec fn wf(&self) -> bool {
        &&& 5 <= self.marker_len <= 74
        &&& self.marker@.subrange(0, 4) == spec_crlf_dashes()
        &&& (self.progress matches Some(pr) ==> pr.wf())
    }

    /// No boundary search is in progress.
    pub open spec fn fresh(&self) -> bool {
        self.search_off == 0 && self.progress is None
    }

    /// `\r\n--boundary`
    pub open spec fn line_marker_seq(&self) -> Seq<u8> {
        self.marker@.subrange(0, self.marker_len as int)
    }

    /// `--boundary`
    pub open spec fn initial_marker_seq(&self) -> Seq<u8> {
        self.marker@.subrange(2, self.marker_len as int)
    }

    /// `boundary`
    pub open spec fn value_seq(&self) -> Seq<u8> {
        self.marker@.subrange(4, self.marker_len as int)
    }

    /// Builds parser state from a previously validated boundary.
    pub fn new(boundary: Boundary<'_>) -> (r: Self)
        requires
            boundary.wf(),
        ensures
            r.wf(),
            r.fresh(),
            r.value_seq() == boundary.bytes(),
            r.marker_len == boundary.bytes().len() + 4,
            forall|j: int| r.marker_len <= j < 74 ==> #[trigger] r.marker@[j] == 0u8,
            spec_valid_boundary(r.value_seq()),
    {
        let value = boundary.as_bytes();
        proof {
            reveal_boundary(boundary);
        }
        let mut marker = [0u8; 74];
        marker[0] = 13;
        marker[1] = 10;
        marker[2] = 45;
        marker[3] = 45;
        let mut i: usize = 0;
        while i < value.len()
            invariant
                value@ == boundary.bytes(),
                1 <= value@.len() <= 70,
                i <= value@.len(),
                marker@.len() == 74,
                marker@.subrange(0, 4) == spec_crlf_dashes(),
                forall|j: int| 0 <= j < i ==> marker@[4 + j] == value@[j],
                forall|j: int| 4 + i <= j < 74 ==> #[trigger] marker@[j] == 0u8,
            decreases value@.len() - i,
        {
            marker[4 + i] = value[i];
            i = i + 1;
            assert(marker@.subrange(0, 4) =~= spec_crlf_dashes());
        }
        let r = State { marker, marker_len: (value.len() + 4) as u8, search_off: 0, progress: None };
        assert(r.value_seq() =~= value@);
        r
    }

    pub fn value(&self) -> (r: &[u8])
        requires
            self.wf(),
        ensures
            r@ == self.value_seq(),
    {
        &self.marker[4..self.marker_len as usize]
    }

    pub fn initial_marker(&self) -> (r: &[u8])
        requires
            self.wf(),
        ensures
            r@ == self.initial_marker_seq(),
    {
        &self.marker[2..self.marker_len as usize]
    }

    pub fn line_marker(&self) -> (r: &[u8])
        requires
            self.wf(),
        ensures
            r@ == self.line_marker_seq(),
    {
        &self.marker[0..self.marker_len as usize]
    }

    /// Builds state for parsers that do not inspect the multipart boundary.
    pub fn for_metadata() -> (r: Self)
        ensures
            r.wf(),
            r.fresh(),
            r.value_seq() == seq![95u8],
            r.marker_len == 5,
            r.line_marker_seq() == seq![13u8, 10u8, 45u8, 45u8, 95u8],
            forall|j: int| 5 <= j < 74 ==> #[trigger] r.marker@[j] == 0u8,
    {
        let underscore: &'static [u8; 1] = &[95u8];
        let b = Boundary(underscore.as_slice());
        proof {
            assert(b.0@ =~= seq![95u8]);
        }
        State::new(b)
    }
}

/// What a well-formed boundary holds.
pub proof fn reveal_boundary(b: Boundary)
    ensures
        b.wf() == spec_valid_boundary(b.bytes()),
{
}


/// The markers of a well-formed state.
pub proof fn lemma_markers(st: State)
    requires
        st.wf(),
    ensures
        st.line_marker_seq().len() == st.marker_len,
        st.line_marker_seq().len() >= 5,
        st.line_marker_seq()[0] == 13u8,
        st.line_marker_seq()[1] == 10u8,
        st.line_marker_seq()[2] == 45u8,
        st.line_marker_seq()[3] == 45u8,
        st.line_marker_seq().subrange(2, st.marker_len as int) == st.initial_marker_seq(),
        st.line_marker_seq().subrange(4, st.marker_len as int) == st.value_seq(),
{
    assert(st.marker@.subrange(0, 4)[0] == st.marker@[0]);
    assert(st.marker@.subrange(0, 4)[1] == st.marker@[1]);
    assert(st.marker@.subrange(0, 4)[2] == st.marker@[2]);
    assert(st.marker@.subrange(0, 4)[3] == st.marker@[3]);
    assert(st.line_marker_seq().subrange(2, st.marker_len as int) =~= st.initial_marker_seq());
    assert(st.line_marker_seq().subrange(4, st.marker_len as int) =~= st.value_seq());
}

} // verus!
