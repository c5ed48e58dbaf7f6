//! The decisions behind the C ABI: which code a call returns and what input
//! remains for the next call.
use vstd::prelude::*;

use crate::{Entry, MultipartParser, Outcome, Phase, Step, line_marker_of, spec_parse_next};

verus! {

/// Result of advancing a parser through the C API.
#[derive(Debug, Copy, Clone, PartialEq, Eq, Structural)]
pub enum RetCode {
    /// An entry was written to the output pointer.
    Entry,
    /// The parser reached the closing boundary.
    Eos,
    /// The input or parser state is invalid.
    Error,
}

/// The number of each code in the C ABI.
pub open spec fn spec_code(c: RetCode) -> u8 {
    match c {
        RetCode::Entry => 0,
        RetCode::Eos => 1,
        RetCode::Error => 2,
    }
}

impl RetCode {
    /// The code's number in the C ABI.
    pub fn code(self) -> (r: u8)
        ensures
            r == spec_code(self),
    {
        match self {
            RetCode::Entry => 0,
            RetCode::Eos => 1,
            RetCode::Error => 2,
        }
    }
}

/// What one call through the C API gives for the step `st` on `s`: its code,
/// the entry written out, and the input left for the next call.
pub open spec fn parser_next_matches(r: (RetCode, Option<Entry>, &[u8]), st: Step, s: Seq<u8>) -> bool {
    match st {
        Step::Entry { spans, consumed } => r.0 == RetCode::Entry && (r.1 matches Some(e) && e.matches(s, spans))
            && r.2@ == s.subrange(consumed as int, s.len() as int),
        Step::Done { consumed } => r.0 == RetCode::Eos && r.1 is None && r.2@ == s.subrange(
            consumed as int,
            s.len() as int,
        ),
        _ => r.0 == RetCode::Error && r.1 is None && r.2@ == s,
    }
}

/// Advances `parser` over the complete body `input`: the code for the step,
/// the entry it parsed, and the input that remains.
pub fn parser_next<'a>(parser: &mut MultipartParser, input: &'a [u8]) -> (r: (RetCode, Option<Entry<'a>>, &'a [u8]))
    ensures
        final(parser).boundary() == old(parser).boundary(),
        old(parser).resumable_with(input@) ==> {
            let (st, v) = spec_parse_next(old(parser)@, input@, line_marker_of(old(parser).boundary()), false);
            &&& parser_next_matches(r, st, input@)
            &&& final(parser)@ == v
        },
        r.0 == RetCode::Error ==> final(parser)@.phase == Phase::Done,
        forall|x: Seq<u8>| #[trigger] final(parser).resumable_with(x),
{
    match parser.parse_next_impl(input, true) {
        Ok(Outcome::Entry { entry, consumed }) => (RetCode::Entry, Some(entry), &input[consumed..input.len()]),
        Ok(Outcome::Done { consumed }) => (RetCode::Eos, None, &input[consumed..input.len()]),
        Ok(Outcome::NeedMore) => (RetCode::Error, None, input),
        Err(_) => (RetCode::Error, None, input),
    }
}

} // verus!
