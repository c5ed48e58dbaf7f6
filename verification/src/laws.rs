//! What holds of the parser across calls and inputs.
use vstd::prelude::*;

use crate::bounds::{lemma_close_tail_bounds, lemma_delimiter_line_bounds, lemma_entry_info_bounds, lemma_find_valid_marker_bounds, lemma_literal_bounds, lemma_value_body_bounds};
use crate::cache::{all_invalid, lemma_invalid_stable, lemma_valid_stable};
use crate::error::Failure;
use crate::grammar::{Status, initial_of, occurs_at, spec_close_tail, spec_crlf_seq, spec_delimiter_line, spec_entry_info, spec_find, spec_find_valid_marker, spec_literal, spec_next_entry, spec_skip_preamble, spec_suffix_status, spec_value_body};
use crate::stability::{decided, extends, is_prefix, lemma_delimiter_line_stable, lemma_entry_info_stable, lemma_find_first, lemma_find_stable, lemma_literal_stable, lemma_scan_stable};
use crate::state::{spec_crlf_dashes, spec_valid_boundary};
use crate::truncation::{lemma_next_entry_truncated, lemma_skip_preamble_complete, lemma_skip_preamble_truncated, marker_shape};
use crate::trivia::{CharClass, lemma_scan, spec_scan};
use crate::capi::{RetCode, parser_next_matches};
use crate::error::Error;
use crate::state::State;
use crate::grammar::EntrySpans;
use crate::bounds::{info_in, span_in};
use crate::{opt_span_view, span_view, Entry, entries_item_matches, remaining_after, spec_boundary_from_content_type, ParserView, Phase, Step, line_marker_of, spec_entry_step, spec_parse_next};

verus! {

/// The line marker of a valid boundary starts with `\r\n` and is not empty.
proof fn lemma_marker_shape(b: Seq<u8>)
    requires
        spec_valid_boundary(b),
    ensures
        line_marker_of(b).len() >= 5,
        line_marker_of(b)[0] == 13u8,
        line_marker_of(b)[1] == 10u8,
{
    assert(line_marker_of(b)[0] == spec_crlf_dashes()[0]);
    assert(line_marker_of(b)[1] == spec_crlf_dashes()[1]);
}

/// The delimiter search decides the same on every partial extension.
proof fn lemma_find_valid_marker_stable(s: Seq<u8>, x: Seq<u8>, j: usize, m: Seq<u8>)
    requires
        extends(s, x, j),
        m.len() >= 1,
    ensures
        decided(spec_find_valid_marker(s, j, m, true)) ==> spec_find_valid_marker(x, j, m, true)
            == spec_find_valid_marker(s, j, m, true),
    decreases s.len() - j,
{
    lemma_find_stable(s, x, j, m);
    lemma_find_first(s, j, m);
    if let Some(k) = spec_find(s, j, m) {
        let a = (k + m.len()) as usize;
        match spec_suffix_status(s, a, true) {
            Status::Valid => {
                lemma_valid_stable(s, x, a, true);
            },
            Status::Invalid => {
                lemma_invalid_stable(s, x, a, true);
                if j <= k < s.len() && k < usize::MAX {
                    lemma_find_valid_marker_stable(s, x, (k + 1) as usize, m);
                }
            },
            Status::Incomplete => {},
        }
    }
}

/// Skipping the preamble decides the same on every partial extension.
proof fn lemma_skip_preamble_stable(s: Seq<u8>, x: Seq<u8>, p: usize, m: Seq<u8>)
    requires
        extends(s, x, p),
        m.len() >= 5,
    ensures
        decided(spec_skip_preamble(s, p, m, true)) ==> spec_skip_preamble(x, p, m, true) == spec_skip_preamble(
            s,
            p,
            m,
            true,
        ),
        spec_skip_preamble(s, p, m, true) matches Ok(q) ==> p <= q <= s.len(),
{
    lemma_literal_stable(s, x, p, initial_of(m), false, true);
    lemma_literal_bounds(s, p, initial_of(m), false, true);
    lemma_find_valid_marker_stable(s, x, p, m);
    lemma_find_valid_marker_bounds(s, p, m, true);
    if let Ok(q) = spec_literal(s, p, initial_of(m), false, true) {
        match spec_suffix_status(s, q, true) {
            Status::Valid => {
                lemma_valid_stable(s, x, q, true);
            },
            Status::Invalid => {
                lemma_invalid_stable(s, x, q, true);
            },
            Status::Incomplete => {},
        }
    }
}

/// A decided entry step: the same entry or error on every partial extension,
/// and the close delimiter again (its trailing line end may be seen later).
proof fn lemma_next_entry_stable(s: Seq<u8>, x: Seq<u8>, p: usize, m: Seq<u8>)
    requires
        extends(s, x, p),
        m.len() >= 5,
        m[0] == 13u8,
        m[1] == 10u8,
    ensures
        decided(spec_next_entry(s, p, m, true)) ==> match spec_next_entry(s, p, m, true) {
            Ok((q, None)) => spec_next_entry(x, p, m, true) matches Ok((q2, None)) && q <= q2 <= x.len(),
            r => spec_next_entry(x, p, m, true) == r,
        },
        spec_next_entry(s, p, m, true) matches Ok((q, _)) ==> p < q <= s.len(),
{
    lemma_delimiter_line_stable(s, x, p, m, true);
    lemma_delimiter_line_bounds(s, p, m, true);
    if let Ok((q, close)) = spec_delimiter_line(s, p, m, true) {
        if close {
            lemma_close_tail_bounds(s, q);
            lemma_close_tail_bounds(x, q);
            assert(spec_close_tail(s, q) <= spec_close_tail(x, q)) by {
                lemma_close_tail_grows(s, x, q);
            }
        } else {
            lemma_entry_info_stable(s, x, q, true);
            lemma_entry_info_bounds(s, q, true);
            if let Ok((r, info)) = spec_entry_info(s, q, true) {
                lemma_find_valid_marker_stable(s, x, r, m);
                lemma_value_body_bounds(s, r, m, true);
            }
        }
    }
}

/// Once its line end is seen, the tail after a close delimiter stays put;
/// before that it can only grow.
proof fn lemma_close_tail_grows(s: Seq<u8>, x: Seq<u8>, q: usize)
    requires
        extends(s, x, q),
    ensures
        spec_close_tail(s, q) <= spec_close_tail(x, q),
{
    let hs = CharClass::HorizontalSpace;
    lemma_scan(s, q, hs);
    lemma_scan(x, q, hs);
    let c = spec_scan(s, q, hs);
    if c < s.len() {
        lemma_scan_stable(s, x, q, hs);
        lemma_literal_stable(s, x, c, spec_crlf_seq(), false, false);
        lemma_literal_bounds(x, c, spec_crlf_seq(), false, false);
    } else {
        let cx = spec_scan(x, q, hs);
        if cx < s.len() {
            assert(s[cx as int] == x[cx as int]);
        }
        lemma_literal_bounds(x, cx, spec_crlf_seq(), false, false);
    }
}

/// A decided entry step from `p`, and where it leaves the input.
proof fn lemma_entry_step_stable(s: Seq<u8>, x: Seq<u8>, p: usize, m: Seq<u8>)
    requires
        extends(s, x, p),
        m.len() >= 5,
        m[0] == 13u8,
        m[1] == 10u8,
    ensures
        match spec_entry_step(s, p, m, true).0 {
            Step::NeedMore => true,
            Step::Done { consumed } => spec_entry_step(x, p, m, true).0 matches Step::Done { consumed: c2 }
                && consumed <= c2 && spec_entry_step(x, p, m, true).1 == spec_entry_step(s, p, m, true).1,
            _ => spec_entry_step(x, p, m, true) == spec_entry_step(s, p, m, true),
        },
{
    lemma_next_entry_stable(s, x, p, m);
}

/// Feeding more bytes never changes a decision: when a call on `s` yields an
/// entry or an error, a call on any longer input that starts with `s` yields
/// the same, and leaves the parser in the same place; when it yields the
/// closing delimiter, so does the longer input, having consumed at least as
/// much (the line end after the closing delimiter may only arrive later).
pub proof fn law_more_input_decides_alike(v: ParserView, s: Seq<u8>, x: Seq<u8>, boundary: Seq<u8>)
    requires
        spec_valid_boundary(boundary),
        is_prefix(s, x),
        x.len() <= usize::MAX,
        v.cursor <= s.len(),
    ensures
        ({
            let m = line_marker_of(boundary);
            let (st, w) = spec_parse_next(v, s, m, true);
            match st {
                Step::NeedMore => true,
                Step::Done { consumed } => spec_parse_next(v, x, m, true).0 matches Step::Done { consumed: c2 }
                    && consumed <= c2 && spec_parse_next(v, x, m, true).1 == w,
                _ => spec_parse_next(v, x, m, true) == (st, w),
            }
        }),
{
    let m = line_marker_of(boundary);
    lemma_marker_shape(boundary);
    if v.phase == Phase::Preamble {
        lemma_skip_preamble_stable(s, x, v.cursor, m);
        if let Ok(p) = spec_skip_preamble(s, v.cursor, m, true) {
            lemma_entry_step_stable(s, x, p, m);
        }
    } else if v.phase == Phase::Body {
        lemma_entry_step_stable(s, x, v.cursor, m);
    }
}

/// An otherwise valid prefix asks for more bytes: on a prefix of an input on
/// which a call does not fail, the call yields `NeedMore`, the same entry, or
/// the closing delimiter.
pub proof fn law_prefix_of_valid_input(v: ParserView, s: Seq<u8>, x: Seq<u8>, boundary: Seq<u8>)
    requires
        spec_valid_boundary(boundary),
        is_prefix(s, x),
        x.len() <= usize::MAX,
        v.cursor <= s.len(),
        !(spec_parse_next(v, x, line_marker_of(boundary), true).0 is Fail),
    ensures
        ({
            let m = line_marker_of(boundary);
            let st = spec_parse_next(v, s, m, true).0;
            ||| st is NeedMore
            ||| (st is Entry && spec_parse_next(v, s, m, true) == spec_parse_next(v, x, m, true))
            ||| (st is Done && spec_parse_next(v, x, m, true).0 is Done)
        }),
{
    law_more_input_decides_alike(v, s, x, boundary);
}

/// Asking for more bytes loses nothing: after a call on `s` yields
/// `NeedMore`, the next call on any longer input that starts with `s` gives
/// exactly what a call on that input would have given in the first place.
pub proof fn law_need_more_resumes(v: ParserView, s: Seq<u8>, x: Seq<u8>, boundary: Seq<u8>)
    requires
        spec_valid_boundary(boundary),
        is_prefix(s, x),
        x.len() <= usize::MAX,
        spec_parse_next(v, s, line_marker_of(boundary), true).0 is NeedMore,
    ensures
        spec_parse_next(spec_parse_next(v, s, line_marker_of(boundary), true).1, x, line_marker_of(boundary), true)
            == spec_parse_next(v, x, line_marker_of(boundary), true),
{
    let m = line_marker_of(boundary);
    lemma_marker_shape(boundary);
    if v.phase == Phase::Preamble {
        lemma_skip_preamble_stable(s, x, v.cursor, m);
    }
}

/// After the closing delimiter or an error, every later call, on any input
/// and in either mode, yields the end of the body having consumed nothing.
pub proof fn law_end_is_final(v: ParserView, s: Seq<u8>, boundary: Seq<u8>, partial: bool, s2: Seq<u8>, partial2: bool)
    requires
        spec_parse_next(v, s, line_marker_of(boundary), partial).0 is Done
            || spec_parse_next(v, s, line_marker_of(boundary), partial).0 is Fail,
    ensures
        ({
            let w = spec_parse_next(v, s, line_marker_of(boundary), partial).1;
            &&& w.phase == Phase::Done
            &&& spec_parse_next(w, s2, line_marker_of(boundary), partial2) == (Step::Done { consumed: 0 }, w)
        }),
{
}

/// A complete input never asks for more bytes.
pub proof fn law_complete_input_decides(v: ParserView, s: Seq<u8>, boundary: Seq<u8>)
    ensures
        !(spec_parse_next(v, s, line_marker_of(boundary), false).0 is NeedMore),
{
}

/// Every entry consumes input past the cursor, and never more than the input
/// holds; so does the closing delimiter, up to the end of the input.
pub proof fn law_steps_consume_input(v: ParserView, s: Seq<u8>, boundary: Seq<u8>, partial: bool)
    requires
        spec_valid_boundary(boundary),
        s.len() <= usize::MAX,
    ensures
        ({
            let st = spec_parse_next(v, s, line_marker_of(boundary), partial).0;
            &&& (st matches Step::Entry { consumed, .. } ==> v.cursor < consumed <= s.len())
            &&& (st matches Step::Done { consumed } ==> v.phase != Phase::Done ==> v.cursor <= consumed <= s.len())
        }),
{
    let m = line_marker_of(boundary);
    lemma_marker_shape(boundary);
    if v.phase != Phase::Done && v.cursor <= s.len() {
        let p = if v.phase == Phase::Preamble {
            lemma_skip_preamble_bounds(s, v.cursor, m, partial);
            match spec_skip_preamble(s, v.cursor, m, partial) {
                Ok(p) => p,
                Err(_) => v.cursor,
            }
        } else {
            v.cursor
        };
        lemma_next_entry_bounds(s, p, m, partial);
    }
}

proof fn lemma_skip_preamble_bounds(s: Seq<u8>, p: usize, m: Seq<u8>, partial: bool)
    requires
        p <= s.len() <= usize::MAX,
        m.len() >= 5,
    ensures
        spec_skip_preamble(s, p, m, partial) matches Ok(q) ==> p <= q <= s.len(),
{
    lemma_literal_bounds(s, p, initial_of(m), false, partial);
    lemma_find_valid_marker_bounds(s, p, m, partial);
}

proof fn lemma_next_entry_bounds(s: Seq<u8>, p: usize, m: Seq<u8>, partial: bool)
    requires
        p <= s.len() <= usize::MAX,
        m.len() >= 5,
        m[0] == 13u8,
        m[1] == 10u8,
    ensures
        spec_next_entry(s, p, m, partial) matches Ok((q, _)) ==> p < q <= s.len(),
{
    lemma_delimiter_line_bounds(s, p, m, partial);
    if let Ok((q, close)) = spec_delimiter_line(s, p, m, partial) {
        if close {
            lemma_close_tail_bounds(s, q);
        } else {
            lemma_entry_info_bounds(s, q, partial);
            if let Ok((r, info)) = spec_entry_info(s, q, partial) {
                lemma_value_body_bounds(s, r, m, partial);
            }
        }
    }
}

/// A boundary taken from a Content-Type value is always one that
/// [`crate::MultipartParser::new`] accepts.
pub proof fn law_content_type_boundary_is_valid(content_type: Seq<u8>)
    ensures
        spec_boundary_from_content_type(content_type) matches Some(b) ==> spec_valid_boundary(b),
{
}

/// The delimiter search stops at the first occurrence of the marker that
/// starts a delimiter line; every occurrence before it is no delimiter.
pub(crate) proof fn lemma_find_valid_marker_first(s: Seq<u8>, j: usize, m: Seq<u8>, partial: bool)
    requires
        s.len() <= usize::MAX,
        m.len() >= 1,
    ensures
        spec_find_valid_marker(s, j, m, partial) matches Ok(k) ==> {
            &&& j <= k
            &&& occurs_at(s, k as int, m)
            &&& spec_suffix_status(s, (k + m.len()) as usize, partial) == Status::Valid
            &&& all_invalid(s, j as int, k as int, m, partial)
        },
    decreases s.len() - j,
{
    lemma_find_first(s, j, m);
    if let Some(k) = spec_find(s, j, m) {
        if spec_suffix_status(s, (k + m.len()) as usize, partial) == Status::Invalid && j <= k < s.len() && k
            < usize::MAX {
            lemma_find_valid_marker_first(s, (k + 1) as usize, m, partial);
        }
    }
}

/// A part's value runs from where its headers end up to the first line
/// marker that starts a delimiter line, and the parser resumes just past the
/// line end before that marker: every earlier occurrence of the marker in
/// the value is no delimiter.
pub proof fn law_value_ends_at_first_delimiter(s: Seq<u8>, p: usize, boundary: Seq<u8>, partial: bool)
    requires
        spec_valid_boundary(boundary),
        s.len() <= usize::MAX,
    ensures
        ({
            let m = line_marker_of(boundary);
            spec_value_body(s, p, m, partial) matches Ok((q, v)) ==> {
                &&& v.start == p
                &&& q == v.end + 2
                &&& occurs_at(s, v.end as int, m)
                &&& spec_suffix_status(s, (v.end + m.len()) as usize, partial) == Status::Valid
                &&& forall|k: int|
                    p <= k < v.end && #[trigger] occurs_at(s, k, m) ==> spec_suffix_status(
                        s,
                        (k + m.len()) as usize,
                        partial,
                    ) == Status::Invalid
            }
        }),
{
    lemma_marker_shape(boundary);
    lemma_find_valid_marker_first(s, p, line_marker_of(boundary), partial);
}

/// The line marker of a valid boundary has the shape of a line marker.
proof fn lemma_marker_has_shape(b: Seq<u8>)
    requires
        spec_valid_boundary(b),
    ensures
        marker_shape(line_marker_of(b)),
{
    let m = line_marker_of(b);
    assert(m[0] == spec_crlf_dashes()[0]);
    assert(m[1] == spec_crlf_dashes()[1]);
    assert(m[2] == spec_crlf_dashes()[2]);
    assert(m[3] == spec_crlf_dashes()[3]);
    assert forall|i: int| 1 <= i < m.len() implies #[trigger] m[i] != 13u8 by {
        if i >= 4 {
            assert(m[i] == b[i - 4]);
        } else {
            assert(m[i] == spec_crlf_dashes()[i]);
        }
    }
}

/// `NeedMore` at the end of the transport means the body is cut short: when
/// a call asks for more bytes, the same call on the same bytes taken as the
/// whole body fails.
pub proof fn law_need_more_means_truncated(v: ParserView, s: Seq<u8>, boundary: Seq<u8>)
    requires
        spec_valid_boundary(boundary),
        s.len() <= usize::MAX,
        spec_parse_next(v, s, line_marker_of(boundary), true).0 is NeedMore,
    ensures
        spec_parse_next(v, s, line_marker_of(boundary), false).0 is Fail,
{
    let m = line_marker_of(boundary);
    lemma_marker_has_shape(boundary);
    if v.phase == Phase::Preamble {
        match spec_skip_preamble(s, v.cursor, m, true) {
            Err(e) => {
                lemma_skip_preamble_truncated(s, v.cursor, m);
            },
            Ok(p) => {
                lemma_skip_preamble_bounds(s, v.cursor, m, true);
                lemma_skip_preamble_complete(s, v.cursor, m, p);
                lemma_next_entry_truncated(s, p, m);
            },
        }
    } else {
        lemma_next_entry_truncated(s, v.cursor, m);
    }
}

/// A call through the C API and a step of [`crate::Entries`] from the same
/// parser position on the same remaining input agree: the code is `Entry`
/// exactly when the iterator yields an entry, and then the entries hold the
/// same bytes; `Eos` exactly when it yields `None`; `Error` exactly when it
/// yields an error; and both leave the same input for the next call.
pub proof fn law_c_api_step_is_iterator_step(
    v: ParserView,
    s: Seq<u8>,
    boundary: Seq<u8>,
    c: (RetCode, Option<Entry>, &[u8]),
    item: Option<Result<Entry, Error>>,
)
    requires
        parser_next_matches(c, spec_parse_next(v, s, line_marker_of(boundary), false).0, s),
        entries_item_matches(item, spec_parse_next(v, s, line_marker_of(boundary), false).0, s),
    ensures
        (c.0 == RetCode::Entry) == (item matches Some(Ok(_))),
        (c.0 == RetCode::Eos) == (item is None),
        (c.0 == RetCode::Error) == (item matches Some(Err(_))),
        item matches Some(Ok(e)) ==> (c.1 matches Some(e2) && e2.name_view() == e.name_view() && e2.value_view()
            == e.value_view() && e2.filename_view() == e.filename_view() && e2.content_type_view()
            == e.content_type_view()),
        c.2@ == remaining_after(spec_parse_next(v, s, line_marker_of(boundary), false).0, s),
{
}

/// Every rule keeps the marker and its length, and with them the boundary:
/// a state that any sequence of calls derives from `State::new(b)` still
/// holds `b`, and the markers built from it.
pub proof fn law_same_marker_same_boundary(a: State, b: State)
    requires
        a.marker == b.marker,
        a.marker_len == b.marker_len,
    ensures
        a.value_seq() == b.value_seq(),
        a.initial_marker_seq() == b.initial_marker_seq(),
        a.line_marker_seq() == b.line_marker_seq(),
{
}

/// How a streamed body ends.
pub enum RunEnd {
    /// The closing delimiter was parsed.
    Done,
    /// A call failed with this error.
    Fail(Error),
    /// The body ran out while the parser still needed more bytes.
    Truncated,
}

/// The bytes an entry at `sp` holds: name, value, filename, content type.
pub open spec fn entry_bytes(s: Seq<u8>, sp: EntrySpans) -> (Seq<u8>, Seq<u8>, Option<Seq<u8>>, Option<Seq<u8>>) {
    (
        span_view(s, sp.info.name),
        span_view(s, sp.value),
        opt_span_view(s, sp.info.filename),
        opt_span_view(s, sp.info.content_type),
    )
}

/// `cuts` splits `x` into chunks: `cuts[i]` bytes of `x` have arrived after
/// the `i`-th chunk, and the last chunk ends the body.
pub open spec fn chunking(x: Seq<u8>, cuts: Seq<int>) -> bool {
    &&& cuts.len() >= 1
    &&& cuts.last() == x.len()
    &&& forall|i: int, j: int| 0 <= i <= j < cuts.len() ==> 0 <= #[trigger] cuts[i] <= #[trigger] cuts[j]
}

/// Streaming `x` as the chunks `cuts` arrive: the buffer holds the bytes of
/// `x` that have arrived and have not been consumed, from `base` on. Each
/// call on the buffer that asks for more waits for the next chunk; each entry
/// is recorded and its consumed bytes drained; the closing delimiter or an
/// error ends the run. Yields the entries recorded and how the run ended.
pub open spec fn spec_stream(v: ParserView, x: Seq<u8>, cuts: Seq<int>, i: int, base: int, m: Seq<u8>) -> (
    Seq<(Seq<u8>, Seq<u8>, Option<Seq<u8>>, Option<Seq<u8>>)>,
    RunEnd,
)
    decreases x.len() - base, cuts.len() - i,
{
    if !(0 <= i < cuts.len() && 0 <= base <= cuts[i] <= x.len()) {
        (seq![], RunEnd::Truncated)
    } else {
        let b = x.subrange(base, cuts[i]);
        let (st, w) = spec_parse_next(v, b, m, true);
        match st {
            Step::NeedMore => if i + 1 < cuts.len() {
                spec_stream(w, x, cuts, i + 1, base, m)
            } else {
                (seq![], RunEnd::Truncated)
            },
            Step::Entry { spans, consumed } => if 0 < consumed && base + consumed <= cuts[i] {
                let rest = spec_stream(w, x, cuts, i, base + consumed, m);
                (seq![entry_bytes(b, spans)] + rest.0, rest.1)
            } else {
                (seq![], RunEnd::Truncated)
            },
            Step::Done { .. } => (seq![], RunEnd::Done),
            Step::Fail(e) => (seq![], RunEnd::Fail(e)),
        }
    }
}

/// The spans of a parsed part lie between where its delimiter starts and
/// the end of what it consumed.
proof fn lemma_next_entry_spans(s: Seq<u8>, p: usize, m: Seq<u8>, partial: bool)
    requires
        p <= s.len() <= usize::MAX,
        m.len() >= 5,
        m[0] == 13u8,
        m[1] == 10u8,
    ensures
        spec_next_entry(s, p, m, partial) matches Ok((q, Some(sp))) ==> info_in(sp.info, 0, q as int) && span_in(
            sp.value,
            0,
            q as int,
        ),
{
    lemma_delimiter_line_bounds(s, p, m, partial);
    if let Ok((q, close)) = spec_delimiter_line(s, p, m, partial) {
        lemma_entry_info_bounds(s, q, partial);
        if let Ok((r, info)) = spec_entry_info(s, q, partial) {
            lemma_value_body_bounds(s, r, m, partial);
        }
    }
}

/// The spans of an entry lie within the bytes it consumed.
proof fn lemma_entry_spans_within(v: ParserView, s: Seq<u8>, boundary: Seq<u8>, partial: bool)
    requires
        spec_valid_boundary(boundary),
        s.len() <= usize::MAX,
    ensures
        spec_parse_next(v, s, line_marker_of(boundary), partial).0 matches Step::Entry { spans, consumed } ==> info_in(
            spans.info,
            0,
            consumed as int,
        ) && span_in(spans.value, 0, consumed as int),
{
    let m = line_marker_of(boundary);
    lemma_marker_shape(boundary);
    if v.phase == Phase::Preamble && v.cursor <= s.len() {
        lemma_skip_preamble_bounds(s, v.cursor, m, partial);
        if let Ok(p) = spec_skip_preamble(s, v.cursor, m, partial) {
            lemma_next_entry_spans(s, p, m, partial);
        }
    } else if v.phase == Phase::Body && v.cursor <= s.len() {
        lemma_next_entry_spans(s, v.cursor, m, partial);
    }
}

/// Asking for more leaves the cursor within the input.
proof fn lemma_need_more_cursor(v: ParserView, s: Seq<u8>, boundary: Seq<u8>)
    requires
        spec_valid_boundary(boundary),
        s.len() <= usize::MAX,
        spec_parse_next(v, s, line_marker_of(boundary), true).0 is NeedMore,
    ensures
        spec_parse_next(v, s, line_marker_of(boundary), true).1.cursor <= s.len(),
{
    let m = line_marker_of(boundary);
    lemma_marker_shape(boundary);
    if v.phase == Phase::Preamble {
        lemma_skip_preamble_bounds(s, v.cursor, m, true);
    }
}

/// An entry reads the same bytes from a buffer as from any longer input it starts.
proof fn lemma_entry_bytes_prefix(b: Seq<u8>, r: Seq<u8>, sp: EntrySpans, c: int)
    requires
        is_prefix(b, r),
        c <= b.len(),
        info_in(sp.info, 0, c),
        span_in(sp.value, 0, c),
    ensures
        entry_bytes(b, sp) == entry_bytes(r, sp),
{
    assert(span_view(b, sp.info.name) =~= span_view(r, sp.info.name));
    assert(span_view(b, sp.value) =~= span_view(r, sp.value));
    if let Some(f) = sp.info.filename {
        assert(span_view(b, f) =~= span_view(r, f));
    }
    if let Some(f) = sp.info.content_type {
        assert(span_view(b, f) =~= span_view(r, f));
    }
}

/// Streaming in chunks from chunk `i` on gives what streaming the rest of
/// the body in one piece gives.
#[verifier::rlimit(60)]
proof fn lemma_stream_whole(v: ParserView, x: Seq<u8>, cuts: Seq<int>, i: int, base: int, boundary: Seq<u8>)
    requires
        spec_valid_boundary(boundary),
        x.len() <= usize::MAX,
        chunking(x, cuts),
        0 <= i < cuts.len(),
        0 <= base <= cuts[i],
        v.cursor <= cuts[i] - base,
    ensures
        spec_stream(v, x, cuts, i, base, line_marker_of(boundary)) == spec_stream(
            v,
            x,
            seq![x.len() as int],
            0,
            base,
            line_marker_of(boundary),
        ),
    decreases x.len() - base, cuts.len() - i,
{
    let m = line_marker_of(boundary);
    let whole = seq![x.len() as int];
    assert(cuts[i] <= cuts[cuts.len() - 1]);
    let b = x.subrange(base, cuts[i]);
    let r = x.subrange(base, x.len() as int);
    assert(is_prefix(b, r));
    law_more_input_decides_alike(v, b, r, boundary);
    law_steps_consume_input(v, b, boundary, true);
    lemma_entry_spans_within(v, b, boundary, true);
    let (st, w) = spec_parse_next(v, b, m, true);
    match st {
        Step::NeedMore => {
            lemma_need_more_cursor(v, b, boundary);
            law_need_more_resumes(v, b, r, boundary);
            if i + 1 < cuts.len() {
                assert(cuts[i] <= cuts[i + 1]);
                lemma_stream_whole(w, x, cuts, i + 1, base, boundary);
                assert(spec_stream(w, x, whole, 0, base, m) == spec_stream(v, x, whole, 0, base, m));
            } else {
                assert(b =~= r);
            }
        },
        Step::Entry { spans, consumed } => {
            lemma_entry_bytes_prefix(b, r, spans, consumed as int);
            lemma_stream_whole(w, x, cuts, i, base + consumed, boundary);
        },
        _ => {},
    }
}

/// Chunking never changes the parsed entries: streaming a body through a
/// fresh parser, appending chunks when it asks for more bytes and draining
/// what each entry consumed, records the same entries and ends the same way
/// however the body is split into chunks.
pub proof fn law_chunking_keeps_entries(x: Seq<u8>, cuts1: Seq<int>, cuts2: Seq<int>, boundary: Seq<u8>)
    requires
        spec_valid_boundary(boundary),
        x.len() <= usize::MAX,
        chunking(x, cuts1),
        chunking(x, cuts2),
    ensures
        ({
            let start = ParserView { phase: Phase::Preamble, cursor: 0 };
            spec_stream(start, x, cuts1, 0, 0, line_marker_of(boundary)) == spec_stream(
                start,
                x,
                cuts2,
                0,
                0,
                line_marker_of(boundary),
            )
        }),
{
    let start = ParserView { phase: Phase::Preamble, cursor: 0 };
    lemma_stream_whole(start, x, cuts1, 0, 0, boundary);
    lemma_stream_whole(start, x, cuts2, 0, 0, boundary);
}

} // verus!
