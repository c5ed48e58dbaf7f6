//! A partial input that asks for more bytes fails as a complete input: the
//! parser asks for more only where the body is cut short.
//!
//! Within a header line the rules read no `\r`, so a rule that runs out of
//! partial input leaves no line end after where it started; the line, and
//! the part, then cannot end in the complete input either.
use vstd::prelude::*;

use crate::bounds::{lemma_delimiter_line_bounds, lemma_entry_info_bounds, lemma_find_valid_marker_bounds, lemma_header_bounds, lemma_header_line_bounds, lemma_literal_bounds, lemma_quoted_string_bounds, lemma_take_while_bounds, lemma_ws_bounds};
use crate::cache::{lemma_invalid_modes, lemma_kind_modes, lemma_valid_stable};
use crate::laws::lemma_find_valid_marker_first;
use crate::state::Delimiter;
use crate::error::Failure;
use crate::grammar::{Disposition, Headers, Status, boundary_of, byte_eq, empty_disposition, empty_headers, initial_of, lit_agrees, occurs_at, spec_accumulate_field, spec_accumulate_header, spec_content_disposition, spec_content_disposition_colon, spec_content_type, spec_content_type_colon, spec_crlf, spec_crlf_seq, spec_dashes, spec_delimiter_kind, spec_delimiter_line, spec_entry_info, spec_field, spec_field_sep, spec_fields_rest, spec_find, spec_find_valid_marker, spec_form_data, spec_header, spec_header_line, spec_headers_end, spec_headers_rest, spec_literal, spec_next_entry, spec_other_header_rest, spec_parameter, spec_quoted_string, spec_skip_preamble, spec_suffix_status, spec_take_until, spec_take_value, spec_take_while, spec_token, spec_ws};
use crate::stability::{lemma_delimiter_line_stable, lemma_entry_info_stable, lemma_find_first, lemma_header_line_stable, lemma_header_stable, lemma_headers_end_stable, lemma_literal_stable};
use crate::trivia::{CharClass, lemma_scan, spec_in_class, spec_lower, spec_scan};

verus! {

/// No byte of `s[a..b)` is `\r`.
pub open spec fn no_cr(s: Seq<u8>, a: int, b: int) -> bool {
    forall|i: int| a <= i < b ==> #[trigger] s[i] != 13u8
}

/// No line end starts at or after `a`.
pub open spec fn no_crlf_from(s: Seq<u8>, a: int) -> bool {
    forall|i: int| a <= i ==> !#[trigger] occurs_at(s, i, spec_crlf_seq())
}

/// A class that never holds `\r`.
pub open spec fn class_without_cr(c: CharClass) -> bool {
    !spec_in_class(c, 13u8)
}

pub proof fn lemma_no_cr_to_end(s: Seq<u8>, a: int)
    requires
        no_cr(s, a, s.len() as int),
    ensures
        no_crlf_from(s, a),
{
    assert forall|i: int| a <= i implies !#[trigger] occurs_at(s, i, spec_crlf_seq()) by {
        if occurs_at(s, i, spec_crlf_seq()) {
            assert(s[i + 0] == spec_crlf_seq()[0]);
        }
    }
}

pub proof fn lemma_no_cr_then(s: Seq<u8>, a: int, b: int)
    requires
        a <= b,
        no_cr(s, a, b),
        no_crlf_from(s, b),
    ensures
        no_crlf_from(s, a),
{
    assert forall|i: int| a <= i implies !#[trigger] occurs_at(s, i, spec_crlf_seq()) by {
        if occurs_at(s, i, spec_crlf_seq()) && i < b {
            assert(s[i + 0] == spec_crlf_seq()[0]);
        }
    }
}

pub proof fn lemma_no_cr_join(s: Seq<u8>, a: int, b: int, c: int)
    requires
        no_cr(s, a, b),
        no_cr(s, b, c),
    ensures
        no_cr(s, a, c),
{
}

/// Without a line end at or after `q`, a complete input has no line end at `q`.
pub proof fn lemma_crlf_fails(s: Seq<u8>, q: usize)
    requires
        no_crlf_from(s, q as int),
    ensures
        spec_crlf(s, q, false) matches Err(Failure::Backtrack(None)),
{
    if spec_crlf(s, q, false) is Ok {
        assert forall|i: int| 0 <= i < spec_crlf_seq().len() implies #[trigger] s[q + i] == spec_crlf_seq()[i] by {
            assert(byte_eq(s[q + i], spec_crlf_seq()[i], false));
        }
        assert(occurs_at(s, q as int, spec_crlf_seq()));
    }
}

/// A partial line end at `q` leaves no line end at or after it.
pub proof fn lemma_crlf_incomplete(s: Seq<u8>, q: usize)
    requires
        spec_crlf(s, q, true) matches Err(Failure::Incomplete),
    ensures
        no_crlf_from(s, q as int),
        spec_crlf(s, q, false) is Err,
{
}

pub proof fn lemma_lower_cr(b: u8)
    ensures
        spec_lower(b) == 13u8 <==> b == 13u8,
{
}

/// A literal without `\r` reads no `\r`; when it runs out of partial input
/// the rest of the input holds none.
pub proof fn lemma_literal_no_cr(s: Seq<u8>, p: usize, lit: Seq<u8>, caseless: bool, mode: bool)
    requires
        p <= s.len(),
        no_cr(lit, 0, lit.len() as int),
    ensures
        spec_literal(s, p, lit, caseless, mode) matches Ok(q) ==> no_cr(s, p as int, q as int),
        spec_literal(s, p, lit, caseless, true) matches Err(Failure::Incomplete) ==> no_cr(s, p as int, s.len() as int)
            && no_crlf_from(s, p as int),
{
    if lit_agrees(s, p, lit, caseless) {
        assert forall|i: int| p <= i < s.len() && i < p + lit.len() implies #[trigger] s[i] != 13u8 by {
            let j = i - p;
            assert(byte_eq(s[p + j], lit[j], caseless));
            lemma_lower_cr(s[i]);
            lemma_lower_cr(lit[j]);
        }
    }
    if spec_literal(s, p, lit, caseless, true) matches Err(Failure::Incomplete) {
        lemma_no_cr_to_end(s, p as int);
    }
}

/// A scan over a class without `\r` reads no `\r`.
pub proof fn lemma_take_while_no_cr(s: Seq<u8>, p: usize, min: usize, c: CharClass, mode: bool)
    requires
        p <= s.len() <= usize::MAX,
        class_without_cr(c),
    ensures
        spec_take_while(s, p, min, c, mode) matches Ok(q) ==> no_cr(s, p as int, q as int),
        spec_take_while(s, p, min, c, true) matches Err(Failure::Incomplete) ==> no_cr(s, p as int, s.len() as int)
            && no_crlf_from(s, p as int),
{
    lemma_scan(s, p, c);
    let e = spec_scan(s, p, c);
    assert forall|i: int| p <= i < e implies #[trigger] s[i] != 13u8 by {
        assert(spec_in_class(c, s[i]));
    }
    if spec_take_while(s, p, min, c, true) matches Err(Failure::Incomplete) {
        lemma_no_cr_to_end(s, p as int);
    }
}

/// The literals of a header line hold no `\r`.
pub proof fn lemma_line_literals()
    ensures
        no_cr(seq![34u8], 0, 1),
        no_cr(seq![61u8], 0, 1),
        no_cr(seq![59u8], 0, 1),
        no_cr(seq![58u8], 0, 1),
        no_cr(spec_form_data(), 0, spec_form_data().len() as int),
        no_cr(spec_content_disposition_colon(), 0, spec_content_disposition_colon().len() as int),
        no_cr(spec_content_type_colon(), 0, spec_content_type_colon().len() as int),
{
    assert(spec_form_data().len() == 9);
    assert(spec_content_disposition_colon().len() == 20);
    assert(spec_content_type_colon().len() == 13);
}

pub proof fn lemma_ws_line(s: Seq<u8>, p: usize, mode: bool)
    requires
        p <= s.len() <= usize::MAX,
    ensures
        spec_ws(s, p, mode) matches Ok(q) ==> p <= q <= s.len() && no_cr(s, p as int, q as int),
        spec_ws(s, p, true) matches Err(Failure::Incomplete) ==> no_crlf_from(s, p as int),
{
    lemma_take_while_no_cr(s, p, 0, CharClass::HorizontalSpace, mode);
    lemma_ws_bounds(s, p, mode);
}

pub proof fn lemma_token_line(s: Seq<u8>, p: usize, mode: bool)
    requires
        p <= s.len() <= usize::MAX,
    ensures
        spec_token(s, p, mode) matches Ok(q) ==> p < q <= s.len() && no_cr(s, p as int, q as int),
        spec_token(s, p, true) matches Err(Failure::Incomplete) ==> no_crlf_from(s, p as int),
{
    lemma_take_while_no_cr(s, p, 1, CharClass::Token, mode);
    lemma_take_while_bounds(s, p, 1, CharClass::Token, mode);
}

pub proof fn lemma_lit_line(s: Seq<u8>, p: usize, lit: Seq<u8>, caseless: bool, mode: bool)
    requires
        p <= s.len() <= usize::MAX,
        no_cr(lit, 0, lit.len() as int),
    ensures
        spec_literal(s, p, lit, caseless, mode) matches Ok(q) ==> p <= q <= s.len() && q == p + lit.len() && no_cr(
            s,
            p as int,
            q as int,
        ),
        spec_literal(s, p, lit, caseless, true) matches Err(Failure::Incomplete) ==> no_crlf_from(s, p as int),
{
    lemma_literal_no_cr(s, p, lit, caseless, mode);
    lemma_literal_bounds(s, p, lit, caseless, mode);
}

pub proof fn lemma_quoted_string_line(s: Seq<u8>, p: usize, mode: bool)
    requires
        p <= s.len() <= usize::MAX,
    ensures
        spec_quoted_string(s, p, mode) matches Ok((q, _)) ==> p < q <= s.len() && no_cr(s, p as int, q as int),
        spec_quoted_string(s, p, true) matches Err(Failure::Incomplete) ==> no_crlf_from(s, p as int),
{
    lemma_line_literals();
    lemma_quoted_string_bounds(s, p, mode);
    let m0 = mode;
    let m1 = true;
    lemma_lit_line(s, p, seq![34u8], false, m0);
    if let Ok(q) = spec_literal(s, p, seq![34u8], false, m0) {
        lemma_take_while_no_cr(s, q, 0, CharClass::QuotedText, m0);
        lemma_take_while_bounds(s, q, 0, CharClass::QuotedText, m0);
        if let Ok(e) = spec_take_while(s, q, 0, CharClass::QuotedText, m0) {
            lemma_lit_line(s, e, seq![34u8], false, m0);
        }
    }
    if let Ok(q) = spec_literal(s, p, seq![34u8], false, m1) {
        lemma_lit_line(s, p, seq![34u8], false, m1);
        lemma_take_while_no_cr(s, q, 0, CharClass::QuotedText, m1);
        lemma_take_while_bounds(s, q, 0, CharClass::QuotedText, m1);
        if let Ok(e) = spec_take_while(s, q, 0, CharClass::QuotedText, m1) {
            lemma_lit_line(s, e, seq![34u8], false, m1);
            lemma_no_cr_join(s, p as int, q as int, e as int);
            if spec_literal(s, e, seq![34u8], false, m1) matches Err(Failure::Incomplete) {
                lemma_no_cr_then(s, p as int, e as int);
            }
        } else if spec_take_while(s, q, 0, CharClass::QuotedText, m1) matches Err(Failure::Incomplete) {
            lemma_no_cr_then(s, p as int, q as int);
        }
    }
}

/// After bytes `s[p..q)` without `\r`: optional space.
pub proof fn lemma_then_ws(s: Seq<u8>, p: usize, q: usize, mode: bool)
    requires
        p <= q <= s.len() <= usize::MAX,
        no_cr(s, p as int, q as int),
    ensures
        spec_ws(s, q, mode) matches Ok(r) ==> q <= r <= s.len() && no_cr(s, p as int, r as int),
        spec_ws(s, q, true) matches Err(Failure::Incomplete) ==> no_crlf_from(s, p as int),
{
    lemma_ws_line(s, q, mode);
    lemma_ws_line(s, q, true);
    if spec_ws(s, q, true) matches Err(Failure::Incomplete) {
        lemma_no_cr_then(s, p as int, q as int);
    }
}

/// After bytes `s[p..q)` without `\r`: a token.
pub proof fn lemma_then_token(s: Seq<u8>, p: usize, q: usize, mode: bool)
    requires
        p <= q <= s.len() <= usize::MAX,
        no_cr(s, p as int, q as int),
    ensures
        spec_token(s, q, mode) matches Ok(r) ==> q < r <= s.len() && no_cr(s, p as int, r as int),
        spec_token(s, q, true) matches Err(Failure::Incomplete) ==> no_crlf_from(s, p as int),
{
    lemma_token_line(s, q, mode);
    lemma_token_line(s, q, true);
    if spec_token(s, q, true) matches Err(Failure::Incomplete) {
        lemma_no_cr_then(s, p as int, q as int);
    }
}

/// After bytes `s[p..q)` without `\r`: a literal without `\r`.
pub proof fn lemma_then_lit(s: Seq<u8>, p: usize, q: usize, lit: Seq<u8>, caseless: bool, mode: bool)
    requires
        p <= q <= s.len() <= usize::MAX,
        no_cr(s, p as int, q as int),
        no_cr(lit, 0, lit.len() as int),
    ensures
        spec_literal(s, q, lit, caseless, mode) matches Ok(r) ==> q <= r <= s.len() && no_cr(s, p as int, r as int),
        spec_literal(s, q, lit, caseless, true) matches Err(Failure::Incomplete) ==> no_crlf_from(s, p as int),
{
    lemma_lit_line(s, q, lit, caseless, mode);
    lemma_lit_line(s, q, lit, caseless, true);
    if spec_literal(s, q, lit, caseless, true) matches Err(Failure::Incomplete) {
        lemma_no_cr_then(s, p as int, q as int);
    }
}

pub proof fn lemma_take_value_line(s: Seq<u8>, p: usize, mode: bool)
    requires
        p <= s.len() <= usize::MAX,
    ensures
        spec_take_value(s, p, mode) matches Ok((q, _)) ==> p < q <= s.len() && no_cr(s, p as int, q as int),
        spec_take_value(s, p, true) matches Err(Failure::Incomplete) ==> no_crlf_from(s, p as int),
{
    lemma_quoted_string_line(s, p, mode);
    lemma_quoted_string_line(s, p, true);
    lemma_token_line(s, p, mode);
    lemma_token_line(s, p, true);
    if let Ok((q, v)) = spec_quoted_string(s, p, mode) {
        lemma_then_ws(s, p, q, mode);
    }
    if let Ok((q, v)) = spec_quoted_string(s, p, true) {
        lemma_then_ws(s, p, q, true);
    }
    if let Ok(q) = spec_token(s, p, mode) {
        lemma_then_ws(s, p, q, mode);
    }
    if let Ok(q) = spec_token(s, p, true) {
        lemma_then_ws(s, p, q, true);
    }
}

proof fn lemma_parameter_run(s: Seq<u8>, p: usize, m: bool)
    requires
        p <= s.len() <= usize::MAX,
    ensures
        spec_parameter(s, p, m) matches Ok((q, _)) ==> p < q <= s.len() && no_cr(s, p as int, q as int),
        m ==> (spec_parameter(s, p, m) matches Err(Failure::Incomplete) ==> no_crlf_from(s, p as int)),
{
    lemma_line_literals();
    lemma_token_line(s, p, m);
    if let Ok(k) = spec_token(s, p, m) {
        lemma_then_ws(s, p, k, m);
        if let Ok(q1) = spec_ws(s, k, m) {
            lemma_then_lit(s, p, q1, seq![61u8], false, m);
            if let Ok(q2) = spec_literal(s, q1, seq![61u8], false, m) {
                lemma_then_ws(s, p, q2, m);
                if let Ok(q3) = spec_ws(s, q2, m) {
                    lemma_take_value_line(s, q3, m);
                    if let Ok((q4, v)) = spec_take_value(s, q3, m) {
                        lemma_no_cr_join(s, p as int, q3 as int, q4 as int);
                    }
                    if m && (spec_take_value(s, q3, m) matches Err(Failure::Incomplete)) {
                        lemma_no_cr_then(s, p as int, q3 as int);
                    }
                }
            }
        }
    }
}

pub proof fn lemma_field_run(s: Seq<u8>, p: usize, m: bool)
    requires
        p <= s.len() <= usize::MAX,
    ensures
        spec_field(s, p, m) matches Ok((q, _)) ==> p < q <= s.len() && no_cr(s, p as int, q as int),
        m ==> (spec_field(s, p, m) matches Err(Failure::Incomplete) ==> no_crlf_from(s, p as int)),
{
    lemma_line_literals();
    lemma_ws_line(s, p, m);
    if let Ok(q) = spec_ws(s, p, m) {
        lemma_then_lit(s, p, q, spec_form_data(), true, m);
        lemma_parameter_run(s, q, m);
        if let Ok((r, f)) = spec_parameter(s, q, m) {
            lemma_no_cr_join(s, p as int, q as int, r as int);
        }
        if m && (spec_parameter(s, q, m) matches Err(Failure::Incomplete)) {
            lemma_no_cr_then(s, p as int, q as int);
        }
        assert(spec_form_data().len() == 9);
    }
}

pub proof fn lemma_field_sep_run(s: Seq<u8>, p: usize, m: bool)
    requires
        p <= s.len() <= usize::MAX,
    ensures
        spec_field_sep(s, p, m) matches Ok(q) ==> p < q <= s.len() && no_cr(s, p as int, q as int),
        m ==> (spec_field_sep(s, p, m) matches Err(Failure::Incomplete) ==> no_crlf_from(s, p as int)),
{
    lemma_line_literals();
    lemma_ws_line(s, p, m);
    if let Ok(q) = spec_ws(s, p, m) {
        lemma_then_lit(s, p, q, seq![59u8], false, m);
        if let Ok(r) = spec_literal(s, q, seq![59u8], false, m) {
            lemma_then_ws(s, p, r, m);
        }
    }
}

pub proof fn lemma_fields_rest_run(s: Seq<u8>, p: usize, d: Disposition, m: bool)
    requires
        p <= s.len() <= usize::MAX,
    ensures
        spec_fields_rest(s, p, d, m) matches Ok((q, _)) ==> p <= q <= s.len() && no_cr(s, p as int, q as int),
        m ==> (spec_fields_rest(s, p, d, m) matches Err(Failure::Incomplete) ==> no_crlf_from(s, p as int)),
    decreases s.len() - p,
{
    lemma_field_sep_run(s, p, m);
    if let Ok(q) = spec_field_sep(s, p, m) {
        lemma_field_run(s, q, m);
        if let Ok((r, f)) = spec_field(s, q, m) {
            lemma_no_cr_join(s, p as int, q as int, r as int);
            if p < r <= s.len() {
                lemma_fields_rest_run(s, r, spec_accumulate_field(d, f), m);
                if let Ok((t, e)) = spec_fields_rest(s, r, spec_accumulate_field(d, f), m) {
                    lemma_no_cr_join(s, p as int, r as int, t as int);
                }
                if m && (spec_fields_rest(s, r, spec_accumulate_field(d, f), m) matches Err(Failure::Incomplete)) {
                    lemma_no_cr_then(s, p as int, r as int);
                }
            }
        }
        if m && (spec_field(s, q, m) matches Err(Failure::Incomplete)) {
            lemma_no_cr_then(s, p as int, q as int);
        }
    }
}

pub proof fn lemma_content_disposition_run(s: Seq<u8>, p: usize, m: bool)
    requires
        p <= s.len() <= usize::MAX,
    ensures
        m ==> (spec_content_disposition(s, p, m) matches Err(Failure::Incomplete) ==> no_crlf_from(s, p as int)),
{
    lemma_field_run(s, p, m);
    if let Ok((q, f)) = spec_field(s, p, m) {
        lemma_fields_rest_run(s, q, spec_accumulate_field(empty_disposition(), f), m);
        if m && (spec_fields_rest(s, q, spec_accumulate_field(empty_disposition(), f), m) matches Err(
            Failure::Incomplete,
        )) {
            lemma_no_cr_then(s, p as int, q as int);
        }
    }
}

pub proof fn lemma_content_type_run(s: Seq<u8>, p: usize)
    requires
        p <= s.len() <= usize::MAX,
    ensures
        spec_content_type(s, p, true) matches Err(Failure::Incomplete) ==> no_crlf_from(s, p as int),
{
    lemma_take_while_no_cr(s, p, 1, CharClass::VisibleAscii, true);
}

pub proof fn lemma_other_header_rest_run(s: Seq<u8>, p: usize)
    requires
        p <= s.len() <= usize::MAX,
    ensures
        spec_other_header_rest(s, p, true) matches Err(Failure::Incomplete) ==> no_crlf_from(s, p as int),
{
    lemma_line_literals();
    lemma_lit_line(s, p, seq![58u8], false, true);
    if let Ok(q) = spec_literal(s, p, seq![58u8], false, true) {
        lemma_then_ws(s, p, q, true);
        if let Ok(r) = spec_ws(s, q, true) {
            lemma_find_first(s, r, spec_crlf_seq());
            if spec_take_until(s, r, spec_crlf_seq(), true) matches Err(Failure::Incomplete) {
                assert(no_crlf_from(s, r as int));
                lemma_no_cr_then(s, p as int, r as int);
            }
        }
    }
}

/// A header that runs out of partial input leaves no line end after its start.
pub proof fn lemma_header_run(s: Seq<u8>, p: usize)
    requires
        p <= s.len() <= usize::MAX,
    ensures
        spec_header(s, p, true) matches Err(Failure::Incomplete) ==> no_crlf_from(s, p as int),
{
    lemma_line_literals();
    lemma_ws_line(s, p, true);
    if let Ok(q) = spec_ws(s, p, true) {
        lemma_then_lit(s, p, q, spec_content_disposition_colon(), true, true);
        lemma_then_lit(s, p, q, spec_content_type_colon(), true, true);
        lemma_then_token(s, p, q, true);
        if let Ok(r) = spec_literal(s, q, spec_content_disposition_colon(), true, true) {
            lemma_content_disposition_run(s, r, true);
            if spec_content_disposition(s, r, true) matches Err(Failure::Incomplete) {
                lemma_no_cr_then(s, p as int, r as int);
            }
        }
        if let Ok(r) = spec_literal(s, q, spec_content_type_colon(), true, true) {
            lemma_content_type_run(s, r);
            if spec_content_type(s, r, true) matches Err(Failure::Incomplete) {
                lemma_no_cr_then(s, p as int, r as int);
            }
        }
        if let Ok(r) = spec_token(s, q, true) {
            lemma_other_header_rest_run(s, r);
            if spec_other_header_rest(s, r, true) matches Err(Failure::Incomplete) {
                lemma_no_cr_then(s, p as int, r as int);
            }
        }
    }
}

/// Without a line end from `p`, no header line starts at `p` in a complete input.
pub proof fn lemma_header_line_needs_crlf(s: Seq<u8>, p: usize)
    requires
        p <= s.len() <= usize::MAX,
        no_crlf_from(s, p as int),
    ensures
        spec_header_line(s, p, false) is Err,
{
    lemma_header_bounds(s, p, false);
    if let Ok((q, h)) = spec_header(s, p, false) {
        lemma_crlf_fails(s, q);
    }
}

/// Without a line end from `p`, no blank line starts at `p` in a complete input.
pub proof fn lemma_headers_end_needs_crlf(s: Seq<u8>, p: usize)
    requires
        p <= s.len() <= usize::MAX,
        no_crlf_from(s, p as int),
    ensures
        spec_headers_end(s, p, false) is Err,
{
    lemma_ws_bounds(s, p, false);
    if let Ok(q) = spec_ws(s, p, false) {
        lemma_crlf_fails(s, q);
    }
}

pub proof fn lemma_header_line_truncated(s: Seq<u8>, p: usize)
    requires
        p <= s.len() <= usize::MAX,
        spec_header_line(s, p, true) matches Err(Failure::Incomplete),
    ensures
        spec_header_line(s, p, false) is Err,
{
    lemma_header_run(s, p);
    lemma_header_stable(s, s, p, false);
    if let Ok((q, h)) = spec_header(s, p, true) {
        lemma_crlf_incomplete(s, q);
    } else {
        lemma_header_line_needs_crlf(s, p);
    }
}

pub proof fn lemma_headers_end_truncated(s: Seq<u8>, p: usize)
    requires
        p <= s.len() <= usize::MAX,
        spec_headers_end(s, p, true) matches Err(Failure::Incomplete),
    ensures
        spec_headers_end(s, p, false) is Err,
        no_crlf_from(s, p as int),
{
    lemma_ws_line(s, p, true);
    if let Ok(q) = spec_ws(s, p, true) {
        lemma_crlf_incomplete(s, q);
        lemma_no_cr_then(s, p as int, q as int);
    }
    lemma_headers_end_needs_crlf(s, p);
}

pub proof fn lemma_headers_rest_truncated(s: Seq<u8>, p: usize, hs: Headers)
    requires
        p <= s.len() <= usize::MAX,
        spec_headers_rest(s, p, hs, true) matches Err(Failure::Incomplete),
    ensures
        spec_headers_rest(s, p, hs, false) is Err,
    decreases s.len() - p,
{
    lemma_headers_end_stable(s, s, p, false);
    if spec_headers_end(s, p, true) matches Err(Failure::Incomplete) {
        lemma_headers_end_truncated(s, p);
        lemma_header_line_needs_crlf(s, p);
    } else {
        lemma_header_line_stable(s, s, p, false);
        if spec_header_line(s, p, true) matches Err(Failure::Incomplete) {
            lemma_header_line_truncated(s, p);
        } else if let Ok((q, h)) = spec_header_line(s, p, true) {
            lemma_headers_rest_truncated(s, q, spec_accumulate_header(hs, h));
        }
    }
}

pub proof fn lemma_entry_info_truncated(s: Seq<u8>, p: usize)
    requires
        p <= s.len() <= usize::MAX,
        spec_entry_info(s, p, true) matches Err(Failure::Incomplete),
    ensures
        spec_entry_info(s, p, false) is Err,
{
    reveal(spec_entry_info);
    lemma_header_line_stable(s, s, p, false);
    lemma_header_line_bounds(s, p, true);
    if spec_header_line(s, p, true) matches Err(Failure::Incomplete) {
        lemma_header_line_truncated(s, p);
    } else if let Ok((q, h)) = spec_header_line(s, p, true) {
        lemma_headers_rest_truncated(s, q, spec_accumulate_header(empty_headers(), h));
    }
}

/// A line marker: `\r\n--`, then bytes without `\r`.
pub open spec fn marker_shape(m: Seq<u8>) -> bool {
    &&& m.len() >= 5
    &&& m[0] == 13u8
    &&& m[1] == 10u8
    &&& m[2] == 45u8
    &&& m[3] == 45u8
    &&& no_cr(m, 1, m.len() as int)
}

pub proof fn lemma_dashes_no_cr()
    ensures
        no_cr(spec_dashes(), 0, 2),
        spec_dashes().len() == 2,
{
}

pub proof fn lemma_delimiter_line_truncated(s: Seq<u8>, p: usize, m: Seq<u8>)
    requires
        p <= s.len() <= usize::MAX,
        spec_delimiter_line(s, p, m, true) matches Err(Failure::Incomplete),
    ensures
        spec_delimiter_line(s, p, m, false) is Err,
{
    lemma_dashes_no_cr();
    lemma_literal_stable(s, s, p, spec_dashes(), false, false);
    lemma_literal_bounds(s, p, spec_dashes(), false, true);
    if let Ok(q1) = spec_literal(s, p, spec_dashes(), false, true) {
        lemma_literal_stable(s, s, q1, boundary_of(m), false, false);
        lemma_literal_bounds(s, q1, boundary_of(m), false, true);
        if let Ok(q2) = spec_literal(s, q1, boundary_of(m), false, true) {
            lemma_literal_stable(s, s, q2, spec_dashes(), false, false);
            lemma_headers_end_stable(s, s, q2, false);
            if spec_literal(s, q2, spec_dashes(), false, true) matches Err(Failure::Incomplete) {
                lemma_literal_no_cr(s, q2, spec_dashes(), false, true);
                lemma_headers_end_needs_crlf(s, q2);
            } else if spec_headers_end(s, q2, true) matches Err(Failure::Incomplete) {
                lemma_headers_end_truncated(s, q2);
            }
        }
    }
}

/// No occurrence of a line marker starts at or after `lo`, when `s[lo..a)`
/// holds no `\r` and no line end starts at or after `a`.
pub proof fn lemma_no_marker_from(s: Seq<u8>, lo: usize, a: int, m: Seq<u8>)
    requires
        lo <= a,
        s.len() <= usize::MAX,
        marker_shape(m),
        no_cr(s, lo as int, a),
        no_crlf_from(s, a),
    ensures
        spec_find(s, lo, m) is None,
{
    assert forall|j: int| lo <= j implies !#[trigger] occurs_at(s, j, m) by {
        if occurs_at(s, j, m) {
            assert(s[j + 0] == m[0]);
            assert(s[j + 1] == m[1]);
            if j >= a {
                assert(occurs_at(s, j, spec_crlf_seq()));
            }
        }
    }
    lemma_find_first(s, lo, m);
}

/// A candidate that a partial input cannot judge yet is invalid as complete
/// input, and no line end starts after its marker.
pub proof fn lemma_status_truncated(s: Seq<u8>, a: usize)
    requires
        a <= s.len() <= usize::MAX,
        spec_suffix_status(s, a, true) == Status::Incomplete,
    ensures
        spec_suffix_status(s, a, false) == Status::Invalid,
        no_crlf_from(s, a as int),
{
    let hs = CharClass::HorizontalSpace;
    lemma_dashes_no_cr();
    lemma_literal_no_cr(s, a, spec_dashes(), false, true);
    lemma_literal_stable(s, s, a, spec_dashes(), false, false);
    lemma_take_while_no_cr(s, a, 0, hs, true);
    lemma_scan(s, a, hs);
    let c = spec_scan(s, a, hs);
    assert(no_cr(s, a as int, c as int)) by {
        assert forall|i: int| a <= i < c implies #[trigger] s[i] != 13u8 by {
            assert(spec_in_class(hs, s[i]));
        }
    }
    if spec_literal(s, a, spec_dashes(), false, true) matches Err(Failure::Incomplete) {
        lemma_no_cr_then(s, c as int, s.len() as int);
        lemma_crlf_fails(s, c);
    } else {
        lemma_crlf_incomplete(s, c);
        lemma_no_cr_then(s, a as int, c as int);
    }
}

/// A delimiter search that a partial input cannot finish fails as complete input.
pub proof fn lemma_find_valid_marker_truncated(s: Seq<u8>, j: usize, m: Seq<u8>)
    requires
        s.len() <= usize::MAX,
        marker_shape(m),
        spec_find_valid_marker(s, j, m, true) matches Err(Failure::Incomplete),
    ensures
        spec_find_valid_marker(s, j, m, false) is Err,
    decreases s.len() - j,
{
    lemma_find_first(s, j, m);
    if let Some(k) = spec_find(s, j, m) {
        let a = (k + m.len()) as usize;
        match spec_suffix_status(s, a, true) {
            Status::Incomplete => {
                lemma_status_truncated(s, a);
                if j <= k < s.len() && k < usize::MAX {
                    assert(no_cr(s, k + 1, a as int)) by {
                        assert forall|i: int| k + 1 <= i < a implies #[trigger] s[i] != 13u8 by {
                            assert(s[k + (i - k)] == m[i - k]);
                        }
                    }
                    lemma_no_marker_from(s, (k + 1) as usize, a as int, m);
                    assert(spec_find_valid_marker(s, (k + 1) as usize, m, false) is Err);
                }
            },
            Status::Invalid => {
                lemma_invalid_modes(s, a, false);
                if j <= k < s.len() && k < usize::MAX {
                    lemma_find_valid_marker_truncated(s, (k + 1) as usize, m);
                }
            },
            Status::Valid => {},
        }
    }
}

/// An entry step that a partial input cannot finish fails as complete input.
pub proof fn lemma_next_entry_truncated(s: Seq<u8>, p: usize, m: Seq<u8>)
    requires
        p <= s.len() <= usize::MAX,
        marker_shape(m),
        spec_next_entry(s, p, m, true) matches Err(Failure::Incomplete),
    ensures
        spec_next_entry(s, p, m, false) is Err,
{
    lemma_delimiter_line_stable(s, s, p, m, false);
    lemma_delimiter_line_bounds(s, p, m, true);
    if spec_delimiter_line(s, p, m, true) matches Err(Failure::Incomplete) {
        lemma_delimiter_line_truncated(s, p, m);
    } else if let Ok((q, close)) = spec_delimiter_line(s, p, m, true) {
        lemma_entry_info_stable(s, s, q, false);
        lemma_entry_info_bounds(s, q, true);
        if spec_entry_info(s, q, true) matches Err(Failure::Incomplete) {
            lemma_entry_info_truncated(s, q);
        } else if let Ok((r, info)) = spec_entry_info(s, q, true) {
            lemma_find_valid_marker_truncated(s, r, m);
        }
    }
}

/// Skipping the preamble, when a partial input cannot finish it, fails as
/// complete input.
pub proof fn lemma_skip_preamble_truncated(s: Seq<u8>, p: usize, m: Seq<u8>)
    requires
        p <= s.len() <= usize::MAX,
        marker_shape(m),
        spec_skip_preamble(s, p, m, true) matches Err(Failure::Incomplete),
    ensures
        spec_skip_preamble(s, p, m, false) is Err,
{
    let init = initial_of(m);
    assert(no_cr(init, 0, init.len() as int)) by {
        assert forall|i: int| 0 <= i < init.len() implies #[trigger] init[i] != 13u8 by {
            assert(init[i] == m[i + 2]);
        }
    }
    lemma_literal_no_cr(s, p, init, false, true);
    lemma_literal_no_cr(s, p, init, false, false);
    lemma_literal_stable(s, s, p, init, false, false);
    lemma_literal_bounds(s, p, init, false, true);
    match spec_literal(s, p, init, false, true) {
        Err(Failure::Incomplete) => {
            lemma_no_cr_to_end(s, s.len() as int);
            lemma_no_marker_from(s, p, s.len() as int, m);
        },
        Ok(q) => {
            match spec_suffix_status(s, q, true) {
                Status::Incomplete => {
                    lemma_status_truncated(s, q);
                    lemma_no_marker_from(s, p, q as int, m);
                },
                Status::Invalid => {
                    lemma_invalid_modes(s, q, false);
                    lemma_find_valid_marker_truncated(s, p, m);
                },
                Status::Valid => {},
            }
        },
        Err(_) => {
            lemma_find_valid_marker_truncated(s, p, m);
        },
    }
}

/// A search that a partial input finishes at a candidate that is valid as
/// complete input finds that candidate as complete input too.
pub proof fn lemma_find_valid_marker_complete(s: Seq<u8>, j: usize, m: Seq<u8>, k: usize)
    requires
        s.len() <= usize::MAX,
        m.len() >= 1,
        spec_find_valid_marker(s, j, m, true) == Ok::<usize, Failure>(k),
        spec_suffix_status(s, (k + m.len()) as usize, false) == Status::Valid,
    ensures
        spec_find_valid_marker(s, j, m, false) == Ok::<usize, Failure>(k),
    decreases s.len() - j,
{
    lemma_find_first(s, j, m);
    if let Some(k0) = spec_find(s, j, m) {
        let a = (k0 + m.len()) as usize;
        if spec_suffix_status(s, a, true) == Status::Invalid {
            lemma_invalid_modes(s, a, false);
            if j <= k0 < s.len() && k0 < usize::MAX {
                lemma_find_valid_marker_complete(s, (k0 + 1) as usize, m, k);
            }
        }
    }
}

/// `--boundary--` at `x` is a close delimiter line.
pub proof fn lemma_close_line(s: Seq<u8>, x: usize, m: Seq<u8>)
    requires
        s.len() <= usize::MAX,
        marker_shape(m),
        x + m.len() - 2 <= s.len(),
        forall|i: int| 0 <= i < m.len() - 2 ==> #[trigger] s[x + i] == m[i + 2],
        spec_literal(s, (x + m.len() - 2) as usize, spec_dashes(), false, true) is Ok,
    ensures
        spec_next_entry(s, x, m, true) is Ok,
{
    assert(s[x + 0] == m[2]);
    assert(s[x + 1] == m[3]);
    assert(spec_literal(s, x, spec_dashes(), false, true) == Ok::<usize, Failure>((x + 2) as usize));
    let b = boundary_of(m);
    assert forall|i: int| 0 <= i < b.len() && x + 2 + i < s.len() implies byte_eq(
        #[trigger] s[(x + 2) as usize + i],
        b[i],
        false,
    ) by {
        assert(s[x + (i + 2)] == m[(i + 2) + 2]);
    }
    assert(spec_literal(s, (x + 2) as usize, b, false, true) == Ok::<usize, Failure>((x + m.len() - 2) as usize));
}

/// A preamble that a partial input skips, followed by an entry that it
/// cannot finish, is skipped alike as complete input: the delimiter found
/// opens a part, so it is valid in either mode.
pub proof fn lemma_skip_preamble_complete(s: Seq<u8>, p: usize, m: Seq<u8>, p2: usize)
    requires
        p <= s.len() <= usize::MAX,
        marker_shape(m),
        spec_skip_preamble(s, p, m, true) == Ok::<usize, Failure>(p2),
        spec_next_entry(s, p2, m, true) matches Err(Failure::Incomplete),
    ensures
        spec_skip_preamble(s, p, m, false) == Ok::<usize, Failure>(p2),
{
    let init = initial_of(m);
    lemma_literal_stable(s, s, p, init, false, false);
    lemma_literal_bounds(s, p, init, false, true);
    lemma_find_valid_marker_bounds(s, p, m, true);
    if let Ok(q) = spec_literal(s, p, init, false, true) {
        lemma_kind_modes(s, q, false);
        if spec_suffix_status(s, q, true) == Status::Valid {
            if spec_delimiter_kind(s, q, true) == Some(Delimiter::Close) {
                assert forall|i: int| 0 <= i < m.len() - 2 implies #[trigger] s[p + i] == m[i + 2] by {
                    assert(byte_eq(s[p + i], init[i], false));
                }
                lemma_close_line(s, p, m);
            }
            lemma_valid_stable(s, s, q, false);
            return;
        }
        if spec_suffix_status(s, q, true) == Status::Invalid {
            lemma_invalid_modes(s, q, false);
        }
    }
    if let Ok(k) = spec_find_valid_marker(s, p, m, true) {
        lemma_find_valid_marker_first(s, p, m, true);
        let a = (k + m.len()) as usize;
        lemma_kind_modes(s, a, false);
        if spec_delimiter_kind(s, a, true) == Some(Delimiter::Close) {
            assert forall|i: int| 0 <= i < m.len() - 2 implies #[trigger] s[(k + 2) as usize + i] == m[i + 2] by {
                assert(s[k + (i + 2)] == m[i + 2]);
            }
            lemma_close_line(s, (k + 2) as usize, m);
        }
        lemma_valid_stable(s, s, a, false);
        lemma_find_valid_marker_complete(s, p, m, k);
    }
}

} // verus!
