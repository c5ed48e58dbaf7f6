//! Where the grammar's matches end and where their spans lie.
use vstd::prelude::*;

use crate::error::Failure;
use crate::grammar::{Disposition, Field, Header, Headers, InfoSpans, Span, Status, boundary_of, empty_disposition, empty_headers, occurs_at, spec_accumulate_field, spec_accumulate_header, spec_close_tail, spec_content_disposition, spec_content_disposition_colon, spec_content_type, spec_content_type_colon, spec_crlf_seq, spec_dashes, spec_delimiter_line, spec_entry_info, spec_field, spec_field_sep, spec_fields_rest, spec_find, spec_find_valid_marker, spec_header, spec_header_line, spec_headers_end, spec_headers_rest, spec_literal, spec_parameter, spec_quoted_string, spec_suffix_status, spec_take_until, spec_take_value, spec_take_while, spec_token, spec_value_body, spec_ws};
use crate::trivia::{CharClass, lemma_scan, spec_scan, spec_trim_end, spec_trim_start};

verus! {

/// `sp` lies within `[lo, hi]`.
pub open spec fn span_in(sp: Span, lo: int, hi: int) -> bool {
    lo <= sp.start <= sp.end <= hi
}

pub open spec fn opt_span_in(sp: Option<Span>, lo: int, hi: int) -> bool {
    sp matches Some(x) ==> span_in(x, lo, hi)
}

pub open spec fn field_in(f: Field, lo: int, hi: int) -> bool {
    match f {
        Field::Name(v) => span_in(v, lo, hi),
        Field::Filename(v) => span_in(v, lo, hi),
        _ => true,
    }
}

pub open spec fn header_in(h: Header, lo: int, hi: int) -> bool {
    match h {
        Header::ContentDisposition { name, filename } => span_in(name, lo, hi) && opt_span_in(filename, lo, hi),
        Header::ContentType(v) => span_in(v, lo, hi),
        Header::Other => true,
    }
}

pub open spec fn disposition_in(d: Disposition, lo: int, hi: int) -> bool {
    opt_span_in(d.name, lo, hi) && opt_span_in(d.filename, lo, hi)
}

pub open spec fn headers_in(h: Headers, lo: int, hi: int) -> bool {
    opt_span_in(h.name, lo, hi) && opt_span_in(h.filename, lo, hi) && opt_span_in(h.content_type, lo, hi)
}

pub open spec fn info_in(i: InfoSpans, lo: int, hi: int) -> bool {
    span_in(i.name, lo, hi) && opt_span_in(i.filename, lo, hi) && opt_span_in(i.content_type, lo, hi)
}

/// Every position the rules deal with fits in a `usize`.
pub open spec fn fits(s: Seq<u8>, p: usize) -> bool {
    p <= s.len() <= usize::MAX
}

pub proof fn lemma_literal_bounds(s: Seq<u8>, p: usize, lit: Seq<u8>, caseless: bool, partial: bool)
    requires
        fits(s, p),
    ensures
        spec_literal(s, p, lit, caseless, partial) matches Ok(q) ==> q == p + lit.len() <= s.len(),
{
}

pub proof fn lemma_take_while_bounds(s: Seq<u8>, p: usize, min: usize, c: CharClass, partial: bool)
    requires
        fits(s, p),
    ensures
        spec_take_while(s, p, min, c, partial) matches Ok(e) ==> p + min <= e <= s.len() && e
            == spec_scan(s, p, c),
{
    lemma_scan(s, p, c);
}

pub proof fn lemma_find_bounds(s: Seq<u8>, j: usize, lit: Seq<u8>)
    requires
        s.len() <= usize::MAX,
    ensures
        spec_find(s, j, lit) matches Some(k) ==> j <= k && occurs_at(s, k as int, lit),
    decreases s.len() - j,
{
    if !(j + lit.len() > s.len() || j == usize::MAX) && !occurs_at(s, j as int, lit) {
        lemma_find_bounds(s, (j + 1) as usize, lit);
    }
}

pub proof fn lemma_take_until_bounds(s: Seq<u8>, p: usize, lit: Seq<u8>, partial: bool)
    requires
        fits(s, p),
    ensures
        spec_take_until(s, p, lit, partial) matches Ok(k) ==> p <= k && k + lit.len() <= s.len(),
{
    lemma_find_bounds(s, p, lit);
}

pub proof fn lemma_ws_bounds(s: Seq<u8>, p: usize, partial: bool)
    requires
        fits(s, p),
    ensures
        spec_ws(s, p, partial) matches Ok(q) ==> p <= q <= s.len(),
{
    lemma_take_while_bounds(s, p, 0, CharClass::HorizontalSpace, partial);
}

pub proof fn lemma_quoted_string_bounds(s: Seq<u8>, p: usize, partial: bool)
    requires
        fits(s, p),
    ensures
        spec_quoted_string(s, p, partial) matches Ok((r, v)) ==> p < r <= s.len() && span_in(v, p as int, r as int),
{
    if let Ok(q) = spec_literal(s, p, seq![34u8], false, partial) {
        lemma_take_while_bounds(s, q, 0, CharClass::QuotedText, partial);
    }
}

pub proof fn lemma_take_value_bounds(s: Seq<u8>, p: usize, partial: bool)
    requires
        fits(s, p),
    ensures
        spec_take_value(s, p, partial) matches Ok((r, v)) ==> p < r <= s.len() && span_in(v, p as int, r as int),
{
    lemma_quoted_string_bounds(s, p, partial);
    if let Ok((q, v)) = spec_quoted_string(s, p, partial) {
        lemma_ws_bounds(s, q, partial);
    }
    lemma_take_while_bounds(s, p, 1, CharClass::Token, partial);
    if let Ok(q) = spec_token(s, p, partial) {
        lemma_ws_bounds(s, q, partial);
    }
}

pub proof fn lemma_parameter_bounds(s: Seq<u8>, p: usize, partial: bool)
    requires
        fits(s, p),
    ensures
        spec_parameter(s, p, partial) matches Ok((r, f)) ==> p < r <= s.len() && field_in(f, p as int, r as int),
{
    lemma_take_while_bounds(s, p, 1, CharClass::Token, partial);
    if let Ok(k) = spec_token(s, p, partial) {
        lemma_ws_bounds(s, k, partial);
        if let Ok(q1) = spec_ws(s, k, partial) {
            if let Ok(q2) = spec_literal(s, q1, seq![61u8], false, partial) {
                lemma_ws_bounds(s, q2, partial);
                if let Ok(q3) = spec_ws(s, q2, partial) {
                    lemma_take_value_bounds(s, q3, partial);
                }
            }
        }
    }
}

pub proof fn lemma_field_bounds(s: Seq<u8>, p: usize, partial: bool)
    requires
        fits(s, p),
    ensures
        spec_field(s, p, partial) matches Ok((r, f)) ==> p < r <= s.len() && field_in(f, p as int, r as int),
{
    lemma_ws_bounds(s, p, partial);
    if let Ok(q) = spec_ws(s, p, partial) {
        lemma_parameter_bounds(s, q, partial);
    }
}

pub proof fn lemma_field_sep_bounds(s: Seq<u8>, p: usize, partial: bool)
    requires
        fits(s, p),
    ensures
        spec_field_sep(s, p, partial) matches Ok(q) ==> p < q <= s.len(),
{
    lemma_ws_bounds(s, p, partial);
    if let Ok(q) = spec_ws(s, p, partial) {
        if let Ok(r) = spec_literal(s, q, seq![59u8], false, partial) {
            lemma_ws_bounds(s, r, partial);
        }
    }
}

pub proof fn lemma_accumulate_field_in(d: Disposition, f: Field, lo: int, mid: int, hi: int)
    requires
        disposition_in(d, lo, mid),
        field_in(f, lo, hi),
        mid <= hi,
    ensures
        disposition_in(spec_accumulate_field(d, f), lo, hi),
{
}

pub proof fn lemma_fields_rest_bounds(s: Seq<u8>, p: usize, d: Disposition, lo: int, partial: bool)
    requires
        fits(s, p),
        lo <= p,
        disposition_in(d, lo, p as int),
    ensures
        spec_fields_rest(s, p, d, partial) matches Ok((r, e)) ==> p <= r <= s.len() && disposition_in(e, lo, r as int),
    decreases s.len() - p,
{
    lemma_field_sep_bounds(s, p, partial);
    if let Ok(q) = spec_field_sep(s, p, partial) {
        lemma_field_bounds(s, q, partial);
        if let Ok((r, f)) = spec_field(s, q, partial) {
            lemma_accumulate_field_in(d, f, lo, p as int, r as int);
            lemma_fields_rest_bounds(s, r, spec_accumulate_field(d, f), lo, partial);
        }
    }
}

pub proof fn lemma_content_disposition_bounds(s: Seq<u8>, p: usize, partial: bool)
    requires
        fits(s, p),
    ensures
        spec_content_disposition(s, p, partial) matches Ok((r, h)) ==> p < r <= s.len() && header_in(h, p as int, r as int),
{
    lemma_field_bounds(s, p, partial);
    if let Ok((q, f)) = spec_field(s, p, partial) {
        lemma_accumulate_field_in(empty_disposition(), f, p as int, p as int, q as int);
        lemma_fields_rest_bounds(s, q, spec_accumulate_field(empty_disposition(), f), p as int, partial);
    }
}

pub proof fn lemma_trim_bounds(s: Seq<u8>, a: usize, b: usize)
    requires
        a <= b <= s.len(),
    ensures
        a <= spec_trim_start(s, a, b) <= b,
        spec_trim_start(s, a, b) <= spec_trim_end(s, spec_trim_start(s, a, b), b) <= b,
    decreases b - a,
{
    if a < b && crate::trivia::spec_is_horizontal_space(s[a as int]) {
        lemma_trim_bounds(s, (a + 1) as usize, b);
    }
    lemma_trim_end_bounds(s, spec_trim_start(s, a, b), b);
}

pub proof fn lemma_trim_end_bounds(s: Seq<u8>, a: usize, b: usize)
    requires
        a <= b <= s.len(),
    ensures
        a <= spec_trim_end(s, a, b) <= b,
    decreases b - a,
{
    if a < b && crate::trivia::spec_is_horizontal_space(s[b - 1]) {
        lemma_trim_end_bounds(s, a, (b - 1) as usize);
    }
}

pub proof fn lemma_content_type_bounds(s: Seq<u8>, p: usize, partial: bool)
    requires
        fits(s, p),
    ensures
        spec_content_type(s, p, partial) matches Ok((r, h)) ==> p < r <= s.len() && header_in(h, p as int, r as int),
{
    lemma_take_while_bounds(s, p, 1, CharClass::VisibleAscii, partial);
    if let Ok(e) = spec_take_while(s, p, 1, CharClass::VisibleAscii, partial) {
        lemma_trim_bounds(s, p, e);
    }
}

pub proof fn lemma_header_bounds(s: Seq<u8>, p: usize, partial: bool)
    requires
        fits(s, p),
    ensures
        spec_header(s, p, partial) matches Ok((r, h)) ==> p <= r <= s.len() && header_in(h, p as int, r as int),
{
    lemma_ws_bounds(s, p, partial);
    if let Ok(q) = spec_ws(s, p, partial) {
        if let Ok(r) = spec_literal(s, q, spec_content_disposition_colon(), true, partial) {
            lemma_content_disposition_bounds(s, r, partial);
        }
        if let Ok(r) = spec_literal(s, q, spec_content_type_colon(), true, partial) {
            lemma_content_type_bounds(s, r, partial);
        }
        lemma_take_while_bounds(s, q, 1, CharClass::Token, partial);
        if let Ok(r) = spec_token(s, q, partial) {
            if let Ok(t) = spec_literal(s, r, seq![58u8], false, partial) {
                lemma_ws_bounds(s, t, partial);
                if let Ok(u) = spec_ws(s, t, partial) {
                    lemma_take_until_bounds(s, u, spec_crlf_seq(), partial);
                }
            }
        }
    }
}

pub proof fn lemma_header_line_bounds(s: Seq<u8>, p: usize, partial: bool)
    requires
        fits(s, p),
    ensures
        spec_header_line(s, p, partial) matches Ok((r, h)) ==> p + 2 <= r <= s.len() && header_in(h, p as int, r as int),
{
    lemma_header_bounds(s, p, partial);
    if let Ok((q, h)) = spec_header(s, p, partial) {
        lemma_literal_bounds(s, q, spec_crlf_seq(), false, partial);
    }
}

pub proof fn lemma_headers_end_bounds(s: Seq<u8>, p: usize, partial: bool)
    requires
        fits(s, p),
    ensures
        spec_headers_end(s, p, partial) matches Ok(q) ==> p + 2 <= q <= s.len(),
{
    lemma_ws_bounds(s, p, partial);
}

pub proof fn lemma_headers_rest_bounds(s: Seq<u8>, p: usize, hs: Headers, lo: int, partial: bool)
    requires
        fits(s, p),
        lo <= p,
        headers_in(hs, lo, p as int),
    ensures
        spec_headers_rest(s, p, hs, partial) matches Ok((r, e)) ==> p < r <= s.len() && headers_in(e, lo, r as int),
    decreases s.len() - p,
{
    lemma_headers_end_bounds(s, p, partial);
    lemma_header_line_bounds(s, p, partial);
    if let Ok((q, h)) = spec_header_line(s, p, partial) {
        lemma_headers_rest_bounds(s, q, spec_accumulate_header(hs, h), lo, partial);
    }
}

pub proof fn lemma_entry_info_bounds(s: Seq<u8>, p: usize, partial: bool)
    requires
        fits(s, p),
    ensures
        spec_entry_info(s, p, partial) matches Ok((r, i)) ==> p < r <= s.len() && info_in(i, p as int, r as int),
{
    reveal(spec_entry_info);
    lemma_header_line_bounds(s, p, partial);
    if let Ok((q, h)) = spec_header_line(s, p, partial) {
        lemma_headers_rest_bounds(s, q, spec_accumulate_header(empty_headers(), h), p as int, partial);
    }
}

pub proof fn lemma_find_valid_marker_bounds(s: Seq<u8>, j: usize, m: Seq<u8>, partial: bool)
    requires
        s.len() <= usize::MAX,
    ensures
        spec_find_valid_marker(s, j, m, partial) matches Ok(k) ==> j <= k && occurs_at(s, k as int, m),
    decreases s.len() - j,
{
    lemma_find_bounds(s, j, m);
    if let Some(k) = spec_find(s, j, m) {
        if spec_suffix_status(s, (k + m.len()) as usize, partial) == Status::Invalid && j <= k < s.len() && k < usize::MAX {
            lemma_find_valid_marker_bounds(s, (k + 1) as usize, m, partial);
        }
    }
}

pub proof fn lemma_value_body_bounds(s: Seq<u8>, p: usize, m: Seq<u8>, partial: bool)
    requires
        fits(s, p),
        m.len() >= 2,
        m[0] == 13u8,
        m[1] == 10u8,
    ensures
        spec_value_body(s, p, m, partial) matches Ok((r, v)) ==> p + 2 <= r <= s.len() && v.start == p
            && v.end + 2 == r,
{
    lemma_find_valid_marker_bounds(s, p, m, partial);
}

pub proof fn lemma_delimiter_line_bounds(s: Seq<u8>, p: usize, m: Seq<u8>, partial: bool)
    requires
        fits(s, p),
    ensures
        spec_delimiter_line(s, p, m, partial) matches Ok((q, _)) ==> p < q <= s.len(),
{
    if let Ok(q1) = spec_literal(s, p, spec_dashes(), false, partial) {
        if let Ok(q2) = spec_literal(s, q1, boundary_of(m), false, partial) {
            lemma_headers_end_bounds(s, q2, partial);
        }
    }
}

pub proof fn lemma_close_tail_bounds(s: Seq<u8>, p: usize)
    requires
        fits(s, p),
    ensures
        p <= spec_close_tail(s, p) <= s.len(),
{
    lemma_scan(s, p, CharClass::HorizontalSpace);
}

} // verus!

verus! {

/// A slice's length fits in a `usize`.
pub proof fn lemma_slice_fits(s: &[u8])
    ensures
        s@.len() <= usize::MAX,
{
    assert(s@.len() == s.len());
}

} // verus!
