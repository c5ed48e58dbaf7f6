//! A rule that decides on a partial input decides the same on every
//! extension of it, in either mode.
use vstd::prelude::*;

use crate::bounds::{lemma_delimiter_line_bounds, lemma_field_bounds, lemma_field_sep_bounds, lemma_header_bounds, lemma_header_line_bounds, lemma_quoted_string_bounds, lemma_take_while_bounds, lemma_trim_bounds, lemma_ws_bounds};
use crate::error::Failure;
use crate::grammar::{Disposition, Headers, boundary_of, byte_eq, empty_disposition, empty_headers, lit_agrees, occurs_at, spec_accumulate_field, spec_accumulate_header, spec_content_disposition, spec_content_disposition_colon, spec_content_type, spec_content_type_colon, spec_crlf_seq, spec_dashes, spec_delimiter_line, spec_entry_head, spec_entry_info, spec_field, spec_field_sep, spec_fields_rest, spec_find, spec_form_data, spec_header, spec_header_line, spec_headers_end, spec_headers_rest, spec_literal, spec_other_header_rest, spec_parameter, spec_quoted_string, spec_take_until, spec_take_value, spec_take_while, spec_token, spec_ws};
use crate::trivia::{CharClass, all_in_class, lemma_scan, lemma_scan_unique, spec_in_class, spec_scan, spec_trim_end, spec_trim_start};

verus! {

/// `s` is a prefix of `x`.
pub open spec fn is_prefix(s: Seq<u8>, x: Seq<u8>) -> bool {
    s.len() <= x.len() && forall|i: int| 0 <= i < s.len() ==> #[trigger] s[i] == x[i]
}

/// The rule did not ask for more input.
pub open spec fn decided<T>(r: Result<T, Failure>) -> bool {
    !(r matches Err(Failure::Incomplete))
}

/// The premises shared by the stability lemmas.
pub open spec fn extends(s: Seq<u8>, x: Seq<u8>, p: usize) -> bool {
    &&& p <= s.len()
    &&& is_prefix(s, x)
    &&& x.len() <= usize::MAX
}

pub proof fn lemma_literal_stable(s: Seq<u8>, x: Seq<u8>, p: usize, lit: Seq<u8>, caseless: bool, mode: bool)
    requires
        extends(s, x, p),
    ensures
        decided(spec_literal(s, p, lit, caseless, true)) ==> spec_literal(x, p, lit, caseless, mode)
            == spec_literal(s, p, lit, caseless, true),
{
    if !lit_agrees(s, p, lit, caseless) {
        let i = choose|i: int| 0 <= i < lit.len() && p + i < s.len() && !byte_eq(#[trigger] s[p + i], lit[i], caseless);
        assert(x[p + i] == s[p + i]);
        assert(!lit_agrees(x, p, lit, caseless));
    } else if p + lit.len() <= s.len() {
        assert forall|i: int| 0 <= i < lit.len() && p + i < x.len() implies byte_eq(#[trigger] x[p + i], lit[i], caseless) by {
            assert(s[p + i] == x[p + i]);
        }
    }
}

pub proof fn lemma_scan_stable(s: Seq<u8>, x: Seq<u8>, p: usize, c: CharClass)
    requires
        extends(s, x, p),
        spec_scan(s, p, c) < s.len(),
    ensures
        spec_scan(x, p, c) == spec_scan(s, p, c),
{
    lemma_scan(s, p, c);
    let e = spec_scan(s, p, c);
    assert(all_in_class(x, p as int, e as int, c)) by {
        assert forall|i: int| p <= i < e implies spec_in_class(c, #[trigger] x[i]) by {
            assert(s[i] == x[i]);
        }
    }
    assert(s[e as int] == x[e as int]);
    lemma_scan_unique(x, p, c, e);
}

pub proof fn lemma_take_while_stable(s: Seq<u8>, x: Seq<u8>, p: usize, min: usize, c: CharClass, mode: bool)
    requires
        extends(s, x, p),
    ensures
        decided(spec_take_while(s, p, min, c, true)) ==> spec_take_while(x, p, min, c, mode)
            == spec_take_while(s, p, min, c, true),
{
    lemma_scan(s, p, c);
    if spec_scan(s, p, c) < s.len() {
        lemma_scan_stable(s, x, p, c);
    }
}

/// `spec_find` gives the first occurrence.
pub proof fn lemma_find_first(s: Seq<u8>, j: usize, lit: Seq<u8>)
    requires
        lit.len() >= 1,
        s.len() <= usize::MAX,
    ensures
        spec_find(s, j, lit) matches Some(k) ==> (j <= k && occurs_at(s, k as int, lit) && forall|i: int|
            j <= i < k ==> !occurs_at(s, i, lit)),
        spec_find(s, j, lit) is None ==> forall|i: int| j <= i ==> !occurs_at(s, i, lit),
    decreases s.len() - j,
{
    if !(j + lit.len() > s.len() || j == usize::MAX) && !occurs_at(s, j as int, lit) {
        lemma_find_first(s, (j + 1) as usize, lit);
    }
}

/// The first occurrence at or after `j` is `k` when nothing occurs in between.
pub proof fn lemma_find_unique(s: Seq<u8>, j: usize, k: usize, lit: Seq<u8>)
    requires
        lit.len() >= 1,
        s.len() <= usize::MAX,
        j <= k,
        occurs_at(s, k as int, lit),
        forall|i: int| j <= i < k ==> !occurs_at(s, i, lit),
    ensures
        spec_find(s, j, lit) == Some(k),
    decreases k - j,
{
    if j < k {
        lemma_find_unique(s, (j + 1) as usize, k, lit);
    }
}

/// Searching from `j` or from a later `j2` agrees when nothing occurs in between.
pub proof fn lemma_find_skip(s: Seq<u8>, j: usize, j2: usize, lit: Seq<u8>)
    requires
        lit.len() >= 1,
        s.len() <= usize::MAX,
        j <= j2,
        forall|i: int| j <= i < j2 ==> !occurs_at(s, i, lit),
    ensures
        spec_find(s, j, lit) == spec_find(s, j2, lit),
    decreases j2 - j,
{
    if j < j2 {
        if !(j + lit.len() > s.len() || j == usize::MAX) {
            lemma_find_skip(s, (j + 1) as usize, j2, lit);
        } else {
            lemma_find_first(s, j2, lit);
            if spec_find(s, j2, lit) is Some {
                let k = spec_find(s, j2, lit)->Some_0;
                assert(occurs_at(s, k as int, lit));
            }
        }
    }
}

pub proof fn lemma_occurs_stable(s: Seq<u8>, x: Seq<u8>, k: int, lit: Seq<u8>)
    requires
        is_prefix(s, x),
        0 <= k,
        k + lit.len() <= s.len(),
    ensures
        occurs_at(x, k, lit) == occurs_at(s, k, lit),
{
    if occurs_at(s, k, lit) {
        assert forall|i: int| 0 <= i < lit.len() implies #[trigger] x[k + i] == lit[i] by {
            assert(s[k + i] == x[k + i]);
        }
    }
    if occurs_at(x, k, lit) {
        assert forall|i: int| 0 <= i < lit.len() implies #[trigger] s[k + i] == lit[i] by {
            assert(s[k + i] == x[k + i]);
        }
    }
}

pub proof fn lemma_find_stable(s: Seq<u8>, x: Seq<u8>, j: usize, lit: Seq<u8>)
    requires
        lit.len() >= 1,
        extends(s, x, j),
    ensures
        spec_find(s, j, lit) is Some ==> spec_find(x, j, lit) == spec_find(s, j, lit),
{
    lemma_find_first(s, j, lit);
    if let Some(k) = spec_find(s, j, lit) {
        lemma_occurs_stable(s, x, k as int, lit);
        assert forall|i: int| j <= i < k implies !occurs_at(x, i, lit) by {
            lemma_occurs_stable(s, x, i, lit);
        }
        lemma_find_unique(x, j, k, lit);
    }
}

pub proof fn lemma_take_until_stable(s: Seq<u8>, x: Seq<u8>, p: usize, lit: Seq<u8>, mode: bool)
    requires
        lit.len() >= 1,
        extends(s, x, p),
    ensures
        decided(spec_take_until(s, p, lit, true)) ==> spec_take_until(x, p, lit, mode)
            == spec_take_until(s, p, lit, true),
{
    lemma_find_stable(s, x, p, lit);
}

pub proof fn lemma_ws_stable(s: Seq<u8>, x: Seq<u8>, p: usize, mode: bool)
    requires
        extends(s, x, p),
    ensures
        decided(spec_ws(s, p, true)) ==> spec_ws(x, p, mode) == spec_ws(s, p, true),
        spec_ws(s, p, true) matches Ok(q) ==> p <= q <= s.len(),
{
    lemma_take_while_stable(s, x, p, 0, CharClass::HorizontalSpace, mode);
    lemma_ws_bounds(s, p, true);
}

pub proof fn lemma_token_stable(s: Seq<u8>, x: Seq<u8>, p: usize, mode: bool)
    requires
        extends(s, x, p),
    ensures
        decided(spec_token(s, p, true)) ==> spec_token(x, p, mode) == spec_token(s, p, true),
        spec_token(s, p, true) matches Ok(q) ==> p < q <= s.len(),
{
    lemma_take_while_stable(s, x, p, 1, CharClass::Token, mode);
    lemma_take_while_bounds(s, p, 1, CharClass::Token, true);
}

pub proof fn lemma_lit_stable_b(s: Seq<u8>, x: Seq<u8>, p: usize, lit: Seq<u8>, caseless: bool, mode: bool)
    requires
        extends(s, x, p),
    ensures
        decided(spec_literal(s, p, lit, caseless, true)) ==> spec_literal(x, p, lit, caseless, mode)
            == spec_literal(s, p, lit, caseless, true),
        spec_literal(s, p, lit, caseless, true) matches Ok(q) ==> q == p + lit.len() <= s.len(),
{
    lemma_literal_stable(s, x, p, lit, caseless, mode);
}

pub proof fn lemma_quoted_string_stable(s: Seq<u8>, x: Seq<u8>, p: usize, mode: bool)
    requires
        extends(s, x, p),
    ensures
        decided(spec_quoted_string(s, p, true)) ==> spec_quoted_string(x, p, mode) == spec_quoted_string(s, p, true),
{
    lemma_lit_stable_b(s, x, p, seq![34u8], false, mode);
    if let Ok(q) = spec_literal(s, p, seq![34u8], false, true) {
        lemma_take_while_stable(s, x, q, 0, CharClass::QuotedText, mode);
        lemma_take_while_bounds(s, q, 0, CharClass::QuotedText, true);
        if let Ok(e) = spec_take_while(s, q, 0, CharClass::QuotedText, true) {
            lemma_lit_stable_b(s, x, e, seq![34u8], false, mode);
        }
    }
}

pub proof fn lemma_take_value_stable(s: Seq<u8>, x: Seq<u8>, p: usize, mode: bool)
    requires
        extends(s, x, p),
    ensures
        decided(spec_take_value(s, p, true)) ==> spec_take_value(x, p, mode) == spec_take_value(s, p, true),
{
    lemma_quoted_string_stable(s, x, p, mode);
    lemma_quoted_string_bounds(s, p, true);
    if let Ok((q, v)) = spec_quoted_string(s, p, true) {
        lemma_ws_stable(s, x, q, mode);
    }
    lemma_token_stable(s, x, p, mode);
    if let Ok(q) = spec_token(s, p, true) {
        lemma_ws_stable(s, x, q, mode);
    }
}

pub proof fn lemma_parameter_stable(s: Seq<u8>, x: Seq<u8>, p: usize, mode: bool)
    requires
        extends(s, x, p),
    ensures
        decided(spec_parameter(s, p, true)) ==> spec_parameter(x, p, mode) == spec_parameter(s, p, true),
{
    lemma_token_stable(s, x, p, mode);
    if let Ok(k) = spec_token(s, p, true) {
        lemma_ws_stable(s, x, k, mode);
        if let Ok(q1) = spec_ws(s, k, true) {
            lemma_lit_stable_b(s, x, q1, seq![61u8], false, mode);
            if let Ok(q2) = spec_literal(s, q1, seq![61u8], false, true) {
                lemma_ws_stable(s, x, q2, mode);
                if let Ok(q3) = spec_ws(s, q2, true) {
                    lemma_take_value_stable(s, x, q3, mode);
                    assert(s.subrange(p as int, k as int) =~= x.subrange(p as int, k as int));
                }
            }
        }
    }
}

pub proof fn lemma_field_stable(s: Seq<u8>, x: Seq<u8>, p: usize, mode: bool)
    requires
        extends(s, x, p),
    ensures
        decided(spec_field(s, p, true)) ==> spec_field(x, p, mode) == spec_field(s, p, true),
{
    lemma_ws_stable(s, x, p, mode);
    if let Ok(q) = spec_ws(s, p, true) {
        lemma_lit_stable_b(s, x, q, spec_form_data(), true, mode);
        lemma_parameter_stable(s, x, q, mode);
    }
}

pub proof fn lemma_field_sep_stable(s: Seq<u8>, x: Seq<u8>, p: usize, mode: bool)
    requires
        extends(s, x, p),
    ensures
        decided(spec_field_sep(s, p, true)) ==> spec_field_sep(x, p, mode) == spec_field_sep(s, p, true),
{
    lemma_ws_stable(s, x, p, mode);
    if let Ok(q) = spec_ws(s, p, true) {
        lemma_lit_stable_b(s, x, q, seq![59u8], false, mode);
        if let Ok(r) = spec_literal(s, q, seq![59u8], false, true) {
            lemma_ws_stable(s, x, r, mode);
        }
    }
}

pub proof fn lemma_fields_rest_stable(s: Seq<u8>, x: Seq<u8>, p: usize, d: Disposition, mode: bool)
    requires
        extends(s, x, p),
    ensures
        decided(spec_fields_rest(s, p, d, true)) ==> spec_fields_rest(x, p, d, mode) == spec_fields_rest(s, p, d, true),
    decreases s.len() - p,
{
    lemma_field_sep_stable(s, x, p, mode);
    lemma_field_sep_bounds(s, p, true);
    if let Ok(q) = spec_field_sep(s, p, true) {
        lemma_field_stable(s, x, q, mode);
        lemma_field_bounds(s, q, true);
        if let Ok((r, f)) = spec_field(s, q, true) {
            lemma_fields_rest_stable(s, x, r, spec_accumulate_field(d, f), mode);
        }
    }
}

pub proof fn lemma_content_disposition_stable(s: Seq<u8>, x: Seq<u8>, p: usize, mode: bool)
    requires
        extends(s, x, p),
    ensures
        decided(spec_content_disposition(s, p, true)) ==> spec_content_disposition(x, p, mode)
            == spec_content_disposition(s, p, true),
{
    lemma_field_stable(s, x, p, mode);
    lemma_field_bounds(s, p, true);
    if let Ok((q, f)) = spec_field(s, p, true) {
        lemma_fields_rest_stable(s, x, q, spec_accumulate_field(empty_disposition(), f), mode);
    }
}

pub proof fn lemma_trim_start_stable(s: Seq<u8>, x: Seq<u8>, a: usize, b: usize)
    requires
        is_prefix(s, x),
        a <= b <= s.len(),
    ensures
        spec_trim_start(x, a, b) == spec_trim_start(s, a, b),
    decreases b - a,
{
    if a < b {
        assert(s[a as int] == x[a as int]);
        lemma_trim_start_stable(s, x, (a + 1) as usize, b);
    }
}

pub proof fn lemma_trim_end_stable(s: Seq<u8>, x: Seq<u8>, a: usize, b: usize)
    requires
        is_prefix(s, x),
        a <= b <= s.len(),
    ensures
        spec_trim_end(x, a, b) == spec_trim_end(s, a, b),
    decreases b - a,
{
    if a < b {
        assert(s[b - 1] == x[b - 1]);
        lemma_trim_end_stable(s, x, a, (b - 1) as usize);
    }
}

pub proof fn lemma_content_type_stable(s: Seq<u8>, x: Seq<u8>, p: usize, mode: bool)
    requires
        extends(s, x, p),
    ensures
        decided(spec_content_type(s, p, true)) ==> spec_content_type(x, p, mode) == spec_content_type(s, p, true),
{
    lemma_take_while_stable(s, x, p, 1, CharClass::VisibleAscii, mode);
    lemma_take_while_bounds(s, p, 1, CharClass::VisibleAscii, true);
    if let Ok(e) = spec_take_while(s, p, 1, CharClass::VisibleAscii, true) {
        lemma_trim_start_stable(s, x, p, e);
        lemma_trim_bounds(s, p, e);
        lemma_trim_end_stable(s, x, spec_trim_start(s, p, e), e);
    }
}

pub proof fn lemma_other_header_rest_stable(s: Seq<u8>, x: Seq<u8>, p: usize, mode: bool)
    requires
        extends(s, x, p),
    ensures
        decided(spec_other_header_rest(s, p, true)) ==> spec_other_header_rest(x, p, mode)
            == spec_other_header_rest(s, p, true),
{
    lemma_lit_stable_b(s, x, p, seq![58u8], false, mode);
    if let Ok(q) = spec_literal(s, p, seq![58u8], false, true) {
        lemma_ws_stable(s, x, q, mode);
        if let Ok(r) = spec_ws(s, q, true) {
            lemma_take_until_stable(s, x, r, spec_crlf_seq(), mode);
        }
    }
}

pub proof fn lemma_header_stable(s: Seq<u8>, x: Seq<u8>, p: usize, mode: bool)
    requires
        extends(s, x, p),
    ensures
        decided(spec_header(s, p, true)) ==> spec_header(x, p, mode) == spec_header(s, p, true),
{
    lemma_ws_stable(s, x, p, mode);
    if let Ok(q) = spec_ws(s, p, true) {
        lemma_lit_stable_b(s, x, q, spec_content_disposition_colon(), true, mode);
        if let Ok(r) = spec_literal(s, q, spec_content_disposition_colon(), true, true) {
            lemma_content_disposition_stable(s, x, r, mode);
        }
        lemma_lit_stable_b(s, x, q, spec_content_type_colon(), true, mode);
        if let Ok(r) = spec_literal(s, q, spec_content_type_colon(), true, true) {
            lemma_content_type_stable(s, x, r, mode);
        }
        lemma_token_stable(s, x, q, mode);
        if let Ok(r) = spec_token(s, q, true) {
            lemma_other_header_rest_stable(s, x, r, mode);
        }
    }
}

pub proof fn lemma_header_line_stable(s: Seq<u8>, x: Seq<u8>, p: usize, mode: bool)
    requires
        extends(s, x, p),
    ensures
        decided(spec_header_line(s, p, true)) ==> spec_header_line(x, p, mode) == spec_header_line(s, p, true),
{
    lemma_header_stable(s, x, p, mode);
    lemma_header_bounds(s, p, true);
    if let Ok((q, h)) = spec_header(s, p, true) {
        lemma_lit_stable_b(s, x, q, spec_crlf_seq(), false, mode);
    }
}

pub proof fn lemma_headers_end_stable(s: Seq<u8>, x: Seq<u8>, p: usize, mode: bool)
    requires
        extends(s, x, p),
    ensures
        decided(spec_headers_end(s, p, true)) ==> spec_headers_end(x, p, mode) == spec_headers_end(s, p, true),
{
    lemma_ws_stable(s, x, p, mode);
    if let Ok(q) = spec_ws(s, p, true) {
        lemma_lit_stable_b(s, x, q, spec_crlf_seq(), false, mode);
    }
}

pub proof fn lemma_headers_rest_stable(s: Seq<u8>, x: Seq<u8>, p: usize, hs: Headers, mode: bool)
    requires
        extends(s, x, p),
    ensures
        decided(spec_headers_rest(s, p, hs, true)) ==> spec_headers_rest(x, p, hs, mode)
            == spec_headers_rest(s, p, hs, true),
    decreases s.len() - p,
{
    lemma_headers_end_stable(s, x, p, mode);
    lemma_header_line_stable(s, x, p, mode);
    lemma_header_line_bounds(s, p, true);
    if let Ok((q, h)) = spec_header_line(s, p, true) {
        lemma_headers_rest_stable(s, x, q, spec_accumulate_header(hs, h), mode);
    }
}

pub proof fn lemma_entry_info_stable(s: Seq<u8>, x: Seq<u8>, p: usize, mode: bool)
    requires
        extends(s, x, p),
    ensures
        decided(spec_entry_info(s, p, true)) ==> spec_entry_info(x, p, mode) == spec_entry_info(s, p, true),
{
    reveal(spec_entry_info);
    lemma_header_line_stable(s, x, p, mode);
    lemma_header_line_bounds(s, p, true);
    if let Ok((q, h)) = spec_header_line(s, p, true) {
        lemma_headers_rest_stable(s, x, q, spec_accumulate_header(empty_headers(), h), mode);
    }
}

pub proof fn lemma_delimiter_line_stable(s: Seq<u8>, x: Seq<u8>, p: usize, m: Seq<u8>, mode: bool)
    requires
        extends(s, x, p),
    ensures
        decided(spec_delimiter_line(s, p, m, true)) ==> spec_delimiter_line(x, p, m, mode)
            == spec_delimiter_line(s, p, m, true),
{
    lemma_lit_stable_b(s, x, p, spec_dashes(), false, mode);
    if let Ok(q1) = spec_literal(s, p, spec_dashes(), false, true) {
        lemma_lit_stable_b(s, x, q1, boundary_of(m), false, mode);
        if let Ok(q2) = spec_literal(s, q1, boundary_of(m), false, true) {
            lemma_lit_stable_b(s, x, q2, spec_dashes(), false, mode);
            lemma_headers_end_stable(s, x, q2, mode);
        }
    }
}

pub proof fn lemma_entry_head_stable(s: Seq<u8>, x: Seq<u8>, p: usize, m: Seq<u8>, mode: bool)
    requires
        extends(s, x, p),
    ensures
        decided(spec_entry_head(s, p, m, true)) ==> spec_entry_head(x, p, m, mode) == spec_entry_head(s, p, m, true),
{
    lemma_delimiter_line_stable(s, x, p, m, mode);
    lemma_delimiter_line_bounds(s, p, m, true);
    if let Ok((q, close)) = spec_delimiter_line(s, p, m, true) {
        lemma_entry_info_stable(s, x, q, mode);
    }
}

} // verus!
