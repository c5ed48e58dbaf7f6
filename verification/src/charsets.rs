//! What the grammar's byte classes and header bookkeeping mean, stated
//! independently of how they are written down.
use vstd::prelude::*;

use crate::error::Failure;
use crate::grammar::{byte_eq, Disposition, Field, spec_accumulate_field, Header, Headers, Span, empty_headers, lit_agrees, spec_boundary_param, spec_boundary_seq, spec_field_sep, spec_literal, spec_media_param, spec_multipart_form_data, spec_params_boundary, spec_quoted_string, spec_take_value, spec_ws, spec_accumulate_header, spec_entry_info, spec_header_line, spec_headers_end, spec_headers_rest};
use crate::state::spec_is_boundary_byte;
use crate::trivia::{CharClass, all_in_class, lemma_scan_unique, spec_eq_ignore_case, spec_in_class, spec_is_token};
use crate::{span_view, spec_boundary_from_content_type};

verus! {

/// An ASCII letter or digit, by its characters.
pub open spec fn ascii_alphanumeric(b: u8) -> bool {
    ||| ('0' as u8) <= b <= ('9' as u8)
    ||| ('a' as u8) <= b <= ('z' as u8)
    ||| ('A' as u8) <= b <= ('Z' as u8)
}

/// RFC 2046 `bchars`: `DIGIT / ALPHA / "'" / "(" / ")" / "+" / "_" / "," / "-" / "." / "/" / ":" / "=" / "?" / " "`.
pub open spec fn rfc2046_bchar(b: u8) -> bool {
    ||| ascii_alphanumeric(b)
    ||| b == ('\'' as u8) || b == ('(' as u8) || b == (')' as u8) || b == ('+' as u8)
    ||| b == ('_' as u8) || b == (',' as u8) || b == ('-' as u8) || b == ('.' as u8)
    ||| b == ('/' as u8) || b == (':' as u8) || b == ('=' as u8) || b == ('?' as u8)
    ||| b == (' ' as u8)
}

/// RFC 7230 `tchar`: `"!" / "#" / "$" / "%" / "&" / "'" / "*" / "+" / "-" / "." / "^" / "_" / "`" / "|" / "~" / DIGIT / ALPHA`.
pub open spec fn rfc7230_tchar(b: u8) -> bool {
    ||| ascii_alphanumeric(b)
    ||| b == ('!' as u8) || b == ('#' as u8) || b == ('$' as u8) || b == ('%' as u8)
    ||| b == ('&' as u8) || b == ('\'' as u8) || b == ('*' as u8) || b == ('+' as u8)
    ||| b == ('-' as u8) || b == ('.' as u8) || b == ('^' as u8) || b == ('_' as u8)
    ||| b == ('`' as u8) || b == ('|' as u8) || b == ('~' as u8)
}

/// A boundary may hold exactly the RFC 2046 `bchars`: every letter, every
/// digit, and `'()+_,-./:=?` and space.
pub proof fn law_boundary_bytes_are_bchars(b: u8)
    ensures
        spec_is_boundary_byte(b) <==> rfc2046_bchar(b),
{
}

/// A token may hold exactly the RFC 7230 `tchar`s: every letter, every
/// digit, and ``!#$%&'*+-.^_`|~``.
pub proof fn law_token_bytes_are_tchars(b: u8)
    ensures
        spec_is_token(b) <==> rfc7230_tchar(b),
{
}

/// Each header sets only its own fields of a part's metadata: a
/// `Content-Disposition` header never touches the content type, a
/// `Content-Type` header never touches the name or filename, and any other
/// header touches nothing.
pub proof fn law_headers_set_only_their_fields(hs: Headers, h: Header)
    ensures
        !(h is ContentType) ==> spec_accumulate_header(hs, h).content_type == hs.content_type,
        !(h is ContentDisposition) ==> spec_accumulate_header(hs, h).name == hs.name
            && spec_accumulate_header(hs, h).filename == hs.filename,
        h matches Header::ContentType(c) ==> spec_accumulate_header(hs, h).content_type == Some(c),
        h matches Header::ContentDisposition { name, filename } ==> spec_accumulate_header(hs, h).name == Some(name)
            && spec_accumulate_header(hs, h).filename == filename,
{
}

/// The metadata that the headers `hseq`, read in order, leave behind.
pub open spec fn fold_headers(hs: Headers, hseq: Seq<Header>) -> Headers
    decreases hseq.len(),
{
    if hseq.len() == 0 {
        hs
    } else {
        fold_headers(spec_accumulate_header(hs, hseq[0]), hseq.drop_first())
    }
}

/// The value of the last `Content-Type` header in `hseq`, else `dflt`.
pub open spec fn last_content_type(hseq: Seq<Header>, dflt: Option<Span>) -> Option<Span>
    decreases hseq.len(),
{
    if hseq.len() == 0 {
        dflt
    } else {
        last_content_type(
            hseq.drop_first(),
            match hseq[0] {
                Header::ContentType(c) => Some(c),
                _ => dflt,
            },
        )
    }
}

/// The name and filename of the last `Content-Disposition` header in `hseq`,
/// else `dflt`.
pub open spec fn last_disposition(hseq: Seq<Header>, dflt: (Option<Span>, Option<Span>)) -> (Option<Span>, Option<Span>)
    decreases hseq.len(),
{
    if hseq.len() == 0 {
        dflt
    } else {
        last_disposition(
            hseq.drop_first(),
            match hseq[0] {
                Header::ContentDisposition { name, filename } => (Some(name), filename),
                _ => dflt,
            },
        )
    }
}

/// Header order does not matter across kinds: a part's content type is that
/// of its last `Content-Type` header wherever the `Content-Disposition` and
/// other headers stand, and its name and filename those of its last
/// `Content-Disposition` header wherever the `Content-Type` and other
/// headers stand.
pub proof fn law_last_header_of_each_kind_wins(hs: Headers, hseq: Seq<Header>)
    ensures
        fold_headers(hs, hseq).content_type == last_content_type(hseq, hs.content_type),
        (fold_headers(hs, hseq).name, fold_headers(hs, hseq).filename) == last_disposition(
            hseq,
            (hs.name, hs.filename),
        ),
    decreases hseq.len(),
{
    if hseq.len() > 0 {
        law_headers_set_only_their_fields(hs, hseq[0]);
        law_last_header_of_each_kind_wins(spec_accumulate_header(hs, hseq[0]), hseq.drop_first());
    }
}

/// `hseq` are the header lines of `s` read from `p`, each tried after the
/// blank line is not found, and the blank line that ends the headers ends
/// at `r`.
pub open spec fn header_lines(s: Seq<u8>, p: usize, r: usize, hseq: Seq<Header>, partial: bool) -> bool
    decreases hseq.len(),
{
    if hseq.len() == 0 {
        spec_headers_end(s, p, partial) == Ok::<usize, Failure>(r)
    } else {
        &&& spec_headers_end(s, p, partial) matches Err(Failure::Backtrack(_))
        &&& spec_header_line(s, p, partial) matches Ok((q, h)) && h == hseq[0] && p < q <= s.len() && header_lines(
            s,
            q,
            r,
            hseq.drop_first(),
            partial,
        )
    }
}

proof fn lemma_headers_rest_lines(s: Seq<u8>, p: usize, hs: Headers, partial: bool) -> (hseq: Seq<Header>)
    ensures
        spec_headers_rest(s, p, hs, partial) matches Ok((r, hs2)) ==> header_lines(s, p, r, hseq, partial) && hs2
            == fold_headers(hs, hseq),
    decreases s.len() - p,
{
    match spec_headers_end(s, p, partial) {
        Ok(q) => {
            let hseq = Seq::<Header>::empty();
            hseq
        },
        Err(Failure::Backtrack(_)) => match spec_header_line(s, p, partial) {
            Ok((q, h)) => if p < q <= s.len() {
                let rest = lemma_headers_rest_lines(s, q, spec_accumulate_header(hs, h), partial);
                let hseq = seq![h] + rest;
                assert(hseq.drop_first() =~= rest);
                assert(hseq[0] == h);
                hseq
            } else {
                Seq::empty()
            },
            Err(_) => Seq::empty(),
        },
        Err(_) => Seq::empty(),
    }
}

/// The header lines read between the stream position and the blank line are
/// all the metadata headers say.
pub proof fn law_headers_read_are_folded(s: Seq<u8>, p: usize, hs: Headers, partial: bool)
    ensures
        spec_headers_rest(s, p, hs, partial) matches Ok((r, hs2)) ==> exists|hseq: Seq<Header>|
            header_lines(s, p, r, hseq, partial) && hs2 == #[trigger] fold_headers(hs, hseq),
{
    let hseq = lemma_headers_rest_lines(s, p, hs, partial);
}

/// A part's metadata is exactly what its header lines say, nothing dropped
/// or added: its name and filename are those of its last
/// `Content-Disposition` header (an empty filename included), and its
/// content type is the value of its last `Content-Type` header, whatever the
/// order of the lines.
pub proof fn law_entry_metadata_is_its_headers(s: Seq<u8>, p: usize, partial: bool)
    ensures
        spec_entry_info(s, p, partial) matches Ok((r, info)) ==> exists|hseq: Seq<Header>|
            #![trigger last_content_type(hseq, None)]
            {
                &&& hseq.len() >= 1
                &&& spec_header_line(s, p, partial) matches Ok((q, h)) && h == hseq[0] && header_lines(
                    s,
                    q,
                    r,
                    hseq.drop_first(),
                    partial,
                )
                &&& last_disposition(hseq, (None, None)) == (Some(info.name), info.filename)
                &&& last_content_type(hseq, None) == info.content_type
            },
{
    reveal(spec_entry_info);
    if let Ok((q, h)) = spec_header_line(s, p, partial) {
        let hs0 = spec_accumulate_header(empty_headers(), h);
        let rest = lemma_headers_rest_lines(s, q, hs0, partial);
        if let Ok((r, hs2)) = spec_headers_rest(s, q, hs0, partial) {
            let hseq = seq![h] + rest;
            assert(hseq.drop_first() =~= rest);
            assert(hseq[0] == h);
            law_last_header_of_each_kind_wins(empty_headers(), hseq);
            assert(fold_headers(empty_headers(), hseq) == fold_headers(hs0, rest));
        }
    }
}

/// Parameters of a `Content-Disposition` header are separated by `;` with
/// optional space or tab on either side: after any run of space before the
/// `;` and any run, possibly empty, after it, the next parameter starts at
/// the first other byte.
pub proof fn law_parameter_separator_space_is_optional(s: Seq<u8>, p: usize, q: usize, t: usize, partial: bool)
    requires
        p <= q < t < s.len() <= usize::MAX,
        forall|i: int| p <= i < q ==> s[i] == (' ' as u8) || s[i] == ('\t' as u8),
        s[q as int] == (';' as u8),
        forall|i: int| q < i < t ==> s[i] == (' ' as u8) || s[i] == ('\t' as u8),
        s[t as int] != (' ' as u8) && s[t as int] != ('\t' as u8),
    ensures
        spec_field_sep(s, p, partial) == Ok::<usize, Failure>(t),
{
    let hs = CharClass::HorizontalSpace;
    assert(all_in_class(s, p as int, q as int, hs));
    lemma_scan_unique(s, p, hs, q);
    assert(all_in_class(s, (q + 1) as int, t as int, hs));
    lemma_scan_unique(s, (q + 1) as usize, hs, t);
}

/// `multipart/form-data; boundary=`
pub open spec fn boundary_header_prefix() -> Seq<u8> {
    spec_multipart_form_data() + seq![59u8, 32u8] + spec_boundary_seq() + seq![61u8]
}

/// The bytes from 30 on form a plain token value.
pub open spec fn plain_value_from_30(x: Seq<u8>) -> bool {
    &&& x.len() > 30
    &&& forall|i: int| 30 <= i < x.len() ==> spec_in_class(CharClass::Token, #[trigger] x[i]) && !spec_in_class(
        CharClass::HorizontalSpace,
        x[i],
    ) && x[i] != 34u8
}

proof fn lemma_plain_value(x: Seq<u8>)
    requires
        x.len() <= usize::MAX,
        plain_value_from_30(x),
    ensures
        spec_take_value(x, 30, false) == Ok::<(usize, Span), Failure>(
            (x.len() as usize, Span { start: 30, end: x.len() as usize }),
        ),
{
    let n = x.len() as usize;
    let hs = CharClass::HorizontalSpace;
    let tk = CharClass::Token;
    assert(x[30] != 34u8);
    assert(x[30int + 0int] == x[30]);
    assert(!byte_eq(x[30int + 0int], seq![34u8][0], false));
    assert(!lit_agrees(x, 30, seq![34u8], false));
    assert(spec_quoted_string(x, 30, false) matches Err(Failure::Backtrack(_)));
    assert(all_in_class(x, 30, n as int, tk));
    lemma_scan_unique(x, 30, tk, n);
    lemma_scan_unique(x, n, hs, n);
}

proof fn lemma_boundary_param_of(x: Seq<u8>)
    requires
        x.len() <= usize::MAX,
        plain_value_from_30(x),
        x[19] == 59u8,
        x[20] == 32u8,
        x.subrange(21, 29) == spec_boundary_seq(),
        x[29] == 61u8,
    ensures
        spec_params_boundary(x, 19, None) == Some(Span { start: 30, end: x.len() as usize }),
{
    let n = x.len() as usize;
    let hs = CharClass::HorizontalSpace;
    let tk = CharClass::Token;
    assert(lit_agrees(x, 19, seq![59u8], false));
    assert(spec_literal(x, 19, seq![59u8], false, false) == Ok::<usize, Failure>(20));
    assert(all_in_class(x, 20, 21, hs));
    lemma_scan_unique(x, 20, hs, 21);
    assert forall|i: int| 21 <= i < 29 implies spec_in_class(tk, #[trigger] x[i]) by {
        assert(x[i] == x.subrange(21, 29)[i - 21]);
    }
    assert(x[29] == 61u8);
    lemma_scan_unique(x, 21, tk, 29);
    lemma_scan_unique(x, 29, hs, 29);
    assert(lit_agrees(x, 29, seq![61u8], false));
    lemma_scan_unique(x, 30, hs, 30);
    lemma_plain_value(x);
    assert(spec_media_param(x, 19) == Some((n, Span { start: 21, end: 29 }, Span { start: 30, end: n })));
    assert(spec_eq_ignore_case(x.subrange(21, 29), spec_boundary_seq()));
    assert(spec_params_boundary(x, n, Some(Span { start: 30, end: n })) == Some(Span { start: 30, end: n }));
}

/// A plain boundary made of letters, digits and `-` is read back from the
/// Content-Type value `multipart/form-data; boundary=` followed by it.
pub proof fn law_plain_boundary_is_extracted(b: Seq<u8>)
    requires
        1 <= b.len() <= 70,
        forall|i: int| 0 <= i < b.len() ==> ascii_alphanumeric(#[trigger] b[i]) || b[i] == ('-' as u8),
    ensures
        spec_boundary_from_content_type(boundary_header_prefix() + b) == Some(b),
{
    let pre = boundary_header_prefix();
    let x = pre + b;
    let n = x.len();
    assert(pre =~= seq![
        109u8, 117u8, 108u8, 116u8, 105u8, 112u8, 97u8, 114u8, 116u8, 47u8, 102u8, 111u8, 114u8, 109u8, 45u8,
        100u8, 97u8, 116u8, 97u8, 59u8, 32u8, 98u8, 111u8, 117u8, 110u8, 100u8, 97u8, 114u8, 121u8, 61u8,
    ]);
    let hs = CharClass::HorizontalSpace;
    assert forall|i: int| 30 <= i < n implies spec_in_class(CharClass::Token, #[trigger] x[i]) && !spec_in_class(
        hs,
        x[i],
    ) && x[i] != 34u8 by {
        assert(x[i] == b[i - 30]);
        law_token_bytes_are_tchars(x[i]);
    }
    assert(plain_value_from_30(x));
    assert(x.subrange(21, 29) =~= spec_boundary_seq());
    assert(x[19] == 59u8);
    assert(x[20] == 32u8);
    assert(x[29] == 61u8);
    lemma_boundary_param_of(x);
    assert(x[0] == 109u8);
    lemma_scan_unique(x, 0, hs, 0);
    assert forall|i: int| 0 <= i < spec_multipart_form_data().len() implies #[trigger] x[0 + i]
        == spec_multipart_form_data()[i] by {
        assert(x[i] == pre[i]);
    }
    assert(lit_agrees(x, 0, spec_multipart_form_data(), true));
    lemma_scan_unique(x, 19, hs, 19);
    assert(spec_boundary_param(x) == Some(Span { start: 30, end: n as usize }));
    assert(span_view(x, Span { start: 30, end: n as usize }) =~= b);
    assert forall|i: int| 0 <= i < b.len() implies spec_is_boundary_byte(#[trigger] b[i]) by {
        law_boundary_bytes_are_bchars(b[i]);
    }
}

/// Each `Content-Disposition` parameter sets only its own field: `form-data`
/// only enables the others, which count once it has been seen; `name` and
/// `filename` then take the parameter's value, an empty one included; any
/// other parameter changes nothing.
pub proof fn law_parameters_set_only_their_fields(d: Disposition, f: Field)
    ensures
        spec_accumulate_field(d, f).has_formdata == (d.has_formdata || f is FormData),
        !(f is Name) ==> spec_accumulate_field(d, f).name == d.name,
        !(f is Filename) ==> spec_accumulate_field(d, f).filename == d.filename,
        f matches Field::Name(v) ==> spec_accumulate_field(d, f).name == (if d.has_formdata {
            Some(v)
        } else {
            d.name
        }),
        f matches Field::Filename(v) ==> spec_accumulate_field(d, f).filename == (if d.has_formdata {
            Some(v)
        } else {
            d.filename
        }),
{
}

} // verus!
