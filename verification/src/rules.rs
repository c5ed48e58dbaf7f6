//! The multipart/form-data grammar, executed on byte slices.
//!
//! Each rule reads `s` from position `p` and returns exactly what its
//! counterpart in `grammar` specifies.
use vstd::prelude::*;

use crate::bounds::{field_in, header_in, info_in, lemma_entry_info_bounds, lemma_field_bounds, lemma_field_sep_bounds, lemma_header_bounds, lemma_literal_bounds, lemma_quoted_string_bounds, lemma_slice_fits, lemma_take_value_bounds, lemma_take_while_bounds, lemma_ws_bounds, span_in};
use crate::error::{Error, Failure};
use crate::grammar::{Disposition, Field, Header, Headers, InfoSpans, PRes, Span, empty_disposition, empty_headers, spec_accumulate_field, spec_accumulate_header, spec_boundary_param, spec_boundary_seq, spec_classify, spec_content_disposition, spec_content_disposition_colon, spec_content_type, spec_content_type_colon, spec_crlf, spec_crlf_seq, spec_dashes, spec_entry_info, spec_field, spec_field_sep, spec_fields_rest, spec_filename_seq, spec_form_data, spec_header, spec_header_line, spec_headers_end, spec_headers_rest, spec_literal, spec_media_param, spec_multipart_form_data, spec_name_seq, spec_other_header_rest, spec_parameter, spec_params_boundary, spec_quoted_string, spec_take_value, spec_token, spec_ws};
use crate::primitives::{literal, take_until, take_while};
use crate::trivia::{CharClass, eq_ignore_ascii_case, trim};

verus! {

/// `\r\n`
pub fn crlf_bytes() -> (r: &'static [u8])
    ensures
        r@ == spec_crlf_seq(),
{
    let a: &'static [u8; 2] = &[13u8, 10u8];
    proof {
        assert(a@ =~= spec_crlf_seq());
    }
    a.as_slice()
}

/// `--`
pub fn dashes_bytes() -> (r: &'static [u8])
    ensures
        r@ == spec_dashes(),
{
    let a: &'static [u8; 2] = &[45u8, 45u8];
    proof {
        assert(a@ =~= spec_dashes());
    }
    a.as_slice()
}

/// `form-data`
fn form_data_bytes() -> (r: &'static [u8])
    ensures
        r@ == spec_form_data(),
{
    let a: &'static [u8; 9] = &[102u8, 111u8, 114u8, 109u8, 45u8, 100u8, 97u8, 116u8, 97u8];
    proof {
        assert(a@ =~= spec_form_data());
    }
    a.as_slice()
}

/// `content-disposition:`
fn content_disposition_colon_bytes() -> (r: &'static [u8])
    ensures
        r@ == spec_content_disposition_colon(),
{
    let a: &'static [u8; 20] = &[
        99u8, 111u8, 110u8, 116u8, 101u8, 110u8, 116u8, 45u8, 100u8, 105u8, 115u8, 112u8, 111u8,
        115u8, 105u8, 116u8, 105u8, 111u8, 110u8, 58u8,
    ];
    proof {
        assert(a@ =~= spec_content_disposition_colon());
    }
    a.as_slice()
}

/// `content-type:`
fn content_type_colon_bytes() -> (r: &'static [u8])
    ensures
        r@ == spec_content_type_colon(),
{
    let a: &'static [u8; 13] = &[
        99u8, 111u8, 110u8, 116u8, 101u8, 110u8, 116u8, 45u8, 116u8, 121u8, 112u8, 101u8, 58u8,
    ];
    proof {
        assert(a@ =~= spec_content_type_colon());
    }
    a.as_slice()
}

/// `name`
fn name_bytes() -> (r: &'static [u8])
    ensures
        r@ == spec_name_seq(),
{
    let a: &'static [u8; 4] = &[110u8, 97u8, 109u8, 101u8];
    proof {
        assert(a@ =~= spec_name_seq());
    }
    a.as_slice()
}

/// `filename`
fn filename_bytes() -> (r: &'static [u8])
    ensures
        r@ == spec_filename_seq(),
{
    let a: &'static [u8; 8] = &[102u8, 105u8, 108u8, 101u8, 110u8, 97u8, 109u8, 101u8];
    proof {
        assert(a@ =~= spec_filename_seq());
    }
    a.as_slice()
}

/// `multipart/form-data`
pub fn multipart_form_data_bytes() -> (r: &'static [u8])
    ensures
        r@ == spec_multipart_form_data(),
{
    let a: &'static [u8; 19] = &[
        109u8, 117u8, 108u8, 116u8, 105u8, 112u8, 97u8, 114u8, 116u8, 47u8, 102u8, 111u8, 114u8,
        109u8, 45u8, 100u8, 97u8, 116u8, 97u8,
    ];
    proof {
        assert(a@ =~= spec_multipart_form_data());
    }
    a.as_slice()
}

/// `boundary`
pub fn boundary_word_bytes() -> (r: &'static [u8])
    ensures
        r@ == spec_boundary_seq(),
{
    let a: &'static [u8; 8] = &[98u8, 111u8, 117u8, 110u8, 100u8, 97u8, 114u8, 121u8];
    proof {
        assert(a@ =~= spec_boundary_seq());
    }
    a.as_slice()
}

/// A one-byte literal.
pub fn single(s: &[u8], p: usize, b: u8, partial: bool) -> (r: Result<usize, Failure>)
    requires
        p <= s@.len(),
    ensures
        r matches Err(Failure::Incomplete) ==> partial,
        r == spec_literal(s@, p, seq![b], false, partial),
{
    let a: [u8; 1] = [b];
    proof {
        assert(a@ =~= seq![b]);
    }
    literal(s, p, a.as_slice(), false, partial)
}

/// Optional horizontal space.
pub fn ws(s: &[u8], p: usize, partial: bool) -> (r: Result<usize, Failure>)
    requires
        p <= s@.len(),
    ensures
        r matches Err(Failure::Incomplete) ==> partial,
        r == spec_ws(s@, p, partial),
        r matches Ok(q) ==> p <= q <= s@.len(),
{
    proof {
        lemma_slice_fits(s);
        lemma_ws_bounds(s@, p, partial);
    }
    take_while(s, p, 0, CharClass::HorizontalSpace, partial)
}

/// A line end.
pub fn crlf(s: &[u8], p: usize, partial: bool) -> (r: Result<usize, Failure>)
    requires
        p <= s@.len(),
    ensures
        r matches Err(Failure::Incomplete) ==> partial,
        r == spec_crlf(s@, p, partial),
        r matches Ok(q) ==> q == p + 2 <= s@.len(),
{
    proof {
        lemma_slice_fits(s);
        lemma_literal_bounds(s@, p, spec_crlf_seq(), false, partial);
    }
    literal(s, p, crlf_bytes(), false, partial)
}

/// One or more `tchar`.
pub fn token(s: &[u8], p: usize, partial: bool) -> (r: Result<usize, Failure>)
    requires
        p <= s@.len(),
    ensures
        r matches Err(Failure::Incomplete) ==> partial,
        r == spec_token(s@, p, partial),
        r matches Ok(q) ==> p < q <= s@.len(),
{
    proof {
        lemma_slice_fits(s);
        lemma_take_while_bounds(s@, p, 1, CharClass::Token, partial);
    }
    take_while(s, p, 1, CharClass::Token, partial)
}

/// A double-quoted string without escapes; its value is the text between the quotes.
pub fn quoted_string(s: &[u8], p: usize, partial: bool) -> (r: PRes<Span>)
    requires
        p <= s@.len(),
    ensures
        r matches Err(Failure::Incomplete) ==> partial,
        r == spec_quoted_string(s@, p, partial),
{
    let q = match single(s, p, 34, partial) {
        Err(e) => return Err(e),
        Ok(q) => q,
    };
    let e = match take_while(s, q, 0, CharClass::QuotedText, partial) {
        Err(e) => return Err(e),
        Ok(e) => e,
    };
    proof {
        lemma_slice_fits(s);
        lemma_take_while_bounds(s@, q, 0, CharClass::QuotedText, partial);
    }
    match single(s, e, 34, partial) {
        Err(f) => Err(f),
        Ok(r) => Ok((r, Span { start: q, end: e })),
    }
}

/// A parameter value: a quoted string or a token, then optional space.
pub fn take_value(s: &[u8], p: usize, partial: bool) -> (r: PRes<Span>)
    requires
        p <= s@.len(),
    ensures
        r matches Err(Failure::Incomplete) ==> partial,
        r == spec_take_value(s@, p, partial),
        r matches Ok((q, v)) ==> p < q <= s@.len() && span_in(v, p as int, q as int),
{
    proof {
        lemma_slice_fits(s);
        lemma_take_value_bounds(s@, p, partial);
        lemma_quoted_string_bounds(s@, p, partial);
    }
    match quoted_string(s, p, partial) {
        Ok((q, v)) => match ws(s, q, partial) {
            Ok(r) => Ok((r, v)),
            Err(e) => Err(e),
        },
        Err(Failure::Backtrack(_)) => match token(s, p, partial) {
            Ok(q) => match ws(s, q, partial) {
                Ok(r) => Ok((r, Span { start: p, end: q })),
                Err(e) => Err(e),
            },
            Err(e) => Err(e),
        },
        Err(e) => Err(e),
    }
}

/// What a `key=value` parameter means.
fn classify(s: &[u8], key: Span, value: Span) -> (r: Field)
    requires
        key.start <= key.end <= s@.len(),
    ensures
        r == spec_classify(s@, key, value),
{
    let k = &s[key.start..key.end];
    if eq_ignore_ascii_case(k, name_bytes()) {
        Field::Name(value)
    } else if eq_ignore_ascii_case(k, filename_bytes()) {
        Field::Filename(value)
    } else {
        Field::Other
    }
}

/// `key ws "=" ws value`
fn parameter(s: &[u8], p: usize, partial: bool) -> (r: PRes<Field>)
    requires
        p <= s@.len(),
    ensures
        r matches Err(Failure::Incomplete) ==> partial,
        r == spec_parameter(s@, p, partial),
{
    let k = match token(s, p, partial) {
        Err(e) => return Err(e),
        Ok(k) => k,
    };
    let q1 = match ws(s, k, partial) {
        Err(e) => return Err(e),
        Ok(q) => q,
    };
    let q2 = match single(s, q1, 61, partial) {
        Err(e) => return Err(e),
        Ok(q) => q,
    };
    proof {
        lemma_slice_fits(s);
        lemma_literal_bounds(s@, q1, seq![61u8], false, partial);
    }
    let q3 = match ws(s, q2, partial) {
        Err(e) => return Err(e),
        Ok(q) => q,
    };
    match take_value(s, q3, partial) {
        Err(e) => Err(e),
        Ok((q4, v)) => Ok((q4, classify(s, Span { start: p, end: k }, v))),
    }
}

/// `ws ("form-data" / key "=" value)`
pub fn field(s: &[u8], p: usize, partial: bool) -> (r: PRes<Field>)
    requires
        p <= s@.len(),
    ensures
        r matches Err(Failure::Incomplete) ==> partial,
        r == spec_field(s@, p, partial),
        r matches Ok((q, f)) ==> p < q <= s@.len() && field_in(f, p as int, q as int),
{
    proof {
        lemma_slice_fits(s);
        lemma_field_bounds(s@, p, partial);
    }
    let q = match ws(s, p, partial) {
        Err(e) => return Err(e),
        Ok(q) => q,
    };
    match literal(s, q, form_data_bytes(), true, partial) {
        Ok(r) => Ok((r, Field::FormData)),
        Err(Failure::Backtrack(_)) => parameter(s, q, partial),
        Err(e) => Err(e),
    }
}

/// `ws ";" ws`
fn field_sep(s: &[u8], p: usize, partial: bool) -> (r: Result<usize, Failure>)
    requires
        p <= s@.len(),
    ensures
        r matches Err(Failure::Incomplete) ==> partial,
        r == spec_field_sep(s@, p, partial),
        r matches Ok(q) ==> p < q <= s@.len(),
{
    proof {
        lemma_slice_fits(s);
        lemma_field_sep_bounds(s@, p, partial);
    }
    let q = match ws(s, p, partial) {
        Err(e) => return Err(e),
        Ok(q) => q,
    };
    let r = match single(s, q, 59, partial) {
        Err(e) => return Err(e),
        Ok(r) => r,
    };
    proof {
        lemma_slice_fits(s);
        lemma_literal_bounds(s@, q, seq![59u8], false, partial);
    }
    ws(s, r, partial)
}

impl Disposition {
    pub fn initial() -> (r: Self)
        ensures
            r == empty_disposition(),
    {
        Disposition { name: None, filename: None, has_formdata: false }
    }

    /// `name` and `filename` count only after `form-data`.
    pub fn accumulate(&mut self, field: Field)
        ensures
            *final(self) == spec_accumulate_field(*old(self), field),
    {
        match field {
            Field::FormData => self.has_formdata = true,
            Field::Name(n) => if self.has_formdata {
                self.name = Some(n)
            },
            Field::Filename(n) => if self.has_formdata {
                self.filename = Some(n)
            },
            Field::Other => {},
        }
    }
}

/// The fields after the first, up to a separator or field that does not match.
fn fields_rest(s: &[u8], p: usize, d: Disposition, partial: bool) -> (r: PRes<Disposition>)
    requires
        p <= s@.len(),
    ensures
        r matches Err(Failure::Incomplete) ==> partial,
        r == spec_fields_rest(s@, p, d, partial),
{
    let mut q = p;
    let mut acc = d;
    loop
        invariant
            q <= s@.len(),
            spec_fields_rest(s@, q, acc, partial) == spec_fields_rest(s@, p, d, partial),
        decreases s@.len() - q,
    {
        match field_sep(s, q, partial) {
            Err(Failure::Backtrack(c)) => return Ok((q, acc)),
            Err(e) => return Err(e),
            Ok(q1) => match field(s, q1, partial) {
                Err(Failure::Backtrack(c)) => return Ok((q, acc)),
                Err(e) => return Err(e),
                Ok((r, f)) => {
                    acc.accumulate(f);
                    q = r;
                },
            },
        }
    }
}

/// `field *(";" field)`; the header needs a `name`.
pub fn content_disposition(s: &[u8], p: usize, partial: bool) -> (r: PRes<Header>)
    requires
        p <= s@.len(),
    ensures
        r matches Err(Failure::Incomplete) ==> partial,
        r == spec_content_disposition(s@, p, partial),
{
    let (q, f) = match field(s, p, partial) {
        Err(e) => return Err(e),
        Ok(x) => x,
    };
    let mut d = Disposition::initial();
    d.accumulate(f);
    match fields_rest(s, q, d, partial) {
        Err(e) => Err(e),
        Ok((r, d)) => match d.name {
            Some(n) => Ok((r, Header::ContentDisposition { name: n, filename: d.filename })),
            None => Err(Failure::Backtrack(Some(Error::MissingName))),
        },
    }
}

/// A header value without surrounding space.
pub fn content_type(s: &[u8], p: usize, partial: bool) -> (r: PRes<Header>)
    requires
        p <= s@.len(),
    ensures
        r matches Err(Failure::Incomplete) ==> partial,
        r == spec_content_type(s@, p, partial),
{
    let e = match take_while(s, p, 1, CharClass::VisibleAscii, partial) {
        Err(e) => return Err(e),
        Ok(e) => e,
    };
    proof {
        lemma_slice_fits(s);
        lemma_take_while_bounds(s@, p, 1, CharClass::VisibleAscii, partial);
    }
    let (a, b) = trim(s, p, e);
    Ok((e, Header::ContentType(Span { start: a, end: b })))
}

/// `":" ws` and everything up to the end of the line.
fn other_header_rest(s: &[u8], p: usize, partial: bool) -> (r: Result<usize, Failure>)
    requires
        p <= s@.len(),
    ensures
        r matches Err(Failure::Incomplete) ==> partial,
        r == spec_other_header_rest(s@, p, partial),
{
    let q = match single(s, p, 58, partial) {
        Err(e) => return Err(e),
        Ok(q) => q,
    };
    proof {
        lemma_slice_fits(s);
        lemma_literal_bounds(s@, p, seq![58u8], false, partial);
    }
    let r = match ws(s, q, partial) {
        Err(e) => return Err(e),
        Ok(r) => r,
    };
    take_until(s, r, crlf_bytes(), partial)
}

/// `ws` then a `Content-Disposition`, a `Content-Type` or any other header.
pub fn header(s: &[u8], p: usize, partial: bool) -> (r: PRes<Header>)
    requires
        p <= s@.len(),
    ensures
        r matches Err(Failure::Incomplete) ==> partial,
        r == spec_header(s@, p, partial),
        r matches Ok((q, h)) ==> p <= q <= s@.len() && header_in(h, p as int, q as int),
{
    proof {
        lemma_slice_fits(s);
        lemma_header_bounds(s@, p, partial);
    }
    let q = match ws(s, p, partial) {
        Err(e) => return Err(e),
        Ok(q) => q,
    };
    match literal(s, q, content_disposition_colon_bytes(), true, partial) {
        Ok(r) => {
            proof {
                lemma_slice_fits(s);
                lemma_literal_bounds(s@, q, spec_content_disposition_colon(), true, partial);
            }
            match content_disposition(s, r, partial) {
                Err(Failure::Backtrack(c)) => Err(Failure::Cut(c)),
                x => x,
            }
        },
        Err(Failure::Backtrack(_)) => match literal(s, q, content_type_colon_bytes(), true, partial) {
            Ok(r) => {
                proof {
                    lemma_slice_fits(s);
                    lemma_literal_bounds(s@, q, spec_content_type_colon(), true, partial);
                }
                match content_type(s, r, partial) {
                    Err(Failure::Backtrack(c)) => Err(Failure::Cut(c)),
                    x => x,
                }
            },
            Err(Failure::Backtrack(_)) => match token(s, q, partial) {
                Ok(r) => match other_header_rest(s, r, partial) {
                    Ok(t) => Ok((t, Header::Other)),
                    Err(Failure::Backtrack(c)) => Err(Failure::Cut(c)),
                    Err(e) => Err(e),
                },
                Err(e) => Err(e),
            },
            Err(e) => Err(e),
        },
        Err(e) => Err(e),
    }
}

/// A header and its line end.
fn header_line(s: &[u8], p: usize, partial: bool) -> (r: PRes<Header>)
    requires
        p <= s@.len(),
    ensures
        r matches Err(Failure::Incomplete) ==> partial,
        r == spec_header_line(s@, p, partial),
        r matches Ok((q, h)) ==> p + 2 <= q <= s@.len() && header_in(h, p as int, q as int),
{
    let (q, h) = match header(s, p, partial) {
        Err(e) => return Err(e),
        Ok(x) => x,
    };
    match crlf(s, q, partial) {
        Err(e) => Err(e),
        Ok(r) => Ok((r, h)),
    }
}

/// `ws crlf`: the blank line that ends the headers.
pub fn headers_end(s: &[u8], p: usize, partial: bool) -> (r: Result<usize, Failure>)
    requires
        p <= s@.len(),
    ensures
        r matches Err(Failure::Incomplete) ==> partial,
        r == spec_headers_end(s@, p, partial),
        r matches Ok(q) ==> p + 2 <= q <= s@.len(),
{
    let q = match ws(s, p, partial) {
        Err(e) => return Err(e),
        Ok(q) => q,
    };
    crlf(s, q, partial)
}

impl Headers {
    pub fn initial() -> (r: Self)
        ensures
            r == empty_headers(),
    {
        Headers { name: None, filename: None, content_type: None }
    }

    /// The last `Content-Disposition` and the last `Content-Type` win.
    pub fn accumulate(&mut self, header: Header)
        ensures
            *final(self) == spec_accumulate_header(*old(self), header),
    {
        match header {
            Header::ContentDisposition { name, filename } => {
                self.name = Some(name);
                self.filename = filename;
            },
            Header::ContentType(content_type) => self.content_type = Some(content_type),
            Header::Other => {},
        }
    }
}

/// Header lines up to and including the blank line.
fn headers_rest(s: &[u8], p: usize, hs: Headers, partial: bool) -> (r: PRes<Headers>)
    requires
        p <= s@.len(),
    ensures
        r matches Err(Failure::Incomplete) ==> partial,
        r == spec_headers_rest(s@, p, hs, partial),
{
    let mut q = p;
    let mut acc = hs;
    loop
        invariant
            q <= s@.len(),
            spec_headers_rest(s@, q, acc, partial) == spec_headers_rest(s@, p, hs, partial),
        decreases s@.len() - q,
    {
        match headers_end(s, q, partial) {
            Ok(r) => return Ok((r, acc)),
            Err(Failure::Backtrack(_)) => match header_line(s, q, partial) {
                Err(e) => return Err(e),
                Ok((r, h)) => {
                    acc.accumulate(h);
                    q = r;
                },
            },
            Err(e) => return Err(e),
        }
    }
}

/// One or more header lines, then a blank line; the part needs a name.
pub fn entry_info_at(s: &[u8], p: usize, partial: bool) -> (r: PRes<InfoSpans>)
    requires
        p <= s@.len(),
    ensures
        r matches Err(Failure::Incomplete) ==> partial,
        r == spec_entry_info(s@, p, partial),
        r matches Ok((q, i)) ==> p < q <= s@.len() && info_in(i, p as int, q as int),
{
    reveal(spec_entry_info);
    proof {
        lemma_slice_fits(s);
        lemma_entry_info_bounds(s@, p, partial);
    }
    let (q, h) = match header_line(s, p, partial) {
        Err(e) => return Err(e),
        Ok(x) => x,
    };
    let mut hs = Headers::initial();
    hs.accumulate(h);
    match headers_rest(s, q, hs, partial) {
        Err(e) => Err(e),
        Ok((r, hs)) => match hs.name {
            Some(n) => Ok((r, InfoSpans { name: n, filename: hs.filename, content_type: hs.content_type })),
            None => Err(Failure::Backtrack(Some(Error::MissingContentDisposition))),
        },
    }
}

/// `";" ws token ws "=" ws value` in a complete input: the position after
/// it, the parameter's name and its value.
pub fn media_param(s: &[u8], p: usize) -> (r: Option<(usize, Span, Span)>)
    requires
        p <= s@.len(),
    ensures
        r == spec_media_param(s@, p),
        r matches Some((q, k, v)) ==> p < q <= s@.len() && span_in(k, p as int, q as int) && span_in(
            v,
            p as int,
            q as int,
        ),
{
    proof {
        lemma_slice_fits(s);
        lemma_literal_bounds(s@, p, seq![59u8], false, false);
    }
    let q1 = match single(s, p, 59, false) {
        Ok(q) => q,
        Err(_) => return None,
    };
    let q2 = match ws(s, q1, false) {
        Ok(q) => q,
        Err(_) => return None,
    };
    let k = match token(s, q2, false) {
        Ok(q) => q,
        Err(_) => return None,
    };
    let q3 = match ws(s, k, false) {
        Ok(q) => q,
        Err(_) => return None,
    };
    proof {
        lemma_literal_bounds(s@, q3, seq![61u8], false, false);
    }
    let q4 = match single(s, q3, 61, false) {
        Ok(q) => q,
        Err(_) => return None,
    };
    let q5 = match ws(s, q4, false) {
        Ok(q) => q,
        Err(_) => return None,
    };
    match take_value(s, q5, false) {
        Ok((q6, v)) => Some((q6, Span { start: q2, end: k }, v)),
        Err(_) => None,
    }
}

/// The value of the only `boundary` parameter of a complete
/// `multipart/form-data` media type.
pub fn boundary_param(s: &[u8]) -> (r: Option<Span>)
    ensures
        r == spec_boundary_param(s@),
        r matches Some(v) ==> v.start <= v.end <= s@.len(),
{
    proof {
        lemma_slice_fits(s);
        lemma_literal_bounds(s@, 0, spec_multipart_form_data(), true, false);
    }
    let q1 = match ws(s, 0, false) {
        Ok(q) => q,
        Err(_) => return None,
    };
    proof {
        lemma_literal_bounds(s@, q1, spec_multipart_form_data(), true, false);
    }
    let q2 = match literal(s, q1, multipart_form_data_bytes(), true, false) {
        Ok(q) => q,
        Err(_) => return None,
    };
    let mut p = match ws(s, q2, false) {
        Ok(q) => q,
        Err(_) => return None,
    };
    let mut found: Option<Span> = None;
    while p < s.len()
        invariant
            p <= s@.len(),
            s@.len() <= usize::MAX,
            spec_boundary_param(s@) == spec_params_boundary(s@, p, found),
            found matches Some(v) ==> v.start <= v.end <= s@.len(),
        decreases s@.len() - p,
    {
        let (q, key, v) = match media_param(s, p) {
            Some(x) => x,
            None => return None,
        };
        let is_boundary = eq_ignore_ascii_case(&s[key.start..key.end], boundary_word_bytes());
        if is_boundary && found.is_some() {
            return None;
        }
        if is_boundary {
            found = Some(v);
        }
        p = q;
    }
    found
}

} // verus!
