//! The multipart/form-data grammar as functions on byte sequences.
//!
//! Every rule reads `s` from position `p` and either succeeds with the
//! position after what it matched, or fails. In partial mode a rule that
//! reaches the end of `s` before it can decide reports `Incomplete`; in
//! complete mode the end of `s` is the end of the input.
use vstd::prelude::*;

use crate::error::{Error, Failure};
use crate::state::Delimiter;
use crate::trivia::{CharClass, spec_eq_ignore_case, spec_lower, spec_scan, spec_trim_end, spec_trim_start};

verus! {

/// A span `[start, end)` of the input.
#[derive(Copy, Clone, Debug, PartialEq, Eq, Structural)]
pub struct Span {
    pub start: usize,
    pub end: usize,
}

/// One parameter of a `Content-Disposition` header.
#[derive(Copy, Clone, Debug, PartialEq, Eq, Structural)]
pub enum Field {
    /// form-data field.
    FormData,
    /// The `name` attribute.
    Name(Span),
    /// The `filename` attribute.
    Filename(Span),
    /// Any other parameter.
    Other,
}

/// One part header.
#[derive(Copy, Clone, Debug, PartialEq, Eq, Structural)]
pub enum Header {
    /// A `Content-Disposition` header, possibly with a filename.
    ContentDisposition { name: Span, filename: Option<Span> },
    /// A `Content-Type` header.
    ContentType(Span),
    /// Any other header.
    Other,
}

/// The parameters of a `Content-Disposition` header seen so far.
#[derive(Copy, Clone, Debug, PartialEq, Eq, Structural)]
pub struct Disposition {
    pub name: Option<Span>,
    pub filename: Option<Span>,
    pub has_formdata: bool,
}

/// The headers of a part seen so far.
#[derive(Copy, Clone, Debug, PartialEq, Eq, Structural)]
pub struct Headers {
    pub name: Option<Span>,
    pub filename: Option<Span>,
    pub content_type: Option<Span>,
}

/// Where the metadata of a part lies in the input.
#[derive(Copy, Clone, Debug, PartialEq, Eq, Structural)]
pub struct InfoSpans {
    pub name: Span,
    pub filename: Option<Span>,
    pub content_type: Option<Span>,
}

/// Where a part lies in the input.
#[derive(Copy, Clone, Debug, PartialEq, Eq, Structural)]
pub struct EntrySpans {
    pub info: InfoSpans,
    pub value: Span,
}

/// The result of a rule: the position after the match and its value.
pub type PRes<T> = Result<(usize, T), Failure>;

/// Whether a boundary candidate is a delimiter.
#[derive(Copy, Clone, Debug, PartialEq, Eq, Structural)]
pub enum Status {
    Valid,
    Incomplete,
    Invalid,
}

pub open spec fn backtrack() -> Failure {
    Failure::Backtrack(None)
}

/// Turns a backtracking failure into a committed one.
pub open spec fn cut<T>(r: PRes<T>) -> PRes<T> {
    match r {
        Err(Failure::Backtrack(c)) => Err(Failure::Cut(c)),
        _ => r,
    }
}

// ---------------------------------------------------------------- literals

pub open spec fn spec_crlf_seq() -> Seq<u8> {
    seq![13u8, 10u8]
}

pub open spec fn spec_dashes() -> Seq<u8> {
    seq![45u8, 45u8]
}

/// `form-data`
pub open spec fn spec_form_data() -> Seq<u8> {
    seq![102u8, 111u8, 114u8, 109u8, 45u8, 100u8, 97u8, 116u8, 97u8]
}

/// `content-disposition:`
pub open spec fn spec_content_disposition_colon() -> Seq<u8> {
    seq![
        99u8, 111u8, 110u8, 116u8, 101u8, 110u8, 116u8, 45u8, 100u8, 105u8, 115u8, 112u8, 111u8,
        115u8, 105u8, 116u8, 105u8, 111u8, 110u8, 58u8,
    ]
}

/// `content-type:`
pub open spec fn spec_content_type_colon() -> Seq<u8> {
    seq![99u8, 111u8, 110u8, 116u8, 101u8, 110u8, 116u8, 45u8, 116u8, 121u8, 112u8, 101u8, 58u8]
}

/// `name`
pub open spec fn spec_name_seq() -> Seq<u8> {
    seq![110u8, 97u8, 109u8, 101u8]
}

/// `filename`
pub open spec fn spec_filename_seq() -> Seq<u8> {
    seq![102u8, 105u8, 108u8, 101u8, 110u8, 97u8, 109u8, 101u8]
}

/// `multipart/form-data`
pub open spec fn spec_multipart_form_data() -> Seq<u8> {
    seq![
        109u8, 117u8, 108u8, 116u8, 105u8, 112u8, 97u8, 114u8, 116u8, 47u8, 102u8, 111u8, 114u8,
        109u8, 45u8, 100u8, 97u8, 116u8, 97u8,
    ]
}

/// `boundary`
pub open spec fn spec_boundary_seq() -> Seq<u8> {
    seq![98u8, 111u8, 117u8, 110u8, 100u8, 97u8, 114u8, 121u8]
}

pub open spec fn byte_eq(a: u8, b: u8, caseless: bool) -> bool {
    if caseless {
        spec_lower(a) == spec_lower(b)
    } else {
        a == b
    }
}

/// The bytes of `s` from `p` agree with `lit` as far as both go.
pub open spec fn lit_agrees(s: Seq<u8>, p: usize, lit: Seq<u8>, caseless: bool) -> bool {
    forall|i: int| 0 <= i < lit.len() && p + i < s.len() ==> byte_eq(#[trigger] s[p + i], lit[i], caseless)
}

/// Matches the literal `lit`, ASCII case-insensitively if `caseless`.
pub open spec fn spec_literal(s: Seq<u8>, p: usize, lit: Seq<u8>, caseless: bool, partial: bool) -> Result<usize, Failure> {
    if !lit_agrees(s, p, lit, caseless) {
        Err(backtrack())
    } else if p + lit.len() <= s.len() {
        Ok((p + lit.len()) as usize)
    } else if partial {
        Err(Failure::Incomplete)
    } else {
        Err(backtrack())
    }
}

/// Matches `min` or more bytes of class `c`.
pub open spec fn spec_take_while(s: Seq<u8>, p: usize, min: usize, c: CharClass, partial: bool) -> Result<usize, Failure> {
    let e = spec_scan(s, p, c);
    if e < s.len() {
        if e - p >= min {
            Ok(e)
        } else {
            Err(backtrack())
        }
    } else if partial {
        Err(Failure::Incomplete)
    } else if e - p >= min {
        Ok(e)
    } else {
        Err(backtrack())
    }
}

/// `lit` occurs in `s` at `k`.
pub open spec fn occurs_at(s: Seq<u8>, k: int, lit: Seq<u8>) -> bool {
    &&& 0 <= k
    &&& k + lit.len() <= s.len()
    &&& forall|i: int| 0 <= i < lit.len() ==> #[trigger] s[k + i] == lit[i]
}

/// The first occurrence of `lit` in `s` at or after `j`.
pub open spec fn spec_find(s: Seq<u8>, j: usize, lit: Seq<u8>) -> Option<usize>
    decreases s.len() - j,
{
    if j + lit.len() > s.len() || j == usize::MAX {
        None
    } else if occurs_at(s, j as int, lit) {
        Some(j)
    } else {
        spec_find(s, (j + 1) as usize, lit)
    }
}

/// Matches everything up to the first occurrence of `lit`; succeeds with
/// the position of that occurrence.
pub open spec fn spec_take_until(s: Seq<u8>, p: usize, lit: Seq<u8>, partial: bool) -> Result<usize, Failure> {
    match spec_find(s, p, lit) {
        Some(k) => Ok(k),
        None => if partial {
            Err(Failure::Incomplete)
        } else {
            Err(backtrack())
        },
    }
}

// ------------------------------------------------------------- tokens

/// Optional horizontal space.
pub open spec fn spec_ws(s: Seq<u8>, p: usize, partial: bool) -> Result<usize, Failure> {
    spec_take_while(s, p, 0, CharClass::HorizontalSpace, partial)
}

pub open spec fn spec_crlf(s: Seq<u8>, p: usize, partial: bool) -> Result<usize, Failure> {
    spec_literal(s, p, spec_crlf_seq(), false, partial)
}

/// One or more `tchar`.
pub open spec fn spec_token(s: Seq<u8>, p: usize, partial: bool) -> Result<usize, Failure> {
    spec_take_while(s, p, 1, CharClass::Token, partial)
}

/// A double-quoted string without escapes; its value is the text between the quotes.
pub open spec fn spec_quoted_string(s: Seq<u8>, p: usize, partial: bool) -> PRes<Span> {
    match spec_literal(s, p, seq![34u8], false, partial) {
        Err(e) => Err(e),
        Ok(q) => match spec_take_while(s, q, 0, CharClass::QuotedText, partial) {
            Err(e) => Err(e),
            Ok(e) => match spec_literal(s, e, seq![34u8], false, partial) {
                Err(f) => Err(f),
                Ok(r) => Ok((r, Span { start: q, end: e })),
            },
        },
    }
}

/// A parameter value: a quoted string or a token, then optional space.
pub open spec fn spec_take_value(s: Seq<u8>, p: usize, partial: bool) -> PRes<Span> {
    match spec_quoted_string(s, p, partial) {
        Ok((q, v)) => match spec_ws(s, q, partial) {
            Ok(r) => Ok((r, v)),
            Err(e) => Err(e),
        },
        Err(Failure::Backtrack(_)) => match spec_token(s, p, partial) {
            Ok(q) => match spec_ws(s, q, partial) {
                Ok(r) => Ok((r, Span { start: p, end: q })),
                Err(e) => Err(e),
            },
            Err(e) => Err(e),
        },
        Err(e) => Err(e),
    }
}

// ------------------------------------------------------- content-disposition

/// What a `key=value` parameter means.
pub open spec fn spec_classify(s: Seq<u8>, key: Span, value: Span) -> Field {
    let k = s.subrange(key.start as int, key.end as int);
    if spec_eq_ignore_case(k, spec_name_seq()) {
        Field::Name(value)
    } else if spec_eq_ignore_case(k, spec_filename_seq()) {
        Field::Filename(value)
    } else {
        Field::Other
    }
}

/// `key ws "=" ws value`
pub open spec fn spec_parameter(s: Seq<u8>, p: usize, partial: bool) -> PRes<Field> {
    match spec_token(s, p, partial) {
        Err(e) => Err(e),
        Ok(k) => match spec_ws(s, k, partial) {
            Err(e) => Err(e),
            Ok(q1) => match spec_literal(s, q1, seq![61u8], false, partial) {
                Err(e) => Err(e),
                Ok(q2) => match spec_ws(s, q2, partial) {
                    Err(e) => Err(e),
                    Ok(q3) => match spec_take_value(s, q3, partial) {
                        Err(e) => Err(e),
                        Ok((q4, v)) => Ok((q4, spec_classify(s, Span { start: p, end: k }, v))),
                    },
                },
            },
        },
    }
}

/// `ws ("form-data" / parameter)`
pub open spec fn spec_field(s: Seq<u8>, p: usize, partial: bool) -> PRes<Field> {
    match spec_ws(s, p, partial) {
        Err(e) => Err(e),
        Ok(q) => match spec_literal(s, q, spec_form_data(), true, partial) {
            Ok(r) => Ok((r, Field::FormData)),
            Err(Failure::Backtrack(_)) => spec_parameter(s, q, partial),
            Err(e) => Err(e),
        },
    }
}

/// `name` and `filename` count only after `form-data`; later ones win.
pub open spec fn spec_accumulate_field(d: Disposition, f: Field) -> Disposition {
    match f {
        Field::FormData => Disposition { has_formdata: true, ..d },
        Field::Name(n) => if d.has_formdata {
            Disposition { name: Some(n), ..d }
        } else {
            d
        },
        Field::Filename(n) => if d.has_formdata {
            Disposition { filename: Some(n), ..d }
        } else {
            d
        },
        Field::Other => d,
    }
}

pub open spec fn empty_disposition() -> Disposition {
    Disposition { name: None, filename: None, has_formdata: false }
}

/// `ws ";" ws`
pub open spec fn spec_field_sep(s: Seq<u8>, p: usize, partial: bool) -> Result<usize, Failure> {
    match spec_ws(s, p, partial) {
        Err(e) => Err(e),
        Ok(q) => match spec_literal(s, q, seq![59u8], false, partial) {
            Err(e) => Err(e),
            Ok(r) => spec_ws(s, r, partial),
        },
    }
}

/// The fields after the first: `*(sep field)`, stopping before a separator
/// or field that does not match.
pub open spec fn spec_fields_rest(s: Seq<u8>, p: usize, d: Disposition, partial: bool) -> PRes<Disposition>
    decreases s.len() - p,
{
    match spec_field_sep(s, p, partial) {
        Err(Failure::Backtrack(_)) => Ok((p, d)),
        Err(e) => Err(e),
        Ok(q) => match spec_field(s, q, partial) {
            Err(Failure::Backtrack(_)) => Ok((p, d)),
            Err(e) => Err(e),
            Ok((r, f)) => if p < r <= s.len() {
                spec_fields_rest(s, r, spec_accumulate_field(d, f), partial)
            } else {
                Ok((p, d))
            },
        },
    }
}

/// `field *(sep field)`; the header needs a `name`.
pub open spec fn spec_content_disposition(s: Seq<u8>, p: usize, partial: bool) -> PRes<Header> {
    match spec_field(s, p, partial) {
        Err(e) => Err(e),
        Ok((q, f)) => match spec_fields_rest(s, q, spec_accumulate_field(empty_disposition(), f), partial) {
            Err(e) => Err(e),
            Ok((r, d)) => match d.name {
                Some(n) => Ok((r, Header::ContentDisposition { name: n, filename: d.filename })),
                None => Err(Failure::Backtrack(Some(Error::MissingName))),
            },
        },
    }
}

/// One or more header-value bytes, without surrounding space.
pub open spec fn spec_content_type(s: Seq<u8>, p: usize, partial: bool) -> PRes<Header> {
    match spec_take_while(s, p, 1, CharClass::VisibleAscii, partial) {
        Err(e) => Err(e),
        Ok(e) => {
            let a = spec_trim_start(s, p, e);
            Ok((e, Header::ContentType(Span { start: a, end: spec_trim_end(s, a, e) })))
        },
    }
}

/// `":" ws` and everything up to the end of the line.
pub open spec fn spec_other_header_rest(s: Seq<u8>, p: usize, partial: bool) -> Result<usize, Failure> {
    match spec_literal(s, p, seq![58u8], false, partial) {
        Err(e) => Err(e),
        Ok(q) => match spec_ws(s, q, partial) {
            Err(e) => Err(e),
            Ok(r) => spec_take_until(s, r, spec_crlf_seq(), partial),
        },
    }
}

/// `ws` then a `Content-Disposition`, a `Content-Type` or any other header.
/// No space is allowed between a header's name and its colon.
pub open spec fn spec_header(s: Seq<u8>, p: usize, partial: bool) -> PRes<Header> {
    match spec_ws(s, p, partial) {
        Err(e) => Err(e),
        Ok(q) => match spec_literal(s, q, spec_content_disposition_colon(), true, partial) {
            Ok(r) => cut(spec_content_disposition(s, r, partial)),
            Err(Failure::Backtrack(_)) => match spec_literal(s, q, spec_content_type_colon(), true, partial) {
                Ok(r) => cut(spec_content_type(s, r, partial)),
                Err(Failure::Backtrack(_)) => match spec_token(s, q, partial) {
                    Ok(r) => match spec_other_header_rest(s, r, partial) {
                        Ok(t) => Ok((t, Header::Other)),
                        Err(Failure::Backtrack(c)) => Err(Failure::Cut(c)),
                        Err(e) => Err(e),
                    },
                    Err(e) => Err(e),
                },
                Err(e) => Err(e),
            },
            Err(e) => Err(e),
        },
    }
}

/// A header and its line end.
pub open spec fn spec_header_line(s: Seq<u8>, p: usize, partial: bool) -> PRes<Header> {
    match spec_header(s, p, partial) {
        Err(e) => Err(e),
        Ok((q, h)) => match spec_crlf(s, q, partial) {
            Err(e) => Err(e),
            Ok(r) => Ok((r, h)),
        },
    }
}

/// The last `Content-Disposition` and the last `Content-Type` win.
pub open spec fn spec_accumulate_header(hs: Headers, h: Header) -> Headers {
    match h {
        Header::ContentDisposition { name, filename } => Headers { name: Some(name), filename, ..hs },
        Header::ContentType(ct) => Headers { content_type: Some(ct), ..hs },
        Header::Other => hs,
    }
}

pub open spec fn empty_headers() -> Headers {
    Headers { name: None, filename: None, content_type: None }
}

/// `ws crlf`: the blank line that ends the headers.
pub open spec fn spec_headers_end(s: Seq<u8>, p: usize, partial: bool) -> Result<usize, Failure> {
    match spec_ws(s, p, partial) {
        Err(e) => Err(e),
        Ok(q) => spec_crlf(s, q, partial),
    }
}

/// Header lines up to and including the blank line.
pub open spec fn spec_headers_rest(s: Seq<u8>, p: usize, hs: Headers, partial: bool) -> PRes<Headers>
    decreases s.len() - p,
{
    match spec_headers_end(s, p, partial) {
        Ok(q) => Ok((q, hs)),
        Err(Failure::Backtrack(_)) => match spec_header_line(s, p, partial) {
            Err(e) => Err(e),
            Ok((q, h)) => if p < q <= s.len() {
                spec_headers_rest(s, q, spec_accumulate_header(hs, h), partial)
            } else {
                Err(backtrack())
            },
        },
        Err(e) => Err(e),
    }
}

/// One or more header lines, then the blank line; the part needs a name.
#[verifier::opaque]
pub open spec fn spec_entry_info(s: Seq<u8>, p: usize, partial: bool) -> PRes<InfoSpans> {
    match spec_header_line(s, p, partial) {
        Err(e) => Err(e),
        Ok((q, h)) => match spec_headers_rest(s, q, spec_accumulate_header(empty_headers(), h), partial) {
            Err(e) => Err(e),
            Ok((r, hs)) => match hs.name {
                Some(n) => Ok((r, InfoSpans { name: n, filename: hs.filename, content_type: hs.content_type })),
                None => Err(Failure::Backtrack(Some(Error::MissingContentDisposition))),
            },
        },
    }
}

// ------------------------------------------------------------- delimiters

/// Which delimiter follows a marker that ends at `a`: `--` makes it a close
/// delimiter. `None` when a partial input ends too early to tell.
pub open spec fn spec_delimiter_kind(s: Seq<u8>, a: usize, partial: bool) -> Option<Delimiter> {
    match spec_literal(s, a, spec_dashes(), false, partial) {
        Ok(_) => Some(Delimiter::Close),
        Err(Failure::Incomplete) => None,
        Err(_) => Some(Delimiter::Open),
    }
}

/// Whether the marker that ends at `a` starts a delimiter line: an open
/// delimiter needs transport padding and a line end; a close delimiter needs
/// padding and a line end or the end of the input, and in a partial input is
/// accepted as soon as its `--` is seen.
pub open spec fn spec_suffix_status(s: Seq<u8>, a: usize, partial: bool) -> Status {
    match spec_delimiter_kind(s, a, partial) {
        None => Status::Incomplete,
        Some(Delimiter::Close) => if partial {
            Status::Valid
        } else {
            let c = spec_scan(s, (a + 2) as usize, CharClass::HorizontalSpace);
            if spec_crlf(s, c, false) is Ok || c == s.len() {
                Status::Valid
            } else {
                Status::Invalid
            }
        },
        Some(_) => {
            let c = spec_scan(s, a, CharClass::HorizontalSpace);
            match spec_crlf(s, c, partial) {
                Ok(_) => Status::Valid,
                Err(Failure::Incomplete) => Status::Incomplete,
                Err(_) => Status::Invalid,
            }
        },
    }
}

/// The first occurrence of the line marker `m` at or after `j` that is not an
/// invalid delimiter: its position if it is a delimiter, `Incomplete` if a
/// partial input cannot tell yet. Without one, a partial input needs more
/// bytes and a complete one has no delimiter.
pub open spec fn spec_find_valid_marker(s: Seq<u8>, j: usize, m: Seq<u8>, partial: bool) -> Result<usize, Failure>
    decreases s.len() - j,
{
    match spec_find(s, j, m) {
        None => if partial {
            Err(Failure::Incomplete)
        } else {
            Err(backtrack())
        },
        Some(k) => match spec_suffix_status(s, (k + m.len()) as usize, partial) {
            Status::Valid => Ok(k),
            Status::Incomplete => Err(Failure::Incomplete),
            Status::Invalid => if j <= k < s.len() && k < usize::MAX {
                spec_find_valid_marker(s, (k + 1) as usize, m, partial)
            } else {
                Err(backtrack())
            },
        },
    }
}

/// `\r\n--boundary` as `--boundary`.
pub open spec fn initial_of(m: Seq<u8>) -> Seq<u8> {
    m.subrange(2, m.len() as int)
}

/// `\r\n--boundary` as `boundary`.
pub open spec fn boundary_of(m: Seq<u8>) -> Seq<u8> {
    m.subrange(4, m.len() as int)
}

/// Skips the preamble: succeeds at `p` when the input opens with a
/// delimiter, else just after the line end that precedes the first delimiter.
pub open spec fn spec_skip_preamble(s: Seq<u8>, p: usize, m: Seq<u8>, partial: bool) -> Result<usize, Failure> {
    let initial = spec_literal(s, p, initial_of(m), false, partial);
    if initial is Err && initial->Err_0 is Incomplete {
        Err(Failure::Incomplete)
    } else if initial is Ok && spec_suffix_status(s, initial->Ok_0, partial) == Status::Valid {
        Ok(p)
    } else if initial is Ok && spec_suffix_status(s, initial->Ok_0, partial) == Status::Incomplete {
        Err(Failure::Incomplete)
    } else {
        match spec_find_valid_marker(s, p, m, partial) {
            Ok(k) => Ok((k + 2) as usize),
            Err(Failure::Incomplete) => Err(Failure::Incomplete),
            Err(_) => Err(Failure::Backtrack(Some(Error::MissingOpeningBoundary))),
        }
    }
}

/// A part's value runs up to the next delimiter; the position after it is
/// just past the line end that precedes the delimiter.
pub open spec fn spec_value_body(s: Seq<u8>, p: usize, m: Seq<u8>, partial: bool) -> PRes<Span> {
    match spec_find_valid_marker(s, p, m, partial) {
        Ok(k) => Ok(((k + 2) as usize, Span { start: p, end: k })),
        Err(Failure::Incomplete) => Err(Failure::Incomplete),
        Err(_) => Err(Failure::Backtrack(Some(Error::MissingClosingBoundary))),
    }
}

/// `--boundary`, then either `--` (a close delimiter, `true`) or `ws crlf`
/// (an open delimiter, `false`).
pub open spec fn spec_delimiter_line(s: Seq<u8>, p: usize, m: Seq<u8>, partial: bool) -> PRes<bool> {
    match spec_literal(s, p, spec_dashes(), false, partial) {
        Err(e) => Err(e),
        Ok(q1) => match spec_literal(s, q1, boundary_of(m), false, partial) {
            Err(e) => Err(e),
            Ok(q2) => match spec_literal(s, q2, spec_dashes(), false, partial) {
                Ok(q3) => Ok((q3, true)),
                Err(Failure::Backtrack(_)) => match spec_headers_end(s, q2, partial) {
                    Ok(q4) => Ok((q4, false)),
                    Err(e) => Err(e),
                },
                Err(e) => Err(e),
            },
        },
    }
}

/// After a close delimiter: padding and an optional line end, judged as
/// complete input.
pub open spec fn spec_close_tail(s: Seq<u8>, p: usize) -> usize {
    let c = spec_scan(s, p, CharClass::HorizontalSpace);
    match spec_crlf(s, c, false) {
        Ok(d) => d,
        Err(_) => c,
    }
}

/// An open delimiter line and the part's headers: the position where the
/// part's value starts, and the part's metadata.
pub open spec fn spec_entry_head(s: Seq<u8>, p: usize, m: Seq<u8>, partial: bool) -> PRes<InfoSpans> {
    match spec_delimiter_line(s, p, m, partial) {
        Err(e) => Err(e),
        Ok((_, true)) => Err(backtrack()),
        Ok((q, false)) => spec_entry_info(s, q, partial),
    }
}

/// A delimiter and the part after it: `None` for the close delimiter.
pub open spec fn spec_next_entry(s: Seq<u8>, p: usize, m: Seq<u8>, partial: bool) -> PRes<Option<EntrySpans>> {
    match spec_delimiter_line(s, p, m, partial) {
        Err(e) => Err(e),
        Ok((q, true)) => Ok((spec_close_tail(s, q), None)),
        Ok((q, false)) => match spec_entry_info(s, q, partial) {
            Err(e) => Err(e),
            Ok((r, info)) => match spec_value_body(s, r, m, partial) {
                Err(e) => Err(e),
                Ok((t, v)) => Ok((t, Some(EntrySpans { info, value: v }))),
            },
        },
    }
}

// ------------------------------------------------------------ content type

/// `multipart/form-data` with its parameters, as complete input: the value of
/// its only `boundary` parameter.
pub open spec fn spec_boundary_param(s: Seq<u8>) -> Option<Span> {
    match spec_ws(s, 0, false) {
        Err(_) => None,
        Ok(q1) => match spec_literal(s, q1, spec_multipart_form_data(), true, false) {
            Err(_) => None,
            Ok(q2) => match spec_ws(s, q2, false) {
                Err(_) => None,
                Ok(q3) => spec_params_boundary(s, q3, None),
            },
        },
    }
}

/// `";" ws token ws "=" ws value`
pub open spec fn spec_media_param(s: Seq<u8>, p: usize) -> Option<(usize, Span, Span)> {
    match spec_literal(s, p, seq![59u8], false, false) {
        Err(_) => None,
        Ok(q1) => match spec_ws(s, q1, false) {
            Err(_) => None,
            Ok(q2) => match spec_token(s, q2, false) {
                Err(_) => None,
                Ok(k) => match spec_ws(s, k, false) {
                    Err(_) => None,
                    Ok(q3) => match spec_literal(s, q3, seq![61u8], false, false) {
                        Err(_) => None,
                        Ok(q4) => match spec_ws(s, q4, false) {
                            Err(_) => None,
                            Ok(q5) => match spec_take_value(s, q5, false) {
                                Err(_) => None,
                                Ok((q6, v)) => Some((q6, Span { start: q2, end: k }, v)),
                            },
                        },
                    },
                },
            },
        },
    }
}

/// Parameters up to the end of the input; a second `boundary` fails.
pub open spec fn spec_params_boundary(s: Seq<u8>, p: usize, found: Option<Span>) -> Option<Span>
    decreases s.len() - p,
{
    if p >= s.len() {
        found
    } else {
        match spec_media_param(s, p) {
            None => None,
            Some((q, key, v)) => {
                let is_boundary = spec_eq_ignore_case(
                    s.subrange(key.start as int, key.end as int),
                    spec_boundary_seq(),
                );
                if is_boundary && found is Some {
                    None
                } else if p < q <= s.len() {
                    spec_params_boundary(s, q, if is_boundary { Some(v) } else { found })
                } else {
                    None
                }
            },
        }
    }
}

} // verus!
