//! Byte classes and scanning helpers shared by the multipart grammar.
use vstd::prelude::*;

verus! {

/// `SP` or `HTAB`.
pub open spec fn spec_is_horizontal_space(b: u8) -> bool {
    b == 32 || b == 9
}

/// An RFC 7230 `tchar`.
pub open spec fn spec_is_token(b: u8) -> bool {
    ||| 48 <= b <= 57
    ||| 65 <= b <= 90
    ||| 97 <= b <= 122
    ||| b == 33 || b == 35 || b == 36 || b == 37 || b == 38 || b == 39
    ||| b == 42 || b == 43 || b == 45 || b == 46
    ||| b == 94 || b == 95 || b == 96 || b == 124 || b == 126
}

/// A byte allowed in a header value: `HTAB`, `SP` or a visible ASCII character.
pub open spec fn spec_is_visible_ascii(b: u8) -> bool {
    b == 9 || (32 <= b <= 126)
}

/// An RFC 7230 `qdtext` byte: what a quoted string may hold, backslash excluded.
pub open spec fn spec_is_qdtext(b: u8) -> bool {
    ||| b == 9 || b == 32 || b == 33
    ||| 35 <= b <= 91
    ||| 93 <= b <= 126
    ||| b >= 128
}

/// ASCII lowercase of a byte.
pub open spec fn spec_lower(b: u8) -> u8 {
    if 65 <= b <= 90 {
        (b + 32) as u8
    } else {
        b
    }
}

/// The byte classes that the grammar scans over.
#[derive(Copy, Clone, Debug, PartialEq, Eq, Structural)]
pub enum CharClass {
    HorizontalSpace,
    Token,
    VisibleAscii,
    QuotedText,
}

pub open spec fn spec_in_class(c: CharClass, b: u8) -> bool {
    match c {
        CharClass::HorizontalSpace => spec_is_horizontal_space(b),
        CharClass::Token => spec_is_token(b),
        CharClass::VisibleAscii => spec_is_visible_ascii(b),
        CharClass::QuotedText => spec_is_qdtext(b),
    }
}

/// The first position at or after `p` whose byte is not in `c`, or the end of `s`.
pub open spec fn spec_scan(s: Seq<u8>, p: usize, c: CharClass) -> usize
    decreases s.len() - p,
{
    if p >= s.len() || p == usize::MAX {
        p
    } else if !spec_in_class(c, s[p as int]) {
        p
    } else {
        spec_scan(s, (p + 1) as usize, c)
    }
}

/// Whether every byte of `s[a..b]` is in `c`.
pub open spec fn all_in_class(s: Seq<u8>, a: int, b: int, c: CharClass) -> bool {
    forall|i: int| a <= i < b ==> spec_in_class(c, #[trigger] s[i])
}

pub proof fn lemma_scan(s: Seq<u8>, p: usize, c: CharClass)
    requires
        p <= s.len() <= usize::MAX,
    ensures
        p <= spec_scan(s, p, c) <= s.len(),
        all_in_class(s, p as int, spec_scan(s, p, c) as int, c),
        spec_scan(s, p, c) < s.len() ==> !spec_in_class(c, s[spec_scan(s, p, c) as int]),
    decreases s.len() - p,
{
    if p < s.len() && spec_in_class(c, s[p as int]) {
        lemma_scan(s, (p + 1) as usize, c);
    }
}

/// The scan result is fixed by the bytes it covers: any sequence that agrees
/// with `s` up to and including the stopping byte gives the same result.
pub proof fn lemma_scan_unique(s: Seq<u8>, p: usize, c: CharClass, e: usize)
    requires
        p <= e <= s.len() <= usize::MAX,
        all_in_class(s, p as int, e as int, c),
        e < s.len() ==> !spec_in_class(c, s[e as int]),
    ensures
        spec_scan(s, p, c) == e,
    decreases e - p,
{
    if p < e {
        lemma_scan_unique(s, (p + 1) as usize, c, e);
    }
}

/// `SP` or `HTAB`.
pub fn is_horizontal_space(b: u8) -> (r: bool)
    ensures
        r == spec_is_horizontal_space(b),
{
    b == 32 || b == 9
}

/// An RFC 7230 `tchar`.
pub fn is_token(b: u8) -> (r: bool)
    ensures
        r == spec_is_token(b),
{
    (48 <= b && b <= 57) || (65 <= b && b <= 90) || (97 <= b && b <= 122) || b == 33 || b == 35
        || b == 36 || b == 37 || b == 38 || b == 39 || b == 42 || b == 43 || b == 45 || b == 46
        || b == 94 || b == 95 || b == 96 || b == 124 || b == 126
}

/// `HTAB`, `SP` or a visible ASCII character.
pub fn is_visible_ascii(b: u8) -> (r: bool)
    ensures
        r == spec_is_visible_ascii(b),
{
    b == 9 || (32 <= b && b <= 126)
}

/// A byte a quoted string may hold.
pub fn is_qdtext(b: u8) -> (r: bool)
    ensures
        r == spec_is_qdtext(b),
{
    b == 9 || b == 32 || b == 33 || (35 <= b && b <= 91) || (93 <= b && b <= 126) || b >= 128
}

/// ASCII lowercase of a byte.
pub fn to_lower(b: u8) -> (r: u8)
    ensures
        r == spec_lower(b),
{
    if 65 <= b && b <= 90 {
        b + 32
    } else {
        b
    }
}

/// Whether `b` is in the class `c`.
pub fn in_class(c: CharClass, b: u8) -> (r: bool)
    ensures
        r == spec_in_class(c, b),
{
    match c {
        CharClass::HorizontalSpace => is_horizontal_space(b),
        CharClass::Token => is_token(b),
        CharClass::VisibleAscii => is_visible_ascii(b),
        CharClass::QuotedText => is_qdtext(b),
    }
}

/// Finds the first position at or after `p` whose byte is not in `c`.
pub fn scan(s: &[u8], p: usize, c: CharClass) -> (r: usize)
    requires
        p <= s@.len(),
    ensures
        r == spec_scan(s@, p, c),
{
    let mut i = p;
    while i < s.len() && in_class(c, s[i])
        invariant
            p <= i <= s@.len(),
            all_in_class(s@, p as int, i as int, c),
        decreases s@.len() - i,
    {
        i = i + 1;
    }
    proof {
        lemma_scan_unique(s@, p, c, i);
    }
    i
}

/// Case-insensitive ASCII equality of two byte strings.
pub open spec fn spec_eq_ignore_case(a: Seq<u8>, b: Seq<u8>) -> bool {
    a.len() == b.len() && forall|i: int| 0 <= i < a.len() ==> spec_lower(#[trigger] a[i]) == spec_lower(b[i])
}

/// Case-insensitive ASCII equality of two byte strings.
pub fn eq_ignore_ascii_case(a: &[u8], b: &[u8]) -> (r: bool)
    ensures
        r == spec_eq_ignore_case(a@, b@),
{
    if a.len() != b.len() {
        return false;
    }
    let mut i: usize = 0;
    while i < a.len()
        invariant
            a@.len() == b@.len(),
            i <= a@.len(),
            forall|j: int| 0 <= j < i ==> spec_lower(#[trigger] a@[j]) == spec_lower(b@[j]),
        decreases a@.len() - i,
    {
        if to_lower(a[i]) != to_lower(b[i]) {
            return false;
        }
        i = i + 1;
    }
    true
}

/// The span `[a, b)` with horizontal space removed from both ends.
pub open spec fn spec_trim_start(s: Seq<u8>, a: usize, b: usize) -> usize
    decreases b - a,
{
    if a < b && b <= s.len() && spec_is_horizontal_space(s[a as int]) {
        spec_trim_start(s, (a + 1) as usize, b)
    } else {
        a
    }
}

pub open spec fn spec_trim_end(s: Seq<u8>, a: usize, b: usize) -> usize
    decreases b - a,
{
    if a < b && b <= s.len() && spec_is_horizontal_space(s[b - 1]) {
        spec_trim_end(s, a, (b - 1) as usize)
    } else {
        b
    }
}

/// The span `[a, b)` of `s` without horizontal space at either end.
pub fn trim(s: &[u8], a: usize, b: usize) -> (r: (usize, usize))
    requires
        a <= b <= s@.len(),
    ensures
        r.0 == spec_trim_start(s@, a, b),
        r.1 == spec_trim_end(s@, r.0, b),
        a <= r.0 <= r.1 <= b,
{
    let mut i = a;
    while i < b && is_horizontal_space(s[i])
        invariant
            a <= i <= b <= s@.len(),
            spec_trim_start(s@, i, b) == spec_trim_start(s@, a, b),
        decreases b - i,
    {
        i = i + 1;
    }
    let mut j = b;
    while i < j && is_horizontal_space(s[j - 1])
        invariant
            a <= i <= j <= b <= s@.len(),
            spec_trim_end(s@, i, j) == spec_trim_end(s@, i, b),
        decreases j - i,
    {
        j = j - 1;
    }
    (i, j)
}

} // verus!
