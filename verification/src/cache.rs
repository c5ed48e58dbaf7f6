//! When the boundary-search state cached in `State` may be trusted.
//!
//! A search over the data that starts at `b` caches where to resume
//! (`search_off`) and how far a candidate delimiter has been checked
//! (`progress`). The cache is sound for an input when resuming from it finds
//! what a search from `b` would find.
use vstd::prelude::*;

use crate::bounds::{fits, lemma_literal_bounds};
use crate::error::{Failure};
use crate::grammar::{Status, initial_of, occurs_at, spec_crlf_seq, spec_dashes, spec_delimiter_kind, spec_entry_head, spec_find, spec_find_valid_marker, spec_literal, spec_suffix_status};
use crate::stability::{extends, is_prefix, lemma_entry_head_stable, lemma_find_first, lemma_find_skip, lemma_find_unique, lemma_literal_stable, lemma_occurs_stable, lemma_scan_stable};
use crate::state::{Delimiter, Progress, State, spec_prefix_len};
use crate::trivia::{CharClass, all_in_class, lemma_scan, lemma_scan_unique, spec_in_class, spec_scan};

verus! {

/// What `progress` records of the candidate at `b + marker_off` holds of `s`:
/// a resolved delimiter kind is the one that `s` shows, and the padding bytes
/// already counted are horizontal space.
pub open spec fn progress_ok(s: Seq<u8>, b: int, pr: Progress) -> bool {
    let a = b + pr.marker_off + pr.marker_len;
    &&& a <= s.len()
    &&& match pr.delim {
        Delimiter::Unknown => pr.padding_len == 0,
        _ => {
            &&& spec_delimiter_kind(s, a as usize, true) == Some(pr.delim)
            &&& a + spec_prefix_len(pr.delim) + pr.padding_len <= s.len()
            &&& all_in_class(
                s,
                a + spec_prefix_len(pr.delim),
                a + spec_prefix_len(pr.delim) + pr.padding_len,
                CharClass::HorizontalSpace,
            )
        },
    }
}

/// Every occurrence of `m` in `[lo, hi)` is an invalid delimiter.
pub open spec fn all_invalid(s: Seq<u8>, lo: int, hi: int, m: Seq<u8>, partial: bool) -> bool {
    forall|k: int|
        lo <= k < hi && #[trigger] occurs_at(s, k, m) ==> spec_suffix_status(s, (k + m.len()) as usize, partial)
            == Status::Invalid
}

/// `m` does not occur in `[lo, hi)`.
pub open spec fn none_occurs(s: Seq<u8>, lo: int, hi: int, m: Seq<u8>) -> bool {
    forall|k: int| lo <= k < hi ==> !#[trigger] occurs_at(s, k, m)
}

/// The search state `st` for the data of `s` that starts at `b` is sound:
/// occurrences before `search_off` are invalid delimiters, and a candidate in
/// progress is the first occurrence from `search_off`.
pub open spec fn cache_ok(st: State, s: Seq<u8>, b: int, m: Seq<u8>, partial: bool) -> bool {
    let n = m.len();
    &&& 0 <= b
    &&& b + st.search_off <= s.len()
    &&& (st.search_off == 0 || b + st.search_off + n <= s.len() + 1)
    &&& all_invalid(s, b, b + st.search_off, m, partial)
    &&& (st.progress matches Some(pr) ==> {
        &&& pr.marker_len == n
        &&& st.search_off <= pr.marker_off
        &&& occurs_at(s, b + pr.marker_off, m)
        &&& none_occurs(s, b + st.search_off, b + pr.marker_off, m)
        &&& progress_ok(s, b, pr)
    })
}

pub proof fn lemma_kind_modes(s: Seq<u8>, a: usize, mode: bool)
    requires
        fits(s, a),
    ensures
        spec_delimiter_kind(s, a, true) is Some ==> spec_delimiter_kind(s, a, mode) == spec_delimiter_kind(s, a, true),
{
    lemma_literal_stable(s, s, a, spec_dashes(), false, mode);
}

/// A candidate that a partial input shows to be invalid is invalid in every
/// extension of it, in either mode.
pub proof fn lemma_invalid_stable(s: Seq<u8>, x: Seq<u8>, a: usize, mode: bool)
    requires
        extends(s, x, a),
        spec_suffix_status(s, a, true) == Status::Invalid,
    ensures
        spec_suffix_status(x, a, mode) == Status::Invalid,
{
    lemma_literal_stable(s, x, a, spec_dashes(), false, mode);
    lemma_scan(s, a, CharClass::HorizontalSpace);
    let c = spec_scan(s, a, CharClass::HorizontalSpace);
    if c < s.len() {
        lemma_scan_stable(s, x, a, CharClass::HorizontalSpace);
    }
    lemma_literal_stable(s, x, c, spec_crlf_seq(), false, mode);
}

/// A valid open delimiter stays valid in every extension, in either mode; a
/// valid one stays valid in every partial extension.
pub proof fn lemma_valid_stable(s: Seq<u8>, x: Seq<u8>, a: usize, mode: bool)
    requires
        extends(s, x, a),
        spec_suffix_status(s, a, true) == Status::Valid,
    ensures
        spec_suffix_status(x, a, true) == Status::Valid,
        spec_delimiter_kind(s, a, true) == Some(Delimiter::Open) ==> spec_suffix_status(x, a, mode) == Status::Valid,
        spec_delimiter_kind(x, a, true) == spec_delimiter_kind(s, a, true),
{
    lemma_literal_stable(s, x, a, spec_dashes(), false, mode);
    lemma_literal_stable(s, x, a, spec_dashes(), false, true);
    lemma_scan(s, a, CharClass::HorizontalSpace);
    let c = spec_scan(s, a, CharClass::HorizontalSpace);
    if c < s.len() {
        lemma_scan_stable(s, x, a, CharClass::HorizontalSpace);
    }
    lemma_literal_stable(s, x, c, spec_crlf_seq(), false, mode);
    lemma_literal_stable(s, x, c, spec_crlf_seq(), false, true);
}

/// Judged on the same input, a partially invalid candidate is invalid in
/// either mode.
pub proof fn lemma_invalid_modes(s: Seq<u8>, a: usize, mode: bool)
    requires
        fits(s, a),
        spec_suffix_status(s, a, true) == Status::Invalid,
    ensures
        spec_suffix_status(s, a, mode) == Status::Invalid,
{
    lemma_invalid_stable(s, s, a, mode);
}

/// A search from `j` and one from `j2` agree when every occurrence in between
/// is an invalid delimiter.
pub proof fn lemma_fvm_skip(s: Seq<u8>, j: usize, j2: usize, m: Seq<u8>, partial: bool)
    requires
        j <= j2 <= s.len() <= usize::MAX,
        m.len() >= 1,
        all_invalid(s, j as int, j2 as int, m, partial),
    ensures
        spec_find_valid_marker(s, j, m, partial) == spec_find_valid_marker(s, j2, m, partial),
    decreases j2 - j,
{
    lemma_find_first(s, j, m);
    match spec_find(s, j, m) {
        Some(k) => {
            if k < j2 {
                assert(occurs_at(s, k as int, m));
                lemma_fvm_skip(s, (k + 1) as usize, j2, m, partial);
            } else {
                lemma_find_skip(s, j, j2, m);
            }
        },
        None => {
            lemma_find_skip(s, j, j2, m);
        },
    }
}

/// Resuming from a sound cache finds what a search from `b` finds.
pub proof fn lemma_cache_resume(st: State, s: Seq<u8>, b: usize, m: Seq<u8>, partial: bool)
    requires
        s.len() <= usize::MAX,
        m.len() >= 1,
        cache_ok(st, s, b as int, m, partial),
    ensures
        spec_find_valid_marker(s, b, m, partial) == spec_find_valid_marker(s, (b + st.search_off) as usize, m, partial),
        st.progress matches Some(pr) ==> spec_find(s, (b + st.search_off) as usize, m) == Some((b + pr.marker_off) as usize),
{
    lemma_fvm_skip(s, b, (b + st.search_off) as usize, m, partial);
    if let Some(pr) = st.progress {
        lemma_find_unique(s, (b + st.search_off) as usize, (b + pr.marker_off) as usize, m);
    }
}

/// A cache judged on a partial input is sound in either mode.
pub proof fn lemma_cache_modes(st: State, s: Seq<u8>, b: int, m: Seq<u8>, mode: bool)
    requires
        s.len() <= usize::MAX,
        cache_ok(st, s, b, m, true),
    ensures
        cache_ok(st, s, b, m, mode),
{
    assert forall|k: int| b <= k < b + st.search_off && #[trigger] occurs_at(s, k, m) implies spec_suffix_status(
        s,
        (k + m.len()) as usize,
        mode,
    ) == Status::Invalid by {
        lemma_invalid_modes(s, (k + m.len()) as usize, mode);
    }
}

/// A cache that is sound for a partial input stays sound when the input grows.
pub proof fn lemma_cache_extend(st: State, s: Seq<u8>, x: Seq<u8>, b: int, m: Seq<u8>)
    requires
        is_prefix(s, x),
        x.len() <= usize::MAX,
        m.len() >= 1,
        cache_ok(st, s, b, m, true),
    ensures
        cache_ok(st, x, b, m, true),
{
    let n = m.len();
    assert forall|k: int| b <= k < b + st.search_off && #[trigger] occurs_at(x, k, m) implies spec_suffix_status(
        x,
        (k + n) as usize,
        true,
    ) == Status::Invalid by {
        lemma_occurs_stable(s, x, k, m);
        lemma_invalid_stable(s, x, (k + n) as usize, true);
    }
    if let Some(pr) = st.progress {
        lemma_occurs_stable(s, x, b + pr.marker_off, m);
        assert forall|k: int| b + st.search_off <= k < b + pr.marker_off implies !#[trigger] occurs_at(x, k, m) by {
            lemma_occurs_stable(s, x, k, m);
        }
        let a = b + pr.marker_off + pr.marker_len;
        if pr.delim != Delimiter::Unknown {
            lemma_literal_stable(s, x, a as usize, spec_dashes(), false, true);
            let lo = a + spec_prefix_len(pr.delim);
            assert forall|i: int| lo <= i < lo + pr.padding_len implies spec_in_class(
                CharClass::HorizontalSpace,
                #[trigger] x[i],
            ) by {
                assert(s[i] == x[i]);
            }
        }
    }
}

/// Scanning from a later position inside a run of the class ends at the same place.
pub proof fn lemma_scan_skip(s: Seq<u8>, x: usize, y: usize, c: CharClass)
    requires
        x <= y <= s.len() <= usize::MAX,
        all_in_class(s, x as int, y as int, c),
    ensures
        spec_scan(s, x, c) == spec_scan(s, y, c),
{
    lemma_scan(s, y, c);
    let e = spec_scan(s, y, c);
    assert(all_in_class(s, x as int, e as int, c));
    lemma_scan_unique(s, x, c, e);
}


/// After the candidate in progress turns out invalid, resuming just past it
/// is sound and finds what resuming at it would.
pub proof fn lemma_cache_skip_candidate(st: State, st2: State, s: Seq<u8>, b: usize, m: Seq<u8>, partial: bool)
    requires
        s.len() <= usize::MAX,
        m.len() >= 1,
        cache_ok(st, s, b as int, m, partial),
        st.progress is Some,
        spec_suffix_status(s, (b + st.progress->Some_0.marker_off + m.len()) as usize, partial) == Status::Invalid,
        st2.search_off == st.progress->Some_0.marker_off + 1,
        st2.progress is None,
    ensures
        cache_ok(st2, s, b as int, m, partial),
        spec_find_valid_marker(s, (b + st.search_off) as usize, m, partial) == spec_find_valid_marker(
            s,
            (b + st2.search_off) as usize,
            m,
            partial,
        ),
{
    let pr = st.progress->Some_0;
    let k = b + pr.marker_off;
    lemma_find_unique(s, (b + st.search_off) as usize, k as usize, m);
    assert forall|j: int| b <= j < k + 1 && #[trigger] occurs_at(s, j, m) implies spec_suffix_status(
        s,
        (j + m.len()) as usize,
        partial,
    ) == Status::Invalid by {
        if j < b + st.search_off {
        } else if j < k {
            assert(!occurs_at(s, j, m));
        }
    }
}

/// Recording the next occurrence found from the resume offset as the
/// candidate in progress is sound.
pub proof fn lemma_cache_new_candidate(st: State, st2: State, s: Seq<u8>, b: usize, m: Seq<u8>, partial: bool, k: usize)
    requires
        s.len() <= usize::MAX,
        m.len() >= 1,
        cache_ok(st, s, b as int, m, partial),
        spec_find(s, (b + st.search_off) as usize, m) == Some(k),
        st2.search_off == st.search_off,
        st2.progress == Some(Progress { marker_off: (k - b) as usize, marker_len: m.len() as usize, padding_len: 0, delim: Delimiter::Unknown }),
    ensures
        cache_ok(st2, s, b as int, m, partial),
        b + st.search_off <= k,
        k + m.len() <= s.len(),
{
    lemma_find_first(s, (b + st.search_off) as usize, m);
}

/// With no occurrence left, resuming where a later occurrence could still
/// start is sound.
pub proof fn lemma_cache_exhausted(st: State, st2: State, s: Seq<u8>, b: usize, m: Seq<u8>, partial: bool)
    requires
        s.len() <= usize::MAX,
        m.len() >= 1,
        cache_ok(st, s, b as int, m, partial),
        st.progress is None,
        spec_find(s, (b + st.search_off) as usize, m) is None,
        st2.progress is None,
        st2.search_off == (if s.len() - b >= m.len() - 1 { s.len() - b - (m.len() - 1) } else { 0 }),
    ensures
        cache_ok(st2, s, b as int, m, partial),
{
    lemma_find_first(s, (b + st.search_off) as usize, m);
    assert forall|j: int| b <= j < b + st2.search_off && #[trigger] occurs_at(s, j, m) implies spec_suffix_status(
        s,
        (j + m.len()) as usize,
        partial,
    ) == Status::Invalid by {
        if j >= b + st.search_off {
            assert(!occurs_at(s, j, m));
        }
    }
}


/// The check for an opening delimiter at `b` moves on to the search: the
/// input does not start with `--boundary`, or what follows it is no delimiter.
pub open spec fn initial_skips(s: Seq<u8>, b: usize, m: Seq<u8>) -> bool {
    let init = spec_literal(s, b, initial_of(m), false, true);
    ||| init matches Err(Failure::Backtrack(_))
    ||| (init matches Ok(q) && spec_suffix_status(s, q, true) == Status::Invalid)
}

/// The preamble search will check for an opening delimiter at `b` first.
pub open spec fn initial_pending(st: State) -> bool {
    st.search_off == 0 && (st.progress matches Some(pr) ==> pr.marker_off == 0)
}

/// The state of a preamble search over the data of `s` from `b` is sound:
/// either the opening candidate at `b` is still being checked, or the
/// opening check failed and the delimiter search cache is sound.
pub open spec fn pre_cache_ok(st: State, s: Seq<u8>, b: usize, m: Seq<u8>) -> bool {
    &&& b <= s.len()
    &&& if initial_pending(st) {
        match st.progress {
            None => true,
            Some(pr) => if pr.marker_len == initial_of(m).len() {
                spec_literal(s, b, initial_of(m), false, true) is Ok && progress_ok(s, b as int, pr)
            } else {
                initial_skips(s, b, m) && cache_ok(st, s, b as int, m, true)
            },
        }
    } else {
        initial_skips(s, b, m) && cache_ok(st, s, b as int, m, true)
    }
}

/// The state cached for parsing a part at `p` is sound: nothing is cached, or
/// the part's headers end at `v` and the cache is sound for its value.
pub open spec fn entry_cache_ok(st: State, s: Seq<u8>, p: usize, m: Seq<u8>) -> bool {
    ||| st.fresh()
    ||| (spec_entry_head(s, p, m, true) matches Ok((v, _)) && cache_ok(st, s, v as int, m, true))
}

/// A state that caches nothing is sound for any search.
pub proof fn lemma_fresh_cache_ok(st: State, s: Seq<u8>, b: int, m: Seq<u8>, partial: bool)
    requires
        st.fresh(),
        0 <= b <= s.len(),
    ensures
        cache_ok(st, s, b, m, partial),
{
}

/// An opening-check decision made on a partial input holds in either mode.
pub proof fn lemma_initial_skips_modes(s: Seq<u8>, b: usize, m: Seq<u8>, mode: bool)
    requires
        fits(s, b),
        initial_skips(s, b, m),
    ensures
        spec_literal(s, b, initial_of(m), false, mode) is Err || (spec_literal(s, b, initial_of(m), false, mode) matches Ok(q)
            && spec_suffix_status(s, q, mode) == Status::Invalid),
        !(spec_literal(s, b, initial_of(m), false, mode) matches Err(Failure::Incomplete)),
{
    lemma_literal_stable(s, s, b, initial_of(m), false, mode);
    if let Ok(q) = spec_literal(s, b, initial_of(m), false, true) {
        lemma_invalid_modes(s, q, mode);
    }
}


/// What a progress records of a partial input holds of every extension.
pub proof fn lemma_progress_extend(s: Seq<u8>, x: Seq<u8>, b: int, pr: Progress)
    requires
        is_prefix(s, x),
        x.len() <= usize::MAX,
        0 <= b,
        progress_ok(s, b, pr),
    ensures
        progress_ok(x, b, pr),
{
    let a = b + pr.marker_off + pr.marker_len;
    if pr.delim != Delimiter::Unknown {
        lemma_literal_stable(s, x, a as usize, spec_dashes(), false, true);
        let lo = a + spec_prefix_len(pr.delim);
        assert forall|i: int| lo <= i < lo + pr.padding_len implies spec_in_class(
            CharClass::HorizontalSpace,
            #[trigger] x[i],
        ) by {
            assert(s[i] == x[i]);
        }
    }
}

/// A sound preamble state stays sound when the input grows.
pub proof fn lemma_pre_cache_extend(st: State, s: Seq<u8>, x: Seq<u8>, b: usize, m: Seq<u8>)
    requires
        is_prefix(s, x),
        x.len() <= usize::MAX,
        m.len() >= 1,
        pre_cache_ok(st, s, b, m),
    ensures
        pre_cache_ok(st, x, b, m),
{
    lemma_literal_stable(s, x, b, initial_of(m), false, true);
    let init = spec_literal(s, b, initial_of(m), false, true);
    if init is Ok {
        lemma_literal_bounds(s, b, initial_of(m), false, true);
        if spec_suffix_status(s, init->Ok_0, true) == Status::Invalid {
            lemma_invalid_stable(s, x, init->Ok_0, true);
        }
    }
    if let Some(pr) = st.progress {
        if initial_pending(st) && pr.marker_len == initial_of(m).len() {
            lemma_progress_extend(s, x, b as int, pr);
        } else {
            lemma_cache_extend(st, s, x, b as int, m);
        }
    } else if !initial_pending(st) {
        lemma_cache_extend(st, s, x, b as int, m);
    }
}

/// A sound part state stays sound when the input grows.
pub proof fn lemma_entry_cache_extend(st: State, s: Seq<u8>, x: Seq<u8>, p: usize, m: Seq<u8>)
    requires
        is_prefix(s, x),
        x.len() <= usize::MAX,
        m.len() >= 1,
        p <= s.len(),
        entry_cache_ok(st, s, p, m),
    ensures
        entry_cache_ok(st, x, p, m),
{
    if !st.fresh() {
        lemma_entry_head_stable(s, x, p, m, true);
        let v = spec_entry_head(s, p, m, true)->Ok_0.0;
        lemma_cache_extend(st, s, x, v as int, m);
    }
}

} // verus!
