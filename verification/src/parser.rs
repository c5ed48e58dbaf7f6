//! Resumable delimiter search and the part-level rules over a stream.
use vstd::prelude::*;

use crate::bounds::{lemma_delimiter_line_bounds, lemma_find_bounds, lemma_literal_bounds, lemma_slice_fits};
use crate::cache::{cache_ok, entry_cache_ok, initial_pending, initial_skips, lemma_cache_exhausted, lemma_cache_modes, lemma_cache_new_candidate, lemma_cache_resume, lemma_cache_skip_candidate, lemma_fresh_cache_ok, lemma_initial_skips_modes, lemma_kind_modes, lemma_scan_skip, pre_cache_ok, progress_ok};
use crate::error::{Error, Failure};
use crate::grammar::{spec_close_tail, spec_delimiter_line, EntrySpans, InfoSpans, Span, Status, backtrack, boundary_of, initial_of, occurs_at, spec_dashes, spec_delimiter_kind, spec_entry_info, spec_find, spec_find_valid_marker, spec_literal, spec_next_entry, spec_skip_preamble, spec_suffix_status, spec_value_body};
use crate::primitives::{find, literal};
use crate::rules::{content_type, crlf, dashes_bytes, entry_info_at, header, headers_end};
use crate::stability::{lemma_entry_head_stable, lemma_find_first, lemma_literal_stable};
use crate::state::{spec_prefix_len, Delimiter, Progress, State, lemma_markers};
use crate::trivia::{lemma_scan_unique, spec_scan, CharClass, all_in_class, lemma_scan, scan};
use crate::{span_view, Entry, EntryInfo};

verus! {

/// Input to the part-level rules: the whole retained input, the position
/// reached, whether more input may follow, and the resumable state.
pub struct Stream<'a> {
    pub input: &'a [u8],
    pub pos: usize,
    pub partial: bool,
    pub state: State,
}

impl<'a> Stream<'a> {
    pub open spec fn wf(&self) -> bool {
        self.pos <= self.input@.len() && self.state.wf()
    }

    /// A close delimiter in progress has its `--` within the input.
    pub open spec fn close_ok(&self) -> bool {
        self.state.progress matches Some(pr) ==> (pr.delim == Delimiter::Close ==> self.pos + pr.marker_off
            + pr.marker_len + 2 <= self.input@.len())
    }

    /// The line marker `\r\n--boundary`.
    pub open spec fn marker(&self) -> Seq<u8> {
        self.state.line_marker_seq()
    }

    /// A stream at the start of `input`.
    pub fn new(input: &'a [u8], partial: bool, state: State) -> (r: Self)
        ensures
            r.input == input,
            r.pos == 0,
            r.partial == partial,
            r.state == state,
    {
        Stream { input, pos: 0, partial, state }
    }

    /// Treats the input as complete; returns whether it was partial.
    pub fn complete(&mut self) -> (was_partial: bool)
        ensures
            was_partial == old(self).partial,
            final(self).partial == false,
            final(self).input == old(self).input,
            final(self).pos == old(self).pos,
            final(self).state == old(self).state,
    {
        let was = self.partial;
        self.partial = false;
        was
    }

    /// Restores the partial flag that `complete` returned.
    pub fn restore_partial(&mut self, was_partial: bool)
        ensures
            final(self).partial == was_partial,
            final(self).input == old(self).input,
            final(self).pos == old(self).pos,
            final(self).state == old(self).state,
    {
        self.partial = was_partial;
    }
}

/// No close delimiter is in progress.
pub open spec fn no_close(st: State) -> bool {
    st.progress matches Some(pr) ==> pr.delim != Delimiter::Close
}

/// The result of a delimiter check as a rule result.
pub open spec fn status_result(st: Status) -> Result<(), Failure> {
    match st {
        Status::Valid => Ok(()),
        Status::Incomplete => Err(Failure::Incomplete),
        Status::Invalid => Err(backtrack()),
    }
}

/// Where the suffix of the candidate that `pr` records starts.
pub open spec fn suffix_start(pos: usize, pr: Progress) -> usize {
    (pos + pr.marker_off + pr.marker_len) as usize
}

/// The stream is unchanged but for its state.
pub open spec fn same_stream(a: Stream, b: Stream) -> bool {
    &&& a.input == b.input
    &&& a.pos == b.pos
    &&& a.partial == b.partial
    &&& a.state.marker == b.state.marker
    &&& a.state.marker_len == b.state.marker_len
}

/// The progress that checking the candidate `pr` records: the delimiter kind
/// once the input shows it, and the transport padding counted up to the
/// first byte that is not horizontal space. A close delimiter in a partial
/// input needs no padding counted.
pub open spec fn spec_saved_progress(s: Seq<u8>, pos: usize, pr: Progress, partial: bool) -> Progress {
    let a = (pos + pr.marker_off + pr.marker_len) as usize;
    let d = if pr.delim == Delimiter::Unknown {
        match spec_delimiter_kind(s, a, partial) {
            Some(k) => k,
            None => Delimiter::Unknown,
        }
    } else {
        pr.delim
    };
    let start = a + spec_prefix_len(d) + pr.padding_len;
    if d == Delimiter::Unknown || (d == Delimiter::Close && partial) || start > s.len() {
        Progress { delim: d, ..pr }
    } else {
        Progress {
            delim: d,
            padding_len: (spec_scan(s, start as usize, CharClass::HorizontalSpace) - a - spec_prefix_len(d)) as usize,
            ..pr
        }
    }
}

/// Checking a recorded candidate again on the same input records nothing new.
pub proof fn lemma_saved_progress_settled(s: Seq<u8>, pos: usize, pr: Progress, partial: bool)
    requires
        pos + pr.marker_off + pr.marker_len <= s.len() <= usize::MAX,
    ensures
        spec_saved_progress(s, pos, spec_saved_progress(s, pos, pr, partial), partial) == spec_saved_progress(
            s,
            pos,
            pr,
            partial,
        ),
{
    let hs = CharClass::HorizontalSpace;
    let pr2 = spec_saved_progress(s, pos, pr, partial);
    let a = (pos + pr.marker_off + pr.marker_len) as usize;
    let start = a + spec_prefix_len(pr2.delim) + pr.padding_len;
    if start <= s.len() {
        lemma_scan(s, start as usize, hs);
        let e = spec_scan(s, start as usize, hs);
        lemma_scan_unique(s, e, hs, e);
    }
}

/// What a search that needs more input leaves for the next call: the offset
/// from which a marker could still start, or a candidate whose delimiter
/// kind and padding are recorded as far as the input shows them.
pub open spec fn saved_for_retry(st: State, s: Seq<u8>, pos: usize, n: int) -> bool {
    match st.progress {
        None => st.search_off == (if s.len() - pos >= n - 1 {
            s.len() - pos - (n - 1)
        } else {
            0
        }),
        Some(pr) => spec_saved_progress(s, pos, pr, true) == pr,
    }
}

/// Validates the cached delimiter candidate without advancing the stream.
pub fn delimiter_suffix(input: &mut Stream) -> (r: Result<(), Failure>)
    requires
        old(input).wf(),
    ensures
        same_stream(*old(input), *final(input)),
        final(input).wf(),
        old(input).close_ok() ==> final(input).close_ok(),
        r matches Err(Failure::Incomplete) ==> no_close(final(input).state),
        final(input).state.search_off == old(input).state.search_off,
        r matches Err(Failure::Incomplete) ==> old(input).partial,
        old(input).state.progress is None ==> r == Err::<(), Failure>(backtrack()) && final(input).state == old(input).state,
        r is Ok && old(input).state.progress is Some && old(input).close_ok() ==> old(input).pos
            + old(input).state.progress->Some_0.marker_off + old(input).state.progress->Some_0.marker_len + 2
            <= old(input).input@.len(),
        old(input).state.progress matches Some(pr) ==> {
            &&& final(input).state.progress matches Some(pr2) && pr2.marker_off == pr.marker_off
                && pr2.marker_len == pr.marker_len && pr2.padding_len >= pr.padding_len && (pr.delim
                != Delimiter::Unknown ==> pr2.delim == pr.delim)
            &&& if old(input).pos + pr.marker_off + pr.marker_len <= old(input).input@.len() {
                final(input).state.progress == Some(
                    spec_saved_progress(old(input).input@, old(input).pos, pr, old(input).partial),
                )
            } else {
                r == Err::<(), Failure>(backtrack()) && final(input).state == old(input).state
            }
            &&& progress_ok(old(input).input@, old(input).pos as int, pr) ==> {
                &&& r == status_result(
                    spec_suffix_status(old(input).input@, suffix_start(old(input).pos, pr), old(input).partial),
                )
                &&& (r matches Err(Failure::Incomplete) ==> progress_ok(
                    old(input).input@,
                    old(input).pos as int,
                    final(input).state.progress->Some_0,
                ))
            }
        },
{
    let mut progress = match input.state.progress {
        Some(p) => p,
        None => return Err(Failure::Backtrack(None)),
    };
    let ghost pr0 = progress;
    let ghost s = input.input@;
    let len = input.input.len();
    let rem = len - input.pos;
    if progress.marker_off > rem || progress.marker_len > rem - progress.marker_off {
        return Err(Failure::Backtrack(None));
    }
    let a = input.pos + progress.marker_off + progress.marker_len;
    assert(a == suffix_start(input.pos, pr0));
    proof {
        lemma_kind_modes(s, a, input.partial);
    }
    match progress.delim {
        Delimiter::Unknown => {
            match literal(input.input, a, dashes_bytes(), false, input.partial) {
                Ok(_) => progress.delim = Delimiter::Close,
                Err(Failure::Incomplete) => {
                    input.state.progress = Some(progress);
                    return Err(Failure::Incomplete);
                },
                Err(_) => progress.delim = Delimiter::Open,
            }
        },
        _ => {},
    }
    proof {
        lemma_literal_bounds(s, a, spec_dashes(), false, input.partial);
    }
    assert(spec_delimiter_kind(s, a, input.partial) == Some(progress.delim) || !progress_ok(s, input.pos as int, pr0));
    let is_close = match progress.delim {
        Delimiter::Close => true,
        _ => false,
    };
    if is_close && input.partial {
        input.state.progress = Some(progress);
        return Ok(());
    }
    let prefix_len: usize = if is_close {
        2
    } else {
        0
    };
    if prefix_len > len - a || progress.padding_len > len - a - prefix_len {
        input.state.progress = Some(progress);
        return Err(Failure::Backtrack(None));
    }
    let start = a + prefix_len + progress.padding_len;
    let c = scan(input.input, start, CharClass::HorizontalSpace);
    proof {
        lemma_scan(s, start, CharClass::HorizontalSpace);
        if progress_ok(s, input.pos as int, pr0) {
            assert(all_in_class(s, a + prefix_len, start as int, CharClass::HorizontalSpace));
            crate::cache::lemma_scan_skip(s, (a + prefix_len) as usize, start, CharClass::HorizontalSpace);
        }
    }
    progress.padding_len = progress.padding_len + (c - start);
    let result = if is_close {
        match crlf(input.input, c, false) {
            Ok(_) => Ok(()),
            Err(_) => if c == len {
                Ok(())
            } else {
                Err(Failure::Backtrack(None))
            },
        }
    } else {
        match crlf(input.input, c, input.partial) {
            Ok(_) => Ok(()),
            Err(e) => Err(e),
        }
    };
    input.state.progress = Some(progress);
    proof {
        if progress_ok(s, input.pos as int, pr0) && (result matches Err(Failure::Incomplete)) {
            assert(all_in_class(s, a + prefix_len, c as int, CharClass::HorizontalSpace));
        }
    }
    result
}


/// The decreasing measure of the delimiter search: the candidate in progress,
/// else the resume offset, measured from the end of the input.
pub open spec fn search_measure(st: State, rem: usize) -> int {
    match st.progress {
        Some(pr) => if pr.marker_off <= rem {
            2 * (rem - pr.marker_off)
        } else {
            0
        },
        None => if st.search_off <= rem {
            2 * (rem - st.search_off) + 1
        } else {
            0
        },
    }
}

/// A delimiter search result relative to `b`, as an absolute one.
pub open spec fn at_base(r: Result<usize, Failure>, b: usize) -> Result<usize, Failure> {
    match r {
        Ok(off) => Ok((b + off) as usize),
        Err(e) => Err(e),
    }
}

/// Finds the next valid delimiter from the stream position, resuming the
/// search that the state caches. Succeeds with the offset of its marker.
#[verifier::rlimit(40)]
pub fn find_valid_marker(input: &mut Stream) -> (r: Result<usize, Failure>)
    requires
        old(input).wf(),
        old(input).close_ok(),
    ensures
        same_stream(*old(input), *final(input)),
        final(input).wf(),
        no_close(final(input).state),
        r is Ok ==> final(input).state.fresh(),
        r matches Ok(off) ==> old(input).pos + off + 2 <= old(input).input@.len(),
        r matches Err(Failure::Incomplete) ==> old(input).partial,
        r matches Err(Failure::Incomplete) ==> saved_for_retry(
            final(input).state,
            old(input).input@,
            old(input).pos,
            old(input).marker().len() as int,
        ),
        cache_ok(old(input).state, old(input).input@, old(input).pos as int, old(input).marker(), old(input).partial) ==> {
            &&& at_base(r, old(input).pos) == spec_find_valid_marker(
                old(input).input@,
                old(input).pos,
                old(input).marker(),
                old(input).partial,
            )
            &&& (r matches Err(Failure::Incomplete) ==> cache_ok(
                final(input).state,
                old(input).input@,
                old(input).pos as int,
                old(input).marker(),
                true,
            ))
        },
{
    let ghost s = input.input@;
    let ghost m = input.marker();
    let ghost b = input.pos;
    let ghost pt = input.partial;
    let ghost consistent = cache_ok(input.state, s, b as int, m, pt);
    let state = input.state;
    let marker = state.line_marker();
    let len = input.input.len();
    let rem = len - input.pos;
    proof {
        if consistent {
            lemma_cache_resume(input.state, s, b, m, pt);
        }
    }
    loop
        invariant
            input.wf(),
            input.close_ok(),
            same_stream(*old(input), *input),
            consistent == cache_ok(old(input).state, old(input).input@, old(input).pos as int, old(input).marker(), old(input).partial),
            input.input@ == s,
            input.pos == b,
            input.partial == pt,
            input.marker() == m,
            marker@ == m,
            m.len() >= 5,
            len == s.len(),
            rem == len - b,
            consistent ==> cache_ok(input.state, s, b as int, m, pt),
            consistent ==> spec_find_valid_marker(s, b, m, pt) == spec_find_valid_marker(
                s,
                (b + input.state.search_off) as usize,
                m,
                pt,
            ),
            input.state.progress matches Some(pr) ==> pr.marker_off < usize::MAX,
            consistent && input.state.progress is Some ==> spec_find(s, (b + input.state.search_off) as usize, m)
                == Some((b + input.state.progress->Some_0.marker_off) as usize),
        ensures
            same_stream(*old(input), *final(input)),
            final(input).wf(),
            no_close(final(input).state),
        decreases search_measure(input.state, rem),
    {
        let ghost st0 = input.state;
        if let Some(progress) = input.state.progress {
            let ghost k = (b + progress.marker_off) as usize;
            match delimiter_suffix(input) {
                Ok(()) => {
                    input.state.search_off = 0;
                    input.state.progress = None;
                    return Ok(progress.marker_off);
                },
                Err(Failure::Incomplete) => {
                    proof {
                        lemma_saved_progress_settled(s, b, progress, true);
                    }
                    return Err(Failure::Incomplete);
                },
                Err(_) => {
                    input.state.search_off = progress.marker_off + 1;
                    input.state.progress = None;
                    proof {
                        if consistent {
                            lemma_cache_skip_candidate(st0, input.state, s, b, m, pt);
                        }
                    }
                },
            }
        }
        let search_off = input.state.search_off;
        if search_off > rem {
            return Err(Failure::Backtrack(None));
        }
        proof {
            lemma_find_first(s, (b + search_off) as usize, m);
        }
        match find(input.input, input.pos + search_off, marker) {
            Some(k) => {
                proof {
                    lemma_find_bounds(s, (b + search_off) as usize, m);
                }
                let ghost st1 = input.state;
                input.state.progress = Some(Progress::new(k - input.pos, marker.len()));
                proof {
                    if consistent {
                        lemma_cache_new_candidate(st1, input.state, s, b, m, pt, k);
                    }
                }
            },
            None => {
                if input.partial {
                    let ghost st1 = input.state;
                    input.state.search_off = rem.saturating_sub(marker.len().saturating_sub(1));
                    proof {
                        if consistent {
                            lemma_cache_exhausted(st1, input.state, s, b, m, pt);
                        }
                    }
                    return Err(Failure::Incomplete);
                } else {
                    return Err(Failure::Backtrack(None));
                }
            },
        }
    }
}


/// Skips the preamble: leaves the stream at the opening delimiter when the
/// input starts with one, else just after the line end that precedes the
/// first delimiter. The preamble is ignored.
#[verifier::rlimit(40)]
pub fn skip_preamble(input: &mut Stream) -> (r: Result<(), Failure>)
    requires
        old(input).wf(),
        no_close(old(input).state),
    ensures
        no_close(final(input).state),
        final(input).input == old(input).input,
        final(input).partial == old(input).partial,
        final(input).state.marker == old(input).state.marker,
        final(input).state.marker_len == old(input).state.marker_len,
        final(input).wf(),
        r is Err ==> final(input).pos == old(input).pos,
        r is Ok ==> final(input).state.fresh(),
        pre_cache_ok(old(input).state, old(input).input@, old(input).pos, old(input).marker()) ==> {
            &&& match r {
                Ok(()) => spec_skip_preamble(old(input).input@, old(input).pos, old(input).marker(), old(input).partial)
                    == Ok::<usize, Failure>(final(input).pos),
                Err(e) => spec_skip_preamble(old(input).input@, old(input).pos, old(input).marker(), old(input).partial)
                    == Err::<usize, Failure>(e),
            }
            &&& (r matches Err(Failure::Incomplete) ==> pre_cache_ok(
                final(input).state,
                old(input).input@,
                old(input).pos,
                old(input).marker(),
            ))
            &&& (r matches Err(Failure::Incomplete) ==> saved_for_retry(
                final(input).state,
                old(input).input@,
                old(input).pos,
                old(input).marker().len() as int,
            ))
        },
{
    let ghost s = input.input@;
    let ghost m = input.marker();
    let ghost b = input.pos;
    let ghost pt = input.partial;
    let ghost st0 = input.state;
    let ghost consistent = pre_cache_ok(st0, s, b, m);
    proof {
        lemma_markers(input.state);
        crate::bounds::lemma_slice_fits(input.input);
    }
    let state = input.state;
    let initial = state.initial_marker();
    let initial_len = initial.len();
    let pending = input.state.search_off == 0 && match input.state.progress {
        None => true,
        Some(p) => p.marker_off == 0,
    };
    assert(pending == initial_pending(st0));
    if pending {
        proof {
            lemma_literal_stable(s, s, b, initial_of(m), false, pt);
        }
        match literal(input.input, input.pos, initial, false, input.partial) {
            Ok(_) => {
                let resuming = match input.state.progress {
                    Some(p) => p.marker_off == 0 && p.marker_len == initial_len,
                    None => false,
                };
                proof {
                    if consistent && st0.progress is Some && !resuming {
                        // A line-marker candidate at `b` starts with `\r`; `--boundary` does not.
                        assert(occurs_at(s, b as int, m));
                        assert(s[b + 0] == m[0]);
                        assert(spec_literal(s, b, initial_of(m), false, pt) is Err);
                    }
                }
                if !resuming {
                    input.state.progress = Some(Progress::new(0, initial_len));
                }
                let ghost st1 = input.state;
                assert(progress_ok(s, b as int, st1.progress->Some_0) || !consistent);
                match delimiter_suffix(input) {
                    Ok(()) => {
                        input.state.search_off = 0;
                        input.state.progress = None;
                        return Ok(());
                    },
                    Err(Failure::Incomplete) => {
                        proof {
                            lemma_saved_progress_settled(s, b, st1.progress->Some_0, true);
                        }
                        return Err(Failure::Incomplete);
                    },
                    Err(_) => {
                        input.state.progress = None;
                    },
                }
            },
            Err(Failure::Incomplete) => {
                return Err(Failure::Incomplete);
            },
            Err(_) => {
                proof {
                    if consistent && st0.progress is Some {
                        let pr = st0.progress->Some_0;
                        if pr.marker_len == initial_of(m).len() {
                            assert(spec_literal(s, b, initial_of(m), false, true) is Ok);
                        }
                    }
                }
            },
        }
    }
    let ghost st2 = input.state;
    let ghost init = spec_literal(s, b, initial_of(m), false, pt);
    proof {
        if consistent {
            if st2.fresh() {
                lemma_fresh_cache_ok(st2, s, b as int, m, pt);
            } else {
                lemma_cache_modes(st2, s, b as int, m, pt);
            }
            if !pending {
                lemma_initial_skips_modes(s, b, m, pt);
            }
            assert(init matches Err(Failure::Backtrack(_)) || (init matches Ok(q) && spec_suffix_status(s, q, pt) == Status::Invalid));
            assert(cache_ok(st2, s, b as int, m, pt));
        }
    }
    let r = find_valid_marker(input);
    proof {
        if consistent {
            assert(at_base(r, b) == spec_find_valid_marker(s, b, m, pt));
            if r matches Err(Failure::Incomplete) {
                assert(pt);
                assert(initial_skips(s, b, m));
                assert(input.state.progress matches Some(pr) ==> pr.marker_len == m.len());
            }
        }
    }
    match r {
        Ok(offset) => {
            input.pos = input.pos + offset + 2;
            Ok(())
        },
        Err(Failure::Incomplete) => Err(Failure::Incomplete),
        Err(_) => Err(Failure::Backtrack(Some(crate::error::Error::MissingOpeningBoundary))),
    }
}


/// A part's value: everything up to the line end before the next delimiter.
pub fn value_body<'s>(input: &mut Stream<'s>) -> (r: Result<&'s [u8], Failure>)
    requires
        old(input).wf(),
        old(input).close_ok(),
    ensures
        no_close(final(input).state),
        final(input).input == old(input).input,
        final(input).partial == old(input).partial,
        final(input).state.marker == old(input).state.marker,
        final(input).state.marker_len == old(input).state.marker_len,
        final(input).wf(),
        r is Err ==> final(input).pos == old(input).pos,
        r is Ok ==> final(input).state.fresh(),
        r matches Err(Failure::Incomplete) ==> old(input).partial,
        cache_ok(old(input).state, old(input).input@, old(input).pos as int, old(input).marker(), old(input).partial) ==> {
            match r {
                Ok(v) => spec_value_body(old(input).input@, old(input).pos, old(input).marker(), old(input).partial) matches Ok(
                    (q, sp),
                ) && q == final(input).pos && v@ == span_view(old(input).input@, sp),
                Err(e) => spec_value_body(old(input).input@, old(input).pos, old(input).marker(), old(input).partial)
                    == Err::<(usize, Span), Failure>(e) && (e is Incomplete ==> cache_ok(
                    final(input).state,
                    old(input).input@,
                    old(input).pos as int,
                    old(input).marker(),
                    true,
                )),
            }
        },
{
    proof {
        crate::bounds::lemma_slice_fits(input.input);
    }
    match find_valid_marker(input) {
        Ok(offset) => {
            let value = &input.input[input.pos..input.pos + offset];
            input.pos = input.pos + offset + 2;
            Ok(value)
        },
        Err(Failure::Incomplete) => Err(Failure::Incomplete),
        Err(_) => Err(Failure::Backtrack(Some(crate::error::Error::MissingClosingBoundary))),
    }
}

/// The slice that an optional span covers.
fn opt_slice<'a>(s: &'a [u8], sp: Option<Span>) -> (r: Option<&'a [u8]>)
    requires
        sp matches Some(x) ==> x.start <= x.end <= s@.len(),
    ensures
        crate::opt_view(r) == crate::opt_span_view(s@, sp),
{
    match sp {
        Some(x) => Some(&s[x.start..x.end]),
        None => None,
    }
}

/// The headers of a part: one or more header lines, then a blank line.
pub fn entry_info<'s>(input: &mut Stream<'s>) -> (r: Result<EntryInfo<'s>, Failure>)
    requires
        old(input).wf(),
    ensures
        final(input).input == old(input).input,
        final(input).partial == old(input).partial,
        final(input).state == old(input).state,
        final(input).wf(),
        r is Err ==> final(input).pos == old(input).pos,
        r matches Err(Failure::Incomplete) ==> old(input).partial,
        match r {
            Ok(i) => spec_entry_info(old(input).input@, old(input).pos, old(input).partial) matches Ok((q, sp)) && q
                == final(input).pos && i.matches(old(input).input@, sp),
            Err(e) => spec_entry_info(old(input).input@, old(input).pos, old(input).partial) == Err::<
                (usize, InfoSpans),
                Failure,
            >(e),
        },
{
    match entry_info_at(input.input, input.pos, input.partial) {
        Ok((q, sp)) => {
            let info = EntryInfo {
                name: &input.input[sp.name.start..sp.name.end],
                filename: opt_slice(input.input, sp.filename),
                content_type: opt_slice(input.input, sp.content_type),
            };
            input.pos = q;
            Ok(info)
        },
        Err(e) => Err(e),
    }
}

/// An optional entry holds the bytes of `s` that optional spans locate.
pub open spec fn entry_opt_matches(o: Option<Entry>, so: Option<EntrySpans>, s: Seq<u8>) -> bool {
    match (o, so) {
        (None, None) => true,
        (Some(e), Some(sp)) => e.matches(s, sp),
        _ => false,
    }
}

/// The delimiter line at `p` opens a part.
pub open spec fn opens_part(s: Seq<u8>, p: usize, m: Seq<u8>, partial: bool) -> bool {
    spec_delimiter_line(s, p, m, partial) matches Ok((_, close)) && !close
}

/// A delimiter line and the part after it; `None` after the close delimiter.
#[verifier::rlimit(40)]
pub fn next_entry<'s>(input: &mut Stream<'s>) -> (r: Result<Option<Entry<'s>>, Failure>)
    requires
        old(input).wf(),
        no_close(old(input).state) || !opens_part(old(input).input@, old(input).pos, old(input).marker(), old(input).partial),
    ensures
        no_close(old(input).state) ==> no_close(final(input).state),
        final(input).input == old(input).input,
        final(input).partial == old(input).partial,
        final(input).state.marker == old(input).state.marker,
        final(input).state.marker_len == old(input).state.marker_len,
        final(input).wf(),
        spec_delimiter_line(old(input).input@, old(input).pos, old(input).marker(), old(input).partial) matches Err(e)
            ==> (r == Err::<Option<Entry<'s>>, Failure>(e) && final(input).pos == old(input).pos && final(input).state
            == old(input).state),
        spec_delimiter_line(old(input).input@, old(input).pos, old(input).marker(), old(input).partial) matches Ok(
            (q, close),
        ) ==> (close ==> (r matches Ok(None) && final(input).pos == spec_close_tail(old(input).input@, q))),
        r matches Ok(Some(_)) ==> final(input).state.fresh(),
        r matches Ok(None) ==> final(input).state == old(input).state,
        r matches Err(Failure::Incomplete) ==> old(input).partial,
        entry_cache_ok(old(input).state, old(input).input@, old(input).pos, old(input).marker()) ==> {
            match r {
                Ok(o) => spec_next_entry(old(input).input@, old(input).pos, old(input).marker(), old(input).partial) matches Ok(
                    (q, so),
                ) && q == final(input).pos && entry_opt_matches(o, so, old(input).input@),
                Err(e) => spec_next_entry(old(input).input@, old(input).pos, old(input).marker(), old(input).partial)
                    == Err::<(usize, Option<EntrySpans>), Failure>(e) && (e is Incomplete ==> entry_cache_ok(
                    final(input).state,
                    old(input).input@,
                    old(input).pos,
                    old(input).marker(),
                )),
            }
        },
{
    let ghost s = input.input@;
    let ghost m = input.marker();
    let ghost b = input.pos;
    let ghost pt = input.partial;
    let ghost st0 = input.state;
    let ghost consistent = entry_cache_ok(st0, s, b, m);
    proof {
        lemma_markers(input.state);
        crate::bounds::lemma_slice_fits(input.input);
        lemma_entry_head_stable(s, s, b, m, pt);
        lemma_delimiter_line_bounds(s, b, m, pt);
    }
    let state = input.state;
    let q1 = match literal(input.input, input.pos, dashes_bytes(), false, input.partial) {
        Ok(q) => q,
        Err(e) => return Err(e),
    };
    proof {
        lemma_literal_bounds(s, b, spec_dashes(), false, pt);
    }
    let q2 = match literal(input.input, q1, state.value(), false, input.partial) {
        Ok(q) => q,
        Err(e) => return Err(e),
    };
    proof {
        lemma_literal_bounds(s, q1, boundary_of(m), false, pt);
    }
    match literal(input.input, q2, dashes_bytes(), false, input.partial) {
        Ok(q3) => {
            proof {
                lemma_literal_bounds(s, q2, spec_dashes(), false, pt);
            }
            input.pos = q3;
            let was_partial = input.complete();
            let c = scan(input.input, q3, crate::trivia::CharClass::HorizontalSpace);
            proof {
                lemma_scan(s, q3, crate::trivia::CharClass::HorizontalSpace);
            }
            let d = match crlf(input.input, c, false) {
                Ok(d) => d,
                Err(_) => c,
            };
            input.pos = d;
            input.restore_partial(was_partial);
            return Ok(None);
        },
        Err(Failure::Backtrack(_)) => {},
        Err(e) => return Err(e),
    }
    let q4 = match headers_end(input.input, q2, input.partial) {
        Ok(q) => q,
        Err(e) => return Err(e),
    };
    input.pos = q4;
    let info = match entry_info(input) {
        Ok(i) => i,
        Err(e) => return Err(e),
    };
    let ghost v = input.pos;
    proof {
        if consistent && !st0.fresh() {
            lemma_cache_modes(st0, s, v as int, m, pt);
        } else if consistent {
            lemma_fresh_cache_ok(st0, s, v as int, m, pt);
        }
    }
    let value = match value_body(input) {
        Ok(v) => v,
        Err(e) => return Err(e),
    };
    Ok(Some(Entry::from_parts(info, value)))
}

} // verus!
