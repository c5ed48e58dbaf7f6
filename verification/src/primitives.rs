//! Literal matching, byte-class runs and substring search.
use vstd::prelude::*;

use crate::error::Failure;
use crate::grammar::{byte_eq, lit_agrees, occurs_at, spec_find, spec_literal, spec_take_until, spec_take_while};
use crate::trivia::{CharClass, lemma_scan, scan, spec_scan, to_lower};

verus! {

/// Matches the literal `lit` at `p`, ASCII case-insensitively if `caseless`.
pub fn literal(s: &[u8], p: usize, lit: &[u8], caseless: bool, partial: bool) -> (r: Result<usize, Failure>)
    requires
        p <= s@.len(),
    ensures
        r == spec_literal(s@, p, lit@, caseless, partial),
{
    let len = s.len();
    let rem = len - p;
    let n = if lit.len() < rem {
        lit.len()
    } else {
        rem
    };
    let mut i: usize = 0;
    while i < n
        invariant
            p <= s@.len() <= usize::MAX,
            rem == s@.len() - p,
            n <= lit@.len(),
            n <= rem,
            n == lit@.len() || n == rem,
            i <= n,
            forall|j: int| 0 <= j < i ==> byte_eq(#[trigger] s@[p + j], lit@[j], caseless),
        decreases n - i,
    {
        let a = s[p + i];
        let b = lit[i];
        let same = if caseless {
            to_lower(a) == to_lower(b)
        } else {
            a == b
        };
        if !same {
            assert(!byte_eq(s@[p + i], lit@[i as int], caseless));
            assert(!lit_agrees(s@, p, lit@, caseless));
            return Err(Failure::Backtrack(None));
        }
        i = i + 1;
    }
    assert(lit_agrees(s@, p, lit@, caseless)) by {
        assert forall|j: int| 0 <= j < lit@.len() && p + j < s@.len() implies byte_eq(
            #[trigger] s@[p + j],
            lit@[j],
            caseless,
        ) by {
            assert(j < n);
        }
    }
    if lit.len() <= rem {
        Ok(p + lit.len())
    } else if partial {
        Err(Failure::Incomplete)
    } else {
        Err(Failure::Backtrack(None))
    }
}

/// Matches `min` or more bytes of class `c` at `p`; succeeds with the end of the run.
pub fn take_while(s: &[u8], p: usize, min: usize, c: CharClass, partial: bool) -> (r: Result<usize, Failure>)
    requires
        p <= s@.len(),
    ensures
        r == spec_take_while(s@, p, min, c, partial),
{
    let e = scan(s, p, c);
    let len = s.len();
    proof {
        lemma_scan(s@, p, c);
    }
    if e < s.len() {
        if e - p >= min {
            Ok(e)
        } else {
            Err(Failure::Backtrack(None))
        }
    } else if partial {
        Err(Failure::Incomplete)
    } else if e - p >= min {
        Ok(e)
    } else {
        Err(Failure::Backtrack(None))
    }
}

/// Whether `lit` occurs in `s` at `k`.
pub fn occurs(s: &[u8], k: usize, lit: &[u8]) -> (r: bool)
    ensures
        r == occurs_at(s@, k as int, lit@),
{
    let len = s.len();
    if k > len || lit.len() > len - k {
        return false;
    }
    let mut i: usize = 0;
    while i < lit.len()
        invariant
            k + lit@.len() <= s@.len() <= usize::MAX,
            i <= lit@.len(),
            forall|j: int| 0 <= j < i ==> #[trigger] s@[k + j] == lit@[j],
        decreases lit@.len() - i,
    {
        if s[k + i] != lit[i] {
            return false;
        }
        i = i + 1;
    }
    true
}

/// The first occurrence of `lit` at or after `j`.
pub fn find(s: &[u8], j: usize, lit: &[u8]) -> (r: Option<usize>)
    requires
        lit@.len() >= 1,
    ensures
        r == spec_find(s@, j, lit@),
{
    let mut k = j;
    while k <= s.len() && lit.len() <= s.len() - k
        invariant
            j <= k,
            lit@.len() >= 1,
            spec_find(s@, k, lit@) == spec_find(s@, j, lit@),
        decreases s@.len() - k,
    {
        if occurs(s, k, lit) {
            return Some(k);
        }
        k = k + 1;
    }
    None
}

/// Everything up to the first occurrence of `lit`; succeeds with its position.
pub fn take_until(s: &[u8], p: usize, lit: &[u8], partial: bool) -> (r: Result<usize, Failure>)
    requires
        lit@.len() >= 1,
    ensures
        r == spec_take_until(s@, p, lit@, partial),
{
    match find(s, p, lit) {
        Some(k) => Ok(k),
        None => if partial {
            Err(Failure::Incomplete)
        } else {
            Err(Failure::Backtrack(None))
        },
    }
}

} // verus!
