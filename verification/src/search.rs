//! Literal substring search over byte buffers: matching a pattern at a
//! position, and counting non-overlapping occurrences.

use vstd::prelude::*;

verus! {

/// `pat` occurs in `buf` starting at position `i`.
pub open spec fn matches_at(buf: Seq<u8>, pat: Seq<u8>, i: int) -> bool {
    &&& 0 <= i
    &&& i + pat.len() <= buf.len()
    &&& buf.subrange(i, i + pat.len()) == pat
}

/// Number of non-overlapping occurrences of `pat` in `buf` from position `i`
/// on: a left-to-right scan that, on a match, resumes after the matched
/// bytes.
pub open spec fn count_from(buf: Seq<u8>, pat: Seq<u8>, i: int) -> int
    decreases buf.len() - i,
{
    if i < 0 || i >= buf.len() {
        0
    } else if matches_at(buf, pat, i) {
        1 + count_from(buf, pat, i + if pat.len() == 0 { 1int } else { pat.len() as int })
    } else {
        count_from(buf, pat, i + 1)
    }
}

/// Occurrence counts are never negative.
pub proof fn lemma_count_from_nonneg(buf: Seq<u8>, pat: Seq<u8>, i: int)
    ensures
        count_from(buf, pat, i) >= 0,
    decreases buf.len() - i,
{
    if i < 0 || i >= buf.len() {
    } else if matches_at(buf, pat, i) {
        lemma_count_from_nonneg(buf, pat, i + if pat.len() == 0 { 1int } else { pat.len() as int });
    } else {
        lemma_count_from_nonneg(buf, pat, i + 1);
    }
}

/// Whether `pat` occurs in `buf` at position `i`, by direct comparison.
pub fn pattern_matches(buf: &Vec<u8>, pat: &Vec<u8>, i: usize) -> (r: bool)
    ensures
        r == matches_at(buf@, pat@, i as int),
{
    if i > buf.len() || pat.len() > buf.len() - i {
        return false;
    }
    let mut j: usize = 0;
    while j < pat.len()
        invariant
            i + pat@.len() <= buf@.len(),
            buf@.len() <= usize::MAX,
            j <= pat@.len(),
            forall|k: int| 0 <= k < j ==> buf@[i + k] == pat@[k],
        decreases pat@.len() - j,
    {
        if buf[i + j] != pat[j] {
            assert(buf@.subrange(i as int, i + pat@.len())[j as int] != pat@[j as int]);
            return false;
        }
        j += 1;
    }
    assert(buf@.subrange(i as int, i + pat@.len()) =~= pat@);
    true
}

/// Counts occurrences of `pat` in `buf`, stopping early at two: only
/// whether the count is zero, one, or at least two matters to callers.
pub fn count_limited(buf: &Vec<u8>, pat: &Vec<u8>) -> (r: usize)
    ensures
        r == if count_from(buf@, pat@, 0) >= 2 {
            2int
        } else {
            count_from(buf@, pat@, 0)
        },
{
    let mut i: usize = 0;
    let mut c: usize = 0;
    while i < buf.len() && c < 2
        invariant
            c <= 2,
            i <= buf@.len(),
            count_from(buf@, pat@, 0) == c + count_from(buf@, pat@, i as int),
        decreases buf@.len() - i,
    {
        if pattern_matches(buf, pat, i) {
            c += 1;
            if pat.len() == 0 {
                i += 1;
            } else {
                i += pat.len();
            }
        } else {
            i += 1;
        }
    }
    proof {
        lemma_count_from_nonneg(buf@, pat@, i as int);
    }
    c
}

/// Counts all non-overlapping occurrences of `pat` in `buf`.
pub fn count_occurrences(buf: &Vec<u8>, pat: &Vec<u8>) -> (r: usize)
    ensures
        r == count_from(buf@, pat@, 0),
{
    let mut i: usize = 0;
    let mut c: usize = 0;
    while i < buf.len()
        invariant
            c <= i,
            i <= buf@.len(),
            count_from(buf@, pat@, 0) == c + count_from(buf@, pat@, i as int),
        decreases buf@.len() - i,
    {
        if pattern_matches(buf, pat, i) {
            c += 1;
            if pat.len() == 0 {
                i += 1;
            } else {
                i += pat.len();
            }
        } else {
            i += 1;
        }
    }
    c
}

} // verus!
