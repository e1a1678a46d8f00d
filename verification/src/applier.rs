//! The applier: replays a patch against a target buffer in one
//! left-to-right pass, substituting each section's replacement bytes at the
//! first place its search pattern matches, in section order, and copying
//! every other byte unchanged. Application succeeds only if every section
//! matched exactly once.

use vstd::prelude::*;

use crate::patch::{Patch, SectionV};
use crate::search::{count_from, lemma_count_from_nonneg, matches_at, pattern_matches};

verus! {

/// Why an application was rejected or failed.
#[derive(Debug, PartialEq, Eq, Structural)]
pub enum ApplyError {
    /// The detection pass counted more pattern occurrences than there are
    /// sections: the patch cannot be trusted against this target.
    Inconsistent,
    /// The scan ended before every section had matched: the application
    /// failed and no output is produced.
    Incomplete,
}

/// The applier's scan from position `i` with section `k` the next to be
/// consumed: the rewritten rest of the buffer, or nothing if some section
/// never matches.
pub open spec fn apply_seq(target: Seq<u8>, secs: Seq<SectionV>, i: int, k: int) -> Option<
    Seq<u8>,
>
    decreases target.len() - i, secs.len() - k,
{
    if k >= secs.len() {
        Some(target.skip(i))
    } else if i >= target.len() {
        None
    } else if matches_at(target, secs[k].search, i) {
        match apply_seq(
            target,
            secs,
            i + if secs[k].search.len() == 0 {
                1int
            } else {
                secs[k].search.len() as int
            },
            k + 1,
        ) {
            Some(rest) => Some(secs[k].data + rest),
            None => None,
        }
    } else {
        match apply_seq(target, secs, i + 1, k) {
            Some(rest) => Some(seq![target[i]] + rest),
            None => None,
        }
    }
}

/// Total number of non-overlapping occurrences of the sections' search
/// patterns in the target, summed over all sections.
pub open spec fn detect_total(target: Seq<u8>, secs: Seq<SectionV>) -> int
    decreases secs.len(),
{
    if secs.len() <= 0 {
        0
    } else {
        count_from(target, secs[0].search, 0) + detect_total(target, secs.skip(1))
    }
}

proof fn lemma_detect_total_nonneg(target: Seq<u8>, secs: Seq<SectionV>)
    ensures
        detect_total(target, secs) >= 0,
    decreases secs.len(),
{
    if secs.len() > 0 {
        lemma_count_from_nonneg(target, secs[0].search, 0);
        lemma_detect_total_nonneg(target, secs.skip(1));
    }
}

/// A prefix of output already emitted, prepended to the outcome of the rest
/// of the scan.
pub open spec fn opt_prepend(pre: Seq<u8>, o: Option<Seq<u8>>) -> Option<Seq<u8>> {
    match o {
        Some(s) => Some(pre + s),
        None => None,
    }
}

proof fn lemma_opt_prepend_assoc(a: Seq<u8>, b: Seq<u8>, o: Option<Seq<u8>>)
    ensures
        opt_prepend(a, opt_prepend(b, o)) == opt_prepend(a + b, o),
{
    match o {
        Some(s) => {
            assert(a + (b + s) =~= (a + b) + s);
        },
        None => {},
    }
}

/// Applies the patch to the target buffer. With `detect` set, a diagnostic
/// pass first counts every occurrence of every section's pattern in the
/// whole target and rejects the patch as inconsistent if the total exceeds
/// the section count. The primary pass scans the target once from the
/// start; wherever the next unconsumed section's pattern matches, its
/// replacement bytes are emitted instead and the section is consumed; every
/// other byte is copied unchanged. If the scan ends with a section still
/// unconsumed, the application has failed and no output is returned.
pub fn apply_patch(target: &Vec<u8>, patch: &Patch, detect: bool) -> (r: Result<
    Vec<u8>,
    ApplyError,
>)
    requires
        forall|k: int| 0 <= k < patch@.len() ==> (#[trigger] patch@[k]).search.len() > 0,
    ensures
        (r == Err::<Vec<u8>, ApplyError>(ApplyError::Inconsistent)) <==> (detect && detect_total(
            target@,
            patch@,
        ) > patch@.len()),
        !(detect && detect_total(target@, patch@) > patch@.len()) ==> match apply_seq(
            target@,
            patch@,
            0,
            0,
        ) {
            Some(out) => r matches Ok(v) && v@ == out,
            None => r == Err::<Vec<u8>, ApplyError>(ApplyError::Incomplete),
        },
{
    let n = patch.sections.len();
    let tlen = target.len();
    proof {
        assert(tlen == target@.len());
    }
    if detect {
        let mut total: usize = 0;
        let mut over = false;
        let mut k: usize = 0;
        proof {
            assert(patch@.skip(0) =~= patch@);
        }
        while k < n && !over
            invariant
                n == patch@.len(),
                k <= n,
                !over ==> total <= n,
                !over ==> total + detect_total(target@, patch@.skip(k as int)) == detect_total(
                    target@,
                    patch@,
                ),
                over ==> detect_total(target@, patch@) > n,
            decreases n - k,
        {
            let c = crate::search::count_occurrences(target, &patch.sections[k].search);
            proof {
                let rest = patch@.skip(k as int);
                assert(rest[0] == patch@[k as int]);
                assert(rest.skip(1) =~= patch@.skip(k + 1));
                lemma_detect_total_nonneg(target@, patch@.skip(k + 1));
            }
            if c > n - total {
                over = true;
            } else {
                total += c;
            }
            k += 1;
        }
        if over {
            return Err(ApplyError::Inconsistent);
        }
        proof {
            assert(patch@.skip(n as int) =~= Seq::<SectionV>::empty());
        }
    }
    let mut result: Vec<u8> = Vec::new();
    let mut i: usize = 0;
    let mut k: usize = 0;
    while i < target.len() && k < n
        invariant
            n == patch@.len(),
            i <= target@.len(),
            target@.len() <= usize::MAX,
            k <= n,
            forall|m: int| 0 <= m < patch@.len() ==> (#[trigger] patch@[m]).search.len() > 0,
            apply_seq(target@, patch@, 0, 0) == opt_prepend(
                result@,
                apply_seq(target@, patch@, i as int, k as int),
            ),
        decreases target@.len() - i,
    {
        let ghost result_old = result@;
        let ghost i0 = i as int;
        let ghost k0 = k as int;
        if pattern_matches(target, &patch.sections[k].search, i) {
            crate::patch::push_bytes(&mut result, &patch.sections[k].data);
            i += patch.sections[k].search.len();
            k += 1;
            proof {
                let step = apply_seq(target@, patch@, i as int, k as int);
                assert(apply_seq(target@, patch@, i0, k0) == opt_prepend(
                    patch@[k0].data,
                    step,
                ));
                lemma_opt_prepend_assoc(result_old, patch@[k0].data, step);
            }
        } else {
            result.push(target[i]);
            i += 1;
            proof {
                let step = apply_seq(target@, patch@, i as int, k as int);
                assert(apply_seq(target@, patch@, i0, k0) == opt_prepend(
                    seq![target@[i0]],
                    step,
                ));
                lemma_opt_prepend_assoc(result_old, seq![target@[i0]], step);
                assert(result@ =~= result_old + seq![target@[i0]]);
            }
        }
    }
    if k < n {
        proof {
            assert(apply_seq(target@, patch@, i as int, k as int) is None);
        }
        return Err(ApplyError::Incomplete);
    }
    while i < target.len()
        invariant
            i <= target@.len(),
            target@.len() <= usize::MAX,
            k >= patch@.len(),
            apply_seq(target@, patch@, 0, 0) == opt_prepend(
                result@,
                apply_seq(target@, patch@, i as int, k as int),
            ),
        decreases target@.len() - i,
    {
        let ghost result_old = result@;
        let ghost i0 = i as int;
        result.push(target[i]);
        i += 1;
        proof {
            assert(target@.skip(i0) =~= seq![target@[i0]] + target@.skip(i0 + 1));
            assert(result@ =~= result_old + seq![target@[i0]]);
            assert(result_old + (seq![target@[i0]] + target@.skip(i0 + 1)) =~= result@
                + target@.skip(i0 + 1));
        }
    }
    proof {
        assert(target@.skip(i as int) =~= Seq::<u8>::empty());
        assert(result@ + Seq::<u8>::empty() =~= result@);
    }
    Ok(result)
}

} // verus!
