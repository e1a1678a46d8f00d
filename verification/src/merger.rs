//! The merger: collapses sections whose spans touch or overlap (a side
//! effect of growth) into single sections, splicing in the bytes of the
//! later section that lie beyond the earlier one's end.

use vstd::prelude::*;

use crate::patch::{section_faithful, section_wf, Patch, PatchSection, SectionV};

verus! {

/// Two sections whose spans share at least one position, collapsed into
/// one: the bytes of `s2` past `s1`'s end are appended, and a section lying
/// entirely inside `s1` adds nothing.
pub open spec fn merge_two(s1: SectionV, s2: SectionV) -> SectionV {
    if s2.end > s1.end {
        SectionV {
            id: s1.id,
            start: s1.start,
            end: s2.end,
            search: s1.search + s2.search.skip(s1.end + 1 - s2.start),
            data: s1.data + s2.data.skip(s1.end + 1 - s2.start),
        }
    } else {
        s1
    }
}

/// A single left-to-right pass: while the first section's span reaches the
/// second one's start, the two collapse into one; otherwise the first
/// section is kept and the pass continues behind it.
pub open spec fn merge_spec(secs: Seq<SectionV>) -> Seq<SectionV>
    decreases secs.len(),
{
    if secs.len() <= 1 {
        secs
    } else if secs[0].end >= secs[1].start {
        merge_spec(seq![merge_two(secs[0], secs[1])] + secs.skip(2))
    } else {
        seq![secs[0]] + merge_spec(secs.skip(1))
    }
}

/// Merging a sequence of pairwise disjoint, non-touching sections returns
/// it unchanged.
pub proof fn lemma_merge_disjoint_identity(secs: Seq<SectionV>)
    requires
        forall|k: int| 0 <= k < secs.len() - 1 ==> (#[trigger] secs[k]).end < secs[k + 1].start,
    ensures
        merge_spec(secs) == secs,
    decreases secs.len(),
{
    if secs.len() <= 1 {
    } else {
        assert(secs[0].end < secs[1].start);
        let rest = secs.skip(1);
        assert forall|k: int| 0 <= k < rest.len() - 1 implies (#[trigger] rest[k]).end < rest[k
            + 1].start by {
            assert(rest[k] == secs[k + 1]);
            assert(rest[k + 1] == secs[k + 2]);
        }
        lemma_merge_disjoint_identity(rest);
        assert(seq![secs[0]] + rest =~= secs);
    }
}

/// Merging keeps every section well formed: spans stay non-empty and the
/// search and data arrays keep covering them position for position.
pub proof fn lemma_merge_wf(secs: Seq<SectionV>)
    requires
        forall|k: int| 0 <= k < secs.len() ==> section_wf(#[trigger] secs[k]),
    ensures
        forall|k: int| 0 <= k < merge_spec(secs).len() ==> section_wf(#[trigger] merge_spec(secs)[k]),
    decreases secs.len(),
{
    if secs.len() <= 1 {
    } else if secs[0].end >= secs[1].start {
        let m = merge_two(secs[0], secs[1]);
        assert(section_wf(m)) by {
            assert(section_wf(secs[0]));
            assert(section_wf(secs[1]));
        }
        let next = seq![m] + secs.skip(2);
        assert forall|k: int| 0 <= k < next.len() implies section_wf(#[trigger] next[k]) by {
            if k > 0 {
                assert(next[k] == secs[k + 1]);
            }
        }
        lemma_merge_wf(next);
        assert(merge_spec(secs) == merge_spec(next));
    } else {
        let rest = secs.skip(1);
        assert forall|k: int| 0 <= k < rest.len() implies section_wf(#[trigger] rest[k]) by {
            assert(rest[k] == secs[k + 1]);
        }
        lemma_merge_wf(rest);
        let out = seq![secs[0]] + merge_spec(rest);
        assert forall|k: int| 0 <= k < out.len() implies section_wf(#[trigger] out[k]) by {
            if k > 0 {
                assert(out[k] == merge_spec(rest)[k - 1]);
            }
        }
        assert(merge_spec(secs) == out);
    }
}

/// Merging two faithful overlapping sections yields a faithful section.
proof fn lemma_merge_two_faithful(
    s1: SectionV,
    s2: SectionV,
    source: Seq<u8>,
    transformed: Seq<u8>,
)
    requires
        source.len() == transformed.len(),
        section_faithful(s1, source, transformed),
        section_faithful(s2, source, transformed),
        s1.end >= s2.start,
        s1.start <= s2.start,
    ensures
        section_faithful(merge_two(s1, s2), source, transformed),
{
    let m = merge_two(s1, s2);
    if s2.end > s1.end {
        let off = s1.end + 1 - s2.start;
        assert(0 <= off <= s2.search.len());
        assert(0 <= off <= s2.data.len());
        assert(s2.search.skip(off) =~= source.subrange(s1.end + 1, s2.end + 1));
        assert(s2.data.skip(off) =~= transformed.subrange(s1.end + 1, s2.end + 1));
        assert(m.search =~= source.subrange(s1.start, s2.end + 1));
        assert(m.data =~= transformed.subrange(s1.start, s2.end + 1));
    }
}

/// Merging keeps every section a faithful copy of the two buffers, when the
/// sections come in order of their starts.
pub proof fn lemma_merge_faithful(secs: Seq<SectionV>, source: Seq<u8>, transformed: Seq<u8>)
    requires
        source.len() == transformed.len(),
        forall|k: int|
            0 <= k < secs.len() ==> section_faithful(#[trigger] secs[k], source, transformed),
        forall|k: int| 0 <= k < secs.len() - 1 ==> (#[trigger] secs[k]).start <= secs[k + 1].start,
    ensures
        forall|k: int|
            0 <= k < merge_spec(secs).len() ==> section_faithful(
                #[trigger] merge_spec(secs)[k],
                source,
                transformed,
            ),
    decreases secs.len(),
{
    if secs.len() <= 1 {
    } else if secs[0].end >= secs[1].start {
        lemma_merge_two_faithful(secs[0], secs[1], source, transformed);
        let m = merge_two(secs[0], secs[1]);
        let next = seq![m] + secs.skip(2);
        assert forall|k: int| 0 <= k < next.len() implies section_faithful(
            #[trigger] next[k],
            source,
            transformed,
        ) by {
            if k > 0 {
                assert(next[k] == secs[k + 1]);
            }
        }
        assert forall|k: int| 0 <= k < next.len() - 1 implies (#[trigger] next[k]).start <= next[k
            + 1].start by {
            assert(next[k + 1] == secs[k + 2]);
            if k > 0 {
                assert(next[k] == secs[k + 1]);
            }
        }
        lemma_merge_faithful(next, source, transformed);
        assert(merge_spec(secs) == merge_spec(next));
    } else {
        let rest = secs.skip(1);
        assert forall|k: int| 0 <= k < rest.len() implies section_faithful(
            #[trigger] rest[k],
            source,
            transformed,
        ) by {
            assert(rest[k] == secs[k + 1]);
        }
        assert forall|k: int| 0 <= k < rest.len() - 1 implies (#[trigger] rest[k]).start <= rest[k
            + 1].start by {
            assert(rest[k] == secs[k + 1]);
            assert(rest[k + 1] == secs[k + 2]);
        }
        lemma_merge_faithful(rest, source, transformed);
        let out = seq![secs[0]] + merge_spec(rest);
        assert forall|k: int| 0 <= k < out.len() implies section_faithful(
            #[trigger] out[k],
            source,
            transformed,
        ) by {
            if k > 0 {
                assert(out[k] == merge_spec(rest)[k - 1]);
            }
        }
        assert(merge_spec(secs) == out);
    }
}

/// Collapses touching or overlapping neighbors in place, in one
/// left-to-right pass over the patch's sections.
pub fn section_merge(patch: &mut Patch)
    requires
        forall|k: int| 0 <= k < old(patch)@.len() ==> section_wf(#[trigger] old(patch)@[k]),
        forall|k: int| 0 <= k < old(patch)@.len() ==> (#[trigger] old(patch)@[k]).end < usize::MAX,
    ensures
        final(patch)@ == merge_spec(old(patch)@),
{
    let ghost orig = patch@;
    let n = patch.sections.len();
    if n <= 1 {
        return;
    }
    let mut out: Vec<PatchSection> = Vec::new();
    let mut cur = crate::patch::section_dup(&patch.sections[0]);
    proof {
        assert(cur@ == orig[0]);
        assert(seq![cur@] + orig.skip(1) =~= orig);
        assert(Seq::<PatchSection>::empty().map_values(|s: PatchSection| s@)
            =~= Seq::<SectionV>::empty());
    }
    let mut idx: usize = 1;
    while idx < n
        invariant
            n == orig.len(),
            patch@ == orig,
            1 <= idx <= n,
            forall|k: int| 0 <= k < orig.len() ==> section_wf(#[trigger] orig[k]),
            forall|k: int| 0 <= k < orig.len() ==> (#[trigger] orig[k]).end < usize::MAX,
            section_wf(cur@),
            cur@.end < usize::MAX,
            merge_spec(orig) == out@.map_values(|s: PatchSection| s@) + merge_spec(
                seq![cur@] + orig.skip(idx as int),
            ),
        decreases n - idx,
    {
        let nxt = crate::patch::section_dup(&patch.sections[idx]);
        let ghost pending = seq![cur@] + orig.skip(idx as int);
        proof {
            assert(pending[0] == cur@);
            assert(pending[1] == orig[idx as int]);
            assert(pending.skip(2) =~= orig.skip(idx + 1));
            assert(pending.skip(1) =~= orig.skip(idx as int));
        }
        if cur.end >= nxt.start {
            if nxt.end > cur.end {
                let off = cur.end + 1 - nxt.start;
                let ghost cur_old = cur@;
                crate::patch::push_bytes_from(&mut cur.search, &nxt.search, off);
                crate::patch::push_bytes_from(&mut cur.data, &nxt.data, off);
                cur.end = nxt.end;
                proof {
                    assert(cur@ =~= merge_two(cur_old, nxt@));
                }
            }
            proof {
                assert(seq![merge_two(pending[0], pending[1])] + pending.skip(2) =~= seq![cur@]
                    + orig.skip(idx + 1));
            }
        } else {
            let ghost out_old = out@;
            out.push(cur);
            cur = nxt;
            proof {
                assert(out@.map_values(|s: PatchSection| s@) =~= out_old.map_values(
                    |s: PatchSection| s@,
                ).push(pending[0]));
                assert(orig.skip(idx as int) =~= seq![orig[idx as int]] + orig.skip(idx + 1));
            }
        }
        idx += 1;
    }
    proof {
        assert(seq![cur@] + orig.skip(n as int) =~= seq![cur@]);
    }
    out.push(cur);
    patch.sections = out;
    proof {
        assert(patch@ =~= merge_spec(orig));
    }
}

} // verus!
