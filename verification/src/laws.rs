//! Laws relating the pipeline's stages: a pattern that occurs at exactly
//! one position is counted exactly once, and applying a patch built from
//! two buffers whose raw sections are all unique in the source reproduces
//! the transformed buffer.

use vstd::prelude::*;

use crate::applier::apply_seq;
use crate::differ::{covered, eligible, lemma_scan_sections_ok, scan_sections};
use crate::grower::{grow_spec, lemma_grow_unique_identity};
use crate::merger::lemma_merge_disjoint_identity;
use crate::patch::{section_faithful, SectionV};
use crate::pipeline::{build_spec, grow_all, lemma_prune_nonempty_identity};
use crate::search::{count_from, matches_at};

verus! {

/// The section's search pattern occurs in the buffer only at the section's
/// own start position.
pub open spec fn section_unique(s: SectionV, buf: Seq<u8>) -> bool {
    forall|p: int| p != s.start ==> !matches_at(buf, s.search, p)
}

/// A pattern without any occurrence from position `i` on is counted zero
/// times from there.
proof fn lemma_count_none(buf: Seq<u8>, pat: Seq<u8>, i: int)
    requires
        forall|p: int| p >= i ==> !matches_at(buf, pat, p),
    ensures
        count_from(buf, pat, i) == 0,
    decreases buf.len() - i,
{
    if 0 <= i && i < buf.len() {
        assert(!matches_at(buf, pat, i));
        lemma_count_none(buf, pat, i + 1);
    }
}

/// A non-empty pattern that occurs at `p0` and nowhere else is counted
/// exactly once by the scan from any position at or before `p0`.
proof fn lemma_count_unique_from(buf: Seq<u8>, pat: Seq<u8>, p0: int, i: int)
    requires
        pat.len() >= 1,
        matches_at(buf, pat, p0),
        forall|p: int| p != p0 ==> !matches_at(buf, pat, p),
        0 <= i <= p0,
    ensures
        count_from(buf, pat, i) == 1,
    decreases p0 - i,
{
    assert(p0 + pat.len() <= buf.len());
    if i < p0 {
        assert(!matches_at(buf, pat, i));
        lemma_count_unique_from(buf, pat, p0, i + 1);
    } else {
        assert forall|p: int| p >= p0 + pat.len() implies !matches_at(buf, pat, p) by {
            assert(p != p0);
        }
        lemma_count_none(buf, pat, p0 + pat.len() as int);
    }
}

/// In a chain of pairwise-adjacent disjoint sections with non-empty spans,
/// any earlier section ends before any later one starts.
proof fn lemma_disjoint_chain(secs: Seq<SectionV>, a: int, b: int)
    requires
        forall|k: int| 0 <= k < secs.len() - 1 ==> (#[trigger] secs[k]).end < secs[k + 1].start,
        forall|k: int| 0 <= k < secs.len() ==> (#[trigger] secs[k]).start <= secs[k].end,
        0 <= a < b < secs.len(),
    ensures
        secs[a].end < secs[b].start,
    decreases b - a,
{
    if b > a + 1 {
        lemma_disjoint_chain(secs, a, b - 1);
        assert(secs[b - 1].end < secs[b].start);
    }
}

/// The applier's scan, run over the source buffer against faithful,
/// disjoint sections that cover every mismatch and whose patterns are
/// unique in the source, rewrites the rest of the source into the rest of
/// the transformed buffer: each pattern is found exactly at its recorded
/// position and replaced by the transformed bytes, and everything outside
/// the sections is already identical in the two buffers.
proof fn lemma_apply_faithful(
    source: Seq<u8>,
    transformed: Seq<u8>,
    secs: Seq<SectionV>,
    i: int,
    k: int,
)
    requires
        source.len() == transformed.len(),
        forall|m: int| 0 <= m < secs.len() ==> section_faithful(#[trigger] secs[m], source, transformed),
        forall|m: int| 0 <= m < secs.len() - 1 ==> (#[trigger] secs[m]).end < secs[m + 1].start,
        forall|p: int| 0 <= p < source.len() && source[p] != #[trigger] transformed[p] ==> covered(secs, p),
        forall|m: int| 0 <= m < secs.len() ==> section_unique(#[trigger] secs[m], source),
        0 <= i <= source.len(),
        0 <= k <= secs.len(),
        k < secs.len() ==> i <= secs[k].start,
        forall|m: int| 0 <= m < k ==> (#[trigger] secs[m]).end < i,
    ensures
        apply_seq(source, secs, i, k) == Some(transformed.skip(i)),
    decreases source.len() - i, secs.len() - k,
{
    if k >= secs.len() {
        assert forall|p: int| i <= p < source.len() implies source[p] == transformed[p] by {
            if source[p] != transformed[p] {
                assert(covered(secs, p));
                let m = choose|m: int|
                    0 <= m < secs.len() && ((#[trigger] secs[m]).start <= p <= secs[m].end);
                assert(secs[m].end < i);
            }
        }
        assert(source.skip(i) =~= transformed.skip(i));
    } else {
        let sec = secs[k];
        assert(section_faithful(sec, source, transformed));
        if i < sec.start {
            assert(!matches_at(source, sec.search, i)) by {
                assert(section_unique(sec, source));
            }
            assert(source[i] == transformed[i]) by {
                if source[i] != transformed[i] {
                    assert(covered(secs, i));
                    let m = choose|m: int|
                        0 <= m < secs.len() && ((#[trigger] secs[m]).start <= i <= secs[m].end);
                    if m < k {
                        assert(secs[m].end < i);
                    } else if m > k {
                        assert forall|j: int| 0 <= j < secs.len() implies (
                        #[trigger] secs[j]).start <= secs[j].end by {
                            assert(section_faithful(secs[j], source, transformed));
                        }
                        lemma_disjoint_chain(secs, k, m);
                    }
                }
            }
            lemma_apply_faithful(source, transformed, secs, i + 1, k);
            assert(seq![source[i]] + transformed.skip(i + 1) =~= transformed.skip(i));
        } else {
            assert(matches_at(source, sec.search, sec.start)) by {
                assert(source.subrange(sec.start, sec.start + sec.search.len()) =~= sec.search);
            }
            let i2 = sec.end + 1;
            assert(i + sec.search.len() == i2);
            assert forall|m: int| 0 <= m < k + 1 implies (#[trigger] secs[m]).end < i2 by {
                if m < k {
                    assert(secs[m].end < i);
                }
            }
            lemma_apply_faithful(source, transformed, secs, i2, k + 1);
            assert(sec.data + transformed.skip(sec.end + 1) =~= transformed.skip(sec.start)) by {
                assert(sec.data == transformed.subrange(sec.start, sec.end + 1));
            }
        }
    }
}

/// Round trip: for two equal-length buffers whose raw scanned sections all
/// have search patterns unique in the source buffer, applying the patch the
/// pipeline builds (growing against the source itself) back onto the source
/// buffer succeeds and reproduces the transformed buffer.
pub proof fn lemma_round_trip(source: Seq<u8>, transformed: Seq<u8>, follow: int, max_grow: int)
    requires
        source.len() == transformed.len(),
        follow >= 0,
        forall|k: int|
            0 <= k < scan_sections(source, transformed, follow, false).len() ==> section_unique(
                #[trigger] scan_sections(source, transformed, follow, false)[k],
                source,
            ),
    ensures
        apply_seq(
            source,
            build_spec(source, transformed, follow, false, source, max_grow),
            0,
            0,
        ) == Some(transformed),
{
    let raw = scan_sections(source, transformed, follow, false);
    lemma_scan_sections_ok(source, transformed, follow, false);
    assert forall|k: int| 0 <= k < raw.len() implies grow_spec(
        #[trigger] raw[k],
        source,
        transformed,
        source,
        max_grow,
    ) == raw[k] by {
        assert(section_faithful(raw[k], source, transformed));
        assert(matches_at(source, raw[k].search, raw[k].start)) by {
            assert(source.subrange(raw[k].start, raw[k].start + raw[k].search.len()) =~= raw[
                k
            ].search);
        }
        assert(section_unique(raw[k], source));
        lemma_count_unique_from(source, raw[k].search, raw[k].start, 0);
        lemma_grow_unique_identity(raw[k], source, transformed, source, max_grow);
    }
    assert(grow_all(raw, source, transformed, source, max_grow) =~= raw);
    assert forall|k: int| 0 <= k < raw.len() implies (#[trigger] raw[k]).search.len() > 0 by {
        assert(section_faithful(raw[k], source, transformed));
    }
    lemma_prune_nonempty_identity(raw);
    assert forall|k: int| 0 <= k < raw.len() - 1 implies (#[trigger] raw[k]).end < raw[k
        + 1].start by {
        assert(raw[k].end + 2 <= raw[k + 1].start);
    }
    lemma_merge_disjoint_identity(raw);
    assert(build_spec(source, transformed, follow, false, source, max_grow) == raw);
    assert forall|p: int|
        0 <= p < source.len() && source[p] != #[trigger] transformed[p] implies covered(
        raw,
        p,
    ) by {
        assert(eligible(source[p], false));
    }
    lemma_apply_faithful(source, transformed, raw, 0, 0);
    assert(transformed.skip(0) =~= transformed);
}

} // verus!
