//! The patch-creation pipeline: scan the two buffers for differences, grow
//! each raw section until its pattern is unique in the reference buffer,
//! prune sections whose pattern could not be found at all, and merge
//! touching or overlapping neighbors.

use vstd::prelude::*;

use crate::differ::{lemma_scan_sections_ok, scan, scan_sections, sections_ok};
use crate::grower::{grow_section, grow_spec, lemma_grow_faithful};
use crate::merger::{lemma_merge_wf, merge_spec, section_merge};
use crate::patch::{section_faithful, section_wf, Patch, PatchSection, SectionV};

verus! {

broadcast use vstd::seq_lib::lemma_seq_skip_index, vstd::seq_lib::lemma_seq_skip_of_skip, vstd::seq_lib::lemma_seq_skip_len;

/// The sections kept for the final patch: those whose search pattern is
/// non-empty.
pub open spec fn prune_spec(secs: Seq<SectionV>) -> Seq<SectionV>
    decreases secs.len(),
{
    if secs.len() <= 0 {
        Seq::empty()
    } else if secs[0].search.len() > 0 {
        seq![secs[0]] + prune_spec(secs.skip(1))
    } else {
        prune_spec(secs.skip(1))
    }
}

/// Pruning a sequence of sections that all have non-empty patterns returns
/// it unchanged.
pub proof fn lemma_prune_nonempty_identity(secs: Seq<SectionV>)
    requires
        forall|k: int| 0 <= k < secs.len() ==> (#[trigger] secs[k]).search.len() > 0,
    ensures
        prune_spec(secs) == secs,
    decreases secs.len(),
{
    if secs.len() > 0 {
        let rest = secs.skip(1);
        assert forall|k: int| 0 <= k < rest.len() implies (#[trigger] rest[k]).search.len()
            > 0 by {
            assert(rest[k] == secs[k + 1]);
        }
        lemma_prune_nonempty_identity(rest);
        assert(seq![secs[0]] + rest =~= secs);
    }
}

/// Every pruned-sequence section is one of the input's sections with a
/// non-empty pattern; in particular faithfulness carries over.
pub proof fn lemma_prune_faithful(secs: Seq<SectionV>, source: Seq<u8>, transformed: Seq<u8>)
    requires
        forall|k: int|
            0 <= k < secs.len() ==> ((#[trigger] secs[k]).search.len() == 0 || section_faithful(
                secs[k],
                source,
                transformed,
            )),
    ensures
        forall|k: int|
            0 <= k < prune_spec(secs).len() ==> section_faithful(
                #[trigger] prune_spec(secs)[k],
                source,
                transformed,
            ),
    decreases secs.len(),
{
    if secs.len() > 0 {
        let rest = secs.skip(1);
        assert forall|k: int|
            0 <= k < rest.len() implies ((#[trigger] rest[k]).search.len() == 0
            || section_faithful(rest[k], source, transformed)) by {
            assert(rest[k] == secs[k + 1]);
        }
        lemma_prune_faithful(rest, source, transformed);
        if secs[0].search.len() > 0 {
            let out = seq![secs[0]] + prune_spec(rest);
            assert forall|k: int| 0 <= k < out.len() implies section_faithful(
                #[trigger] out[k],
                source,
                transformed,
            ) by {
                if k > 0 {
                    assert(out[k] == prune_spec(rest)[k - 1]);
                }
            }
        }
    }
}

/// Each raw section after growth against the reference buffer.
pub open spec fn grow_all(
    secs: Seq<SectionV>,
    source: Seq<u8>,
    transformed: Seq<u8>,
    reference: Seq<u8>,
    max_grow: int,
) -> Seq<SectionV> {
    secs.map_values(|s: SectionV| grow_spec(s, source, transformed, reference, max_grow))
}

/// The whole patch-creation pipeline, as a function of the two buffers and
/// the configuration: scan, grow, prune, merge.
pub open spec fn build_spec(
    source: Seq<u8>,
    transformed: Seq<u8>,
    follow: int,
    only_char: bool,
    reference: Seq<u8>,
    max_grow: int,
) -> Seq<SectionV> {
    merge_spec(
        prune_spec(
            grow_all(
                scan_sections(source, transformed, follow, only_char),
                source,
                transformed,
                reference,
                max_grow,
            ),
        ),
    )
}

/// Builds a patch from a source buffer and its transformed counterpart:
/// scans for differences with the gap tolerance `follow` and the optional
/// byte filter `only_char`, grows each section's pattern until unique in
/// `reference` under the budget `max_grow`, prunes sections whose pattern
/// the reference does not contain, and merges sections whose spans touch
/// or overlap. Every section of the result has a non-empty search pattern
/// and search and data of equal length. Buffers are bounded by `u32::MAX`
/// so that the 1-based section ids fit their 32-bit field.
pub fn build_patch(
    source: &Vec<u8>,
    transformed: &Vec<u8>,
    follow: usize,
    only_char: bool,
    reference: &Vec<u8>,
    max_grow: usize,
) -> (patch: Patch)
    requires
        source@.len() == transformed@.len(),
        source@.len() < u32::MAX as int,
    ensures
        patch@ == build_spec(
            source@,
            transformed@,
            follow as int,
            only_char,
            reference@,
            max_grow as int,
        ),
        forall|k: int| 0 <= k < patch@.len() ==> (#[trigger] patch@[k]).search.len() > 0,
        forall|k: int|
            0 <= k < patch@.len() ==> (#[trigger] patch@[k]).search.len() == patch@[k].data.len(),
{
    let raw = scan(source, transformed, follow, only_char);
    let ghost raw_secs = raw@;
    let work = raw.sections;
    let mut grown: Vec<PatchSection> = Vec::new();
    proof {
        assert(work@.map_values(|s: PatchSection| s@) == raw_secs);
    }
    let n_raw = work.len();
    let mut kk: usize = 0;
    while kk < n_raw
        invariant
            source@.len() == transformed@.len(),
            sections_ok(raw_secs, source@, transformed@),
            n_raw == raw_secs.len(),
            work@.map_values(|s: PatchSection| s@) == raw_secs,
            kk <= n_raw,
            grown@.len() == kk,
            forall|j: int|
                0 <= j < kk ==> #[trigger] grown@[j]@ == grow_spec(
                    raw_secs[j],
                    source@,
                    transformed@,
                    reference@,
                    max_grow as int,
                ),
        decreases n_raw - kk,
    {
        let mut s = crate::patch::section_dup(&work[kk]);
        proof {
            assert(work@.map_values(|x: PatchSection| x@)[kk as int] == work@[kk as int]@);
            assert(s@ == raw_secs[kk as int]);
            assert(section_faithful(raw_secs[kk as int], source@, transformed@));
        }
        grow_section(&mut s, source, transformed, reference, max_grow);
        grown.push(s);
        kk += 1;
    }
    let mut pruned: Vec<PatchSection> = Vec::new();
    let ghost grown_secs = grown@.map_values(|s: PatchSection| s@);
    proof {
        assert(grown_secs =~= grow_all(
            raw_secs,
            source@,
            transformed@,
            reference@,
            max_grow as int,
        ));
        assert(grown_secs.skip(0) =~= grown_secs);
        assert(Seq::<PatchSection>::empty().map_values(|s: PatchSection| s@) =~= Seq::<
            SectionV,
        >::empty());
    }
    let n_grown = grown.len();
    let mut jj: usize = 0;
    while jj < n_grown
        invariant
            n_grown == grown_secs.len(),
            grown@.map_values(|s: PatchSection| s@) == grown_secs,
            grown@.len() == n_grown,
            jj <= n_grown,
            prune_spec(grown_secs) == pruned@.map_values(|s: PatchSection| s@) + prune_spec(
                grown_secs.skip(jj as int),
            ),
        decreases n_grown - jj,
    {
        proof {
            assert(grown_secs.skip(jj as int)[0] == grown_secs[jj as int]);
            assert(grown_secs.skip(jj as int).skip(1) =~= grown_secs.skip(jj + 1));
            assert(grown@.map_values(|x: PatchSection| x@)[jj as int] == grown@[jj as int]@);
        }
        let s = crate::patch::section_dup(&grown[jj]);
        if s.search.len() > 0 {
            let ghost pruned_old = pruned@;
            pruned.push(s);
            proof {
                assert(pruned@.map_values(|x: PatchSection| x@) =~= pruned_old.map_values(
                    |x: PatchSection| x@,
                ).push(grown_secs[jj as int]));
                assert(pruned_old.map_values(|x: PatchSection| x@) + (seq![
                    grown_secs[jj as int],
                ] + prune_spec(grown_secs.skip(jj + 1))) =~= pruned@.map_values(
                    |x: PatchSection| x@,
                ) + prune_spec(grown_secs.skip(jj + 1)));
            }
        }
        jj += 1;
    }
    proof {
        assert(grown_secs.skip(n_grown as int) =~= Seq::<SectionV>::empty());
        assert(pruned@.map_values(|s: PatchSection| s@) + prune_spec(Seq::<SectionV>::empty())
            =~= pruned@.map_values(|s: PatchSection| s@));
    }
    let mut patch = Patch { sections: pruned };
    proof {
        lemma_scan_sections_ok(source@, transformed@, follow as int, only_char);
        assert forall|j: int| 0 <= j < grown_secs.len() implies ((#[trigger] grown_secs[j]).search.len()
            == 0 || section_faithful(grown_secs[j], source@, transformed@)) by {
            lemma_grow_faithful(raw_secs[j], source@, transformed@, reference@, max_grow as int);
        }
        lemma_prune_faithful(grown_secs, source@, transformed@);
        assert forall|k: int| 0 <= k < patch@.len() implies section_wf(#[trigger] patch@[k])
            && patch@[k].end < usize::MAX by {
            assert(section_faithful(patch@[k], source@, transformed@));
        }
        lemma_merge_wf(patch@);
    }
    section_merge(&mut patch);
    patch
}

} // verus!
