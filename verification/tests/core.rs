use patcher::applier::{apply_patch, ApplyError};
use patcher::differ::scan;
use patcher::grower::{grow_section, section_append, section_prepend};
use patcher::merger::section_merge;
use patcher::patch::{Patch, PatchSection};
use patcher::pipeline::build_patch;
use patcher::search::{count_limited, count_occurrences, pattern_matches};

fn section(id: u32, start: usize, end: usize, search: &[u8], data: &[u8]) -> PatchSection {
    PatchSection { id, start, end, search: search.to_vec(), data: data.to_vec() }
}

#[test]
fn tolerance_grouping_absorbs_short_gap() {
    let source = vec![0u8, 1, 2, 3, 4, 5];
    let transformed = vec![0u8, 9, 2, 9, 4, 5];
    let patch = scan(&source, &transformed, 1, false);
    assert_eq!(patch.sections.len(), 1);
    assert_eq!(patch.sections[0].id, 1);
    assert_eq!(patch.sections[0].start, 1);
    assert_eq!(patch.sections[0].end, 3);
    assert_eq!(patch.sections[0].search, vec![1u8, 2, 3]);
    assert_eq!(patch.sections[0].data, vec![9u8, 2, 9]);
}

#[test]
fn zero_tolerance_splits_sections() {
    let source = vec![0u8, 1, 2, 3, 4, 5];
    let transformed = vec![0u8, 9, 2, 9, 4, 5];
    let patch = scan(&source, &transformed, 0, false);
    assert_eq!(patch.sections.len(), 2);
    assert_eq!(patch.sections[0].search, vec![1u8]);
    assert_eq!(patch.sections[0].data, vec![9u8]);
    assert_eq!(patch.sections[1].search, vec![3u8]);
    assert_eq!(patch.sections[1].data, vec![9u8]);
    assert_eq!(patch.sections[1].id, 2);
}

#[test]
fn byte_filter_skips_ineligible_mismatch() {
    // 0x20 lies outside the 0x30..=0x71 range: a mismatch there must not
    // open a section.
    let source = vec![0x20u8, 0x40];
    let transformed = vec![0x21u8, 0x40];
    let patch = scan(&source, &transformed, 6, true);
    assert_eq!(patch.sections.len(), 0);
}

#[test]
fn byte_filter_never_extends_across_ineligible_byte() {
    // An eligible mismatch, then an ineligible mismatch, then an eligible
    // one: the ineligible byte closes the first section, so two separate
    // sections come out and the 0x20 position stays untouched.
    let source = vec![0x40u8, 0x20, 0x41];
    let transformed = vec![0x42u8, 0x21, 0x43];
    let patch = scan(&source, &transformed, 6, true);
    assert_eq!(patch.sections.len(), 2);
    assert_eq!(patch.sections[0].start, 0);
    assert_eq!(patch.sections[0].end, 0);
    assert_eq!(patch.sections[0].search, vec![0x40u8]);
    assert_eq!(patch.sections[1].start, 2);
    assert_eq!(patch.sections[1].end, 2);
    assert_eq!(patch.sections[1].search, vec![0x41u8]);
}

#[test]
fn scan_identical_buffers_yields_no_sections() {
    let buf = vec![1u8, 2, 3];
    let patch = scan(&buf, &buf.clone(), 6, false);
    assert_eq!(patch.sections.len(), 0);
}

#[test]
fn growth_zero_extensions_for_unique_pattern() {
    // The pattern [5, 6] occurs once in the reference: growth returns the
    // section unchanged.
    let source = vec![1u8, 5, 6, 2, 3, 4];
    let transformed = vec![1u8, 9, 6, 2, 3, 4];
    let mut sec = section(1, 1, 2, &[5, 6], &[9, 6]);
    grow_section(&mut sec, &source, &transformed, &source, 10);
    assert_eq!(sec.start, 1);
    assert_eq!(sec.end, 2);
    assert_eq!(sec.search, vec![5u8, 6]);
    assert_eq!(sec.data, vec![9u8, 6]);
}

#[test]
fn growth_disambiguates_by_appending() {
    // Reference [1,2,3,1,2,9]: the pattern [1,2] occurs twice, [1,2,3]
    // once, so one append step disambiguates.
    let source = vec![1u8, 2, 3, 1, 2, 9];
    let transformed = vec![7u8, 8, 3, 1, 2, 9];
    let mut sec = section(1, 0, 1, &[1, 2], &[7, 8]);
    grow_section(&mut sec, &source, &transformed, &source, 10);
    assert_eq!(sec.start, 0);
    assert_eq!(sec.end, 2);
    assert_eq!(sec.search, vec![1u8, 2, 3]);
    assert_eq!(sec.data, vec![7u8, 8, 3]);
}

#[test]
fn growth_prunes_pattern_absent_from_reference() {
    // The pattern never occurs in the external reference buffer, under any
    // strategy: the section's search and data are cleared for pruning.
    let source = vec![1u8, 2, 3];
    let transformed = vec![9u8, 2, 3];
    let reference = vec![7u8, 7, 7];
    let mut sec = section(1, 0, 0, &[1], &[9]);
    grow_section(&mut sec, &source, &transformed, &reference, 10);
    assert!(sec.search.is_empty());
    assert!(sec.data.is_empty());
}

#[test]
fn growth_exhausted_budget_keeps_original_section() {
    // Every pattern of ones stays ambiguous in an all-ones reference; when
    // the budget runs out under the alternating strategy the original
    // section is kept as the best remaining guess.
    let source = vec![1u8, 1, 1, 1];
    let transformed = vec![2u8, 1, 1, 1];
    let mut sec = section(1, 0, 0, &[1], &[2]);
    grow_section(&mut sec, &source, &transformed, &source, 1);
    assert_eq!(sec.start, 0);
    assert_eq!(sec.end, 0);
    assert_eq!(sec.search, vec![1u8]);
    assert_eq!(sec.data, vec![2u8]);
}

#[test]
fn section_append_copies_bytes_past_end() {
    let input = vec![1u8, 2, 3, 4];
    let patched = vec![5u8, 6, 7, 8];
    let mut sec = section(1, 0, 0, &[1], &[5]);
    section_append(&mut sec, &input, &patched, 2);
    assert_eq!(sec.end, 2);
    assert_eq!(sec.search, vec![1u8, 2, 3]);
    assert_eq!(sec.data, vec![5u8, 6, 7]);
}

#[test]
fn section_append_clamps_at_buffer_end() {
    let input = vec![1u8, 2];
    let patched = vec![5u8, 6];
    let mut sec = section(1, 0, 1, &[1, 2], &[5, 6]);
    section_append(&mut sec, &input, &patched, 1);
    assert_eq!(sec.end, 1);
    assert_eq!(sec.search, vec![1u8, 2]);
    assert_eq!(sec.data, vec![5u8, 6]);
}

#[test]
fn section_prepend_copies_bytes_before_start() {
    let input = vec![1u8, 2, 3, 4];
    let patched = vec![5u8, 6, 7, 8];
    let mut sec = section(1, 2, 3, &[3, 4], &[7, 8]);
    section_prepend(&mut sec, &input, &patched, 1);
    assert_eq!(sec.start, 1);
    assert_eq!(sec.search, vec![2u8, 3, 4]);
    assert_eq!(sec.data, vec![6u8, 7, 8]);
}

#[test]
fn section_prepend_clamps_at_buffer_start() {
    let input = vec![1u8, 2];
    let patched = vec![5u8, 6];
    let mut sec = section(1, 0, 0, &[1], &[5]);
    section_prepend(&mut sec, &input, &patched, 3);
    assert_eq!(sec.start, 0);
    assert_eq!(sec.search, vec![1u8]);
    assert_eq!(sec.data, vec![5u8]);
}

#[test]
fn merge_combines_touching_sections() {
    // The two spans share position 2; the merged section covers 0..=4 and
    // splices in the bytes of the second section past the first one's end.
    let mut patch = Patch {
        sections: vec![
            section(1, 0, 2, &[10, 11, 12], &[20, 21, 22]),
            section(2, 2, 4, &[12, 13, 14], &[22, 23, 24]),
        ],
    };
    section_merge(&mut patch);
    assert_eq!(patch.sections.len(), 1);
    assert_eq!(patch.sections[0].start, 0);
    assert_eq!(patch.sections[0].end, 4);
    assert_eq!(patch.sections[0].search, vec![10u8, 11, 12, 13, 14]);
    assert_eq!(patch.sections[0].data, vec![20u8, 21, 22, 23, 24]);
}

#[test]
fn merge_leaves_disjoint_sections_unchanged() {
    let mut patch = Patch {
        sections: vec![
            section(1, 0, 1, &[10, 11], &[20, 21]),
            section(2, 3, 4, &[13, 14], &[23, 24]),
        ],
    };
    section_merge(&mut patch);
    assert_eq!(patch.sections.len(), 2);
    assert_eq!(patch.sections[0].search, vec![10u8, 11]);
    assert_eq!(patch.sections[1].search, vec![13u8, 14]);
    assert_eq!(patch.sections[1].start, 3);
    assert_eq!(patch.sections[1].end, 4);
}

#[test]
fn merge_absorbs_contained_section() {
    let mut patch = Patch {
        sections: vec![
            section(1, 0, 3, &[10, 11, 12, 13], &[20, 21, 22, 23]),
            section(2, 1, 2, &[11, 12], &[21, 22]),
        ],
    };
    section_merge(&mut patch);
    assert_eq!(patch.sections.len(), 1);
    assert_eq!(patch.sections[0].start, 0);
    assert_eq!(patch.sections[0].end, 3);
    assert_eq!(patch.sections[0].search, vec![10u8, 11, 12, 13]);
}

#[test]
fn apply_substitutes_at_shifted_offset() {
    // The pattern sits at a different offset in the target than it did in
    // the source: the applier finds it by searching, not by position.
    let patch = Patch { sections: vec![section(1, 1, 2, &[5, 6], &[9, 6])] };
    let target = vec![0u8, 0, 0, 5, 6, 7];
    let out = apply_patch(&target, &patch, false).unwrap();
    assert_eq!(out, vec![0u8, 0, 0, 9, 6, 7]);
}

#[test]
fn apply_consumes_sections_in_order() {
    let patch = Patch {
        sections: vec![
            section(1, 0, 0, &[1], &[11]),
            section(2, 0, 0, &[2], &[22]),
        ],
    };
    let target = vec![2u8, 1, 2, 3];
    // Section 1 matches first at offset 1, so the leading 2 is copied
    // through; section 2 then matches at offset 2.
    let out = apply_patch(&target, &patch, false).unwrap();
    assert_eq!(out, vec![2u8, 11, 22, 3]);
}

#[test]
fn apply_with_empty_patch_copies_target() {
    let patch = Patch { sections: vec![] };
    let target = vec![1u8, 2, 3];
    let out = apply_patch(&target, &patch, false).unwrap();
    assert_eq!(out, vec![1u8, 2, 3]);
}

#[test]
fn apply_reports_failure_when_pattern_missing() {
    // The first section's pattern does not occur in the target: the
    // application fails and no output is produced.
    let patch = Patch { sections: vec![section(1, 0, 1, &[8, 9], &[1, 2])] };
    let target = vec![0u8, 1, 2, 3];
    let r = apply_patch(&target, &patch, false);
    assert_eq!(r, Err(ApplyError::Incomplete));
}

#[test]
fn detect_pass_rejects_overcounted_patterns() {
    // One section whose pattern occurs three times: the detection pass
    // counts 3 > 1 sections and aborts the application.
    let patch = Patch { sections: vec![section(1, 0, 0, &[7], &[8])] };
    let target = vec![7u8, 0, 7, 0, 7];
    let r = apply_patch(&target, &patch, true);
    assert_eq!(r, Err(ApplyError::Inconsistent));
}

#[test]
fn detect_pass_accepts_consistent_patch() {
    let patch = Patch { sections: vec![section(1, 1, 2, &[5, 6], &[9, 6])] };
    let target = vec![0u8, 5, 6, 7];
    let out = apply_patch(&target, &patch, true).unwrap();
    assert_eq!(out, vec![0u8, 9, 6, 7]);
}

#[test]
fn round_trip_reproduces_transformed_buffer() {
    // Every raw section's pattern is unique in the source, so applying the
    // built patch back onto the source yields the transformed buffer.
    let source = vec![10u8, 11, 12, 13, 14, 15, 16, 17];
    let transformed = vec![10u8, 99, 12, 13, 14, 15, 98, 17];
    let patch = build_patch(&source, &transformed, 0, false, &source, 10);
    let out = apply_patch(&source, &patch, false).unwrap();
    assert_eq!(out, transformed);
}

#[test]
fn round_trip_with_tolerance_and_growth() {
    let source = vec![1u8, 2, 3, 4, 5, 6, 7, 8, 9, 10];
    let transformed = vec![1u8, 20, 3, 40, 5, 6, 7, 8, 90, 10];
    let patch = build_patch(&source, &transformed, 2, false, &source, 10);
    let out = apply_patch(&source, &patch, false).unwrap();
    assert_eq!(out, transformed);
}

#[test]
fn build_patch_identical_buffers_is_empty() {
    let buf = vec![1u8, 2, 3, 4];
    let patch = build_patch(&buf, &buf.clone(), 6, false, &buf.clone(), 10);
    assert_eq!(patch.sections.len(), 0);
}

#[test]
fn build_patch_prunes_sections_missing_from_reference() {
    // The reference buffer lacks the changed byte's pattern entirely, so
    // the section is pruned and the patch comes out empty.
    let source = vec![1u8, 2, 3];
    let transformed = vec![9u8, 2, 3];
    let reference = vec![7u8, 7, 7];
    let patch = build_patch(&source, &transformed, 0, false, &reference, 10);
    assert_eq!(patch.sections.len(), 0);
}

#[test]
fn build_patch_sections_keep_equal_lengths() {
    let source = vec![1u8, 1, 2, 1, 1, 3, 1, 1, 4];
    let transformed = vec![1u8, 1, 9, 1, 1, 8, 1, 1, 7];
    let patch = build_patch(&source, &transformed, 1, false, &source, 10);
    for sec in &patch.sections {
        assert_eq!(sec.search.len(), sec.data.len());
        assert!(!sec.search.is_empty());
    }
}

#[test]
fn pattern_matches_checks_bounds_and_bytes() {
    let buf = vec![1u8, 2, 3];
    assert!(pattern_matches(&buf, &vec![2u8, 3], 1));
    assert!(!pattern_matches(&buf, &vec![2u8, 4], 1));
    assert!(!pattern_matches(&buf, &vec![3u8, 1], 2));
}

#[test]
fn counting_is_non_overlapping() {
    // [1,1] in [1,1,1]: the first match consumes two bytes, so only one
    // occurrence is counted.
    let buf = vec![1u8, 1, 1];
    let pat = vec![1u8, 1];
    assert_eq!(count_occurrences(&buf, &pat), 1);
    let buf2 = vec![1u8, 1, 0, 1, 1, 0, 1, 1];
    assert_eq!(count_occurrences(&buf2, &pat), 3);
    assert_eq!(count_limited(&buf2, &pat), 2);
    assert_eq!(count_limited(&buf, &pat), 1);
    assert_eq!(count_limited(&buf, &vec![9u8]), 0);
}
