//! The differ: a lock-step scan of two equal-length buffers that emits a
//! patch section for every run of differing bytes, absorbing short runs of
//! identical bytes (up to a configurable tolerance) into an open section.
//!
//! The scan is modelled as a finite-state machine stepped once per byte
//! position; the executable scan is proved equal to the machine's run.

use vstd::prelude::*;

use crate::patch::{section_faithful, Patch, PatchSection, SectionV};

verus! {

/// A byte position takes part in the scan if the byte-value filter is off,
/// or the source byte lies in the printable range the filter keeps.
pub open spec fn eligible(b: u8, only_char: bool) -> bool {
    !only_char || (0x30 <= b && b <= 0x71)
}

/// State of the scan after some prefix of the buffers has been processed:
/// the sections found so far, whether a section is open (the last mismatch
/// is close enough behind to extend it), and the pending gap of identical
/// bytes buffered since the open section was last extended.
#[verifier::ext_equal]
pub struct ScanState {
    pub sections: Seq<SectionV>,
    pub in_section: bool,
    pub gap_count: int,
    pub gap_search: Seq<u8>,
    pub gap_data: Seq<u8>,
}

pub open spec fn scan_init() -> ScanState {
    ScanState {
        sections: Seq::empty(),
        in_section: false,
        gap_count: 0,
        gap_search: Seq::empty(),
        gap_data: Seq::empty(),
    }
}

/// One step of the scan, processing byte position `i`.
///
/// An eligible mismatch opens a new section, or extends the open one after
/// splicing in the pending gap, and resets the gap counter. Any other byte
/// is buffered into the pending gap while the open section's gap budget
/// (`follow`) lasts and the byte is eligible; otherwise it closes the
/// section and clears the gap.
pub open spec fn scan_step(
    st: ScanState,
    source: Seq<u8>,
    transformed: Seq<u8>,
    i: int,
    follow: int,
    only_char: bool,
) -> ScanState {
    let s = source[i];
    let t = transformed[i];
    if s != t && eligible(s, only_char) {
        if !st.in_section {
            ScanState {
                sections: st.sections.push(
                    SectionV {
                        id: (st.sections.len() + 1) as u32,
                        start: i,
                        end: i,
                        search: seq![s],
                        data: seq![t],
                    },
                ),
                in_section: true,
                gap_count: 0,
                gap_search: Seq::empty(),
                gap_data: Seq::empty(),
            }
        } else {
            let k = st.sections.len() - 1;
            let last = st.sections[k];
            let ext = SectionV {
                id: last.id,
                start: last.start,
                end: i,
                search: last.search + st.gap_search + seq![s],
                data: last.data + st.gap_data + seq![t],
            };
            ScanState {
                sections: st.sections.update(k, ext),
                in_section: true,
                gap_count: 0,
                gap_search: Seq::empty(),
                gap_data: Seq::empty(),
            }
        }
    } else {
        if st.in_section && st.gap_count < follow && eligible(s, only_char) {
            ScanState {
                sections: st.sections,
                in_section: true,
                gap_count: st.gap_count + 1,
                gap_search: st.gap_search.push(s),
                gap_data: st.gap_data.push(t),
            }
        } else {
            ScanState {
                sections: st.sections,
                in_section: false,
                gap_count: st.gap_count + 1,
                gap_search: Seq::empty(),
                gap_data: Seq::empty(),
            }
        }
    }
}

/// The scan state after the first `n` byte positions.
pub open spec fn scan_upto(
    source: Seq<u8>,
    transformed: Seq<u8>,
    follow: int,
    only_char: bool,
    n: int,
) -> ScanState
    decreases n,
{
    if n <= 0 {
        scan_init()
    } else {
        scan_step(
            scan_upto(source, transformed, follow, only_char, n - 1),
            source,
            transformed,
            n - 1,
            follow,
            only_char,
        )
    }
}

/// The sections the scan of the whole buffers discovers, in discovery order.
pub open spec fn scan_sections(
    source: Seq<u8>,
    transformed: Seq<u8>,
    follow: int,
    only_char: bool,
) -> Seq<SectionV> {
    scan_upto(source, transformed, follow, only_char, source.len() as int).sections
}

/// Position `p` lies inside one of the sections.
pub open spec fn covered(secs: Seq<SectionV>, p: int) -> bool {
    exists|k: int| 0 <= k < secs.len() && ((#[trigger] secs[k]).start <= p <= secs[k].end)
}

/// Every section records the two buffers faithfully over its span.
pub open spec fn sections_ok(secs: Seq<SectionV>, source: Seq<u8>, transformed: Seq<u8>) -> bool {
    forall|k: int| 0 <= k < secs.len() ==> section_faithful(#[trigger] secs[k], source, transformed)
}

/// Consecutive sections are separated by at least two positions.
pub open spec fn sections_separated(secs: Seq<SectionV>) -> bool {
    forall|k: int| 0 <= k < secs.len() - 1 ==> (#[trigger] secs[k]).end + 2 <= secs[k + 1].start
}

/// Every eligible mismatch below `i` lies inside a section.
pub open spec fn sections_cover(
    secs: Seq<SectionV>,
    source: Seq<u8>,
    transformed: Seq<u8>,
    only_char: bool,
    i: int,
) -> bool {
    forall|p: int|
        0 <= p < i && source[p] != transformed[p] && eligible(#[trigger] source[p], only_char)
            ==> covered(secs, p)
}

/// Invariant of the scan state machine after `i` steps.
pub open spec fn scan_inv(
    st: ScanState,
    source: Seq<u8>,
    transformed: Seq<u8>,
    follow: int,
    only_char: bool,
    i: int,
) -> bool {
    &&& sections_ok(st.sections, source, transformed)
    &&& forall|k: int| 0 <= k < st.sections.len() ==> (#[trigger] st.sections[k]).end < i
    &&& forall|k: int| 0 <= k < st.sections.len() ==> (#[trigger] st.sections[k]).id == (k + 1) as u32
    &&& sections_separated(st.sections)
    &&& sections_cover(st.sections, source, transformed, only_char, i)
    &&& st.sections.len() <= i
    &&& st.gap_search.len() == st.gap_data.len()
    &&& (st.in_section ==> {
        let last = st.sections[st.sections.len() - 1];
        &&& st.sections.len() >= 1
        &&& last.end + 1 + st.gap_search.len() == i
        &&& st.gap_search == source.subrange(last.end + 1, i)
        &&& st.gap_data == transformed.subrange(last.end + 1, i)
        &&& (forall|p: int| last.end < p < i ==> source[p] == #[trigger] transformed[p])
        &&& st.gap_count == st.gap_search.len()
        &&& st.gap_count <= follow
    })
    &&& (!st.in_section ==> {
        &&& st.gap_search.len() == 0
        &&& (st.sections.len() >= 1 ==> st.sections[st.sections.len() - 1].end <= i - 2)
    })
}

/// One scan step preserves the invariant.
#[verifier::rlimit(100)]
proof fn lemma_scan_inv_step(
    source: Seq<u8>,
    transformed: Seq<u8>,
    follow: int,
    only_char: bool,
    i: int,
)
    requires
        source.len() == transformed.len(),
        follow >= 0,
        0 <= i < source.len(),
        scan_inv(scan_upto(source, transformed, follow, only_char, i), source, transformed, follow, only_char, i),
    ensures
        scan_inv(
            scan_upto(source, transformed, follow, only_char, i + 1),
            source,
            transformed,
            follow,
            only_char,
            i + 1,
        ),
{
    let st = scan_upto(source, transformed, follow, only_char, i);
    let st2 = scan_upto(source, transformed, follow, only_char, i + 1);
    assert(st2 == scan_step(st, source, transformed, i, follow, only_char));
    let s = source[i];
    let t = transformed[i];
    if s != t && eligible(s, only_char) {
        if !st.in_section {
            let fresh = SectionV {
                id: (st.sections.len() + 1) as u32,
                start: i,
                end: i,
                search: seq![s],
                data: seq![t],
            };
            assert(st2.sections == st.sections.push(fresh));
            assert(section_faithful(fresh, source, transformed)) by {
                assert(fresh.search =~= source.subrange(i, i + 1));
                assert(fresh.data =~= transformed.subrange(i, i + 1));
            }
            assert(sections_ok(st2.sections, source, transformed));
            assert(sections_separated(st2.sections));
            assert(st2.gap_search =~= source.subrange(i + 1, i + 1));
            assert(st2.gap_data =~= transformed.subrange(i + 1, i + 1));
            assert(sections_cover(st2.sections, source, transformed, only_char, i + 1)) by {
                assert forall|p: int|
                    0 <= p < i + 1 && source[p] != transformed[p]
                        && eligible(#[trigger] source[p], only_char) implies covered(st2.sections, p) by {
                    if p < i {
                        let k = choose|k: int|
                            0 <= k < st.sections.len()
                                && ((#[trigger] st.sections[k]).start <= p <= st.sections[k].end);
                        assert(st2.sections[k].start <= p <= st2.sections[k].end);
                    } else {
                        let k = st.sections.len() as int;
                        assert(st2.sections[k].start <= p <= st2.sections[k].end);
                    }
                }
            }
        } else {
            let k = st.sections.len() - 1;
            let last = st.sections[k];
            let ext = SectionV {
                id: last.id,
                start: last.start,
                end: i,
                search: last.search + st.gap_search + seq![s],
                data: last.data + st.gap_data + seq![t],
            };
            assert(st2.sections == st.sections.update(k, ext));
            assert(section_faithful(ext, source, transformed)) by {
                assert(last.search == source.subrange(last.start, last.end + 1));
                assert(st.gap_search == source.subrange(last.end + 1, i));
                assert(ext.search =~= source.subrange(last.start, i + 1));
                assert(ext.data =~= transformed.subrange(last.start, i + 1));
            }
            assert(sections_ok(st2.sections, source, transformed));
            assert(sections_separated(st2.sections));
            assert(st2.gap_search =~= source.subrange(i + 1, i + 1));
            assert(st2.gap_data =~= transformed.subrange(i + 1, i + 1));
            assert(sections_cover(st2.sections, source, transformed, only_char, i + 1)) by {
                assert forall|p: int|
                    0 <= p < i + 1 && source[p] != transformed[p]
                        && eligible(#[trigger] source[p], only_char) implies covered(st2.sections, p) by {
                    if p < i {
                        let j = choose|j: int|
                            0 <= j < st.sections.len()
                                && ((#[trigger] st.sections[j]).start <= p <= st.sections[j].end);
                        assert(st2.sections[j].start <= p <= st2.sections[j].end);
                    } else {
                        assert(st2.sections[k].start <= p <= st2.sections[k].end);
                    }
                }
            }
        }
    } else {
        if st.in_section && st.gap_count < follow && eligible(s, only_char) {
            let last = st.sections[st.sections.len() - 1];
            assert(source[i] == transformed[i]);
            assert(st2.gap_search =~= source.subrange(last.end + 1, i + 1));
            assert(st2.gap_data =~= transformed.subrange(last.end + 1, i + 1));
            assert(sections_cover(st2.sections, source, transformed, only_char, i + 1));
        } else {
            assert(sections_cover(st2.sections, source, transformed, only_char, i + 1)) by {
                if st.in_section {
                    assert(!(s != t && eligible(s, only_char)));
                }
            }
        }
    }
}

/// The scan invariant holds after any number of steps.
proof fn lemma_scan_inv(
    source: Seq<u8>,
    transformed: Seq<u8>,
    follow: int,
    only_char: bool,
    n: int,
)
    requires
        source.len() == transformed.len(),
        follow >= 0,
        0 <= n <= source.len(),
    ensures
        scan_inv(
            scan_upto(source, transformed, follow, only_char, n),
            source,
            transformed,
            follow,
            only_char,
            n,
        ),
    decreases n,
{
    if n > 0 {
        lemma_scan_inv(source, transformed, follow, only_char, n - 1);
        lemma_scan_inv_step(source, transformed, follow, only_char, n - 1);
    }
}

/// What the differ guarantees of its output: every section copies the two
/// buffers faithfully over its span (so search and data have equal length
/// and are non-empty), sections come in buffer order separated by at least
/// two positions, carry 1-based ids, and every eligible mismatch between
/// the buffers lies inside some section.
pub proof fn lemma_scan_sections_ok(
    source: Seq<u8>,
    transformed: Seq<u8>,
    follow: int,
    only_char: bool,
)
    requires
        source.len() == transformed.len(),
        follow >= 0,
    ensures
        sections_ok(scan_sections(source, transformed, follow, only_char), source, transformed),
        sections_separated(scan_sections(source, transformed, follow, only_char)),
        sections_cover(
            scan_sections(source, transformed, follow, only_char),
            source,
            transformed,
            only_char,
            source.len() as int,
        ),
        forall|k: int|
            0 <= k < scan_sections(source, transformed, follow, only_char).len()
                ==> (#[trigger] scan_sections(source, transformed, follow, only_char)[k]).id == (
            k + 1) as u32,
        scan_sections(source, transformed, follow, only_char).len() <= source.len(),
{
    lemma_scan_inv(source, transformed, follow, only_char, source.len() as int);
}

/// Scans two equal-length buffers and returns the raw sections wherever the
/// buffers disagree, honoring the gap tolerance `follow` and the optional
/// byte-value filter `only_char`. The result is exactly the run of the scan
/// state machine over the buffers. Buffers are bounded by `u32::MAX` so
/// that the 1-based section ids fit their 32-bit field.
pub fn scan(source: &Vec<u8>, transformed: &Vec<u8>, follow: usize, only_char: bool) -> (patch:
    Patch)
    requires
        source@.len() == transformed@.len(),
        source@.len() < u32::MAX as int,
    ensures
        patch@ == scan_sections(source@, transformed@, follow as int, only_char),
        sections_ok(patch@, source@, transformed@),
        sections_separated(patch@),
        forall|k: int| 0 <= k < patch@.len() ==> (#[trigger] patch@[k]).search.len() > 0,
        forall|k: int|
            0 <= k < patch@.len() ==> (#[trigger] patch@[k]).search.len() == patch@[k].data.len(),
{
    let mut done: Vec<PatchSection> = Vec::new();
    let mut cur = PatchSection { id: 0, start: 0, end: 0, search: Vec::new(), data: Vec::new() };
    let mut is_open = false;
    let mut gap_count: usize = 0;
    let mut gap_search: Vec<u8> = Vec::new();
    let mut gap_data: Vec<u8> = Vec::new();
    let n = source.len();
    let mut i: usize = 0;
    while i < n
        invariant
            source@.len() == transformed@.len(),
            source@.len() < u32::MAX as int,
            n == source@.len(),
            i <= n,
            ({
                let st = scan_upto(source@, transformed@, follow as int, only_char, i as int);
                &&& st.in_section == is_open
                &&& (is_open ==> st.sections == done@.map_values(|s: PatchSection| s@).push(cur@))
                &&& (!is_open ==> st.sections == done@.map_values(|s: PatchSection| s@))
                &&& st.gap_search == gap_search@
                &&& st.gap_data == gap_data@
                &&& st.gap_count == gap_count as int
            }),
            done@.len() + (if is_open { 1int } else { 0int }) <= i as int,
            gap_count <= i,
        decreases n - i,
    {
        let ghost st = scan_upto(source@, transformed@, follow as int, only_char, i as int);
        let ghost st2 = scan_upto(source@, transformed@, follow as int, only_char, i + 1);
        proof {
            assert(st2 == scan_step(st, source@, transformed@, i as int, follow as int, only_char));
        }
        let s = source[i];
        let t = transformed[i];
        let valid = !only_char || (s >= 0x30 && s <= 0x71);
        if s != t && valid {
            if !is_open {
                let mut nsearch: Vec<u8> = Vec::new();
                nsearch.push(s);
                let mut ndata: Vec<u8> = Vec::new();
                ndata.push(t);
                cur = PatchSection {
                    id: (done.len() + 1) as u32,
                    start: i,
                    end: i,
                    search: nsearch,
                    data: ndata,
                };
                is_open = true;
                gap_count = 0;
                proof {
                    assert(cur@.search =~= seq![s]);
                    assert(cur@.data =~= seq![t]);
                    assert(st2.sections =~= done@.map_values(|x: PatchSection| x@).push(cur@));
                }
            } else {
                let ghost cur_old = cur@;
                push_gap(&mut cur, &mut gap_search, &mut gap_data);
                cur.search.push(s);
                cur.data.push(t);
                cur.end = i;
                gap_count = 0;
                proof {
                    let k = st.sections.len() - 1;
                    let last = st.sections[k];
                    assert(last == cur_old);
                    assert(cur@.search =~= last.search + st.gap_search + seq![s]);
                    assert(cur@.data =~= last.data + st.gap_data + seq![t]);
                    assert(st2.sections =~= done@.map_values(|x: PatchSection| x@).push(cur@));
                }
            }
        } else {
            if is_open && gap_count < follow && valid {
                gap_search.push(s);
                gap_data.push(t);
                gap_count += 1;
            } else {
                if is_open {
                    done.push(cur);
                    cur = PatchSection {
                        id: 0,
                        start: 0,
                        end: 0,
                        search: Vec::new(),
                        data: Vec::new(),
                    };
                    is_open = false;
                    proof {
                        assert(done@.map_values(|x: PatchSection| x@) =~= st.sections);
                    }
                }
                gap_search = Vec::new();
                gap_data = Vec::new();
                gap_count += 1;
            }
        }
        i += 1;
    }
    if is_open {
        done.push(cur);
        proof {
            assert(done@.map_values(|x: PatchSection| x@) =~= scan_sections(
                source@,
                transformed@,
                follow as int,
                only_char,
            ));
        }
    }
    let patch = Patch { sections: done };
    proof {
        lemma_scan_sections_ok(source@, transformed@, follow as int, only_char);
        assert forall|k: int| 0 <= k < patch@.len() implies (#[trigger] patch@[k]).search.len() > 0
            && patch@[k].search.len() == patch@[k].data.len() by {
            assert(section_faithful(patch@[k], source@, transformed@));
        }
    }
    patch
}

/// Splices the pending gap bytes onto the open section and clears the gap.
fn push_gap(cur: &mut PatchSection, gap_search: &mut Vec<u8>, gap_data: &mut Vec<u8>)
    ensures
        final(cur)@.search == old(cur)@.search + old(gap_search)@,
        final(cur)@.data == old(cur)@.data + old(gap_data)@,
        final(cur)@.id == old(cur)@.id,
        final(cur)@.start == old(cur)@.start,
        final(cur)@.end == old(cur)@.end,
        final(gap_search)@.len() == 0,
        final(gap_data)@.len() == 0,
{
    crate::patch::push_bytes(&mut cur.search, gap_search);
    crate::patch::push_bytes(&mut cur.data, gap_data);
    gap_search.clear();
    gap_data.clear();
}

} // verus!
