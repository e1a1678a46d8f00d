//! The patch data model: a patch is an ordered sequence of sections, each a
//! contiguous edit region with a search pattern and its replacement bytes.

use vstd::prelude::*;

verus! {

/// Mathematical model of one patch section.
#[verifier::ext_equal]
pub struct SectionV {
    pub id: u32,
    pub start: int,
    pub end: int,
    pub search: Seq<u8>,
    pub data: Seq<u8>,
}

/// One contiguous edit region: `search` holds the bytes copied from the
/// source buffer over the inclusive span `start..=end`, `data` the
/// replacement bytes copied from the transformed buffer at the same
/// positions.
pub struct PatchSection {
    pub id: u32,
    pub start: usize,
    pub end: usize,
    pub search: Vec<u8>,
    pub data: Vec<u8>,
}

impl View for PatchSection {
    type V = SectionV;

    open spec fn view(&self) -> SectionV {
        SectionV {
            id: self.id,
            start: self.start as int,
            end: self.end as int,
            search: self.search@,
            data: self.data@,
        }
    }
}

/// An ordered sequence of sections; the order defines application order.
pub struct Patch {
    pub sections: Vec<PatchSection>,
}

impl View for Patch {
    type V = Seq<SectionV>;

    open spec fn view(&self) -> Seq<SectionV> {
        self.sections@.map_values(|s: PatchSection| s@)
    }
}

/// Basic shape of a section: a non-empty span whose search and data arrays
/// both cover it position for position.
pub open spec fn section_wf(s: SectionV) -> bool {
    &&& 0 <= s.start <= s.end
    &&& s.search.len() == s.end - s.start + 1
    &&& s.data.len() == s.search.len()
}

/// The section records exactly the bytes of the two buffers over its span:
/// `search` is the source slice and `data` the transformed slice.
pub open spec fn section_faithful(s: SectionV, source: Seq<u8>, transformed: Seq<u8>) -> bool {
    &&& section_wf(s)
    &&& s.end < source.len()
    &&& s.search == source.subrange(s.start, s.end + 1)
    &&& s.data == transformed.subrange(s.start, s.end + 1)
}

/// Copy of a byte vector, element for element.
pub fn copy_bytes(src: &Vec<u8>) -> (r: Vec<u8>)
    ensures
        r@ == src@,
{
    let mut r: Vec<u8> = Vec::new();
    let mut j: usize = 0;
    while j < src.len()
        invariant
            j <= src@.len(),
            r@ == src@.subrange(0, j as int),
        decreases src@.len() - j,
    {
        r.push(src[j]);
        assert(r@ =~= src@.subrange(0, j + 1));
        j += 1;
    }
    assert(r@ =~= src@);
    r
}

/// Copy of a section, field for field.
pub fn section_dup(s: &PatchSection) -> (r: PatchSection)
    ensures
        r@ == s@,
{
    PatchSection {
        id: s.id,
        start: s.start,
        end: s.end,
        search: copy_bytes(&s.search),
        data: copy_bytes(&s.data),
    }
}

/// Appends every byte of `src` to `dst`.
pub fn push_bytes(dst: &mut Vec<u8>, src: &Vec<u8>)
    ensures
        final(dst)@ == old(dst)@ + src@,
{
    let mut j: usize = 0;
    while j < src.len()
        invariant
            j <= src@.len(),
            dst@ == old(dst)@ + src@.subrange(0, j as int),
        decreases src@.len() - j,
    {
        dst.push(src[j]);
        assert(dst@ =~= old(dst)@ + src@.subrange(0, j + 1));
        j += 1;
    }
    assert(dst@ =~= old(dst)@ + src@);
}

/// Appends the bytes of `src` from position `from` on to `dst`.
pub fn push_bytes_from(dst: &mut Vec<u8>, src: &Vec<u8>, from: usize)
    requires
        from <= src@.len(),
    ensures
        final(dst)@ == old(dst)@ + src@.skip(from as int),
{
    let mut j: usize = from;
    while j < src.len()
        invariant
            from <= j <= src@.len(),
            dst@ == old(dst)@ + src@.subrange(from as int, j as int),
        decreases src@.len() - j,
    {
        dst.push(src[j]);
        assert(dst@ =~= old(dst)@ + src@.subrange(from as int, j + 1));
        j += 1;
    }
    assert(dst@ =~= old(dst)@ + src@.skip(from as int));
}

} // verus!
