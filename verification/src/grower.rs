//! The disambiguator: grows a section's search pattern with adjacent bytes
//! from the source buffer until the pattern occurs exactly once in a
//! reference buffer, trying the append, prepend and alternating strategies
//! in turn under a growth budget.

use vstd::prelude::*;

use crate::patch::{section_faithful, PatchSection, SectionV};
use crate::search::count_from;

verus! {

/// How the next context byte is chosen: after the span, before it, or
/// alternating between the two on successive steps.
pub enum GrowStrategy {
    Append,
    Prepend,
    Alternate,
}

pub open spec fn strategy_rank(s: GrowStrategy) -> int {
    match s {
        GrowStrategy::Append => 0,
        GrowStrategy::Prepend => 1,
        GrowStrategy::Alternate => 2,
    }
}

pub open spec fn next_strategy(s: GrowStrategy) -> GrowStrategy {
    match s {
        GrowStrategy::Append => GrowStrategy::Prepend,
        GrowStrategy::Prepend => GrowStrategy::Alternate,
        GrowStrategy::Alternate => GrowStrategy::Alternate,
    }
}

/// One growth step: extend the section by the byte just past its end
/// (append) or just before its start (prepend), copying from both buffers.
/// Reaching the edge of the buffer means no more growth is possible and the
/// section is left as it is.
pub open spec fn grow_step(
    cur: SectionV,
    source: Seq<u8>,
    transformed: Seq<u8>,
    use_prepend: bool,
) -> SectionV {
    if use_prepend {
        if cur.start > 0 {
            SectionV {
                id: cur.id,
                start: cur.start - 1,
                end: cur.end,
                search: seq![source[cur.start - 1]] + cur.search,
                data: seq![transformed[cur.start - 1]] + cur.data,
            }
        } else {
            cur
        }
    } else {
        if cur.end + 1 < source.len() {
            SectionV {
                id: cur.id,
                start: cur.start,
                end: cur.end + 1,
                search: cur.search.push(source[cur.end + 1]),
                data: cur.data.push(transformed[cur.end + 1]),
            }
        } else {
            cur
        }
    }
}

/// A section marked for pruning: its span is kept but search and data are
/// cleared.
pub open spec fn pruned_of(orig: SectionV) -> SectionV {
    SectionV {
        id: orig.id,
        start: orig.start,
        end: orig.end,
        search: Seq::empty(),
        data: Seq::empty(),
    }
}

/// The growth loop. Counts the occurrences of the working pattern in the
/// reference buffer: exactly one means success; none means the pattern is
/// absent under this strategy, so growth restarts from the original section
/// under the next strategy, or marks the section for pruning when the
/// alternating strategy was already active; two or more means ambiguity, so
/// one growth step is taken and charged against the budget, and an
/// exhausted budget moves to the next strategy, or gives up and keeps the
/// original section under the alternating strategy.
pub open spec fn grow_loop(
    orig: SectionV,
    source: Seq<u8>,
    transformed: Seq<u8>,
    reference: Seq<u8>,
    max_grow: int,
    strat: GrowStrategy,
    cur: SectionV,
    used: int,
    alt_prepend: bool,
) -> SectionV
    decreases 2 - strategy_rank(strat), max_grow - used,
{
    let c = count_from(reference, cur.search, 0);
    if c == 1 {
        cur
    } else if c == 0 {
        match strat {
            GrowStrategy::Alternate => pruned_of(orig),
            _ => grow_loop(
                orig,
                source,
                transformed,
                reference,
                max_grow,
                next_strategy(strat),
                orig,
                0,
                false,
            ),
        }
    } else if used >= max_grow {
        match strat {
            GrowStrategy::Alternate => orig,
            _ => grow_loop(
                orig,
                source,
                transformed,
                reference,
                max_grow,
                next_strategy(strat),
                orig,
                0,
                false,
            ),
        }
    } else {
        let use_prepend = match strat {
            GrowStrategy::Append => false,
            GrowStrategy::Prepend => true,
            GrowStrategy::Alternate => alt_prepend,
        };
        grow_loop(
            orig,
            source,
            transformed,
            reference,
            max_grow,
            strat,
            grow_step(cur, source, transformed, use_prepend),
            used + 1,
            match strat {
                GrowStrategy::Alternate => !alt_prepend,
                _ => alt_prepend,
            },
        )
    }
}

/// What growing a section yields.
pub open spec fn grow_spec(
    orig: SectionV,
    source: Seq<u8>,
    transformed: Seq<u8>,
    reference: Seq<u8>,
    max_grow: int,
) -> SectionV {
    grow_loop(
        orig,
        source,
        transformed,
        reference,
        max_grow,
        GrowStrategy::Append,
        orig,
        0,
        false,
    )
}

/// A pattern that is already unique in the reference buffer is not grown:
/// the section comes back unchanged.
pub proof fn lemma_grow_unique_identity(
    orig: SectionV,
    source: Seq<u8>,
    transformed: Seq<u8>,
    reference: Seq<u8>,
    max_grow: int,
)
    requires
        count_from(reference, orig.search, 0) == 1,
    ensures
        grow_spec(orig, source, transformed, reference, max_grow) == orig,
{
}

/// A growth step keeps the section a faithful copy of the two buffers.
proof fn lemma_grow_step_faithful(
    cur: SectionV,
    source: Seq<u8>,
    transformed: Seq<u8>,
    use_prepend: bool,
)
    requires
        source.len() == transformed.len(),
        section_faithful(cur, source, transformed),
    ensures
        section_faithful(grow_step(cur, source, transformed, use_prepend), source, transformed),
{
    let g = grow_step(cur, source, transformed, use_prepend);
    if use_prepend && cur.start > 0 {
        assert(g.search =~= source.subrange(cur.start - 1, cur.end + 1));
        assert(g.data =~= transformed.subrange(cur.start - 1, cur.end + 1));
    } else if !use_prepend && cur.end + 1 < source.len() {
        assert(g.search =~= source.subrange(cur.start, cur.end + 2));
        assert(g.data =~= transformed.subrange(cur.start, cur.end + 2));
    }
}

proof fn lemma_grow_loop_faithful(
    orig: SectionV,
    source: Seq<u8>,
    transformed: Seq<u8>,
    reference: Seq<u8>,
    max_grow: int,
    strat: GrowStrategy,
    cur: SectionV,
    used: int,
    alt_prepend: bool,
)
    requires
        source.len() == transformed.len(),
        section_faithful(orig, source, transformed),
        section_faithful(cur, source, transformed),
        cur.id == orig.id,
    ensures
        ({
            let g = grow_loop(
                orig,
                source,
                transformed,
                reference,
                max_grow,
                strat,
                cur,
                used,
                alt_prepend,
            );
            &&& g.search.len() == g.data.len()
            &&& g.id == orig.id
            &&& (g.search.len() == 0 || section_faithful(g, source, transformed))
        }),
    decreases 2 - strategy_rank(strat), max_grow - used,
{
    let c = count_from(reference, cur.search, 0);
    if c == 1 {
    } else if c == 0 {
        match strat {
            GrowStrategy::Alternate => {},
            _ => {
                lemma_grow_loop_faithful(
                    orig,
                    source,
                    transformed,
                    reference,
                    max_grow,
                    next_strategy(strat),
                    orig,
                    0,
                    false,
                );
            },
        }
    } else if used >= max_grow {
        match strat {
            GrowStrategy::Alternate => {},
            _ => {
                lemma_grow_loop_faithful(
                    orig,
                    source,
                    transformed,
                    reference,
                    max_grow,
                    next_strategy(strat),
                    orig,
                    0,
                    false,
                );
            },
        }
    } else {
        let use_prepend = match strat {
            GrowStrategy::Append => false,
            GrowStrategy::Prepend => true,
            GrowStrategy::Alternate => alt_prepend,
        };
        lemma_grow_step_faithful(cur, source, transformed, use_prepend);
        lemma_grow_loop_faithful(
            orig,
            source,
            transformed,
            reference,
            max_grow,
            strat,
            grow_step(cur, source, transformed, use_prepend),
            used + 1,
            match strat {
                GrowStrategy::Alternate => !alt_prepend,
                _ => alt_prepend,
            },
        );
    }
}

/// Growing a faithful section yields its id unchanged, search and data of
/// equal length, and either a section marked for pruning or again a
/// faithful section.
pub proof fn lemma_grow_faithful(
    orig: SectionV,
    source: Seq<u8>,
    transformed: Seq<u8>,
    reference: Seq<u8>,
    max_grow: int,
)
    requires
        source.len() == transformed.len(),
        section_faithful(orig, source, transformed),
    ensures
        ({
            let g = grow_spec(orig, source, transformed, reference, max_grow);
            &&& g.search.len() == g.data.len()
            &&& g.id == orig.id
            &&& (g.search.len() == 0 || section_faithful(g, source, transformed))
        }),
{
    lemma_grow_loop_faithful(
        orig,
        source,
        transformed,
        reference,
        max_grow,
        GrowStrategy::Append,
        orig,
        0,
        false,
    );
}

/// Appends up to `amount` bytes taken from just past the section's end in
/// both buffers, clamped at the end of the buffers.
pub fn section_append(section: &mut PatchSection, input: &Vec<u8>, patched: &Vec<u8>, amount: usize)
    requires
        input@.len() == patched@.len(),
        old(section)@.end < input@.len(),
    ensures
        ({
            let e = old(section)@.end;
            let take = if e + amount < input@.len() {
                amount as int
            } else {
                input@.len() - e - 1
            };
            &&& final(section)@.search == old(section)@.search + input@.subrange(e + 1, e + 1 + take)
            &&& final(section)@.data == old(section)@.data + patched@.subrange(e + 1, e + 1 + take)
            &&& final(section)@.end == e + take
            &&& final(section)@.start == old(section)@.start
            &&& final(section)@.id == old(section)@.id
        }),
{
    let take: usize = if amount < input.len() - section.end {
        amount
    } else {
        input.len() - 1 - section.end
    };
    let ghost e = old(section)@.end;
    let mut j: usize = 0;
    while j < take
        invariant
            input@.len() == patched@.len(),
            input@.len() <= usize::MAX,
            e + take < input@.len(),
            e == section@.end,
            j <= take,
            section@.search == old(section)@.search + input@.subrange(e + 1, e + 1 + j),
            section@.data == old(section)@.data + patched@.subrange(e + 1, e + 1 + j),
            section@.start == old(section)@.start,
            section@.id == old(section)@.id,
            section.end == old(section).end,
        decreases take - j,
    {
        section.search.push(input[section.end + 1 + j]);
        section.data.push(patched[section.end + 1 + j]);
        proof {
            assert(section@.search =~= old(section)@.search + input@.subrange(e + 1, e + 2 + j));
            assert(section@.data =~= old(section)@.data + patched@.subrange(e + 1, e + 2 + j));
        }
        j += 1;
    }
    section.end = section.end + take;
}

/// Prepends up to `amount` bytes taken from just before the section's start
/// in both buffers, clamped at the start of the buffers.
pub fn section_prepend(
    section: &mut PatchSection,
    input: &Vec<u8>,
    patched: &Vec<u8>,
    amount: usize,
)
    requires
        input@.len() == patched@.len(),
        old(section)@.start <= input@.len(),
    ensures
        ({
            let st = old(section)@.start;
            let take = if amount <= st { amount as int } else { st };
            &&& final(section)@.search == input@.subrange(st - take, st) + old(section)@.search
            &&& final(section)@.data == patched@.subrange(st - take, st) + old(section)@.data
            &&& final(section)@.start == st - take
            &&& final(section)@.end == old(section)@.end
            &&& final(section)@.id == old(section)@.id
        }),
{
    let buf_len = input.len();
    let take: usize = if amount <= section.start {
        amount
    } else {
        section.start
    };
    let from = section.start - take;
    proof {
        assert(buf_len == input@.len());
    }
    let mut nsearch: Vec<u8> = Vec::new();
    let mut ndata: Vec<u8> = Vec::new();
    let mut j: usize = 0;
    while j < take
        invariant
            input@.len() == patched@.len(),
            input@.len() <= usize::MAX,
            from + take <= input@.len(),
            j <= take,
            nsearch@ == input@.subrange(from as int, from + j),
            ndata@ == patched@.subrange(from as int, from + j),
        decreases take - j,
    {
        nsearch.push(input[from + j]);
        ndata.push(patched[from + j]);
        proof {
            assert(nsearch@ =~= input@.subrange(from as int, from + j + 1));
            assert(ndata@ =~= patched@.subrange(from as int, from + j + 1));
        }
        j += 1;
    }
    crate::patch::push_bytes(&mut nsearch, &section.search);
    crate::patch::push_bytes(&mut ndata, &section.data);
    section.search = nsearch;
    section.data = ndata;
    section.start = from;
}

/// Grows a section until its search pattern is unique in the reference
/// buffer, following the strategy policy of `grow_loop`. A section whose
/// pattern is already unique comes back unchanged; one whose pattern cannot
/// be found under any strategy comes back with search and data cleared, to
/// be pruned; one that stays ambiguous through the whole budget comes back
/// unchanged as the best remaining guess.
pub fn grow_section(
    section: &mut PatchSection,
    source: &Vec<u8>,
    transformed: &Vec<u8>,
    reference: &Vec<u8>,
    max_grow: usize,
)
    requires
        source@.len() == transformed@.len(),
        old(section)@.start <= old(section)@.end,
        old(section)@.end < source@.len(),
    ensures
        final(section)@ == grow_spec(
            old(section)@,
            source@,
            transformed@,
            reference@,
            max_grow as int,
        ),
        count_from(reference@, old(section)@.search, 0) == 1 ==> final(section)@ == old(section)@,
{
    let ghost orig = old(section)@;
    let base = crate::patch::section_dup(section);
    let mut cur = crate::patch::section_dup(section);
    let mut strat = GrowStrategy::Append;
    let mut used: usize = 0;
    let mut alt_prepend = false;
    // 0: adopt the grown section, 1: mark for pruning, 2: keep the original.
    let mut outcome: u8 = 2;
    loop
        invariant_except_break
            source@.len() == transformed@.len(),
            orig.start <= orig.end,
            orig.end < source@.len(),
            base@ == orig,
            cur@.end < source@.len(),
            cur@.start <= source@.len(),
            used <= max_grow,
            grow_spec(orig, source@, transformed@, reference@, max_grow as int) == grow_loop(
                orig,
                source@,
                transformed@,
                reference@,
                max_grow as int,
                strat,
                cur@,
                used as int,
                alt_prepend,
            ),
        ensures
            outcome == 0 || outcome == 1 || outcome == 2,
            (outcome == 0 ==> grow_spec(orig, source@, transformed@, reference@, max_grow as int)
                == cur@),
            (outcome == 1 ==> grow_spec(orig, source@, transformed@, reference@, max_grow as int)
                == pruned_of(orig)),
            (outcome == 2 ==> grow_spec(orig, source@, transformed@, reference@, max_grow as int)
                == orig),
        decreases 2 - strategy_rank(strat), max_grow - used,
    {
        let c = crate::search::count_limited(reference, &cur.search);
        if c == 1 {
            outcome = 0;
            break;
        } else if c == 0 {
            match strat {
                GrowStrategy::Alternate => {
                    outcome = 1;
                    break;
                },
                GrowStrategy::Append => {
                    strat = GrowStrategy::Prepend;
                    cur = crate::patch::section_dup(&base);
                    used = 0;
                    alt_prepend = false;
                },
                GrowStrategy::Prepend => {
                    strat = GrowStrategy::Alternate;
                    cur = crate::patch::section_dup(&base);
                    used = 0;
                    alt_prepend = false;
                },
            }
        } else if used >= max_grow {
            match strat {
                GrowStrategy::Alternate => {
                    outcome = 2;
                    break;
                },
                GrowStrategy::Append => {
                    strat = GrowStrategy::Prepend;
                    cur = crate::patch::section_dup(&base);
                    used = 0;
                    alt_prepend = false;
                },
                GrowStrategy::Prepend => {
                    strat = GrowStrategy::Alternate;
                    cur = crate::patch::section_dup(&base);
                    used = 0;
                    alt_prepend = false;
                },
            }
        } else {
            let use_prepend = match strat {
                GrowStrategy::Append => false,
                GrowStrategy::Prepend => true,
                GrowStrategy::Alternate => alt_prepend,
            };
            let ghost cur_before = cur@;
            if use_prepend {
                section_prepend(&mut cur, source, transformed, 1);
            } else {
                section_append(&mut cur, source, transformed, 1);
            }
            proof {
                assert(cur@ =~= grow_step(cur_before, source@, transformed@, use_prepend));
            }
            used += 1;
            alt_prepend = match strat {
                GrowStrategy::Alternate => !alt_prepend,
                _ => alt_prepend,
            };
        }
    }
    if outcome == 0 {
        *section = cur;
    } else if outcome == 1 {
        section.search = Vec::new();
        section.data = Vec::new();
        proof {
            assert(section@ =~= pruned_of(orig));
        }
    }
    proof {
        if count_from(reference@, orig.search, 0) == 1 {
            lemma_grow_unique_identity(
                orig,
                source@,
                transformed@,
                reference@,
                max_grow as int,
            );
        }
    }
}

} // verus!
