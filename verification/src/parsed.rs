//! What holds of every tree that a run of tokens parses to.

use crate::parser::block_body_start;
use crate::parser::block_end;
use crate::parser::is_directive;
use crate::parser::is_staff_atom;
use crate::parser::lemma_block_end_bounds;
use crate::parser::lemma_block_progress;
use crate::parser::lemma_preamble_end_bounds;
use crate::parser::lemma_section_progress;
use crate::parser::measure_block;
use crate::parser::measure_blocks;
use crate::parser::parse;
use crate::parser::preamble_end;
use crate::parser::preamble_of;
use crate::parser::section_at;
use crate::parser::sections_from;
use crate::parser::staff_of;
use crate::parser::Lexemes;
use crate::parser::MeasureNodeView;
use crate::parser::PreambleNodeView;
use crate::parser::SectionNodeView;
use crate::parser::StaffNodeView;
use crate::types::LiteralView;
use vstd::prelude::*;

verus! {

/// A staff without ends of lines and bars: pitches, degrees, tracks and
/// notes only.
pub open spec fn staff_is_clean(staff: Seq<StaffNodeView>) -> bool {
    forall|k: int|
        0 <= k < staff.len() ==> !((#[trigger] staff[k]) is Endline) && !(staff[k] is MeasureBar)
}

/// A measure with at least one element, none of them an end of line or a
/// bar.
pub open spec fn measure_is_sound(measure: MeasureNodeView) -> bool {
    measure.staff.len() > 0 && staff_is_clean(measure.staff)
}

/// A preamble of directives only.
pub open spec fn preamble_is_clean(preamble: Seq<PreambleNodeView>) -> bool {
    forall|k: int| 0 <= k < preamble.len() ==> !((#[trigger] preamble[k]) is Endline)
}

/// A section whose preamble holds directives only and whose measures are
/// all sound.
pub open spec fn section_is_sound(section: SectionNodeView) -> bool {
    &&& preamble_is_clean(section.preamble)
    &&& forall|k: int|
        0 <= k < section.measures.len() ==> measure_is_sound(#[trigger] section.measures[k])
}

/// No directive stands among the tokens from `from` up to `to`.
pub open spec fn no_directive(tokens: Lexemes, from: int, to: int) -> bool {
    forall|p: int| from <= p < to ==> !is_directive(#[trigger] tokens[p].1)
}

/// The tokens up to the end of a block are staff atoms.
pub proof fn lemma_block_atoms(tokens: Lexemes, at: int)
    requires
        0 <= at <= tokens.len(),
    ensures
        forall|p: int| at <= p < block_end(tokens, at) ==> is_staff_atom(#[trigger] tokens[p].1),
    decreases tokens.len() - at,
{
    if at < tokens.len() && is_staff_atom(tokens[at].1) {
        lemma_block_atoms(tokens, at + 1);
    }
}

/// The staff of a run of staff atoms is clean.
pub proof fn lemma_staff_clean(tokens: Lexemes, from: int, to: int)
    requires
        0 <= from <= to <= tokens.len(),
        forall|p: int| from <= p < to ==> is_staff_atom(#[trigger] tokens[p].1),
    ensures
        staff_is_clean(staff_of(tokens, from, to)),
    decreases to - from,
{
    if from < to {
        lemma_staff_clean(tokens, from, to - 1);
        assert(is_staff_atom(tokens[to - 1].1));
    }
}

/// The preamble of a run of tokens is clean.
pub proof fn lemma_preamble_clean(tokens: Lexemes, from: int, to: int)
    requires
        0 <= from <= to <= tokens.len(),
    ensures
        preamble_is_clean(preamble_of(tokens, from, to)),
    decreases to - from,
{
    if from < to {
        lemma_preamble_clean(tokens, from, to - 1);
    }
}

/// A block that does not fail holds no directive, and the measure it gives,
/// if it gives one, is sound.
pub proof fn lemma_block_sound(
    tokens: Lexemes,
    from: int,
    section: LiteralView,
    first: LiteralView,
)
    requires
        0 <= from < tokens.len(),
        !(tokens[from].1 is Section),
    ensures
        measure_block(tokens, from, section, first) matches Ok(step) ==> no_directive(
            tokens,
            from,
            step.1,
        ) && (step.0 matches Some(measure) ==> measure_is_sound(measure)),
{
    let body = block_body_start(tokens, from);
    lemma_block_end_bounds(tokens, body);
    lemma_block_atoms(tokens, body);
    let end = block_end(tokens, body);
    lemma_staff_clean(tokens, body, end);
}

/// Blocks that do not fail hold no directive, and their measures are sound.
pub proof fn lemma_blocks_sound(
    tokens: Lexemes,
    from: int,
    section: LiteralView,
    first: LiteralView,
)
    requires
        0 <= from <= tokens.len(),
    ensures
        measure_blocks(tokens, from, section, first) matches Ok(blocks) ==> no_directive(
            tokens,
            from,
            blocks.1,
        ) && forall|k: int|
            0 <= k < blocks.0.len() ==> measure_is_sound(#[trigger] blocks.0[k]),
    decreases tokens.len() - from,
{
    if from < tokens.len() && !(tokens[from].1 is Section) {
        lemma_block_progress(tokens, from, section, first);
        lemma_block_sound(tokens, from, section, first);
        match measure_block(tokens, from, section, first) {
            Ok(step) => {
                lemma_blocks_sound(tokens, step.1, section, first);
                match measure_blocks(tokens, step.1, section, first) {
                    Ok(rest) => {
                        let all = measure_blocks(tokens, from, section, first)->Ok_0;
                        assert forall|k: int| 0 <= k < all.0.len() implies measure_is_sound(
                            #[trigger] all.0[k],
                        ) by {
                            match step.0 {
                                Some(measure) => {
                                    if k > 0 {
                                        assert(all.0[k] == rest.0[k - 1]);
                                    }
                                },
                                None => {},
                            }
                        }
                    },
                    Err(_) => {},
                }
            },
            Err(_) => {},
        }
    }
}

/// Where the staff of the section at `from` starts.
pub open spec fn staff_start(tokens: Lexemes, from: int) -> int {
    preamble_end(
        tokens,
        if tokens[from].1 is Section {
            from + 1
        } else {
            from
        },
    )
}

/// A section that parses is sound, and every directive of it stands before
/// its staff: from the first token of the staff to the end of the section
/// there is none.
pub proof fn lemma_section_sound(tokens: Lexemes, from: int)
    requires
        0 <= from < tokens.len(),
    ensures
        section_at(tokens, from) matches Ok(step) ==> section_is_sound(step.0) && no_directive(
            tokens,
            staff_start(tokens, from),
            step.1,
        ),
{
    let start = if tokens[from].1 is Section {
        from + 1
    } else {
        from
    };
    lemma_preamble_end_bounds(tokens, start);
    let begin = preamble_end(tokens, start);
    lemma_preamble_clean(tokens, start, begin);
    match section_at(tokens, from) {
        Ok(step) => {
            lemma_blocks_sound(tokens, begin, step.0.literal, if begin < tokens.len() {
                tokens[begin].0
            } else {
                step.0.literal
            });
        },
        Err(_) => {},
    }
}

/// The sections from `from` on are sound where they parse.
pub proof fn lemma_sections_sound(tokens: Lexemes, from: int)
    requires
        0 <= from <= tokens.len(),
    ensures
        sections_from(tokens, from) matches Ok(sections) ==> forall|k: int|
            0 <= k < sections.len() ==> section_is_sound(#[trigger] sections[k]),
    decreases tokens.len() - from,
{
    if from < tokens.len() {
        lemma_section_progress(tokens, from);
        lemma_section_sound(tokens, from);
        match section_at(tokens, from) {
            Ok(step) => {
                lemma_sections_sound(tokens, step.1);
                match sections_from(tokens, step.1) {
                    Ok(rest) => {
                        let all = sections_from(tokens, from)->Ok_0;
                        assert forall|k: int| 0 <= k < all.len() implies section_is_sound(
                            #[trigger] all[k],
                        ) by {
                            if k > 0 {
                                assert(all[k] == rest[k - 1]);
                            }
                        }
                    },
                    Err(_) => {},
                }
            },
            Err(_) => {},
        }
    }
}

/// Every tree is sound: the preamble of each section holds directives only,
/// and each measure has an element and holds no end of line and no bar.
pub proof fn lemma_tree_sound(tokens: Lexemes)
    ensures
        parse(tokens) matches Ok(tree) ==> forall|k: int|
            0 <= k < tree.len() ==> section_is_sound(#[trigger] tree[k]),
{
    lemma_sections_sound(tokens, 0);
}

/// Two bars with nothing between them are an empty measure.
pub proof fn lemma_adjacent_bars_are_empty(
    tokens: Lexemes,
    from: int,
    section: LiteralView,
    first: LiteralView,
)
    requires
        0 <= from,
        from + 1 < tokens.len(),
        tokens[from].1 is MeasureBar,
        tokens[from + 1].1 is MeasureBar,
    ensures
        measure_block(tokens, from, section, first) == Err::<
            (Option<MeasureNodeView>, int),
            crate::types::CompileErrorView,
        >(crate::types::CompileErrorView::EmptyMeasure(tokens[from].0, tokens[from + 1].0)),
{
}

/// A directive after the staff of a section has begun is an error of
/// preamble order: a block that runs into a directive fails with the
/// section's header, the first token of its staff and the directive.
pub proof fn lemma_late_directive_is_an_error(
    tokens: Lexemes,
    from: int,
    at: int,
    section: LiteralView,
    first: LiteralView,
)
    requires
        0 <= from <= at < tokens.len(),
        !(tokens[from].1 is Section),
        is_directive(tokens[at].1),
        forall|p: int| from < p < at ==> is_staff_atom(#[trigger] tokens[p].1),
        from < at ==> is_staff_atom(tokens[from].1) || tokens[from].1 is MeasureBar,
    ensures
        measure_block(tokens, from, section, first) == Err::<
            (Option<MeasureNodeView>, int),
            crate::types::CompileErrorView,
        >(crate::types::CompileErrorView::PreambleOrder(section, first, tokens[at].0)),
{
    let body = block_body_start(tokens, from);
    lemma_block_end_reaches(tokens, body, at);
}

/// A run of staff atoms that ends before a token that is none ends the block
/// there.
pub proof fn lemma_block_end_reaches(tokens: Lexemes, at: int, stop: int)
    requires
        0 <= at <= stop < tokens.len(),
        forall|p: int| at <= p < stop ==> is_staff_atom(#[trigger] tokens[p].1),
        !is_staff_atom(tokens[stop].1),
    ensures
        block_end(tokens, at) == stop,
    decreases stop - at,
{
    if at < stop {
        assert(is_staff_atom(tokens[at].1));
        lemma_block_end_reaches(tokens, at + 1, stop);
    }
}

} // verus!
