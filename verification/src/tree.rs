//! The tree as text, one node to a line, indented by depth.

use crate::parser::parse;
use crate::parser::Lexemes;
use crate::parser::MeasureNode;
use crate::parser::MeasureNodeView;
use crate::parser::PreambleNode;
use crate::parser::PreambleNodeView;
use crate::parser::SectionNode;
use crate::parser::SectionNodeView;
use crate::parser::StaffNode;
use crate::parser::StaffNodeView;
use crate::parser::measure_nodes_view;
use crate::parser::preamble_view;
use crate::parser::staff_view;
use crate::parser::tree_view;
use crate::parser::AST;
use vstd::prelude::*;
use vstd::string::*;

verus! {

/// The line of a staff node: its kind and the symbol it was read from.
pub open spec fn staff_node_text(node: StaffNodeView) -> Seq<char> {
    match node {
        StaffNodeView::AbsolutePitch { literal, .. } => "                [pitch] "@
            + literal.literal,
        StaffNodeView::Note { literal, .. } => "                [note] "@ + literal.literal,
        StaffNodeView::Track { literal, .. } => "                [track] "@
            + literal.literal,
        StaffNodeView::ScaleDegree { literal, .. } => "                [relpitch] "@
            + literal.literal,
        StaffNodeView::MeasureBar { literal, .. } => "                [mb] "@
            + literal.literal,
        StaffNodeView::Endline { .. } => "                [endline]"@,
    }
}

/// The line of a preamble node: its kind and the symbol it was read from.
pub open spec fn preamble_node_text(node: PreambleNodeView) -> Seq<char> {
    match node {
        PreambleNodeView::Tempo { literal, .. } => "            [tempo] "@ + literal.literal,
        PreambleNodeView::DynamicLevel { literal, .. } => "            [dyn] "@
            + literal.literal,
        PreambleNodeView::TimeSignature { literal, .. } => "            [time] "@
            + literal.literal,
        PreambleNodeView::Scale { literal, .. } => "            [scale] "@ + literal.literal,
        PreambleNodeView::Endline(_) => "            [endline]"@,
    }
}

/// The lines of the nodes of a staff, each after a line feed.
pub open spec fn staff_lines(staff: Seq<StaffNodeView>) -> Seq<char>
    decreases staff.len(),
{
    if staff.len() == 0 {
        Seq::empty()
    } else {
        staff_lines(staff.drop_last()) + "\n"@ + staff_node_text(staff.last())
    }
}

/// The lines of a measure: its bounds, then its staff.
pub open spec fn measure_text(measure: MeasureNodeView) -> Seq<char> {
    "            [measure] "@ + measure.start.literal + " .. "@ + measure.end.literal + staff_lines(
        measure.staff,
    )
}

/// The lines of the nodes of a preamble, each after a line feed.
pub open spec fn preamble_lines(preamble: Seq<PreambleNodeView>) -> Seq<char>
    decreases preamble.len(),
{
    if preamble.len() == 0 {
        Seq::empty()
    } else {
        preamble_lines(preamble.drop_last()) + "\n"@ + preamble_node_text(preamble.last())
    }
}

/// The lines of the measures of a section, each measure after a line feed.
pub open spec fn measure_lines(measures: Seq<MeasureNodeView>) -> Seq<char>
    decreases measures.len(),
{
    if measures.len() == 0 {
        Seq::empty()
    } else {
        measure_lines(measures.drop_last()) + "\n"@ + measure_text(measures.last())
    }
}

/// The lines of a section: its header, its preamble and its staff.
pub open spec fn section_text(section: SectionNodeView) -> Seq<char> {
    "    [section] "@ + section.literal.literal + "\n        [preamble]"@ + preamble_lines(
        section.preamble,
    ) + "\n        [staff]"@ + measure_lines(section.measures)
}

/// The lines of the sections of a tree, each section after a line feed.
pub open spec fn section_lines(sections: Seq<SectionNodeView>) -> Seq<char>
    decreases sections.len(),
{
    if sections.len() == 0 {
        Seq::empty()
    } else {
        section_lines(sections.drop_last()) + "\n"@ + section_text(sections.last())
    }
}

/// The lines of a tree, between a first line `[top]` and a last line `[end]`.
pub open spec fn tree_text(tree: Seq<SectionNodeView>) -> Seq<char> {
    "[top]"@ + section_lines(tree) + "\n[end]"@
}

/// The text of the tree of a run of tokens is determined by the tokens: two
/// trees that the same tokens parse to have the same text.
pub proof fn lemma_tree_text_determined(
    tokens: Lexemes,
    first: Seq<SectionNodeView>,
    second: Seq<SectionNodeView>,
)
    requires
        parse(tokens) == Ok::<Seq<SectionNodeView>, crate::types::CompileErrorView>(first),
        parse(tokens) == Ok::<Seq<SectionNodeView>, crate::types::CompileErrorView>(second),
    ensures
        tree_text(first) == tree_text(second),
{
}

/// The line of a staff node. The line does not depend on `level`.
pub fn staff_node_to_string(node: &StaffNode, level: u32) -> (r: String)
    ensures
        r@ == staff_node_text(node@),
{
    let mut out = String::new();
    match node {
        StaffNode::AbsolutePitch { literal, .. } => {
            out.append("                [pitch] ");
            out.append(literal.literal.as_str());
        },
        StaffNode::Note { literal, .. } => {
            out.append("                [note] ");
            out.append(literal.literal.as_str());
        },
        StaffNode::Track { literal, .. } => {
            out.append("                [track] ");
            out.append(literal.literal.as_str());
        },
        StaffNode::ScaleDegree { literal, .. } => {
            out.append("                [relpitch] ");
            out.append(literal.literal.as_str());
        },
        StaffNode::MeasureBar { literal, .. } => {
            out.append("                [mb] ");
            out.append(literal.literal.as_str());
        },
        StaffNode::Endline { .. } => {
            out.append("                [endline]");
        },
    }
    assert(out@ =~= staff_node_text(node@));
    out
}

/// The line of a preamble node.
pub fn preamble_node_to_string(node: &PreambleNode) -> (r: String)
    ensures
        r@ == preamble_node_text(node@),
{
    let mut out = String::new();
    match node {
        PreambleNode::Tempo { literal, .. } => {
            out.append("            [tempo] ");
            out.append(literal.literal.as_str());
        },
        PreambleNode::DynamicLevel { literal, .. } => {
            out.append("            [dyn] ");
            out.append(literal.literal.as_str());
        },
        PreambleNode::TimeSignature { literal, .. } => {
            out.append("            [time] ");
            out.append(literal.literal.as_str());
        },
        PreambleNode::Scale { literal, .. } => {
            out.append("            [scale] ");
            out.append(literal.literal.as_str());
        },
        PreambleNode::Endline(_) => {
            out.append("            [endline]");
        },
    }
    assert(out@ =~= preamble_node_text(node@));
    out
}

impl MeasureNode {
    /// The lines of the measure. They do not depend on `level`.
    pub fn to_string(&self, level: u32) -> (r: String)
        ensures
            r@ == measure_text(self@),
    {
        let ghost staff = staff_view(self.staff@);
        let mut out = String::new();
        out.append("            [measure] ");
        out.append(self.start.literal.as_str());
        out.append(" .. ");
        out.append(self.end.literal.as_str());
        let ghost head = out@;
        assert(head =~= "            [measure] "@ + self.start.literal@ + " .. "@
            + self.end.literal@);
        let mut i: usize = 0;
        assert(out@ =~= head + staff_lines(staff.take(0)));
        while i < self.staff.len()
            invariant
                i <= self.staff.len(),
                staff == staff_view(self.staff@),
                out@ == head + staff_lines(staff.take(i as int)),
            decreases self.staff.len() - i,
        {
            let next = if level < u32::MAX {
                level + 1
            } else {
                level
            };
            let line = staff_node_to_string(&self.staff[i], next);
            proof {
                assert(staff.take(i + 1).drop_last() == staff.take(i as int));
                assert(staff.take(i + 1).last() == self.staff@[i as int]@);
            }
            out.append("\n");
            out.append(line.as_str());
            assert(out@ =~= head + staff_lines(staff.take(i + 1)));
            i = i + 1;
        }
        assert(staff.take(self.staff.len() as int) == staff);
        out
    }
}

/// The lines of a section.
pub fn section_to_string(section: &SectionNode) -> (r: String)
    ensures
        r@ == section_text(section@),
{
    let ghost preamble = preamble_view(section.preamble@);
    let ghost measures = measure_nodes_view(section.measures@);
    let mut out = String::new();
    out.append("    [section] ");
    out.append(section.literal.literal.as_str());
    out.append("\n        [preamble]");
    let ghost head = out@;
    assert(head =~= "    [section] "@ + section.literal.literal@ + "\n        [preamble]"@);
    let mut i: usize = 0;
    assert(out@ =~= head + preamble_lines(preamble.take(0)));
    while i < section.preamble.len()
        invariant
            i <= section.preamble.len(),
            preamble == preamble_view(section.preamble@),
            out@ == head + preamble_lines(preamble.take(i as int)),
        decreases section.preamble.len() - i,
    {
        let line = preamble_node_to_string(&section.preamble[i]);
        proof {
            assert(preamble.take(i + 1).drop_last() == preamble.take(i as int));
            assert(preamble.take(i + 1).last() == section.preamble@[i as int]@);
        }
        out.append("\n");
        out.append(line.as_str());
        assert(out@ =~= head + preamble_lines(preamble.take(i + 1)));
        i = i + 1;
    }
    assert(preamble.take(section.preamble.len() as int) == preamble);
    out.append("\n        [staff]");
    let ghost middle = out@;
    assert(middle =~= head + preamble_lines(preamble) + "\n        [staff]"@);
    let mut j: usize = 0;
    assert(out@ =~= middle + measure_lines(measures.take(0)));
    while j < section.measures.len()
        invariant
            j <= section.measures.len(),
            measures == measure_nodes_view(section.measures@),
            out@ == middle + measure_lines(measures.take(j as int)),
        decreases section.measures.len() - j,
    {
        let lines = section.measures[j].to_string(3);
        proof {
            assert(measures.take(j + 1).drop_last() == measures.take(j as int));
            assert(measures.take(j + 1).last() == section.measures@[j as int]@);
        }
        out.append("\n");
        out.append(lines.as_str());
        assert(out@ =~= middle + measure_lines(measures.take(j + 1)));
        j = j + 1;
    }
    assert(measures.take(section.measures.len() as int) == measures);
    assert(out@ =~= section_text(section@));
    out
}

/// The lines of a tree.
pub fn tree_to_string(tree: &AST) -> (r: String)
    ensures
        r@ == tree_text(tree_view(tree@)),
{
    let ghost sections = tree_view(tree@);
    let mut out = String::new();
    out.append("[top]");
    let ghost head = out@;
    assert(head =~= "[top]"@);
    let mut i: usize = 0;
    assert(out@ =~= head + section_lines(sections.take(0)));
    while i < tree.len()
        invariant
            i <= tree.len(),
            sections == tree_view(tree@),
            out@ == head + section_lines(sections.take(i as int)),
        decreases tree.len() - i,
    {
        let lines = section_to_string(&tree[i]);
        proof {
            assert(sections.take(i + 1).drop_last() == sections.take(i as int));
            assert(sections.take(i + 1).last() == tree@[i as int]@);
        }
        out.append("\n");
        out.append(lines.as_str());
        assert(out@ =~= head + section_lines(sections.take(i + 1)));
        i = i + 1;
    }
    assert(sections.take(tree.len() as int) == sections);
    out.append("\n[end]");
    assert(out@ =~= tree_text(sections));
    out
}

} // verus!
