//! From tokens to a tree of sections, preambles and measures.

use crate::types::lexemes_view;
use crate::types::CompileError;
use crate::types::CompileErrorView;
use crate::types::CompileResult;
use crate::types::DynamicLevel;
use crate::types::Literal;
use crate::types::LiteralView;
use crate::types::RegoNote;
use crate::types::RegoNoteView;
use crate::types::Scale;
use crate::types::ScaleView;
use crate::types::TimeSignature;
use crate::types::Token;
use crate::types::TokenView;
use crate::types::ToneId;
use vstd::prelude::*;
use vstd::string::*;

verus! {

/// A directive that may only stand before the staff of a section.
#[derive(Debug, PartialEq, Eq)]
pub enum PreambleNode {
    Tempo { literal: Literal, tempo: u16 },
    Scale { literal: Literal, scale: Scale },
    DynamicLevel { literal: Literal, level: DynamicLevel },
    TimeSignature { literal: Literal, ratio: TimeSignature },
    Endline(Literal),
}

/// The view of a `PreambleNode`.
pub enum PreambleNodeView {
    Tempo { literal: LiteralView, tempo: u16 },
    Scale { literal: LiteralView, scale: ScaleView },
    DynamicLevel { literal: LiteralView, level: DynamicLevel },
    TimeSignature { literal: LiteralView, ratio: TimeSignature },
    Endline(LiteralView),
}

impl View for PreambleNode {
    type V = PreambleNodeView;

    open spec fn view(&self) -> PreambleNodeView {
        match *self {
            PreambleNode::Tempo { literal, tempo } => PreambleNodeView::Tempo {
                literal: literal@,
                tempo,
            },
            PreambleNode::Scale { literal, scale } => PreambleNodeView::Scale {
                literal: literal@,
                scale: scale@,
            },
            PreambleNode::DynamicLevel { literal, level } => PreambleNodeView::DynamicLevel {
                literal: literal@,
                level,
            },
            PreambleNode::TimeSignature { literal, ratio } => PreambleNodeView::TimeSignature {
                literal: literal@,
                ratio,
            },
            PreambleNode::Endline(literal) => PreambleNodeView::Endline(literal@),
        }
    }
}

/// An element of the staff of a section.
#[derive(Debug, PartialEq, Eq)]
pub enum StaffNode {
    AbsolutePitch { literal: Literal, pitch: ToneId },
    Note { literal: Literal, note: RegoNote },
    Track { literal: Literal, track_id: u32 },
    ScaleDegree { literal: Literal, degree: u8 },
    MeasureBar { close: bool, open: bool, literal: Literal },
    Endline { literal: Literal },
}

/// The view of a `StaffNode`.
pub enum StaffNodeView {
    AbsolutePitch { literal: LiteralView, pitch: ToneId },
    Note { literal: LiteralView, note: RegoNoteView },
    Track { literal: LiteralView, track_id: u32 },
    ScaleDegree { literal: LiteralView, degree: u8 },
    MeasureBar { close: bool, open: bool, literal: LiteralView },
    Endline { literal: LiteralView },
}

impl View for StaffNode {
    type V = StaffNodeView;

    open spec fn view(&self) -> StaffNodeView {
        match *self {
            StaffNode::AbsolutePitch { literal, pitch } => StaffNodeView::AbsolutePitch {
                literal: literal@,
                pitch,
            },
            StaffNode::Note { literal, note } => StaffNodeView::Note {
                literal: literal@,
                note: note@,
            },
            StaffNode::Track { literal, track_id } => StaffNodeView::Track {
                literal: literal@,
                track_id,
            },
            StaffNode::ScaleDegree { literal, degree } => StaffNodeView::ScaleDegree {
                literal: literal@,
                degree,
            },
            StaffNode::MeasureBar { close, open, literal } => StaffNodeView::MeasureBar {
                close,
                open,
                literal: literal@,
            },
            StaffNode::Endline { literal } => StaffNodeView::Endline { literal: literal@ },
        }
    }
}

/// The views of a run of staff nodes.
pub open spec fn staff_view(staff: Seq<StaffNode>) -> Seq<StaffNodeView> {
    staff.map_values(|n: StaffNode| n@)
}

/// The views of a run of preamble nodes.
pub open spec fn preamble_view(preamble: Seq<PreambleNode>) -> Seq<PreambleNodeView> {
    preamble.map_values(|n: PreambleNode| n@)
}

/// The staff between two bounds. `open` says that the bar at its start opens
/// a repeat, `close` that the bar at its end closes one.
#[derive(Debug, PartialEq, Eq)]
pub struct MeasureNode {
    pub start: Literal,
    pub end: Literal,
    pub open: bool,
    pub close: bool,
    pub staff: Vec<StaffNode>,
}

/// The view of a `MeasureNode`.
pub struct MeasureNodeView {
    pub start: LiteralView,
    pub end: LiteralView,
    pub open: bool,
    pub close: bool,
    pub staff: Seq<StaffNodeView>,
}

impl View for MeasureNode {
    type V = MeasureNodeView;

    open spec fn view(&self) -> MeasureNodeView {
        MeasureNodeView {
            start: self.start@,
            end: self.end@,
            open: self.open,
            close: self.close,
            staff: staff_view(self.staff@),
        }
    }
}

/// The views of a run of measure nodes.
pub open spec fn measure_nodes_view(measures: Seq<MeasureNode>) -> Seq<MeasureNodeView> {
    measures.map_values(|m: MeasureNode| m@)
}

/// A section of the source: its header, its directives and its measures.
#[derive(Debug, PartialEq, Eq)]
pub struct SectionNode {
    pub literal: Literal,
    pub name: String,
    pub preamble: Vec<PreambleNode>,
    pub measures: Vec<MeasureNode>,
}

/// The view of a `SectionNode`.
pub struct SectionNodeView {
    pub literal: LiteralView,
    pub name: Seq<char>,
    pub preamble: Seq<PreambleNodeView>,
    pub measures: Seq<MeasureNodeView>,
}

impl View for SectionNode {
    type V = SectionNodeView;

    open spec fn view(&self) -> SectionNodeView {
        SectionNodeView {
            literal: self.literal@,
            name: self.name@,
            preamble: preamble_view(self.preamble@),
            measures: measure_nodes_view(self.measures@),
        }
    }
}

/// The tree that the parser builds: the sections in the order of the source.
pub type AST = Vec<SectionNode>;

/// The views of the sections of a tree.
pub open spec fn tree_view(tree: Seq<SectionNode>) -> Seq<SectionNodeView> {
    tree.map_values(|s: SectionNode| s@)
}

/// What the lexer hands to the parser: each symbol with its token.
pub type Lexemes = Seq<(LiteralView, TokenView)>;

/// A token that sets something for a section: a dynamic, a tempo, a scale or
/// a time signature.
pub open spec fn is_directive(token: TokenView) -> bool {
    token is Dynamic || token is Tempo || token is Scale || token is TimeSignature
}

/// A token that may stand in a preamble: a directive or an end of line.
pub open spec fn is_preamble_token(token: TokenView) -> bool {
    is_directive(token) || token is Endline
}

/// A token that is one element of a staff: a pitch, a degree, a track, a
/// note or an end of line.
pub open spec fn is_staff_atom(token: TokenView) -> bool {
    token is AbsolutePitch || token is ScaleDegree || token is Endline || token is Track
        || token is Note
}

/// The staff node of a token, for the tokens that have one.
pub open spec fn staff_node(lexeme: (LiteralView, TokenView)) -> StaffNodeView {
    match lexeme.1 {
        TokenView::Note(note) => StaffNodeView::Note { literal: lexeme.0, note: note },
        TokenView::Track(track_id) => StaffNodeView::Track { literal: lexeme.0, track_id: track_id },
        TokenView::ScaleDegree(degree) => StaffNodeView::ScaleDegree {
            literal: lexeme.0,
            degree: degree,
        },
        TokenView::AbsolutePitch(pitch) => StaffNodeView::AbsolutePitch {
            literal: lexeme.0,
            pitch: pitch,
        },
        TokenView::MeasureBar(close, open) => StaffNodeView::MeasureBar {
            close: close,
            open: open,
            literal: lexeme.0,
        },
        _ => StaffNodeView::Endline { literal: lexeme.0 },
    }
}

/// The staff node of a token: staff atoms and bars have one, directives and
/// section headers have none.
pub open spec fn staff_node_of(lexeme: (LiteralView, TokenView)) -> Option<StaffNodeView> {
    if is_staff_atom(lexeme.1) || lexeme.1 is MeasureBar {
        Some(staff_node(lexeme))
    } else {
        None
    }
}

/// The preamble node of a token, for the tokens that have one.
pub open spec fn preamble_node(lexeme: (LiteralView, TokenView)) -> PreambleNodeView {
    match lexeme.1 {
        TokenView::Tempo(tempo) => PreambleNodeView::Tempo { literal: lexeme.0, tempo: tempo },
        TokenView::Dynamic(level) => PreambleNodeView::DynamicLevel {
            literal: lexeme.0,
            level: level,
        },
        TokenView::Scale(scale) => PreambleNodeView::Scale { literal: lexeme.0, scale: scale },
        TokenView::TimeSignature(ratio) => PreambleNodeView::TimeSignature {
            literal: lexeme.0,
            ratio: ratio,
        },
        _ => PreambleNodeView::Endline(lexeme.0),
    }
}

/// The preamble node of a token: preamble tokens have one, the others none.
pub open spec fn preamble_node_of(lexeme: (LiteralView, TokenView)) -> Option<PreambleNodeView> {
    if is_preamble_token(lexeme.1) {
        Some(preamble_node(lexeme))
    } else {
        None
    }
}

/// Where the preamble that starts at `from` ends: at the first token that
/// may not stand in a preamble, or at the end of the tokens.
pub open spec fn preamble_end(tokens: Lexemes, from: int) -> int
    decreases tokens.len() - from,
{
    if 0 <= from < tokens.len() && is_preamble_token(tokens[from].1) {
        preamble_end(tokens, from + 1)
    } else {
        from
    }
}

/// The directives among the tokens from `from` up to `to`, in order.
pub open spec fn preamble_of(tokens: Lexemes, from: int, to: int) -> Seq<PreambleNodeView>
    decreases to - from,
{
    if to <= from {
        Seq::empty()
    } else {
        let rest = preamble_of(tokens, from, to - 1);
        if is_directive(tokens[to - 1].1) {
            rest.push(preamble_node(tokens[to - 1]))
        } else {
            rest
        }
    }
}

/// Where the body of the block at `from` starts: after the bar that stands
/// there, or at `from` where no bar stands there.
pub open spec fn block_body_start(tokens: Lexemes, from: int) -> int {
    if 0 <= from < tokens.len() && tokens[from].1 is MeasureBar {
        from + 1
    } else {
        from
    }
}

/// Where the staff atoms end that start at `at`: at the first bar, section
/// header or directive, or at the end of the tokens.
pub open spec fn block_end(tokens: Lexemes, at: int) -> int
    decreases tokens.len() - at,
{
    if 0 <= at < tokens.len() && is_staff_atom(tokens[at].1) {
        block_end(tokens, at + 1)
    } else {
        at
    }
}

/// The staff nodes of the tokens from `from` up to `to` that are no ends of
/// lines, in order.
pub open spec fn staff_of(tokens: Lexemes, from: int, to: int) -> Seq<StaffNodeView>
    decreases to - from,
{
    if to <= from {
        Seq::empty()
    } else {
        let rest = staff_of(tokens, from, to - 1);
        if tokens[to - 1].1 is Endline {
            rest
        } else {
            rest.push(staff_node(tokens[to - 1]))
        }
    }
}

/// Whether a token is a bar that opens a repeat.
pub open spec fn bar_opens(token: TokenView) -> bool {
    token matches TokenView::MeasureBar(_, open) && open
}

/// Whether a token is a bar that closes a repeat.
pub open spec fn bar_closes(token: TokenView) -> bool {
    token matches TokenView::MeasureBar(close, _) && close
}

/// The measure block that starts at `from`, and where the next one starts.
///
/// Without a token at `from` there is no block. A bar at `from` belongs to the
/// block as its start. The block's body runs
/// up to the next bar or section header, which is left for the next block, or
/// to the end of the tokens. A directive there is an error that names the
/// section, the first token of its staff and the directive. A body of one end
/// of line is a blank line and gives no measure. Else the body gives a
/// measure, and an error where it holds nothing but ends of lines.
pub open spec fn measure_block(
    tokens: Lexemes,
    from: int,
    section: LiteralView,
    first: LiteralView,
) -> Result<(Option<MeasureNodeView>, int), CompileErrorView> {
    let body = block_body_start(tokens, from);
    let end = block_end(tokens, body);
    let last = if end < tokens.len() {
        end
    } else {
        tokens.len() - 1
    };
    if from < 0 || from >= tokens.len() {
        Err(CompileErrorView::GenericSyntax("No start token for measure"@))
    } else if end < tokens.len() && is_directive(tokens[end].1) {
        Err(CompileErrorView::PreambleOrder(section, first, tokens[end].0))
    } else if end - body == 1 && tokens[body].1 is Endline {
        Ok((None, end))
    } else if staff_of(tokens, body, end).len() == 0 {
        Err(CompileErrorView::EmptyMeasure(tokens[from].0, tokens[last].0))
    } else {
        Ok(
            (
                Some(
                    MeasureNodeView {
                        start: tokens[from].0,
                        end: tokens[last].0,
                        open: bar_opens(tokens[from].1),
                        close: bar_closes(tokens[last].1),
                        staff: staff_of(tokens, body, end),
                    },
                ),
                end,
            ),
        )
    }
}

/// The scan for the end of a block never goes back, nor past the tokens.
pub proof fn lemma_block_end_bounds(tokens: Lexemes, at: int)
    requires
        0 <= at <= tokens.len(),
    ensures
        at <= block_end(tokens, at) <= tokens.len(),
        block_end(tokens, at) < tokens.len() ==> !is_staff_atom(tokens[block_end(tokens, at)].1),
    decreases tokens.len() - at,
{
    if at < tokens.len() && is_staff_atom(tokens[at].1) {
        lemma_block_end_bounds(tokens, at + 1);
    }
}

/// A block that does not fail takes at least one token.
pub proof fn lemma_block_progress(
    tokens: Lexemes,
    from: int,
    section: LiteralView,
    first: LiteralView,
)
    requires
        0 <= from < tokens.len(),
        !(tokens[from].1 is Section),
    ensures
        measure_block(tokens, from, section, first) matches Ok(step) ==> from < step.1
            <= tokens.len(),
{
    let body = block_body_start(tokens, from);
    lemma_block_end_bounds(tokens, body);
    if body == from && is_staff_atom(tokens[from].1) {
        lemma_block_end_bounds(tokens, from + 1);
    }
}

/// The measures of the blocks from `from` up to the next section header or
/// the end of the tokens, and where they stop; or the first error.
pub open spec fn measure_blocks(
    tokens: Lexemes,
    from: int,
    section: LiteralView,
    first: LiteralView,
) -> Result<(Seq<MeasureNodeView>, int), CompileErrorView>
    decreases tokens.len() - from,
{
    if from < 0 || from >= tokens.len() || tokens[from].1 is Section {
        Ok((Seq::empty(), from))
    } else {
        match measure_block(tokens, from, section, first) {
            Err(e) => Err(e),
            Ok(step) => {
                proof {
                    lemma_block_progress(tokens, from, section, first);
                }
                match measure_blocks(tokens, step.1, section, first) {
                    Err(e) => Err(e),
                    Ok(rest) => Ok(
                        (
                            match step.0 {
                                Some(measure) => seq![measure] + rest.0,
                                None => rest.0,
                            },
                            rest.1,
                        ),
                    ),
                }
            },
        }
    }
}

/// The header that a section gets where the source gives it none: it stands
/// where the first token stands.
pub open spec fn implicit_header(at: LiteralView) -> LiteralView {
    LiteralView {
        literal: "<implicit-section>"@,
        filename: at.filename,
        lineno: at.lineno,
        colno: at.colno,
        idno: at.idno,
    }
}

/// The section that starts at `from`, and where the next one starts.
///
/// A section header at `from` names the section and is its literal; without
/// one the section is the implicit one. Then comes the preamble, as far as
/// directives and ends of lines reach, then the measure blocks up to the next
/// section header.
pub open spec fn section_at(tokens: Lexemes, from: int) -> Result<
    (SectionNodeView, int),
    CompileErrorView,
> {
    if from < 0 || from >= tokens.len() {
        Err(CompileErrorView::GenericSyntax("Encountered EOF while parsing section block"@))
    } else {
        let named = tokens[from].1 is Section;
        let literal = if named {
            tokens[from].0
        } else {
            implicit_header(tokens[from].0)
        };
        let name = match tokens[from].1 {
            TokenView::Section(name) => name,
            _ => "<implicit-section>"@,
        };
        let start = if named {
            from + 1
        } else {
            from
        };
        let staff_start = preamble_end(tokens, start);
        let first = if staff_start < tokens.len() {
            tokens[staff_start].0
        } else {
            literal
        };
        match measure_blocks(tokens, staff_start, literal, first) {
            Err(e) => Err(e),
            Ok(blocks) => Ok(
                (
                    SectionNodeView {
                        literal: literal,
                        name: name,
                        preamble: preamble_of(tokens, start, staff_start),
                        measures: blocks.0,
                    },
                    blocks.1,
                ),
            ),
        }
    }
}

/// The scan for the end of a preamble never goes back, nor past the tokens.
pub proof fn lemma_preamble_end_bounds(tokens: Lexemes, from: int)
    requires
        0 <= from <= tokens.len(),
    ensures
        from <= preamble_end(tokens, from) <= tokens.len(),
        preamble_end(tokens, from) < tokens.len() ==> !is_preamble_token(
            tokens[preamble_end(tokens, from)].1,
        ),
    decreases tokens.len() - from,
{
    if from < tokens.len() && is_preamble_token(tokens[from].1) {
        lemma_preamble_end_bounds(tokens, from + 1);
    }
}

/// The blocks of a section stop at or after the place they start, inside the
/// tokens; and after it, unless a section header or the end stands there.
pub proof fn lemma_blocks_bounds(
    tokens: Lexemes,
    from: int,
    section: LiteralView,
    first: LiteralView,
)
    requires
        0 <= from <= tokens.len(),
    ensures
        measure_blocks(tokens, from, section, first) matches Ok(blocks) ==> from <= blocks.1
            <= tokens.len() && (from < tokens.len() && !(tokens[from].1 is Section) ==> from
            < blocks.1) && (blocks.1 < tokens.len() ==> tokens[blocks.1].1 is Section),
    decreases tokens.len() - from,
{
    if from < tokens.len() && !(tokens[from].1 is Section) {
        lemma_block_progress(tokens, from, section, first);
        match measure_block(tokens, from, section, first) {
            Ok(step) => {
                lemma_blocks_bounds(tokens, step.1, section, first);
            },
            Err(_) => {},
        }
    }
}

/// A section that does not fail takes at least one token.
pub proof fn lemma_section_progress(tokens: Lexemes, from: int)
    requires
        0 <= from < tokens.len(),
    ensures
        section_at(tokens, from) matches Ok(step) ==> from < step.1 <= tokens.len() && (step.1
            < tokens.len() ==> tokens[step.1].1 is Section),
{
    let named = tokens[from].1 is Section;
    let literal = if named {
        tokens[from].0
    } else {
        implicit_header(tokens[from].0)
    };
    let start = if named {
        from + 1
    } else {
        from
    };
    lemma_preamble_end_bounds(tokens, start);
    let staff_start = preamble_end(tokens, start);
    let first = if staff_start < tokens.len() {
        tokens[staff_start].0
    } else {
        literal
    };
    lemma_blocks_bounds(tokens, staff_start, literal, first);
}

/// The sections from `from` to the end of the tokens, or the first error.
pub open spec fn sections_from(tokens: Lexemes, from: int) -> Result<
    Seq<SectionNodeView>,
    CompileErrorView,
>
    decreases tokens.len() - from,
{
    if from < 0 || from >= tokens.len() {
        Ok(Seq::empty())
    } else {
        match section_at(tokens, from) {
            Err(e) => Err(e),
            Ok(step) => {
                proof {
                    lemma_section_progress(tokens, from);
                }
                match sections_from(tokens, step.1) {
                    Err(e) => Err(e),
                    Ok(rest) => Ok(seq![step.0] + rest),
                }
            },
        }
    }
}

/// The tree of a run of tokens: its sections in order, or the first error.
pub open spec fn parse(tokens: Lexemes) -> Result<Seq<SectionNodeView>, CompileErrorView> {
    sections_from(tokens, 0)
}

/// A cursor over the tokens: the tokens before `index` have been taken.
pub struct Parser<'a> {
    pub tokens: &'a Vec<(Literal, Token)>,
    pub index: usize,
}

impl<'a> Parser<'a> {
    /// The views of the tokens under the cursor.
    pub open spec fn lexemes(&self) -> Lexemes {
        lexemes_view(self.tokens@)
    }

    /// The cursor stands at a token or at the end.
    pub open spec fn wf(&self) -> bool {
        self.index <= self.tokens.len()
    }

    /// A cursor at the first token.
    pub fn new(tokens: &'a Vec<(Literal, Token)>) -> (r: Self)
        ensures
            r.tokens == tokens,
            r.index == 0,
            r.wf(),
    {
        Parser { tokens, index: 0 }
    }

    /// A copy of the token under the cursor.
    pub fn peek(&self) -> (r: Option<(Literal, Token)>)
        requires
            self.wf(),
        ensures
            match r {
                Some(lexeme) => self.index < self.tokens.len() && (lexeme.0@, lexeme.1@)
                    == self.lexemes()[self.index as int],
                None => self.index == self.tokens.len(),
            },
    {
        if self.index < self.tokens.len() {
            let lexeme = &self.tokens[self.index];
            Some((lexeme.0.clone(), lexeme.1.clone()))
        } else {
            None
        }
    }

    /// The token under the cursor.
    pub fn peek_ref(&self) -> (r: Option<&'a (Literal, Token)>)
        requires
            self.wf(),
        ensures
            match r {
                Some(lexeme) => self.index < self.tokens.len() && *lexeme
                    == self.tokens@[self.index as int],
                None => self.index == self.tokens.len(),
            },
    {
        if self.index < self.tokens.len() {
            Some(&self.tokens[self.index])
        } else {
            None
        }
    }

    /// Takes the token under the cursor if `f` accepts it.
    pub fn peek_and_take_if<F: Fn(&Token) -> bool>(&mut self, f: F) -> (r: Option<
        &'a (Literal, Token),
    >)
        requires
            old(self).wf(),
            forall|token: &Token| f.requires((token,)),
        ensures
            final(self).tokens == old(self).tokens,
            final(self).wf(),
            match r {
                Some(lexeme) => {
                    &&& old(self).index < old(self).tokens.len()
                    &&& *lexeme == old(self).tokens@[old(self).index as int]
                    &&& f.ensures((&lexeme.1,), true)
                    &&& final(self).index == old(self).index + 1
                },
                None => {
                    &&& final(self).index == old(self).index
                    &&& old(self).index < old(self).tokens.len() ==> f.ensures(
                        (&old(self).tokens@[old(self).index as int].1,),
                        false,
                    )
                },
            },
    {
        match self.peek_ref() {
            Some(lexeme) => {
                if f(&lexeme.1) {
                    self.take()
                } else {
                    None
                }
            },
            None => None,
        }
    }

    /// Takes the token under the cursor.
    pub fn take(&mut self) -> (r: Option<&'a (Literal, Token)>)
        requires
            old(self).wf(),
        ensures
            final(self).tokens == old(self).tokens,
            final(self).wf(),
            match r {
                Some(lexeme) => {
                    &&& old(self).index < old(self).tokens.len()
                    &&& *lexeme == old(self).tokens@[old(self).index as int]
                    &&& final(self).index == old(self).index + 1
                },
                None => {
                    &&& old(self).index == old(self).tokens.len()
                    &&& final(self).index == old(self).index
                },
            },
    {
        if self.index < self.tokens.len() {
            let tokens: &'a Vec<(Literal, Token)> = self.tokens;
            let lexeme = &tokens[self.index];
            self.index = self.index + 1;
            Some(lexeme)
        } else {
            None
        }
    }
}

/// The staff node of a token, or nothing where the token has none.
pub fn atomic_token_to_staff_node(lexeme: &(Literal, Token)) -> (r: Option<StaffNode>)
    ensures
        match r {
            Some(node) => staff_node_of((lexeme.0@, lexeme.1@)) == Some(node@),
            None => staff_node_of((lexeme.0@, lexeme.1@)) is None,
        },
{
    let literal = &lexeme.0;
    match &lexeme.1 {
        Token::Note(note) => Some(StaffNode::Note { literal: literal.clone(), note: note.clone() }),
        Token::Track(track_id) => Some(
            StaffNode::Track { literal: literal.clone(), track_id: *track_id },
        ),
        Token::ScaleDegree(degree) => Some(
            StaffNode::ScaleDegree { literal: literal.clone(), degree: *degree },
        ),
        Token::AbsolutePitch(pitch) => Some(
            StaffNode::AbsolutePitch { literal: literal.clone(), pitch: *pitch },
        ),
        Token::MeasureBar(close, open) => Some(
            StaffNode::MeasureBar { close: *close, open: *open, literal: literal.clone() },
        ),
        Token::Endline() => Some(StaffNode::Endline { literal: literal.clone() }),
        Token::Tempo(_) => None,
        Token::Dynamic(_) => None,
        Token::Scale(_) => None,
        Token::TimeSignature(_) => None,
        Token::Section(_) => None,
    }
}

/// The preamble node of a token, or nothing where the token has none.
pub fn atomic_token_to_preamble_node(lexeme: &(Literal, Token)) -> (r: Option<PreambleNode>)
    ensures
        match r {
            Some(node) => preamble_node_of((lexeme.0@, lexeme.1@)) == Some(node@),
            None => preamble_node_of((lexeme.0@, lexeme.1@)) is None,
        },
{
    let literal = &lexeme.0;
    match &lexeme.1 {
        Token::Tempo(bpm) => Some(PreambleNode::Tempo { literal: literal.clone(), tempo: *bpm }),
        Token::Dynamic(level) => Some(
            PreambleNode::DynamicLevel { literal: literal.clone(), level: *level },
        ),
        Token::Scale(scale) => Some(
            PreambleNode::Scale { literal: literal.clone(), scale: scale.clone() },
        ),
        Token::TimeSignature(ratio) => Some(
            PreambleNode::TimeSignature { literal: literal.clone(), ratio: *ratio },
        ),
        Token::Endline() => Some(PreambleNode::Endline(literal.clone())),
        Token::Track(_) => None,
        Token::ScaleDegree(_) => None,
        Token::AbsolutePitch(_) => None,
        Token::MeasureBar(_, _) => None,
        Token::Section(_) => None,
        Token::Note(_) => None,
    }
}

/// What taking a staff node at `at` gives: the node of the token there, or
/// an error where the token has none or no token is left.
pub open spec fn staff_atomic(tokens: Lexemes, at: int) -> Result<StaffNodeView, CompileErrorView> {
    if 0 <= at < tokens.len() {
        match staff_node_of(tokens[at]) {
            Some(node) => Ok(node),
            None => Err(
                CompileErrorView::Unexpected(
                    "Expected an atomic staff token"@,
                    tokens[at].1,
                    tokens[at].0,
                ),
            ),
        }
    } else {
        Err(CompileErrorView::GenericSyntax("Expected an atomic token, but nothing left"@))
    }
}

/// What taking a preamble node at `at` gives: the node of the token there,
/// or an error where the token has none or no token is left.
pub open spec fn preamble_atomic(tokens: Lexemes, at: int) -> Result<
    PreambleNodeView,
    CompileErrorView,
> {
    if 0 <= at < tokens.len() {
        match preamble_node_of(tokens[at]) {
            Some(node) => Ok(node),
            None => Err(
                CompileErrorView::Unexpected(
                    "Expected an atomic preamble token"@,
                    tokens[at].1,
                    tokens[at].0,
                ),
            ),
        }
    } else {
        Err(CompileErrorView::GenericSyntax("Expected a preamble token, but nothing left"@))
    }
}

/// Takes one token as a staff node.
pub fn eat_staff_atomic<'a>(parser: &mut Parser<'a>) -> (r: CompileResult<StaffNode>)
    requires
        old(parser).wf(),
    ensures
        final(parser).tokens == old(parser).tokens,
        final(parser).wf(),
        final(parser).index == if old(parser).index < old(parser).tokens.len() {
            old(parser).index + 1
        } else {
            old(parser).index as int
        },
        match r {
            Ok(node) => staff_atomic(old(parser).lexemes(), old(parser).index as int) == Ok::<
                StaffNodeView,
                CompileErrorView,
            >(node@),
            Err(e) => staff_atomic(old(parser).lexemes(), old(parser).index as int) == Err::<
                StaffNodeView,
                CompileErrorView,
            >(e@),
        },
{
    match parser.take() {
        Some(lexeme) => match atomic_token_to_staff_node(lexeme) {
            Some(node) => Ok(node),
            None => Err(
                CompileError::Unexpected(
                    "Expected an atomic staff token".to_owned(),
                    lexeme.1.clone(),
                    lexeme.0.clone(),
                ),
            ),
        },
        None => Err(
            CompileError::GenericSyntax("Expected an atomic token, but nothing left".to_owned()),
        ),
    }
}

/// Takes one token as a preamble node.
pub fn eat_preamble_atomic<'a>(parser: &mut Parser<'a>) -> (r: CompileResult<PreambleNode>)
    requires
        old(parser).wf(),
    ensures
        final(parser).tokens == old(parser).tokens,
        final(parser).wf(),
        final(parser).index == if old(parser).index < old(parser).tokens.len() {
            old(parser).index + 1
        } else {
            old(parser).index as int
        },
        match r {
            Ok(node) => preamble_atomic(old(parser).lexemes(), old(parser).index as int) == Ok::<
                PreambleNodeView,
                CompileErrorView,
            >(node@),
            Err(e) => preamble_atomic(old(parser).lexemes(), old(parser).index as int) == Err::<
                PreambleNodeView,
                CompileErrorView,
            >(e@),
        },
{
    match parser.take() {
        Some(lexeme) => match atomic_token_to_preamble_node(lexeme) {
            Some(node) => Ok(node),
            None => Err(
                CompileError::Unexpected(
                    "Expected an atomic preamble token".to_owned(),
                    lexeme.1.clone(),
                    lexeme.0.clone(),
                ),
            ),
        },
        None => Err(
            CompileError::GenericSyntax("Expected a preamble token, but nothing left".to_owned()),
        ),
    }
}

/// The view of a measure that a block may have given.
pub open spec fn measure_option_view(measure: Option<MeasureNode>) -> Option<MeasureNodeView> {
    match measure {
        Some(m) => Some(m@),
        None => None,
    }
}

/// Whether a token is one element of a staff.
fn is_staff_atom_token(token: &Token) -> (r: bool)
    ensures
        r == is_staff_atom(token@),
{
    match token {
        Token::AbsolutePitch(_) => true,
        Token::ScaleDegree(_) => true,
        Token::Endline() => true,
        Token::Track(_) => true,
        Token::Note(_) => true,
        _ => false,
    }
}

/// Whether a token is a directive.
fn is_directive_token(token: &Token) -> (r: bool)
    ensures
        r == is_directive(token@),
{
    match token {
        Token::Dynamic(_) => true,
        Token::Tempo(_) => true,
        Token::Scale(_) => true,
        Token::TimeSignature(_) => true,
        _ => false,
    }
}

/// Whether a token is a section header.
fn is_section_token(token: &Token) -> (r: bool)
    ensures
        r == (token@ is Section),
{
    match token {
        Token::Section(_) => true,
        _ => false,
    }
}

/// Takes one measure block. `section` is the header of the section that the
/// block stands in and `first` the first token of that section's staff.
pub fn eat_measure_block<'a>(parser: &mut Parser<'a>, section: &Literal, first: &Literal) -> (r:
    CompileResult<Option<MeasureNode>>)
    requires
        old(parser).wf(),
    ensures
        final(parser).tokens == old(parser).tokens,
        final(parser).wf(),
        match r {
            Ok(measure) => measure_block(
                old(parser).lexemes(),
                old(parser).index as int,
                section@,
                first@,
            ) == Ok::<(Option<MeasureNodeView>, int), CompileErrorView>(
                (measure_option_view(measure), final(parser).index as int),
            ),
            Err(e) => measure_block(
                old(parser).lexemes(),
                old(parser).index as int,
                section@,
                first@,
            ) == Err::<(Option<MeasureNodeView>, int), CompileErrorView>(e@),
        },
{
    let tokens: &'a Vec<(Literal, Token)> = parser.tokens;
    let ghost lex = parser.lexemes();
    let from: usize = parser.index;
    if from >= tokens.len() {
        return Err(CompileError::GenericSyntax("No start token for measure".to_owned()));
    }
    let start = &tokens[from];
    assert(lex[from as int] == (start.0@, start.1@));
    let open: bool = match &start.1 {
        Token::MeasureBar(_, open) => {
            parser.take();
            *open
        },
        _ => false,
    };
    let body: usize = parser.index;
    let mut staff: Vec<StaffNode> = Vec::new();
    assert(staff_view(staff@) == Seq::<StaffNodeView>::empty());
    while parser.index < tokens.len() && is_staff_atom_token(&tokens[parser.index].1)
        invariant
            parser.tokens == tokens,
            lex == lexemes_view(tokens@),
            body <= parser.index <= tokens.len(),
            block_end(lex, body as int) == block_end(lex, parser.index as int),
            staff_view(staff@) == staff_of(lex, body as int, parser.index as int),
        decreases tokens.len() - parser.index,
    {
        let ghost at = parser.index as int;
        let ghost before = staff@;
        assert(lex[at] == (tokens@[at].0@, tokens@[at].1@));
        match eat_staff_atomic(parser) {
            Ok(node) => {
                match node {
                    StaffNode::Endline { .. } => {},
                    _ => {
                        staff.push(node);
                        assert(staff_view(staff@) == staff_view(before).push(node@));
                    },
                }
            },
            Err(_) => {
                assert(false);
            },
        }
    }
    let end: usize = parser.index;
    let last: usize = if end < tokens.len() {
        end
    } else {
        tokens.len() - 1
    };
    let stop = &tokens[last];
    assert(lex[last as int] == (stop.0@, stop.1@));
    if end < tokens.len() && is_directive_token(&stop.1) {
        return Err(CompileError::PreambleOrder(section.clone(), first.clone(), stop.0.clone()));
    }
    if end - body == 1 {
        assert(lex[body as int] == (tokens@[body as int].0@, tokens@[body as int].1@));
        match &tokens[body].1 {
            Token::Endline() => {
                return Ok(None);
            },
            _ => {},
        }
    }
    if staff.len() == 0 {
        return Err(CompileError::EmptyMeasure(start.0.clone(), stop.0.clone()));
    }
    let close: bool = match &stop.1 {
        Token::MeasureBar(close, _) => *close,
        _ => false,
    };
    Ok(Some(MeasureNode { start: start.0.clone(), end: stop.0.clone(), open, close, staff }))
}

/// The measures taken so far, then what the remaining blocks give.
pub open spec fn then_blocks(
    taken: Seq<MeasureNodeView>,
    rest: Result<(Seq<MeasureNodeView>, int), CompileErrorView>,
) -> Result<(Seq<MeasureNodeView>, int), CompileErrorView> {
    match rest {
        Ok(blocks) => Ok((taken + blocks.0, blocks.1)),
        Err(e) => Err(e),
    }
}

/// The sections taken so far, then what the remaining sections give.
pub open spec fn then_sections(
    taken: Seq<SectionNodeView>,
    rest: Result<Seq<SectionNodeView>, CompileErrorView>,
) -> Result<Seq<SectionNodeView>, CompileErrorView> {
    match rest {
        Ok(sections) => Ok(taken + sections),
        Err(e) => Err(e),
    }
}

/// Takes one section: its header, if it has one, its preamble and its
/// measures.
pub fn eat_section<'a>(parser: &mut Parser<'a>) -> (r: CompileResult<SectionNode>)
    requires
        old(parser).wf(),
    ensures
        final(parser).tokens == old(parser).tokens,
        final(parser).wf(),
        match r {
            Ok(node) => section_at(old(parser).lexemes(), old(parser).index as int) == Ok::<
                (SectionNodeView, int),
                CompileErrorView,
            >((node@, final(parser).index as int)),
            Err(e) => section_at(old(parser).lexemes(), old(parser).index as int) == Err::<
                (SectionNodeView, int),
                CompileErrorView,
            >(e@),
        },
{
    let tokens: &'a Vec<(Literal, Token)> = parser.tokens;
    let ghost lex = parser.lexemes();
    let from: usize = parser.index;
    if from >= tokens.len() {
        return Err(
            CompileError::GenericSyntax("Encountered EOF while parsing section block".to_owned()),
        );
    }
    let head = &tokens[from];
    assert(lex[from as int] == (head.0@, head.1@));
    let (literal, name) = match &head.1 {
        Token::Section(name) => {
            parser.take();
            (head.0.clone(), name.clone())
        },
        _ => (
            Literal {
                literal: "<implicit-section>".to_owned(),
                filename: head.0.filename.clone(),
                lineno: head.0.lineno,
                colno: head.0.colno,
                idno: head.0.idno,
            },
            "<implicit-section>".to_owned(),
        ),
    };
    let start: usize = parser.index;
    let mut preamble: Vec<PreambleNode> = Vec::new();
    assert(preamble_view(preamble@) == Seq::<PreambleNodeView>::empty());
    while parser.index < tokens.len() && (is_directive_token(&tokens[parser.index].1) || matches!(
        tokens[parser.index].1,
        Token::Endline()
    ))
        invariant
            parser.tokens == tokens,
            lex == lexemes_view(tokens@),
            start <= parser.index <= tokens.len(),
            preamble_end(lex, start as int) == preamble_end(lex, parser.index as int),
            preamble_view(preamble@) == preamble_of(lex, start as int, parser.index as int),
        decreases tokens.len() - parser.index,
    {
        let ghost at = parser.index as int;
        let ghost before = preamble@;
        assert(lex[at] == (tokens@[at].0@, tokens@[at].1@));
        match eat_preamble_atomic(parser) {
            Ok(node) => {
                match node {
                    PreambleNode::Endline(_) => {},
                    _ => {
                        preamble.push(node);
                        assert(preamble_view(preamble@) == preamble_view(before).push(node@));
                    },
                }
            },
            Err(_) => {
                assert(false);
            },
        }
    }
    let staff_start: usize = parser.index;
    proof {
        if staff_start < tokens.len() {
            assert(lex[staff_start as int] == (
                tokens@[staff_start as int].0@,
                tokens@[staff_start as int].1@,
            ));
        }
    }
    let first: Literal = if staff_start < tokens.len() {
        tokens[staff_start].0.clone()
    } else {
        literal.clone()
    };
    let mut measures: Vec<MeasureNode> = Vec::new();
    assert(measure_nodes_view(measures@) == Seq::<MeasureNodeView>::empty());
    assert(Seq::<MeasureNodeView>::empty() + measure_blocks(
        lex,
        staff_start as int,
        literal@,
        first@,
    )->Ok_0.0 == measure_blocks(lex, staff_start as int, literal@, first@)->Ok_0.0);
    while parser.index < tokens.len() && !is_section_token(&tokens[parser.index].1)
        invariant
            parser.tokens == tokens,
            lex == lexemes_view(tokens@),
            staff_start <= parser.index <= tokens.len(),
            lex == old(parser).lexemes(),
            tokens == old(parser).tokens,
            from == old(parser).index,
            from < tokens.len(),
            lex[from as int] == (head.0@, head.1@),
            head == &tokens@[from as int],
            start == (if head.1@ is Section {
                from + 1
            } else {
                from as int
            }),
            literal@ == (if head.1@ is Section {
                head.0@
            } else {
                implicit_header(head.0@)
            }),
            staff_start == preamble_end(lex, start as int),
            first@ == (if staff_start < tokens.len() {
                lex[staff_start as int].0
            } else {
                literal@
            }),
            measure_blocks(lex, staff_start as int, literal@, first@) == then_blocks(
                measure_nodes_view(measures@),
                measure_blocks(lex, parser.index as int, literal@, first@),
            ),
        decreases tokens.len() - parser.index,
    {
        let ghost at = parser.index as int;
        let ghost before = measures@;
        assert(lex[at] == (tokens@[at].0@, tokens@[at].1@));
        proof {
            lemma_block_progress(lex, at, literal@, first@);
        }
        match eat_measure_block(parser, &literal, &first) {
            Ok(block) => {
                let ghost rest = measure_blocks(lex, parser.index as int, literal@, first@);
                match block {
                    Some(measure) => {
                        measures.push(measure);
                        proof {
                            assert(measure_nodes_view(measures@) == measure_nodes_view(
                                before,
                            ).push(measure@));
                            if rest is Ok {
                                assert(measure_nodes_view(before) + (seq![measure@]
                                    + rest->Ok_0.0) == measure_nodes_view(measures@)
                                    + rest->Ok_0.0);
                            }
                        }
                    },
                    None => {},
                }
            },
            Err(e) => {
                return Err(e);
            },
        }
    }
    proof {
        let rest = measure_blocks(lex, parser.index as int, literal@, first@);
        assert(measure_nodes_view(measures@) + rest->Ok_0.0 == measure_nodes_view(measures@));
    }
    Ok(SectionNode { literal, name, preamble, measures })
}

/// Builds the tree of a run of tokens.
pub fn parse_to_ast(tokens: &Vec<(Literal, Token)>) -> (r: CompileResult<AST>)
    ensures
        match r {
            Ok(tree) => parse(lexemes_view(tokens@)) == Ok::<
                Seq<SectionNodeView>,
                CompileErrorView,
            >(tree_view(tree@)),
            Err(e) => parse(lexemes_view(tokens@)) == Err::<
                Seq<SectionNodeView>,
                CompileErrorView,
            >(e@),
        },
{
    let ghost lex = lexemes_view(tokens@);
    let mut parser = Parser::new(tokens);
    let mut sections: Vec<SectionNode> = Vec::new();
    assert(tree_view(sections@) == Seq::<SectionNodeView>::empty());
    assert(Seq::<SectionNodeView>::empty() + sections_from(lex, 0)->Ok_0 == sections_from(
        lex,
        0,
    )->Ok_0);
    while parser.index < tokens.len()
        invariant
            parser.tokens == tokens,
            parser.wf(),
            lex == lexemes_view(tokens@),
            parse(lex) == then_sections(
                tree_view(sections@),
                sections_from(lex, parser.index as int),
            ),
        decreases tokens.len() - parser.index,
    {
        let ghost at = parser.index as int;
        let ghost before = sections@;
        proof {
            lemma_section_progress(lex, at);
        }
        match eat_section(&mut parser) {
            Ok(section) => {
                sections.push(section);
                proof {
                    let rest = sections_from(lex, parser.index as int);
                    assert(tree_view(sections@) == tree_view(before).push(section@));
                    if rest is Ok {
                        assert(tree_view(before) + (seq![section@] + rest->Ok_0) == tree_view(
                            sections@,
                        ) + rest->Ok_0);
                    }
                }
            },
            Err(e) => {
                return Err(e);
            },
        }
    }
    proof {
        assert(tree_view(sections@) + Seq::<SectionNodeView>::empty() == tree_view(sections@));
    }
    Ok(sections)
}

} // verus!
