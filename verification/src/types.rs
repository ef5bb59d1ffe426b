//! The data that the phases of the compiler hand to each other, each with
//! its mathematical view.

use crate::beats::checked_sum;
use crate::beats::is_reduced;
use crate::beats::lemma_same_value_transitive;
use crate::beats::lemma_sum_respects_value;
use crate::beats::ratio_sum;
use crate::beats::same_value;
use crate::beats::whole;
use crate::beats::Beats;
use crate::beats::Ratio;
use crate::text::decimal_text;
use crate::text::push_decimal;
use vstd::prelude::*;
use vstd::string::*;

verus! {

/// Numerator and denominator of a time signature.
pub type TimeSignature = (u8, u8);

/// What every phase returns.
pub type CompileResult<T> = Result<T, CompileError>;

/// One symbol of the source and where it stands.
#[derive(Debug, PartialEq, Eq)]
pub struct Literal {
    pub literal: String,
    pub filename: String,
    pub lineno: usize,
    pub colno: usize,
    pub idno: usize,
}

/// The view of a `Literal`.
pub struct LiteralView {
    pub literal: Seq<char>,
    pub filename: Seq<char>,
    pub lineno: usize,
    pub colno: usize,
    pub idno: usize,
}

impl View for Literal {
    type V = LiteralView;

    open spec fn view(&self) -> LiteralView {
        LiteralView {
            literal: self.literal@,
            filename: self.filename@,
            lineno: self.lineno,
            colno: self.colno,
            idno: self.idno,
        }
    }
}

impl Clone for Literal {
    fn clone(&self) -> (r: Self)
        ensures
            r@ == self@,
    {
        Literal {
            literal: self.literal.clone(),
            filename: self.filename.clone(),
            lineno: self.lineno,
            colno: self.colno,
            idno: self.idno,
        }
    }
}

/// How a literal is shown in a message: its text in quotes, then line and
/// column.
pub open spec fn literal_text(l: LiteralView) -> Seq<char> {
    "\""@ + l.literal + "\", line "@ + decimal_text(l.lineno as nat) + ", column "@ + decimal_text(
        l.colno as nat,
    )
}

impl Literal {
    /// The literal as it is shown in a message.
    pub fn to_string(&self) -> (r: String)
        ensures
            r@ == literal_text(self@),
    {
        let mut out = String::new();
        out.append("\"");
        out.append(self.literal.as_str());
        out.append("\", line ");
        push_decimal(&mut out, self.lineno as u64);
        out.append(", column ");
        push_decimal(&mut out, self.colno as u64);
        assert(out@ =~= literal_text(self@));
        out
    }
}

/// A relative note: what is sung, and for how long. The prefix `_` is a rest.
#[derive(Debug, PartialEq, Eq)]
pub struct RegoNote {
    pub prefix: String,
    pub suffix: String,
    pub beats: Beats,
}

/// The view of a `RegoNote`.
pub struct RegoNoteView {
    pub prefix: Seq<char>,
    pub suffix: Seq<char>,
    pub beats: Ratio,
}

impl View for RegoNote {
    type V = RegoNoteView;

    open spec fn view(&self) -> RegoNoteView {
        RegoNoteView { prefix: self.prefix@, suffix: self.suffix@, beats: self.beats@ }
    }
}

impl Clone for RegoNote {
    fn clone(&self) -> (r: Self)
        ensures
            r@ == self@,
    {
        RegoNote { prefix: self.prefix.clone(), suffix: self.suffix.clone(), beats: self.beats }
    }
}

/// How loud.
#[derive(Debug, Clone, Copy, PartialEq, Eq, Structural)]
pub enum DynamicLevel {
    Pianissimo,
    Piano,
    Mezzopiano,
    Mezzoforte,
    Forte,
    Fortissimo,
}

/// An absolute pitch: an index into the synthesis engine's chromatic table.
#[derive(Debug, Clone, Copy, PartialEq, Eq, Structural)]
pub struct ToneId(pub u8);

/// A root tone and the semitone steps that lead from each degree to the next.
#[derive(Debug, PartialEq, Eq)]
pub struct Scale {
    pub name: String,
    pub tone_id: ToneId,
    pub steps: Vec<u8>,
}

/// The view of a `Scale`.
pub struct ScaleView {
    pub name: Seq<char>,
    pub tone_id: ToneId,
    pub steps: Seq<u8>,
}

impl View for Scale {
    type V = ScaleView;

    open spec fn view(&self) -> ScaleView {
        ScaleView { name: self.name@, tone_id: self.tone_id, steps: self.steps@ }
    }
}

impl Clone for Scale {
    fn clone(&self) -> (r: Self)
        ensures
            r@ == self@,
    {
        let mut steps: Vec<u8> = Vec::new();
        let mut i: usize = 0;
        while i < self.steps.len()
            invariant
                i <= self.steps.len(),
                steps@ == self.steps@.take(i as int),
            decreases self.steps.len() - i,
        {
            assert(self.steps@.take(i + 1) == self.steps@.take(i as int).push(self.steps@[i as int]));
            steps.push(self.steps[i]);
            i = i + 1;
        }
        assert(self.steps@.take(self.steps.len() as int) == self.steps@);
        Scale { name: self.name.clone(), tone_id: self.tone_id, steps }
    }
}

/// The scale of C major.
pub open spec fn cmajor_view() -> ScaleView {
    ScaleView { name: "cmajor"@, tone_id: ToneId(13), steps: seq![2u8, 2u8, 1u8, 2u8, 2u8, 2u8, 1u8] }
}

impl Scale {
    /// The scale of C major.
    pub fn cmajor() -> (r: Self)
        ensures
            r@ == cmajor_view(),
    {
        let mut steps: Vec<u8> = Vec::new();
        steps.push(2);
        steps.push(2);
        steps.push(1);
        steps.push(2);
        steps.push(2);
        steps.push(2);
        steps.push(1);
        assert(steps@ =~= cmajor_view().steps);
        Scale { name: "cmajor".to_owned(), tone_id: ToneId(13), steps }
    }
}

/// The sum of the first `n` steps.
pub open spec fn steps_sum(steps: Seq<u8>, n: int) -> int
    decreases n,
{
    if n <= 0 {
        0
    } else {
        steps_sum(steps, n - 1) + steps[n - 1]
    }
}

/// The tone of a degree of a scale: the root for degree 1, a step more for
/// each degree after it, and twelve semitones for each full turn through the
/// steps.
pub open spec fn degree_tone(scale: ScaleView, degree: int) -> int {
    let len = scale.steps.len() as int;
    scale.tone_id.0 + ((degree - 1) / len) * 12 + steps_sum(scale.steps, (degree - 1) % len)
}

/// The degrees that a scale gives a tone for: the scale has steps, degrees
/// count from one, and the tone is one that a `ToneId` can hold.
pub open spec fn degree_in_scale(scale: ScaleView, degree: int) -> bool {
    scale.steps.len() > 0 && degree >= 1 && degree_tone(scale, degree) <= u8::MAX
}

/// The first degree of a scale is its root.
pub proof fn lemma_first_degree_is_root(scale: ScaleView)
    requires
        scale.steps.len() > 0,
    ensures
        degree_tone(scale, 1) == scale.tone_id.0,
{
}

/// A full turn through the steps of a scale is an octave: the degree that
/// lies as many degrees higher as the scale has steps sounds twelve semitones
/// higher.
pub proof fn lemma_full_turn_is_an_octave(scale: ScaleView, degree: int)
    requires
        scale.steps.len() > 0,
        degree >= 1,
    ensures
        degree_tone(scale, degree + scale.steps.len()) == degree_tone(scale, degree) + 12,
{
    let len = scale.steps.len() as int;
    let index = degree - 1;
    vstd::arithmetic::div_mod::lemma_div_plus_one(index, len);
    vstd::arithmetic::div_mod::lemma_mod_add_multiples_vanish(index, len);
    assert(index + len == len + index);
}

/// The tone of `degree` in `scale`, or nothing where the scale gives none.
pub fn try_sample_scale(scale: &Scale, degree: u8) -> (r: Option<ToneId>)
    ensures
        r == if degree_in_scale(scale@, degree as int) {
            Some(ToneId(degree_tone(scale@, degree as int) as u8))
        } else {
            None
        },
        r matches Some(tone) ==> tone.0 == degree_tone(scale@, degree as int),
{
    if degree == 0 || scale.steps.len() == 0 {
        return None;
    }
    let len: usize = scale.steps.len();
    let index: usize = (degree - 1) as usize;
    let octaves: usize = index / len;
    let d: usize = index % len;
    assert(d <= 254) by (nonlinear_arith)
        requires
            d == index % len,
            index <= 254,
            len > 0,
    ;
    let mut sum: u32 = 0;
    let mut i: usize = 0;
    while i < d
        invariant
            i <= d < len,
            len == scale.steps.len(),
            d <= 254,
            sum == steps_sum(scale.steps@, i as int),
            sum <= 255 * i,
        decreases d - i,
    {
        sum = sum + scale.steps[i] as u32;
        i = i + 1;
    }
    assert(octaves <= 254) by (nonlinear_arith)
        requires
            octaves == index / len,
            index <= 254,
            len > 0,
    ;
    let tone: u32 = scale.tone_id.0 as u32 + (octaves as u32) * 12 + sum;
    if tone <= 255 {
        Some(ToneId(tone as u8))
    } else {
        None
    }
}

/// The tone of `degree` in `scale`, for a degree that the scale gives a tone
/// for.
pub fn sample_scale(scale: &Scale, degree: u8) -> (r: ToneId)
    requires
        degree_in_scale(scale@, degree as int),
    ensures
        r.0 == degree_tone(scale@, degree as int),
{
    match try_sample_scale(scale, degree) {
        Some(tone) => tone,
        None => ToneId(0),
    }
}

/// What one symbol of the source means.
#[derive(Debug, PartialEq, Eq)]
pub enum Token {
    Track(u32),
    Tempo(u16),
    AbsolutePitch(ToneId),
    Note(RegoNote),
    Scale(Scale),
    ScaleDegree(u8),
    Dynamic(DynamicLevel),
    MeasureBar(bool, bool),
    Section(String),
    TimeSignature(TimeSignature),
    Endline(),
}

/// The view of a `Token`.
pub enum TokenView {
    Track(u32),
    Tempo(u16),
    AbsolutePitch(ToneId),
    Note(RegoNoteView),
    Scale(ScaleView),
    ScaleDegree(u8),
    Dynamic(DynamicLevel),
    MeasureBar(bool, bool),
    Section(Seq<char>),
    TimeSignature(TimeSignature),
    Endline(),
}

impl View for Token {
    type V = TokenView;

    open spec fn view(&self) -> TokenView {
        match *self {
            Token::Track(id) => TokenView::Track(id),
            Token::Tempo(bpm) => TokenView::Tempo(bpm),
            Token::AbsolutePitch(tone) => TokenView::AbsolutePitch(tone),
            Token::Note(note) => TokenView::Note(note@),
            Token::Scale(scale) => TokenView::Scale(scale@),
            Token::ScaleDegree(degree) => TokenView::ScaleDegree(degree),
            Token::Dynamic(level) => TokenView::Dynamic(level),
            Token::MeasureBar(close, open) => TokenView::MeasureBar(close, open),
            Token::Section(name) => TokenView::Section(name@),
            Token::TimeSignature(ratio) => TokenView::TimeSignature(ratio),
            Token::Endline() => TokenView::Endline(),
        }
    }
}

impl Clone for Token {
    fn clone(&self) -> (r: Self)
        ensures
            r@ == self@,
    {
        match self {
            Token::Track(id) => Token::Track(*id),
            Token::Tempo(bpm) => Token::Tempo(*bpm),
            Token::AbsolutePitch(tone) => Token::AbsolutePitch(*tone),
            Token::Note(note) => Token::Note(note.clone()),
            Token::Scale(scale) => Token::Scale(scale.clone()),
            Token::ScaleDegree(degree) => Token::ScaleDegree(*degree),
            Token::Dynamic(level) => Token::Dynamic(*level),
            Token::MeasureBar(close, open) => Token::MeasureBar(*close, *open),
            Token::Section(name) => Token::Section(name.clone()),
            Token::TimeSignature(ratio) => Token::TimeSignature(*ratio),
            Token::Endline() => Token::Endline(),
        }
    }
}

/// A symbol together with its meaning, as the lexer hands it on.
pub open spec fn lexeme_view(pair: (Literal, Token)) -> (LiteralView, TokenView) {
    (pair.0@, pair.1@)
}

/// The views of a run of lexemes.
pub open spec fn lexemes_view(tokens: Seq<(Literal, Token)>) -> Seq<(LiteralView, TokenView)> {
    tokens.map_values(|pair: (Literal, Token)| lexeme_view(pair))
}

/// A note with the tone it sounds at.
#[derive(Debug, PartialEq, Eq)]
pub struct NoteDecl {
    pub note: RegoNote,
    pub note_literal: Literal,
    pub tone_id: ToneId,
}

/// The view of a `NoteDecl`.
pub struct NoteDeclView {
    pub note: RegoNoteView,
    pub note_literal: LiteralView,
    pub tone_id: ToneId,
}

impl View for NoteDecl {
    type V = NoteDeclView;

    open spec fn view(&self) -> NoteDeclView {
        NoteDeclView { note: self.note@, note_literal: self.note_literal@, tone_id: self.tone_id }
    }
}

impl Clone for NoteDecl {
    fn clone(&self) -> (r: Self)
        ensures
            r@ == self@,
    {
        NoteDecl {
            note: self.note.clone(),
            note_literal: self.note_literal.clone(),
            tone_id: self.tone_id,
        }
    }
}

/// The views of a run of notes.
pub open spec fn notes_view(notes: Seq<NoteDecl>) -> Seq<NoteDeclView> {
    notes.map_values(|n: NoteDecl| n@)
}

/// A resolved measure: the notes of one track between two bounds.
#[derive(Debug, PartialEq, Eq)]
pub struct Measure {
    pub start: Literal,
    pub end: Literal,
    pub close: bool,
    pub open: bool,
    pub track: u32,
    pub notes: Vec<NoteDecl>,
}

/// The view of a `Measure`.
pub struct MeasureView {
    pub start: LiteralView,
    pub end: LiteralView,
    pub close: bool,
    pub open: bool,
    pub track: u32,
    pub notes: Seq<NoteDeclView>,
}

impl View for Measure {
    type V = MeasureView;

    open spec fn view(&self) -> MeasureView {
        MeasureView {
            start: self.start@,
            end: self.end@,
            close: self.close,
            open: self.open,
            track: self.track,
            notes: notes_view(self.notes@),
        }
    }
}

impl Clone for Measure {
    fn clone(&self) -> (r: Self)
        ensures
            r@ == self@,
    {
        let mut notes: Vec<NoteDecl> = Vec::new();
        let mut i: usize = 0;
        while i < self.notes.len()
            invariant
                i <= self.notes.len(),
                notes_view(notes@) == notes_view(self.notes@).take(i as int),
            decreases self.notes.len() - i,
        {
            let note = self.notes[i].clone();
            assert(notes_view(self.notes@).take(i + 1) == notes_view(self.notes@).take(
                i as int,
            ).push(note@));
            assert(notes_view(notes@.push(note)) == notes_view(notes@).push(note@));
            notes.push(note);
            i = i + 1;
        }
        assert(notes_view(self.notes@).take(self.notes.len() as int) == notes_view(self.notes@));
        Measure {
            start: self.start.clone(),
            end: self.end.clone(),
            close: self.close,
            open: self.open,
            track: self.track,
            notes,
        }
    }
}

/// The beats of a run of notes, added up one after the other from zero, or
/// nothing where a sum cannot be held.
pub open spec fn beats_total(notes: Seq<NoteDeclView>) -> Option<Ratio>
    decreases notes.len(),
{
    if notes.len() == 0 {
        Some(whole(0))
    } else {
        match beats_total(notes.drop_last()) {
            Some(total) => checked_sum(total, notes.last().note.beats),
            None => None,
        }
    }
}

/// The beats of a run of notes as one fraction over the product of their
/// denominators: their sum, whatever its size.
pub open spec fn exact_total(notes: Seq<NoteDeclView>) -> Ratio
    decreases notes.len(),
{
    if notes.len() == 0 {
        whole(0)
    } else {
        ratio_sum(exact_total(notes.drop_last()), notes.last().note.beats)
    }
}

impl Measure {
    /// The beats of the measure's notes, or nothing where their sum cannot be
    /// held. A sum that is returned is exact.
    pub fn count_beats(&self) -> (r: Option<Beats>)
        ensures
            match r {
                Some(total) => beats_total(self@.notes) == Some(total@) && same_value(
                    total@,
                    exact_total(self@.notes),
                ) && is_reduced(total@) && exact_total(self@.notes).denom > 0,
                None => beats_total(self@.notes) is None,
            },
    {
        let ghost notes = self@.notes;
        let mut total = Beats::zero();
        let mut i: usize = 0;
        while i < self.notes.len()
            invariant
                i <= self.notes.len(),
                notes == notes_view(self.notes@),
                beats_total(notes.take(i as int)) == Some(total@),
                same_value(total@, exact_total(notes.take(i as int))),
                exact_total(notes.take(i as int)).denom > 0,
                total.well_formed(),
            decreases self.notes.len() - i,
        {
            let beats = self.notes[i].note.beats;
            proof {
                use_type_invariant(&beats);
                beats.lemma_well_formed();
                total.lemma_well_formed();
                assert(notes.take(i + 1).drop_last() == notes.take(i as int));
                assert(notes.take(i + 1).last().note.beats == beats@);
            }
            match total.checked_add(&beats) {
                Some(sum) => {
                    proof {
                        let exact = exact_total(notes.take(i as int));
                        lemma_sum_respects_value(total@, exact, beats@);
                        assert(ratio_sum(total@, beats@).denom > 0) by (nonlinear_arith)
                            requires
                                ratio_sum(total@, beats@).denom == total@.denom * beats@.denom,
                                total@.denom > 0,
                                beats@.denom > 0,
                        ;
                        assert(ratio_sum(exact, beats@).denom > 0) by (nonlinear_arith)
                            requires
                                ratio_sum(exact, beats@).denom == exact.denom * beats@.denom,
                                exact.denom > 0,
                                beats@.denom > 0,
                        ;
                        lemma_same_value_transitive(
                            sum@,
                            ratio_sum(total@, beats@),
                            ratio_sum(exact, beats@),
                        );
                    }
                    total = sum;
                },
                None => {
                    proof {
                        lemma_total_stays_none(notes, i + 1);
                    }
                    return None;
                },
            }
            i = i + 1;
        }
        proof {
            assert(notes.take(self.notes.len() as int) == notes);
            total.lemma_well_formed();
        }
        Some(total)
    }
}

/// Once a sum cannot be held, no longer run of the notes has a total.
pub proof fn lemma_total_stays_none(notes: Seq<NoteDeclView>, n: int)
    requires
        0 <= n <= notes.len(),
        beats_total(notes.take(n)) is None,
    ensures
        beats_total(notes) is None,
    decreases notes.len() - n,
{
    if n < notes.len() {
        assert(notes.take(n + 1).drop_last() == notes.take(n));
        lemma_total_stays_none(notes, n + 1);
    } else {
        assert(notes.take(n) == notes);
    }
}

/// Why a compilation failed.
#[derive(Debug, PartialEq, Eq)]
pub enum CompileError {
    Generic(String),
    GenericSyntax(String),
    Unexpected(String, Token, Literal),
    PreambleOrder(Literal, Literal, Literal),
    EmptyMeasure(Literal, Literal),
    InvalidSyntax(Literal),
    TimeSignatureViolation { measure: Measure, time_signature: Literal, nominal: TimeSignature },
    FileError(String),
    NetworkError(String),
    TrackTooLarge,
    TooManyRequests,
    DifferingMeasureCounts(u32, usize, u32, usize),
    EmptyTrack(u32),
}

/// The view of a `CompileError`.
pub enum CompileErrorView {
    Generic(Seq<char>),
    GenericSyntax(Seq<char>),
    Unexpected(Seq<char>, TokenView, LiteralView),
    PreambleOrder(LiteralView, LiteralView, LiteralView),
    EmptyMeasure(LiteralView, LiteralView),
    InvalidSyntax(LiteralView),
    TimeSignatureViolation { measure: MeasureView, time_signature: LiteralView, nominal: TimeSignature },
    FileError(Seq<char>),
    NetworkError(Seq<char>),
    TrackTooLarge,
    TooManyRequests,
    DifferingMeasureCounts(u32, usize, u32, usize),
    EmptyTrack(u32),
}

impl View for CompileError {
    type V = CompileErrorView;

    open spec fn view(&self) -> CompileErrorView {
        match *self {
            CompileError::Generic(message) => CompileErrorView::Generic(message@),
            CompileError::GenericSyntax(message) => CompileErrorView::GenericSyntax(message@),
            CompileError::Unexpected(message, token, literal) => CompileErrorView::Unexpected(
                message@,
                token@,
                literal@,
            ),
            CompileError::PreambleOrder(section, first, offender) => CompileErrorView::PreambleOrder(
                section@,
                first@,
                offender@,
            ),
            CompileError::EmptyMeasure(start, end) => CompileErrorView::EmptyMeasure(start@, end@),
            CompileError::InvalidSyntax(literal) => CompileErrorView::InvalidSyntax(literal@),
            CompileError::TimeSignatureViolation {
                measure,
                time_signature,
                nominal,
            } => CompileErrorView::TimeSignatureViolation {
                measure: measure@,
                time_signature: time_signature@,
                nominal,
            },
            CompileError::FileError(message) => CompileErrorView::FileError(message@),
            CompileError::NetworkError(message) => CompileErrorView::NetworkError(message@),
            CompileError::TrackTooLarge => CompileErrorView::TrackTooLarge,
            CompileError::TooManyRequests => CompileErrorView::TooManyRequests,
            CompileError::DifferingMeasureCounts(a, a_count, b, b_count) => {
                CompileErrorView::DifferingMeasureCounts(a, a_count, b, b_count)
            },
            CompileError::EmptyTrack(track) => CompileErrorView::EmptyTrack(track),
        }
    }
}

} // verus!
