//! From the parsed tree to a composition: every note gets its tone and its
//! track, and every section is held to its time signature and to equal
//! measure counts.

use crate::beats::whole;
use crate::parser::measure_nodes_view;
use crate::parser::preamble_view;
use crate::parser::staff_view;
use crate::parser::tree_view;
use crate::parser::AST;
use crate::parser::MeasureNode;
use crate::parser::MeasureNodeView;
use crate::parser::PreambleNode;
use crate::parser::PreambleNodeView;
use crate::parser::SectionNode;
use crate::parser::SectionNodeView;
use crate::parser::StaffNode;
use crate::parser::StaffNodeView;
use crate::beats::lemma_same_value_transitive;
use crate::beats::same_value;
use crate::types::beats_total;
use crate::types::exact_total;
use crate::types::cmajor_view;
use crate::types::degree_in_scale;
use crate::types::degree_tone;
use crate::types::notes_view;
use crate::types::try_sample_scale;
use crate::types::CompileError;
use crate::types::CompileErrorView;
use crate::types::CompileResult;
use crate::types::DynamicLevel;
use crate::types::Literal;
use crate::types::LiteralView;
use crate::types::Measure;
use crate::types::MeasureView;
use crate::types::NoteDecl;
use crate::types::NoteDeclView;
use crate::types::Scale;
use crate::types::ScaleView;
use crate::types::TimeSignature;
use crate::types::ToneId;
use vstd::prelude::*;
use vstd::string::*;

verus! {

/// The measures of one track of a section.
#[derive(Debug, PartialEq, Eq)]
pub struct Track {
    pub id: u32,
    pub measures: Vec<Measure>,
}

/// The view of a `Track`.
pub struct TrackView {
    pub id: u32,
    pub measures: Seq<MeasureView>,
}

/// The views of a run of measures.
pub open spec fn measures_view(measures: Seq<Measure>) -> Seq<MeasureView> {
    measures.map_values(|m: Measure| m@)
}

impl View for Track {
    type V = TrackView;

    open spec fn view(&self) -> TrackView {
        TrackView { id: self.id, measures: measures_view(self.measures@) }
    }
}

/// The views of a run of tracks.
pub open spec fn tracks_view(tracks: Seq<Track>) -> Seq<TrackView> {
    tracks.map_values(|t: Track| t@)
}

/// The view of a time signature with the literal that declared it.
pub open spec fn signature_view(signature: Option<(Literal, TimeSignature)>) -> Option<
    (LiteralView, TimeSignature),
> {
    match signature {
        Some(pair) => Some((pair.0@, pair.1)),
        None => None,
    }
}

/// A resolved section. Its tracks stand in ascending order of their ids.
#[derive(Debug, PartialEq, Eq)]
pub struct Section {
    pub id: u32,
    pub name: String,
    pub tempo: u16,
    pub dynamic: DynamicLevel,
    pub scale: Scale,
    pub time_signature: Option<(Literal, TimeSignature)>,
    pub tracks: Vec<Track>,
}

/// The view of a `Section`.
pub struct SectionView {
    pub id: u32,
    pub name: Seq<char>,
    pub tempo: u16,
    pub dynamic: DynamicLevel,
    pub scale: ScaleView,
    pub time_signature: Option<(LiteralView, TimeSignature)>,
    pub tracks: Seq<TrackView>,
}

impl View for Section {
    type V = SectionView;

    open spec fn view(&self) -> SectionView {
        SectionView {
            id: self.id,
            name: self.name@,
            tempo: self.tempo,
            dynamic: self.dynamic,
            scale: self.scale@,
            time_signature: signature_view(self.time_signature),
            tracks: tracks_view(self.tracks@),
        }
    }
}

/// The views of a run of sections.
pub open spec fn sections_view(sections: Seq<Section>) -> Seq<SectionView> {
    sections.map_values(|s: Section| s@)
}

/// The resolved sections of a source, in its order.
#[derive(Debug, PartialEq, Eq)]
pub struct Composition {
    pub sections: Vec<Section>,
}

impl View for Composition {
    type V = Seq<SectionView>;

    open spec fn view(&self) -> Seq<SectionView> {
        sections_view(self.sections@)
    }
}

/// What the pass knows at a point of the source: the settings in force, the
/// tone that the next note sounds at and the track it goes to.
#[derive(Debug, PartialEq, Eq)]
pub struct CompositionState {
    pub tempo: u16,
    pub dynamic: DynamicLevel,
    pub scale: Scale,
    pub time_signature: Option<(Literal, TimeSignature)>,
    pub tone_id: ToneId,
    pub track: u32,
}

/// The view of a `CompositionState`.
pub struct StateView {
    pub tempo: u16,
    pub dynamic: DynamicLevel,
    pub scale: ScaleView,
    pub time_signature: Option<(LiteralView, TimeSignature)>,
    pub tone_id: ToneId,
    pub track: u32,
}

impl View for CompositionState {
    type V = StateView;

    open spec fn view(&self) -> StateView {
        StateView {
            tempo: self.tempo,
            dynamic: self.dynamic,
            scale: self.scale@,
            time_signature: signature_view(self.time_signature),
            tone_id: self.tone_id,
            track: self.track,
        }
    }
}

/// The state at the start of a compilation: 120 beats a minute, mezzoforte,
/// C major, the tone of its root, track 0, no time signature.
pub open spec fn default_state() -> StateView {
    StateView {
        tempo: 120,
        dynamic: DynamicLevel::Mezzoforte,
        scale: cmajor_view(),
        time_signature: None,
        tone_id: ToneId(13),
        track: 0,
    }
}

impl CompositionState {
    /// The state at the start of a compilation.
    pub fn defaults() -> (r: Self)
        ensures
            r@ == default_state(),
    {
        CompositionState {
            tempo: 120,
            dynamic: DynamicLevel::Mezzoforte,
            scale: Scale::cmajor(),
            time_signature: None,
            tone_id: ToneId(13),
            track: 0,
        }
    }
}

/// The state after one directive: the directive's setting replaces the one in
/// force.
pub open spec fn apply_preamble_node(state: StateView, node: PreambleNodeView) -> StateView {
    match node {
        PreambleNodeView::DynamicLevel { level, .. } => StateView { dynamic: level, ..state },
        PreambleNodeView::Scale { scale, .. } => StateView { scale: scale, ..state },
        PreambleNodeView::TimeSignature { literal, ratio } => StateView {
            time_signature: Some((literal, ratio)),
            ..state
        },
        PreambleNodeView::Tempo { tempo, .. } => StateView { tempo: tempo, ..state },
        PreambleNodeView::Endline(_) => state,
    }
}

/// The state after the directives of a preamble, applied in order.
pub open spec fn apply_preamble(state: StateView, nodes: Seq<PreambleNodeView>) -> StateView
    decreases nodes.len(),
{
    if nodes.len() == 0 {
        state
    } else {
        apply_preamble_node(apply_preamble(state, nodes.drop_last()), nodes.last())
    }
}

/// The state and the notes after one element of the staff. A note takes the
/// tone in force and joins the notes; a pitch, a degree or a track changes the
/// state; a degree that the scale has no tone for, a bar and an end of line
/// are errors at the element's literal.
pub open spec fn apply_staff_node(
    state: StateView,
    notes: Seq<NoteDeclView>,
    node: StaffNodeView,
) -> Result<(StateView, Seq<NoteDeclView>), CompileErrorView> {
    match node {
        StaffNodeView::Note { literal, note } => Ok(
            (
                state,
                notes.push(NoteDeclView { note: note, note_literal: literal, tone_id: state.tone_id }),
            ),
        ),
        StaffNodeView::AbsolutePitch { pitch, .. } => Ok(
            (StateView { tone_id: pitch, ..state }, notes),
        ),
        StaffNodeView::ScaleDegree { literal, degree } => if degree_in_scale(
            state.scale,
            degree as int,
        ) {
            Ok(
                (
                    StateView {
                        tone_id: ToneId(degree_tone(state.scale, degree as int) as u8),
                        ..state
                    },
                    notes,
                ),
            )
        } else {
            Err(CompileErrorView::InvalidSyntax(literal))
        },
        StaffNodeView::Track { track_id, .. } => Ok(
            (StateView { track: track_id, ..state }, notes),
        ),
        StaffNodeView::MeasureBar { literal, .. } => Err(
            CompileErrorView::InvalidSyntax(literal),
        ),
        StaffNodeView::Endline { literal } => Err(CompileErrorView::InvalidSyntax(literal)),
    }
}

/// The state and the notes after the elements of a staff, taken in order, or
/// the first error among them.
pub open spec fn resolve_staff(state: StateView, staff: Seq<StaffNodeView>) -> Result<
    (StateView, Seq<NoteDeclView>),
    CompileErrorView,
>
    decreases staff.len(),
{
    if staff.len() == 0 {
        Ok((state, Seq::empty()))
    } else {
        match resolve_staff(state, staff.drop_last()) {
            Ok(pair) => apply_staff_node(pair.0, pair.1, staff.last()),
            Err(e) => Err(e),
        }
    }
}

/// The first position at or after `from` whose track has an id that is not
/// below `id`, or the number of tracks.
pub open spec fn track_slot(tracks: Seq<TrackView>, id: u32, from: int) -> int
    decreases tracks.len() - from,
{
    if 0 <= from < tracks.len() && tracks[from].id < id {
        track_slot(tracks, id, from + 1)
    } else {
        from
    }
}

/// The tracks with one more measure: at the end of the track that the measure
/// names, or as the only measure of a new track in its place by id.
pub open spec fn add_measure(tracks: Seq<TrackView>, measure: MeasureView) -> Seq<TrackView> {
    let slot = track_slot(tracks, measure.track, 0);
    if slot < tracks.len() && tracks[slot].id == measure.track {
        tracks.update(
            slot,
            TrackView { id: measure.track, measures: tracks[slot].measures.push(measure) },
        )
    } else {
        tracks.insert(slot, TrackView { id: measure.track, measures: seq![measure] })
    }
}

/// The state and the tracks after one measure of the tree: its staff is
/// resolved, and its notes, if it has any, become a measure of the track in
/// force at its end.
pub open spec fn resolve_measure(
    state: StateView,
    tracks: Seq<TrackView>,
    node: MeasureNodeView,
) -> Result<(StateView, Seq<TrackView>), CompileErrorView> {
    match resolve_staff(state, node.staff) {
        Ok(pair) => if pair.1.len() == 0 {
            Ok((pair.0, tracks))
        } else {
            Ok(
                (
                    pair.0,
                    add_measure(
                        tracks,
                        MeasureView {
                            start: node.start,
                            end: node.end,
                            close: node.close,
                            open: node.open,
                            track: pair.0.track,
                            notes: pair.1,
                        },
                    ),
                ),
            )
        },
        Err(e) => Err(e),
    }
}

/// The state and the tracks after the measures of a section, taken in order,
/// or the first error among them.
pub open spec fn resolve_measures(state: StateView, nodes: Seq<MeasureNodeView>) -> Result<
    (StateView, Seq<TrackView>),
    CompileErrorView,
>
    decreases nodes.len(),
{
    if nodes.len() == 0 {
        Ok((state, Seq::empty()))
    } else {
        match resolve_measures(state, nodes.drop_last()) {
            Ok(pair) => resolve_measure(pair.0, pair.1, nodes.last()),
            Err(e) => Err(e),
        }
    }
}

/// What is wrong with the beats of a measure under a time signature, if
/// anything: a sum that cannot be held, or one that is neither zero nor the
/// signature's numerator.
pub open spec fn measure_offence(
    measure: MeasureView,
    signature: (LiteralView, TimeSignature),
) -> Option<CompileErrorView> {
    match beats_total(measure.notes) {
        None => Some(CompileErrorView::Generic("beat count overflow"@)),
        Some(total) => if total == whole(0) || total == whole(signature.1.0 as nat) {
            None
        } else {
            Some(
                CompileErrorView::TimeSignatureViolation {
                    measure: measure,
                    time_signature: signature.0,
                    nominal: signature.1,
                },
            )
        },
    }
}

/// The offence of the first measure that has one.
pub open spec fn measures_offence(
    measures: Seq<MeasureView>,
    signature: (LiteralView, TimeSignature),
) -> Option<CompileErrorView>
    decreases measures.len(),
{
    if measures.len() == 0 {
        None
    } else {
        match measures_offence(measures.drop_last(), signature) {
            Some(e) => Some(e),
            None => measure_offence(measures.last(), signature),
        }
    }
}

/// The offence of the first track that has one.
pub open spec fn tracks_offence(
    tracks: Seq<TrackView>,
    signature: (LiteralView, TimeSignature),
) -> Option<CompileErrorView>
    decreases tracks.len(),
{
    if tracks.len() == 0 {
        None
    } else {
        match tracks_offence(tracks.drop_last(), signature) {
            Some(e) => Some(e),
            None => measures_offence(tracks.last().measures, signature),
        }
    }
}

/// What is wrong with the measure count of one track, held against the first
/// track: no measure at all, or another count than the first track's.
pub open spec fn track_count_error(tracks: Seq<TrackView>, i: int) -> Option<CompileErrorView> {
    if tracks[i].measures.len() == 0 {
        Some(CompileErrorView::EmptyTrack(tracks[i].id))
    } else if tracks[i].measures.len() != tracks[0].measures.len() {
        Some(
            CompileErrorView::DifferingMeasureCounts(
                tracks[0].id,
                tracks[0].measures.len() as usize,
                tracks[i].id,
                tracks[i].measures.len() as usize,
            ),
        )
    } else {
        None
    }
}

/// The count error of the first of the first `n` tracks that has one.
pub open spec fn count_error(tracks: Seq<TrackView>, n: int) -> Option<CompileErrorView>
    decreases n,
{
    if n <= 0 {
        None
    } else {
        match count_error(tracks, n - 1) {
            Some(e) => Some(e),
            None => track_count_error(tracks, n - 1),
        }
    }
}

/// What a section of the tree resolves to from a state: the section and the
/// state after it, or the first error. The order is: the preamble, the
/// measures, the time signature, the measure counts.
pub open spec fn resolve_section(id: u32, node: SectionNodeView, state: StateView) -> Result<
    (SectionView, StateView),
    CompileErrorView,
> {
    match resolve_measures(apply_preamble(state, node.preamble), node.measures) {
        Err(e) => Err(e),
        Ok(pair) => {
            let after = pair.0;
            let tracks = pair.1;
            let offence = match after.time_signature {
                Some(signature) => tracks_offence(tracks, signature),
                None => None,
            };
            match offence {
                Some(e) => Err(e),
                None => match count_error(tracks, tracks.len() as int) {
                    Some(e) => Err(e),
                    None => Ok(
                        (
                            SectionView {
                                id: id,
                                name: node.name,
                                tempo: after.tempo,
                                dynamic: after.dynamic,
                                scale: after.scale,
                                time_signature: after.time_signature,
                                tracks: tracks,
                            },
                            after,
                        ),
                    ),
                },
            }
        },
    }
}

/// The sections and the state after the sections of a tree, resolved in
/// order from a state, each with its position as its id; or the first error.
pub open spec fn resolve_sections(nodes: Seq<SectionNodeView>, state: StateView) -> Result<
    (Seq<SectionView>, StateView),
    CompileErrorView,
>
    decreases nodes.len(),
{
    if nodes.len() == 0 {
        Ok((Seq::empty(), state))
    } else {
        match resolve_sections(nodes.drop_last(), state) {
            Err(e) => Err(e),
            Ok(pair) => match resolve_section((nodes.len() - 1) as u32, nodes.last(), pair.1) {
                Err(e) => Err(e),
                Ok(last) => Ok((pair.0.push(last.0), last.1)),
            },
        }
    }
}

/// What a tree resolves to: its sections from the default state, or the
/// first error. A tree with more sections than an id can number is an error.
pub open spec fn resolve(nodes: Seq<SectionNodeView>) -> Result<Seq<SectionView>, CompileErrorView> {
    if nodes.len() > u32::MAX {
        Err(CompileErrorView::Generic("too many sections"@))
    } else {
        match resolve_sections(nodes, default_state()) {
            Ok(pair) => Ok(pair.0),
            Err(e) => Err(e),
        }
    }
}

/// Applies the directives of a preamble to the state.
pub fn run_preamble(preamble: &Vec<PreambleNode>, state: &mut CompositionState)
    ensures
        final(state)@ == apply_preamble(old(state)@, preamble_view(preamble@)),
{
    let ghost nodes = preamble_view(preamble@);
    let ghost start = state@;
    let mut i: usize = 0;
    while i < preamble.len()
        invariant
            i <= preamble.len(),
            nodes == preamble_view(preamble@),
            state@ == apply_preamble(start, nodes.take(i as int)),
        decreases preamble.len() - i,
    {
        proof {
            assert(nodes.take(i + 1).drop_last() == nodes.take(i as int));
            assert(nodes.take(i + 1).last() == preamble@[i as int]@);
        }
        match &preamble[i] {
            PreambleNode::DynamicLevel { level, .. } => {
                state.dynamic = *level;
            },
            PreambleNode::Scale { scale, .. } => {
                state.scale = scale.clone();
            },
            PreambleNode::TimeSignature { literal, ratio } => {
                state.time_signature = Some((literal.clone(), *ratio));
            },
            PreambleNode::Tempo { tempo, .. } => {
                state.tempo = *tempo;
            },
            PreambleNode::Endline(_) => {},
        }
        i = i + 1;
    }
    proof {
        assert(nodes.take(preamble.len() as int) == nodes);
    }
}

/// Walks the staff of one measure: the notes it holds, each with the tone in
/// force where it stands, and the state after it.
pub fn run_staff(staff: &Vec<StaffNode>, state: &mut CompositionState) -> (r: CompileResult<
    Vec<NoteDecl>,
>)
    ensures
        match r {
            Ok(notes) => resolve_staff(old(state)@, staff_view(staff@)) == Ok::<
                (StateView, Seq<NoteDeclView>),
                CompileErrorView,
            >((final(state)@, notes_view(notes@))),
            Err(e) => resolve_staff(old(state)@, staff_view(staff@)) == Err::<
                (StateView, Seq<NoteDeclView>),
                CompileErrorView,
            >(e@),
        },
        r matches Err(e) ==> e is InvalidSyntax,
{
    let ghost nodes = staff_view(staff@);
    let ghost start = state@;
    let mut notes: Vec<NoteDecl> = Vec::new();
    let mut i: usize = 0;
    assert(notes_view(notes@) == Seq::<NoteDeclView>::empty());
    while i < staff.len()
        invariant
            i <= staff.len(),
            nodes == staff_view(staff@),
            start == old(state)@,
            resolve_staff(start, nodes.take(i as int)) == Ok::<
                (StateView, Seq<NoteDeclView>),
                CompileErrorView,
            >((state@, notes_view(notes@))),
        decreases staff.len() - i,
    {
        proof {
            assert(nodes.take(i + 1).drop_last() == nodes.take(i as int));
            assert(nodes.take(i + 1).last() == staff@[i as int]@);
        }
        let ghost before = notes@;
        match &staff[i] {
            StaffNode::Note { literal, note } => {
                let decl = NoteDecl {
                    note: note.clone(),
                    note_literal: literal.clone(),
                    tone_id: state.tone_id,
                };
                notes.push(decl);
                assert(notes_view(notes@) == notes_view(before).push(decl@));
            },
            StaffNode::AbsolutePitch { pitch, .. } => {
                state.tone_id = *pitch;
            },
            StaffNode::ScaleDegree { literal, degree } => {
                match try_sample_scale(&state.scale, *degree) {
                    Some(tone) => {
                        state.tone_id = tone;
                    },
                    None => {
                        proof {
                            lemma_staff_error_stays(start, nodes, i + 1);
                        }
                        return Err(CompileError::InvalidSyntax(literal.clone()));
                    },
                }
            },
            StaffNode::Track { track_id, .. } => {
                state.track = *track_id;
            },
            StaffNode::MeasureBar { literal, .. } => {
                proof {
                    lemma_staff_error_stays(start, nodes, i + 1);
                }
                return Err(CompileError::InvalidSyntax(literal.clone()));
            },
            StaffNode::Endline { literal } => {
                proof {
                    lemma_staff_error_stays(start, nodes, i + 1);
                }
                return Err(CompileError::InvalidSyntax(literal.clone()));
            },
        }
        i = i + 1;
    }
    proof {
        assert(nodes.take(staff.len() as int) == nodes);
    }
    Ok(notes)
}

/// An error among the first elements of a staff is the staff's error.
pub proof fn lemma_staff_error_stays(state: StateView, staff: Seq<StaffNodeView>, n: int)
    requires
        0 <= n <= staff.len(),
        resolve_staff(state, staff.take(n)) is Err,
    ensures
        resolve_staff(state, staff) == resolve_staff(state, staff.take(n)),
    decreases staff.len() - n,
{
    if n < staff.len() {
        assert(staff.take(n + 1).drop_last() == staff.take(n));
        lemma_staff_error_stays(state, staff, n + 1);
    } else {
        assert(staff.take(n) == staff);
    }
}

/// Adds a measure to the tracks: to the track it names, or as a new track.
pub fn push_measure(tracks: &mut Vec<Track>, measure: Measure)
    ensures
        tracks_view(final(tracks)@) == add_measure(tracks_view(old(tracks)@), measure@),
{
    let ghost before = tracks_view(tracks@);
    let id: u32 = measure.track;
    let mut i: usize = 0;
    while i < tracks.len() && tracks[i].id < id
        invariant
            i <= tracks.len(),
            before == tracks_view(tracks@),
            track_slot(before, id, 0) == track_slot(before, id, i as int),
        decreases tracks.len() - i,
    {
        i = i + 1;
    }
    if i < tracks.len() && tracks[i].id == id {
        let ghost old_tracks = tracks@;
        let ghost old_measures = tracks@[i as int].measures@;
        tracks[i].measures.push(measure);
        proof {
            assert(measures_view(old_measures.push(measure)) == measures_view(old_measures).push(
                measure@,
            ));
            assert(tracks_view(tracks@) =~= add_measure(before, measure@));
        }
    } else {
        let ghost old_tracks = tracks@;
        let mut measures: Vec<Measure> = Vec::new();
        measures.push(measure);
        let track = Track { id, measures };
        proof {
            assert(track@.measures =~= seq![measure@]);
        }
        tracks.insert(i, track);
        proof {
            assert(tracks_view(tracks@) =~= add_measure(before, measure@));
        }
    }
}

/// An error among the first measures of a section is the section's error.
pub proof fn lemma_measures_error_stays(state: StateView, nodes: Seq<MeasureNodeView>, n: int)
    requires
        0 <= n <= nodes.len(),
        resolve_measures(state, nodes.take(n)) is Err,
    ensures
        resolve_measures(state, nodes) == resolve_measures(state, nodes.take(n)),
    decreases nodes.len() - n,
{
    if n < nodes.len() {
        assert(nodes.take(n + 1).drop_last() == nodes.take(n));
        lemma_measures_error_stays(state, nodes, n + 1);
    } else {
        assert(nodes.take(n) == nodes);
    }
}

/// Resolves the measures of a section into tracks.
pub fn run_measures(measures: &Vec<MeasureNode>, state: &mut CompositionState) -> (r:
    CompileResult<Vec<Track>>)
    ensures
        match r {
            Ok(tracks) => resolve_measures(old(state)@, measure_nodes_view(measures@)) == Ok::<
                (StateView, Seq<TrackView>),
                CompileErrorView,
            >((final(state)@, tracks_view(tracks@))),
            Err(e) => resolve_measures(old(state)@, measure_nodes_view(measures@)) == Err::<
                (StateView, Seq<TrackView>),
                CompileErrorView,
            >(e@),
        },
        r matches Err(e) ==> e is InvalidSyntax,
{
    let ghost nodes = measure_nodes_view(measures@);
    let ghost start = state@;
    let mut tracks: Vec<Track> = Vec::new();
    let mut i: usize = 0;
    assert(tracks_view(tracks@) == Seq::<TrackView>::empty());
    while i < measures.len()
        invariant
            i <= measures.len(),
            nodes == measure_nodes_view(measures@),
            start == old(state)@,
            resolve_measures(start, nodes.take(i as int)) == Ok::<
                (StateView, Seq<TrackView>),
                CompileErrorView,
            >((state@, tracks_view(tracks@))),
        decreases measures.len() - i,
    {
        proof {
            assert(nodes.take(i + 1).drop_last() == nodes.take(i as int));
            assert(nodes.take(i + 1).last() == measures@[i as int]@);
        }
        let node = &measures[i];
        match run_staff(&node.staff, state) {
            Ok(notes) => {
                if notes.len() > 0 {
                    let measure = Measure {
                        start: node.start.clone(),
                        end: node.end.clone(),
                        close: node.close,
                        open: node.open,
                        track: state.track,
                        notes,
                    };
                    push_measure(&mut tracks, measure);
                }
            },
            Err(e) => {
                proof {
                    lemma_measures_error_stays(start, nodes, i + 1);
                }
                return Err(e);
            },
        }
        i = i + 1;
    }
    proof {
        assert(nodes.take(measures.len() as int) == nodes);
    }
    Ok(tracks)
}

/// The beats of the notes are none at all, or exactly `numerator` beats.
pub open spec fn beats_are(notes: Seq<NoteDeclView>, numerator: nat) -> bool {
    exact_total(notes).numer == 0 || same_value(exact_total(notes), whole(numerator))
}

/// Every measure has no beats at all or exactly `numerator` beats.
pub open spec fn measures_hold(measures: Seq<MeasureView>, numerator: nat) -> bool {
    forall|k: int| 0 <= k < measures.len() ==> beats_are((#[trigger] measures[k]).notes, numerator)
}

/// Every measure of every track has no beats at all or exactly `numerator`
/// beats.
pub open spec fn tracks_hold(tracks: Seq<TrackView>, numerator: nat) -> bool {
    forall|i: int| 0 <= i < tracks.len() ==> measures_hold((#[trigger] tracks[i]).measures, numerator)
}

/// Every measure of a section that has a time signature has no beats at all
/// or exactly as many as the numerator of the signature.
pub open spec fn section_holds(section: SectionView) -> bool {
    section.time_signature matches Some(signature) ==> tracks_hold(
        section.tracks,
        signature.1.0 as nat,
    )
}

/// An offence among the first measures is the offence of them all.
pub proof fn lemma_measures_offence_stays(
    measures: Seq<MeasureView>,
    signature: (LiteralView, TimeSignature),
    n: int,
)
    requires
        0 <= n <= measures.len(),
        measures_offence(measures.take(n), signature) is Some,
    ensures
        measures_offence(measures, signature) == measures_offence(measures.take(n), signature),
    decreases measures.len() - n,
{
    if n < measures.len() {
        assert(measures.take(n + 1).drop_last() == measures.take(n));
        lemma_measures_offence_stays(measures, signature, n + 1);
    } else {
        assert(measures.take(n) == measures);
    }
}

/// An offence among the first tracks is the offence of them all.
pub proof fn lemma_tracks_offence_stays(
    tracks: Seq<TrackView>,
    signature: (LiteralView, TimeSignature),
    n: int,
)
    requires
        0 <= n <= tracks.len(),
        tracks_offence(tracks.take(n), signature) is Some,
    ensures
        tracks_offence(tracks, signature) == tracks_offence(tracks.take(n), signature),
    decreases tracks.len() - n,
{
    if n < tracks.len() {
        assert(tracks.take(n + 1).drop_last() == tracks.take(n));
        lemma_tracks_offence_stays(tracks, signature, n + 1);
    } else {
        assert(tracks.take(n) == tracks);
    }
}

/// Holds the measures of one track to a time signature.
pub fn check_measures(measures: &Vec<Measure>, signature: &(Literal, TimeSignature)) -> (r:
    CompileResult<()>)
    ensures
        match r {
            Ok(_) => measures_offence(measures_view(measures@), (signature.0@, signature.1))
                is None,
            Err(e) => measures_offence(measures_view(measures@), (signature.0@, signature.1))
                == Some(e@),
        },
        r is Ok ==> measures_hold(measures_view(measures@), signature.1.0 as nat),
        r matches Err(CompileError::TimeSignatureViolation { measure, time_signature, nominal })
            ==> !beats_are(measure@.notes, nominal.0 as nat),
{
    let ghost views = measures_view(measures@);
    let ghost sig = (signature.0@, signature.1);
    let mut i: usize = 0;
    while i < measures.len()
        invariant
            i <= measures.len(),
            views == measures_view(measures@),
            sig == (signature.0@, signature.1),
            measures_offence(views.take(i as int), sig) is None,
            forall|k: int| 0 <= k < i ==> beats_are((#[trigger] views[k]).notes, sig.1.0 as nat),
        decreases measures.len() - i,
    {
        proof {
            assert(views.take(i + 1).drop_last() == views.take(i as int));
            assert(views.take(i + 1).last() == measures@[i as int]@);
        }
        let measure = &measures[i];
        match measure.count_beats() {
            None => {
                proof {
                    lemma_measures_offence_stays(views, sig, i + 1);
                }
                return Err(CompileError::Generic("beat count overflow".to_owned()));
            },
            Some(total) => {
                if !total.is_whole(0) && !total.is_whole(signature.1.0 as u64) {
                    proof {
                        lemma_measures_offence_stays(views, sig, i + 1);
                        let exact = exact_total(views[i as int].notes);
                        if same_value(exact, whole(sig.1.0 as nat)) {
                            lemma_same_value_transitive(total@, exact, whole(sig.1.0 as nat));
                        }
                        if exact.numer == 0 {
                            assert(total@.numer == 0) by (nonlinear_arith)
                                requires
                                    total@.numer * exact.denom == exact.numer * total@.denom,
                                    exact.numer == 0,
                                    exact.denom > 0,
                            ;
                        }
                    }
                    return Err(
                        CompileError::TimeSignatureViolation {
                            measure: measure.clone(),
                            time_signature: signature.0.clone(),
                            nominal: signature.1,
                        },
                    );
                }
                proof {
                    let exact = exact_total(views[i as int].notes);
                    if total@ == whole(0) {
                        assert(exact.numer == 0) by (nonlinear_arith)
                            requires
                                total@.numer * exact.denom == exact.numer * total@.denom,
                                total@.numer == 0,
                                total@.denom == 1,
                        ;
                    }
                }
            },
        }
        i = i + 1;
    }
    proof {
        assert(views.take(measures.len() as int) == views);
    }
    Ok(())
}

/// Holds every measure of every track to a time signature.
pub fn check_time_signature(tracks: &Vec<Track>, signature: &(Literal, TimeSignature)) -> (r:
    CompileResult<()>)
    ensures
        match r {
            Ok(_) => tracks_offence(tracks_view(tracks@), (signature.0@, signature.1)) is None,
            Err(e) => tracks_offence(tracks_view(tracks@), (signature.0@, signature.1)) == Some(
                e@,
            ),
        },
        r is Ok ==> tracks_hold(tracks_view(tracks@), signature.1.0 as nat),
        r matches Err(CompileError::TimeSignatureViolation { measure, time_signature, nominal })
            ==> !beats_are(measure@.notes, nominal.0 as nat),
{
    let ghost views = tracks_view(tracks@);
    let ghost sig = (signature.0@, signature.1);
    let mut i: usize = 0;
    while i < tracks.len()
        invariant
            i <= tracks.len(),
            views == tracks_view(tracks@),
            sig == (signature.0@, signature.1),
            tracks_offence(views.take(i as int), sig) is None,
            forall|k: int|
                0 <= k < i ==> measures_hold((#[trigger] views[k]).measures, sig.1.0 as nat),
        decreases tracks.len() - i,
    {
        proof {
            assert(views.take(i + 1).drop_last() == views.take(i as int));
            assert(views.take(i + 1).last() == tracks@[i as int]@);
        }
        match check_measures(&tracks[i].measures, signature) {
            Ok(_) => {},
            Err(e) => {
                proof {
                    lemma_tracks_offence_stays(views, sig, i + 1);
                }
                return Err(e);
            },
        }
        i = i + 1;
    }
    proof {
        assert(views.take(tracks.len() as int) == views);
    }
    Ok(())
}

/// A count error among the first tracks is the count error of them all.
pub proof fn lemma_count_error_stays(tracks: Seq<TrackView>, n: int, m: int)
    requires
        0 <= n <= m,
        count_error(tracks, n) is Some,
    ensures
        count_error(tracks, m) == count_error(tracks, n),
    decreases m - n,
{
    if n < m {
        lemma_count_error_stays(tracks, n, m - 1);
    }
}

/// Holds the tracks of a section to one measure count.
pub fn assert_consistent_measure_counts(section: &Section) -> (r: CompileResult<()>)
    ensures
        match r {
            Ok(_) => count_error(section@.tracks, section@.tracks.len() as int) is None,
            Err(e) => count_error(section@.tracks, section@.tracks.len() as int) == Some(e@),
        },
        r matches Err(e) ==> e is EmptyTrack || e is DifferingMeasureCounts,
{
    let ghost views = section@.tracks;
    let mut i: usize = 0;
    while i < section.tracks.len()
        invariant
            i <= section.tracks.len(),
            views == tracks_view(section.tracks@),
            count_error(views, i as int) is None,
        decreases section.tracks.len() - i,
    {
        let track = &section.tracks[i];
        assert(views[i as int] == track@);
        assert(views[0] == section.tracks@[0]@);
        if track.measures.len() == 0 {
            proof {
                lemma_count_error_stays(views, i + 1, views.len() as int);
            }
            return Err(CompileError::EmptyTrack(track.id));
        }
        let first = &section.tracks[0];
        if track.measures.len() != first.measures.len() {
            proof {
                lemma_count_error_stays(views, i + 1, views.len() as int);
            }
            return Err(
                CompileError::DifferingMeasureCounts(
                    first.id,
                    first.measures.len(),
                    track.id,
                    track.measures.len(),
                ),
            );
        }
        i = i + 1;
    }
    Ok(())
}

/// Resolves one section of the tree from the state that the sections before
/// it have left.
pub fn make_section(id: u32, section: &SectionNode, state: &mut CompositionState) -> (r:
    CompileResult<Section>)
    ensures
        match r {
            Ok(s) => resolve_section(id, section@, old(state)@) == Ok::<
                (SectionView, StateView),
                CompileErrorView,
            >((s@, final(state)@)),
            Err(e) => resolve_section(id, section@, old(state)@) == Err::<
                (SectionView, StateView),
                CompileErrorView,
            >(e@),
        },
        r matches Ok(s) ==> section_holds(s@),
        r matches Err(CompileError::TimeSignatureViolation { measure, time_signature, nominal })
            ==> !beats_are(measure@.notes, nominal.0 as nat),
{
    run_preamble(&section.preamble, state);
    let tracks = match run_measures(&section.measures, state) {
        Ok(tracks) => tracks,
        Err(e) => {
            return Err(e);
        },
    };
    let time_signature = match &state.time_signature {
        Some(signature) => {
            match check_time_signature(&tracks, signature) {
                Ok(_) => {},
                Err(e) => {
                    return Err(e);
                },
            }
            Some((signature.0.clone(), signature.1))
        },
        None => None,
    };
    let s = Section {
        id,
        name: section.name.clone(),
        tempo: state.tempo,
        dynamic: state.dynamic,
        scale: state.scale.clone(),
        time_signature,
        tracks,
    };
    match assert_consistent_measure_counts(&s) {
        Ok(_) => {},
        Err(e) => {
            return Err(e);
        },
    }
    Ok(s)
}

/// An error among the first sections of a tree is the tree's error.
pub proof fn lemma_sections_error_stays(nodes: Seq<SectionNodeView>, state: StateView, n: int)
    requires
        0 <= n <= nodes.len(),
        resolve_sections(nodes.take(n), state) is Err,
    ensures
        resolve_sections(nodes, state) == resolve_sections(nodes.take(n), state),
    decreases nodes.len() - n,
{
    if n < nodes.len() {
        assert(nodes.take(n + 1).drop_last() == nodes.take(n));
        lemma_sections_error_stays(nodes, state, n + 1);
    } else {
        assert(nodes.take(n) == nodes);
    }
}

/// Resolves a tree into a composition.
pub fn do_semantics(tree: &AST) -> (r: CompileResult<Composition>)
    ensures
        match r {
            Ok(c) => resolve(tree_view(tree@)) == Ok::<Seq<SectionView>, CompileErrorView>(c@),
            Err(e) => resolve(tree_view(tree@)) == Err::<Seq<SectionView>, CompileErrorView>(e@),
        },
        r matches Ok(c) ==> forall|i: int| 0 <= i < c@.len() ==> section_holds(#[trigger] c@[i]),
        r matches Err(CompileError::TimeSignatureViolation { measure, time_signature, nominal })
            ==> !beats_are(measure@.notes, nominal.0 as nat),
{
    if tree.len() > u32::MAX as usize {
        return Err(CompileError::Generic("too many sections".to_owned()));
    }
    let ghost nodes = tree_view(tree@);
    let mut state = CompositionState::defaults();
    let mut sections: Vec<Section> = Vec::new();
    let mut i: usize = 0;
    assert(sections_view(sections@) == Seq::<SectionView>::empty());
    while i < tree.len()
        invariant
            i <= tree.len() <= u32::MAX,
            nodes == tree_view(tree@),
            resolve_sections(nodes.take(i as int), default_state()) == Ok::<
                (Seq<SectionView>, StateView),
                CompileErrorView,
            >((sections_view(sections@), state@)),
            forall|k: int|
                0 <= k < sections@.len() ==> section_holds(#[trigger] sections_view(sections@)[k]),
        decreases tree.len() - i,
    {
        proof {
            assert(nodes.take(i + 1).drop_last() == nodes.take(i as int));
            assert(nodes.take(i + 1).last() == tree@[i as int]@);
        }
        let ghost before = sections@;
        match make_section(i as u32, &tree[i], &mut state) {
            Ok(section) => {
                sections.push(section);
                assert(sections_view(sections@) == sections_view(before).push(section@));
            },
            Err(e) => {
                proof {
                    lemma_sections_error_stays(nodes, default_state(), i + 1);
                }
                return Err(e);
            },
        }
        i = i + 1;
    }
    proof {
        assert(nodes.take(tree.len() as int) == nodes);
    }
    Ok(Composition { sections })
}

} // verus!
