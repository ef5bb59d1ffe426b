//! What holds of every composition that the tree of a source resolves to.

use crate::parser::MeasureNodeView;
use crate::parser::SectionNodeView;
use crate::semantics::add_measure;
use crate::semantics::count_error;
use crate::semantics::resolve;
use crate::semantics::resolve_measure;
use crate::semantics::resolve_measures;
use crate::semantics::resolve_section;
use crate::semantics::resolve_sections;
use crate::semantics::track_count_error;
use crate::semantics::track_slot;
use crate::semantics::StateView;
use crate::semantics::TrackView;
use crate::types::MeasureView;
use vstd::prelude::*;

verus! {

/// The tracks stand in ascending order of their ids, so no id occurs twice.
pub open spec fn tracks_ascending(tracks: Seq<TrackView>) -> bool {
    forall|i: int, j: int| 0 <= i < j < tracks.len() ==> tracks[i].id < tracks[j].id
}

/// Every measure of the track names the track and has a note.
pub open spec fn track_is_sound(track: TrackView) -> bool {
    forall|k: int|
        0 <= k < track.measures.len() ==> (#[trigger] track.measures[k]).track == track.id
            && track.measures[k].notes.len() > 0
}

/// The tracks are in order, each has a measure, and every measure stands in
/// its own track and has a note.
pub open spec fn tracks_are_sound(tracks: Seq<TrackView>) -> bool {
    &&& tracks_ascending(tracks)
    &&& forall|i: int|
        0 <= i < tracks.len() ==> track_is_sound(#[trigger] tracks[i]) && tracks[i].measures.len()
            > 0
}

/// Every track has as many measures as the first.
pub open spec fn counts_agree(tracks: Seq<TrackView>) -> bool {
    forall|i: int|
        0 <= i < tracks.len() ==> (#[trigger] tracks[i]).measures.len()
            == tracks[0].measures.len()
}

/// The place that `track_slot` finds lies among the tracks; the tracks
/// before it have smaller ids, and the track at it has none.
pub proof fn lemma_track_slot(tracks: Seq<TrackView>, id: u32, from: int)
    requires
        0 <= from <= tracks.len(),
    ensures
        from <= track_slot(tracks, id, from) <= tracks.len(),
        forall|i: int| from <= i < track_slot(tracks, id, from) ==> tracks[i].id < id,
        track_slot(tracks, id, from) < tracks.len() ==> tracks[track_slot(tracks, id, from)].id
            >= id,
    decreases tracks.len() - from,
{
    if from < tracks.len() && tracks[from].id < id {
        lemma_track_slot(tracks, id, from + 1);
    }
}

/// A measure with a note, added to sound tracks, leaves them sound.
pub proof fn lemma_add_measure_sound(tracks: Seq<TrackView>, measure: MeasureView)
    requires
        tracks_are_sound(tracks),
        measure.notes.len() > 0,
    ensures
        tracks_are_sound(add_measure(tracks, measure)),
{
    lemma_track_slot(tracks, measure.track, 0);
    let slot = track_slot(tracks, measure.track, 0);
    let after = add_measure(tracks, measure);
    if slot < tracks.len() && tracks[slot].id == measure.track {
        assert forall|i: int| 0 <= i < after.len() implies track_is_sound(#[trigger] after[i])
            && after[i].measures.len() > 0 by {
            if i != slot {
                assert(after[i] == tracks[i]);
            } else {
                assert(track_is_sound(tracks[slot]));
                assert forall|k: int| 0 <= k < after[i].measures.len() implies (
                #[trigger] after[i].measures[k]).track == after[i].id
                    && after[i].measures[k].notes.len() > 0 by {
                    if k < tracks[slot].measures.len() {
                        assert(after[i].measures[k] == tracks[slot].measures[k]);
                    }
                }
            }
        }
        assert forall|i: int, j: int| 0 <= i < j < after.len() implies after[i].id
            < after[j].id by {
            assert(after[i].id == tracks[i].id);
            assert(after[j].id == tracks[j].id);
        }
    } else {
        let new_track = TrackView { id: measure.track, measures: seq![measure] };
        assert(after == tracks.insert(slot, new_track));
        assert forall|i: int| 0 <= i < after.len() implies track_is_sound(#[trigger] after[i])
            && after[i].measures.len() > 0 by {
            if i < slot {
                assert(after[i] == tracks[i]);
            } else if i == slot {
                assert(after[i] == new_track);
            } else {
                assert(after[i] == tracks[i - 1]);
            }
        }
        assert forall|i: int, j: int| 0 <= i < j < after.len() implies after[i].id
            < after[j].id by {
            let a = if i < slot {
                tracks[i].id
            } else if i == slot {
                measure.track
            } else {
                tracks[i - 1].id
            };
            let b = if j < slot {
                tracks[j].id
            } else if j == slot {
                measure.track
            } else {
                tracks[j - 1].id
            };
            assert(after[i].id == a);
            assert(after[j].id == b);
            if j > slot {
                assert(tracks[slot].id <= tracks[j - 1].id) by {
                    if slot < j - 1 {
                    }
                }
            }
        }
    }
}

/// The tracks that the measures of a section resolve to are sound.
pub proof fn lemma_resolved_measures_sound(state: StateView, nodes: Seq<MeasureNodeView>)
    ensures
        resolve_measures(state, nodes) matches Ok(pair) ==> tracks_are_sound(pair.1),
    decreases nodes.len(),
{
    if nodes.len() > 0 {
        lemma_resolved_measures_sound(state, nodes.drop_last());
        match resolve_measures(state, nodes.drop_last()) {
            Ok(before) => {
                match resolve_measure(before.0, before.1, nodes.last()) {
                    Ok(after) => {
                        if after.1 != before.1 {
                            let staff = crate::semantics::resolve_staff(
                                before.0,
                                nodes.last().staff,
                            );
                            let measure = MeasureView {
                                start: nodes.last().start,
                                end: nodes.last().end,
                                close: nodes.last().close,
                                open: nodes.last().open,
                                track: staff->Ok_0.0.track,
                                notes: staff->Ok_0.1,
                            };
                            lemma_add_measure_sound(before.1, measure);
                        }
                    },
                    Err(_) => {},
                }
            },
            Err(_) => {},
        }
    }
}

/// Where no track has a count error, every track has a measure and as many
/// measures as the first.
pub proof fn lemma_no_count_error(tracks: Seq<TrackView>, n: int)
    requires
        0 <= n <= tracks.len(),
        count_error(tracks, n) is None,
    ensures
        forall|i: int|
            0 <= i < n ==> (#[trigger] tracks[i]).measures.len() == tracks[0].measures.len()
                && tracks[i].measures.len() > 0,
    decreases n,
{
    if n > 0 {
        lemma_no_count_error(tracks, n - 1);
        assert(track_count_error(tracks, n - 1) is None);
    }
}

/// Tracks with differing measure counts have a count error, and it names the
/// first track and the first track that differs from it.
pub proof fn lemma_differing_counts_are_an_error(tracks: Seq<TrackView>, i: int)
    requires
        0 < i < tracks.len(),
        forall|k: int| 0 <= k < tracks.len() ==> (#[trigger] tracks[k]).measures.len() > 0,
        forall|k: int|
            0 <= k < i ==> (#[trigger] tracks[k]).measures.len() == tracks[0].measures.len(),
        tracks[i].measures.len() != tracks[0].measures.len(),
    ensures
        count_error(tracks, tracks.len() as int) == Some(
            crate::types::CompileErrorView::DifferingMeasureCounts(
                tracks[0].id,
                tracks[0].measures.len() as usize,
                tracks[i].id,
                tracks[i].measures.len() as usize,
            ),
        ),
{
    lemma_count_error_prefix_clean(tracks, i);
    crate::semantics::lemma_count_error_stays(tracks, i + 1, tracks.len() as int);
}

/// Tracks that all have a measure and as many as the first have no count
/// error.
pub proof fn lemma_count_error_prefix_clean(tracks: Seq<TrackView>, n: int)
    requires
        0 <= n <= tracks.len(),
        forall|k: int|
            0 <= k < n ==> (#[trigger] tracks[k]).measures.len() == tracks[0].measures.len()
                && tracks[k].measures.len() > 0,
    ensures
        count_error(tracks, n) is None,
    decreases n,
{
    if n > 0 {
        lemma_count_error_prefix_clean(tracks, n - 1);
    }
}

/// A section that resolves is sound: it has the id and the name it was given,
/// its tracks are in order and hold only measures of their own with notes,
/// and all its tracks have the same number of measures.
pub proof fn lemma_resolved_section_sound(id: u32, node: SectionNodeView, state: StateView)
    ensures
        resolve_section(id, node, state) matches Ok(pair) ==> pair.0.id == id && pair.0.name
            == node.name && tracks_are_sound(pair.0.tracks) && counts_agree(pair.0.tracks),
{
    let start = crate::semantics::apply_preamble(state, node.preamble);
    lemma_resolved_measures_sound(start, node.measures);
    match resolve_section(id, node, state) {
        Ok(pair) => {
            lemma_no_count_error(pair.0.tracks, pair.0.tracks.len() as int);
        },
        Err(_) => {},
    }
}

/// The sections that a tree resolves to are as many as the tree's, each is
/// numbered by its place, and each is sound.
pub proof fn lemma_resolved_sections_sound(nodes: Seq<SectionNodeView>, state: StateView)
    requires
        nodes.len() <= u32::MAX,
    ensures
        resolve_sections(nodes, state) matches Ok(pair) ==> pair.0.len() == nodes.len() && forall|
            i: int,
        |
            0 <= i < nodes.len() ==> (#[trigger] pair.0[i]).id == i && pair.0[i].name
                == nodes[i].name && tracks_are_sound(pair.0[i].tracks) && counts_agree(
                pair.0[i].tracks,
            ),
    decreases nodes.len(),
{
    if nodes.len() > 0 {
        lemma_resolved_sections_sound(nodes.drop_last(), state);
        match resolve_sections(nodes.drop_last(), state) {
            Ok(before) => {
                lemma_resolved_section_sound((nodes.len() - 1) as u32, nodes.last(), before.1);
            },
            Err(_) => {},
        }
    }
}

/// Every composition is sound: it has a section for each section of the
/// tree, numbered from zero in the tree's order, and in each section the
/// tracks are in ascending order of their ids, every measure stands in the
/// track it names and has a note, and all tracks have the same number of
/// measures, which is not zero.
pub proof fn lemma_composition_sound(tree: Seq<SectionNodeView>)
    ensures
        resolve(tree) matches Ok(sections) ==> sections.len() == tree.len() && forall|i: int|
            0 <= i < tree.len() ==> (#[trigger] sections[i]).id == i && sections[i].name
                == tree[i].name && tracks_are_sound(sections[i].tracks) && counts_agree(
                sections[i].tracks,
            ),
{
    if tree.len() <= u32::MAX {
        lemma_resolved_sections_sound(tree, crate::semantics::default_state());
    }
}

} // verus!
