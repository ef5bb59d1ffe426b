//! From a composition to what the synthesis engine is asked, and from its
//! answers to one song.

use crate::beats::Beats;
use crate::beats::Ratio;
use crate::moonbase::moonbase_text;
use crate::moonbase::to_moonbase_str;
use crate::moonbase::MoonbaseNote;
use crate::moonbase::MoonbaseNoteView;
use crate::semantics::measures_view;
use crate::types::notes_view;
use crate::types::Measure;
use crate::types::MeasureView;
use crate::types::NoteDecl;
use crate::types::NoteDeclView;
use vstd::prelude::*;
use vstd::string::*;

verus! {

/// The milliseconds that `beats` last at `bpm` beats a minute, rounded to
/// the nearest whole number, halves upwards. Without a tempo nothing has an
/// end: no beats last no time, any others for ever.
pub open spec fn beats_millis(beats: Ratio, bpm: int) -> int {
    if bpm == 0 {
        if beats.numer == 0 {
            0
        } else {
            i32::MAX as int
        }
    } else {
        (2 * beats.numer * 60000 + beats.denom * bpm) / (2 * beats.denom * bpm)
    }
}

/// A number of milliseconds as an `i32` can hold it: the number itself, or
/// the largest `i32` where it is larger.
pub open spec fn clamped_millis(millis: int) -> i32 {
    if millis > i32::MAX {
        i32::MAX
    } else {
        millis as i32
    }
}

/// The milliseconds that `beats` last at `bpm` beats a minute.
pub fn bpm_to_millis(beats: &Beats, bpm: u16) -> (r: Option<i32>)
    ensures
        r == Some(clamped_millis(beats_millis(beats@, bpm as int))),
{
    proof {
        use_type_invariant(beats);
        beats.lemma_well_formed();
    }
    let numer: u128 = beats.numer() as u128;
    let denom: u128 = beats.denom() as u128;
    if bpm == 0 {
        return Some(
            if numer == 0 {
                0
            } else {
                i32::MAX
            },
        );
    }
    let tempo: u128 = bpm as u128;
    assert(2 * numer * 60000 <= 2 * 0xffff_ffff_ffff_ffff * 60000) by (nonlinear_arith)
        requires
            numer <= 0xffff_ffff_ffff_ffff,
    ;
    assert(0 < denom * tempo <= 0xffff_ffff_ffff_ffff * 0xffff) by (nonlinear_arith)
        requires
            0 < denom <= 0xffff_ffff_ffff_ffff,
            0 < tempo <= 0xffff,
    ;
    let scaled: u128 = denom * tempo;
    let top: u128 = 2 * numer * 60000 + scaled;
    let bottom: u128 = 2 * scaled;
    let millis: u128 = top / bottom;
    assert(2 * beats@.denom * (bpm as int) == 2 * (beats@.denom * (bpm as int)))
        by (nonlinear_arith);
    if millis > 0x7fff_ffff {
        Some(i32::MAX)
    } else {
        Some(millis as i32)
    }
}

/// What the engine is asked for a resolved note at a tempo.
pub open spec fn moonbase_note(bpm: u16, note: NoteDeclView) -> MoonbaseNoteView {
    MoonbaseNoteView {
        prefix: note.note.prefix,
        suffix: note.note.suffix,
        dur_ms: clamped_millis(beats_millis(note.note.beats, bpm as int)),
        tone_id: note.tone_id,
    }
}

/// What the engine is asked for a resolved note at a tempo.
pub fn to_moonbase_note(bpm: u16, n: &NoteDecl) -> (r: MoonbaseNote)
    ensures
        r@ == moonbase_note(bpm, n@),
{
    let dur_ms: i32 = match bpm_to_millis(&n.note.beats, bpm) {
        Some(ms) => ms,
        None => 0,
    };
    MoonbaseNote {
        prefix: n.note.prefix.clone(),
        suffix: n.note.suffix.clone(),
        dur_ms,
        tone_id: n.tone_id,
    }
}

/// The notes of a measure in the engine's notation, one after the other.
pub open spec fn notes_text(bpm: u16, notes: Seq<NoteDeclView>) -> Seq<char>
    decreases notes.len(),
{
    if notes.len() == 0 {
        Seq::empty()
    } else {
        notes_text(bpm, notes.drop_last()) + moonbase_text(moonbase_note(bpm, notes.last()))
    }
}

/// The measures of a track in the engine's notation, one after the other.
pub open spec fn track_text(bpm: u16, measures: Seq<MeasureView>) -> Seq<char>
    decreases measures.len(),
{
    if measures.len() == 0 {
        Seq::empty()
    } else {
        track_text(bpm, measures.drop_last()) + notes_text(bpm, measures.last().notes)
    }
}

/// What the engine is asked for one track of a section: all notes of all its
/// measures, at the section's tempo.
pub fn track_to_moonbase(bpm: u16, measures: &Vec<Measure>) -> (r: String)
    ensures
        r@ == track_text(bpm, measures_view(measures@)),
{
    let ghost views = measures_view(measures@);
    let mut out = String::new();
    let mut i: usize = 0;
    assert(out@ =~= track_text(bpm, views.take(0)));
    while i < measures.len()
        invariant
            i <= measures.len(),
            views == measures_view(measures@),
            out@ == track_text(bpm, views.take(i as int)),
        decreases measures.len() - i,
    {
        let measure = &measures[i];
        let ghost notes = notes_view(measure.notes@);
        let ghost head = out@;
        let mut j: usize = 0;
        assert(out@ =~= head + notes_text(bpm, notes.take(0)));
        while j < measure.notes.len()
            invariant
                j <= measure.notes.len(),
                notes == notes_view(measure.notes@),
                out@ == head + notes_text(bpm, notes.take(j as int)),
            decreases measure.notes.len() - j,
        {
            let text = to_moonbase_str(&to_moonbase_note(bpm, &measure.notes[j]));
            proof {
                assert(notes.take(j + 1).drop_last() == notes.take(j as int));
                assert(notes.take(j + 1).last() == measure.notes@[j as int]@);
            }
            out.append(text.as_str());
            assert(out@ =~= head + notes_text(bpm, notes.take(j + 1)));
            j = j + 1;
        }
        proof {
            assert(notes.take(measure.notes.len() as int) == notes);
            assert(views.take(i + 1).drop_last() == views.take(i as int));
            assert(views.take(i + 1).last() == measures@[i as int]@);
        }
        i = i + 1;
    }
    assert(views.take(measures.len() as int) == views);
    out
}

/// The length of the shortest of the first `n` clips; the first `n` clips
/// being none, the length of no clip at all, which is zero.
pub open spec fn shortest(clips: Seq<Seq<i16>>, n: int) -> int
    decreases n,
{
    if n <= 0 {
        0
    } else if n == 1 {
        clips[0].len() as int
    } else if clips[n - 1].len() < shortest(clips, n - 1) {
        clips[n - 1].len() as int
    } else {
        shortest(clips, n - 1)
    }
}

/// The sum of sample `i` of the first `n` clips.
pub open spec fn sample_sum(clips: Seq<Seq<i16>>, n: int, i: int) -> int
    decreases n,
{
    if n <= 0 {
        0
    } else {
        sample_sum(clips, n - 1, i) + clips[n - 1][i]
    }
}

/// A sum of samples as a sample can hold it: clipped to the range of `i16`.
pub open spec fn clipped(sum: int) -> i16 {
    if sum > i16::MAX {
        i16::MAX
    } else if sum < i16::MIN {
        i16::MIN
    } else {
        sum as i16
    }
}

/// The shortest clip is no longer than any of the clips.
pub proof fn lemma_shortest(clips: Seq<Seq<i16>>, n: int, k: int)
    requires
        0 <= k < n <= clips.len(),
    ensures
        0 <= shortest(clips, n) <= clips[k].len(),
    decreases n,
{
    if n > 1 {
        if k < n - 1 {
            lemma_shortest(clips, n - 1, k);
        } else {
            lemma_shortest(clips, n - 1, 0);
        }
    }
}

/// The views of a run of clips.
pub open spec fn clips_view(clips: Seq<Vec<i16>>) -> Seq<Seq<i16>> {
    clips.map_values(|c: Vec<i16>| c@)
}

/// Lays the clips of the tracks of a section over each other: sample by
/// sample their sum, clipped, as far as the shortest clip reaches.
pub fn overlay_tracks(tracks: &Vec<Vec<i16>>) -> (r: Vec<i16>)
    ensures
        r.len() == shortest(clips_view(tracks@), tracks.len() as int),
        forall|i: int|
            0 <= i < r.len() ==> #[trigger] r[i] == clipped(
                sample_sum(clips_view(tracks@), tracks.len() as int, i),
            ),
{
    let ghost clips = clips_view(tracks@);
    let mut len: usize = 0;
    let mut k: usize = 0;
    while k < tracks.len()
        invariant
            k <= tracks.len(),
            clips == clips_view(tracks@),
            len == shortest(clips, k as int),
        decreases tracks.len() - k,
    {
        assert(clips[k as int] == tracks@[k as int]@);
        if k == 0 || tracks[k].len() < len {
            len = tracks[k].len();
        }
        k = k + 1;
    }
    let mut out: Vec<i16> = Vec::new();
    let mut i: usize = 0;
    while i < len
        invariant
            i <= len,
            clips == clips_view(tracks@),
            len == shortest(clips, tracks.len() as int),
            out.len() == i,
            forall|p: int|
                0 <= p < i ==> #[trigger] out[p] == clipped(
                    sample_sum(clips, tracks.len() as int, p),
                ),
        decreases len - i,
    {
        let mut sum: i128 = 0;
        let mut j: usize = 0;
        while j < tracks.len()
            invariant
                j <= tracks.len(),
                i < len,
                clips == clips_view(tracks@),
                len == shortest(clips, tracks.len() as int),
                sum == sample_sum(clips, j as int, i as int),
                -32768 * j <= sum <= 32767 * j,
            decreases tracks.len() - j,
        {
            proof {
                lemma_shortest(clips, tracks.len() as int, j as int);
                assert(clips[j as int] == tracks@[j as int]@);
            }
            sum = sum + tracks[j][i] as i128;
            j = j + 1;
        }
        let sample: i16 = if sum > 32767 {
            32767
        } else if sum < -32768 {
            -32768
        } else {
            sum as i16
        };
        out.push(sample);
        i = i + 1;
    }
    out
}

/// The samples of the first `n` clips, one clip after the other.
pub open spec fn appended(clips: Seq<Seq<i16>>, n: int) -> Seq<i16>
    decreases n,
{
    if n <= 0 {
        Seq::empty()
    } else {
        appended(clips, n - 1) + clips[n - 1]
    }
}

/// Puts the clips of the sections of a song one after the other.
pub fn append_tracks(tracks: &Vec<Vec<i16>>) -> (r: Vec<i16>)
    ensures
        r@ == appended(clips_view(tracks@), tracks.len() as int),
{
    let ghost clips = clips_view(tracks@);
    let mut out: Vec<i16> = Vec::new();
    let mut k: usize = 0;
    while k < tracks.len()
        invariant
            k <= tracks.len(),
            clips == clips_view(tracks@),
            out@ == appended(clips, k as int),
        decreases tracks.len() - k,
    {
        let clip = &tracks[k];
        let ghost head = out@;
        assert(clips[k as int] == clip@);
        let mut i: usize = 0;
        while i < clip.len()
            invariant
                i <= clip.len(),
                out@ == head + clip@.take(i as int),
            decreases clip.len() - i,
        {
            out.push(clip[i]);
            assert(clip@.take(i + 1) == clip@.take(i as int).push(clip@[i as int]));
            i = i + 1;
        }
        assert(clip@.take(clip.len() as int) == clip@);
        k = k + 1;
    }
    out
}

} // verus!
