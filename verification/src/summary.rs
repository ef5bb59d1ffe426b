//! A resolved section as text: its settings on one line, then one line for
//! each measure.

use crate::report::beats_text;
use crate::semantics::measures_view;
use crate::semantics::tracks_view;
use crate::semantics::Section;
use crate::semantics::SectionView;
use crate::semantics::TrackView;
use crate::text::decimal_text;
use crate::text::push_decimal;
use crate::types::beats_total;
use crate::types::notes_view;
use crate::types::DynamicLevel;
use crate::types::LiteralView;
use crate::types::Measure;
use crate::types::MeasureView;
use crate::types::NoteDeclView;
use crate::types::TimeSignature;
use vstd::prelude::*;
use vstd::string::*;

verus! {

/// The name of a dynamic level.
pub open spec fn dynamic_name(level: DynamicLevel) -> Seq<char> {
    match level {
        DynamicLevel::Pianissimo => "Pianissimo"@,
        DynamicLevel::Piano => "Piano"@,
        DynamicLevel::Mezzopiano => "Mezzopiano"@,
        DynamicLevel::Mezzoforte => "Mezzoforte"@,
        DynamicLevel::Forte => "Forte"@,
        DynamicLevel::Fortissimo => "Fortissimo"@,
    }
}

/// A time signature, or the word for none.
pub open spec fn signature_text(signature: Option<(LiteralView, TimeSignature)>) -> Seq<char> {
    match signature {
        Some(pair) => "Some(("@ + decimal_text(pair.1.0 as nat) + ", "@ + decimal_text(
            pair.1.1 as nat,
        ) + "))"@,
        None => "None"@,
    }
}

/// The symbols that the notes were read from, with a space after each.
pub open spec fn note_words(notes: Seq<NoteDeclView>) -> Seq<char>
    decreases notes.len(),
{
    if notes.len() == 0 {
        Seq::empty()
    } else {
        note_words(notes.drop_last()) + notes.last().note_literal.literal + " "@
    }
}

/// The line of a measure: its track, its beats and its notes.
pub open spec fn resolved_measure_text(measure: MeasureView) -> Seq<char> {
    "  [measure] [track \""@ + decimal_text(measure.track as nat) + "\"] ("@ + beats_text(
        beats_total(measure.notes),
    ) + " beats) "@ + note_words(measure.notes)
}

/// The lines of the measures of a track, each after a line feed.
pub open spec fn resolved_measure_lines(measures: Seq<MeasureView>) -> Seq<char>
    decreases measures.len(),
{
    if measures.len() == 0 {
        Seq::empty()
    } else {
        resolved_measure_lines(measures.drop_last()) + "\n"@ + resolved_measure_text(
            measures.last(),
        )
    }
}

/// The lines of the measures of the tracks of a section, track by track.
pub open spec fn track_lines(tracks: Seq<TrackView>) -> Seq<char>
    decreases tracks.len(),
{
    if tracks.len() == 0 {
        Seq::empty()
    } else {
        track_lines(tracks.drop_last()) + resolved_measure_lines(tracks.last().measures)
    }
}

/// The first line of a section: its number, name, tempo, dynamic, scale and
/// time signature.
pub open spec fn section_head(section: SectionView) -> Seq<char> {
    "[section] \""@ + decimal_text(section.id as nat) + "\", "@ + section.name + ", "@
        + decimal_text(section.tempo as nat) + " bpm, "@ + dynamic_name(section.dynamic) + ", "@
        + section.scale.name + ", "@ + signature_text(section.time_signature)
}

/// The text of a section.
pub open spec fn resolved_section_text(section: SectionView) -> Seq<char> {
    section_head(section) + track_lines(section.tracks)
}

/// The line of a measure.
fn measure_line(measure: &Measure) -> (r: String)
    ensures
        r@ == resolved_measure_text(measure@),
{
    let ghost notes = notes_view(measure.notes@);
    let mut out = String::new();
    out.append("  [measure] [track \"");
    push_decimal(&mut out, measure.track as u64);
    out.append("\"] (");
    match measure.count_beats() {
        Some(total) => {
            push_decimal(&mut out, total.numer());
            if total.denom() != 1 {
                out.append("/");
                push_decimal(&mut out, total.denom());
            }
        },
        None => {
            out.append("?");
        },
    }
    out.append(" beats) ");
    let ghost head = out@;
    assert(head =~= "  [measure] [track \""@ + decimal_text(measure.track as nat) + "\"] ("@
        + beats_text(beats_total(notes)) + " beats) "@);
    let mut i: usize = 0;
    assert(out@ =~= head + note_words(notes.take(0)));
    while i < measure.notes.len()
        invariant
            i <= measure.notes.len(),
            notes == notes_view(measure.notes@),
            out@ == head + note_words(notes.take(i as int)),
        decreases measure.notes.len() - i,
    {
        proof {
            assert(notes.take(i + 1).drop_last() == notes.take(i as int));
            assert(notes.take(i + 1).last() == measure.notes@[i as int]@);
        }
        out.append(measure.notes[i].note_literal.literal.as_str());
        out.append(" ");
        assert(out@ =~= head + note_words(notes.take(i + 1)));
        i = i + 1;
    }
    assert(notes.take(measure.notes.len() as int) == notes);
    out
}

impl Section {
    /// The section as text.
    pub fn to_string(&self) -> (r: String)
        ensures
            r@ == resolved_section_text(self@),
    {
        let ghost tracks = tracks_view(self.tracks@);
        let mut out = String::new();
        out.append("[section] \"");
        push_decimal(&mut out, self.id as u64);
        out.append("\", ");
        out.append(self.name.as_str());
        out.append(", ");
        push_decimal(&mut out, self.tempo as u64);
        out.append(" bpm, ");
        out.append(
            match self.dynamic {
                DynamicLevel::Pianissimo => "Pianissimo",
                DynamicLevel::Piano => "Piano",
                DynamicLevel::Mezzopiano => "Mezzopiano",
                DynamicLevel::Mezzoforte => "Mezzoforte",
                DynamicLevel::Forte => "Forte",
                DynamicLevel::Fortissimo => "Fortissimo",
            },
        );
        out.append(", ");
        out.append(self.scale.name.as_str());
        out.append(", ");
        match &self.time_signature {
            Some(pair) => {
                out.append("Some((");
                push_decimal(&mut out, pair.1.0 as u64);
                out.append(", ");
                push_decimal(&mut out, pair.1.1 as u64);
                out.append("))");
            },
            None => {
                out.append("None");
            },
        }
        let ghost head = out@;
        assert(head =~= section_head(self@));
        let mut i: usize = 0;
        assert(out@ =~= head + track_lines(tracks.take(0)));
        while i < self.tracks.len()
            invariant
                i <= self.tracks.len(),
                tracks == tracks_view(self.tracks@),
                out@ == head + track_lines(tracks.take(i as int)),
            decreases self.tracks.len() - i,
        {
            let track = &self.tracks[i];
            let ghost measures = measures_view(track.measures@);
            let ghost before = out@;
            let mut j: usize = 0;
            assert(out@ =~= before + resolved_measure_lines(measures.take(0)));
            while j < track.measures.len()
                invariant
                    j <= track.measures.len(),
                    measures == measures_view(track.measures@),
                    out@ == before + resolved_measure_lines(measures.take(j as int)),
                decreases track.measures.len() - j,
            {
                let line = measure_line(&track.measures[j]);
                proof {
                    assert(measures.take(j + 1).drop_last() == measures.take(j as int));
                    assert(measures.take(j + 1).last() == track.measures@[j as int]@);
                }
                out.append("\n");
                out.append(line.as_str());
                assert(out@ =~= before + resolved_measure_lines(measures.take(j + 1)));
                j = j + 1;
            }
            proof {
                assert(measures.take(track.measures.len() as int) == measures);
                assert(tracks.take(i + 1).drop_last() == tracks.take(i as int));
                assert(tracks.take(i + 1).last() == self.tracks@[i as int]@);
                assert(out@ =~= head + track_lines(tracks.take(i + 1)));
            }
            i = i + 1;
        }
        assert(tracks.take(self.tracks.len() as int) == tracks);
        out
    }
}

} // verus!
