//! The canonical symbol of a token, and that it reads back as the token.

use crate::beats::is_reduced;
use crate::beats::lemma_reduced;
use crate::beats::Ratio;
use crate::lexer::duration_beats;
use crate::lexer::dynamic_level;
use crate::lexer::group_end;
use crate::lexer::group_value;
use crate::lexer::is_duration;
use crate::lexer::is_name_char;
use crate::lexer::is_note_char;
use crate::lexer::lex;
use crate::lexer::named_scale_steps;
use crate::lexer::note_chars_end;
use crate::lexer::note_suffix_end;
use crate::lexer::note_suffix_start;
use crate::lexer::pitch_id;
use crate::lexer::rule_bar;
use crate::lexer::rule_degree;
use crate::lexer::rule_dynamic;
use crate::lexer::rule_note;
use crate::lexer::rule_pitch;
use crate::lexer::rule_rest;
use crate::lexer::rule_scale;
use crate::lexer::rule_section;
use crate::lexer::rule_tempo;
use crate::lexer::rule_time_signature;
use crate::lexer::rule_track;
use crate::lexer::scale_root_end;
use crate::text::decimal_text;
use crate::text::decimal_value;
use crate::text::digit_char;
use crate::text::digits_end;
use crate::text::is_digit;
use crate::text::lemma_decimal_round_trip;
use crate::text::push_decimal;
use crate::text::same_text;
use crate::types::DynamicLevel;
use crate::types::RegoNoteView;
use crate::types::Token;
use crate::types::TokenView;
use crate::types::ToneId;
use vstd::prelude::*;
use vstd::string::*;

verus! {

/// The letter of a semitone of the octave, counted from C.
pub open spec fn semitone_letter(semitone: nat) -> char {
    if semitone <= 1 {
        'C'
    } else if semitone <= 3 {
        'D'
    } else if semitone == 4 {
        'E'
    } else if semitone <= 6 {
        'F'
    } else if semitone <= 8 {
        'G'
    } else if semitone <= 10 {
        'A'
    } else {
        'B'
    }
}

/// The semitones of the octave that are written with a sharp sign.
pub open spec fn semitone_is_sharp(semitone: nat) -> bool {
    semitone == 1 || semitone == 3 || semitone == 6 || semitone == 8 || semitone == 10
}

/// The name of a tone with its octave: letter, octave digit, and a sharp sign
/// where the tone has one.
pub open spec fn pitch_name(tone: u8) -> Seq<char> {
    let semitone = ((tone - 1) % 12) as nat;
    let octave = ((tone - 1) / 12 + 1) as nat;
    if semitone_is_sharp(semitone) {
        seq![semitone_letter(semitone), digit_char(octave), '#']
    } else {
        seq![semitone_letter(semitone), digit_char(octave)]
    }
}

/// The keyword of a dynamic level.
pub open spec fn dynamic_keyword(level: DynamicLevel) -> Seq<char> {
    match level {
        DynamicLevel::Pianissimo => "PIANISSIMO"@,
        DynamicLevel::Piano => "PIANO"@,
        DynamicLevel::Mezzopiano => "MEZZOPIANO"@,
        DynamicLevel::Mezzoforte => "MEZZOFORTE"@,
        DynamicLevel::Forte => "FORTE"@,
        DynamicLevel::Fortissimo => "FORTISSIMO"@,
    }
}

/// The symbol of a bar.
pub open spec fn bar_text(close: bool, open: bool) -> Seq<char> {
    if close && open {
        ":|:"@
    } else if close {
        ":|"@
    } else if open {
        "|:"@
    } else {
        "|"@
    }
}

/// A duration written in full: a colon, the numerator, a slash, the
/// denominator.
pub open spec fn duration_text(beats: Ratio) -> Seq<char> {
    seq![':'] + decimal_text(beats.numer) + seq!['/'] + decimal_text(beats.denom)
}

/// What stands before the duration of a note: for a rest a hyphen, else the
/// prefix, and after a hyphen the suffix where there is one.
pub open spec fn note_head(note: RegoNoteView) -> Seq<char> {
    if note.prefix == "_"@ {
        seq!['-']
    } else if note.suffix.len() == 0 {
        note.prefix
    } else {
        note.prefix + seq!['-'] + note.suffix
    }
}

/// The canonical symbol of a token.
pub open spec fn token_text(token: TokenView) -> Seq<char> {
    match token {
        TokenView::Track(id) => seq!['['] + decimal_text(id as nat) + seq![']'],
        TokenView::Tempo(bpm) => decimal_text(bpm as nat) + "BPM"@,
        TokenView::AbsolutePitch(tone) => pitch_name(tone.0),
        TokenView::Note(note) => note_head(note) + duration_text(note.beats),
        TokenView::Scale(scale) => scale.name,
        TokenView::ScaleDegree(degree) => decimal_text(degree as nat),
        TokenView::Dynamic(level) => dynamic_keyword(level),
        TokenView::MeasureBar(close, open) => bar_text(close, open),
        TokenView::Section(name) => "==="@ + name + "==="@,
        TokenView::TimeSignature(ratio) => decimal_text(ratio.0 as nat) + seq!['/'] + decimal_text(
            ratio.1 as nat,
        ),
        TokenView::Endline() => "<eol>"@,
    }
}

/// What the words of the notation are made of.
proof fn lemma_words()
    ensures
        "<eol>"@ == seq!['<', 'e', 'o', 'l', '>'],
        "BPM"@ == seq!['B', 'P', 'M'],
        "==="@ == seq!['=', '=', '='],
        "_"@ == seq!['_'],
        "|"@ == seq!['|'],
        "|:"@ == seq!['|', ':'],
        ":|"@ == seq![':', '|'],
        ":|:"@ == seq![':', '|', ':'],
        "PIANISSIMO"@ == seq!['P', 'I', 'A', 'N', 'I', 'S', 'S', 'I', 'M', 'O'],
        "PIANO"@ == seq!['P', 'I', 'A', 'N', 'O'],
        "MEZZOPIANO"@ == seq!['M', 'E', 'Z', 'Z', 'O', 'P', 'I', 'A', 'N', 'O'],
        "MEZZOFORTE"@ == seq!['M', 'E', 'Z', 'Z', 'O', 'F', 'O', 'R', 'T', 'E'],
        "FORTE"@ == seq!['F', 'O', 'R', 'T', 'E'],
        "FORTISSIMO"@ == seq!['F', 'O', 'R', 'T', 'I', 'S', 'S', 'I', 'M', 'O'],
        "MAJOR"@ == seq!['M', 'A', 'J', 'O', 'R'],
        "MINOR"@ == seq!['M', 'I', 'N', 'O', 'R'],
        "PENTA"@ == seq!['P', 'E', 'N', 'T', 'A'],
        "CHROM"@ == seq!['C', 'H', 'R', 'O', 'M'],
{
    reveal_strlit("<eol>");
    reveal_strlit("BPM");
    reveal_strlit("===");
    reveal_strlit("_");
    reveal_strlit("|");
    reveal_strlit("|:");
    reveal_strlit(":|");
    reveal_strlit(":|:");
    reveal_strlit("PIANISSIMO");
    reveal_strlit("PIANO");
    reveal_strlit("MEZZOPIANO");
    reveal_strlit("MEZZOFORTE");
    reveal_strlit("FORTE");
    reveal_strlit("FORTISSIMO");
    reveal_strlit("MAJOR");
    reveal_strlit("MINOR");
    reveal_strlit("PENTA");
    reveal_strlit("CHROM");
    assert("<eol>"@ =~= seq!['<', 'e', 'o', 'l', '>']);
    assert("BPM"@ =~= seq!['B', 'P', 'M']);
    assert("==="@ =~= seq!['=', '=', '=']);
    assert("_"@ =~= seq!['_']);
    assert("|"@ =~= seq!['|']);
    assert("|:"@ =~= seq!['|', ':']);
    assert(":|"@ =~= seq![':', '|']);
    assert(":|:"@ =~= seq![':', '|', ':']);
    assert("PIANISSIMO"@ =~= seq!['P', 'I', 'A', 'N', 'I', 'S', 'S', 'I', 'M', 'O']);
    assert("PIANO"@ =~= seq!['P', 'I', 'A', 'N', 'O']);
    assert("MEZZOPIANO"@ =~= seq!['M', 'E', 'Z', 'Z', 'O', 'P', 'I', 'A', 'N', 'O']);
    assert("MEZZOFORTE"@ =~= seq!['M', 'E', 'Z', 'Z', 'O', 'F', 'O', 'R', 'T', 'E']);
    assert("FORTE"@ =~= seq!['F', 'O', 'R', 'T', 'E']);
    assert("FORTISSIMO"@ =~= seq!['F', 'O', 'R', 'T', 'I', 'S', 'S', 'I', 'M', 'O']);
    assert("MAJOR"@ =~= seq!['M', 'A', 'J', 'O', 'R']);
    assert("MINOR"@ =~= seq!['M', 'I', 'N', 'O', 'R']);
    assert("PENTA"@ =~= seq!['P', 'E', 'N', 'T', 'A']);
    assert("CHROM"@ =~= seq!['C', 'H', 'R', 'O', 'M']);
}

/// A run of digits that ends before a character that is none ends the scan
/// for digits there.
pub proof fn lemma_digits_run(s: Seq<char>, from: int, to: int)
    requires
        0 <= from <= to <= s.len(),
        forall|i: int| from <= i < to ==> is_digit(#[trigger] s[i]),
        to < s.len() ==> !is_digit(s[to]),
    ensures
        digits_end(s, from) == to,
    decreases to - from,
{
    if from < to {
        assert(is_digit(s[from]));
        lemma_digits_run(s, from + 1, to);
    }
}

/// A run of note characters that ends before a character that is none ends
/// the scan for note characters there.
pub proof fn lemma_note_run(s: Seq<char>, from: int, to: int)
    requires
        0 <= from <= to <= s.len(),
        forall|i: int| from <= i < to ==> is_note_char(#[trigger] s[i]),
        to < s.len() ==> !is_note_char(s[to]),
    ensures
        note_chars_end(s, from) == to,
    decreases to - from,
{
    if from < to {
        assert(is_note_char(s[from]));
        lemma_note_run(s, from + 1, to);
    }
}

/// The scan for note characters stops inside the text, past note characters
/// only.
pub proof fn lemma_note_chars_end(s: Seq<char>, from: int)
    requires
        0 <= from <= s.len(),
    ensures
        from <= note_chars_end(s, from) <= s.len(),
        forall|i: int| from <= i < note_chars_end(s, from) ==> is_note_char(#[trigger] s[i]),
    decreases s.len() - from,
{
    if from < s.len() && is_note_char(s[from]) {
        lemma_note_chars_end(s, from + 1);
    }
}

/// A numeral that stands in a text from `from` on, before a character that
/// is no digit, is found by the scan for digits and denotes its number.
pub proof fn lemma_numeral_in_text(s: Seq<char>, from: int, n: nat)
    requires
        0 <= from,
        from + decimal_text(n).len() <= s.len(),
        s.subrange(from, from + decimal_text(n).len()) == decimal_text(n),
        from + decimal_text(n).len() < s.len() ==> !is_digit(
            s[from + decimal_text(n).len() as int],
        ),
    ensures
        digits_end(s, from) == from + decimal_text(n).len(),
        digits_end(s, from) > from,
        decimal_value(s.subrange(from, digits_end(s, from))) == n,
{
    lemma_decimal_round_trip(n);
    let to = from + decimal_text(n).len();
    assert forall|i: int| from <= i < to implies is_digit(#[trigger] s[i]) by {
        assert(s[i] == s.subrange(from, to)[i - from]);
    }
    lemma_digits_run(s, from, to);
}

/// A duration written in full at the end of a text is a duration there, and
/// gives the beats it was written for.
pub proof fn lemma_duration_reads_back(s: Seq<char>, at: int, beats: Ratio)
    requires
        0 <= at <= s.len(),
        s.subrange(at, s.len() as int) == duration_text(beats),
        is_reduced(beats),
        beats.numer <= u64::MAX,
        beats.denom <= u64::MAX,
    ensures
        is_duration(s, at),
        duration_beats(s, at) == Some(beats),
{
    let numer = decimal_text(beats.numer);
    let denom = decimal_text(beats.denom);
    let tail = duration_text(beats);
    lemma_decimal_round_trip(beats.numer);
    lemma_decimal_round_trip(beats.denom);
    assert(tail.len() == 2 + numer.len() + denom.len());
    let slash = at + 1 + numer.len();
    assert forall|i: int| 0 <= i < tail.len() implies s[at + i] == #[trigger] tail[i] by {
        assert(s.subrange(at, s.len() as int)[i] == s[at + i]);
    }
    assert(s[at] == tail[0]);
    assert(s[slash] == tail[1 + numer.len() as int]);
    assert(s.subrange(at + 1, slash) =~= numer) by {
        assert forall|i: int| 0 <= i < numer.len() implies s.subrange(at + 1, slash)[i]
            == numer[i] by {
            assert(s[at + 1 + i] == tail[1 + i]);
        }
    }
    assert(s.subrange(slash + 1, s.len() as int) =~= denom) by {
        assert forall|i: int| 0 <= i < denom.len() implies s.subrange(slash + 1, s.len() as int)[i]
            == denom[i] by {
            assert(s[slash + 1 + i] == tail[2 + numer.len() + i]);
        }
    }
    lemma_numeral_in_text(s, at + 1, beats.numer);
    lemma_numeral_in_text(s, slash + 1, beats.denom);
    assert(group_end(s, at, ':') == slash);
    assert(group_end(s, slash, '/') == s.len());
    assert(group_value(s, at, ':') == beats.numer);
    assert(group_value(s, slash, '/') == beats.denom);
}

/// What the first character of a symbol is where a rule takes the symbol.
pub proof fn lemma_rule_heads(s: Seq<char>)
    ensures
        rule_tempo(s) is Some ==> s.len() >= 4 && is_digit(s[0]) && s[s.len() - 1] == 'M',
        rule_track(s) is Some ==> s.len() >= 3 && s[0] == '[',
        rule_pitch(s) is Some ==> 1 <= s.len() <= 3 && 'A' <= s[0] && s[0] <= 'Z',
        rule_note(s) is Some ==> s.len() >= 1 && is_note_char(s[0]),
        rule_scale(s) is Some ==> s.len() >= 1 && 'A' <= s[0] && s[0] <= 'G',
        rule_dynamic(s) is Some ==> s.len() >= 5 && (s[0] == 'P' || s[0] == 'M' || s[0] == 'F'),
        rule_degree(s) is Some ==> s.len() >= 1 && is_digit(s[0]) && (is_digit(s[s.len() - 1])
            || s[s.len() - 1] == '#' || s[s.len() - 1] == 'b'),
        rule_bar(s) is Some ==> s.len() >= 1 && (s[0] == '|' || s[0] == ':'),
        rule_rest(s) is Some ==> s.len() >= 1 && s[0] == '-',
        rule_section(s) is Some ==> s.len() >= 6 && s[0] == '=',
        rule_time_signature(s) is Some ==> s.len() >= 3 && is_digit(s[0]),
{
    lemma_words();
    if rule_tempo(s) is Some {
        let end = s.len() - 3;
        assert(s.subrange(end, s.len() as int)[2] == 'M');
    }
    if rule_degree(s) is Some {
        crate::text::lemma_digits_end(s, 0);
        let e = digits_end(s, 0);
        if e == s.len() {
            assert(s.subrange(0, e)[e - 1] == s[e - 1]);
        }
    }
    if rule_section(s) is Some {
        assert(s.subrange(0, 3)[0] == '=');
    }
    if rule_note(s) is Some {
        assert(note_chars_end(s, 0) >= 1);
    }
}

/// The symbol of a tempo reads back as the tempo.
pub proof fn lemma_tempo_reads_back(bpm: u16)
    ensures
        lex(token_text(TokenView::Tempo(bpm))) == Some(TokenView::Tempo(bpm)),
{
    lemma_words();
    let digits = decimal_text(bpm as nat);
    let s = token_text(TokenView::Tempo(bpm));
    lemma_decimal_round_trip(bpm as nat);
    assert(s.subrange(0, digits.len() as int) =~= digits);
    assert(s[digits.len() as int] == 'B');
    lemma_numeral_in_text(s, 0, bpm as nat);
    assert(s.subrange(s.len() - 3, s.len() as int) =~= "BPM"@);
    assert(s[0] == digits[0]);
    assert(is_digit(digits[0]));
    assert(s != "<eol>"@);
}

/// The symbol of a track reads back as the track.
pub proof fn lemma_track_reads_back(id: u32)
    ensures
        lex(token_text(TokenView::Track(id))) == Some(TokenView::Track(id)),
{
    lemma_words();
    let digits = decimal_text(id as nat);
    let s = token_text(TokenView::Track(id));
    lemma_decimal_round_trip(id as nat);
    lemma_rule_heads(s);
    assert(s[0] == '[');
    assert(s.subrange(1, 1 + digits.len() as int) =~= digits);
    assert(s[1 + digits.len() as int] == ']');
    lemma_numeral_in_text(s, 1, id as nat);
    assert(s != "<eol>"@);
}

/// The symbol of a scale degree reads back as the degree.
pub proof fn lemma_degree_reads_back(degree: u8)
    ensures
        lex(token_text(TokenView::ScaleDegree(degree))) == Some(TokenView::ScaleDegree(degree)),
{
    lemma_words();
    let s = token_text(TokenView::ScaleDegree(degree));
    lemma_decimal_round_trip(degree as nat);
    lemma_rule_heads(s);
    assert(s.subrange(0, s.len() as int) =~= s);
    lemma_numeral_in_text(s, 0, degree as nat);
    assert(is_digit(s[0]));
    assert(is_digit(s[s.len() - 1]));
    assert(s != "<eol>"@);
}

/// The symbol of a time signature reads back as the time signature.
pub proof fn lemma_time_signature_reads_back(ratio: (u8, u8))
    ensures
        lex(token_text(TokenView::TimeSignature(ratio))) == Some(TokenView::TimeSignature(ratio)),
{
    lemma_words();
    let numer = decimal_text(ratio.0 as nat);
    let denom = decimal_text(ratio.1 as nat);
    let s = token_text(TokenView::TimeSignature(ratio));
    lemma_decimal_round_trip(ratio.0 as nat);
    lemma_decimal_round_trip(ratio.1 as nat);
    lemma_rule_heads(s);
    let slash = numer.len() as int;
    assert(s.subrange(0, slash) =~= numer);
    assert(s[slash] == '/');
    assert(s.subrange(slash + 1, s.len() as int) =~= denom);
    lemma_numeral_in_text(s, 0, ratio.0 as nat);
    lemma_numeral_in_text(s, slash + 1, ratio.1 as nat);
    assert(s[0] == numer[0]);
    assert(is_digit(numer[0]));
    assert(s[s.len() - 1] == denom[denom.len() - 1]);
    assert(is_digit(denom[denom.len() - 1]));
    assert(s != "<eol>"@);
}

/// The symbol of a bar reads back as the bar.
pub proof fn lemma_bar_reads_back(close: bool, open: bool)
    ensures
        lex(token_text(TokenView::MeasureBar(close, open))) == Some(
            TokenView::MeasureBar(close, open),
        ),
{
    lemma_words();
    let s = token_text(TokenView::MeasureBar(close, open));
    lemma_rule_heads(s);
    assert(s != "<eol>"@);
}

/// The keyword of a dynamic level reads back as the level.
pub proof fn lemma_dynamic_reads_back(level: DynamicLevel)
    ensures
        lex(token_text(TokenView::Dynamic(level))) == Some(TokenView::Dynamic(level)),
{
    lemma_words();
    let s = token_text(TokenView::Dynamic(level));
    lemma_rule_heads(s);
    assert(dynamic_level(s) == Some(level));
    assert(s != "<eol>"@);
    assert(rule_scale(s) is None) by {
        if s[0] == 'F' {
            assert(digits_end(s, 1) == 1);
            assert(scale_root_end(s) == 1);
            let rest = s.subrange(1, s.len() as int);
            assert(rest.len() == s.len() - 1);
            assert(rest[0] == 'O');
            assert(named_scale_steps(rest) is None);
        }
    }
}

/// The symbol of a section header reads back as the header.
pub proof fn lemma_section_reads_back(name: Seq<char>)
    requires
        forall|i: int| 0 <= i < name.len() ==> is_name_char(#[trigger] name[i]),
    ensures
        lex(token_text(TokenView::Section(name))) == Some(TokenView::Section(name)),
{
    lemma_words();
    let s = token_text(TokenView::Section(name));
    lemma_rule_heads(s);
    let end = s.len() - 3;
    assert(s.subrange(0, 3) =~= "==="@);
    assert(s.subrange(end, s.len() as int) =~= "==="@);
    assert(s.subrange(3, end) =~= name);
    assert forall|i: int| 3 <= i < end implies is_name_char(#[trigger] s[i]) by {
        assert(s[i] == name[i - 3]);
    }
    assert(s[0] == '=');
    assert(s != "<eol>"@);
}

/// The name of a tone of the table reads back as the tone.
pub proof fn lemma_pitch_reads_back(tone: u8)
    requires
        1 <= tone <= 37,
    ensures
        lex(token_text(TokenView::AbsolutePitch(ToneId(tone)))) == Some(
            TokenView::AbsolutePitch(ToneId(tone)),
        ),
{
    lemma_words();
    let s = pitch_name(tone);
    lemma_rule_heads(s);
    let semitone = ((tone - 1) % 12) as nat;
    let octave = ((tone - 1) / 12 + 1) as nat;
    assert(1 <= octave <= 4);
    assert(crate::text::digit_value(digit_char(octave)) == octave);
    assert(is_digit(digit_char(octave)));
    assert(pitch_id(s) == Some(tone));
    assert(s != "<eol>"@);
}

/// The symbol of a rest reads back as the rest.
pub proof fn lemma_rest_reads_back(beats: Ratio)
    requires
        is_reduced(beats),
        beats.numer <= u64::MAX,
        beats.denom <= u64::MAX,
    ensures
        lex(
            token_text(
                TokenView::Note(RegoNoteView { prefix: "_"@, suffix: Seq::empty(), beats: beats }),
            ),
        ) == Some(
            TokenView::Note(RegoNoteView { prefix: "_"@, suffix: Seq::empty(), beats: beats }),
        ),
{
    lemma_words();
    let note = RegoNoteView { prefix: "_"@, suffix: Seq::empty(), beats: beats };
    let s = token_text(TokenView::Note(note));
    lemma_rule_heads(s);
    assert(s[0] == '-');
    assert(s.subrange(1, s.len() as int) =~= duration_text(beats));
    lemma_duration_reads_back(s, 1, beats);
    assert(s != "<eol>"@);
}

/// The symbol of a note reads back as the note.
pub proof fn lemma_note_reads_back(note: RegoNoteView)
    requires
        note.prefix.len() >= 1,
        forall|i: int| 0 <= i < note.prefix.len() ==> is_note_char(#[trigger] note.prefix[i]),
        forall|i: int| 0 <= i < note.suffix.len() ==> is_note_char(#[trigger] note.suffix[i]),
        is_reduced(note.beats),
        note.beats.numer <= u64::MAX,
        note.beats.denom <= u64::MAX,
    ensures
        lex(token_text(TokenView::Note(note))) == Some(TokenView::Note(note)),
{
    lemma_words();
    let s = token_text(TokenView::Note(note));
    let head = note_head(note);
    let p = note.prefix.len() as int;
    assert(is_note_char(note.prefix[0]));
    assert(note.prefix != "_"@);
    lemma_rule_heads(s);
    let tail = duration_text(note.beats);
    assert(tail[0] == ':');
    assert(s.subrange(head.len() as int, s.len() as int) =~= tail);
    assert forall|i: int| 0 <= i < p implies is_note_char(#[trigger] s[i]) by {
        assert(s[i] == note.prefix[i]);
    }
    if note.suffix.len() == 0 {
        assert(s[p] == ':');
        lemma_note_run(s, 0, p);
        lemma_note_run(s, p, p);
        assert(note_suffix_start(s) == p);
        assert(note_suffix_end(s) == p);
        assert(s.subrange(0, p) =~= note.prefix);
        assert(s.subrange(p, p) =~= note.suffix);
        lemma_duration_reads_back(s, p, note.beats);
    } else {
        let q = p + 1;
        let r = q + note.suffix.len();
        assert(s[p] == '-');
        assert(s[r] == ':');
        assert forall|i: int| q <= i < r implies is_note_char(#[trigger] s[i]) by {
            assert(s[i] == note.suffix[i - q]);
        }
        lemma_note_run(s, 0, p);
        lemma_note_run(s, q, r);
        assert(note_suffix_start(s) == q);
        assert(note_suffix_end(s) == r);
        assert(s.subrange(0, p) =~= note.prefix);
        assert(s.subrange(q, r) =~= note.suffix);
        lemma_duration_reads_back(s, r, note.beats);
    }
    assert(s[0] == note.prefix[0]);
    assert(s != "<eol>"@);
}

/// Re-lexing: the canonical symbol of the token of a symbol has the same
/// token.
pub proof fn lemma_lex_round_trip(s: Seq<char>)
    ensures
        lex(s) matches Some(token) ==> lex(token_text(token)) == Some(token),
{
    lemma_words();
    lemma_rule_heads(s);
    match lex(s) {
        Some(token) => {
            if s == "<eol>"@ {
            } else {
                match token {
                    TokenView::Tempo(bpm) => {
                        lemma_tempo_reads_back(bpm);
                    },
                    TokenView::Track(id) => {
                        lemma_track_reads_back(id);
                    },
                    TokenView::AbsolutePitch(tone) => {
                        assert(rule_pitch(s) == Some(Some(token)));
                        assert(pitch_id(s) == Some(tone.0));
                        lemma_pitch_reads_back(tone.0);
                    },
                    TokenView::Note(note) => {
                        if rule_note(s) is Some {
                            assert(rule_note(s) == Some(Some(token)));
                            lemma_note_chars_end(s, 0);
                            lemma_note_chars_end(s, note_suffix_start(s));
                            let numer = group_value(s, note_suffix_end(s), ':');
                            let denom = group_value(
                                s,
                                group_end(s, note_suffix_end(s), ':'),
                                '/',
                            );
                            lemma_reduced(numer, denom);
                            assert forall|i: int| 0 <= i < note.prefix.len() implies is_note_char(
                                #[trigger] note.prefix[i],
                            ) by {
                                assert(note.prefix[i] == s[i]);
                            }
                            assert forall|i: int| 0 <= i < note.suffix.len() implies is_note_char(
                                #[trigger] note.suffix[i],
                            ) by {
                                assert(note.suffix[i] == s[note_suffix_start(s) + i]);
                            }
                            lemma_note_reads_back(note);
                        } else {
                            assert(rule_rest(s) == Some(Some(token)));
                            let numer = group_value(s, 1, ':');
                            let denom = group_value(s, group_end(s, 1, ':'), '/');
                            lemma_reduced(numer, denom);
                            lemma_rest_reads_back(note.beats);
                        }
                    },
                    TokenView::Scale(scale) => {
                        assert(rule_scale(s) == Some(Some(token)));
                        assert(scale.name == s);
                    },
                    TokenView::ScaleDegree(degree) => {
                        lemma_degree_reads_back(degree);
                    },
                    TokenView::Dynamic(level) => {
                        lemma_dynamic_reads_back(level);
                    },
                    TokenView::MeasureBar(close, open) => {
                        lemma_bar_reads_back(close, open);
                    },
                    TokenView::Section(name) => {
                        assert(rule_section(s) == Some(Some(token)));
                        assert forall|i: int| 0 <= i < name.len() implies is_name_char(
                            #[trigger] name[i],
                        ) by {
                            assert(name[i] == s[3 + i]);
                        }
                        lemma_section_reads_back(name);
                    },
                    TokenView::TimeSignature(ratio) => {
                        lemma_time_signature_reads_back(ratio);
                    },
                    TokenView::Endline() => {},
                }
            }
        },
        None => {},
    }
}

/// The letter of a semitone as text.
fn semitone_letter_str(semitone: u8) -> (r: &'static str)
    requires
        semitone < 12,
    ensures
        r@ == seq![semitone_letter(semitone as nat)],
{
    proof {
        reveal_strlit("C");
        reveal_strlit("D");
        reveal_strlit("E");
        reveal_strlit("F");
        reveal_strlit("G");
        reveal_strlit("A");
        reveal_strlit("B");
    }
    let r = if semitone <= 1 {
        "C"
    } else if semitone <= 3 {
        "D"
    } else if semitone == 4 {
        "E"
    } else if semitone <= 6 {
        "F"
    } else if semitone <= 8 {
        "G"
    } else if semitone <= 10 {
        "A"
    } else {
        "B"
    };
    assert(r@ =~= seq![semitone_letter(semitone as nat)]);
    r
}

/// The canonical symbol of a token.
pub fn canonical_symbol(token: &Token) -> (r: String)
    ensures
        r@ == token_text(token@),
{
    proof {
        reveal_strlit("[");
        reveal_strlit("]");
        reveal_strlit(":");
        reveal_strlit("/");
        reveal_strlit("-");
        reveal_strlit("#");
        assert("["@ =~= seq!['[']);
        assert("]"@ =~= seq![']']);
        assert(":"@ =~= seq![':']);
        assert("/"@ =~= seq!['/']);
        assert("-"@ =~= seq!['-']);
        assert("#"@ =~= seq!['#']);
    }
    let mut out = String::new();
    match token {
        Token::Track(id) => {
            out.append("[");
            push_decimal(&mut out, *id as u64);
            out.append("]");
        },
        Token::Tempo(bpm) => {
            push_decimal(&mut out, *bpm as u64);
            out.append("BPM");
        },
        Token::AbsolutePitch(tone) => {
            let (semitone, octave): (u8, u8) = if tone.0 == 0 {
                (11, 0)
            } else {
                ((tone.0 - 1) % 12, (tone.0 - 1) / 12 + 1)
            };
            let sharp: bool = semitone == 1 || semitone == 3 || semitone == 6 || semitone == 8
                || semitone == 10;
            proof {
                lemma_decimal_digit(
                    if octave > 9 {
                        9
                    } else {
                        octave as nat
                    },
                );
            }
            out.append(semitone_letter_str(semitone));
            push_decimal(
                &mut out,
                if octave > 9 {
                    9
                } else {
                    octave as u64
                },
            );
            if sharp {
                out.append("#");
            }
        },
        Token::Note(note) => {
            if same_text(note.prefix.as_str(), "_") {
                out.append("-");
            } else {
                out.append(note.prefix.as_str());
                if !note.suffix.as_str().is_empty() {
                    out.append("-");
                    out.append(note.suffix.as_str());
                }
            }
            out.append(":");
            push_decimal(&mut out, note.beats.numer());
            out.append("/");
            push_decimal(&mut out, note.beats.denom());
        },
        Token::Scale(scale) => {
            out.append(scale.name.as_str());
        },
        Token::ScaleDegree(degree) => {
            push_decimal(&mut out, *degree as u64);
        },
        Token::Dynamic(level) => {
            out.append(
                match level {
                    DynamicLevel::Pianissimo => "PIANISSIMO",
                    DynamicLevel::Piano => "PIANO",
                    DynamicLevel::Mezzopiano => "MEZZOPIANO",
                    DynamicLevel::Mezzoforte => "MEZZOFORTE",
                    DynamicLevel::Forte => "FORTE",
                    DynamicLevel::Fortissimo => "FORTISSIMO",
                },
            );
        },
        Token::MeasureBar(close, open) => {
            out.append(
                if *close && *open {
                    ":|:"
                } else if *close {
                    ":|"
                } else if *open {
                    "|:"
                } else {
                    "|"
                },
            );
        },
        Token::Section(name) => {
            out.append("===");
            out.append(name.as_str());
            out.append("===");
        },
        Token::TimeSignature(ratio) => {
            push_decimal(&mut out, ratio.0 as u64);
            out.append("/");
            push_decimal(&mut out, ratio.1 as u64);
        },
        Token::Endline() => {
            out.append("<eol>");
        },
    }
    assert(out@ =~= token_text(token@));
    out
}

/// The numeral of a number below ten is its digit.
proof fn lemma_decimal_digit(d: nat)
    requires
        d < 10,
    ensures
        decimal_text(d) == seq![digit_char(d)],
{
}

} // verus!
