//! From symbols to tokens.
//!
//! A symbol is held against the rules of the notation in a fixed order. The
//! first rule whose form the symbol has decides: it gives the token, or it
//! rejects the symbol, and no later rule is asked.

use crate::beats::reduced;
use crate::beats::Beats;
use crate::text::decimal_value;
use crate::text::digit_value;
use crate::text::digits_end;
use crate::text::is_digit;
use crate::text::is_digit_char;
use crate::text::is_lower;
use crate::text::is_lower_char;
use crate::text::is_space;
use crate::text::is_space_char;
use crate::text::lemma_digits_end;
use crate::text::parse_decimal;
use crate::text::same_text;
use crate::text::scan_digits;
use crate::text::spells;
use crate::text::to_chars;
use crate::reader::literals_view;
use crate::reader::markdown_literals;
use crate::reader::read_literals_from_markdown;
use crate::reader::read_literals_from_multiline_string;
use crate::reader::source_literals;
use crate::types::lexemes_view;
use crate::types::CompileError;
use crate::types::CompileErrorView;
use crate::types::CompileResult;
use crate::types::DynamicLevel;
use crate::types::Literal;
use crate::types::LiteralView;
use crate::types::RegoNote;
use crate::types::RegoNoteView;
use crate::types::Scale;
use crate::types::ScaleView;
use crate::types::Token;
use crate::types::TokenView;
use crate::types::ToneId;
use vstd::prelude::*;
use vstd::string::*;

verus! {

/// The semitones from C up to a note letter.
pub open spec fn letter_semitone(letter: char) -> Option<nat> {
    if letter == 'C' {
        Some(0)
    } else if letter == 'D' {
        Some(2)
    } else if letter == 'E' {
        Some(4)
    } else if letter == 'F' {
        Some(5)
    } else if letter == 'G' {
        Some(7)
    } else if letter == 'A' {
        Some(9)
    } else if letter == 'B' {
        Some(11)
    } else {
        None
    }
}

/// The letters that have a sharp.
pub open spec fn has_sharp(letter: char) -> bool {
    letter == 'C' || letter == 'D' || letter == 'F' || letter == 'G' || letter == 'A'
}

/// The octave of a pitch name that gives none: the table runs from A to G
/// sharp, so A and B lie in the first octave and the others in the second.
pub open spec fn default_octave(letter: char) -> nat {
    if letter == 'A' || letter == 'B' {
        1
    } else {
        2
    }
}

/// The tone of a letter in an octave: C1 is tone 1, each semitone adds one,
/// and the table ends at C4, tone 37.
pub open spec fn tone_of(letter: char, octave: nat, sharp: bool) -> Option<u8> {
    match letter_semitone(letter) {
        None => None,
        Some(semitone) => {
            let tone = 12 * (octave - 1) + semitone + (if sharp {
                1nat
            } else {
                0nat
            }) + 1;
            if octave >= 1 && (!sharp || has_sharp(letter)) && tone <= 37 {
                Some(tone as u8)
            } else {
                None
            }
        },
    }
}

/// The tone that a pitch name stands for: a letter, then an octave digit or
/// none, then a sharp sign or none.
pub open spec fn pitch_id(s: Seq<char>) -> Option<u8> {
    if s.len() == 1 {
        tone_of(s[0], default_octave(s[0]), false)
    } else if s.len() == 2 && s[1] == '#' {
        tone_of(s[0], default_octave(s[0]), true)
    } else if s.len() == 2 && is_digit(s[1]) {
        tone_of(s[0], digit_value(s[1]), false)
    } else if s.len() == 3 && is_digit(s[1]) && s[2] == '#' {
        tone_of(s[0], digit_value(s[1]), true)
    } else {
        None
    }
}

/// The steps of a named family of scales.
pub open spec fn named_scale_steps(name: Seq<char>) -> Option<Seq<u8>> {
    if name == "MAJOR"@ {
        Some(seq![2u8, 2u8, 1u8, 2u8, 2u8, 2u8, 1u8])
    } else if name == "MINOR"@ {
        Some(seq![2u8, 1u8, 2u8, 2u8, 1u8, 2u8, 2u8])
    } else if name == "PENTA"@ {
        Some(seq![2u8, 2u8, 3u8, 2u8, 3u8])
    } else if name == "CHROM"@ {
        Some(seq![1u8, 1u8, 1u8, 1u8, 1u8, 1u8, 1u8, 1u8, 1u8, 1u8, 1u8, 1u8])
    } else {
        None
    }
}

/// The level that a dynamic keyword names.
pub open spec fn dynamic_level(word: Seq<char>) -> Option<DynamicLevel> {
    if word == "PIANISSIMO"@ {
        Some(DynamicLevel::Pianissimo)
    } else if word == "PIANO"@ {
        Some(DynamicLevel::Piano)
    } else if word == "MEZZOPIANO"@ {
        Some(DynamicLevel::Mezzopiano)
    } else if word == "MEZZOFORTE"@ {
        Some(DynamicLevel::Mezzoforte)
    } else if word == "FORTE"@ {
        Some(DynamicLevel::Forte)
    } else if word == "FORTISSIMO"@ {
        Some(DynamicLevel::Fortissimo)
    } else {
        None
    }
}

/// A character of a note's prefix or suffix: a lower-case letter or a dot.
pub open spec fn is_note_char(c: char) -> bool {
    is_lower(c) || c == '.'
}

/// The first position at or after `from` that holds no note character, or
/// the length of `s`.
pub open spec fn note_chars_end(s: Seq<char>, from: int) -> int
    decreases s.len() - from,
{
    if 0 <= from < s.len() && is_note_char(s[from]) {
        note_chars_end(s, from + 1)
    } else {
        from
    }
}

/// Where a group of `mark` and at least one digit ends that starts at `at`;
/// `at` itself where no such group starts there.
pub open spec fn group_end(s: Seq<char>, at: int, mark: char) -> int {
    if 0 <= at < s.len() && s[at] == mark && digits_end(s, at + 1) > at + 1 {
        digits_end(s, at + 1)
    } else {
        at
    }
}

/// The number in the group of `mark` and digits at `at`, or 1 where no such
/// group starts there.
pub open spec fn group_value(s: Seq<char>, at: int, mark: char) -> nat {
    if group_end(s, at, mark) > at {
        decimal_value(s.subrange(at + 1, group_end(s, at, mark)))
    } else {
        1
    }
}

/// From `at` to its end, `s` is a duration: a colon and a numerator or
/// nothing, then a slash and a denominator or nothing.
pub open spec fn is_duration(s: Seq<char>, at: int) -> bool {
    group_end(s, group_end(s, at, ':'), '/') == s.len()
}

/// The beats of the duration at `at`: numerator over denominator in lowest
/// terms, each 1 where it is not given. There are none where one of them is
/// too large for 64 bits or the denominator is zero.
pub open spec fn duration_beats(s: Seq<char>, at: int) -> Option<crate::beats::Ratio> {
    let numer = group_value(s, at, ':');
    let denom = group_value(s, group_end(s, at, ':'), '/');
    if numer <= u64::MAX && denom <= u64::MAX && denom != 0 {
        Some(reduced(numer, denom))
    } else {
        None
    }
}

/// The steps that a run of digits spells, one step for each digit.
pub open spec fn digit_steps(digits: Seq<char>) -> Seq<u8> {
    Seq::new(digits.len(), |i: int| digit_value(digits[i]) as u8)
}

/// What a rule makes of a symbol: `None` where the symbol has not the rule's
/// form; else what the rule decides, a token or a rejection.
pub type Ruling = Option<Option<TokenView>>;

/// Digits, then `BPM`: a tempo, if it fits 16 bits.
pub open spec fn rule_tempo(s: Seq<char>) -> Ruling {
    let end = s.len() - 3;
    if end >= 1 && digits_end(s, 0) == end && s.subrange(end, s.len() as int) == "BPM"@ {
        let value = decimal_value(s.subrange(0, end));
        Some(
            if value <= u16::MAX {
                Some(TokenView::Tempo(value as u16))
            } else {
                None
            },
        )
    } else {
        None
    }
}

/// Digits in square brackets: a track, if its number fits 32 bits.
pub open spec fn rule_track(s: Seq<char>) -> Ruling {
    let end = s.len() - 1;
    if end >= 2 && s[0] == '[' && digits_end(s, 1) == end && s[end] == ']' {
        let value = decimal_value(s.subrange(1, end));
        Some(
            if value <= u32::MAX {
                Some(TokenView::Track(value as u32))
            } else {
                None
            },
        )
    } else {
        None
    }
}

/// A capital letter, then a digit or none, then a sharp sign or none: an
/// absolute pitch, if the table has the name.
pub open spec fn rule_pitch(s: Seq<char>) -> Ruling {
    if s.len() >= 1 && 'A' <= s[0] && s[0] <= 'Z' && (s.len() == 1 || (s.len() == 2 && (is_digit(
        s[1],
    ) || s[1] == '#')) || (s.len() == 3 && is_digit(s[1]) && s[2] == '#')) {
        Some(
            match pitch_id(s) {
                Some(tone) => Some(TokenView::AbsolutePitch(ToneId(tone))),
                None => None,
            },
        )
    } else {
        None
    }
}

/// Where the prefix of a note ends: after the note characters at the start.
pub open spec fn note_prefix_end(s: Seq<char>) -> int {
    note_chars_end(s, 0)
}

/// Where the suffix of a note starts: after the prefix and a hyphen, if one
/// follows it.
pub open spec fn note_suffix_start(s: Seq<char>) -> int {
    let p = note_prefix_end(s);
    if p < s.len() && s[p] == '-' {
        p + 1
    } else {
        p
    }
}

/// Where the suffix of a note ends.
pub open spec fn note_suffix_end(s: Seq<char>) -> int {
    note_chars_end(s, note_suffix_start(s))
}

/// A prefix of note characters, a hyphen or none, a suffix of note characters
/// or none, then a duration: a note, if the duration gives beats.
pub open spec fn rule_note(s: Seq<char>) -> Ruling {
    if note_prefix_end(s) >= 1 && is_duration(s, note_suffix_end(s)) {
        Some(
            match duration_beats(s, note_suffix_end(s)) {
                Some(beats) => Some(
                    TokenView::Note(
                        RegoNoteView {
                            prefix: s.subrange(0, note_prefix_end(s)),
                            suffix: s.subrange(note_suffix_start(s), note_suffix_end(s)),
                            beats: beats,
                        },
                    ),
                ),
                None => None,
            },
        )
    } else {
        None
    }
}

/// Where the root of a scale declaration ends: after a letter, the digits
/// that follow it and a sharp or flat sign, if one follows them.
pub open spec fn scale_root_end(s: Seq<char>) -> int {
    let e = digits_end(s, 1);
    if e < s.len() && (s[e] == '#' || s[e] == 'b') {
        e + 1
    } else {
        e
    }
}

/// From `at` to its end, `s` is a run of at least one digit in square
/// brackets.
pub open spec fn is_bracketed(s: Seq<char>, at: int) -> bool {
    at + 3 <= s.len() && s[at] == '[' && digits_end(s, at + 1) == s.len() - 1 && s[s.len() - 1]
        == ']'
}

/// A root from A to G, then steps in square brackets or the name of a family
/// or nothing: a scale, if the table has the root and the steps are given.
pub open spec fn rule_scale(s: Seq<char>) -> Ruling {
    if s.len() >= 1 && 'A' <= s[0] && s[0] <= 'G' {
        let root_end = scale_root_end(s);
        let rest = s.subrange(root_end, s.len() as int);
        let steps = if is_bracketed(s, root_end) {
            Some(digit_steps(s.subrange(root_end + 1, s.len() - 1)))
        } else {
            named_scale_steps(rest)
        };
        if rest.len() == 0 {
            Some(None)
        } else {
            match steps {
                None => None,
                Some(steps) => Some(
                    match pitch_id(s.subrange(0, root_end)) {
                        Some(tone) => Some(
                            TokenView::Scale(
                                ScaleView { name: s, tone_id: ToneId(tone), steps: steps },
                            ),
                        ),
                        None => None,
                    },
                ),
            }
        }
    } else {
        None
    }
}

/// A dynamic keyword: its level.
pub open spec fn rule_dynamic(s: Seq<char>) -> Ruling {
    match dynamic_level(s) {
        Some(level) => Some(Some(TokenView::Dynamic(level))),
        None => None,
    }
}

/// Digits, then a sharp or flat sign or none: a scale degree, if the number
/// fits 8 bits. The sign is not kept.
pub open spec fn rule_degree(s: Seq<char>) -> Ruling {
    let e = digits_end(s, 0);
    if e >= 1 && (e == s.len() || (e == s.len() - 1 && (s[e] == '#' || s[e] == 'b'))) {
        let value = decimal_value(s.subrange(0, e));
        Some(
            if value <= u8::MAX {
                Some(TokenView::ScaleDegree(value as u8))
            } else {
                None
            },
        )
    } else {
        None
    }
}

/// A bar, with a colon before it where it closes a repeat and a colon after
/// it where it opens one.
pub open spec fn rule_bar(s: Seq<char>) -> Ruling {
    if s == "|"@ {
        Some(Some(TokenView::MeasureBar(false, false)))
    } else if s == "|:"@ {
        Some(Some(TokenView::MeasureBar(false, true)))
    } else if s == ":|"@ {
        Some(Some(TokenView::MeasureBar(true, false)))
    } else if s == ":|:"@ {
        Some(Some(TokenView::MeasureBar(true, true)))
    } else {
        None
    }
}

/// A hyphen, then a duration: a rest, which is a note with the prefix `_` and
/// no suffix, if the duration gives beats.
pub open spec fn rule_rest(s: Seq<char>) -> Ruling {
    if s.len() >= 1 && s[0] == '-' && is_duration(s, 1) {
        Some(
            match duration_beats(s, 1) {
                Some(beats) => Some(
                    TokenView::Note(
                        RegoNoteView { prefix: "_"@, suffix: Seq::empty(), beats: beats },
                    ),
                ),
                None => None,
            },
        )
    } else {
        None
    }
}

/// A character of a section's name: neither white space nor a hyphen.
pub open spec fn is_name_char(c: char) -> bool {
    !is_space(c) && c != '-'
}

/// Three equals signs, a name, three equals signs: a section header.
pub open spec fn rule_section(s: Seq<char>) -> Ruling {
    let end = s.len() - 3;
    if end >= 3 && s.subrange(0, 3) == "==="@ && s.subrange(end, s.len() as int) == "==="@ && (
    forall|i: int| 3 <= i < end ==> is_name_char(#[trigger] s[i])) {
        Some(Some(TokenView::Section(s.subrange(3, end))))
    } else {
        None
    }
}

/// Digits, a slash, digits: a time signature, if both numbers fit 8 bits.
pub open spec fn rule_time_signature(s: Seq<char>) -> Ruling {
    let e = digits_end(s, 0);
    if e >= 1 && e < s.len() && s[e] == '/' && digits_end(s, e + 1) == s.len() && e + 1 < s.len() {
        let numer = decimal_value(s.subrange(0, e));
        let denom = decimal_value(s.subrange(e + 1, s.len() as int));
        Some(
            if numer <= u8::MAX && denom <= u8::MAX {
                Some(TokenView::TimeSignature((numer as u8, denom as u8)))
            } else {
                None
            },
        )
    } else {
        None
    }
}

/// The ruling of the first of two rules that has one.
pub open spec fn or_else(first: Ruling, second: Ruling) -> Ruling {
    match first {
        Some(r) => Some(r),
        None => second,
    }
}

/// The rules in their order: tempo, track, absolute pitch, note, scale,
/// dynamic, scale degree, bar, rest, section, time signature.
pub open spec fn ruling(s: Seq<char>) -> Ruling {
    or_else(
        rule_tempo(s),
        or_else(
            rule_track(s),
            or_else(
                rule_pitch(s),
                or_else(
                    rule_note(s),
                    or_else(
                        rule_scale(s),
                        or_else(
                            rule_dynamic(s),
                            or_else(
                                rule_degree(s),
                                or_else(
                                    rule_bar(s),
                                    or_else(
                                        rule_rest(s),
                                        or_else(rule_section(s), rule_time_signature(s)),
                                    ),
                                ),
                            ),
                        ),
                    ),
                ),
            ),
        ),
    )
}

/// The token of a symbol: the end of a line for the marker that the reader
/// puts there, else what the first rule with the symbol's form decides.
/// A symbol that no rule takes has no token.
pub open spec fn lex(s: Seq<char>) -> Option<TokenView> {
    if s == "<eol>"@ {
        Some(TokenView::Endline())
    } else {
        match ruling(s) {
            Some(decision) => decision,
            None => None,
        }
    }
}

/// The view of what a rule has made of a symbol.
pub open spec fn ruling_view(r: Option<Option<Token>>) -> Ruling {
    match r {
        Some(Some(token)) => Some(Some(token@)),
        Some(None) => Some(None),
        None => None,
    }
}

/// The semitones from C up to a note letter.
fn letter_offset(letter: char) -> (r: Option<u8>)
    ensures
        match r {
            Some(n) => letter_semitone(letter) == Some(n as nat),
            None => letter_semitone(letter) is None,
        },
{
    if letter == 'C' {
        Some(0)
    } else if letter == 'D' {
        Some(2)
    } else if letter == 'E' {
        Some(4)
    } else if letter == 'F' {
        Some(5)
    } else if letter == 'G' {
        Some(7)
    } else if letter == 'A' {
        Some(9)
    } else if letter == 'B' {
        Some(11)
    } else {
        None
    }
}

/// The tone of a letter in an octave.
fn tone_in_octave(letter: char, octave: u8, sharp: bool) -> (r: Option<u8>)
    requires
        octave <= 9,
    ensures
        r == tone_of(letter, octave as nat, sharp),
{
    match letter_offset(letter) {
        None => None,
        Some(semitone) => {
            if octave < 1 {
                return None;
            }
            let can_sharp: bool = letter == 'C' || letter == 'D' || letter == 'F' || letter == 'G'
                || letter == 'A';
            if sharp && !can_sharp {
                return None;
            }
            let tone: u8 = 12 * (octave - 1) + semitone + (if sharp {
                1
            } else {
                0
            }) + 1;
            if tone <= 37 {
                Some(tone)
            } else {
                None
            }
        },
    }
}

/// The tone of the pitch name that stands in `v` from `from` up to `to`.
fn pitch_of_chars(v: &Vec<char>, from: usize, to: usize) -> (r: Option<u8>)
    requires
        from <= to <= v.len(),
    ensures
        r == pitch_id(v@.subrange(from as int, to as int)),
{
    let n: usize = to - from;
    let ghost s = v@.subrange(from as int, to as int);
    if n == 0 || n > 3 {
        return None;
    }
    let letter: char = v[from];
    assert(letter == s[0]);
    let octave: u8 = if letter == 'A' || letter == 'B' {
        1
    } else {
        2
    };
    if n == 1 {
        return tone_in_octave(letter, octave, false);
    }
    let second: char = v[from + 1];
    assert(second == s[1]);
    if n == 2 {
        if second == '#' {
            return tone_in_octave(letter, octave, true);
        }
        if is_digit_char(second) {
            return tone_in_octave(letter, (second as u32 - 0x30) as u8, false);
        }
        return None;
    }
    let third: char = v[from + 2];
    assert(third == s[2]);
    if is_digit_char(second) && third == '#' {
        return tone_in_octave(letter, (second as u32 - 0x30) as u8, true);
    }
    None
}

/// The tone of a pitch name, or nothing where the table has no such name.
pub fn pitch_string_to_id(pitch: &str) -> (r: Option<ToneId>)
    ensures
        match r {
            Some(tone) => pitch_id(pitch@) == Some(tone.0),
            None => pitch_id(pitch@) is None,
        },
{
    let v = to_chars(pitch);
    assert(v@.subrange(0, v.len() as int) == v@);
    match pitch_of_chars(&v, 0, v.len()) {
        Some(tone) => Some(ToneId(tone)),
        None => None,
    }
}

/// The steps of a named family of scales, or nothing for another name.
pub fn get_named_scale_steps(scale: &str) -> (r: Option<Vec<u8>>)
    ensures
        match r {
            Some(steps) => named_scale_steps(scale@) == Some(steps@),
            None => named_scale_steps(scale@) is None,
        },
{
    if same_text(scale, "MAJOR") {
        let steps: Vec<u8> = vec![2, 2, 1, 2, 2, 2, 1];
        assert(steps@ =~= seq![2u8, 2u8, 1u8, 2u8, 2u8, 2u8, 1u8]);
        Some(steps)
    } else if same_text(scale, "MINOR") {
        let steps: Vec<u8> = vec![2, 1, 2, 2, 1, 2, 2];
        assert(steps@ =~= seq![2u8, 1u8, 2u8, 2u8, 1u8, 2u8, 2u8]);
        Some(steps)
    } else if same_text(scale, "PENTA") {
        let steps: Vec<u8> = vec![2, 2, 3, 2, 3];
        assert(steps@ =~= seq![2u8, 2u8, 3u8, 2u8, 3u8]);
        Some(steps)
    } else if same_text(scale, "CHROM") {
        let steps: Vec<u8> = vec![1, 1, 1, 1, 1, 1, 1, 1, 1, 1, 1, 1];
        assert(steps@ =~= seq![1u8, 1u8, 1u8, 1u8, 1u8, 1u8, 1u8, 1u8, 1u8, 1u8, 1u8, 1u8]);
        Some(steps)
    } else {
        None
    }
}

/// The level of a dynamic keyword, or nothing for another word.
pub fn parse_dynamic_level(level: &str) -> (r: Option<DynamicLevel>)
    ensures
        r == dynamic_level(level@),
{
    if same_text(level, "PIANISSIMO") {
        Some(DynamicLevel::Pianissimo)
    } else if same_text(level, "PIANO") {
        Some(DynamicLevel::Piano)
    } else if same_text(level, "MEZZOPIANO") {
        Some(DynamicLevel::Mezzopiano)
    } else if same_text(level, "MEZZOFORTE") {
        Some(DynamicLevel::Mezzoforte)
    } else if same_text(level, "FORTE") {
        Some(DynamicLevel::Forte)
    } else if same_text(level, "FORTISSIMO") {
        Some(DynamicLevel::Fortissimo)
    } else {
        None
    }
}

/// Scans the note characters that start at `from`.
fn scan_note_chars(v: &Vec<char>, from: usize) -> (end: usize)
    requires
        from <= v.len(),
    ensures
        end == note_chars_end(v@, from as int),
        from <= end <= v.len(),
{
    let mut i: usize = from;
    while i < v.len() && (is_lower_char(v[i]) || v[i] == '.')
        invariant
            from <= i <= v.len(),
            note_chars_end(v@, from as int) == note_chars_end(v@, i as int),
        decreases v.len() - i,
    {
        i = i + 1;
    }
    i
}

/// Scans a group of `mark` and digits at `at`.
fn scan_group(v: &Vec<char>, at: usize, mark: char) -> (end: usize)
    requires
        at <= v.len(),
    ensures
        end == group_end(v@, at as int, mark),
        at <= end <= v.len(),
        end > at ==> crate::text::all_digits(v@.subrange(at + 1, end as int)),
{
    if at < v.len() && v[at] == mark {
        let e = scan_digits(v, at + 1);
        if e > at + 1 {
            proof {
                lemma_digits_end(v@, at + 1);
            }
            return e;
        }
    }
    at
}

/// Reads the number of a group that `scan_group` has found.
fn group_number(v: &Vec<char>, at: usize, end: usize, mark: char) -> (r: Option<u64>)
    requires
        at <= v.len(),
        end == group_end(v@, at as int, mark),
    ensures
        match r {
            Some(n) => group_value(v@, at as int, mark) == n,
            None => group_value(v@, at as int, mark) > u64::MAX,
        },
{
    if end > at {
        proof {
            lemma_digits_end(v@, at + 1);
        }
        parse_decimal(v, at + 1, end, u64::MAX)
    } else {
        Some(1)
    }
}

/// Reads the duration that starts at `at`: nothing where there is none, else
/// its beats, if it gives any.
fn lex_duration(v: &Vec<char>, at: usize) -> (r: Option<Option<Beats>>)
    requires
        at <= v.len(),
    ensures
        match r {
            None => !is_duration(v@, at as int),
            Some(None) => is_duration(v@, at as int) && duration_beats(v@, at as int) is None,
            Some(Some(beats)) => is_duration(v@, at as int) && duration_beats(v@, at as int)
                == Some(beats@),
        },
{
    let m = scan_group(v, at, ':');
    let e = scan_group(v, m, '/');
    if e != v.len() {
        return None;
    }
    let numer = group_number(v, at, m, ':');
    let denom = group_number(v, m, e, '/');
    match numer {
        Some(a) => match denom {
            Some(b) => Some(Beats::new(a, b)),
            None => Some(None),
        },
        None => Some(None),
    }
}

/// What the rule for tempos makes of a symbol.
fn lex_tempo(v: &Vec<char>) -> (r: Option<Option<Token>>)
    ensures
        ruling_view(r) == rule_tempo(v@),
{
    let n = v.len();
    if n < 4 {
        return None;
    }
    let end: usize = n - 3;
    let e = scan_digits(v, 0);
    if e != end || !spells(v, end, n, "BPM") {
        return None;
    }
    proof {
        lemma_digits_end(v@, 0);
    }
    match parse_decimal(v, 0, end, 0xffff) {
        Some(x) => Some(Some(Token::Tempo(x as u16))),
        None => Some(None),
    }
}

/// What the rule for tracks makes of a symbol.
fn lex_track(v: &Vec<char>) -> (r: Option<Option<Token>>)
    ensures
        ruling_view(r) == rule_track(v@),
{
    let n = v.len();
    if n < 3 {
        return None;
    }
    let end: usize = n - 1;
    if v[0] != '[' || v[end] != ']' {
        return None;
    }
    let e = scan_digits(v, 1);
    if e != end {
        return None;
    }
    proof {
        lemma_digits_end(v@, 1);
    }
    match parse_decimal(v, 1, end, 0xffff_ffff) {
        Some(x) => Some(Some(Token::Track(x as u32))),
        None => Some(None),
    }
}

/// What the rule for absolute pitches makes of a symbol.
fn lex_pitch(v: &Vec<char>) -> (r: Option<Option<Token>>)
    ensures
        ruling_view(r) == rule_pitch(v@),
{
    let n = v.len();
    if n < 1 || n > 3 {
        return None;
    }
    if !('A' <= v[0] && v[0] <= 'Z') {
        return None;
    }
    let form: bool = n == 1 || (n == 2 && (is_digit_char(v[1]) || v[1] == '#')) || (n == 3
        && is_digit_char(v[1]) && v[2] == '#');
    if !form {
        return None;
    }
    assert(v@.subrange(0, n as int) == v@);
    match pitch_of_chars(v, 0, n) {
        Some(tone) => Some(Some(Token::AbsolutePitch(ToneId(tone)))),
        None => Some(None),
    }
}

/// What the rule for notes makes of a symbol.
fn lex_note(literal: &str, v: &Vec<char>) -> (r: Option<Option<Token>>)
    requires
        v@ == literal@,
    ensures
        ruling_view(r) == rule_note(v@),
{
    let n = v.len();
    let p = scan_note_chars(v, 0);
    if p == 0 {
        return None;
    }
    let q: usize = if p < n && v[p] == '-' {
        p + 1
    } else {
        p
    };
    let e = scan_note_chars(v, q);
    match lex_duration(v, e) {
        None => None,
        Some(None) => Some(None),
        Some(Some(beats)) => {
            let prefix = literal.substring_char(0, p).to_owned();
            let suffix = literal.substring_char(q, e).to_owned();
            Some(Some(Token::Note(RegoNote { prefix, suffix, beats })))
        },
    }
}

/// The steps that the digits of `v` from `from` up to `to` spell.
fn steps_of_digits(v: &Vec<char>, from: usize, to: usize) -> (r: Vec<u8>)
    requires
        from <= to <= v.len(),
        crate::text::all_digits(v@.subrange(from as int, to as int)),
    ensures
        r@ == digit_steps(v@.subrange(from as int, to as int)),
{
    let ghost digits = v@.subrange(from as int, to as int);
    let mut steps: Vec<u8> = Vec::new();
    let mut i: usize = from;
    while i < to
        invariant
            from <= i <= to <= v.len(),
            digits == v@.subrange(from as int, to as int),
            crate::text::all_digits(digits),
            steps@ == digit_steps(digits).take(i - from),
        decreases to - i,
    {
        let c: char = v[i];
        assert(c == digits[i - from]);
        let step: u8 = (c as u32 - 0x30) as u8;
        assert(digit_steps(digits).take(i - from + 1) == digit_steps(digits).take(i - from).push(
            step,
        ));
        steps.push(step);
        i = i + 1;
    }
    assert(digit_steps(digits).take(to - from) == digit_steps(digits));
    steps
}

/// What the rule for scales makes of a symbol.
fn lex_scale(literal: &str, v: &Vec<char>) -> (r: Option<Option<Token>>)
    requires
        v@ == literal@,
    ensures
        ruling_view(r) == rule_scale(v@),
{
    let n = v.len();
    if n < 1 || !('A' <= v[0] && v[0] <= 'G') {
        return None;
    }
    let e = scan_digits(v, 1);
    let root_end: usize = if e < n && (v[e] == '#' || v[e] == 'b') {
        e + 1
    } else {
        e
    };
    if root_end == n {
        assert(v@.subrange(root_end as int, n as int).len() == 0);
        return Some(None);
    }
    let bracketed: bool = n - root_end >= 3 && v[root_end] == '[' && v[n - 1] == ']' && scan_digits(
        v,
        root_end + 1,
    ) == n - 1;
    let steps = if bracketed {
        proof {
            lemma_digits_end(v@, root_end + 1);
        }
        Some(steps_of_digits(v, root_end + 1, n - 1))
    } else {
        get_named_scale_steps(literal.substring_char(root_end, n))
    };
    match steps {
        None => None,
        Some(steps) => match pitch_of_chars(v, 0, root_end) {
            Some(tone) => Some(
                Some(Token::Scale(Scale { name: literal.to_owned(), tone_id: ToneId(tone), steps })),
            ),
            None => Some(None),
        },
    }
}

/// What the rule for dynamics makes of a symbol.
fn lex_dynamic(literal: &str) -> (r: Option<Option<Token>>)
    ensures
        ruling_view(r) == rule_dynamic(literal@),
{
    match parse_dynamic_level(literal) {
        Some(level) => Some(Some(Token::Dynamic(level))),
        None => None,
    }
}

/// What the rule for scale degrees makes of a symbol.
fn lex_degree(v: &Vec<char>) -> (r: Option<Option<Token>>)
    ensures
        ruling_view(r) == rule_degree(v@),
{
    let n = v.len();
    let e = scan_digits(v, 0);
    if e < 1 {
        return None;
    }
    if !(e == n || (e == n - 1 && (v[e] == '#' || v[e] == 'b'))) {
        return None;
    }
    proof {
        lemma_digits_end(v@, 0);
    }
    match parse_decimal(v, 0, e, 0xff) {
        Some(x) => Some(Some(Token::ScaleDegree(x as u8))),
        None => Some(None),
    }
}

/// What the rule for bars makes of a symbol.
fn lex_bar(v: &Vec<char>) -> (r: Option<Option<Token>>)
    ensures
        ruling_view(r) == rule_bar(v@),
{
    let n = v.len();
    assert(v@.subrange(0, n as int) == v@);
    if spells(v, 0, n, "|") {
        Some(Some(Token::MeasureBar(false, false)))
    } else if spells(v, 0, n, "|:") {
        Some(Some(Token::MeasureBar(false, true)))
    } else if spells(v, 0, n, ":|") {
        Some(Some(Token::MeasureBar(true, false)))
    } else if spells(v, 0, n, ":|:") {
        Some(Some(Token::MeasureBar(true, true)))
    } else {
        None
    }
}

/// What the rule for rests makes of a symbol.
fn lex_rest(v: &Vec<char>) -> (r: Option<Option<Token>>)
    ensures
        ruling_view(r) == rule_rest(v@),
{
    if v.len() < 1 || v[0] != '-' {
        return None;
    }
    match lex_duration(v, 1) {
        None => None,
        Some(None) => Some(None),
        Some(Some(beats)) => Some(
            Some(Token::Note(RegoNote { prefix: "_".to_owned(), suffix: String::new(), beats })),
        ),
    }
}

/// What the rule for section headers makes of a symbol.
fn lex_section(literal: &str, v: &Vec<char>) -> (r: Option<Option<Token>>)
    requires
        v@ == literal@,
    ensures
        ruling_view(r) == rule_section(v@),
{
    let n = v.len();
    if n < 6 {
        return None;
    }
    let end: usize = n - 3;
    if !spells(v, 0, 3, "===") || !spells(v, end, n, "===") {
        return None;
    }
    let mut i: usize = 3;
    while i < end
        invariant
            3 <= i <= end,
            end == v.len() - 3,
            forall|j: int| 3 <= j < i ==> is_name_char(#[trigger] v@[j]),
        decreases end - i,
    {
        if is_space_char(v[i]) || v[i] == '-' {
            return None;
        }
        i = i + 1;
    }
    Some(Some(Token::Section(literal.substring_char(3, end).to_owned())))
}

/// What the rule for time signatures makes of a symbol.
fn lex_time_signature(v: &Vec<char>) -> (r: Option<Option<Token>>)
    ensures
        ruling_view(r) == rule_time_signature(v@),
{
    let n = v.len();
    let e = scan_digits(v, 0);
    if e < 1 || e >= n || v[e] != '/' {
        return None;
    }
    let e2 = scan_digits(v, e + 1);
    if e2 != n || e + 1 >= n {
        return None;
    }
    proof {
        lemma_digits_end(v@, 0);
        lemma_digits_end(v@, e + 1);
    }
    let numer = parse_decimal(v, 0, e, 0xff);
    let denom = parse_decimal(v, e + 1, n, 0xff);
    match numer {
        Some(a) => match denom {
            Some(b) => Some(Some(Token::TimeSignature((a as u8, b as u8)))),
            None => Some(None),
        },
        None => Some(None),
    }
}

/// The token of one symbol, or nothing where the symbol is no token.
pub fn lex_literal(literal: &str) -> (r: Option<Token>)
    ensures
        match r {
            Some(token) => lex(literal@) == Some(token@),
            None => lex(literal@) is None,
        },
{
    let v = to_chars(literal);
    assert(v@.subrange(0, v.len() as int) == v@);
    if spells(&v, 0, v.len(), "<eol>") {
        return Some(Token::Endline());
    }
    match lex_tempo(&v) {
        Some(decision) => {
            return decision;
        },
        None => {},
    }
    match lex_track(&v) {
        Some(decision) => {
            return decision;
        },
        None => {},
    }
    match lex_pitch(&v) {
        Some(decision) => {
            return decision;
        },
        None => {},
    }
    match lex_note(literal, &v) {
        Some(decision) => {
            return decision;
        },
        None => {},
    }
    match lex_scale(literal, &v) {
        Some(decision) => {
            return decision;
        },
        None => {},
    }
    match lex_dynamic(literal) {
        Some(decision) => {
            return decision;
        },
        None => {},
    }
    match lex_degree(&v) {
        Some(decision) => {
            return decision;
        },
        None => {},
    }
    match lex_bar(&v) {
        Some(decision) => {
            return decision;
        },
        None => {},
    }
    match lex_rest(&v) {
        Some(decision) => {
            return decision;
        },
        None => {},
    }
    match lex_section(literal, &v) {
        Some(decision) => {
            return decision;
        },
        None => {},
    }
    match lex_time_signature(&v) {
        Some(decision) => {
            return decision;
        },
        None => {},
    }
    None
}

/// The tokens of a run of literals, each with its literal; or the error of
/// the first literal that is no token.
pub open spec fn lex_all(literals: Seq<LiteralView>) -> Result<
    Seq<(LiteralView, TokenView)>,
    CompileErrorView,
>
    decreases literals.len(),
{
    if literals.len() == 0 {
        Ok(Seq::empty())
    } else {
        match lex_all(literals.drop_last()) {
            Err(e) => Err(e),
            Ok(tokens) => match lex(literals.last().literal) {
                Some(token) => Ok(tokens.push((literals.last(), token))),
                None => Err(CompileErrorView::InvalidSyntax(literals.last())),
            },
        }
    }
}

/// Lexing keeps the literals: where it succeeds there is one token for each
/// literal, in the same order, paired with the literal it was read from.
pub proof fn lemma_lex_all_pairs(literals: Seq<LiteralView>)
    ensures
        lex_all(literals) matches Ok(tokens) ==> tokens.len() == literals.len() && forall|i: int|
            0 <= i < literals.len() ==> (#[trigger] tokens[i]).0 == literals[i] && lex(
                literals[i].literal,
            ) == Some(tokens[i].1),
    decreases literals.len(),
{
    if literals.len() > 0 {
        lemma_lex_all_pairs(literals.drop_last());
    }
}

/// Lexing succeeds exactly where every literal is a token; where it fails, the
/// error names the first literal that is none.
pub proof fn lemma_lex_all_fails(literals: Seq<LiteralView>)
    ensures
        lex_all(literals) is Ok <==> forall|i: int|
            0 <= i < literals.len() ==> lex((#[trigger] literals[i]).literal) is Some,
        lex_all(literals) matches Err(e) ==> exists|k: int|
            0 <= k < literals.len() && e == CompileErrorView::InvalidSyntax(literals[k]) && lex(
                (#[trigger] literals[k]).literal,
            ) is None && forall|i: int| 0 <= i < k ==> lex((#[trigger] literals[i]).literal) is Some,
    decreases literals.len(),
{
    if literals.len() > 0 {
        let front = literals.drop_last();
        lemma_lex_all_fails(front);
        let n = literals.len() - 1;
        assert forall|i: int| 0 <= i < n implies front[i] == literals[i] by {}
        match lex_all(front) {
            Ok(tokens) => {
                assert forall|i: int| 0 <= i < n implies lex(
                    (#[trigger] literals[i]).literal,
                ) is Some by {
                    assert(front[i] == literals[i]);
                }
                if lex(literals.last().literal) is None {
                    assert(literals[n] == literals.last());
                }
            },
            Err(e) => {
                let k = choose|k: int|
                    0 <= k < front.len() && e == CompileErrorView::InvalidSyntax(front[k]) && lex(
                        (#[trigger] front[k]).literal,
                    ) is None && forall|i: int|
                        0 <= i < k ==> lex((#[trigger] front[i]).literal) is Some;
                assert(front[k] == literals[k]);
                assert forall|i: int| 0 <= i < k implies lex(
                    (#[trigger] literals[i]).literal,
                ) is Some by {
                    assert(front[i] == literals[i]);
                }
            },
        }
    }
}

/// An error among the first literals is the error of them all.
pub proof fn lemma_lex_error_stays(literals: Seq<LiteralView>, n: int)
    requires
        0 <= n <= literals.len(),
        lex_all(literals.take(n)) is Err,
    ensures
        lex_all(literals) == lex_all(literals.take(n)),
    decreases literals.len() - n,
{
    if n < literals.len() {
        assert(literals.take(n + 1).drop_last() == literals.take(n));
        lemma_lex_error_stays(literals, n + 1);
    } else {
        assert(literals.take(n) == literals);
    }
}

/// The tokens of a run of literals.
pub fn lex_literals(literals: &Vec<Literal>) -> (r: CompileResult<Vec<(Literal, Token)>>)
    ensures
        match r {
            Ok(tokens) => lex_all(literals_view(literals@)) == Ok::<
                Seq<(LiteralView, TokenView)>,
                CompileErrorView,
            >(lexemes_view(tokens@)),
            Err(e) => lex_all(literals_view(literals@)) == Err::<
                Seq<(LiteralView, TokenView)>,
                CompileErrorView,
            >(e@),
        },
{
    let ghost views = literals_view(literals@);
    let mut ret: Vec<(Literal, Token)> = Vec::new();
    let mut i: usize = 0;
    assert(lexemes_view(ret@) == Seq::<(LiteralView, TokenView)>::empty());
    while i < literals.len()
        invariant
            i <= literals.len(),
            views == literals_view(literals@),
            lex_all(views.take(i as int)) == Ok::<Seq<(LiteralView, TokenView)>, CompileErrorView>(
                lexemes_view(ret@),
            ),
        decreases literals.len() - i,
    {
        proof {
            assert(views.take(i + 1).drop_last() == views.take(i as int));
            assert(views.take(i + 1).last() == literals@[i as int]@);
        }
        let lit = &literals[i];
        let ghost before = ret@;
        match lex_literal(lit.literal.as_str()) {
            Some(token) => {
                let pair = (lit.clone(), token);
                ret.push(pair);
                assert(lexemes_view(ret@) == lexemes_view(before).push((pair.0@, pair.1@)));
            },
            None => {
                proof {
                    lemma_lex_error_stays(views, i + 1);
                }
                return Err(CompileError::InvalidSyntax(lit.clone()));
            },
        }
        i = i + 1;
    }
    proof {
        assert(views.take(literals.len() as int) == views);
    }
    Ok(ret)
}

/// The tokens of a plain source that has no name.
pub fn lex_multiline_string(source: &str) -> (r: CompileResult<Vec<(Literal, Token)>>)
    ensures
        match r {
            Ok(tokens) => lex_all(source_literals(source@, Seq::empty())) == Ok::<
                Seq<(LiteralView, TokenView)>,
                CompileErrorView,
            >(lexemes_view(tokens@)),
            Err(e) => lex_all(source_literals(source@, Seq::empty())) == Err::<
                Seq<(LiteralView, TokenView)>,
                CompileErrorView,
            >(e@),
        },
{
    proof {
        reveal_strlit("");
        assert(""@ =~= Seq::<char>::empty());
    }
    match read_literals_from_multiline_string(source, "") {
        Ok(literals) => lex_literals(&literals),
        Err(e) => Err(e),
    }
}

/// The tokens of a plain source, the text of the file `filename`.
pub fn lex_file(source: &str, filename: &str) -> (r: CompileResult<Vec<(Literal, Token)>>)
    ensures
        match r {
            Ok(tokens) => lex_all(source_literals(source@, filename@)) == Ok::<
                Seq<(LiteralView, TokenView)>,
                CompileErrorView,
            >(lexemes_view(tokens@)),
            Err(e) => lex_all(source_literals(source@, filename@)) == Err::<
                Seq<(LiteralView, TokenView)>,
                CompileErrorView,
            >(e@),
        },
{
    match read_literals_from_multiline_string(source, filename) {
        Ok(literals) => lex_literals(&literals),
        Err(e) => Err(e),
    }
}

/// The tokens of a Markdown source, the text of the file `filename`.
pub fn lex_markdown(source: &str, filename: &str) -> (r: CompileResult<Vec<(Literal, Token)>>)
    ensures
        match r {
            Ok(tokens) => lex_all(markdown_literals(source@, filename@)) == Ok::<
                Seq<(LiteralView, TokenView)>,
                CompileErrorView,
            >(lexemes_view(tokens@)),
            Err(e) => lex_all(markdown_literals(source@, filename@)) == Err::<
                Seq<(LiteralView, TokenView)>,
                CompileErrorView,
            >(e@),
        },
{
    match read_literals_from_markdown(source, filename) {
        Ok(literals) => lex_literals(&literals),
        Err(e) => Err(e),
    }
}

} // verus!
