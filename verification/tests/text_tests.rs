use regolith::beats::Beats;
use regolith::lexer::lex_literal;
use regolith::lexer::parse_dynamic_level;
use regolith::lexer::pitch_string_to_id;
use regolith::report::error_message;
use regolith::report::pluralize;
use regolith::text::chars_equal;
use regolith::text::is_space_char;
use regolith::text::parse_decimal;
use regolith::text::push_decimal;
use regolith::text::push_signed_decimal;
use regolith::text::same_text;
use regolith::text::scan_digits;
use regolith::text::spells;
use regolith::text::to_chars;
use regolith::types::sample_scale;
use regolith::types::try_sample_scale;
use regolith::types::CompileError;
use regolith::types::DynamicLevel;
use regolith::types::Literal;
use regolith::types::Measure;
use regolith::types::NoteDecl;
use regolith::types::RegoNote;
use regolith::types::Scale;
use regolith::types::Token;
use regolith::types::ToneId;

fn lit(text: &str, lineno: usize, colno: usize) -> Literal {
    Literal {
        literal: text.to_string(),
        filename: "f".to_string(),
        lineno,
        colno,
        idno: 9,
    }
}

#[test]
fn chars_and_words() {
    assert_eq!(to_chars("a\u{e9}b"), vec!['a', '\u{e9}', 'b']);
    assert!(chars_equal(&vec!['a', 'b'], &vec!['a', 'b']));
    assert!(!chars_equal(&vec!['a', 'b'], &vec!['a', 'c']));
    assert!(!chars_equal(&vec!['a'], &vec!['a', 'c']));
    assert!(same_text("abc", "abc"));
    assert!(!same_text("abc", "abd"));
    let v = to_chars("12BPM");
    assert!(spells(&v, 2, 5, "BPM"));
    assert!(!spells(&v, 1, 5, "BPM"));
    assert!(!spells(&v, 2, 5, "BPX"));
    assert_eq!(scan_digits(&v, 0), 2);
    assert_eq!(scan_digits(&v, 2), 2);
    assert_eq!(scan_digits(&v, 5), 5);
}

#[test]
fn decimal_numbers() {
    let v = to_chars("x00123y");
    assert_eq!(parse_decimal(&v, 1, 6, 255), Some(123));
    assert_eq!(parse_decimal(&v, 1, 6, 122), None);
    assert_eq!(parse_decimal(&v, 1, 6, 123), Some(123));
    assert_eq!(parse_decimal(&v, 1, 1, 5), Some(0));
    let big = to_chars("18446744073709551615");
    assert_eq!(parse_decimal(&big, 0, 20, u64::MAX), Some(u64::MAX));
    let bigger = to_chars("18446744073709551616");
    assert_eq!(parse_decimal(&bigger, 0, 20, u64::MAX), None);
    let mut out = String::from("n=");
    push_decimal(&mut out, 0);
    push_decimal(&mut out, 907);
    push_decimal(&mut out, u64::MAX);
    assert_eq!(out, "n=090718446744073709551615");
    let mut out = String::new();
    push_signed_decimal(&mut out, -42);
    push_signed_decimal(&mut out, 42);
    push_signed_decimal(&mut out, i64::MIN);
    assert_eq!(out, "-4242-9223372036854775808");
}

#[test]
fn white_space_is_unicode_white_space() {
    for code in 0u32..0x11_0000 {
        if let Some(c) = char::from_u32(code) {
            assert_eq!(is_space_char(c), c.is_whitespace(), "{:x}", code);
        }
    }
}

#[test]
fn every_pitch_of_the_table() {
    let table = [
        ("A", 10),
        ("A#", 11),
        ("B", 12),
        ("C", 13),
        ("C#", 14),
        ("D", 15),
        ("D#", 16),
        ("E", 17),
        ("F", 18),
        ("F#", 19),
        ("G", 20),
        ("G#", 21),
        ("C1", 1),
        ("C1#", 2),
        ("D1", 3),
        ("D1#", 4),
        ("E1", 5),
        ("F1", 6),
        ("F1#", 7),
        ("G1", 8),
        ("G1#", 9),
        ("A1", 10),
        ("A1#", 11),
        ("B1", 12),
        ("C2", 13),
        ("C2#", 14),
        ("D2", 15),
        ("D2#", 16),
        ("E2", 17),
        ("F2", 18),
        ("F2#", 19),
        ("G2", 20),
        ("G2#", 21),
        ("A2", 22),
        ("A2#", 23),
        ("B2", 24),
        ("C3", 25),
        ("C3#", 26),
        ("D3", 27),
        ("D3#", 28),
        ("E3", 29),
        ("F3", 30),
        ("F3#", 31),
        ("G3", 32),
        ("G3#", 33),
        ("A3", 34),
        ("A3#", 35),
        ("B3", 36),
        ("C4", 37),
    ];
    for (name, id) in table {
        assert_eq!(pitch_string_to_id(name), Some(ToneId(id)), "{}", name);
    }
}

#[test]
fn only_the_pitches_of_the_table() {
    let letters = ['A', 'B', 'C', 'D', 'E', 'F', 'G', 'H', 'Z', 'c'];
    let mut known = 0;
    for letter in letters {
        for digit in ["", "0", "1", "2", "3", "4", "5", "9"] {
            for sharp in ["", "#", "b"] {
                let name = format!("{}{}{}", letter, digit, sharp);
                if pitch_string_to_id(&name).is_some() {
                    known += 1;
                }
            }
        }
    }
    assert_eq!(known, 49);
    assert_eq!(pitch_string_to_id("E#"), None);
    assert_eq!(pitch_string_to_id("B2#"), None);
    assert_eq!(pitch_string_to_id("C4#"), None);
    assert_eq!(pitch_string_to_id("D4"), None);
    assert_eq!(pitch_string_to_id("C0"), None);
    assert_eq!(pitch_string_to_id("C22"), None);
    assert_eq!(pitch_string_to_id("C#2"), None);
}

#[test]
fn dynamic_words() {
    assert_eq!(parse_dynamic_level("PIANO"), Some(DynamicLevel::Piano));
    assert_eq!(parse_dynamic_level("piano"), None);
    assert_eq!(parse_dynamic_level("FORTEX"), None);
    assert_eq!(lex_literal("xFORTE"), None);
    assert_eq!(lex_literal("FORTISSIMOS"), None);
}

#[test]
fn beats_are_exact_and_in_lowest_terms() {
    let token = lex_literal("-:3/2").unwrap();
    match token {
        Token::Note(note) => {
            assert_eq!(note.prefix, "_");
            assert_eq!(note.suffix, "");
            assert_eq!(note.beats.numer(), 3);
            assert_eq!(note.beats.denom(), 2);
            assert_eq!(note.beats, Beats::new(3, 2).unwrap());
        }
        other => panic!("unexpected {:?}", other),
    }
    assert_eq!(Beats::new(6, 4), Beats::new(3, 2));
    assert_eq!(Beats::new(6, 4).unwrap().numer(), 3);
    assert_eq!(Beats::new(6, 4).unwrap().denom(), 2);
    assert_eq!(Beats::new(0, 7), Some(Beats::zero()));
    assert_eq!(Beats::new(0, 7).unwrap().denom(), 1);
    assert_eq!(Beats::new(5, 0), None);
    assert_eq!(Beats::new(0, 0), None);
    assert_eq!(lex_literal("a:6/4"), lex_literal("a:3/2"));
    assert_eq!(lex_literal("a/0"), None);
    assert_eq!(lex_literal("-:2/0"), None);
    assert_eq!(lex_literal("a:18446744073709551616"), None);
}

#[test]
fn sums_of_beats() {
    let third = Beats::new(1, 3).unwrap();
    let sixth = Beats::new(1, 6).unwrap();
    assert_eq!(third.checked_add(&sixth), Beats::new(1, 2));
    assert_eq!(Beats::zero().checked_add(&third), Some(third));
    let huge = Beats::new(u64::MAX, 1).unwrap();
    assert_eq!(huge.checked_add(&Beats::new(1, 1).unwrap()), None);
    assert_eq!(Beats::new(1, u64::MAX).unwrap().checked_add(&Beats::new(1, u64::MAX - 1).unwrap()), None);
    assert!(Beats::new(8, 2).unwrap().is_whole(4));
    assert!(!Beats::new(8, 3).unwrap().is_whole(4));
    assert!(Beats::zero().is_whole(0));
}

fn note(text: &str, numer: u64, denom: u64) -> NoteDecl {
    NoteDecl {
        note: RegoNote {
            prefix: text.to_string(),
            suffix: "".to_string(),
            beats: Beats::new(numer, denom).unwrap(),
        },
        note_literal: lit(text, 0, 0),
        tone_id: ToneId(13),
    }
}

fn measure(notes: Vec<NoteDecl>) -> Measure {
    Measure { start: lit("|", 2, 0), end: lit(":|", 2, 14), close: true, open: false, track: 0, notes }
}

#[test]
fn beats_of_a_measure() {
    assert_eq!(measure(vec![]).count_beats(), Some(Beats::zero()));
    assert_eq!(
        measure(vec![note("a", 1, 2), note("b", 1, 3), note("c", 1, 6)]).count_beats(),
        Beats::new(1, 1)
    );
    assert_eq!(measure(vec![note("a", u64::MAX, 1), note("b", 1, 1)]).count_beats(), None);
}

#[test]
fn degrees_of_scales() {
    let scale = Scale::cmajor();
    assert_eq!(scale.name, "cmajor");
    assert_eq!(try_sample_scale(&scale, 0), None);
    assert_eq!(try_sample_scale(&scale, 1), Some(ToneId(13)));
    assert_eq!(try_sample_scale(&scale, 15), Some(ToneId(37)));
    assert_eq!(try_sample_scale(&scale, 142), Some(ToneId(255)));
    assert_eq!(try_sample_scale(&scale, 143), None);
    let empty = Scale { name: "none".to_string(), tone_id: ToneId(1), steps: vec![] };
    assert_eq!(try_sample_scale(&empty, 1), None);
    let penta = Scale { name: "p".to_string(), tone_id: ToneId(10), steps: vec![2, 2, 3, 2, 3] };
    assert_eq!(sample_scale(&penta, 5), ToneId(19));
    assert_eq!(sample_scale(&penta, 6), ToneId(22));
    assert_eq!(sample_scale(&penta, 12), ToneId(36));
}

#[test]
fn literals_as_text() {
    assert_eq!(lit("ih-s:3/2", 12, 7).to_string(), "\"ih-s:3/2\", line 12, column 7");
    assert_eq!(lit("", 0, 0).to_string(), "\"\", line 0, column 0");
}

#[test]
fn plurals() {
    assert_eq!(pluralize(0), "s");
    assert_eq!(pluralize(1), "");
    assert_eq!(pluralize(2), "s");
}

#[test]
fn messages_of_errors() {
    assert_eq!(
        error_message(&CompileError::InvalidSyntax(lit("$", 3, 4))),
        "\n    Invalid syntax.\n\n    \"$\", line 3, col 4\n"
    );
    assert_eq!(error_message(&CompileError::Generic("oops".to_string())), "\n  Generic error: oops\n");
    assert_eq!(
        error_message(&CompileError::GenericSyntax("eof".to_string())),
        "\n  Generic error: eof\n"
    );
    assert_eq!(
        error_message(&CompileError::Unexpected("Expected x".to_string(), Token::Tempo(1), lit("1BPM", 0, 2))),
        "\n  Unexpected token: Expected x\n    Problematic token -- \"1BPM\", line 0, col 2\n"
    );
    assert_eq!(
        error_message(&CompileError::PreambleOrder(lit("===a===", 1, 0), lit("C3", 1, 8), lit("FORTE", 2, 5))),
        "\n  Cannot declare preamble element after staff has begun.\n    In this section --          \"===a===\", line 1, col 0\n    Staff begins here --        \"C3\", line 1, col 8\n    Problematic element is --   \"FORTE\", line 2, col 5\n"
    );
    assert_eq!(
        error_message(&CompileError::EmptyMeasure(lit("|", 1, 0), lit("|", 1, 2))),
        "\n  Empty measure.\n    Measure starts here -- \"|\", line 1, col 0\n    Measure ends here -- \"|\", line 1, col 2\n"
    );
    assert_eq!(
        error_message(&CompileError::TimeSignatureViolation {
            measure: measure(vec![note("a", 3, 2), note("b", 1, 1)]),
            time_signature: lit("4/4", 0, 7),
            nominal: (4, 4),
        }),
        "\n    Time signature violation.\n\n    This measure is 5/2 beats, which violates time signature (4, 4)\n    Time signature declared here -- \"4/4\", line 0, column 7\n    Initiating element --  \"|\", line 2, column 0\n    Terminating element -- \":|\", line 2, column 14\n"
    );
    assert_eq!(
        error_message(&CompileError::TimeSignatureViolation {
            measure: measure(vec![note("a", 3, 1)]),
            time_signature: lit("4/4", 0, 7),
            nominal: (4, 4),
        }),
        "\n    Time signature violation.\n\n    This measure is 3 beats, which violates time signature (4, 4)\n    Time signature declared here -- \"4/4\", line 0, column 7\n    Initiating element --  \"|\", line 2, column 0\n    Terminating element -- \":|\", line 2, column 14\n"
    );
    assert_eq!(
        error_message(&CompileError::NetworkError("refused".to_string())),
        "\n    Network error.\n\n    refused\n"
    );
    assert_eq!(
        error_message(&CompileError::FileError("denied".to_string())),
        "\n    File IO error.\n\n    denied\n"
    );
    assert_eq!(error_message(&CompileError::TrackTooLarge), "\n    Track too large; API call failed.\n\n");
    assert_eq!(
        error_message(&CompileError::TooManyRequests),
        "\n    Too many requests; API call failed.\n\n"
    );
    assert_eq!(
        error_message(&CompileError::DifferingMeasureCounts(0, 2, 1, 1)),
        "\n    Tracks have inconsistent length.\n\n    Track 0 has 2 measures;\n    Track 1 has 1 measure.\n"
    );
    assert_eq!(error_message(&CompileError::EmptyTrack(6)), "\n    Track 6 contains no measures.\n\n");
}

#[test]
fn more_symbols() {
    assert_eq!(lex_literal("<eol>"), Some(Token::Endline()));
    assert_eq!(lex_literal(""), None);
    assert_eq!(lex_literal("65535BPM"), Some(Token::Tempo(65535)));
    assert_eq!(lex_literal("65536BPM"), None);
    assert_eq!(lex_literal("BPM"), None);
    assert_eq!(lex_literal("[4294967295]"), Some(Token::Track(4294967295)));
    assert_eq!(lex_literal("[4294967296]"), None);
    assert_eq!(lex_literal("[]"), None);
    assert_eq!(lex_literal("J3"), None);
    assert_eq!(lex_literal("255"), Some(Token::ScaleDegree(255)));
    assert_eq!(lex_literal("256"), None);
    assert_eq!(lex_literal("12#"), Some(Token::ScaleDegree(12)));
    assert_eq!(lex_literal("12b"), Some(Token::ScaleDegree(12)));
    assert_eq!(lex_literal("0"), Some(Token::ScaleDegree(0)));
    assert_eq!(lex_literal("255/255"), Some(Token::TimeSignature((255, 255))));
    assert_eq!(lex_literal("256/4"), None);
    assert_eq!(lex_literal("4/"), None);
    assert_eq!(lex_literal("/4"), None);
    assert_eq!(lex_literal("=======" ), Some(Token::Section("=".to_string())));
    assert_eq!(lex_literal("===a-b==="), None);
    assert_eq!(lex_literal("===a b==="), None);
    assert_eq!(lex_literal("====="), None);
    assert_eq!(
        lex_literal("C[2212221]"),
        Some(Token::Scale(Scale {
            name: "C[2212221]".to_string(),
            tone_id: ToneId(13),
            steps: vec![2, 2, 1, 2, 2, 2, 1]
        }))
    );
    assert_eq!(
        lex_literal("A3#[09]"),
        Some(Token::Scale(Scale { name: "A3#[09]".to_string(), tone_id: ToneId(35), steps: vec![0, 9] }))
    );
    assert_eq!(lex_literal("C[]"), None);
    assert_eq!(lex_literal("Cb"), None);
    assert_eq!(lex_literal("AbMAJOR"), None);
    assert_eq!(lex_literal("CMAJORS"), None);
    assert_eq!(lex_literal("a-"), lex_literal("a"));
    assert_eq!(lex_literal("a-b-c"), None);
    assert_eq!(lex_literal("a:"), None);
    assert_eq!(lex_literal("a/2:3"), None);
    assert_eq!(lex_literal("-"), lex_literal("-:1/1"));
    assert_eq!(lex_literal("."), lex_literal(".:1"));
    assert_eq!(lex_literal("\u{661}BPM"), None);
}
