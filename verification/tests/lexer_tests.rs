use regolith::beats::Beats;
use regolith::canonical::canonical_symbol;
use regolith::lexer::get_named_scale_steps;
use regolith::lexer::lex_literal;
use regolith::lexer::pitch_string_to_id;
use regolith::types::DynamicLevel;
use regolith::types::RegoNote;
use regolith::types::Scale;
use regolith::types::Token;
use regolith::types::ToneId;

fn lex_assert(symbol: &str, expect: Token) {
    match lex_literal(symbol) {
        Some(result) => assert_eq!(result, expect),
        None => panic!("no token for {}", symbol),
    }
}

fn lex_nope(symbol: &str) {
    assert_eq!(lex_literal(symbol), None);
}

fn note(prefix: &str, suffix: &str, numer: u64, denom: u64) -> Token {
    Token::Note(RegoNote {
        prefix: prefix.to_string(),
        suffix: suffix.to_string(),
        beats: Beats::new(numer, denom).unwrap(),
    })
}

#[test]
fn pitch_string_conversions() {
    assert_eq!(pitch_string_to_id("C1"), Some(ToneId(1)));
    assert_eq!(pitch_string_to_id("D2#"), Some(ToneId(16)));
    assert_eq!(pitch_string_to_id("A2#"), Some(ToneId(23)));
    assert_eq!(pitch_string_to_id("G3"), Some(ToneId(32)));
    assert_eq!(pitch_string_to_id("C4"), Some(ToneId(37)));
    assert_eq!(pitch_string_to_id(""), None);
    assert_eq!(pitch_string_to_id("J3"), None);
    assert_eq!(pitch_string_to_id("Bb"), None);
}

#[test]
fn named_scale_lookup() {
    assert_eq!(get_named_scale_steps("MAJOR"), Some(vec![2, 2, 1, 2, 2, 2, 1]));
    assert_eq!(get_named_scale_steps("MINOR"), Some(vec![2, 1, 2, 2, 1, 2, 2]));
    assert_eq!(get_named_scale_steps("PENTA"), Some(vec![2, 2, 3, 2, 3]));
    assert_eq!(get_named_scale_steps("CHROM"), Some(vec![1, 1, 1, 1, 1, 1, 1, 1, 1, 1, 1, 1]));
    assert_eq!(get_named_scale_steps("DINGO"), None);
    assert_eq!(get_named_scale_steps(""), None);
}

#[test]
fn dynamic_lexing() {
    lex_assert("PIANISSIMO", Token::Dynamic(DynamicLevel::Pianissimo));
    lex_assert("PIANO", Token::Dynamic(DynamicLevel::Piano));
    lex_assert("MEZZOPIANO", Token::Dynamic(DynamicLevel::Mezzopiano));
    lex_assert("MEZZOFORTE", Token::Dynamic(DynamicLevel::Mezzoforte));
    lex_assert("FORTE", Token::Dynamic(DynamicLevel::Forte));
    lex_assert("FORTISSIMO", Token::Dynamic(DynamicLevel::Fortissimo));
}

#[test]
fn note_lexing() {
    lex_assert("ih-s:3/2", note("ih", "s", 3, 2));
    lex_assert("uh-n/2", note("uh", "n", 1, 2));
    lex_assert("ne/3", note("ne", "", 1, 3));
    lex_assert("-:12", note("_", "", 12, 1));
}

#[test]
fn absolute_pitch_lexing() {
    lex_assert("C", Token::AbsolutePitch(ToneId(13)));
    lex_assert("D", Token::AbsolutePitch(ToneId(15)));
    lex_assert("E", Token::AbsolutePitch(ToneId(17)));
}

#[test]
fn relative_pitch_lexing() {
    lex_assert("1", Token::ScaleDegree(1));
    lex_assert("2", Token::ScaleDegree(2));
    lex_assert("5", Token::ScaleDegree(5));
    lex_assert("13", Token::ScaleDegree(13));

    lex_nope("-4");
    lex_nope("352d");
}

#[test]
fn scale_lexing() {
    lex_assert(
        "CMAJOR",
        Token::Scale(Scale {
            name: "CMAJOR".to_string(),
            tone_id: ToneId(13),
            steps: vec![2, 2, 1, 2, 2, 2, 1],
        }),
    );

    lex_assert(
        "AMINOR",
        Token::Scale(Scale {
            name: "AMINOR".to_string(),
            tone_id: ToneId(10),
            steps: vec![2, 1, 2, 2, 1, 2, 2],
        }),
    );

    lex_assert(
        "G#PENTA",
        Token::Scale(Scale {
            name: "G#PENTA".to_string(),
            tone_id: ToneId(21),
            steps: vec![2, 2, 3, 2, 3],
        }),
    );

    lex_assert(
        "D3#CHROM",
        Token::Scale(Scale {
            name: "D3#CHROM".to_string(),
            tone_id: ToneId(28),
            steps: vec![1, 1, 1, 1, 1, 1, 1, 1, 1, 1, 1, 1],
        }),
    );

    lex_nope("Fb3");
    lex_nope("K4[22211]");
}

#[test]
fn bar_lexing() {
    lex_assert("|", Token::MeasureBar(false, false));
    lex_assert("|:", Token::MeasureBar(false, true));
    lex_assert(":|", Token::MeasureBar(true, false));
    lex_assert(":|:", Token::MeasureBar(true, true));

    lex_nope(":|x-1");
    lex_nope(":|x-5");
    lex_nope(":|x-15");
}

#[test]
fn bpm_lexing() {
    lex_assert("120BPM", Token::Tempo(120));
    lex_assert("92BPM", Token::Tempo(92));
    lex_assert("1103BPM", Token::Tempo(1103));
    lex_assert("0BPM", Token::Tempo(0));

    lex_nope("-12BPM");
    lex_nope("CHEESEBPM");
    lex_nope("--BPM");
}

#[test]
fn track_lexing() {
    lex_assert("[0]", Token::Track(0));
    lex_assert("[1]", Token::Track(1));
    lex_assert("[2]", Token::Track(2));
    lex_assert("[9]", Token::Track(9));
    lex_assert("[12]", Token::Track(12));
}

#[test]
fn garbage_lexing() {
    lex_nope("wefwe$234");
    lex_nope("dddFd");
    lex_nope("...--");
}

#[test]
fn section_lexing() {
    lex_assert("======", Token::Section("".to_string()));
    lex_assert("===hello===", Token::Section("hello".to_string()));
    lex_assert("===GOO===", Token::Section("GOO".to_string()));
    lex_assert("===34g===", Token::Section("34g".to_string()));
}

#[test]
fn canonical_symbols_read_back() {
    let symbols = [
        "120BPM", "007BPM", "0BPM", "[0]", "[012]", "C", "A#", "G3#", "C4", "C1", "B3", "a", ".",
        "ih-s:3/2", "uh-n/2", "ne/3", "la-:6/4", "x:0/5", "-", "-:12", "-/8", "-:10/4", "CMAJOR",
        "D3#CHROM", "A[123]", "FORTE", "PIANISSIMO", "MEZZOPIANO", "7", "13#", "2b", "|", "|:",
        ":|", ":|:", "======", "===hello===", "=======", "4/4", "06/008", "<eol>",
    ];
    for symbol in symbols {
        let token = lex_literal(symbol).unwrap();
        let canonical = canonical_symbol(&token);
        assert_eq!(lex_literal(&canonical), Some(token), "{} as {}", symbol, canonical);
    }
}

#[test]
fn canonical_symbols() {
    assert_eq!(canonical_symbol(&lex_literal("007BPM").unwrap()), "7BPM");
    assert_eq!(canonical_symbol(&lex_literal("[012]").unwrap()), "[12]");
    assert_eq!(canonical_symbol(&lex_literal("C").unwrap()), "C2");
    assert_eq!(canonical_symbol(&lex_literal("A#").unwrap()), "A1#");
    assert_eq!(canonical_symbol(&lex_literal("la-:6/4").unwrap()), "la:3/2");
    assert_eq!(canonical_symbol(&lex_literal("ih-s").unwrap()), "ih-s:1/1");
    assert_eq!(canonical_symbol(&lex_literal("-/8").unwrap()), "-:1/8");
    assert_eq!(canonical_symbol(&lex_literal("13#").unwrap()), "13");
    assert_eq!(canonical_symbol(&lex_literal("06/008").unwrap()), "6/8");
    assert_eq!(canonical_symbol(&lex_literal(":|:").unwrap()), ":|:");
    assert_eq!(canonical_symbol(&lex_literal("===x===").unwrap()), "===x===");
    assert_eq!(canonical_symbol(&lex_literal("A[123]").unwrap()), "A[123]");
    assert_eq!(canonical_symbol(&Token::Endline()), "<eol>");
    for tone in 1..=37u8 {
        let name = canonical_symbol(&Token::AbsolutePitch(ToneId(tone)));
        assert_eq!(pitch_string_to_id(&name), Some(ToneId(tone)), "{}", name);
    }
}
