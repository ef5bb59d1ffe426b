use regolith::beats::Beats;
use regolith::codegen::append_tracks;
use regolith::codegen::bpm_to_millis;
use regolith::codegen::overlay_tracks;
use regolith::codegen::to_moonbase_note;
use regolith::codegen::track_to_moonbase;
use regolith::lexer::lex_multiline_string;
use regolith::moonbase::generate_moonbase_or_error;
use regolith::moonbase::hashed_fn;
use regolith::moonbase::moonbase_url;
use regolith::moonbase::to_moonbase_str;
use regolith::moonbase::MoonbaseNote;
use regolith::parser::parse_to_ast;
use regolith::semantics::do_semantics;
use regolith::types::CompileError;
use regolith::types::Literal;
use regolith::types::NoteDecl;
use regolith::types::RegoNote;
use regolith::types::ToneId;

fn beats(numer: u64, denom: u64) -> Beats {
    Beats::new(numer, denom).unwrap()
}

#[test]
fn milliseconds_of_beats() {
    assert_eq!(bpm_to_millis(&beats(1, 1), 120), Some(500));
    assert_eq!(bpm_to_millis(&beats(3, 2), 120), Some(750));
    assert_eq!(bpm_to_millis(&beats(1, 3), 120), Some(167));
    assert_eq!(bpm_to_millis(&beats(1, 1), 7), Some(8571));
    assert_eq!(bpm_to_millis(&beats(1, 16), 1000), Some(4));
    assert_eq!(bpm_to_millis(&beats(1, 80), 1000), Some(1));
    assert_eq!(bpm_to_millis(&beats(1, 121), 1000), Some(0));
    assert_eq!(bpm_to_millis(&beats(0, 1), 120), Some(0));
}

#[test]
fn milliseconds_are_clamped() {
    assert_eq!(bpm_to_millis(&beats(u64::MAX, 1), 1), Some(i32::MAX));
    assert_eq!(bpm_to_millis(&beats(1, 1), 0), Some(i32::MAX));
    assert_eq!(bpm_to_millis(&beats(0, 1), 0), Some(0));
}

#[test]
fn note_for_the_engine() {
    let decl = NoteDecl {
        note: RegoNote { prefix: "du".to_string(), suffix: "th".to_string(), beats: beats(1, 2) },
        note_literal: Literal {
            literal: "du-th/2".to_string(),
            filename: "".to_string(),
            lineno: 0,
            colno: 0,
            idno: 0,
        },
        tone_id: ToneId(10),
    };
    assert_eq!(
        to_moonbase_note(120, &decl),
        MoonbaseNote {
            prefix: "du".to_string(),
            suffix: "th".to_string(),
            dur_ms: 250,
            tone_id: ToneId(10)
        }
    );
}

fn engine_text(prefix: &str, dur_ms: i32) -> String {
    to_moonbase_str(&MoonbaseNote {
        prefix: prefix.to_string(),
        suffix: "".to_string(),
        dur_ms,
        tone_id: ToneId(1),
    })
}

#[test]
fn common_words_are_respelled() {
    assert_eq!(engine_text(".", 100), "[duh<33,1>]");
    assert_eq!(engine_text("the", 100), "[thuh<33,1>]");
    assert_eq!(engine_text("o", 100), "[ow<33,1>]");
    assert_eq!(engine_text("a", 100), "[ey<33,1>]");
    assert_eq!(engine_text("and", 100), "[ey-nd<33,1>]");
    assert_eq!(engine_text("you", 100), "[yu<33,1>]");
    assert_eq!(engine_text("it", 100), "[ih-t<33,1>]");
    assert_eq!(engine_text("duh", 100), "[duh<33,1>]");
}

#[test]
fn the_bias_spares_rests_and_short_notes() {
    assert_eq!(engine_text("_", 500), "[_<500,1>]");
    assert_eq!(engine_text("la", 67), "[la<67,1>]");
    assert_eq!(engine_text("la", 68), "[la<1,1>]");
    assert_eq!(engine_text("la", 0), "[la<0,1>]");
    assert_eq!(engine_text("la", -5), "[la<-5,1>]");
    assert_eq!(engine_text("la", i32::MIN), "[la<-2147483648,1>]");
    assert_eq!(engine_text("la", i32::MAX), "[la<2147483580,1>]");
}

#[test]
fn a_track_as_engine_text() {
    let tokens = lex_multiline_string("90BPM\n| the . | C3 -:2 la-la/3 |").unwrap();
    let comp = do_semantics(&parse_to_ast(&tokens).unwrap()).unwrap();
    let section = &comp.sections[0];
    assert_eq!(
        track_to_moonbase(section.tempo, &section.tracks[0].measures),
        "[thuh<600,13>][duh<600,13>][_<1333,25>][la<155,25>la]"
    );
    assert_eq!(track_to_moonbase(120, &vec![]), "");
}

#[test]
fn hashed_paths_join_with_a_slash() {
    assert_eq!(hashed_fn("ewjwef", "wav", "/tmp"), "/tmp/fc0d3155c1b5099b40038d39cc71963e.wav");
    assert_eq!(hashed_fn("ewjwef", "wav", ""), "fc0d3155c1b5099b40038d39cc71963e.wav");
    assert_eq!(hashed_fn("ewjwef", "wav", "a/b/"), "a/b/fc0d3155c1b5099b40038d39cc71963e.wav");
}

#[test]
fn the_service_address() {
    assert_eq!(moonbase_url("[duw<40,19>]"), "http://tts.cyzon.us/tts?text=[duw<40,19>]");
}

#[test]
fn refusals_of_the_service() {
    assert_eq!(generate_moonbase_or_error(Some(429), "slow down"), CompileError::TooManyRequests);
    assert_eq!(generate_moonbase_or_error(Some(413), "too big"), CompileError::TrackTooLarge);
    assert_eq!(
        generate_moonbase_or_error(Some(500), "broken"),
        CompileError::NetworkError("broken".to_string())
    );
    assert_eq!(
        generate_moonbase_or_error(None, "no route"),
        CompileError::NetworkError("no route".to_string())
    );
}

#[test]
fn overlay_sums_and_clips() {
    assert_eq!(
        overlay_tracks(&vec![vec![1, 2, 3, 4], vec![10, -20, 30], vec![100, 200, 300, 400, 500]]),
        vec![111, 182, 333]
    );
    assert_eq!(
        overlay_tracks(&vec![vec![30000, -30000, 30000], vec![30000, -30000, 30000], vec![-30000, 1, 0]]),
        vec![30000, -32768, 32767]
    );
    assert_eq!(overlay_tracks(&vec![vec![5, 6]]), vec![5, 6]);
    assert_eq!(overlay_tracks(&vec![vec![5, 6], vec![]]), vec![]);
    assert_eq!(overlay_tracks(&vec![]), vec![]);
}

#[test]
fn append_puts_clips_in_a_row() {
    assert_eq!(append_tracks(&vec![vec![1, 2], vec![], vec![3]]), vec![1, 2, 3]);
    assert_eq!(append_tracks(&vec![]), vec![]);
}
