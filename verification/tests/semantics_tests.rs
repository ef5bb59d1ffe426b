use regolith::beats::Beats;
use regolith::compiler::build_name;
use regolith::compiler::front_end;
use regolith::compiler::CompileInput;
use regolith::lexer::lex_multiline_string;
use regolith::parser::parse_to_ast;
use regolith::parser::StaffNode;
use regolith::semantics::assert_consistent_measure_counts;
use regolith::semantics::do_semantics;
use regolith::semantics::make_section;
use regolith::semantics::run_staff;
use regolith::semantics::Composition;
use regolith::semantics::CompositionState;
use regolith::semantics::Section;
use regolith::semantics::Track;
use regolith::types::CompileError;
use regolith::types::DynamicLevel;
use regolith::types::Literal;
use regolith::types::Scale;
use regolith::types::ToneId;

fn compile(source: &str) -> Result<Composition, CompileError> {
    let tokens = lex_multiline_string(source)?;
    let tree = parse_to_ast(&tokens)?;
    do_semantics(&tree)
}

#[test]
fn defaults_are_the_documented_ones() {
    let state = CompositionState::defaults();
    assert_eq!(state.tempo, 120);
    assert_eq!(state.dynamic, DynamicLevel::Mezzoforte);
    assert_eq!(state.scale, Scale::cmajor());
    assert_eq!(state.time_signature, None);
    assert_eq!(state.tone_id, ToneId(13));
    assert_eq!(state.track, 0);
}

#[test]
fn empty_source_is_an_empty_composition() {
    let comp = compile("").unwrap();
    assert_eq!(comp.sections.len(), 0);
}

#[test]
fn notes_take_the_tone_in_force() {
    let comp = compile("a C3 b 2 c 8 d").unwrap();
    assert_eq!(comp.sections.len(), 1);
    let section = &comp.sections[0];
    assert_eq!(section.id, 0);
    assert_eq!(section.name, "<implicit-section>");
    assert_eq!(section.tempo, 120);
    assert_eq!(section.tracks.len(), 1);
    let track = &section.tracks[0];
    assert_eq!(track.id, 0);
    assert_eq!(track.measures.len(), 1);
    let notes = &track.measures[0].notes;
    assert_eq!(notes.len(), 4);
    assert_eq!(notes[0].tone_id, ToneId(13));
    assert_eq!(notes[1].tone_id, ToneId(25));
    assert_eq!(notes[2].tone_id, ToneId(15));
    assert_eq!(notes[3].tone_id, ToneId(25));
    assert_eq!(notes[1].note.prefix, "b");
    assert_eq!(notes[1].note_literal.literal, "b");
    assert_eq!(notes[1].note_literal.colno, 5);
}

#[test]
fn preamble_settings_reach_the_section() {
    let comp = compile("===intro=== 90BPM FORTE AMINOR 3/4\n| a b c |").unwrap();
    let section = &comp.sections[0];
    assert_eq!(section.name, "intro");
    assert_eq!(section.tempo, 90);
    assert_eq!(section.dynamic, DynamicLevel::Forte);
    assert_eq!(section.scale.name, "AMINOR");
    assert_eq!(section.scale.tone_id, ToneId(10));
    let signature = section.time_signature.as_ref().unwrap();
    assert_eq!(signature.1, (3, 4));
    assert_eq!(signature.0.literal, "3/4");
}

#[test]
fn settings_persist_across_sections() {
    let comp = compile("===a=== 90BPM\n| x |\n===b===\n| y |").unwrap();
    assert_eq!(comp.sections.len(), 2);
    assert_eq!(comp.sections[0].id, 0);
    assert_eq!(comp.sections[1].id, 1);
    assert_eq!(comp.sections[1].name, "b");
    assert_eq!(comp.sections[1].tempo, 90);
}

#[test]
fn repeat_flags_come_from_the_bars() {
    let comp = compile("|: a :| b |").unwrap();
    let measures = &comp.sections[0].tracks[0].measures;
    assert_eq!(measures.len(), 2);
    assert!(measures[0].open);
    assert!(measures[0].close);
    assert!(!measures[1].open);
    assert!(!measures[1].close);
    assert_eq!(measures[0].start.literal, "|:");
    assert_eq!(measures[0].end.literal, ":|");
}

#[test]
fn measures_without_notes_are_dropped() {
    let comp = compile("| C3 | a |").unwrap();
    let measures = &comp.sections[0].tracks[0].measures;
    assert_eq!(measures.len(), 1);
    assert_eq!(measures[0].notes[0].tone_id, ToneId(25));
}

#[test]
fn tracks_stand_in_order_of_their_ids() {
    let comp = compile("[7] a | [2] b | [5] c |").unwrap();
    let tracks = &comp.sections[0].tracks;
    assert_eq!(tracks.len(), 3);
    assert_eq!(tracks[0].id, 2);
    assert_eq!(tracks[1].id, 5);
    assert_eq!(tracks[2].id, 7);
    assert_eq!(tracks[0].measures[0].track, 2);
}

#[test]
fn four_beats_conform_to_four_four() {
    let comp = compile("CMAJOR 4/4\n| a:2 b:2 | c d e:3/2 f/2 |").unwrap();
    assert_eq!(comp.sections[0].tracks[0].measures.len(), 2);
}

#[test]
fn three_beats_violate_four_four() {
    match compile("CMAJOR 4/4\n| a:2 b:2 | c:2 d |") {
        Err(CompileError::TimeSignatureViolation { measure, time_signature, nominal }) => {
            assert_eq!(nominal, (4, 4));
            assert_eq!(time_signature.literal, "4/4");
            assert_eq!(measure.notes.len(), 2);
            assert_eq!(measure.notes[0].note_literal.literal, "c:2");
            assert_eq!(measure.count_beats(), Beats::new(3, 1));
        }
        other => panic!("unexpected {:?}", other),
    }
}

#[test]
fn five_beats_violate_four_four() {
    match compile("CMAJOR 4/4\n| a:2 b:3 |") {
        Err(CompileError::TimeSignatureViolation { measure, nominal, .. }) => {
            assert_eq!(nominal, (4, 4));
            assert_eq!(measure.count_beats(), Beats::new(5, 1));
        }
        other => panic!("unexpected {:?}", other),
    }
}

#[test]
fn the_denominator_of_a_signature_is_not_held() {
    assert!(compile("6/8\n| a:6 |").is_ok());
    assert!(compile("6/8\n| a:3 |").is_err());
}

#[test]
fn measures_of_no_beats_pass_any_signature() {
    assert!(compile("4/4\n| a:0 |").is_ok());
}

#[test]
fn differing_measure_counts_are_rejected() {
    match compile("[0] a | b | [1] c | d | e |") {
        Err(CompileError::DifferingMeasureCounts(a, a_count, b, b_count)) => {
            assert_eq!((a, a_count, b, b_count), (0, 2, 1, 3));
        }
        other => panic!("unexpected {:?}", other),
    }
}

#[test]
fn equal_measure_counts_are_accepted() {
    let comp = compile("[0] a | b | [1] c | d |").unwrap();
    assert_eq!(comp.sections[0].tracks.len(), 2);
}

#[test]
fn an_empty_track_is_rejected() {
    let section = Section {
        id: 0,
        name: "s".to_string(),
        tempo: 120,
        dynamic: DynamicLevel::Mezzoforte,
        scale: Scale::cmajor(),
        time_signature: None,
        tracks: vec![Track { id: 4, measures: vec![] }],
    };
    assert_eq!(assert_consistent_measure_counts(&section), Err(CompileError::EmptyTrack(4)));
}

#[test]
fn a_degree_outside_the_scale_is_rejected() {
    match compile("a 0 b") {
        Err(CompileError::InvalidSyntax(literal)) => assert_eq!(literal.literal, "0"),
        other => panic!("unexpected {:?}", other),
    }
    match compile("C4 a 255 b") {
        Err(CompileError::InvalidSyntax(literal)) => assert_eq!(literal.literal, "255"),
        other => panic!("unexpected {:?}", other),
    }
}

#[test]
fn an_unknown_symbol_is_rejected() {
    match compile("a b\nc wefwe$234 d") {
        Err(CompileError::InvalidSyntax(literal)) => {
            assert_eq!(literal.literal, "wefwe$234");
            assert_eq!(literal.lineno, 1);
            assert_eq!(literal.colno, 2);
            assert_eq!(literal.idno, 4);
        }
        other => panic!("unexpected {:?}", other),
    }
}

#[test]
fn front_end_compiles_both_inputs() {
    let plain = CompileInput::StringLiteral("| a b |".to_string());
    assert_eq!(front_end(&plain).unwrap().sections.len(), 1);

    let markdown = CompileInput::Markdown {
        filename: "song.md".to_string(),
        text: "# Song\n\nwords\n```regolith\n===one===\n| a b |\n```\nmore\n```\n| x\n```\n".to_string(),
    };
    let comp = front_end(&markdown).unwrap();
    assert_eq!(comp.sections.len(), 1);
    assert_eq!(comp.sections[0].name, "one");
    let note = &comp.sections[0].tracks[0].measures[0].notes[0];
    assert_eq!(note.note_literal.filename, "song.md");
    assert_eq!(note.note_literal.lineno, 6);
    assert_eq!(note.note_literal.colno, 3);
}

#[test]
fn build_names() {
    assert_eq!(
        build_name(&CompileInput::StringLiteral("ewjwef".to_string())),
        "string-literal-fc0d3155c1b5099b40038d39cc71963e"
    );
    assert_eq!(
        build_name(&CompileInput::Markdown {
            filename: "song.md".to_string(),
            text: "".to_string()
        }),
        "song.md"
    );
}

#[test]
fn section_summary() {
    let comp = compile("3/4\n| a:2 b | [1] . ./2 :3/2 |").unwrap_err();
    assert!(matches!(comp, CompileError::InvalidSyntax(_)));
    let comp = compile("3/4\n| a:2 b | [1] . ./2 c:3/2 |").unwrap();
    assert_eq!(
        comp.sections[0].to_string(),
        "[section] \"0\", <implicit-section>, 120 bpm, Mezzoforte, cmajor, Some((3, 4))\n  [measure] [track \"0\"] (3 beats) a:2 b \n  [measure] [track \"1\"] (3 beats) . ./2 c:3/2 "
    );
}

#[test]
fn a_sum_of_beats_that_cannot_be_held_is_an_error() {
    assert_eq!(
        compile("4/4\n| a:18446744073709551615 b |").unwrap_err(),
        CompileError::Generic("beat count overflow".to_string())
    );
    assert!(compile("| a:18446744073709551615 b |").is_ok());
}

#[test]
fn a_section_is_made_from_the_state_before_it() {
    let tokens = lex_multiline_string("===s=== 60BPM\n[3] C3 a | b").unwrap();
    let tree = parse_to_ast(&tokens).unwrap();
    let mut state = CompositionState::defaults();
    state.dynamic = DynamicLevel::Piano;
    let section = make_section(7, &tree[0], &mut state).unwrap();
    assert_eq!(section.id, 7);
    assert_eq!(section.tempo, 60);
    assert_eq!(section.dynamic, DynamicLevel::Piano);
    assert_eq!(section.tracks.len(), 1);
    assert_eq!(section.tracks[0].id, 3);
    assert_eq!(section.tracks[0].measures.len(), 2);
    assert_eq!(state.tempo, 60);
    assert_eq!(state.track, 3);
    assert_eq!(state.tone_id, ToneId(25));
}

#[test]
fn bars_and_ends_of_lines_in_a_staff_are_rejected() {
    let literal = Literal {
        literal: "|".to_string(),
        filename: "".to_string(),
        lineno: 1,
        colno: 2,
        idno: 3,
    };
    let mut state = CompositionState::defaults();
    let staff = vec![StaffNode::MeasureBar { close: false, open: false, literal: literal.clone() }];
    assert_eq!(
        run_staff(&staff, &mut state),
        Err(CompileError::InvalidSyntax(literal.clone()))
    );
    let staff = vec![StaffNode::Endline { literal: literal.clone() }];
    assert_eq!(
        run_staff(&staff, &mut state),
        Err(CompileError::InvalidSyntax(literal))
    );
}

#[test]
fn a_partial_sum_that_cannot_be_held_is_an_error_too() {
    let source =
        "2/4\n| a/4294967311 b/4294967357 c:4294967310/4294967311 d:4294967356/4294967357 |";
    assert_eq!(
        compile(source).unwrap_err(),
        CompileError::Generic("beat count overflow".to_string())
    );
    let source =
        "2/4\n| a/4294967311 c:4294967310/4294967311 b/4294967357 d:4294967356/4294967357 |";
    assert!(compile(source).is_ok());
}
