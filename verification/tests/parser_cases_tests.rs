use regolith::lexer::lex_multiline_string;
use regolith::parser::atomic_token_to_preamble_node;
use regolith::parser::atomic_token_to_staff_node;
use regolith::parser::eat_measure_block;
use regolith::parser::eat_preamble_atomic;
use regolith::parser::eat_section;
use regolith::parser::eat_staff_atomic;
use regolith::parser::parse_to_ast;
use regolith::parser::Parser;
use regolith::parser::PreambleNode;
use regolith::parser::StaffNode;
use regolith::tree::tree_to_string;
use regolith::types::CompileError;
use regolith::types::Literal;
use regolith::types::Token;

fn literal(text: &str) -> Literal {
    Literal {
        literal: text.to_string(),
        filename: "".to_string(),
        lineno: 0,
        colno: 0,
        idno: 0,
    }
}

#[test]
fn preamble_after_staff_is_rejected() {
    let tokens = lex_multiline_string("MEZZOFORTE C3 . FORTE .").unwrap();
    match parse_to_ast(&tokens) {
        Err(CompileError::PreambleOrder(section, first, offender)) => {
            assert_eq!(section.literal, "<implicit-section>");
            assert_eq!(first.literal, "C3");
            assert_eq!(first.colno, 11);
            assert_eq!(offender.literal, "FORTE");
            assert_eq!(offender.colno, 16);
        }
        other => panic!("unexpected {:?}", other),
    }
}

#[test]
fn preamble_at_the_start_of_a_block_is_rejected() {
    let tokens = lex_multiline_string("===s=== a | 90BPM b").unwrap();
    match parse_to_ast(&tokens) {
        Err(CompileError::PreambleOrder(section, first, offender)) => {
            assert_eq!(section.literal, "===s===");
            assert_eq!(first.literal, "a");
            assert_eq!(offender.literal, "90BPM");
        }
        other => panic!("unexpected {:?}", other),
    }
}

#[test]
fn adjacent_bars_are_an_empty_measure() {
    let tokens = lex_multiline_string("| |").unwrap();
    match parse_to_ast(&tokens) {
        Err(CompileError::EmptyMeasure(start, end)) => {
            assert_eq!(start.literal, "|");
            assert_eq!(start.colno, 0);
            assert_eq!(end.literal, "|");
            assert_eq!(end.colno, 2);
        }
        other => panic!("unexpected {:?}", other),
    }
}

#[test]
fn a_block_of_ends_of_lines_is_an_empty_measure() {
    let tokens = lex_multiline_string("| a |\n \n").unwrap();
    match parse_to_ast(&tokens) {
        Err(CompileError::EmptyMeasure(start, end)) => {
            assert_eq!(start.literal, "|");
            assert_eq!(end.literal, "<eol>");
            assert_eq!(end.lineno, 1);
        }
        other => panic!("unexpected {:?}", other),
    }
}

#[test]
fn a_bar_at_the_end_of_a_line_opens_no_measure() {
    let tokens = lex_multiline_string("| a |\n| b |\n").unwrap();
    let tree = parse_to_ast(&tokens).unwrap();
    assert_eq!(tree.len(), 1);
    assert_eq!(tree[0].measures.len(), 2);
    assert_eq!(tree[0].measures[1].start.lineno, 1);
}

#[test]
fn sections_split_the_tree() {
    let tokens = lex_multiline_string("a b\n===one=== 90BPM\nc | d\n===two===\n").unwrap();
    let tree = parse_to_ast(&tokens).unwrap();
    assert_eq!(tree.len(), 3);
    assert_eq!(tree[0].name, "<implicit-section>");
    assert_eq!(tree[0].literal.literal, "<implicit-section>");
    assert_eq!(tree[0].measures.len(), 1);
    assert_eq!(tree[0].measures[0].end.literal, "===one===");
    assert_eq!(tree[1].name, "one");
    assert_eq!(tree[1].literal.literal, "===one===");
    assert_eq!(tree[1].preamble.len(), 1);
    assert_eq!(tree[1].measures.len(), 2);
    assert_eq!(tree[2].name, "two");
    assert_eq!(tree[2].preamble.len(), 0);
    assert_eq!(tree[2].measures.len(), 0);
}

#[test]
fn no_tokens_no_sections() {
    let tree = parse_to_ast(&vec![]).unwrap();
    assert_eq!(tree.len(), 0);
    assert_eq!(tree_to_string(&tree), "[top]\n[end]");
}

#[test]
fn the_same_tokens_give_the_same_tree_text() {
    let tokens =
        lex_multiline_string("===a=== 90BPM CMAJOR\n|: a b:3/2 :| [1] C3 c 5 d |\n===b===\n-/2 x")
            .unwrap();
    let first = tree_to_string(&parse_to_ast(&tokens).unwrap());
    let second = tree_to_string(&parse_to_ast(&tokens).unwrap());
    assert_eq!(first, second);
    assert_eq!(
        first,
        "[top]
    [section] ===a===
        [preamble]
            [tempo] 90BPM
            [scale] CMAJOR
        [staff]
            [measure] |: .. :|
                [note] a
                [note] b:3/2
            [measure] :| .. |
                [track] [1]
                [pitch] C3
                [note] c
                [relpitch] 5
                [note] d
    [section] ===b===
        [preamble]
        [staff]
            [measure] -/2 .. <eol>
                [note] -/2
                [note] x
[end]"
    );
}

#[test]
fn cursor_walks_the_tokens() {
    let tokens = vec![(literal("a"), Token::Endline()), (literal("|"), Token::MeasureBar(false, false))];
    let mut parser = Parser::new(&tokens);
    assert_eq!(parser.peek(), Some((literal("a"), Token::Endline())));
    assert_eq!(parser.peek_ref(), Some(&tokens[0]));
    assert_eq!(parser.peek_and_take_if(|t: &Token| matches!(t, Token::Section(_))), None);
    assert_eq!(parser.index, 0);
    assert_eq!(parser.peek_and_take_if(|t: &Token| matches!(t, Token::Endline())), Some(&tokens[0]));
    assert_eq!(parser.index, 1);
    assert_eq!(parser.take(), Some(&tokens[1]));
    assert_eq!(parser.take(), None);
    assert_eq!(parser.peek(), None);
    assert_eq!(parser.index, 2);
}

#[test]
fn atomic_nodes() {
    let bar = (literal("|:"), Token::MeasureBar(false, true));
    assert_eq!(
        atomic_token_to_staff_node(&bar),
        Some(StaffNode::MeasureBar { close: false, open: true, literal: literal("|:") })
    );
    assert_eq!(atomic_token_to_preamble_node(&bar), None);
    let tempo = (literal("90BPM"), Token::Tempo(90));
    assert_eq!(atomic_token_to_staff_node(&tempo), None);
    assert_eq!(
        atomic_token_to_preamble_node(&tempo),
        Some(PreambleNode::Tempo { literal: literal("90BPM"), tempo: 90 })
    );
    let eol = (literal("<eol>"), Token::Endline());
    assert_eq!(atomic_token_to_staff_node(&eol), Some(StaffNode::Endline { literal: literal("<eol>") }));
    assert_eq!(atomic_token_to_preamble_node(&eol), Some(PreambleNode::Endline(literal("<eol>"))));
}

#[test]
fn eating_the_wrong_token_is_unexpected() {
    let tokens = vec![(literal("90BPM"), Token::Tempo(90)), (literal("3"), Token::ScaleDegree(3))];
    let mut parser = Parser::new(&tokens);
    assert_eq!(
        eat_staff_atomic(&mut parser),
        Err(CompileError::Unexpected(
            "Expected an atomic staff token".to_string(),
            Token::Tempo(90),
            literal("90BPM")
        ))
    );
    assert_eq!(
        eat_preamble_atomic(&mut parser),
        Err(CompileError::Unexpected(
            "Expected an atomic preamble token".to_string(),
            Token::ScaleDegree(3),
            literal("3")
        ))
    );
    assert_eq!(
        eat_staff_atomic(&mut parser),
        Err(CompileError::GenericSyntax("Expected an atomic token, but nothing left".to_string()))
    );
    assert_eq!(
        eat_preamble_atomic(&mut parser),
        Err(CompileError::GenericSyntax("Expected a preamble token, but nothing left".to_string()))
    );
    assert_eq!(
        eat_section(&mut parser).unwrap_err(),
        CompileError::GenericSyntax("Encountered EOF while parsing section block".to_string())
    );
    assert_eq!(
        eat_measure_block(&mut parser, &literal("s"), &literal("f")).unwrap_err(),
        CompileError::GenericSyntax("No start token for measure".to_string())
    );
}
