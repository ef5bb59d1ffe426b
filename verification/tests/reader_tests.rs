use regolith::lexer::lex_file;
use regolith::lexer::lex_literals;
use regolith::lexer::lex_markdown;
use regolith::lexer::lex_multiline_string;
use regolith::reader::read_literals_from_markdown;
use regolith::reader::read_literals_from_multiline_string;
use regolith::types::CompileError;
use regolith::types::Literal;
use regolith::types::Token;

fn lit(text: &str, filename: &str, lineno: usize, colno: usize, idno: usize) -> Literal {
    Literal {
        literal: text.to_string(),
        filename: filename.to_string(),
        lineno,
        colno,
        idno,
    }
}

#[test]
fn symbols_and_line_ends() {
    let literals = read_literals_from_multiline_string("ab  c\n\n# no\n  d \r\ne", "f").unwrap();
    assert_eq!(
        literals,
        vec![
            lit("ab", "f", 0, 0, 0),
            lit("c", "f", 0, 4, 1),
            lit("<eol>", "f", 0, 5, 2),
            lit("d", "f", 3, 2, 3),
            lit("<eol>", "f", 3, 4, 4),
            lit("e", "f", 4, 0, 5),
            lit("<eol>", "f", 4, 1, 6),
        ]
    );
}

#[test]
fn columns_count_bytes() {
    let literals = read_literals_from_multiline_string("\u{e9}\u{4e16} x\u{1f600}\u{3000}y", "").unwrap();
    assert_eq!(
        literals,
        vec![
            lit("\u{e9}\u{4e16}", "", 0, 0, 0),
            lit("x\u{1f600}", "", 0, 6, 1),
            lit("y", "", 0, 14, 2),
            lit("<eol>", "", 0, 15, 3),
        ]
    );
}

#[test]
fn a_carriage_return_without_line_feed_stays() {
    let literals = read_literals_from_multiline_string("a\r", "").unwrap();
    assert_eq!(literals, vec![lit("a", "", 0, 0, 0), lit("<eol>", "", 0, 2, 1)]);
    let literals = read_literals_from_multiline_string("\r\na", "").unwrap();
    assert_eq!(literals, vec![lit("a", "", 1, 0, 0), lit("<eol>", "", 1, 1, 1)]);
}

#[test]
fn nothing_to_read() {
    assert_eq!(read_literals_from_multiline_string("", "").unwrap(), vec![]);
    assert_eq!(read_literals_from_multiline_string("\n\n#x\n", "").unwrap(), vec![]);
    assert_eq!(read_literals_from_markdown("a b\n```\nc\n", "m").unwrap(), vec![]);
}

#[test]
fn markdown_gives_the_fenced_lines() {
    let text = "# Title\ntext a\n```regolith\n| a\n# comment\n\n b |\n```\n```rust\nc\n```\n```regolith\nd";
    let literals = read_literals_from_markdown(text, "m.md").unwrap();
    assert_eq!(
        literals,
        vec![
            lit("|", "m.md", 4, 1, 0),
            lit("a", "m.md", 4, 3, 1),
            lit("<eol>", "m.md", 4, 4, 2),
            lit("b", "m.md", 7, 2, 3),
            lit("|", "m.md", 7, 4, 4),
            lit("<eol>", "m.md", 7, 5, 5),
            lit("d", "m.md", 13, 1, 6),
            lit("<eol>", "m.md", 13, 2, 7),
        ]
    );
}

#[test]
fn lexing_pairs_literals_with_tokens() {
    let tokens = lex_multiline_string("120BPM |").unwrap();
    assert_eq!(
        tokens,
        vec![
            (lit("120BPM", "", 0, 0, 0), Token::Tempo(120)),
            (lit("|", "", 0, 7, 1), Token::MeasureBar(false, false)),
            (lit("<eol>", "", 0, 8, 2), Token::Endline()),
        ]
    );
    let tokens = lex_file("[3]", "song.rego").unwrap();
    assert_eq!(tokens[0], (lit("[3]", "song.rego", 0, 0, 0), Token::Track(3)));
    let tokens = lex_markdown("```regolith\n3/4\n```", "song.md").unwrap();
    assert_eq!(tokens[0], (lit("3/4", "song.md", 2, 1, 0), Token::TimeSignature((3, 4))));
}

#[test]
fn lexing_stops_at_the_first_bad_literal() {
    let literals = vec![lit("a", "", 0, 0, 0), lit("$", "", 0, 2, 1), lit("%", "", 0, 4, 2)];
    assert_eq!(lex_literals(&literals), Err(CompileError::InvalidSyntax(lit("$", "", 0, 2, 1))));
    assert_eq!(lex_literals(&vec![]), Ok(vec![]));
}
