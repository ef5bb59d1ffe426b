use regolith::lexer::lex_multiline_string;
use regolith::parser::parse_to_ast;
use regolith::tree::tree_to_string;

fn assert_ast_results(source: &str, ast_repr: &str) {
    let tokens = lex_multiline_string(source).unwrap();
    let tree = parse_to_ast(&tokens).unwrap();
    let repr: String = tree_to_string(&tree);
    assert_eq!(repr, ast_repr);
}

#[test]
fn parsing_test() {
    assert_ast_results(
        "|: . ./2 :|",
        "[top]
    [section] <implicit-section>
        [preamble]
        [staff]
            [measure] |: .. :|
                [note] .
                [note] ./2
[end]",
    );

    assert_ast_results(
        "===BIG=== F3 . . F2 ./3 duh:3/2",
        "[top]
    [section] ===BIG===
        [preamble]
        [staff]
            [measure] F3 .. <eol>
                [pitch] F3
                [note] .
                [note] .
                [pitch] F2
                [note] ./3
                [note] duh:3/2
[end]",
    );

    assert_ast_results(
        "CMAJOR 4/4 |: -/2 -:3/2 -/2 -:3/2 .:5/2 |",
        "[top]
    [section] <implicit-section>
        [preamble]
            [scale] CMAJOR
            [time] 4/4
        [staff]
            [measure] |: .. |
                [note] -/2
                [note] -:3/2
                [note] -/2
                [note] -:3/2
                [note] .:5/2
[end]",
    );
}
