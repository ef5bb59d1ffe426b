//! The front end as one step: from a source to its composition.

use crate::lexer::lex_all;
use crate::lexer::lex_markdown;
use crate::lexer::lex_multiline_string;
use crate::moonbase::md5_digest_hex;
use crate::moonbase::md5_hex;
use crate::parser::parse;
use crate::parser::parse_to_ast;
use crate::reader::markdown_literals;
use crate::reader::source_literals;
use crate::semantics::do_semantics;
use crate::semantics::resolve;
use crate::semantics::Composition;
use crate::semantics::SectionView;
use crate::types::CompileErrorView;
use crate::types::CompileResult;
use crate::types::LiteralView;
use vstd::prelude::*;
use vstd::string::*;

verus! {

/// What is to be compiled: the text of a plain source, or the text of a
/// Markdown file with the file's name.
pub enum CompileInput {
    StringLiteral(String),
    Markdown { filename: String, text: String },
}

/// The view of a `CompileInput`.
pub enum CompileInputView {
    StringLiteral(Seq<char>),
    Markdown { filename: Seq<char>, text: Seq<char> },
}

impl View for CompileInput {
    type V = CompileInputView;

    open spec fn view(&self) -> CompileInputView {
        match *self {
            CompileInput::StringLiteral(source) => CompileInputView::StringLiteral(source@),
            CompileInput::Markdown { filename, text } => CompileInputView::Markdown {
                filename: filename@,
                text: text@,
            },
        }
    }
}

/// The literals of an input.
pub open spec fn input_literals(input: CompileInputView) -> Seq<LiteralView> {
    match input {
        CompileInputView::StringLiteral(source) => source_literals(source, Seq::empty()),
        CompileInputView::Markdown { filename, text } => markdown_literals(text, filename),
    }
}

/// The composition of a run of literals: they are lexed, the tokens are
/// parsed, and the tree is resolved; the first error ends it.
pub open spec fn composition_of(literals: Seq<LiteralView>) -> Result<
    Seq<SectionView>,
    CompileErrorView,
> {
    match lex_all(literals) {
        Err(e) => Err(e),
        Ok(tokens) => match parse(tokens) {
            Err(e) => Err(e),
            Ok(tree) => resolve(tree),
        },
    }
}

/// Compiles an input as far as its composition.
pub fn front_end(input: &CompileInput) -> (r: CompileResult<Composition>)
    ensures
        match r {
            Ok(c) => composition_of(input_literals(input@)) == Ok::<
                Seq<SectionView>,
                CompileErrorView,
            >(c@),
            Err(e) => composition_of(input_literals(input@)) == Err::<
                Seq<SectionView>,
                CompileErrorView,
            >(e@),
        },
{
    let lexed = match input {
        CompileInput::StringLiteral(source) => lex_multiline_string(source.as_str()),
        CompileInput::Markdown { filename, text } => lex_markdown(text.as_str(), filename.as_str()),
    };
    let tokens = match lexed {
        Ok(tokens) => tokens,
        Err(e) => {
            return Err(e);
        },
    };
    let tree = match parse_to_ast(&tokens) {
        Ok(tree) => tree,
        Err(e) => {
            return Err(e);
        },
    };
    do_semantics(&tree)
}

/// The name of the build of a plain source: `string-literal-` and the digest
/// of the source.
pub open spec fn string_build_name(source: Seq<char>) -> Seq<char> {
    "string-literal-"@ + md5_hex(source)
}

/// The name of the directory that the build of an input goes to: for a plain
/// source a name made of its digest, for a Markdown file the name given.
pub fn build_name(input: &CompileInput) -> (r: String)
    ensures
        r@ == match input@ {
            CompileInputView::StringLiteral(source) => string_build_name(source),
            CompileInputView::Markdown { filename, .. } => filename,
        },
{
    match input {
        CompileInput::StringLiteral(source) => {
            let digest = md5_digest_hex(source.as_str());
            let mut out = String::new();
            out.append("string-literal-");
            out.append(digest.as_str());
            assert(out@ =~= string_build_name(source@));
            out
        },
        CompileInput::Markdown { filename, .. } => filename.clone(),
    }
}

} // verus!
