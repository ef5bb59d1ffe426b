//! A compiler front end for the regolith music notation.
//!
//! A source is read into symbols (`reader`), the symbols are lexed into
//! tokens (`lexer`), the tokens are parsed into a tree of sections and
//! measures (`parser`), and the tree is resolved into a composition
//! (`semantics`): every note with its tone and its track, every section held
//! to its time signature and to equal measure counts. `compiler` does all of
//! it in one step.
//!
//! What each phase returns is stated over a mathematical model of its input:
//! text is a `Seq<char>`, every type has a view, and each phase has a
//! specification function that its result is equal to. `canonical`, `parsed`
//! and `resolved` hold what follows from these specifications: that the
//! canonical symbol of a token reads back as the token, that every tree is
//! sound, and that every composition is.
//!
//! `beats` holds exact durations, `text` characters and numerals, `types` the
//! data that the phases share. `tree`, `summary` and `report` write trees,
//! sections and errors as text. `moonbase` and `codegen` prepare what the
//! synthesis engine is asked and combine its answers.

pub mod beats;
pub mod canonical;
pub mod codegen;
pub mod compiler;
pub mod lexer;
pub mod moonbase;
pub mod parsed;
pub mod parser;
pub mod reader;
pub mod report;
pub mod resolved;
pub mod semantics;
pub mod summary;
pub mod text;
pub mod tree;
pub mod types;
