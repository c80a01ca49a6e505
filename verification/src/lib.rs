//! Lexer and recursive-descent parser for a small imperative scripting
//! language: source text is tokenized into a stream of classified tokens,
//! and the token stream is parsed into a single `Program` syntax tree.
//!
//! Every stage is specified mathematically — `lexer::spec_tokenize` over
//! the source characters, the `parser::spec_*` grammar functions over the
//! token models — and the executable code is proved to agree with those
//! specifications exactly, error cases included.

pub mod lexer;
pub mod nodes;
pub mod parser;
pub mod text;
pub mod token;
