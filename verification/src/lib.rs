//! The front end of a small expression language: a tokenizer that turns text
//! into tokens, a cursor over a finished token buffer, and a precedence-climbing
//! parser that turns tokens into a syntax tree.
//!
//! Every function states its result over a mathematical model: text is a
//! `Seq<char>`, a token buffer is a `Seq<SpecToken>`, and the tree is its own
//! model. Beside the functions stand the laws that hold of them: in
//! `lexer::laws` and `lexer::spelling` those of the tokenizer, in
//! `parser::laws` and `parser::layered` those of the parser, and in
//! `round_trip` the one that joins both.

pub mod cmd;
pub mod lexer;
pub mod parser;
pub mod round_trip;
