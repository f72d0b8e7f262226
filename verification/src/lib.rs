//! A front end for a small expression language: source text is scanned into
//! tokens, and the tokens are parsed by recursive descent into a syntax tree.
//!
//! - [`token`], [`lexer`]: the tokens, and the scanner that yields them.
//! - [`ast`]: the syntax tree.
//! - [`grammar`]: what the parser must make of a token sequence.
//! - [`parser`], [`expressions`], [`statements`]: the parser.
//! - [`front_end`]: scanner and parser in one call.
//! - [`soundness`], [`completeness`], [`locality`]: what is true of every
//!   tree that the grammar yields.
//! - [`type_checker`], [`printer`]: two readers of the tree.
//! - [`zom_parser`], [`settings`]: the project configuration.
//! - [`tensor`]: storage for n-dimensional arrays.
//! - [`text`]: helpers on characters and strings.

pub mod ast;
pub mod completeness;
pub mod expressions;
pub mod front_end;
pub mod grammar;
pub mod lexer;
pub mod locality;
pub mod parser;
pub mod printer;
pub mod settings;
pub mod soundness;
pub mod statements;
pub mod tensor;
pub mod text;
pub mod token;
pub mod type_checker;
pub mod zom_parser;
