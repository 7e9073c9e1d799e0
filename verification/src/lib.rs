//! A toolchain for a small Lox-family scripting language: a scanner, a Pratt
//! parser that recovers from errors, a constant folder, a bytecode chunk
//! format and a stack machine that interprets it.
//!
//! Every function is verified against a contract stated over mathematical
//! models of the data: byte sequences for source text, views for tokens and
//! syntax trees, sequences for the chunk and the operand stack.
//!
//! - [`scanner`] turns source text into tokens; `scanner::lexicon` says
//!   which tokens a text holds.
//! - [`parser`] turns tokens into statements; `parser::grammar` says which
//!   statements a token sequence holds, and `parser::progress`,
//!   `parser::shape` and `parser::precedence` prove what holds of them.
//! - [`optimizer`] folds constant subtrees.
//! - [`pipeline`] runs a source text through these three.
//! - [`chunks`] holds the bytecode, its constants and its line table.
//! - [`vm`] runs a chunk on a bounded operand stack. Numbers are held by
//!   the bits of their double-precision encoding; the machine hands their
//!   arithmetic to its host.

pub mod bitwise;
pub mod chunks;
pub mod errors;
pub mod optimizer;
pub mod parser;
pub mod pipeline;
pub mod scanner;
pub mod text;
pub mod vm;
