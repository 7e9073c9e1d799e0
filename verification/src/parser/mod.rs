pub mod ast;
pub mod expressions;
pub mod grammar;
pub mod parser;
pub mod precedence;
pub mod progress;
pub mod shape;
pub mod statements;
pub mod yaml;
