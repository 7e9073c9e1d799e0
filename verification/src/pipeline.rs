use vstd::prelude::*;
use vstd::string::*;

use crate::errors::{error_views, RoxError, RoxErrorView};
use crate::optimizer::optimizer::Optimizer;
use crate::parser::grammar::{parse_spec, ParserState};
use crate::parser::parser::Parser;
use crate::parser::statements::{optimize_stmts, stmt_views, Stmt, StmtView};
use crate::scanner::lexicon::{scan_all, ScanErrorView};
use crate::scanner::scanner::{ScanError, Scanner};

verus! {

/// Why a source text did not make it through the pipeline.
pub enum Failure<'a> {
    /// Scanning stopped at an error.
    Scanning(ScanError),
    /// Parsing reported these errors.
    Parsing(Vec<RoxError<'a>>),
}

/// The mathematical model of what the pipeline gives.
pub enum Outcome {
    Scanning(ScanErrorView),
    Parsing(Seq<RoxErrorView>),
    Program(Seq<StmtView>),
}

/// What the pipeline makes of a source text: the error at which scanning
/// stops; or the errors that parsing reports; or, where there are none, the
/// parsed program with its constant subtrees folded.
pub open spec fn outcome(bytes: Seq<u8>) -> Outcome {
    match scan_all(bytes) {
        Err(e) => Outcome::Scanning(e),
        Ok(tokens) => {
            let (end, program) = parse_spec(tokens, ParserState { cur: 0, errors: Seq::empty() });
            if end.errors.len() > 0 {
                Outcome::Parsing(end.errors)
            } else {
                Outcome::Program(optimize_stmts(program))
            }
        },
    }
}

/// Runs a source text through the scanner, the parser and the constant
/// folder.
pub fn interpret<'a>(src: &'a str) -> (r: Result<Vec<Stmt<'a>>, Failure<'a>>)
    requires
        src.spec_bytes().len() < usize::MAX,
    ensures
        match outcome(src.spec_bytes()) {
            Outcome::Scanning(e) => r matches Err(Failure::Scanning(x)) && x@ == e,
            Outcome::Parsing(errors) => r matches Err(Failure::Parsing(x)) && error_views(x@)
                == errors,
            Outcome::Program(program) => r matches Ok(ast) && stmt_views(ast@) == program,
        },
{
    let mut scanner = Scanner::new(src);
    let tokens = match scanner.scan() {
        Ok(tokens) => tokens,
        Err(e) => {
            return Err(Failure::Scanning(e));
        },
    };
    let mut parser = Parser::new(tokens);
    let ast = parser.parse();
    if parser.has_errors() {
        return Err(Failure::Parsing(parser.into_errors()));
    }
    Ok(Optimizer::optimize(ast))
}

} // verus!
