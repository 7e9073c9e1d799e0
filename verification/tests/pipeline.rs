use rox::errors::report;
use rox::optimizer::optimizer::Optimizer;
use rox::parser::expressions::{Expr, Value};
use rox::parser::statements::Stmt;
use rox::pipeline::{interpret, Failure};

#[test]
fn a_program_comes_out_folded() {
    match interpret("var x = (2+3)*4; x + 1;") {
        Ok(ast) => {
            assert_eq!(ast.len(), 2);
            assert_eq!(Optimizer::count_nodes(&ast), 4);
            match &ast[0] {
                Stmt::VarDecl(v) => match &v.initializer {
                    Some(e) => assert!(matches!(e.node, Expr::Constant(Value::Number(20)))),
                    None => panic!("Should have an initializer"),
                },
                _ => panic!("Should be a declaration"),
            }
        }
        Err(_) => panic!("Should go through"),
    }
}

#[test]
fn a_scanning_error_ends_the_pipeline() {
    match interpret("1 + #;") {
        Err(Failure::Scanning(e)) => assert_eq!(e.to_string(), "scanning error in line 1 at #"),
        _ => panic!("Should stop while scanning"),
    }
}

#[test]
fn parsing_errors_end_the_pipeline() {
    // the first error skips to the next `;`, which ends the statement
    match interpret("1 +;;\n2 3;") {
        Err(Failure::Parsing(errors)) => {
            assert_eq!(errors.len(), 2);
            assert_eq!(
                report(&errors),
                vec![
                    "Errors detected while parsing: found 2 errors",
                    "[ERROR]: at 1: unexpected token: ';'",
                    "[ERROR]: at 2: unexpected token: expected arithmetic operator but got 'NUMBER'",
                ]
            );
        }
        _ => panic!("Should stop after parsing"),
    }
}

#[test]
fn an_empty_text_is_an_empty_program() {
    match interpret("  // nothing\n") {
        Ok(ast) => assert_eq!(ast.len(), 0),
        Err(_) => panic!("Should go through"),
    }
}
