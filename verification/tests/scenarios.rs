use rox::optimizer::optimizer::Optimizer;
use rox::parser::expressions::{Expr, Value};
use rox::parser::parser::Parser;
use rox::parser::statements::Stmt;
use rox::scanner::scanner::Scanner;

fn scan_and_parse<'a>(src: &'a str) -> (Vec<Stmt<'a>>, bool) {
    let mut scanner = Scanner::new(src);
    let tokens = scanner.scan().unwrap();
    let mut parser = Parser::new(tokens);
    let ast = parser.parse();
    let failed = parser.has_errors();
    (ast, failed)
}

#[test]
fn sum_and_product_fold_to_seven() {
    let (ast, failed) = scan_and_parse("1 + 2 * 3;");
    assert!(!failed);
    assert_eq!(ast.len(), 1);
    match &ast[0] {
        Stmt::Expression(e) => assert!(matches!(e.node, Expr::BinOp(_))),
        _ => panic!("Should be an expression"),
    }
    assert_eq!(Optimizer::count_nodes(&ast), 5);
    let optimized = Optimizer::optimize(ast);
    assert_eq!(Optimizer::count_nodes(&optimized), 1);
    match &optimized[0] {
        Stmt::Expression(e) => assert!(matches!(e.node, Expr::Constant(Value::Number(7)))),
        _ => panic!("Should be an expression"),
    }
}

#[test]
fn declaration_folds_its_initializer() {
    let (ast, failed) = scan_and_parse("var x = (2+3)*4;");
    assert!(!failed);
    assert_eq!(ast.len(), 1);
    assert!(matches!(ast[0], Stmt::VarDecl(_)));
    let optimized = Optimizer::optimize(ast);
    match &optimized[0] {
        Stmt::VarDecl(v) => {
            assert_eq!(v.var_name.lexeme, Some("x"));
            match &v.initializer {
                Some(e) => assert!(matches!(e.node, Expr::Constant(Value::Number(20)))),
                None => panic!("Should have an initializer"),
            }
        }
        _ => panic!("Should be a declaration"),
    }
}

#[test]
fn strings_fold_to_their_concatenation() {
    let (ast, failed) = scan_and_parse("\"hello\" + \"!\";");
    assert!(!failed);
    let optimized = Optimizer::optimize(ast);
    match &optimized[0] {
        Stmt::Expression(e) => match &e.node {
            Expr::Constant(Value::StringLiteral(s)) => assert_eq!(s, "hello!"),
            _ => panic!("Should fold to a string"),
        },
        _ => panic!("Should be an expression"),
    }
}
