use rox::optimizer::optimizer::Optimizer;
use rox::parser::ast::AstNode;
use rox::parser::expressions::{Expr, FoldError, Value};
use rox::parser::parser::Parser;
use rox::parser::statements::Stmt;
use rox::scanner::scanner::Scanner;
use rox::scanner::token::TokenType;

fn scan_and_parse<'a>(src: &'a str) -> Vec<Stmt<'a>> {
    let mut scanner = Scanner::new(src);
    let tokens = scanner.scan().unwrap();

    let mut parser = Parser::new(tokens);
    let ast = parser.parse();
    ast
}

fn folded<'a>(src: &'a str) -> Expr<'a> {
    let optimized = Optimizer::optimize(scan_and_parse(src));
    assert_eq!(optimized.len(), 1);
    match optimized.into_iter().next().unwrap() {
        Stmt::Expression(e) => e.node,
        _ => panic!("Should be an expression"),
    }
}

fn folded_number(src: &str) -> i32 {
    match folded(src) {
        Expr::Constant(Value::Number(n)) => n,
        _ => panic!("Should fold to a number"),
    }
}

fn folded_bool(src: &str) -> bool {
    match folded(src) {
        Expr::Constant(Value::Bool(b)) => b,
        _ => panic!("Should fold to a boolean"),
    }
}

#[test]
fn count_nodes_1() {
    let ast = scan_and_parse("2 + 3;");
    let node_count = Optimizer::count_nodes(&ast);

    assert_eq!(node_count, 3);
}

#[test]
fn count_nodes_2() {
    let ast = scan_and_parse("2 + 3 * 42;");
    let node_count = Optimizer::count_nodes(&ast);

    assert_eq!(node_count, 5);
}

#[test]
fn count_nodes_3() {
    let ast = scan_and_parse(
        "if (true) {
                42;
            }",
    );
    let node_count = Optimizer::count_nodes(&ast);

    assert_eq!(node_count, 2);
}

#[test]
fn count_nodes_4() {
    let ast = scan_and_parse(
        "fun myFunc(a, b) {
                var myVar = a;
                return a + 42;
            }",
    );
    let node_count = Optimizer::count_nodes(&ast);

    assert_eq!(node_count, 4);
}

#[test]
fn count_nodes_5() {
    let ast = scan_and_parse(
        "
            for (var i = 1; i < 10; i = i + 1) {
                42 + a;
            }
            ",
    );
    let node_count = Optimizer::count_nodes(&ast);

    assert_eq!(node_count, 11);
}

#[test]
fn optimize_1() {
    let ast = scan_and_parse("var myVar = 42 + 1 * 1 + 4 * 2;");
    let optimized = Optimizer::optimize(ast);
    assert_eq!(Optimizer::count_nodes(&optimized), 1);
}

#[test]
fn optimize_2() {
    let ast = scan_and_parse("var myVar = 42 + 4 * 2 - 40 / (2 * 5);");
    let optimized = Optimizer::optimize(ast);
    assert_eq!(Optimizer::count_nodes(&optimized), 1);
}

#[test]
fn optimize_3() {
    let ast = scan_and_parse("obj.myFunc(2 * 5, 42 + 3 * 6, test.method(10 + 3 * 10 + 20 / 2));");
    let before = Optimizer::count_nodes(&ast);
    let optimized = Optimizer::optimize(ast);
    assert_eq!(before, 23);
    assert_eq!(Optimizer::count_nodes(&optimized), 9);
}

#[test]
fn folded_values() {
    assert_eq!(folded_number("42 + 1 * 1 + 4 * 2;"), 51);
    assert_eq!(folded_number("42 + 4 * 2 - 40 / (2 * 5);"), 46);
    assert_eq!(folded_number("1 + 2 * 3;"), 7);
    assert_eq!(folded_number("(2 + 3) * 4;"), 20);
    assert_eq!(folded_number("7 / 2;"), 3);
    assert_eq!(folded_number("(0 - 7) / 2;"), -3);
    assert_eq!(folded_number("7 / (0 - 2);"), -3);
    assert_eq!(folded_number("(0 - 7) / (0 - 2);"), 3);
    assert_eq!(folded_number("2147483647 - 1 + 1;"), 2147483647);
}

#[test]
fn folded_comparisons() {
    assert!(folded_bool("1 < 2;"));
    assert!(!folded_bool("2 < 1;"));
    assert!(folded_bool("2 > 1;"));
    assert!(folded_bool("2 >= 2;"));
    assert!(folded_bool("2 <= 2;"));
    assert!(!folded_bool("3 <= 2;"));
    assert!(folded_bool("2 == 2;"));
    assert!(!folded_bool("2 == 3;"));
    assert!(folded_bool("true == true;"));
    assert!(!folded_bool("true == false;"));
    assert!(folded_bool("\"a\" == \"a\";"));
    assert!(!folded_bool("\"a\" == \"b\";"));
}

#[test]
fn folded_strings() {
    match folded("\"hello\" + \"!\";") {
        Expr::Constant(Value::StringLiteral(s)) => assert_eq!(s, "hello!"),
        _ => panic!("Should fold to a string"),
    }
}

#[test]
fn folding_fails_to_the_error_node() {
    for src in [
        "1 + true;",
        "\"a\" - \"b\";",
        "1 / 0;",
        "2147483647 + 1;",
        "(0 - 2147483647 - 1) / (0 - 1);",
        "65536 * 65536;",
        "1 != 2;",
        "true and false;",
        "nil == nil;",
        "1 == true;",
    ] {
        assert!(matches!(folded(src), Expr::Error), "{}", src);
    }
}

#[test]
fn compute_says_why_it_fails() {
    let one = || Value::Number(1);
    assert!(matches!(
        Value::compute(one(), Value::Bool(true), TokenType::Plus),
        Err(FoldError::InvalidOperands)
    ));
    assert!(matches!(
        Value::compute(one(), Value::Number(0), TokenType::Slash),
        Err(FoldError::DivisionByZero)
    ));
    assert!(matches!(
        Value::compute(Value::Number(i32::MAX), one(), TokenType::Plus),
        Err(FoldError::Overflow)
    ));
    assert!(matches!(
        Value::compute(Value::Number(i32::MIN), one(), TokenType::Minus),
        Err(FoldError::Overflow)
    ));
    assert!(matches!(
        Value::compute(Value::Number(i32::MIN), Value::Number(-1), TokenType::Slash),
        Err(FoldError::Overflow)
    ));
    assert!(matches!(
        Value::compute(one(), one(), TokenType::Semicolon),
        Err(FoldError::InvalidOperands)
    ));
    assert!(matches!(
        Value::compute(Value::Number(6), Value::Number(7), TokenType::Star),
        Ok(Value::Number(42))
    ));
    assert_eq!(FoldError::DivisionByZero.message(), "right hand side of the division is 0");
}

#[test]
fn fold_constants_gives_a_node() {
    assert!(matches!(
        Expr::fold_constants(Value::Number(40), Value::Number(2), TokenType::Plus),
        Expr::Constant(Value::Number(42))
    ));
    assert!(matches!(
        Expr::fold_constants(Value::Number(40), Value::Nil, TokenType::Plus),
        Expr::Error
    ));
    assert!(Expr::Error.is_error());
    assert!(!Expr::Var("x").is_error());
}

#[test]
fn group_around_a_literal_is_peeled() {
    assert_eq!(folded_number("((((5))));"), 5);
    match folded("(a);") {
        Expr::Grouping(inner) => assert!(matches!(inner.node, Expr::Var("a"))),
        _ => panic!("Should stay a group"),
    }
}

#[test]
fn what_does_not_fold_stays() {
    // a sum with a variable is kept as it is, with its right side unfolded
    match folded("a + (1 + 2);") {
        Expr::BinOp(b) => {
            assert!(matches!(b.left.node, Expr::Var("a")));
            assert!(matches!(b.right.node, Expr::Grouping(_)));
        }
        _ => panic!("Should stay a sum"),
    }
    match folded("-(1 + 2);") {
        Expr::Unary(u) => assert!(matches!(u.operand.node, Expr::Constant(Value::Number(3)))),
        _ => panic!("Should stay a negation"),
    }
    match folded("x = 2 * 3;") {
        Expr::Assignment(a) => assert!(matches!(a.expr.node, Expr::Constant(Value::Number(6)))),
        _ => panic!("Should stay an assignment"),
    }
}

#[test]
fn folding_twice_changes_nothing_more() {
    for src in [
        "1 + 2 * 3;",
        "a + (1 + 2);",
        "f(1 + 2, (3), -(4 * 5)).g;",
        "var x = (2+3)*4;",
        "if (1 < 2) { 1 + 1; } else { (2); }",
        "for (var i = 1 + 1; i < 2 * 5; i = i + 1) { 42 + a; }",
        "class A { fun m(a) { return 1 + 2; } }",
        "while (1 / 0) { return; }",
    ] {
        let once = Optimizer::optimize(scan_and_parse(src));
        let count_once = Optimizer::count_nodes(&once);
        let shape_once: Vec<String> = once.iter().map(|s| s.to_yaml(0)).collect();
        let twice = Optimizer::optimize(once);
        let shape_twice: Vec<String> = twice.iter().map(|s| s.to_yaml(0)).collect();
        assert_eq!(count_once, Optimizer::count_nodes(&twice));
        assert_eq!(shape_once, shape_twice);
    }
}

#[test]
fn what_has_nothing_to_fold_comes_out_unchanged() {
    for src in ["a + b * c;", "f(x, y).z;", "-a;", "x = (y);", "a + 1;"] {
        let ast = scan_and_parse(src);
        let before: Vec<String> = ast.iter().map(|s| s.to_yaml(0)).collect();
        let optimized = Optimizer::optimize(ast);
        let after: Vec<String> = optimized.iter().map(|s| s.to_yaml(0)).collect();
        assert_eq!(before, after);
    }
}

#[test]
fn statements_fold_their_expressions() {
    let ast = scan_and_parse("if (1 < 2) { 1 + 1; } else { 2 * 2; } while (1 == 1) { return 3 - 1; }");
    assert_eq!(Optimizer::count_nodes(&ast), 15);
    let optimized = Optimizer::optimize(ast);
    assert_eq!(Optimizer::count_nodes(&optimized), 5);
    let ast = scan_and_parse("class A { fun m() { 1 + 2; } fun n(a) { var b = 2 * 3; } }");
    assert_eq!(Optimizer::count_nodes(&ast), 6);
    let optimized = Optimizer::optimize(ast);
    assert_eq!(Optimizer::count_nodes(&optimized), 2);
}

#[test]
fn nodes_through_the_trait() {
    fn count<T: AstNode>(node: &T) -> usize {
        node.optimize().count_nodes()
    }
    let ast = scan_and_parse("1 + 2; a + 1;");
    assert_eq!(count(&ast[0]), 1);
    assert_eq!(count(&ast[1]), 3);
    match &ast[0] {
        Stmt::Expression(e) => {
            assert_eq!(AstNode::count_nodes(e), 3);
            assert_eq!(count(e), 1);
            assert_eq!(e.clone().count_nodes(), 3);
        }
        _ => panic!("Should be an expression"),
    }
}

#[test]
fn the_error_statement_counts_as_one() {
    let ast = scan_and_parse("var 1;");
    assert!(matches!(ast[0], Stmt::Error));
    assert_eq!(ast[0].count_nodes(), 1);
    assert!(matches!(ast[0].optimize(), Stmt::Error));
}

#[test]
fn an_undefined_inner_operation_keeps_the_outer_one() {
    // the quotient folds to the error node, so the sum has no two literals
    // to fold and stays as it was written
    let ast = scan_and_parse("(1 / 0) + 2;");
    assert_eq!(Optimizer::count_nodes(&ast), 6);
    let optimized = Optimizer::optimize(ast);
    assert_eq!(Optimizer::count_nodes(&optimized), 6);
    match folded("(1 / 0) + 2;") {
        Expr::BinOp(b) => {
            assert!(matches!(b.left.node, Expr::Grouping(_)));
            assert!(matches!(b.right.node, Expr::Constant(Value::Number(2))));
        }
        _ => panic!("Should stay a sum"),
    }
    // at the top, an undefined operation folds to the one error node
    assert!(matches!(folded("1 / 0;"), Expr::Error));
    assert_eq!(
        Optimizer::count_nodes(&Optimizer::optimize(scan_and_parse("(1 + 2) / (3 - 3);"))),
        1
    );
}
