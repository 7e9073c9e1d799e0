use rox::parser::ast::ExprNode;
use rox::parser::expressions::Expr;
use rox::parser::parser::Parser;
use rox::parser::statements::Stmt;
use rox::scanner::scanner::Scanner;
use rox::scanner::token::{Token, TokenType};

fn scan<'a>(src: &'a str) -> Vec<Token<'a>> {
    let mut scanner = Scanner::new(src);
    let tokens = scanner.scan().unwrap();
    tokens
}

fn only_expression<'a>(statements: Vec<Stmt<'a>>) -> ExprNode<'a> {
    assert_eq!(statements.len(), 1);
    match statements.into_iter().next().unwrap() {
        Stmt::Expression(e) => e,
        _ => panic!("Should be an expression"),
    }
}

#[test]
fn tests_parse_number() {
    let tokens = scan("42;");
    assert_eq!(tokens.len(), 3, "Should have 3 tokens");
    let mut it = tokens.iter();
    assert_eq!(it.next().unwrap().token_type, TokenType::Number);
    assert_eq!(it.next().unwrap().token_type, TokenType::Semicolon);
    assert_eq!(it.next().unwrap().token_type, TokenType::EOF);

    let mut parser = Parser::new(tokens);
    let node = only_expression(parser.parse());

    assert_eq!(parser.has_errors(), false, "Should not have parsing errors");
    assert!(matches!(node.node, Expr::Constant(_)));
}

#[test]
fn tests_parse_identifier() {
    let tokens = scan("myVar;");
    let mut parser = Parser::new(tokens);
    let node = only_expression(parser.parse());

    assert_eq!(parser.has_errors(), false, "Should not have parsing errors");
    assert!(matches!(node.node, Expr::Var(_)));
}

#[test]
fn tests_parse_binop() {
    let tokens = scan("2 + 3;");
    let mut parser = Parser::new(tokens);
    let node = only_expression(parser.parse());

    assert_eq!(parser.has_errors(), false, "Should not have parsing errors");
    assert!(matches!(node.node, Expr::BinOp(_)));
}

#[test]
fn tests_parse_complex_binop() {
    let tokens = scan("2 + 3 * 4 + 5 * 6;");
    let mut parser = Parser::new(tokens);
    let node = only_expression(parser.parse());

    assert_eq!(parser.has_errors(), false, "Should not have parsing errors");
    assert!(matches!(node.node, Expr::BinOp(_)));
}

#[test]
fn tests_parse_incorrect_binop() {
    let tokens = scan("3 +");
    let mut parser = Parser::new(tokens);
    let node = only_expression(parser.parse());

    assert_eq!(
        parser.has_errors(),
        true,
        "3 + 2 - is not a valid expression"
    );

    match &node.node {
        Expr::BinOp(bin) => {
            assert!(matches!(bin.right.node, Expr::Error))
        }
        _ => panic!("Should be binop"),
    }
}

#[test]
fn parse_group_expr() {
    let tokens = scan("(3 + 2);");
    let mut parser = Parser::new(tokens);
    let node = only_expression(parser.parse());

    assert!(!parser.has_errors());
    assert!(matches!(node.node, Expr::Grouping(_)));
}

#[test]
fn parse_arithmetic_with_group() {
    let tokens = scan("(3 + 2) * 10;");
    let mut parser = Parser::new(tokens);
    let node = only_expression(parser.parse());

    assert!(!parser.has_errors());
    match &node.node {
        Expr::BinOp(bin) => {
            assert!(matches!(bin.left.node, Expr::Grouping(_)));
            assert!(matches!(bin.right.node, Expr::Constant(_)));
        }
        _ => panic!("Should be binop"),
    }
}

#[test]
fn tests_parse_simple_unary() {
    let tokens = scan("-42;");
    let mut parser = Parser::new(tokens);
    let node = only_expression(parser.parse());

    assert!(!parser.has_errors());
    match &node.node {
        Expr::Unary(unary) => {
            assert!(matches!(unary.op, TokenType::Minus));
            assert!(matches!(unary.operand.node, Expr::Constant(_)));
        }
        _ => panic!("Should be unary"),
    }
}

#[test]
fn tests_parse_multi_unary() {
    let tokens = scan("--42;");
    let mut parser = Parser::new(tokens);
    let node = only_expression(parser.parse());

    assert!(!parser.has_errors());
    match &node.node {
        Expr::Unary(unary) => {
            assert!(matches!(unary.op, TokenType::Minus));
            assert!(matches!(unary.operand.node, Expr::Unary(_)));
        }
        _ => panic!("Should be unary"),
    }
}

#[test]
fn tests_parse_grouped_unary() {
    let tokens = scan("-(42 + 10);");
    let mut parser = Parser::new(tokens);
    let node = only_expression(parser.parse());

    assert!(!parser.has_errors());
    match &node.node {
        Expr::Unary(unary) => {
            assert!(matches!(unary.op, TokenType::Minus));
            assert!(matches!(unary.operand.node, Expr::Grouping(_)));
        }
        _ => panic!("Should be unary"),
    }
}

#[test]
fn tests_parse_complex() {
    let tokens = scan("-(42 + 10) + 27 / (10 + (b * myVar));");
    let parser = Parser::new(tokens);

    assert!(!parser.has_errors());
}

#[test]
fn parse_assignment() {
    let tokens = scan("myVar = 42;");
    let mut parser = Parser::new(tokens);
    let node = only_expression(parser.parse());

    assert!(!parser.has_errors());
    assert!(matches!(node.node, Expr::Assignment(_)));
}

#[test]
fn tests_parse_assignment_to_expression() {
    let tokens = scan("myVar = -(42 + 10);");
    let mut parser = Parser::new(tokens);
    let node = only_expression(parser.parse());

    assert!(!parser.has_errors());
    assert!(matches!(node.node, Expr::Assignment(_)));
}

#[test]
fn parse_bool_expression() {
    let tokens = scan("myBool = true;");
    let mut parser = Parser::new(tokens);
    let node = only_expression(parser.parse());

    assert!(!parser.has_errors());
    assert!(matches!(node.node, Expr::Assignment(_)));
}

#[test]
fn tests_parse_comparison_expression() {
    let tokens = scan("true or false and 42;");
    let mut parser = Parser::new(tokens);
    let node = only_expression(parser.parse());

    assert!(!parser.has_errors());
    assert!(matches!(node.node, Expr::BinOp(_)));
}

#[test]
fn incomplete_sum_reports_its_line() {
    let tokens = scan("3 +");
    let mut parser = Parser::new(tokens);
    let statements = parser.parse();
    assert!(parser.has_errors());
    assert_eq!(parser.errors()[0].token.line, 1);
    assert_eq!(parser.errors()[0].msg, "unexpected token: 'EOF'");
    assert_eq!(statements.len(), 1);
    assert_eq!(statements[0].count_nodes(), 3);
}
