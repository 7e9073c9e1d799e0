use rox::parser::ast::ExprNode;
use rox::parser::expressions::{Expr, Value};
use rox::parser::parser::{
    infix_binding_power, postfix_binding_power, prefix_binding_power, Parser,
};
use rox::scanner::scanner::Scanner;
use rox::scanner::token::{Token, TokenType};

fn scan<'a>(src: &'a str) -> Vec<Token<'a>> {
    let mut scanner = Scanner::new(src);
    let tokens = scanner.scan().unwrap();
    tokens
}

fn number(node: &ExprNode) -> i32 {
    match &node.node {
        Expr::Constant(Value::Number(n)) => *n,
        _ => panic!("Should be a number"),
    }
}

#[test]
fn expressions_parse_number() {
    let tokens = scan("42;");
    assert_eq!(tokens.len(), 3, "Should have 3 tokens");
    let mut it = tokens.iter();
    assert_eq!(it.next().unwrap().token_type, TokenType::Number);
    assert_eq!(it.next().unwrap().token_type, TokenType::Semicolon);
    assert_eq!(it.next().unwrap().token_type, TokenType::EOF);

    let mut parser = Parser::new(tokens);
    let node = parser.parse_expression(true);

    assert_eq!(parser.has_errors(), false, "Should not have parsing errors");
    assert!(matches!(node.node, Expr::Constant(_)));
    assert_eq!(number(&node), 42);
}

#[test]
fn expressions_parse_identifier() {
    let tokens = scan("myVar;");
    let mut parser = Parser::new(tokens);
    let node = parser.parse_expression(true);

    assert_eq!(parser.has_errors(), false, "Should not have parsing errors");
    assert!(matches!(node.node, Expr::Var(_)));
    assert!(matches!(node.node, Expr::Var("myVar")));
}

#[test]
fn expressions_parse_binop() {
    let tokens = scan("2 + 3;");
    let mut parser = Parser::new(tokens);
    let node = parser.parse_expression(true);

    assert_eq!(parser.has_errors(), false, "Should not have parsing errors");
    assert!(matches!(node.node, Expr::BinOp(_)));
}

#[test]
fn expressions_parse_complex_binop() {
    let tokens = scan("2 + 3 * 4 + 5 * 6;");
    let mut parser = Parser::new(tokens);
    let node = parser.parse_expression(true);

    assert_eq!(parser.has_errors(), false, "Should not have parsing errors");
    assert!(matches!(node.node, Expr::BinOp(_)));
}

#[test]
fn complex_binop_follows_precedence() {
    // (2 + (3 * 4)) + (5 * 6)
    let tokens = scan("2 + 3 * 4 + 5 * 6;");
    let mut parser = Parser::new(tokens);
    let node = parser.parse_expression(true);
    assert!(!parser.has_errors());
    let top = match &node.node {
        Expr::BinOp(b) => b,
        _ => panic!("Should be binop"),
    };
    assert_eq!(top.op, TokenType::Plus);
    let left = match &top.left.node {
        Expr::BinOp(b) => b,
        _ => panic!("Should be binop"),
    };
    assert_eq!(left.op, TokenType::Plus);
    assert_eq!(number(&left.left), 2);
    let product = match &left.right.node {
        Expr::BinOp(b) => b,
        _ => panic!("Should be binop"),
    };
    assert_eq!(product.op, TokenType::Star);
    assert_eq!(number(&product.left), 3);
    assert_eq!(number(&product.right), 4);
    let right = match &top.right.node {
        Expr::BinOp(b) => b,
        _ => panic!("Should be binop"),
    };
    assert_eq!(right.op, TokenType::Star);
    assert_eq!(number(&right.left), 5);
    assert_eq!(number(&right.right), 6);
}

#[test]
fn expressions_parse_incorrect_binop() {
    let tokens = scan("3 +");
    let mut parser = Parser::new(tokens);
    let node = parser.parse_expression(true);

    assert_eq!(
        parser.has_errors(),
        true,
        "3 + 2 - is not a valid expression"
    );

    match &node.node {
        Expr::BinOp(bin) => {
            assert!(matches!(bin.right.node, Expr::Error))
        }
        _ => panic!("Should be binop"),
    }
}

#[test]
fn parse_with_group() {
    let tokens = scan("(3 + 2) * 10;");
    let mut parser = Parser::new(tokens);
    let node = parser.parse_expression(true);

    assert!(!parser.has_errors());
    match &node.node {
        Expr::BinOp(bin) => {
            assert!(matches!(bin.left.node, Expr::Grouping(_)));
            assert!(matches!(bin.right.node, Expr::Constant(_)));
        }
        _ => panic!("Should be binop"),
    }
}

#[test]
fn expressions_parse_simple_unary() {
    let tokens = scan("-42;");
    let mut parser = Parser::new(tokens);
    let node = parser.parse_expression(true);

    assert!(!parser.has_errors());
    match &node.node {
        Expr::Unary(unary) => {
            assert!(matches!(unary.op, TokenType::Minus));
            assert!(matches!(unary.operand.node, Expr::Constant(_)));
        }
        _ => panic!("Should be unary"),
    }
}

#[test]
fn expressions_parse_multi_unary() {
    let tokens = scan("--42;");
    let mut parser = Parser::new(tokens);
    let node = parser.parse_expression(true);

    assert!(!parser.has_errors());
    match &node.node {
        Expr::Unary(unary) => {
            assert!(matches!(unary.op, TokenType::Minus));
            assert!(matches!(unary.operand.node, Expr::Unary(_)));
            match &unary.operand.node {
                Expr::Unary(inner) => {
                    assert!(matches!(inner.op, TokenType::Minus));
                    assert_eq!(number(&inner.operand), 42);
                }
                _ => panic!("Should be unary"),
            }
        }
        _ => panic!("Should be unary"),
    }
}

#[test]
fn expressions_parse_grouped_unary() {
    let tokens = scan("-(42 + 10);");
    let mut parser = Parser::new(tokens);
    let node = parser.parse_expression(true);

    assert!(!parser.has_errors());
    match &node.node {
        Expr::Unary(unary) => {
            assert!(matches!(unary.op, TokenType::Minus));
            assert!(matches!(unary.operand.node, Expr::Grouping(_)));
        }
        _ => panic!("Should be unary"),
    }
}

#[test]
fn expressions_parse_complex() {
    let tokens = scan("-(42 + 10) + 27 / (10 + (b * myVar));");
    let parser = Parser::new(tokens);

    assert!(!parser.has_errors());
}

#[test]
fn expressions_parse_assignment_to_expression() {
    let tokens = scan("myVar = -(42 + 10);");
    let mut parser = Parser::new(tokens);
    let node = parser.parse_expression(true);

    assert!(!parser.has_errors());
    assert!(matches!(node.node, Expr::Assignment(_)));
}

#[test]
fn parse_logical_expression() {
    let tokens = scan("true or false and 42;");
    let mut parser = Parser::new(tokens);
    let node = parser.parse_expression(true);

    assert!(!parser.has_errors());
    assert!(matches!(node.node, Expr::BinOp(_)));
    match &node.node {
        Expr::BinOp(b) => {
            assert_eq!(b.op, TokenType::Or);
            assert!(matches!(b.left.node, Expr::Constant(Value::Bool(true))));
            match &b.right.node {
                Expr::BinOp(and) => {
                    assert_eq!(and.op, TokenType::And);
                    assert!(matches!(and.left.node, Expr::Constant(Value::Bool(false))));
                }
                _ => panic!("Should be binop"),
            }
        }
        _ => panic!("Should be binop"),
    }
}

#[test]
fn parse_equality_expression() {
    let tokens = scan("32 == 27;");
    let mut parser = Parser::new(tokens);
    let node = parser.parse_expression(true);

    assert!(!parser.has_errors());
    assert!(matches!(node.node, Expr::BinOp(_)));
}

#[test]
fn parse_equality_expression_2() {
    let tokens = scan("32 != 27;");
    let mut parser = Parser::new(tokens);
    let node = parser.parse_expression(true);

    assert!(!parser.has_errors());
    assert!(matches!(node.node, Expr::BinOp(_)));
}

#[test]
fn expressions_parse_comparison_expression() {
    let tokens = scan("32 >= 27 and 10 < 11 or 9 <= 6 and 8 > 2;");
    let mut parser = Parser::new(tokens);
    let node = parser.parse_expression(true);

    assert!(!parser.has_errors());
    assert!(matches!(node.node, Expr::BinOp(_)));
    match &node.node {
        Expr::BinOp(b) => assert_eq!(b.op, TokenType::Or),
        _ => panic!("Should be binop"),
    }
}

#[test]
fn parse_property_access() {
    let tokens = scan("user.data.email;");
    let mut parser = Parser::new(tokens);
    let node = parser.parse_expression(true);

    assert!(!parser.has_errors());
    assert!(matches!(node.node, Expr::PropertyAccess(_)));
    match &node.node {
        Expr::PropertyAccess(p) => {
            assert_eq!(p.property.lexeme, Some("email"));
            match &p.object.node {
                Expr::PropertyAccess(q) => {
                    assert_eq!(q.property.lexeme, Some("data"));
                    assert!(matches!(q.object.node, Expr::Var("user")));
                }
                _ => panic!("Should be a property access"),
            }
        }
        _ => panic!("Should be a property access"),
    }
}

#[test]
fn parse_call_expression() {
    let tokens = scan("obj.myFunc(42, hello);");
    let mut parser = Parser::new(tokens);
    let node = parser.parse_expression(true);

    assert!(!parser.has_errors());
    assert!(matches!(node.node, Expr::Call(_)));
    match &node.node {
        Expr::Call(c) => {
            assert!(matches!(c.calee.node, Expr::PropertyAccess(_)));
            assert_eq!(c.args.len(), 2);
            assert_eq!(number(&c.args[0]), 42);
            assert!(matches!(c.args[1].node, Expr::Var("hello")));
        }
        _ => panic!("Should be a call"),
    }
}

#[test]
fn parse_call_expression_multiple_args() {
    let tokens = scan("myFunc(42, hello + 3);");
    let mut parser = Parser::new(tokens);
    let node = parser.parse_expression(true);

    assert!(!parser.has_errors());
    assert!(matches!(node.node, Expr::Call(_)));
}

#[test]
fn parse_call_prop_access() {
    let tokens = scan("obj.methodOne(42).methodTwo(hello, goodbye)();");
    let mut parser = Parser::new(tokens);
    let node = parser.parse_expression(true);

    assert!(!parser.has_errors());
    match &node.node {
        Expr::Call(outer) => {
            assert_eq!(outer.args.len(), 0);
            match &outer.calee.node {
                Expr::Call(second) => assert_eq!(second.args.len(), 2),
                _ => panic!("Should be a call"),
            }
        }
        _ => panic!("Should be a call"),
    }
}

#[test]
fn chained_assignment_is_reported() {
    let tokens = scan("a = b = 1;");
    let mut parser = Parser::new(tokens);
    let node = parser.parse_expression(true);

    assert!(parser.has_errors());
    assert!(matches!(node.node, Expr::Error));
    let errors = parser.errors();
    assert_eq!(errors.len(), 1);
    // `=` takes what stands on its left first, so the second `=` finds an
    // assignment where it needs a name
    assert_eq!(errors[0].msg, "invalid variable assignment");
    assert_eq!(errors[0].token.lexeme, Some("="));
    assert_eq!(
        errors[0].to_string(),
        "[ERROR]: at 1: invalid variable assignment"
    );
}

#[test]
fn assignment_to_an_expression_is_reported() {
    let tokens = scan("1 + 2 = 3;");
    let mut parser = Parser::new(tokens);
    let node = parser.parse_expression(true);

    assert!(parser.has_errors());
    // `=` binds less tightly than `+`, so the whole sum is its target
    assert!(matches!(node.node, Expr::Error));
    assert_eq!(parser.errors()[0].msg, "invalid variable assignment");
}

#[test]
fn unexpected_token_messages() {
    let tokens = scan(";");
    let mut parser = Parser::new(tokens);
    let node = parser.parse_expression(false);
    assert!(matches!(node.node, Expr::Error));
    assert_eq!(parser.errors()[0].msg, "unexpected token: ';'");

    let tokens = scan("a b;");
    let mut parser = Parser::new(tokens);
    let node = parser.parse_expression(true);
    assert!(matches!(node.node, Expr::Error));
    assert_eq!(
        parser.errors()[0].msg,
        "unexpected token: expected arithmetic operator but got 'IDENT'"
    );

    let tokens = scan("(a;");
    let mut parser = Parser::new(tokens);
    let node = parser.parse_expression(true);
    assert!(matches!(node.node, Expr::Error));
    assert_eq!(
        parser.errors()[0].msg,
        "unexpected token: expected '(' but got 'IDENT'"
    );

    let tokens = scan("a }");
    let mut parser = Parser::new(tokens);
    parser.parse_expression(true);
    assert_eq!(parser.errors().len(), 2);
    assert_eq!(
        parser.errors()[1].msg,
        "unexpected token type: expected ';' but got '}'"
    );
}

#[test]
fn error_summary_counts_the_errors() {
    let tokens = scan("a b; c d;");
    let mut parser = Parser::new(tokens);
    parser.parse();
    assert_eq!(parser.errors().len(), 2);
    assert_eq!(
        parser.error_summary(),
        "Errors detected while parsing: found 2 errors"
    );
    assert_eq!(
        parser.log_errors(),
        vec![
            "Errors detected while parsing: found 2 errors",
            "[ERROR]: at 1: unexpected token: expected arithmetic operator but got 'IDENT'",
            "[ERROR]: at 1: unexpected token: expected arithmetic operator but got 'IDENT'",
        ]
    );
}

#[test]
fn number_that_is_no_i32_is_an_error() {
    for src in ["1.5;", "99999999999;", "2147483648;"] {
        let tokens = scan(src);
        let mut parser = Parser::new(tokens);
        let node = parser.parse_expression(true);
        assert!(matches!(node.node, Expr::Error));
        assert_eq!(parser.errors()[0].msg, "unexpected token: 'NUMBER'");
    }
    let tokens = scan("2147483647;");
    let mut parser = Parser::new(tokens);
    let node = parser.parse_expression(true);
    assert!(!parser.has_errors());
    assert_eq!(number(&node), 2147483647);
    let tokens = scan("007;");
    let mut parser = Parser::new(tokens);
    let node = parser.parse_expression(true);
    assert_eq!(number(&node), 7);
}

#[test]
fn string_literal_holds_what_is_between_its_quotes() {
    let tokens = scan("\"hi\";");
    assert_eq!(tokens[0].lexeme, Some("\"hi\""));
    let mut parser = Parser::new(tokens);
    let node = parser.parse_expression(true);
    match &node.node {
        Expr::Constant(Value::StringLiteral(s)) => assert_eq!(s, "hi"),
        _ => panic!("Should be a string"),
    }
    let tokens = scan("\"\" + \"é✓\";");
    let mut parser = Parser::new(tokens);
    let node = parser.parse_expression(true);
    match &node.node {
        Expr::BinOp(b) => {
            assert!(matches!(&b.left.node, Expr::Constant(Value::StringLiteral(s)) if s == ""));
            assert!(matches!(&b.right.node, Expr::Constant(Value::StringLiteral(s)) if s == "é✓"));
        }
        _ => panic!("Should be a sum"),
    }
}

#[test]
fn parsing_an_empty_token_list_reports_an_error() {
    let mut parser = Parser::new(vec![]);
    let node = parser.parse_expression(true);
    assert!(matches!(node.node, Expr::Error));
    assert_eq!(parser.errors()[0].msg, "unexpected token: 'EOF'");
    assert_eq!(parser.errors()[0].token.line, 0);
    let mut parser = Parser::new(vec![]);
    assert_eq!(parser.parse().len(), 0);
    assert!(!parser.has_errors());
}

#[test]
fn binding_powers() {
    assert_eq!(prefix_binding_power(TokenType::Minus), ((), 90));
    assert_eq!(prefix_binding_power(TokenType::Plus), ((), 90));
    assert_eq!(prefix_binding_power(TokenType::Bang), ((), 100));
    assert_eq!(infix_binding_power(TokenType::Equal), Some((5, 6)));
    assert_eq!(infix_binding_power(TokenType::Or), Some((7, 8)));
    assert_eq!(infix_binding_power(TokenType::And), Some((9, 10)));
    assert_eq!(infix_binding_power(TokenType::EqualEqual), Some((13, 14)));
    assert_eq!(infix_binding_power(TokenType::BangEqual), Some((13, 14)));
    assert_eq!(infix_binding_power(TokenType::Less), Some((17, 18)));
    assert_eq!(infix_binding_power(TokenType::GreaterEqual), Some((17, 18)));
    assert_eq!(infix_binding_power(TokenType::Plus), Some((21, 22)));
    assert_eq!(infix_binding_power(TokenType::Minus), Some((21, 22)));
    assert_eq!(infix_binding_power(TokenType::Star), Some((31, 32)));
    assert_eq!(infix_binding_power(TokenType::Slash), Some((31, 32)));
    assert_eq!(infix_binding_power(TokenType::Dot), None);
    assert_eq!(postfix_binding_power(TokenType::LeftParen), Some((41, 42)));
    assert_eq!(postfix_binding_power(TokenType::Dot), Some((51, 52)));
    assert_eq!(postfix_binding_power(TokenType::Plus), None);
}

#[test]
fn unary_binds_tighter_than_binary() {
    let tokens = scan("-a * b;");
    let mut parser = Parser::new(tokens);
    let node = parser.parse_expression(true);
    match &node.node {
        Expr::BinOp(b) => {
            assert_eq!(b.op, TokenType::Star);
            assert!(matches!(b.left.node, Expr::Unary(_)));
        }
        _ => panic!("Should be binop"),
    }
}
