use rox::parser::expressions::{Expr, Value};
use rox::parser::parser::Parser;
use rox::parser::statements::Stmt;
use rox::scanner::scanner::Scanner;
use rox::scanner::token::Token;

fn scan<'a>(src: &'a str) -> Vec<Token<'a>> {
    let mut scanner = Scanner::new(src);
    let tokens = scanner.scan().unwrap();
    tokens
}

#[test]
fn parse_if_stmt() {
    let tokens = scan(
        "if (true) {
                42;
            }",
    );
    let mut parser = Parser::new(tokens);
    let statements = parser.parse();

    assert!(!parser.has_errors());
    assert!(statements.len() == 1);
}

#[test]
fn parse_if_else_stmt() {
    let tokens = scan(
        "if (42 + 4 > 10) {
                42;
            } else {
                self.wrong(false, hello);
            }",
    );
    let mut parser = Parser::new(tokens);
    let statements = parser.parse();

    assert!(!parser.has_errors());
    assert!(statements.len() == 1);
    assert!(matches!(statements.get(0).unwrap(), Stmt::If(_)));
}

#[test]
fn parse_while() {
    let tokens = scan(
        "
            while (i < 10) {
                i = i + 1;
            }",
    );
    let mut parser = Parser::new(tokens);
    let statements = parser.parse();

    assert!(!parser.has_errors());
    assert!(statements.len() == 1);
    assert!(matches!(statements.get(0).unwrap(), Stmt::While(_)));
}

#[test]
fn parse_for() {
    let tokens = scan(
        "
            for (i = 1; i < 10; i = i + 1) {
                42 + a;
            }
            ",
    );
    let mut parser = Parser::new(tokens);
    let statements = parser.parse();

    assert!(!parser.has_errors());
    assert!(statements.len() == 1);
    assert!(matches!(statements.get(0).unwrap(), Stmt::For(_)));
}

#[test]
fn parse_for_empty() {
    let tokens = scan(
        "
            for (;;) {
                42 + a;
            }
            ",
    );
    let mut parser = Parser::new(tokens);
    let statements = parser.parse();

    assert!(!parser.has_errors());
    assert!(statements.len() == 1);
    assert!(matches!(statements.get(0).unwrap(), Stmt::For(_)));
}

#[test]
fn parse_for_first_empty() {
    let tokens = scan(
        "
            for (;i < 10; i = i + 1) {
                42 + a;
            }
            ",
    );
    let mut parser = Parser::new(tokens);
    let statements = parser.parse();

    assert!(!parser.has_errors());
    assert!(statements.len() == 1);
    assert!(matches!(statements.get(0).unwrap(), Stmt::For(_)));
}

#[test]
fn parse_var_decl() {
    let tokens = scan(
        "
            var myVar = 42 + 31 * 4;
            ",
    );
    let mut parser = Parser::new(tokens);
    let statements = parser.parse();

    assert!(!parser.has_errors());
    assert!(statements.len() == 1);
    assert!(matches!(statements.get(0).unwrap(), Stmt::VarDecl(_)));
}

#[test]
fn parse_return() {
    let tokens = scan("return 42 + 1337;");
    let mut parser = Parser::new(tokens);
    let statements = parser.parse();

    assert!(!parser.has_errors());
    assert!(statements.len() == 1);
    assert!(matches!(statements.get(0).unwrap(), Stmt::Return(_)));
}

#[test]
fn parse_empty_function_decl() {
    let tokens = scan("fun myFunc() {}");
    let mut parser = Parser::new(tokens);
    let statements = parser.parse();

    assert!(!parser.has_errors());
    assert!(statements.len() == 1);
    assert!(matches!(statements.get(0).unwrap(), Stmt::FuncDecl(_)));
}

#[test]
fn parse_function_decl() {
    let tokens = scan("fun myFunc(a, b) { var myVar = a; return a + 42;}");
    let mut parser = Parser::new(tokens);
    let statements = parser.parse();

    assert!(!parser.has_errors());
    assert!(statements.len() == 1);
    assert!(matches!(statements.get(0).unwrap(), Stmt::FuncDecl(_)));
}

#[test]
fn parse_class_decl() {
    let tokens =
        scan("class Nice {fun methodOne() {} fun methodTwo(name, age) { return name + age; }}");
    let mut parser = Parser::new(tokens);
    let statements = parser.parse();

    assert!(!parser.has_errors());
    assert!(statements.len() == 1);
    assert!(matches!(statements.get(0).unwrap(), Stmt::ClassDecl(_)));
}

#[test]
fn for_with_no_clauses() {
    let tokens = scan("for (;;) { 42; }");
    let mut parser = Parser::new(tokens);
    let statements = parser.parse();

    assert!(!parser.has_errors());
    assert_eq!(statements.len(), 1);
    match &statements[0] {
        Stmt::For(f) => {
            assert!(f.initializer.is_none());
            assert!(f.condition.is_none());
            assert!(f.increment.is_none());
            assert_eq!(f.body.len(), 1);
        }
        _ => panic!("Should be a for"),
    }
}

#[test]
fn for_with_a_declaration() {
    let tokens = scan("for (var i = 1; i < 10; i = i + 1) { 42 + a; }");
    let mut parser = Parser::new(tokens);
    let statements = parser.parse();

    assert!(!parser.has_errors());
    match &statements[0] {
        Stmt::For(f) => {
            match f.initializer.as_deref() {
                Some(Stmt::VarDecl(v)) => {
                    assert_eq!(v.var_name.lexeme, Some("i"));
                    assert!(v.initializer.is_some());
                }
                _ => panic!("Should be a declaration"),
            }
            assert!(f.condition.is_some());
            assert!(f.increment.is_some());
        }
        _ => panic!("Should be a for"),
    }
}

#[test]
fn if_else_bodies() {
    let tokens = scan("if (1 < 2) { 1; } else { 2; }");
    let mut parser = Parser::new(tokens);
    let statements = parser.parse();

    assert!(!parser.has_errors());
    assert_eq!(statements.len(), 1);
    match &statements[0] {
        Stmt::If(i) => {
            assert!(matches!(i.condition.node, Expr::BinOp(_)));
            assert_eq!(i.if_body.len(), 1);
            assert_eq!(i.else_body.len(), 1);
        }
        _ => panic!("Should be an if"),
    }
}

#[test]
fn if_without_else_has_an_empty_else_body() {
    let tokens = scan("if (a) { 1; 2; }");
    let mut parser = Parser::new(tokens);
    let statements = parser.parse();
    match &statements[0] {
        Stmt::If(i) => {
            assert_eq!(i.if_body.len(), 2);
            assert_eq!(i.else_body.len(), 0);
        }
        _ => panic!("Should be an if"),
    }
}

#[test]
fn class_with_two_methods() {
    let tokens = scan("class Nice { fun m() {} fun n(a) { return a + 42; } }");
    let mut parser = Parser::new(tokens);
    let statements = parser.parse();

    assert!(!parser.has_errors());
    assert_eq!(statements.len(), 1);
    match &statements[0] {
        Stmt::ClassDecl(c) => {
            assert_eq!(c.name.lexeme, Some("Nice"));
            assert_eq!(c.methods.len(), 2);
            assert_eq!(c.methods[0].name.lexeme, Some("m"));
            assert_eq!(c.methods[0].parameters.len(), 0);
            assert_eq!(c.methods[1].name.lexeme, Some("n"));
            assert_eq!(c.methods[1].parameters.len(), 1);
            assert_eq!(c.methods[1].parameters[0].lexeme, Some("a"));
            assert_eq!(c.methods[1].body.len(), 1);
        }
        _ => panic!("Should be a class"),
    }
}

#[test]
fn class_with_something_else_than_methods_is_an_error() {
    let tokens = scan("class Nice { 42; }");
    let mut parser = Parser::new(tokens);
    let statements = parser.parse();
    assert!(parser.has_errors());
    assert!(matches!(statements[0], Stmt::Error));
    assert_eq!(
        parser.errors()[0].msg,
        "unexpected token: expected 'IDENT' but got 'IDENT'"
    );
}

#[test]
fn declarations_need_a_name() {
    for src in ["var 1 = 2;", "fun (a) {}", "class { }"] {
        let tokens = scan(src);
        let mut parser = Parser::new(tokens);
        let statements = parser.parse();
        assert!(parser.has_errors());
        assert!(matches!(statements[0], Stmt::Error));
    }
    let tokens = scan("var 1 = 2;");
    let mut parser = Parser::new(tokens);
    parser.parse();
    assert_eq!(
        parser.errors()[0].msg,
        "unexpected token: expected 'IDENT' but got 'NUMBER'"
    );
}

#[test]
fn parameters_are_plain_names() {
    let tokens = scan("fun f(a, 1) {}");
    let mut parser = Parser::new(tokens);
    let statements = parser.parse();
    assert!(parser.has_errors());
    assert!(matches!(statements[0], Stmt::Error));
}

#[test]
fn var_without_initializer() {
    let tokens = scan("var x; x = 1;");
    let mut parser = Parser::new(tokens);
    let statements = parser.parse();
    assert!(!parser.has_errors());
    assert_eq!(statements.len(), 2);
    match &statements[0] {
        Stmt::VarDecl(v) => {
            assert_eq!(v.var_name.lexeme, Some("x"));
            assert!(v.initializer.is_none());
        }
        _ => panic!("Should be a declaration"),
    }
    assert!(matches!(statements[1], Stmt::Expression(_)));
}

#[test]
fn return_without_value() {
    let tokens = scan("return;");
    let mut parser = Parser::new(tokens);
    let statements = parser.parse();
    assert!(!parser.has_errors());
    match &statements[0] {
        Stmt::Return(r) => assert!(r.value.is_none()),
        _ => panic!("Should be a return"),
    }
}

#[test]
fn recovery_goes_on_with_the_next_statement() {
    // the first error skips up to the `;` behind `2`, the second up to the
    // `;` behind `c`
    let tokens = scan("1 + ; 2; a b c; 3;");
    let mut parser = Parser::new(tokens);
    let statements = parser.parse();
    assert!(parser.has_errors());
    assert_eq!(parser.errors().len(), 2);
    assert_eq!(parser.errors()[0].msg, "unexpected token: ';'");
    assert_eq!(
        parser.errors()[1].msg,
        "unexpected token: expected arithmetic operator but got 'IDENT'"
    );
    assert_eq!(statements.len(), 3);
    match &statements[0] {
        Stmt::Expression(e) => match &e.node {
            Expr::BinOp(b) => assert!(matches!(b.right.node, Expr::Error)),
            _ => panic!("Should be a sum"),
        },
        _ => panic!("Should be an expression"),
    }
    match &statements[1] {
        Stmt::Expression(e) => assert!(matches!(e.node, Expr::Error)),
        _ => panic!("Should be an expression"),
    }
    match &statements[2] {
        Stmt::Expression(e) => {
            assert!(matches!(e.node, Expr::Constant(Value::Number(3))))
        }
        _ => panic!("Should be an expression"),
    }
}

#[test]
fn input_that_ends_early_is_parsed_without_a_crash() {
    for src in [
        "for", "for (", "if", "if (a", "while (", "fun", "fun f", "fun f(", "class", "class A",
        "class A {", "var", "var x =", "return", "a.", "a(", "a(b,", "(", "-", "a = ",
    ] {
        let tokens = scan(src);
        let mut parser = Parser::new(tokens);
        let statements = parser.parse();
        assert!(statements.len() <= 1);
    }
}
