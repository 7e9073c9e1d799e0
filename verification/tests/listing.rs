use rox::parser::parser::Parser;
use rox::parser::statements::Stmt;
use rox::scanner::scanner::Scanner;

fn scan_and_parse<'a>(src: &'a str) -> Vec<Stmt<'a>> {
    let mut scanner = Scanner::new(src);
    let tokens = scanner.scan().unwrap();
    let mut parser = Parser::new(tokens);
    parser.parse()
}

fn listing(src: &str) -> String {
    let ast = scan_and_parse(src);
    assert_eq!(ast.len(), 1);
    ast[0].to_yaml(0)
}

#[test]
fn listing_of_a_sum() {
    assert_eq!(
        listing("1 + a;"),
        "  BinOp:\n    Op: '+'\n    Lhs:\n      Constant: 1\n    Rhs:\n      Var: a"
    );
}

#[test]
fn listing_of_literals() {
    assert_eq!(listing("true;"), "  Constant: true");
    assert_eq!(listing("false;"), "  Constant: false");
    assert_eq!(listing("\"text \";"), "  Constant: text");
    assert_eq!(listing("2147483647;"), "  Constant: 2147483647");
    assert_eq!(listing("0;"), "  Constant: 0");
}

#[test]
fn listing_of_prefix_group_and_assignment() {
    assert_eq!(
        listing("-(a);"),
        "  Unary:\n    Op: '-'\n    Expr:\n      Group:\n        Var: a"
    );
    assert_eq!(
        listing("x = !y;"),
        "  Assignment:\n    Name: x\n    Val:\n      Unary:\n        Op: '!'\n        Expr:\n          Var: y"
    );
}

#[test]
fn listing_of_calls_and_properties() {
    assert_eq!(
        listing("f();"),
        "  Call:\n    Calee:\n      Var: f\n    Args: []"
    );
    assert_eq!(
        listing("a.b(1, c);"),
        "  Call:\n    Calee:\n      PropAccess:\n        Obj:\n          Var: a\n        Prop: b\n    Args: [\n      Constant: 1\n      Var: c\n    ]"
    );
}

#[test]
fn listing_of_an_error() {
    let ast = scan_and_parse("var 1;");
    assert_eq!(ast[0].to_yaml(0), "ERROR");
    assert_eq!(ast[0].to_yaml(2), "    ERROR");
    assert_eq!(listing("1 + ;"), "  BinOp:\n    Op: '+'\n    Lhs:\n      Constant: 1\n    Rhs:\n      ERROR");
}

#[test]
fn listing_of_if_and_while() {
    assert_eq!(
        listing("if (a) { 1; }"),
        "IfStmt:\n  Condition:\n    Var: a\n  If:\n    Constant: 1"
    );
    assert_eq!(
        listing("if (a) { 1; 2; } else { 3; }"),
        "IfStmt:\n  Condition:\n    Var: a\n  If:\n    Constant: 1\n\n    Constant: 2\n\n  Else:\n    Constant: 3"
    );
    assert_eq!(
        listing("while (a) { }"),
        "WhileStmt:\n  Condition:\n    Var: a\n  Body:"
    );
}

#[test]
fn listing_of_for() {
    assert_eq!(
        listing("for (;;) { }"),
        "ForStmt:\n  Initializer:\n    None\n  Condition:\n    None\n  Increment:\n    None\n  Body:"
    );
    assert_eq!(
        listing("for (var i = 1; i; i) { i; }"),
        "ForStmt:\n  Initializer:\n  VarDeclStmt:\n    Var: i\n    Initializer:\n      Constant: 1\n  Condition:\n    Var: i\n  Increment:\n    Var: i\n  Body:\n    Var: i"
    );
}

#[test]
fn listing_of_declarations() {
    assert_eq!(
        listing("var x;"),
        "VarDeclStmt:\n  Var: x\n  Initializer:\n    None"
    );
    assert_eq!(listing("return;"), "Return:\n    None");
    assert_eq!(listing("return a;"), "Return:\n  Var: a");
    assert_eq!(
        listing("fun f() {}"),
        "Func:\n  Name: f\n  Params: []\n  Body: []"
    );
    assert_eq!(
        listing("fun f(a, b, c) { a; return b; }"),
        "Func:\n  Name: f\n  Params: [ a, b, c ]\n  Body: [\n      Var: a,\n\n    Return:\n      Var: b,\n  ]"
    );
    assert_eq!(
        listing("class A { }"),
        "Class:\n  Name: A\n  Methods: []"
    );
    assert_eq!(
        listing("class A { fun m(x) {} }"),
        "Class:\n  Name: A\n  Methods: [\n    Func:\n      Name: m\n      Params: [ x ]\n      Body: [],\n  ]"
    );
}

#[test]
fn listing_between_line_feeds() {
    let ast = scan_and_parse("a;");
    assert_eq!(ast[0].to_string(), "\n  Var: a\n");
    match &ast[0] {
        Stmt::Expression(e) => {
            assert_eq!(e.to_string(), "\nVar: a\n");
            assert_eq!(e.node.to_yaml(1), "  Var: a");
        }
        _ => panic!("Should be an expression"),
    }
}
