//! What holds of every tree that the parser gives: a variable is anchored at
//! the identifier that names it, and only identifiers are assigned to,
//! declared, or taken as parameters.

use vstd::prelude::*;

use crate::scanner::token::{TokenType, TokenView};
use crate::text::unquoted;

use super::ast::ExprNodeView;
use super::expressions::{ExprView, ValueView};
use super::grammar::{
    args_loop_spec, block_loop_spec, infix_loop_spec, infix_power, methods_loop_spec,
    number_literal, params_loop_spec, parse_class_decl_spec, parse_expr_spec, parse_for_spec,
    parse_func_decl_spec, parse_if_spec, parse_infix_spec, parse_postfix_spec, parse_return_spec,
    parse_spec, parse_statement_spec, parse_var_decl_spec, parse_while_spec, postfix_power,
    prefix_power, program_loop_spec, ParserState,
};
use super::statements::{FuncDeclView, StmtView};

verus! {

/// Whether an expression is well formed: every variable in it is anchored
/// at an identifier and named by its text, and every assignment in it
/// assigns to an identifier.
pub open spec fn well_formed(n: ExprNodeView) -> bool
    decreases n,
{
    match n.node {
        ExprView::Constant(_) | ExprView::Error => true,
        ExprView::Var(name) => n.token.kind == TokenType::Identifier && name == n.token.text(),
        ExprView::BinOp { op, left, right } => well_formed(*left) && well_formed(*right),
        ExprView::Unary { op, operand } => well_formed(*operand),
        ExprView::Assignment { name, value } => name.kind == TokenType::Identifier && well_formed(
            *value,
        ),
        ExprView::Grouping(inner) => well_formed(*inner),
        ExprView::Call { callee, args } => well_formed(*callee) && forall|i: int|
            0 <= i < args.len() ==> well_formed(#[trigger] args[i]),
        ExprView::PropertyAccess { object, property } => well_formed(*object),
    }
}

/// Whether every expression of a sequence is well formed.
pub open spec fn all_well_formed(s: Seq<ExprNodeView>) -> bool {
    forall|i: int| 0 <= i < s.len() ==> well_formed(#[trigger] s[i])
}

/// Whether every token of a sequence is an identifier.
pub open spec fn all_identifiers(s: Seq<TokenView>) -> bool {
    forall|i: int| 0 <= i < s.len() ==> (#[trigger] s[i]).kind == TokenType::Identifier
}

/// Whether an expression that may be absent is well formed.
pub open spec fn well_formed_opt(e: Option<ExprNodeView>) -> bool {
    match e {
        Some(n) => well_formed(n),
        None => true,
    }
}

/// Whether a statement is well formed: its expressions and the statements
/// of its bodies are, and what it declares is named by an identifier.
pub open spec fn well_formed_stmt(s: StmtView) -> bool
    decreases s,
{
    match s {
        StmtView::Error => true,
        StmtView::Expression(e) => well_formed(e),
        StmtView::If { cond, then_body, else_body } => well_formed(cond) && (forall|i: int|
            0 <= i < then_body.len() ==> well_formed_stmt(#[trigger] then_body[i])) && (forall|
            i: int,
        | 0 <= i < else_body.len() ==> well_formed_stmt(#[trigger] else_body[i])),
        StmtView::While { cond, body } => well_formed(cond) && forall|i: int|
            0 <= i < body.len() ==> well_formed_stmt(#[trigger] body[i]),
        StmtView::For { init, cond, step, body } => (match init {
            Some(i) => well_formed_stmt(*i),
            None => true,
        }) && well_formed_opt(cond) && well_formed_opt(step) && forall|i: int|
            0 <= i < body.len() ==> well_formed_stmt(#[trigger] body[i]),
        StmtView::VarDecl { name, init } => name.kind == TokenType::Identifier && well_formed_opt(
            init,
        ),
        StmtView::Return { value } => well_formed_opt(value),
        StmtView::FuncDecl(f) => well_formed_func(f),
        StmtView::ClassDecl { name, methods } => name.kind == TokenType::Identifier && forall|
            i: int,
        | 0 <= i < methods.len() ==> well_formed_func(#[trigger] methods[i]),
    }
}

/// Whether a function declaration is well formed: its name and its
/// parameters are identifiers and the statements of its body are well
/// formed.
pub open spec fn well_formed_func(f: FuncDeclView) -> bool
    decreases f,
{
    &&& f.name.kind == TokenType::Identifier
    &&& all_identifiers(f.params)
    &&& forall|i: int| 0 <= i < f.body.len() ==> well_formed_stmt(#[trigger] f.body[i])
}

/// Whether every statement of a sequence is well formed.
pub open spec fn all_well_formed_stmts(s: Seq<StmtView>) -> bool {
    forall|i: int| 0 <= i < s.len() ==> well_formed_stmt(#[trigger] s[i])
}

/// Whether every function declaration of a sequence is well formed.
pub open spec fn all_well_formed_funcs(s: Seq<FuncDeclView>) -> bool {
    forall|i: int| 0 <= i < s.len() ==> well_formed_func(#[trigger] s[i])
}

/// A parsed expression is well formed.
pub proof fn lemma_expr_well_formed(tokens: Seq<TokenView>, st: ParserState, bp: nat)
    ensures
        well_formed(parse_expr_spec(tokens, st, bp).1),
    decreases st.remaining(tokens), 2nat,
{
    let tok = st.peek(tokens);
    let s1 = st.advance(tokens);
    match tok.kind {
        TokenType::StringLiteral => {
            lemma_operators_well_formed(
                tokens,
                s1,
                bp,
                ExprNodeView {
                    token: tok,
                    node: ExprView::Constant(ValueView::StringLiteral(unquoted(tok.text()))),
                },
            );
        },
        TokenType::Identifier => {
            lemma_operators_well_formed(
                tokens,
                s1,
                bp,
                ExprNodeView { token: tok, node: ExprView::Var(tok.text()) },
            );
        },
        TokenType::True | TokenType::False => {
            lemma_operators_well_formed(
                tokens,
                s1,
                bp,
                ExprNodeView {
                    token: tok,
                    node: ExprView::Constant(ValueView::Bool(tok.kind == TokenType::True)),
                },
            );
        },
        TokenType::Minus | TokenType::Plus | TokenType::Bang => {
            lemma_expr_well_formed(tokens, s1, prefix_power(tok.kind));
            let (s2, operand) = parse_expr_spec(tokens, s1, prefix_power(tok.kind));
            lemma_operators_well_formed(
                tokens,
                s2.onward_from(s1),
                bp,
                ExprNodeView {
                    token: tok,
                    node: ExprView::Unary { op: tok.kind, operand: Box::new(operand) },
                },
            );
        },
        TokenType::LeftParen => {
            lemma_expr_well_formed(tokens, s1, 0);
            let (s2, inner) = parse_expr_spec(tokens, s1, 0);
            let s2 = s2.onward_from(s1);
            if inner.node is Error || s2.next_is(tokens, TokenType::RightParen) {
                let s3 = if inner.node is Error {
                    s2
                } else {
                    s2.advance(tokens)
                };
                lemma_operators_well_formed(
                    tokens,
                    s3,
                    bp,
                    ExprNodeView { token: tok, node: ExprView::Grouping(Box::new(inner)) },
                );
            }
        },
        _ => {
            if tok.kind == TokenType::Number && number_literal(tok) is Some {
                lemma_operators_well_formed(
                    tokens,
                    s1,
                    bp,
                    ExprNodeView { token: tok, node: number_literal(tok)->0 },
                );
            }
        },
    }
}

/// The operators that follow a well-formed expression give a well-formed
/// expression.
pub proof fn lemma_operators_well_formed(
    tokens: Seq<TokenView>,
    st: ParserState,
    bp: nat,
    lhs: ExprNodeView,
)
    requires
        well_formed(lhs),
    ensures
        well_formed(infix_loop_spec(tokens, st, bp, lhs).1),
    decreases st.remaining(tokens), 1nat,
{
    let op = st.peek(tokens);
    if let Some((lbp, rbp)) = postfix_power(op.kind) {
        if lbp >= bp {
            lemma_postfix_well_formed(tokens, st, rbp, lhs);
            let (s1, node) = parse_postfix_spec(tokens, st, rbp, lhs);
            if s1.cur > st.cur {
                lemma_operators_well_formed(tokens, s1, bp, node);
            }
        }
    } else if let Some((lbp, rbp)) = infix_power(op.kind) {
        if lbp >= bp {
            lemma_infix_well_formed(tokens, st, rbp, lhs);
            let (s1, node) = parse_infix_spec(tokens, st, rbp, lhs);
            if s1.cur > st.cur {
                lemma_operators_well_formed(tokens, s1, bp, node);
            }
        }
    }
}

/// A property access or a call on a well-formed expression is well formed.
pub proof fn lemma_postfix_well_formed(
    tokens: Seq<TokenView>,
    st: ParserState,
    bp: nat,
    lhs: ExprNodeView,
)
    requires
        well_formed(lhs),
        postfix_power(st.peek(tokens).kind) is Some,
    ensures
        well_formed(parse_postfix_spec(tokens, st, bp, lhs).1),
    decreases st.remaining(tokens), 0nat,
{
    let op = st.peek(tokens);
    let s1 = st.advance(tokens);
    if op.kind == TokenType::Dot {
        lemma_expr_well_formed(tokens, s1, bp);
    } else {
        lemma_args_well_formed(tokens, s1, Seq::empty());
    }
}

/// An assignment or a binary operation on a well-formed expression is well
/// formed.
pub proof fn lemma_infix_well_formed(
    tokens: Seq<TokenView>,
    st: ParserState,
    bp: nat,
    lhs: ExprNodeView,
)
    requires
        well_formed(lhs),
        infix_power(st.peek(tokens).kind) is Some,
    ensures
        well_formed(parse_infix_spec(tokens, st, bp, lhs).1),
    decreases st.remaining(tokens), 0nat,
{
    lemma_expr_well_formed(tokens, st.advance(tokens), bp);
}

/// The arguments of a call are well formed.
pub proof fn lemma_args_well_formed(
    tokens: Seq<TokenView>,
    st: ParserState,
    acc: Seq<ExprNodeView>,
)
    requires
        all_well_formed(acc),
    ensures
        all_well_formed(args_loop_spec(tokens, st, acc).1),
    decreases st.remaining(tokens), 3nat,
{
    if !(st.at_end(tokens) || st.next_is(tokens, TokenType::RightParen)) {
        lemma_expr_well_formed(tokens, st, 0);
        let (s1, arg) = parse_expr_spec(tokens, st, 0);
        let s2 = s1.accept(tokens, TokenType::Comma);
        let next = acc.push(arg);
        assert forall|i: int| 0 <= i < next.len() implies well_formed(#[trigger] next[i]) by {
            if i < acc.len() {
                assert(next[i] == acc[i]);
            }
        }
        if s2.cur > st.cur {
            lemma_args_well_formed(tokens, s2, next);
        }
    }
}

/// A parsed statement is well formed.
pub proof fn lemma_statement_well_formed(
    tokens: Seq<TokenView>,
    st: ParserState,
    expect_semicolon: bool,
)
    ensures
        well_formed_stmt(parse_statement_spec(tokens, st, expect_semicolon).1),
    decreases st.remaining(tokens), 5nat,
{
    match st.peek(tokens).kind {
        TokenType::If => lemma_if_well_formed(tokens, st),
        TokenType::While => lemma_while_well_formed(tokens, st),
        TokenType::For => lemma_for_well_formed(tokens, st),
        TokenType::Var => lemma_var_decl_well_formed(tokens, st, expect_semicolon),
        TokenType::Return => lemma_return_well_formed(tokens, st),
        TokenType::Fun => lemma_func_decl_well_formed(tokens, st),
        TokenType::Class => lemma_class_decl_well_formed(tokens, st),
        _ => lemma_expr_well_formed(tokens, st, 0),
    }
}

/// The statements of a block are well formed.
pub proof fn lemma_block_well_formed(tokens: Seq<TokenView>, st: ParserState, acc: Seq<StmtView>)
    requires
        all_well_formed_stmts(acc),
    ensures
        all_well_formed_stmts(block_loop_spec(tokens, st, acc).1),
    decreases st.remaining(tokens), 6nat,
{
    if !(st.at_end(tokens) || st.next_is(tokens, TokenType::RightBrace)) {
        lemma_statement_well_formed(tokens, st, true);
        let (s1, stmt) = parse_statement_spec(tokens, st, true);
        let next = acc.push(stmt);
        assert forall|i: int| 0 <= i < next.len() implies well_formed_stmt(
            #[trigger] next[i],
        ) by {
            if i < acc.len() {
                assert(next[i] == acc[i]);
            }
        }
        if s1.cur > st.cur {
            lemma_block_well_formed(tokens, s1, next);
        }
    }
}

/// A parsed `if` statement is well formed.
pub proof fn lemma_if_well_formed(tokens: Seq<TokenView>, st: ParserState)
    requires
        st.next_is(tokens, TokenType::If),
    ensures
        well_formed_stmt(parse_if_spec(tokens, st).1),
    decreases st.remaining(tokens), 4nat,
{
    let s = st.advance(tokens).expect(tokens, TokenType::LeftParen);
    lemma_expr_well_formed(tokens, s, 0);
    let s1 = parse_expr_spec(tokens, s, 0).0.onward_from(s).expect(
        tokens,
        TokenType::RightParen,
    ).expect(tokens, TokenType::LeftBrace);
    lemma_block_well_formed(tokens, s1, Seq::empty());
    let s2 = block_loop_spec(tokens, s1, Seq::empty()).0.onward_from(s1).expect(
        tokens,
        TokenType::RightBrace,
    );
    if s2.next_is(tokens, TokenType::Else) {
        let s3 = s2.advance(tokens).expect(tokens, TokenType::LeftBrace);
        lemma_block_well_formed(tokens, s3, Seq::empty());
    }
}

/// A parsed `while` statement is well formed.
pub proof fn lemma_while_well_formed(tokens: Seq<TokenView>, st: ParserState)
    requires
        st.next_is(tokens, TokenType::While),
    ensures
        well_formed_stmt(parse_while_spec(tokens, st).1),
    decreases st.remaining(tokens), 4nat,
{
    let s = st.advance(tokens).expect(tokens, TokenType::LeftParen);
    lemma_expr_well_formed(tokens, s, 0);
    let s1 = parse_expr_spec(tokens, s, 0).0.onward_from(s).expect(
        tokens,
        TokenType::RightParen,
    ).expect(tokens, TokenType::LeftBrace);
    lemma_block_well_formed(tokens, s1, Seq::empty());
}

/// A parsed `for` statement is well formed.
pub proof fn lemma_for_well_formed(tokens: Seq<TokenView>, st: ParserState)
    requires
        st.next_is(tokens, TokenType::For),
    ensures
        well_formed_stmt(parse_for_spec(tokens, st).1),
    decreases st.remaining(tokens), 4nat,
{
    let s = st.advance(tokens).expect(tokens, TokenType::LeftParen);
    let s1 = if s.next_is(tokens, TokenType::Semicolon) {
        s
    } else {
        lemma_statement_well_formed(tokens, s, false);
        parse_statement_spec(tokens, s, false).0.onward_from(s)
    };
    let s1 = s1.expect(tokens, TokenType::Semicolon);
    let s2 = if s1.next_is(tokens, TokenType::Semicolon) {
        s1
    } else {
        lemma_expr_well_formed(tokens, s1, 0);
        parse_expr_spec(tokens, s1, 0).0.onward_from(s1)
    };
    let s2 = s2.expect(tokens, TokenType::Semicolon);
    let s3 = if s2.next_is(tokens, TokenType::RightParen) {
        s2
    } else {
        lemma_expr_well_formed(tokens, s2, 0);
        parse_expr_spec(tokens, s2, 0).0.onward_from(s2)
    };
    let s3 = s3.expect(tokens, TokenType::RightParen).expect(tokens, TokenType::LeftBrace);
    lemma_block_well_formed(tokens, s3, Seq::empty());
}

/// A parsed variable declaration is well formed.
pub proof fn lemma_var_decl_well_formed(
    tokens: Seq<TokenView>,
    st: ParserState,
    expect_semicolon: bool,
)
    requires
        st.next_is(tokens, TokenType::Var),
    ensures
        well_formed_stmt(parse_var_decl_spec(tokens, st, expect_semicolon).1),
    decreases st.remaining(tokens), 4nat,
{
    let s1 = st.advance(tokens).advance(tokens);
    if s1.next_is(tokens, TokenType::Equal) {
        lemma_expr_well_formed(tokens, s1.advance(tokens), 0);
    }
}

/// A parsed `return` statement is well formed.
pub proof fn lemma_return_well_formed(tokens: Seq<TokenView>, st: ParserState)
    requires
        st.next_is(tokens, TokenType::Return),
    ensures
        well_formed_stmt(parse_return_spec(tokens, st).1),
    decreases st.remaining(tokens), 4nat,
{
    let s = st.advance(tokens);
    if !s.next_is(tokens, TokenType::Semicolon) {
        lemma_expr_well_formed(tokens, s, 0);
    }
}

/// The parameters of a function are identifiers.
pub proof fn lemma_params_are_identifiers(
    tokens: Seq<TokenView>,
    st: ParserState,
    acc: Seq<TokenView>,
)
    requires
        all_identifiers(acc),
    ensures
        params_loop_spec(tokens, st, acc).1 matches Some(params) ==> all_identifiers(params),
    decreases st.remaining(tokens), 3nat,
{
    if !(st.at_end(tokens) || st.next_is(tokens, TokenType::RightParen)) {
        lemma_expr_well_formed(tokens, st, 0);
        let (s1, param) = parse_expr_spec(tokens, st, 0);
        if param.node is Var {
            let s2 = s1.accept(tokens, TokenType::Comma);
            let next = acc.push(param.token);
            assert forall|i: int| 0 <= i < next.len() implies (#[trigger] next[i]).kind
                == TokenType::Identifier by {
                if i < acc.len() {
                    assert(next[i] == acc[i]);
                }
            }
            if s2.cur > st.cur {
                lemma_params_are_identifiers(tokens, s2, next);
            }
        }
    }
}

/// A parsed function declaration is well formed.
pub proof fn lemma_func_decl_well_formed(tokens: Seq<TokenView>, st: ParserState)
    requires
        st.next_is(tokens, TokenType::Fun),
    ensures
        well_formed_stmt(parse_func_decl_spec(tokens, st).1),
    decreases st.remaining(tokens), 4nat,
{
    let s = st.advance(tokens);
    let name = s.peek(tokens);
    if name.kind == TokenType::Identifier {
        let s1 = s.advance(tokens).expect(tokens, TokenType::LeftParen);
        lemma_params_are_identifiers(tokens, s1, Seq::empty());
        let (s2, params) = params_loop_spec(tokens, s1, Seq::empty());
        let s2 = s2.onward_from(s1);
        if let Some(params) = params {
            let s2 = s2.expect(tokens, TokenType::RightParen).expect(tokens, TokenType::LeftBrace);
            lemma_block_well_formed(tokens, s2, Seq::empty());
            let body = block_loop_spec(tokens, s2, Seq::empty()).1;
            assert(well_formed_func(FuncDeclView { name, params, body }));
        }
    }
}

/// The methods of a class are well formed.
pub proof fn lemma_methods_well_formed(
    tokens: Seq<TokenView>,
    st: ParserState,
    acc: Seq<FuncDeclView>,
)
    requires
        all_well_formed_funcs(acc),
    ensures
        methods_loop_spec(tokens, st, acc).1 matches Some(methods) ==> all_well_formed_funcs(
            methods,
        ),
    decreases st.remaining(tokens), 6nat,
{
    if !(st.at_end(tokens) || st.next_is(tokens, TokenType::RightBrace)) {
        lemma_statement_well_formed(tokens, st, true);
        let (s1, stmt) = parse_statement_spec(tokens, st, true);
        if let StmtView::FuncDecl(decl) = stmt {
            let next = acc.push(decl);
            assert forall|i: int| 0 <= i < next.len() implies well_formed_func(
                #[trigger] next[i],
            ) by {
                if i < acc.len() {
                    assert(next[i] == acc[i]);
                }
            }
            if s1.cur > st.cur {
                lemma_methods_well_formed(tokens, s1, next);
            }
        }
    }
}

/// A parsed class declaration is well formed.
pub proof fn lemma_class_decl_well_formed(tokens: Seq<TokenView>, st: ParserState)
    requires
        st.next_is(tokens, TokenType::Class),
    ensures
        well_formed_stmt(parse_class_decl_spec(tokens, st).1),
    decreases st.remaining(tokens), 4nat,
{
    let s = st.advance(tokens);
    let name = s.peek(tokens);
    if name.kind == TokenType::Identifier {
        let s1 = s.advance(tokens).expect(tokens, TokenType::LeftBrace);
        lemma_methods_well_formed(tokens, s1, Seq::empty());
    }
}

/// The statements of a program are well formed.
pub proof fn lemma_program_well_formed(
    tokens: Seq<TokenView>,
    st: ParserState,
    acc: Seq<StmtView>,
)
    requires
        all_well_formed_stmts(acc),
    ensures
        all_well_formed_stmts(program_loop_spec(tokens, st, acc).1),
    decreases st.remaining(tokens), 6nat,
{
    if !st.at_end(tokens) {
        lemma_statement_well_formed(tokens, st, true);
        let (s1, stmt) = parse_statement_spec(tokens, st, true);
        let next = acc.push(stmt);
        assert forall|i: int| 0 <= i < next.len() implies well_formed_stmt(
            #[trigger] next[i],
        ) by {
            if i < acc.len() {
                assert(next[i] == acc[i]);
            }
        }
        if s1.cur > st.cur {
            lemma_program_well_formed(tokens, s1, next);
        }
    }
}

/// Every statement of a parsed program is well formed, whatever the
/// tokens are.
pub proof fn lemma_parse_well_formed(tokens: Seq<TokenView>, st: ParserState)
    ensures
        all_well_formed_stmts(parse_spec(tokens, st).1),
{
    lemma_program_well_formed(tokens, st, Seq::empty());
}

} // verus!
