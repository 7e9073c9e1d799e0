//! Parsing only ever moves forward through the tokens, and an expression or
//! a statement takes at least one token wherever one is left.

use vstd::prelude::*;

use crate::scanner::token::{TokenType, TokenView};

use crate::text::unquoted;

use super::ast::ExprNodeView;
use super::expressions::{ExprView, ValueView};
use super::grammar::{
    args_loop_spec, block_loop_spec, infix_loop_spec, infix_power, methods_loop_spec,
    number_literal, params_loop_spec, parse_class_decl_spec, parse_expr_spec, parse_for_spec,
    parse_func_decl_spec, parse_if_spec, parse_infix_spec, parse_postfix_spec, parse_return_spec,
    parse_spec, parse_statement_spec, parse_var_decl_spec, parse_while_spec, postfix_power,
    prefix_power, program_loop_spec, ParserState,
};
use super::statements::{FuncDeclView, StmtView};

verus! {

/// Whether `after` is no earlier than `before`, and later where a token was
/// left to read at `before`.
pub open spec fn moves_on(tokens: Seq<TokenView>, before: ParserState, after: ParserState) -> bool {
    &&& after.cur >= before.cur
    &&& before.cur < tokens.len() ==> after.cur > before.cur
}

/// An expression takes at least one token where one is left, and never
/// moves backwards.
pub proof fn lemma_expr_moves_on(tokens: Seq<TokenView>, st: ParserState, bp: nat)
    ensures
        moves_on(tokens, st, parse_expr_spec(tokens, st, bp).0),
    decreases st.remaining(tokens), 2nat,
{
    let tok = st.peek(tokens);
    let s1 = st.advance(tokens);
    match tok.kind {
        TokenType::StringLiteral => {
            lemma_operators_move_on(
                tokens,
                s1,
                bp,
                ExprNodeView {
                    token: tok,
                    node: ExprView::Constant(ValueView::StringLiteral(unquoted(tok.text()))),
                },
            );
        },
        TokenType::Identifier => {
            lemma_operators_move_on(
                tokens,
                s1,
                bp,
                ExprNodeView { token: tok, node: ExprView::Var(tok.text()) },
            );
        },
        TokenType::True | TokenType::False => {
            lemma_operators_move_on(
                tokens,
                s1,
                bp,
                ExprNodeView {
                    token: tok,
                    node: ExprView::Constant(ValueView::Bool(tok.kind == TokenType::True)),
                },
            );
        },
        TokenType::Minus | TokenType::Plus | TokenType::Bang => {
            lemma_expr_moves_on(tokens, s1, prefix_power(tok.kind));
            let (s2, operand) = parse_expr_spec(tokens, s1, prefix_power(tok.kind));
            lemma_operators_move_on(
                tokens,
                s2.onward_from(s1),
                bp,
                ExprNodeView {
                    token: tok,
                    node: ExprView::Unary { op: tok.kind, operand: Box::new(operand) },
                },
            );
        },
        TokenType::LeftParen => {
            lemma_expr_moves_on(tokens, s1, 0);
            let (s2, inner) = parse_expr_spec(tokens, s1, 0);
            let s2 = s2.onward_from(s1);
            if inner.node is Error || s2.next_is(tokens, TokenType::RightParen) {
                let s3 = if inner.node is Error {
                    s2
                } else {
                    s2.advance(tokens)
                };
                lemma_operators_move_on(
                    tokens,
                    s3,
                    bp,
                    ExprNodeView { token: tok, node: ExprView::Grouping(Box::new(inner)) },
                );
            }
        },
        _ => {
            if tok.kind == TokenType::Number && number_literal(tok) is Some {
                lemma_operators_move_on(
                    tokens,
                    s1,
                    bp,
                    ExprNodeView { token: tok, node: number_literal(tok)->0 },
                );
            }
        },
    }
}

/// The operators that follow an expression never move backwards.
pub proof fn lemma_operators_move_on(
    tokens: Seq<TokenView>,
    st: ParserState,
    bp: nat,
    lhs: ExprNodeView,
)
    ensures
        infix_loop_spec(tokens, st, bp, lhs).0.cur >= st.cur,
    decreases st.remaining(tokens), 1nat,
{
    let op = st.peek(tokens);
    if let Some((lbp, rbp)) = postfix_power(op.kind) {
        if lbp >= bp {
            lemma_postfix_moves_on(tokens, st, rbp, lhs);
            let (s1, node) = parse_postfix_spec(tokens, st, rbp, lhs);
            lemma_operators_move_on(tokens, s1, bp, node);
        }
    } else if let Some((lbp, rbp)) = infix_power(op.kind) {
        if lbp >= bp {
            lemma_infix_moves_on(tokens, st, rbp, lhs);
            let (s1, node) = parse_infix_spec(tokens, st, rbp, lhs);
            lemma_operators_move_on(tokens, s1, bp, node);
        }
    }
}

/// A property access or a call takes at least its first token.
pub proof fn lemma_postfix_moves_on(
    tokens: Seq<TokenView>,
    st: ParserState,
    bp: nat,
    lhs: ExprNodeView,
)
    requires
        postfix_power(st.peek(tokens).kind) is Some,
    ensures
        parse_postfix_spec(tokens, st, bp, lhs).0.cur > st.cur,
    decreases st.remaining(tokens), 0nat,
{
    let op = st.peek(tokens);
    let s1 = st.advance(tokens);
    if op.kind == TokenType::Dot {
        lemma_expr_moves_on(tokens, s1, bp);
    } else {
        lemma_args_move_on(tokens, s1, Seq::empty());
    }
}

/// An assignment or a binary operation takes at least its operator.
pub proof fn lemma_infix_moves_on(
    tokens: Seq<TokenView>,
    st: ParserState,
    bp: nat,
    lhs: ExprNodeView,
)
    requires
        infix_power(st.peek(tokens).kind) is Some,
    ensures
        parse_infix_spec(tokens, st, bp, lhs).0.cur > st.cur,
    decreases st.remaining(tokens), 0nat,
{
    lemma_expr_moves_on(tokens, st.advance(tokens), bp);
}

/// The arguments of a call never move backwards.
pub proof fn lemma_args_move_on(tokens: Seq<TokenView>, st: ParserState, acc: Seq<ExprNodeView>)
    ensures
        args_loop_spec(tokens, st, acc).0.cur >= st.cur,
    decreases st.remaining(tokens), 3nat,
{
    if !(st.at_end(tokens) || st.next_is(tokens, TokenType::RightParen)) {
        lemma_expr_moves_on(tokens, st, 0);
        let (s1, arg) = parse_expr_spec(tokens, st, 0);
        let s2 = s1.accept(tokens, TokenType::Comma);
        lemma_args_move_on(tokens, s2, acc.push(arg));
    }
}

/// A statement takes at least one token where one is left, and never moves
/// backwards.
pub proof fn lemma_statement_moves_on(
    tokens: Seq<TokenView>,
    st: ParserState,
    expect_semicolon: bool,
)
    ensures
        moves_on(tokens, st, parse_statement_spec(tokens, st, expect_semicolon).0),
    decreases st.remaining(tokens), 5nat,
{
    match st.peek(tokens).kind {
        TokenType::If => lemma_if_moves_on(tokens, st),
        TokenType::While => lemma_while_moves_on(tokens, st),
        TokenType::For => lemma_for_moves_on(tokens, st),
        TokenType::Var => lemma_var_decl_moves_on(tokens, st, expect_semicolon),
        TokenType::Return => lemma_return_moves_on(tokens, st),
        TokenType::Fun => lemma_func_decl_moves_on(tokens, st),
        TokenType::Class => lemma_class_decl_moves_on(tokens, st),
        _ => lemma_expr_moves_on(tokens, st, 0),
    }
}

/// The statements of a block never move backwards.
pub proof fn lemma_block_moves_on(tokens: Seq<TokenView>, st: ParserState, acc: Seq<StmtView>)
    ensures
        block_loop_spec(tokens, st, acc).0.cur >= st.cur,
    decreases st.remaining(tokens), 6nat,
{
    if !(st.at_end(tokens) || st.next_is(tokens, TokenType::RightBrace)) {
        lemma_statement_moves_on(tokens, st, true);
        let (s1, stmt) = parse_statement_spec(tokens, st, true);
        lemma_block_moves_on(tokens, s1, acc.push(stmt));
    }
}

/// An `if` statement takes at least its keyword.
pub proof fn lemma_if_moves_on(tokens: Seq<TokenView>, st: ParserState)
    requires
        st.next_is(tokens, TokenType::If),
    ensures
        parse_if_spec(tokens, st).0.cur > st.cur,
    decreases st.remaining(tokens), 4nat,
{
    let s = st.advance(tokens).expect(tokens, TokenType::LeftParen);
    lemma_expr_moves_on(tokens, s, 0);
    let s1 = parse_expr_spec(tokens, s, 0).0.onward_from(s).expect(
        tokens,
        TokenType::RightParen,
    ).expect(tokens, TokenType::LeftBrace);
    lemma_block_moves_on(tokens, s1, Seq::empty());
    let s2 = block_loop_spec(tokens, s1, Seq::empty()).0.onward_from(s1).expect(
        tokens,
        TokenType::RightBrace,
    );
    if s2.next_is(tokens, TokenType::Else) {
        let s3 = s2.advance(tokens).expect(tokens, TokenType::LeftBrace);
        lemma_block_moves_on(tokens, s3, Seq::empty());
    }
}

/// A `while` statement takes at least its keyword.
pub proof fn lemma_while_moves_on(tokens: Seq<TokenView>, st: ParserState)
    requires
        st.next_is(tokens, TokenType::While),
    ensures
        parse_while_spec(tokens, st).0.cur > st.cur,
    decreases st.remaining(tokens), 4nat,
{
    let s = st.advance(tokens).expect(tokens, TokenType::LeftParen);
    lemma_expr_moves_on(tokens, s, 0);
    let s1 = parse_expr_spec(tokens, s, 0).0.onward_from(s).expect(
        tokens,
        TokenType::RightParen,
    ).expect(tokens, TokenType::LeftBrace);
    lemma_block_moves_on(tokens, s1, Seq::empty());
}

/// A `for` statement takes at least its keyword.
pub proof fn lemma_for_moves_on(tokens: Seq<TokenView>, st: ParserState)
    requires
        st.next_is(tokens, TokenType::For),
    ensures
        parse_for_spec(tokens, st).0.cur > st.cur,
    decreases st.remaining(tokens), 4nat,
{
    let s = st.advance(tokens).expect(tokens, TokenType::LeftParen);
    let s1 = if s.next_is(tokens, TokenType::Semicolon) {
        s
    } else {
        lemma_statement_moves_on(tokens, s, false);
        parse_statement_spec(tokens, s, false).0.onward_from(s)
    };
    let s1 = s1.expect(tokens, TokenType::Semicolon);
    let s2 = if s1.next_is(tokens, TokenType::Semicolon) {
        s1
    } else {
        lemma_expr_moves_on(tokens, s1, 0);
        parse_expr_spec(tokens, s1, 0).0.onward_from(s1)
    };
    let s2 = s2.expect(tokens, TokenType::Semicolon);
    let s3 = if s2.next_is(tokens, TokenType::RightParen) {
        s2
    } else {
        lemma_expr_moves_on(tokens, s2, 0);
        parse_expr_spec(tokens, s2, 0).0.onward_from(s2)
    };
    let s3 = s3.expect(tokens, TokenType::RightParen).expect(tokens, TokenType::LeftBrace);
    lemma_block_moves_on(tokens, s3, Seq::empty());
}

/// A variable declaration takes at least its keyword.
pub proof fn lemma_var_decl_moves_on(
    tokens: Seq<TokenView>,
    st: ParserState,
    expect_semicolon: bool,
)
    requires
        st.next_is(tokens, TokenType::Var),
    ensures
        parse_var_decl_spec(tokens, st, expect_semicolon).0.cur > st.cur,
    decreases st.remaining(tokens), 4nat,
{
    let s1 = st.advance(tokens).advance(tokens);
    if s1.next_is(tokens, TokenType::Equal) {
        lemma_expr_moves_on(tokens, s1.advance(tokens), 0);
    }
}

/// A `return` statement takes at least its keyword.
pub proof fn lemma_return_moves_on(tokens: Seq<TokenView>, st: ParserState)
    requires
        st.next_is(tokens, TokenType::Return),
    ensures
        parse_return_spec(tokens, st).0.cur > st.cur,
    decreases st.remaining(tokens), 4nat,
{
    let s = st.advance(tokens);
    if !s.next_is(tokens, TokenType::Semicolon) {
        lemma_expr_moves_on(tokens, s, 0);
    }
}

/// The parameters of a function never move backwards.
pub proof fn lemma_params_move_on(tokens: Seq<TokenView>, st: ParserState, acc: Seq<TokenView>)
    ensures
        params_loop_spec(tokens, st, acc).0.cur >= st.cur,
    decreases st.remaining(tokens), 3nat,
{
    if !(st.at_end(tokens) || st.next_is(tokens, TokenType::RightParen)) {
        lemma_expr_moves_on(tokens, st, 0);
        let (s1, param) = parse_expr_spec(tokens, st, 0);
        if param.node is Var {
            let s2 = s1.accept(tokens, TokenType::Comma);
            lemma_params_move_on(tokens, s2, acc.push(param.token));
        }
    }
}

/// A function declaration takes at least its keyword.
pub proof fn lemma_func_decl_moves_on(tokens: Seq<TokenView>, st: ParserState)
    requires
        st.next_is(tokens, TokenType::Fun),
    ensures
        parse_func_decl_spec(tokens, st).0.cur > st.cur,
    decreases st.remaining(tokens), 4nat,
{
    let s = st.advance(tokens);
    let name = s.peek(tokens);
    if name.kind == TokenType::Identifier {
        let s1 = s.advance(tokens).expect(tokens, TokenType::LeftParen);
        lemma_params_move_on(tokens, s1, Seq::empty());
        let (s2, params) = params_loop_spec(tokens, s1, Seq::empty());
        let s2 = s2.onward_from(s1);
        if params is Some {
            let s2 = s2.expect(tokens, TokenType::RightParen).expect(tokens, TokenType::LeftBrace);
            lemma_block_moves_on(tokens, s2, Seq::empty());
        }
    }
}

/// The methods of a class never move backwards.
pub proof fn lemma_methods_move_on(
    tokens: Seq<TokenView>,
    st: ParserState,
    acc: Seq<FuncDeclView>,
)
    ensures
        methods_loop_spec(tokens, st, acc).0.cur >= st.cur,
    decreases st.remaining(tokens), 6nat,
{
    if !(st.at_end(tokens) || st.next_is(tokens, TokenType::RightBrace)) {
        lemma_statement_moves_on(tokens, st, true);
        let (s1, stmt) = parse_statement_spec(tokens, st, true);
        if let StmtView::FuncDecl(decl) = stmt {
            lemma_methods_move_on(tokens, s1, acc.push(decl));
        }
    }
}

/// A class declaration takes at least its keyword.
pub proof fn lemma_class_decl_moves_on(tokens: Seq<TokenView>, st: ParserState)
    requires
        st.next_is(tokens, TokenType::Class),
    ensures
        parse_class_decl_spec(tokens, st).0.cur > st.cur,
    decreases st.remaining(tokens), 4nat,
{
    let s = st.advance(tokens);
    let name = s.peek(tokens);
    if name.kind == TokenType::Identifier {
        let s1 = s.advance(tokens).expect(tokens, TokenType::LeftBrace);
        lemma_methods_move_on(tokens, s1, Seq::empty());
    }
}

/// The statements of a program never move backwards, and parsing them
/// ends at the end of input.
pub proof fn lemma_program_moves_on(tokens: Seq<TokenView>, st: ParserState, acc: Seq<StmtView>)
    ensures
        program_loop_spec(tokens, st, acc).0.cur >= st.cur,
        program_loop_spec(tokens, st, acc).0.at_end(tokens),
        program_loop_spec(tokens, st, acc).1.len() >= acc.len(),
    decreases st.remaining(tokens), 6nat,
{
    if !st.at_end(tokens) {
        lemma_statement_moves_on(tokens, st, true);
        let (s1, stmt) = parse_statement_spec(tokens, st, true);
        lemma_program_moves_on(tokens, s1, acc.push(stmt));
    }
}

/// Parsing a program reads all of the input: it ends where the next token
/// is the end of input.
pub proof fn lemma_parse_reads_everything(tokens: Seq<TokenView>, st: ParserState)
    ensures
        parse_spec(tokens, st).0.at_end(tokens),
        parse_spec(tokens, st).0.cur >= st.cur,
{
    lemma_program_moves_on(tokens, st, Seq::empty());
}

} // verus!
