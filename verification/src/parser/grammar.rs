//! What the parser makes of a token sequence, as functions on the models of
//! tokens and syntax trees. The parser's own contracts are stated over these.

use vstd::prelude::*;

use crate::errors::RoxErrorView;
use crate::scanner::token::{TokenType, TokenView};
use crate::text::{number_of, unquoted};

use super::ast::ExprNodeView;
use super::expressions::{ExprView, ValueView};
use super::statements::{FuncDeclView, StmtView};

verus! {

/// Where the parser stands: the index of the next token and the errors
/// reported so far.
pub struct ParserState {
    pub cur: nat,
    pub errors: Seq<RoxErrorView>,
}

/// The token at an index, or the end-of-input token where there is none.
pub open spec fn token_at(tokens: Seq<TokenView>, i: int) -> TokenView {
    if 0 <= i < tokens.len() {
        tokens[i]
    } else {
        TokenView::end_marker()
    }
}

/// Whether error recovery stops at a token of this kind.
pub open spec fn is_sync_point(kind: TokenType) -> bool {
    kind == TokenType::EOF || kind == TokenType::Semicolon || kind == TokenType::RightBrace
        || kind == TokenType::RightParen
}

/// The number of tokens from `cur` on that error recovery skips: those
/// before the next `;`, `}`, `)` or end of input.
pub open spec fn skipped(tokens: Seq<TokenView>, cur: nat) -> nat
    decreases tokens.len() - cur,
{
    if cur >= tokens.len() || is_sync_point(tokens[cur as int].kind) {
        0
    } else {
        1 + skipped(tokens, cur + 1)
    }
}

impl ParserState {
    /// The token that is read next.
    pub open spec fn peek(self, tokens: Seq<TokenView>) -> TokenView {
        token_at(tokens, self.cur as int)
    }

    /// The token that was read last.
    pub open spec fn previous(self, tokens: Seq<TokenView>) -> TokenView {
        token_at(tokens, self.cur - 1)
    }

    /// Whether the next token ends the input.
    pub open spec fn at_end(self, tokens: Seq<TokenView>) -> bool {
        self.peek(tokens).kind == TokenType::EOF
    }

    /// The state after one token is read; at the end of the sequence
    /// nothing is left to read and the state stays.
    pub open spec fn advance(self, tokens: Seq<TokenView>) -> ParserState {
        if self.cur < tokens.len() {
            ParserState { cur: self.cur + 1, errors: self.errors }
        } else {
            self
        }
    }

    /// The number of tokens left to read.
    pub open spec fn remaining(self, tokens: Seq<TokenView>) -> nat {
        if self.cur < tokens.len() {
            (tokens.len() - self.cur) as nat
        } else {
            0
        }
    }

    /// This state, held to a position no earlier than that of `earlier`.
    /// Parsing never moves backwards, so this is the state itself wherever
    /// it is the outcome of parsing on from `earlier`.
    pub open spec fn onward_from(self, earlier: ParserState) -> ParserState {
        if self.cur >= earlier.cur {
            self
        } else {
            ParserState { cur: earlier.cur, errors: self.errors }
        }
    }

    /// The state after an error is reported at `token`: the error is
    /// recorded and the tokens up to the next recovery point are skipped.
    pub open spec fn report(
        self,
        tokens: Seq<TokenView>,
        token: TokenView,
        msg: Seq<char>,
    ) -> ParserState {
        ParserState {
            cur: self.cur + skipped(tokens, self.cur),
            errors: self.errors.push(RoxErrorView { token, msg }),
        }
    }

    /// The state after a token of the given kind is asked for: read where
    /// it is there, nothing where the input has ended, an error otherwise.
    pub open spec fn expect(self, tokens: Seq<TokenView>, kind: TokenType) -> ParserState {
        if self.at_end(tokens) {
            self
        } else if self.peek(tokens).kind == kind {
            self.advance(tokens)
        } else {
            self.report(
                tokens,
                self.peek(tokens),
                msg_wrong_type(kind, self.peek(tokens).kind),
            )
        }
    }

    /// Whether the next token has the given kind.
    pub open spec fn next_is(self, tokens: Seq<TokenView>, kind: TokenType) -> bool {
        self.peek(tokens).kind == kind
    }

    /// The state after a token of the given kind is read where it is there.
    pub open spec fn accept(self, tokens: Seq<TokenView>, kind: TokenType) -> ParserState {
        if self.next_is(tokens, kind) {
            self.advance(tokens)
        } else {
            self
        }
    }
}

/// The message for a token that starts no expression.
pub open spec fn msg_unexpected(kind: TokenType) -> Seq<char> {
    "unexpected token: '"@ + kind.text() + "'"@
}

/// The message for a token that stands where a name belongs.
pub open spec fn msg_expected_ident(kind: TokenType) -> Seq<char> {
    "unexpected token: expected 'IDENT' but got '"@ + kind.text() + "'"@
}

/// The message for a group that is not closed.
pub open spec fn msg_expected_paren(kind: TokenType) -> Seq<char> {
    "unexpected token: expected '(' but got '"@ + kind.text() + "'"@
}

/// The message for a token that stands where an operator belongs.
pub open spec fn msg_expected_operator(kind: TokenType) -> Seq<char> {
    "unexpected token: expected arithmetic operator but got '"@ + kind.text() + "'"@
}

/// The message for a token of one kind that stands where another belongs.
pub open spec fn msg_wrong_type(expected: TokenType, got: TokenType) -> Seq<char> {
    "unexpected token type: expected '"@ + expected.text() + "' but got '"@ + got.text() + "'"@
}

/// The message for an assignment to what is no variable.
pub open spec fn msg_invalid_assignment() -> Seq<char> {
    "invalid variable assignment"@
}

/// The message for an assignment whose value is an assignment.
pub open spec fn msg_chained_assignment() -> Seq<char> {
    "invalid chaining of assignments"@
}

/// The binding power with which a prefix operator takes its operand.
pub open spec fn prefix_power(kind: TokenType) -> nat {
    match kind {
        TokenType::Minus | TokenType::Plus => 90,
        _ => 100,
    }
}

/// The left and right binding powers of a postfix operator.
pub open spec fn postfix_power(kind: TokenType) -> Option<(nat, nat)> {
    match kind {
        TokenType::LeftParen => Some((41, 42)),
        TokenType::Dot => Some((51, 52)),
        _ => None,
    }
}

/// The left and right binding powers of an infix operator.
pub open spec fn infix_power(kind: TokenType) -> Option<(nat, nat)> {
    match kind {
        TokenType::Equal => Some((5, 6)),
        TokenType::Or => Some((7, 8)),
        TokenType::And => Some((9, 10)),
        TokenType::EqualEqual | TokenType::BangEqual => Some((13, 14)),
        TokenType::Less | TokenType::LessEqual | TokenType::Greater | TokenType::GreaterEqual => Some(
            (17, 18),
        ),
        TokenType::Plus | TokenType::Minus => Some((21, 22)),
        TokenType::Star | TokenType::Slash => Some((31, 32)),
        _ => None,
    }
}

/// Whether an expression ends before a token of this kind.
pub open spec fn ends_expression(kind: TokenType) -> bool {
    kind == TokenType::EOF || kind == TokenType::Semicolon || kind == TokenType::RightParen
        || kind == TokenType::Comma
}

/// Whether a token of this kind continues an expression.
pub open spec fn is_operator(kind: TokenType) -> bool {
    postfix_power(kind) is Some || infix_power(kind) is Some
}

/// The literal that a number token denotes, where its text is the decimal
/// numeral of a 32-bit number.
pub open spec fn number_literal(tok: TokenView) -> Option<ExprView> {
    match number_of(tok.text()) {
        Some(n) => Some(ExprView::Constant(ValueView::Number(n))),
        None => None,
    }
}

/// An expression parsed at binding power `bp`: a prefix atom, and then the
/// postfix and infix operators that bind at least as tightly as `bp`.
pub open spec fn parse_expr_spec(tokens: Seq<TokenView>, st: ParserState, bp: nat) -> (
    ParserState,
    ExprNodeView,
)
    decreases st.remaining(tokens), 2nat,
{
    let tok = st.peek(tokens);
    let s1 = st.advance(tokens);
    match tok.kind {
        TokenType::StringLiteral => infix_loop_spec(
            tokens,
            s1,
            bp,
            ExprNodeView {
                token: tok,
                node: ExprView::Constant(ValueView::StringLiteral(unquoted(tok.text()))),
            },
        ),
        TokenType::Identifier => infix_loop_spec(
            tokens,
            s1,
            bp,
            ExprNodeView { token: tok, node: ExprView::Var(tok.text()) },
        ),
        TokenType::True | TokenType::False => infix_loop_spec(
            tokens,
            s1,
            bp,
            ExprNodeView {
                token: tok,
                node: ExprView::Constant(ValueView::Bool(tok.kind == TokenType::True)),
            },
        ),
        TokenType::Minus | TokenType::Plus | TokenType::Bang => {
            let (s2, operand) = parse_expr_spec(tokens, s1, prefix_power(tok.kind));
            let s2 = s2.onward_from(s1);
            infix_loop_spec(
                tokens,
                s2,
                bp,
                ExprNodeView {
                    token: tok,
                    node: ExprView::Unary { op: tok.kind, operand: Box::new(operand) },
                },
            )
        },
        TokenType::LeftParen => {
            let (s2, inner) = parse_expr_spec(tokens, s1, 0);
            let s2 = s2.onward_from(s1);
            if !(inner.node is Error) && !s2.next_is(tokens, TokenType::RightParen) {
                let found = s2.previous(tokens);
                let s3 = s2.report(tokens, found, msg_expected_paren(found.kind));
                (s3, ExprNodeView { token: s3.previous(tokens), node: ExprView::Error })
            } else {
                let s3 = if inner.node is Error {
                    s2
                } else {
                    s2.advance(tokens)
                };
                infix_loop_spec(
                    tokens,
                    s3,
                    bp,
                    ExprNodeView { token: tok, node: ExprView::Grouping(Box::new(inner)) },
                )
            }
        },
        _ => {
            if tok.kind == TokenType::Number && number_literal(tok) is Some {
                infix_loop_spec(
                    tokens,
                    s1,
                    bp,
                    ExprNodeView { token: tok, node: number_literal(tok)->0 },
                )
            } else {
                let s2 = s1.report(tokens, tok, msg_unexpected(tok.kind));
                (s2, ExprNodeView { token: s2.previous(tokens), node: ExprView::Error })
            }
        },
    }
}

/// The operators that follow an expression `lhs`, taken in turn for as long
/// as they bind at least as tightly as `bp`.
pub open spec fn infix_loop_spec(
    tokens: Seq<TokenView>,
    st: ParserState,
    bp: nat,
    lhs: ExprNodeView,
) -> (ParserState, ExprNodeView)
    decreases st.remaining(tokens), 1nat,
{
    let op = st.peek(tokens);
    if ends_expression(op.kind) {
        (st, lhs)
    } else if !is_operator(op.kind) {
        (
            st.report(tokens, op, msg_expected_operator(op.kind)),
            ExprNodeView { token: op, node: ExprView::Error },
        )
    } else if let Some((lbp, rbp)) = postfix_power(op.kind) {
        if lbp < bp {
            (st, lhs)
        } else {
            let (s1, node) = parse_postfix_spec(tokens, st, rbp, lhs);
            if s1.cur > st.cur {
                infix_loop_spec(tokens, s1, bp, node)
            } else {
                (s1, node)
            }
        }
    } else {
        let (lbp, rbp) = infix_power(op.kind)->0;
        if lbp < bp {
            (st, lhs)
        } else {
            let (s1, node) = parse_infix_spec(tokens, st, rbp, lhs);
            if s1.cur > st.cur {
                infix_loop_spec(tokens, s1, bp, node)
            } else {
                (s1, node)
            }
        }
    }
}

/// A property access or a call on `lhs`, the next token being the `.` or
/// the `(` that starts it.
pub open spec fn parse_postfix_spec(
    tokens: Seq<TokenView>,
    st: ParserState,
    bp: nat,
    lhs: ExprNodeView,
) -> (ParserState, ExprNodeView)
    recommends
        postfix_power(st.peek(tokens).kind) is Some,
    decreases st.remaining(tokens), 0nat,
{
    let op = st.peek(tokens);
    let s1 = st.advance(tokens);
    if postfix_power(op.kind) is None {
        (st, lhs)
    } else if op.kind == TokenType::Dot {
        let (s2, rhs) = parse_expr_spec(tokens, s1, bp);
        let s2 = s2.onward_from(s1);
        (
            s2,
            ExprNodeView {
                token: rhs.token,
                node: ExprView::PropertyAccess { object: Box::new(lhs), property: rhs.token },
            },
        )
    } else {
        let (s2, args) = args_loop_spec(tokens, s1, Seq::empty());
        let s2 = s2.onward_from(s1);
        (
            s2.expect(tokens, TokenType::RightParen),
            ExprNodeView { token: op, node: ExprView::Call { callee: Box::new(lhs), args } },
        )
    }
}

/// The arguments of a call, up to the closing parenthesis or the end of
/// input, appended to `acc`.
pub open spec fn args_loop_spec(
    tokens: Seq<TokenView>,
    st: ParserState,
    acc: Seq<ExprNodeView>,
) -> (ParserState, Seq<ExprNodeView>)
    decreases st.remaining(tokens), 3nat,
{
    if st.at_end(tokens) || st.next_is(tokens, TokenType::RightParen) {
        (st, acc)
    } else {
        let (s1, arg) = parse_expr_spec(tokens, st, 0);
        let s2 = s1.accept(tokens, TokenType::Comma);
        if s2.cur > st.cur {
            args_loop_spec(tokens, s2, acc.push(arg))
        } else {
            (s2, acc.push(arg))
        }
    }
}

/// An assignment or a binary operation with `lhs` on its left, the next
/// token being its operator.
pub open spec fn parse_infix_spec(
    tokens: Seq<TokenView>,
    st: ParserState,
    bp: nat,
    lhs: ExprNodeView,
) -> (ParserState, ExprNodeView)
    recommends
        infix_power(st.peek(tokens).kind) is Some,
    decreases st.remaining(tokens), 0nat,
{
    let op = st.peek(tokens);
    let s1 = st.advance(tokens);
    if infix_power(op.kind) is None {
        (st, lhs)
    } else {
        let (s2, rhs) = parse_expr_spec(tokens, s1, bp);
        let s2 = s2.onward_from(s1);
        if op.kind == TokenType::Equal {
            if !(lhs.node is Var) {
                (
                    s2.report(tokens, lhs.token, msg_invalid_assignment()),
                    ExprNodeView { token: lhs.token, node: ExprView::Error },
                )
            } else if rhs.node is Assignment {
                (
                    s2.report(tokens, lhs.token, msg_chained_assignment()),
                    ExprNodeView { token: lhs.token, node: ExprView::Error },
                )
            } else {
                (
                    s2,
                    ExprNodeView {
                        token: op,
                        node: ExprView::Assignment { name: lhs.token, value: Box::new(rhs) },
                    },
                )
            }
        } else {
            (
                s2,
                ExprNodeView {
                    token: op,
                    node: ExprView::BinOp {
                        op: op.kind,
                        left: Box::new(lhs),
                        right: Box::new(rhs),
                    },
                },
            )
        }
    }
}

/// An expression, and the semicolon after it where one is asked for.
pub open spec fn parse_expression_spec(
    tokens: Seq<TokenView>,
    st: ParserState,
    expect_semicolon: bool,
) -> (ParserState, ExprNodeView) {
    let (s1, expr) = parse_expr_spec(tokens, st, 0);
    if expect_semicolon {
        (s1.expect(tokens, TokenType::Semicolon), expr)
    } else {
        (s1, expr)
    }
}

/// A statement, chosen by the kind of the next token.
pub open spec fn parse_statement_spec(
    tokens: Seq<TokenView>,
    st: ParserState,
    expect_semicolon: bool,
) -> (ParserState, StmtView)
    decreases st.remaining(tokens), 5nat,
{
    match st.peek(tokens).kind {
        TokenType::If => parse_if_spec(tokens, st),
        TokenType::While => parse_while_spec(tokens, st),
        TokenType::For => parse_for_spec(tokens, st),
        TokenType::Var => parse_var_decl_spec(tokens, st, expect_semicolon),
        TokenType::Return => parse_return_spec(tokens, st),
        TokenType::Fun => parse_func_decl_spec(tokens, st),
        TokenType::Class => parse_class_decl_spec(tokens, st),
        _ => {
            let (s1, expr) = parse_expr_spec(tokens, st, 0);
            if expect_semicolon {
                (s1.expect(tokens, TokenType::Semicolon), StmtView::Expression(expr))
            } else {
                (s1, StmtView::Expression(expr))
            }
        },
    }
}

/// The statements of a block, up to the closing brace or the end of input,
/// appended to `acc`.
pub open spec fn block_loop_spec(tokens: Seq<TokenView>, st: ParserState, acc: Seq<StmtView>) -> (
    ParserState,
    Seq<StmtView>,
)
    decreases st.remaining(tokens), 6nat,
{
    if st.at_end(tokens) || st.next_is(tokens, TokenType::RightBrace) {
        (st, acc)
    } else {
        let (s1, stmt) = parse_statement_spec(tokens, st, true);
        if s1.cur > st.cur {
            block_loop_spec(tokens, s1, acc.push(stmt))
        } else {
            (s1, acc.push(stmt))
        }
    }
}

/// `if ( cond ) { body }`, with `else { body }` where it follows.
pub open spec fn parse_if_spec(tokens: Seq<TokenView>, st: ParserState) -> (ParserState, StmtView)
    recommends
        st.next_is(tokens, TokenType::If),
    decreases st.remaining(tokens), 4nat,
{
    if !st.next_is(tokens, TokenType::If) {
        (st, StmtView::Error)
    } else {
        let s = st.advance(tokens).expect(tokens, TokenType::LeftParen);
        let (s1, cond) = parse_expr_spec(tokens, s, 0);
        let s1 = s1.onward_from(s).expect(tokens, TokenType::RightParen).expect(
            tokens,
            TokenType::LeftBrace,
        );
        let (s2, then_body) = block_loop_spec(tokens, s1, Seq::empty());
        let s2 = s2.onward_from(s1).expect(tokens, TokenType::RightBrace);
        if s2.next_is(tokens, TokenType::Else) {
            let s3 = s2.advance(tokens).expect(tokens, TokenType::LeftBrace);
            let (s4, else_body) = block_loop_spec(tokens, s3, Seq::empty());
            (
                s4.onward_from(s3).expect(tokens, TokenType::RightBrace),
                StmtView::If { cond, then_body, else_body },
            )
        } else {
            (s2, StmtView::If { cond, then_body, else_body: Seq::empty() })
        }
    }
}

/// `while ( cond ) { body }`.
pub open spec fn parse_while_spec(tokens: Seq<TokenView>, st: ParserState) -> (
    ParserState,
    StmtView,
)
    recommends
        st.next_is(tokens, TokenType::While),
    decreases st.remaining(tokens), 4nat,
{
    if !st.next_is(tokens, TokenType::While) {
        (st, StmtView::Error)
    } else {
        let s = st.advance(tokens).expect(tokens, TokenType::LeftParen);
        let (s1, cond) = parse_expr_spec(tokens, s, 0);
        let s1 = s1.onward_from(s).expect(tokens, TokenType::RightParen).expect(
            tokens,
            TokenType::LeftBrace,
        );
        let (s2, body) = block_loop_spec(tokens, s1, Seq::empty());
        (
            s2.onward_from(s1).expect(tokens, TokenType::RightBrace),
            StmtView::While { cond, body },
        )
    }
}

/// `for ( init ; cond ; step ) { body }`, each of the three clauses being
/// absent where nothing stands in its place.
pub open spec fn parse_for_spec(tokens: Seq<TokenView>, st: ParserState) -> (ParserState, StmtView)
    recommends
        st.next_is(tokens, TokenType::For),
    decreases st.remaining(tokens), 4nat,
{
    if !st.next_is(tokens, TokenType::For) {
        (st, StmtView::Error)
    } else {
        let s = st.advance(tokens).expect(tokens, TokenType::LeftParen);
        let (s1, init) = if s.next_is(tokens, TokenType::Semicolon) {
            (s, None)
        } else {
            let (s1, stmt) = parse_statement_spec(tokens, s, false);
            (s1.onward_from(s), Some(Box::new(stmt)))
        };
        let s1 = s1.expect(tokens, TokenType::Semicolon);
        let (s2, cond) = if s1.next_is(tokens, TokenType::Semicolon) {
            (s1, None)
        } else {
            let (s2, e) = parse_expr_spec(tokens, s1, 0);
            (s2.onward_from(s1), Some(e))
        };
        let s2 = s2.expect(tokens, TokenType::Semicolon);
        let (s3, step) = if s2.next_is(tokens, TokenType::RightParen) {
            (s2, None)
        } else {
            let (s3, e) = parse_expr_spec(tokens, s2, 0);
            (s3.onward_from(s2), Some(e))
        };
        let s3 = s3.expect(tokens, TokenType::RightParen).expect(tokens, TokenType::LeftBrace);
        let (s4, body) = block_loop_spec(tokens, s3, Seq::empty());
        (
            s4.onward_from(s3).expect(tokens, TokenType::RightBrace),
            StmtView::For { init, cond, step, body },
        )
    }
}

/// `var IDENT`, with `= expr` where it follows, and the semicolon where one
/// is asked for.
pub open spec fn parse_var_decl_spec(
    tokens: Seq<TokenView>,
    st: ParserState,
    expect_semicolon: bool,
) -> (ParserState, StmtView)
    recommends
        st.next_is(tokens, TokenType::Var),
    decreases st.remaining(tokens), 4nat,
{
    if !st.next_is(tokens, TokenType::Var) {
        (st, StmtView::Error)
    } else {
        let s = st.advance(tokens);
        let name = s.peek(tokens);
        let s1 = s.advance(tokens);
        if name.kind != TokenType::Identifier {
            (s1.report(tokens, name, msg_expected_ident(name.kind)), StmtView::Error)
        } else {
            let (s2, init) = if s1.next_is(tokens, TokenType::Equal) {
                let (s2, e) = parse_expr_spec(tokens, s1.advance(tokens), 0);
                (s2, Some(e))
            } else {
                (s1, None)
            };
            let s3 = if expect_semicolon {
                s2.expect(tokens, TokenType::Semicolon)
            } else {
                s2
            };
            (s3, StmtView::VarDecl { name, init })
        }
    }
}

/// `return ;` or `return expr ;`.
pub open spec fn parse_return_spec(tokens: Seq<TokenView>, st: ParserState) -> (
    ParserState,
    StmtView,
)
    recommends
        st.next_is(tokens, TokenType::Return),
    decreases st.remaining(tokens), 4nat,
{
    if !st.next_is(tokens, TokenType::Return) {
        (st, StmtView::Error)
    } else {
        let s = st.advance(tokens);
        if s.next_is(tokens, TokenType::Semicolon) {
            (s.advance(tokens), StmtView::Return { value: None })
        } else {
            let (s1, e) = parse_expr_spec(tokens, s, 0);
            (s1.expect(tokens, TokenType::Semicolon), StmtView::Return { value: Some(e) })
        }
    }
}

/// The parameters of a function, up to the closing parenthesis or the end
/// of input, appended to `acc`; nothing where one of them is not a plain
/// name.
pub open spec fn params_loop_spec(
    tokens: Seq<TokenView>,
    st: ParserState,
    acc: Seq<TokenView>,
) -> (ParserState, Option<Seq<TokenView>>)
    decreases st.remaining(tokens), 3nat,
{
    if st.at_end(tokens) || st.next_is(tokens, TokenType::RightParen) {
        (st, Some(acc))
    } else {
        let (s1, param) = parse_expr_spec(tokens, st, 0);
        if !(param.node is Var) {
            (s1, None)
        } else {
            let s2 = s1.accept(tokens, TokenType::Comma);
            if s2.cur > st.cur {
                params_loop_spec(tokens, s2, acc.push(param.token))
            } else {
                (s2, Some(acc.push(param.token)))
            }
        }
    }
}

/// `fun IDENT ( params ) { body }`.
pub open spec fn parse_func_decl_spec(tokens: Seq<TokenView>, st: ParserState) -> (
    ParserState,
    StmtView,
)
    recommends
        st.next_is(tokens, TokenType::Fun),
    decreases st.remaining(tokens), 4nat,
{
    if !st.next_is(tokens, TokenType::Fun) {
        (st, StmtView::Error)
    } else {
        let s = st.advance(tokens);
        let name = s.peek(tokens);
        let s1 = s.advance(tokens);
        if name.kind != TokenType::Identifier {
            (s1.report(tokens, name, msg_expected_ident(name.kind)), StmtView::Error)
        } else {
            let s1 = s1.expect(tokens, TokenType::LeftParen);
            let (s2, params) = params_loop_spec(tokens, s1, Seq::empty());
            let s2 = s2.onward_from(s1);
            match params {
                None => (s2.report(tokens, name, msg_expected_ident(name.kind)), StmtView::Error),
                Some(params) => {
                    let s2 = s2.expect(tokens, TokenType::RightParen).expect(
                        tokens,
                        TokenType::LeftBrace,
                    );
                    let (s3, body) = block_loop_spec(tokens, s2, Seq::empty());
                    (
                        s3.onward_from(s2).expect(tokens, TokenType::RightBrace),
                        StmtView::FuncDecl(FuncDeclView { name, params, body }),
                    )
                },
            }
        }
    }
}

/// The methods of a class, up to the closing brace or the end of input,
/// appended to `acc`; nothing where a statement among them is not a
/// function declaration.
pub open spec fn methods_loop_spec(
    tokens: Seq<TokenView>,
    st: ParserState,
    acc: Seq<FuncDeclView>,
) -> (ParserState, Option<Seq<FuncDeclView>>)
    decreases st.remaining(tokens), 6nat,
{
    if st.at_end(tokens) || st.next_is(tokens, TokenType::RightBrace) {
        (st, Some(acc))
    } else {
        let (s1, stmt) = parse_statement_spec(tokens, st, true);
        match stmt {
            StmtView::FuncDecl(decl) => {
                if s1.cur > st.cur {
                    methods_loop_spec(tokens, s1, acc.push(decl))
                } else {
                    (s1, Some(acc.push(decl)))
                }
            },
            _ => (s1, None),
        }
    }
}

/// `class IDENT { methods }`.
pub open spec fn parse_class_decl_spec(tokens: Seq<TokenView>, st: ParserState) -> (
    ParserState,
    StmtView,
)
    recommends
        st.next_is(tokens, TokenType::Class),
    decreases st.remaining(tokens), 4nat,
{
    if !st.next_is(tokens, TokenType::Class) {
        (st, StmtView::Error)
    } else {
        let s = st.advance(tokens);
        let name = s.peek(tokens);
        let s1 = s.advance(tokens);
        if name.kind != TokenType::Identifier {
            (s1.report(tokens, name, msg_expected_ident(name.kind)), StmtView::Error)
        } else {
            let s1 = s1.expect(tokens, TokenType::LeftBrace);
            let (s2, methods) = methods_loop_spec(tokens, s1, Seq::empty());
            let s2 = s2.onward_from(s1);
            match methods {
                None => (s2.report(tokens, name, msg_expected_ident(name.kind)), StmtView::Error),
                Some(methods) => (
                    s2.expect(tokens, TokenType::RightBrace),
                    StmtView::ClassDecl { name, methods },
                ),
            }
        }
    }
}

/// The statements of a program, up to the end of input, appended to `acc`.
pub open spec fn program_loop_spec(tokens: Seq<TokenView>, st: ParserState, acc: Seq<StmtView>) -> (
    ParserState,
    Seq<StmtView>,
)
    decreases st.remaining(tokens), 6nat,
{
    if st.at_end(tokens) {
        (st, acc)
    } else {
        let (s1, stmt) = parse_statement_spec(tokens, st, true);
        if s1.cur > st.cur {
            program_loop_spec(tokens, s1, acc.push(stmt))
        } else {
            (s1, acc.push(stmt))
        }
    }
}

/// The program that a token sequence holds, and the state in which parsing
/// it ends.
pub open spec fn parse_spec(tokens: Seq<TokenView>, st: ParserState) -> (
    ParserState,
    Seq<StmtView>,
) {
    program_loop_spec(tokens, st, Seq::empty())
}

} // verus!
