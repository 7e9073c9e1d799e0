//! The trees that the parser gives follow the binding powers of the
//! operators: in a binary operation, a binary operation on the left binds
//! at least as tightly as its parent and one on the right binds more
//! tightly, and what a prefix operator, a call or a property access applies
//! to is no binary operation. This holds of whatever tokens are parsed.

use vstd::prelude::*;

use crate::scanner::token::{TokenType, TokenView};
use crate::text::unquoted;

use super::ast::ExprNodeView;
use super::expressions::{ExprView, ValueView};
use super::grammar::{
    args_loop_spec, ends_expression, infix_loop_spec, infix_power, is_operator, is_sync_point,
    msg_chained_assignment, msg_expected_operator, msg_expected_paren, msg_invalid_assignment,
    msg_unexpected, number_literal, parse_expr_spec, parse_infix_spec, parse_postfix_spec,
    postfix_power, prefix_power, skipped, ParserState,
};
use super::progress::{lemma_expr_moves_on, lemma_infix_moves_on, lemma_postfix_moves_on};

verus! {

/// The left binding power of an operator, postfix or infix.
pub open spec fn left_power(kind: TokenType) -> Option<nat> {
    match postfix_power(kind) {
        Some((l, r)) => Some(l),
        None => match infix_power(kind) {
            Some((l, r)) => Some(l),
            None => None,
        },
    }
}

/// Whether no operator stands next that binds at least as tightly as `bp`.
pub open spec fn stops_before(tokens: Seq<TokenView>, st: ParserState, bp: nat) -> bool {
    match left_power(st.peek(tokens).kind) {
        Some(l) => l < bp,
        None => true,
    }
}

/// The left binding power of an infix operator.
pub open spec fn infix_left(kind: TokenType) -> nat {
    match infix_power(kind) {
        Some((l, r)) => l,
        None => 0,
    }
}

/// The right binding power of an infix operator.
pub open spec fn infix_right(kind: TokenType) -> nat {
    match infix_power(kind) {
        Some((l, r)) => r,
        None => 0,
    }
}

/// The left binding power of the operator of a binary operation.
pub open spec fn top_left(n: ExprNodeView) -> nat {
    match n.node {
        ExprView::BinOp { op, left, right } => infix_left(op),
        _ => 0,
    }
}

/// The right binding power of the operator of a binary operation.
pub open spec fn top_right(n: ExprNodeView) -> nat {
    match n.node {
        ExprView::BinOp { op, left, right } => infix_right(op),
        _ => 0,
    }
}

/// Whether an expression is a binary operation or an assignment.
pub open spec fn is_compound(n: ExprNodeView) -> bool {
    n.node is BinOp || n.node is Assignment
}

/// Whether an expression follows the binding powers of its operators.
pub open spec fn climbs(n: ExprNodeView) -> bool
    decreases n,
{
    match n.node {
        ExprView::Constant(_) | ExprView::Var(_) | ExprView::Error => true,
        ExprView::BinOp { op, left, right } => {
            &&& infix_power(op) is Some
            &&& !(left.node is Assignment)
            &&& !(right.node is Assignment)
            &&& left.node is BinOp ==> top_left(*left) >= infix_left(op)
            &&& right.node is BinOp ==> top_left(*right) >= infix_right(op)
            &&& climbs(*left)
            &&& climbs(*right)
        },
        ExprView::Unary { op, operand } => !is_compound(*operand) && climbs(*operand),
        ExprView::Assignment { name, value } => !(value.node is Assignment) && climbs(*value),
        ExprView::Grouping(inner) => climbs(*inner),
        ExprView::Call { callee, args } => !is_compound(*callee) && climbs(*callee) && forall|
            i: int,
        | 0 <= i < args.len() ==> climbs(#[trigger] args[i]),
        ExprView::PropertyAccess { object, property } => !is_compound(*object) && climbs(*object),
    }
}

/// Whether every expression of a sequence follows the binding powers.
pub open spec fn all_climb(s: Seq<ExprNodeView>) -> bool {
    forall|i: int| 0 <= i < s.len() ==> climbs(#[trigger] s[i])
}

/// Whether `node` may stand on the left of the operators that follow at
/// `st` in a loop of binding power `bp`: it follows the binding powers, and
/// where it is a binary operation or an assignment, it binds at least as
/// tightly as `bp` and nothing follows that its right side should have
/// taken.
pub open spec fn fits(
    tokens: Seq<TokenView>,
    st: ParserState,
    bp: nat,
    node: ExprNodeView,
) -> bool {
    &&& climbs(node)
    &&& node.node is BinOp ==> top_left(node) >= bp && stops_before(tokens, st, top_right(node))
    &&& node.node is Assignment ==> stops_before(tokens, st, 6)
}

/// After an error is reported, no operator stands next.
pub proof fn lemma_report_stops(
    tokens: Seq<TokenView>,
    st: ParserState,
    token: TokenView,
    msg: Seq<char>,
    bp: nat,
)
    ensures
        stops_before(tokens, st.report(tokens, token, msg), bp),
{
    lemma_skipped_stops(tokens, st.cur);
}

/// Error recovery stops at a token at which parsing can go on, or at the
/// end of the tokens.
pub proof fn lemma_skipped_stops(tokens: Seq<TokenView>, cur: nat)
    ensures
        cur + skipped(tokens, cur) >= tokens.len() || is_sync_point(
            tokens[(cur + skipped(tokens, cur)) as int].kind,
        ),
    decreases tokens.len() - cur,
{
    if !(cur >= tokens.len() || is_sync_point(tokens[cur as int].kind)) {
        lemma_skipped_stops(tokens, cur + 1);
    }
}

/// A parsed expression follows the binding powers of its operators; where
/// it is a binary operation, its operator binds at least as tightly as
/// `bp`; and after it no operator stands that binds at least as tightly as
/// `bp`. An expression parsed at a binding power above that of `=` is no
/// assignment: the right side of an assignment is parsed so, which is why
/// `a = b = 1` is read as `(a = b) = 1` and refused as an assignment to
/// what is no variable.
pub proof fn lemma_expr_climbs(tokens: Seq<TokenView>, st: ParserState, bp: nat)
    ensures
        climbs(parse_expr_spec(tokens, st, bp).1),
        parse_expr_spec(tokens, st, bp).1.node is BinOp ==> top_left(
            parse_expr_spec(tokens, st, bp).1,
        ) >= bp,
        bp > 5 ==> !(parse_expr_spec(tokens, st, bp).1.node is Assignment),
        stops_before(tokens, parse_expr_spec(tokens, st, bp).0, bp),
    decreases st.remaining(tokens), 2nat,
{
    let tok = st.peek(tokens);
    let s1 = st.advance(tokens);
    match tok.kind {
        TokenType::StringLiteral => {
            lemma_operators_climb(
                tokens,
                s1,
                bp,
                ExprNodeView {
                    token: tok,
                    node: ExprView::Constant(ValueView::StringLiteral(unquoted(tok.text()))),
                },
            );
        },
        TokenType::Identifier => {
            lemma_operators_climb(
                tokens,
                s1,
                bp,
                ExprNodeView { token: tok, node: ExprView::Var(tok.text()) },
            );
        },
        TokenType::True | TokenType::False => {
            lemma_operators_climb(
                tokens,
                s1,
                bp,
                ExprNodeView {
                    token: tok,
                    node: ExprView::Constant(ValueView::Bool(tok.kind == TokenType::True)),
                },
            );
        },
        TokenType::Minus | TokenType::Plus | TokenType::Bang => {
            lemma_expr_climbs(tokens, s1, prefix_power(tok.kind));
            lemma_expr_moves_on(tokens, s1, prefix_power(tok.kind));
            let (s2, operand) = parse_expr_spec(tokens, s1, prefix_power(tok.kind));
            lemma_operators_climb(
                tokens,
                s2.onward_from(s1),
                bp,
                ExprNodeView {
                    token: tok,
                    node: ExprView::Unary { op: tok.kind, operand: Box::new(operand) },
                },
            );
        },
        TokenType::LeftParen => {
            lemma_expr_climbs(tokens, s1, 0);
            let (s2, inner) = parse_expr_spec(tokens, s1, 0);
            let s2 = s2.onward_from(s1);
            if inner.node is Error || s2.next_is(tokens, TokenType::RightParen) {
                let s3 = if inner.node is Error {
                    s2
                } else {
                    s2.advance(tokens)
                };
                lemma_operators_climb(
                    tokens,
                    s3,
                    bp,
                    ExprNodeView { token: tok, node: ExprView::Grouping(Box::new(inner)) },
                );
            } else {
                let found = s2.previous(tokens);
                lemma_report_stops(tokens, s2, found, msg_expected_paren(found.kind), bp);
            }
        },
        _ => {
            if tok.kind == TokenType::Number && number_literal(tok) is Some {
                lemma_operators_climb(
                    tokens,
                    s1,
                    bp,
                    ExprNodeView { token: tok, node: number_literal(tok)->0 },
                );
            } else {
                lemma_report_stops(tokens, s1, tok, msg_unexpected(tok.kind), bp);
            }
        },
    }
}

/// The operators that follow an expression which fits on their left give
/// an expression that follows the binding powers; where it is a binary
/// operation, its operator binds at least as tightly as `bp`; and after it
/// no operator stands that binds at least as tightly as `bp`.
pub proof fn lemma_operators_climb(
    tokens: Seq<TokenView>,
    st: ParserState,
    bp: nat,
    lhs: ExprNodeView,
)
    requires
        fits(tokens, st, bp, lhs),
    ensures
        climbs(infix_loop_spec(tokens, st, bp, lhs).1),
        infix_loop_spec(tokens, st, bp, lhs).1.node is BinOp ==> top_left(
            infix_loop_spec(tokens, st, bp, lhs).1,
        ) >= bp,
        bp > 5 && !(lhs.node is Assignment) ==> !(infix_loop_spec(tokens, st, bp, lhs).1.node
            is Assignment),
        stops_before(tokens, infix_loop_spec(tokens, st, bp, lhs).0, bp),
    decreases st.remaining(tokens), 1nat,
{
    let op = st.peek(tokens);
    if ends_expression(op.kind) {
    } else if !is_operator(op.kind) {
        lemma_report_stops(tokens, st, op, msg_expected_operator(op.kind), bp);
    } else if let Some((lbp, rbp)) = postfix_power(op.kind) {
        if lbp >= bp {
            lemma_postfix_climbs(tokens, st, rbp, lhs);
            lemma_postfix_moves_on(tokens, st, rbp, lhs);
            let (s1, node) = parse_postfix_spec(tokens, st, rbp, lhs);
            lemma_operators_climb(tokens, s1, bp, node);
        }
    } else if let Some((lbp, rbp)) = infix_power(op.kind) {
        if lbp >= bp {
            lemma_infix_climbs(tokens, st, rbp, lhs);
            lemma_infix_moves_on(tokens, st, rbp, lhs);
            let (s1, node) = parse_infix_spec(tokens, st, rbp, lhs);
            lemma_operators_climb(tokens, s1, bp, node);
        }
    }
}

/// A property access or a call on an expression that is no binary
/// operation and no assignment follows the binding powers, and is itself
/// neither.
pub proof fn lemma_postfix_climbs(
    tokens: Seq<TokenView>,
    st: ParserState,
    bp: nat,
    lhs: ExprNodeView,
)
    requires
        postfix_power(st.peek(tokens).kind) is Some,
        fits(tokens, st, 0, lhs),
    ensures
        climbs(parse_postfix_spec(tokens, st, bp, lhs).1),
        !is_compound(parse_postfix_spec(tokens, st, bp, lhs).1),
    decreases st.remaining(tokens), 0nat,
{
    let op = st.peek(tokens);
    let s1 = st.advance(tokens);
    if op.kind == TokenType::Dot {
        lemma_expr_climbs(tokens, s1, bp);
    } else {
        lemma_args_climb(tokens, s1, Seq::empty());
    }
}

/// An assignment or a binary operation whose left side fits follows the
/// binding powers, binds as its operator does, and is followed by no
/// operator that its right side should have taken.
pub proof fn lemma_infix_climbs(
    tokens: Seq<TokenView>,
    st: ParserState,
    bp: nat,
    lhs: ExprNodeView,
)
    requires
        infix_power(st.peek(tokens).kind) is Some,
        infix_right(st.peek(tokens).kind) == bp,
        fits(tokens, st, 0, lhs),
    ensures
        fits(
            tokens,
            parse_infix_spec(tokens, st, bp, lhs).0,
            infix_left(st.peek(tokens).kind),
            parse_infix_spec(tokens, st, bp, lhs).1,
        ),
        parse_infix_spec(tokens, st, bp, lhs).1.node is Assignment ==> st.peek(tokens).kind
            == TokenType::Equal,
    decreases st.remaining(tokens), 0nat,
{
    let op = st.peek(tokens);
    let s1 = st.advance(tokens);
    lemma_expr_climbs(tokens, s1, bp);
    lemma_expr_moves_on(tokens, s1, bp);
    let (s2, rhs) = parse_expr_spec(tokens, s1, bp);
    if op.kind == TokenType::Equal {
        if !(lhs.node is Var) {
            lemma_report_stops(tokens, s2, lhs.token, msg_invalid_assignment(), 0);
        } else if rhs.node is Assignment {
            lemma_report_stops(tokens, s2, lhs.token, msg_chained_assignment(), 0);
        }
    }
}

/// The arguments of a call follow the binding powers.
pub proof fn lemma_args_climb(tokens: Seq<TokenView>, st: ParserState, acc: Seq<ExprNodeView>)
    requires
        all_climb(acc),
    ensures
        all_climb(args_loop_spec(tokens, st, acc).1),
    decreases st.remaining(tokens), 3nat,
{
    if !(st.at_end(tokens) || st.next_is(tokens, TokenType::RightParen)) {
        lemma_expr_climbs(tokens, st, 0);
        lemma_expr_moves_on(tokens, st, 0);
        let (s1, arg) = parse_expr_spec(tokens, st, 0);
        let s2 = s1.accept(tokens, TokenType::Comma);
        let next = acc.push(arg);
        assert forall|i: int| 0 <= i < next.len() implies climbs(#[trigger] next[i]) by {
            if i < acc.len() {
                assert(next[i] == acc[i]);
            }
        }
        if s2.cur > st.cur {
            lemma_args_climb(tokens, s2, next);
        }
    }
}

} // verus!
