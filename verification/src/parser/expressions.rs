use vstd::prelude::*;
use vstd::string::*;

use crate::scanner::token::{Token, TokenType, TokenView};

use super::ast::{expr_node_view, ExprNode, ExprNodeView};

verus! {

/// A binary operation: its operator and its two sides.
#[derive(Clone)]
pub struct BinaryExpr<'a> {
    pub op: TokenType,
    pub left: Box<ExprNode<'a>>,
    pub right: Box<ExprNode<'a>>,
}

/// A prefix operation: its operator and what it applies to.
#[derive(Clone)]
pub struct UnaryExpr<'a> {
    pub op: TokenType,
    pub operand: Box<ExprNode<'a>>,
}

/// An assignment: the name that is assigned to and the value.
#[derive(Clone)]
pub struct AssignmentExpr<'a> {
    pub name: Token<'a>,
    pub expr: Box<ExprNode<'a>>,
}

/// A call: what is called and the arguments.
#[derive(Clone)]
pub struct CallExpr<'a> {
    pub calee: Box<ExprNode<'a>>,
    pub args: Vec<ExprNode<'a>>,
}

/// A property access: the object and the name of the property.
#[derive(Clone)]
pub struct PropertyAccessExpr<'a> {
    pub object: Box<ExprNode<'a>>,
    pub property: Token<'a>,
}

/// A literal value of the source language; constant folding computes on these.
#[derive(Clone)]
pub enum Value {
    StringLiteral(String),
    Number(i32),
    Bool(bool),
    Nil,
}

/// The mathematical model of a literal value.
pub enum ValueView {
    StringLiteral(Seq<char>),
    Number(int),
    Bool(bool),
    Nil,
}

impl View for Value {
    type V = ValueView;

    open spec fn view(&self) -> ValueView {
        match self {
            Value::StringLiteral(s) => ValueView::StringLiteral(s@),
            Value::Number(n) => ValueView::Number(*n as int),
            Value::Bool(b) => ValueView::Bool(*b),
            Value::Nil => ValueView::Nil,
        }
    }
}

/// An expression of the source language.
#[derive(Clone)]
pub enum Expr<'a> {
    /// A literal: a string, a number, a boolean or nil.
    Constant(Value),
    /// A variable, by its name.
    Var(&'a str),
    /// A binary operation.
    BinOp(BinaryExpr<'a>),
    /// A prefix operation.
    Unary(UnaryExpr<'a>),
    /// An assignment to a named variable.
    Assignment(AssignmentExpr<'a>),
    /// A parenthesised expression.
    Grouping(Box<ExprNode<'a>>),
    /// A call with its arguments.
    Call(CallExpr<'a>),
    /// A property of an object.
    PropertyAccess(PropertyAccessExpr<'a>),
    /// Stands where no expression could be parsed or folded.
    Error,
}

/// The mathematical model of an expression.
pub enum ExprView {
    Constant(ValueView),
    Var(Seq<char>),
    BinOp { op: TokenType, left: Box<ExprNodeView>, right: Box<ExprNodeView> },
    Unary { op: TokenType, operand: Box<ExprNodeView> },
    Assignment { name: TokenView, value: Box<ExprNodeView> },
    Grouping(Box<ExprNodeView>),
    Call { callee: Box<ExprNodeView>, args: Seq<ExprNodeView> },
    PropertyAccess { object: Box<ExprNodeView>, property: TokenView },
    Error,
}

/// The model of an expression, node by node.
pub open spec fn expr_view<'a>(e: Expr<'a>) -> ExprView
    decreases e,
{
    match e {
        Expr::Constant(v) => ExprView::Constant(v@),
        Expr::Var(name) => ExprView::Var(name@),
        Expr::BinOp(b) => ExprView::BinOp {
            op: b.op,
            left: Box::new(expr_node_view(*b.left)),
            right: Box::new(expr_node_view(*b.right)),
        },
        Expr::Unary(u) => ExprView::Unary {
            op: u.op,
            operand: Box::new(expr_node_view(*u.operand)),
        },
        Expr::Assignment(a) => ExprView::Assignment {
            name: a.name@,
            value: Box::new(expr_node_view(*a.expr)),
        },
        Expr::Grouping(inner) => ExprView::Grouping(Box::new(expr_node_view(*inner))),
        Expr::Call(c) => ExprView::Call {
            callee: Box::new(expr_node_view(*c.calee)),
            args: Seq::new(
                c.args@.len(),
                |i: int|
                    if 0 <= i < c.args@.len() {
                        expr_node_view(c.args@[i])
                    } else {
                        arbitrary()
                    },
            ),
        },
        Expr::PropertyAccess(p) => ExprView::PropertyAccess {
            object: Box::new(expr_node_view(*p.object)),
            property: p.property@,
        },
        Expr::Error => ExprView::Error,
    }
}

impl<'a> View for Expr<'a> {
    type V = ExprView;

    open spec fn view(&self) -> ExprView {
        expr_view(*self)
    }
}

/// What folding two literals under a binary operator gives, where it gives
/// anything: sums, differences, products and quotients of numbers that stay
/// within 32 bits, the concatenation of two strings, the equality of two
/// values of one kind, and the order of two numbers.
pub open spec fn fold_value(lhs: ValueView, rhs: ValueView, op: TokenType) -> Option<ValueView> {
    match (op, lhs, rhs) {
        (TokenType::Plus, ValueView::Number(l), ValueView::Number(r)) => in_i32(l + r),
        (TokenType::Plus, ValueView::StringLiteral(l), ValueView::StringLiteral(r)) => Some(
            ValueView::StringLiteral(l + r),
        ),
        (TokenType::Minus, ValueView::Number(l), ValueView::Number(r)) => in_i32(l - r),
        (TokenType::Star, ValueView::Number(l), ValueView::Number(r)) => in_i32(l * r),
        (TokenType::Slash, ValueView::Number(l), ValueView::Number(r)) => if r == 0 {
            None
        } else {
            in_i32(truncating_quotient(l, r))
        },
        (TokenType::EqualEqual, ValueView::Number(l), ValueView::Number(r)) => Some(
            ValueView::Bool(l == r),
        ),
        (TokenType::EqualEqual, ValueView::Bool(l), ValueView::Bool(r)) => Some(
            ValueView::Bool(l == r),
        ),
        (TokenType::EqualEqual, ValueView::StringLiteral(l), ValueView::StringLiteral(r)) => Some(
            ValueView::Bool(l == r),
        ),
        (TokenType::GreaterEqual, ValueView::Number(l), ValueView::Number(r)) => Some(
            ValueView::Bool(l >= r),
        ),
        (TokenType::LessEqual, ValueView::Number(l), ValueView::Number(r)) => Some(
            ValueView::Bool(l <= r),
        ),
        (TokenType::Greater, ValueView::Number(l), ValueView::Number(r)) => Some(
            ValueView::Bool(l > r),
        ),
        (TokenType::Less, ValueView::Number(l), ValueView::Number(r)) => Some(
            ValueView::Bool(l < r),
        ),
        _ => None,
    }
}

/// A number as a literal, where it fits in 32 bits.
pub open spec fn in_i32(n: int) -> Option<ValueView> {
    if i32::MIN <= n <= i32::MAX {
        Some(ValueView::Number(n))
    } else {
        None
    }
}

/// The quotient rounded towards zero.
pub open spec fn truncating_quotient(l: int, r: int) -> int
    recommends
        r != 0,
{
    if l >= 0 && r > 0 {
        l / r
    } else if l >= 0 && r < 0 {
        -(l / (-r))
    } else if l < 0 && r > 0 {
        -((-l) / r)
    } else {
        (-l) / (-r)
    }
}

/// The node that folding two literals gives: the folded literal, or the
/// error node where the operation is not defined on them.
pub open spec fn fold_constants_spec(c1: ValueView, c2: ValueView, op: TokenType) -> ExprView {
    match fold_value(c1, c2, op) {
        Some(v) => ExprView::Constant(v),
        None => ExprView::Error,
    }
}

/// Why two literals could not be folded.
#[derive(Debug, Clone, Copy, PartialEq, Eq, Structural)]
pub enum FoldError {
    /// The operator is not defined on operands of these kinds.
    InvalidOperands,
    /// The result does not fit in 32 bits.
    Overflow,
    /// The divisor is zero.
    DivisionByZero,
}

impl FoldError {
    /// The message that reports the error.
    pub open spec fn text(self) -> Seq<char> {
        match self {
            FoldError::InvalidOperands => "invalid op"@,
            FoldError::Overflow => "the result does not fit in 32 bits"@,
            FoldError::DivisionByZero => "right hand side of the division is 0"@,
        }
    }

    /// The message that reports the error.
    pub fn message(&self) -> (r: &'static str)
        ensures
            r@ == self.text(),
    {
        match self {
            FoldError::InvalidOperands => "invalid op",
            FoldError::Overflow => "the result does not fit in 32 bits",
            FoldError::DivisionByZero => "right hand side of the division is 0",
        }
    }
}

/// The error with which folding fails, for the inputs on which it fails.
pub open spec fn fold_error(lhs: ValueView, rhs: ValueView, op: TokenType) -> FoldError {
    match (op, lhs, rhs) {
        (TokenType::Plus, ValueView::Number(l), ValueView::Number(r)) => FoldError::Overflow,
        (TokenType::Minus, ValueView::Number(l), ValueView::Number(r)) => FoldError::Overflow,
        (TokenType::Star, ValueView::Number(l), ValueView::Number(r)) => FoldError::Overflow,
        (TokenType::Slash, ValueView::Number(l), ValueView::Number(r)) => if r == 0 {
            FoldError::DivisionByZero
        } else {
            FoldError::Overflow
        },
        _ => FoldError::InvalidOperands,
    }
}

impl Value {
    /// A copy of the value.
    pub fn duplicate(&self) -> (r: Value)
        ensures
            r@ == self@,
    {
        match self {
            Value::StringLiteral(s) => Value::StringLiteral(s.clone()),
            Value::Number(n) => Value::Number(*n),
            Value::Bool(b) => Value::Bool(*b),
            Value::Nil => Value::Nil,
        }
    }

    /// Folds two literals under a binary operator.
    pub fn compute(lhs: Value, rhs: Value, op: TokenType) -> (r: Result<Value, FoldError>)
        ensures
            match fold_value(lhs@, rhs@, op) {
                Some(v) => r matches Ok(x) && x@ == v,
                None => r == Err::<Value, FoldError>(fold_error(lhs@, rhs@, op)),
            },
    {
        match op {
            TokenType::Plus => match (lhs, rhs) {
                (Value::Number(l), Value::Number(r)) => match l.checked_add(r) {
                    Some(n) => Ok(Value::Number(n)),
                    None => Err(FoldError::Overflow),
                },
                (Value::StringLiteral(l), Value::StringLiteral(r)) => Ok(
                    Value::StringLiteral(l.concat(r.as_str())),
                ),
                _ => Err(FoldError::InvalidOperands),
            },
            TokenType::Minus => match (lhs, rhs) {
                (Value::Number(l), Value::Number(r)) => match l.checked_sub(r) {
                    Some(n) => Ok(Value::Number(n)),
                    None => Err(FoldError::Overflow),
                },
                _ => Err(FoldError::InvalidOperands),
            },
            TokenType::Star => match (lhs, rhs) {
                (Value::Number(l), Value::Number(r)) => match l.checked_mul(r) {
                    Some(n) => Ok(Value::Number(n)),
                    None => Err(FoldError::Overflow),
                },
                _ => Err(FoldError::InvalidOperands),
            },
            TokenType::Slash => match (lhs, rhs) {
                (Value::Number(l), Value::Number(r)) => {
                    if r == 0 {
                        Err(FoldError::DivisionByZero)
                    } else if l == i32::MIN && r == -1 {
                        Err(FoldError::Overflow)
                    } else {
                        Ok(Value::Number(quotient(l, r)))
                    }
                },
                _ => Err(FoldError::InvalidOperands),
            },
            TokenType::EqualEqual => match (lhs, rhs) {
                (Value::Number(l), Value::Number(r)) => Ok(Value::Bool(l == r)),
                (Value::Bool(l), Value::Bool(r)) => Ok(Value::Bool(l == r)),
                (Value::StringLiteral(l), Value::StringLiteral(r)) => Ok(Value::Bool(l == r)),
                _ => Err(FoldError::InvalidOperands),
            },
            TokenType::GreaterEqual => match (lhs, rhs) {
                (Value::Number(l), Value::Number(r)) => Ok(Value::Bool(l >= r)),
                _ => Err(FoldError::InvalidOperands),
            },
            TokenType::LessEqual => match (lhs, rhs) {
                (Value::Number(l), Value::Number(r)) => Ok(Value::Bool(l <= r)),
                _ => Err(FoldError::InvalidOperands),
            },
            TokenType::Greater => match (lhs, rhs) {
                (Value::Number(l), Value::Number(r)) => Ok(Value::Bool(l > r)),
                _ => Err(FoldError::InvalidOperands),
            },
            TokenType::Less => match (lhs, rhs) {
                (Value::Number(l), Value::Number(r)) => Ok(Value::Bool(l < r)),
                _ => Err(FoldError::InvalidOperands),
            },
            _ => Err(FoldError::InvalidOperands),
        }
    }
}

/// The quotient of two 32-bit numbers, rounded towards zero.
fn quotient(l: i32, r: i32) -> (q: i32)
    requires
        r != 0,
        !(l == i32::MIN && r == -1),
    ensures
        q as int == truncating_quotient(l as int, r as int),
{
    let a: i64 = l as i64;
    let b: i64 = r as i64;
    let q: i64 = if a >= 0 && b > 0 {
        a / b
    } else if a >= 0 && b < 0 {
        let p = a / (-b);
        -p
    } else if a < 0 && b > 0 {
        let p = (-a) / b;
        -p
    } else {
        (-a) / (-b)
    };
    assert(i32::MIN <= q <= i32::MAX) by (nonlinear_arith)
        requires
            q == truncating_quotient(a as int, b as int),
            i32::MIN <= a <= i32::MAX,
            i32::MIN <= b <= i32::MAX,
            b != 0,
            !(a == i32::MIN && b == -1),
    ;
    q as i32
}

impl<'a> Expr<'a> {
    /// The node that stands for two literals folded under `op`.
    pub fn fold_constants(c1: Value, c2: Value, op: TokenType) -> (r: Expr<'a>)
        ensures
            r@ == fold_constants_spec(c1@, c2@, op),
    {
        let computed_value = Value::compute(c1, c2, op);
        match computed_value {
            Ok(v) => Expr::Constant(v),
            Err(_) => Expr::Error,
        }
    }

    /// Whether the expression is the error node.
    pub fn is_error(&self) -> (r: bool)
        ensures
            r == (self is Error),
            r == (self@ is Error),
    {
        match self {
            Expr::Error => true,
            _ => false,
        }
    }
}

} // verus!
