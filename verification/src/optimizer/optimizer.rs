use vstd::prelude::*;

use crate::parser::ast::{
    clamp, count_expr, count_exprs, optimize_expr, optimize_exprs, ExprNodeView,
};
use crate::parser::expressions::{fold_value, ExprView, ValueView};
use crate::parser::statements::{
    count_block, count_stmts, optimize_block, optimize_func, optimize_funcs,
    optimize_stmt, optimize_stmts, stmt_views, FuncDeclView, Stmt, StmtView,
};

verus! {

/// The constant folder over a program.
pub struct Optimizer;

impl Optimizer {
    /// The program with the constant subtrees of every expression folded.
    pub fn optimize<'a>(ast: Vec<Stmt<'a>>) -> (r: Vec<Stmt<'a>>)
        ensures
            stmt_views(r@) == optimize_stmts(stmt_views(ast@)),
    {
        optimize_block(&ast)
    }

    /// The number of expression nodes of the program, or the largest `usize`
    /// where the count does not fit.
    pub fn count_nodes(ast: &Vec<Stmt<'_>>) -> (n: usize)
        ensures
            n as nat == clamp(count_stmts(stmt_views(ast@))),
    {
        count_block(ast)
    }
}

/// Whether folding changes anything in an expression: whether it reaches a
/// binary operation whose two sides fold to literals, or a group around what
/// folds to a literal.
pub open spec fn has_fold(n: ExprNodeView) -> bool
    decreases n,
{
    match n.node {
        ExprView::BinOp { op, left, right } => optimize_expr(*left).node is Constant
            && optimize_expr(*right).node is Constant,
        ExprView::Grouping(inner) => optimize_expr(*inner).node is Constant || has_fold(*inner),
        ExprView::Unary { op, operand } => has_fold(*operand),
        ExprView::Assignment { name, value } => has_fold(*value),
        ExprView::Call { callee, args } => has_fold(*callee) || any_has_fold(args),
        ExprView::PropertyAccess { object, property } => has_fold(*object),
        ExprView::Constant(_) | ExprView::Var(_) | ExprView::Error => false,
    }
}

/// Whether folding changes anything in one of the expressions.
pub open spec fn any_has_fold(s: Seq<ExprNodeView>) -> bool
    decreases s,
{
    if s.len() == 0 {
        false
    } else {
        any_has_fold(s.drop_last()) || has_fold(s.last())
    }
}

/// Folding a sequence of expressions folds each of them in place.
pub proof fn lemma_optimize_exprs_index(s: Seq<ExprNodeView>)
    ensures
        optimize_exprs(s).len() == s.len(),
        forall|i: int| 0 <= i < s.len() ==> #[trigger] optimize_exprs(s)[i] == optimize_expr(s[i]),
    decreases s.len(),
{
    if s.len() > 0 {
        lemma_optimize_exprs_index(s.drop_last());
    }
}

/// Folding a sequence of statements folds each of them in place.
pub proof fn lemma_optimize_stmts_index(s: Seq<StmtView>)
    ensures
        optimize_stmts(s).len() == s.len(),
        forall|i: int| 0 <= i < s.len() ==> #[trigger] optimize_stmts(s)[i] == optimize_stmt(s[i]),
    decreases s.len(),
{
    if s.len() > 0 {
        lemma_optimize_stmts_index(s.drop_last());
    }
}

/// Folding a sequence of function declarations folds each of them in place.
pub proof fn lemma_optimize_funcs_index(s: Seq<FuncDeclView>)
    ensures
        optimize_funcs(s).len() == s.len(),
        forall|i: int| 0 <= i < s.len() ==> #[trigger] optimize_funcs(s)[i] == optimize_func(s[i]),
    decreases s.len(),
{
    if s.len() > 0 {
        lemma_optimize_funcs_index(s.drop_last());
    }
}

/// The literal that an expression over literals, binary operations and
/// groups denotes, where every operation in it is defined on its operands.
pub open spec fn constant_value(n: ExprNodeView) -> Option<ValueView>
    decreases n,
{
    match n.node {
        ExprView::Constant(v) => Some(v),
        ExprView::Grouping(inner) => constant_value(*inner),
        ExprView::BinOp { op, left, right } => match (
            constant_value(*left),
            constant_value(*right),
        ) {
            (Some(a), Some(b)) => fold_value(a, b, op),
            _ => None,
        },
        _ => None,
    }
}

/// Whether an expression is a literal, a group around what denotes a
/// literal, or a binary operation on two sides that each denote a literal.
pub open spec fn is_constant_arithmetic(n: ExprNodeView) -> bool {
    match n.node {
        ExprView::Constant(_) => true,
        ExprView::Grouping(inner) => constant_value(*inner) is Some,
        ExprView::BinOp { op, left, right } => constant_value(*left) is Some && constant_value(
            *right,
        ) is Some,
        _ => false,
    }
}

/// An expression that denotes a literal folds to that literal.
pub proof fn lemma_folding_computes_the_value(n: ExprNodeView)
    requires
        constant_value(n) is Some,
    ensures
        optimize_expr(n).node == ExprView::Constant(constant_value(n)->0),
    decreases n,
{
    match n.node {
        ExprView::Grouping(inner) => {
            lemma_folding_computes_the_value(*inner);
        },
        ExprView::BinOp { op, left, right } => {
            lemma_folding_computes_the_value(*left);
            lemma_folding_computes_the_value(*right);
        },
        _ => {},
    }
}

/// Constant arithmetic folds to a single node: a literal, or the error node
/// where the outermost operation is not defined on its operands.
pub proof fn lemma_constant_arithmetic_folds_to_one_node(n: ExprNodeView)
    requires
        is_constant_arithmetic(n),
    ensures
        optimize_expr(n).node is Constant || optimize_expr(n).node is Error,
        count_expr(optimize_expr(n)) == 1,
{
    match n.node {
        ExprView::Grouping(inner) => {
            lemma_folding_computes_the_value(*inner);
        },
        ExprView::BinOp { op, left, right } => {
            lemma_folding_computes_the_value(*left);
            lemma_folding_computes_the_value(*right);
        },
        _ => {},
    }
}

/// A program that is one expression statement of constant arithmetic has
/// exactly one node once it is folded.
pub proof fn lemma_constant_program_counts_one(n: ExprNodeView)
    requires
        is_constant_arithmetic(n),
    ensures
        count_stmts(optimize_stmts(seq![StmtView::Expression(n)])) == 1,
{
    lemma_constant_arithmetic_folds_to_one_node(n);
    let s = seq![StmtView::Expression(n)];
    lemma_optimize_stmts_index(s);
    let o = optimize_stmts(s);
    assert(o[0] == optimize_stmt(s[0]));
    assert(o.drop_last() =~= Seq::<StmtView>::empty());
    reveal_with_fuel(count_stmts, 2);
}

/// Folding an expression twice gives what folding it once gives.
pub proof fn lemma_optimize_expr_idempotent(n: ExprNodeView)
    ensures
        optimize_expr(optimize_expr(n)) == optimize_expr(n),
    decreases n,
{
    match n.node {
        ExprView::BinOp { op, left, right } => {
            lemma_optimize_expr_idempotent(*left);
            lemma_optimize_expr_idempotent(*right);
        },
        ExprView::Unary { op, operand } => {
            lemma_optimize_expr_idempotent(*operand);
        },
        ExprView::Assignment { name, value } => {
            lemma_optimize_expr_idempotent(*value);
        },
        ExprView::Call { callee, args } => {
            lemma_optimize_expr_idempotent(*callee);
            lemma_optimize_exprs_idempotent(args);
        },
        ExprView::PropertyAccess { object, property } => {
            lemma_optimize_expr_idempotent(*object);
        },
        ExprView::Grouping(inner) => {
            lemma_optimize_expr_idempotent(*inner);
        },
        _ => {},
    }
}

/// Folding a sequence of expressions twice gives what folding it once gives.
pub proof fn lemma_optimize_exprs_idempotent(s: Seq<ExprNodeView>)
    ensures
        optimize_exprs(optimize_exprs(s)) == optimize_exprs(s),
    decreases s,
{
    lemma_optimize_exprs_index(s);
    lemma_optimize_exprs_index(optimize_exprs(s));
    assert forall|i: int| 0 <= i < s.len() implies optimize_exprs(optimize_exprs(s))[i]
        == optimize_exprs(s)[i] by {
        lemma_optimize_expr_idempotent(s[i]);
    }
    assert(optimize_exprs(optimize_exprs(s)) =~= optimize_exprs(s));
}

/// Folding a statement twice gives what folding it once gives.
pub proof fn lemma_optimize_stmt_idempotent(s: StmtView)
    ensures
        optimize_stmt(optimize_stmt(s)) == optimize_stmt(s),
    decreases s,
{
    match s {
        StmtView::Error => {},
        StmtView::Expression(e) => {
            lemma_optimize_expr_idempotent(e);
        },
        StmtView::FuncDecl(f) => {
            lemma_optimize_stmts_idempotent(f.body);
            assert(optimize_func(optimize_func(f)) == optimize_func(f));
        },
        StmtView::ClassDecl { name, methods } => {
            lemma_optimize_funcs_idempotent(methods);
        },
        StmtView::VarDecl { name, init } => {
            if let Some(e) = init {
                lemma_optimize_expr_idempotent(e);
            }
        },
        StmtView::Return { value } => {
            if let Some(e) = value {
                lemma_optimize_expr_idempotent(e);
            }
        },
        StmtView::While { cond, body } => {
            lemma_optimize_expr_idempotent(cond);
            lemma_optimize_stmts_idempotent(body);
        },
        StmtView::For { init, cond, step, body } => {
            if let Some(i) = init {
                lemma_optimize_stmt_idempotent(*i);
            }
            if let Some(e) = cond {
                lemma_optimize_expr_idempotent(e);
            }
            if let Some(e) = step {
                lemma_optimize_expr_idempotent(e);
            }
            lemma_optimize_stmts_idempotent(body);
        },
        StmtView::If { cond, then_body, else_body } => {
            lemma_optimize_expr_idempotent(cond);
            lemma_optimize_stmts_idempotent(then_body);
            lemma_optimize_stmts_idempotent(else_body);
        },
    }
}

/// Folding a program twice gives what folding it once gives.
pub proof fn lemma_optimize_stmts_idempotent(s: Seq<StmtView>)
    ensures
        optimize_stmts(optimize_stmts(s)) == optimize_stmts(s),
    decreases s,
{
    lemma_optimize_stmts_index(s);
    lemma_optimize_stmts_index(optimize_stmts(s));
    assert forall|i: int| 0 <= i < s.len() implies optimize_stmts(optimize_stmts(s))[i]
        == optimize_stmts(s)[i] by {
        lemma_optimize_stmt_idempotent(s[i]);
    }
    assert(optimize_stmts(optimize_stmts(s)) =~= optimize_stmts(s));
}

/// Folding a sequence of function declarations twice gives what folding it
/// once gives.
pub proof fn lemma_optimize_funcs_idempotent(s: Seq<FuncDeclView>)
    ensures
        optimize_funcs(optimize_funcs(s)) == optimize_funcs(s),
    decreases s,
{
    lemma_optimize_funcs_index(s);
    lemma_optimize_funcs_index(optimize_funcs(s));
    assert forall|i: int| 0 <= i < s.len() implies optimize_funcs(optimize_funcs(s))[i]
        == optimize_funcs(s)[i] by {
        lemma_optimize_stmts_idempotent(s[i].body);
    }
    assert(optimize_funcs(optimize_funcs(s)) =~= optimize_funcs(s));
}

/// Where none of the expressions has anything to fold, none of them has.
pub proof fn lemma_any_has_fold_index(s: Seq<ExprNodeView>)
    requires
        !any_has_fold(s),
    ensures
        forall|i: int| 0 <= i < s.len() ==> !has_fold(#[trigger] s[i]),
    decreases s.len(),
{
    if s.len() > 0 {
        lemma_any_has_fold_index(s.drop_last());
        assert forall|i: int| 0 <= i < s.len() implies !has_fold(#[trigger] s[i]) by {
            if i < s.len() - 1 {
                assert(s[i] == s.drop_last()[i]);
            } else {
                assert(s[i] == s.last());
            }
        }
    }
}

/// An expression in which folding finds nothing to fold comes out of it
/// unchanged.
pub proof fn lemma_optimize_preserves_unfoldable(n: ExprNodeView)
    requires
        !has_fold(n),
    ensures
        optimize_expr(n) == n,
    decreases n,
{
    match n.node {
        ExprView::Unary { op, operand } => {
            lemma_optimize_preserves_unfoldable(*operand);
        },
        ExprView::Assignment { name, value } => {
            lemma_optimize_preserves_unfoldable(*value);
        },
        ExprView::Call { callee, args } => {
            lemma_optimize_preserves_unfoldable(*callee);
            lemma_optimize_exprs_index(args);
            lemma_any_has_fold_index(args);
            assert forall|i: int| 0 <= i < args.len() implies optimize_exprs(args)[i]
                == args[i] by {
                lemma_optimize_preserves_unfoldable(args[i]);
            }
            assert(optimize_exprs(args) =~= args);
        },
        ExprView::PropertyAccess { object, property } => {
            lemma_optimize_preserves_unfoldable(*object);
        },
        ExprView::Grouping(inner) => {
            lemma_optimize_preserves_unfoldable(*inner);
        },
        _ => {},
    }
}

/// Folding a sequence of expressions never adds nodes.
pub proof fn lemma_folding_exprs_never_adds_nodes(s: Seq<ExprNodeView>)
    ensures
        count_exprs(optimize_exprs(s)) <= count_exprs(s),
    decreases s,
{
    if s.len() > 0 {
        lemma_folding_exprs_never_adds_nodes(s.drop_last());
        lemma_folding_never_adds_nodes(s.last());
        assert(optimize_exprs(s).drop_last() =~= optimize_exprs(s.drop_last()));
    }
}

/// Folding an expression never adds nodes.
pub proof fn lemma_folding_never_adds_nodes(n: ExprNodeView)
    ensures
        count_expr(optimize_expr(n)) <= count_expr(n),
    decreases n,
{
    match n.node {
        ExprView::Unary { op, operand } => {
            lemma_folding_never_adds_nodes(*operand);
        },
        ExprView::Assignment { name, value } => {
            lemma_folding_never_adds_nodes(*value);
        },
        ExprView::Call { callee, args } => {
            lemma_folding_never_adds_nodes(*callee);
            lemma_folding_exprs_never_adds_nodes(args);
        },
        ExprView::PropertyAccess { object, property } => {
            lemma_folding_never_adds_nodes(*object);
        },
        ExprView::Grouping(inner) => {
            lemma_folding_never_adds_nodes(*inner);
        },
        _ => {},
    }
}

} // verus!
