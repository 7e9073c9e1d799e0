use vstd::prelude::*;

use crate::scanner::token::{Token, TokenView};

use super::expressions::{
    expr_view, fold_constants_spec, AssignmentExpr, BinaryExpr, CallExpr, Expr, ExprView,
    PropertyAccessExpr, UnaryExpr,
};

verus! {

/// What every node of the syntax tree offers: its size and its folded form.
pub trait AstNode: Sized {
    /// The number of expression nodes that the node holds.
    spec fn node_count(&self) -> nat;

    /// Whether `folded` is this node with its constant subtrees folded.
    spec fn folds_to(&self, folded: &Self) -> bool;

    /// The number of expression nodes, or the largest `usize` where the
    /// count does not fit.
    fn count_nodes(&self) -> (n: usize)
        ensures
            n as nat == clamp(self.node_count()),
    ;

    /// The node with its constant subtrees folded.
    fn optimize(&self) -> (folded: Self)
        ensures
            self.folds_to(&folded),
    ;
}

/// A count as a `usize`: itself where it fits, the largest `usize` otherwise.
pub open spec fn clamp(n: nat) -> nat {
    if n <= usize::MAX {
        n
    } else {
        usize::MAX as nat
    }
}

/// An expression together with the token that anchors it in the source.
pub struct ExprNode<'a> {
    pub token: Token<'a>,
    pub node: Expr<'a>,
}

/// The mathematical model of an expression node.
pub struct ExprNodeView {
    pub token: TokenView,
    pub node: ExprView,
}

/// The model of an expression node.
pub open spec fn expr_node_view<'a>(n: ExprNode<'a>) -> ExprNodeView
    decreases n,
{
    ExprNodeView { token: n.token@, node: expr_view(n.node) }
}

impl<'a> View for ExprNode<'a> {
    type V = ExprNodeView;

    open spec fn view(&self) -> ExprNodeView {
        expr_node_view(*self)
    }
}

/// The models of a vector of expression nodes, in order.
pub open spec fn expr_views<'a>(v: Seq<ExprNode<'a>>) -> Seq<ExprNodeView> {
    Seq::new(v.len(), |i: int| v[i]@)
}

/// The number of nodes of an expression: one for the node itself and the
/// nodes of each of its children.
pub open spec fn count_expr(n: ExprNodeView) -> nat
    decreases n,
{
    1 + match n.node {
        ExprView::Constant(_) | ExprView::Var(_) | ExprView::Error => 0,
        ExprView::BinOp { op, left, right } => count_expr(*left) + count_expr(*right),
        ExprView::Unary { op, operand } => count_expr(*operand),
        ExprView::Assignment { name, value } => count_expr(*value),
        ExprView::Grouping(inner) => count_expr(*inner),
        ExprView::Call { callee, args } => count_expr(*callee) + count_exprs(args),
        ExprView::PropertyAccess { object, property } => count_expr(*object),
    }
}

/// The number of nodes of a sequence of expressions.
pub open spec fn count_exprs(s: Seq<ExprNodeView>) -> nat
    decreases s,
{
    if s.len() == 0 {
        0
    } else {
        count_exprs(s.drop_last()) + count_expr(s.last())
    }
}

/// The folded form of an expression. A binary operation whose two sides fold
/// to literals becomes the literal that the operator gives, or the error node
/// where it gives none; any other binary operation stays as it is. A group
/// around what folds to a literal becomes that literal. Prefix operations,
/// assignments, calls and property accesses fold their children.
pub open spec fn optimize_expr(n: ExprNodeView) -> ExprNodeView
    decreases n,
{
    ExprNodeView {
        token: n.token,
        node: match n.node {
            ExprView::BinOp { op, left, right } => {
                match (optimize_expr(*left).node, optimize_expr(*right).node) {
                    (ExprView::Constant(c1), ExprView::Constant(c2)) => fold_constants_spec(
                        c1,
                        c2,
                        op,
                    ),
                    _ => n.node,
                }
            },
            ExprView::Unary { op, operand } => ExprView::Unary {
                op,
                operand: Box::new(optimize_expr(*operand)),
            },
            ExprView::Assignment { name, value } => ExprView::Assignment {
                name,
                value: Box::new(optimize_expr(*value)),
            },
            ExprView::Call { callee, args } => ExprView::Call {
                callee: Box::new(optimize_expr(*callee)),
                args: optimize_exprs(args),
            },
            ExprView::PropertyAccess { object, property } => ExprView::PropertyAccess {
                object: Box::new(optimize_expr(*object)),
                property,
            },
            ExprView::Grouping(inner) => {
                let folded = optimize_expr(*inner);
                match folded.node {
                    ExprView::Constant(v) => ExprView::Constant(v),
                    _ => ExprView::Grouping(Box::new(folded)),
                }
            },
            ExprView::Constant(_) | ExprView::Var(_) | ExprView::Error => n.node,
        },
    }
}

/// The folded forms of a sequence of expressions, in order.
pub open spec fn optimize_exprs(s: Seq<ExprNodeView>) -> Seq<ExprNodeView>
    decreases s,
{
    if s.len() == 0 {
        Seq::empty()
    } else {
        optimize_exprs(s.drop_last()).push(optimize_expr(s.last()))
    }
}

impl<'a> ExprNode<'a> {
    /// An expression anchored at a token.
    pub fn new(token: Token<'a>, node: Expr<'a>) -> (r: Self)
        ensures
            r.token == token,
            r.node == node,
    {
        Self { token, node }
    }

    /// A copy of the node and of everything below it.
    pub fn duplicate(&self) -> (r: Self)
        ensures
            r@ == self@,
        decreases self,
    {
        let node = match &self.node {
            Expr::Constant(v) => Expr::Constant(v.duplicate()),
            Expr::Var(name) => Expr::Var(*name),
            Expr::BinOp(b) => Expr::BinOp(
                BinaryExpr {
                    op: b.op,
                    left: Box::new(b.left.duplicate()),
                    right: Box::new(b.right.duplicate()),
                },
            ),
            Expr::Unary(u) => Expr::Unary(
                UnaryExpr { op: u.op, operand: Box::new(u.operand.duplicate()) },
            ),
            Expr::Assignment(a) => Expr::Assignment(
                AssignmentExpr { name: a.name, expr: Box::new(a.expr.duplicate()) },
            ),
            Expr::Grouping(inner) => Expr::Grouping(Box::new(inner.duplicate())),
            Expr::Call(c) => {
                let calee = c.calee.duplicate();
                let mut args: Vec<ExprNode<'a>> = Vec::new();
                let mut i: usize = 0;
                while i < c.args.len()
                    invariant
                        0 <= i <= c.args.len(),
                        self.node == Expr::Call(*c),
                        args.len() == i,
                        forall|j: int| 0 <= j < i ==> args@[j]@ == c.args@[j]@,
                    decreases c.args.len() - i,
                {
                    assert(decreases_to!(c.args => c.args[i as int]));
                    assert(self.node->Call_0 == *c);
                    let arg = c.args[i].duplicate();
                    args.push(arg);
                    i = i + 1;
                }
                let r = Expr::Call(CallExpr { calee: Box::new(calee), args });
                assert(r@->Call_args =~= self.node@->Call_args);
                r
            },
            Expr::PropertyAccess(p) => Expr::PropertyAccess(
                PropertyAccessExpr { object: Box::new(p.object.duplicate()), property: p.property },
            ),
            Expr::Error => Expr::Error,
        };
        Self { token: self.token, node }
    }

    /// The number of nodes of the expression, or the largest `usize` where
    /// the count does not fit.
    pub fn count_nodes(&self) -> (n: usize)
        ensures
            n as nat == clamp(count_expr(self@)),
        decreases self,
    {
        let nodes_in_subtrees: usize = match &self.node {
            Expr::Error | Expr::Var(_) | Expr::Constant(_) => 0,
            Expr::Assignment(assignment) => assignment.expr.count_nodes(),
            Expr::Unary(unary) => unary.operand.count_nodes(),
            Expr::Grouping(group) => group.count_nodes(),
            Expr::PropertyAccess(prop) => prop.object.count_nodes(),
            Expr::BinOp(binop) => {
                let left = binop.left.count_nodes();
                let right = binop.right.count_nodes();
                left.saturating_add(right)
            },
            Expr::Call(call) => {
                let calee_nodes = call.calee.count_nodes();
                let ghost views = self@.node->Call_args;
                let mut arg_nodes: usize = 0;
                let mut i: usize = 0;
                while i < call.args.len()
                    invariant
                        0 <= i <= call.args.len(),
                        self.node == Expr::Call(*call),
                        views == self@.node->Call_args,
                        arg_nodes as nat == clamp(count_exprs(views.take(i as int))),
                    decreases call.args.len() - i,
                {
                    assert(decreases_to!(call.args => call.args[i as int]));
                    let k = call.args[i].count_nodes();
                    proof {
                        assert(views.take(i + 1).drop_last() =~= views.take(i as int));
                        assert(views.take(i + 1).last() == call.args@[i as int]@);
                    }
                    arg_nodes = arg_nodes.saturating_add(k);
                    i = i + 1;
                }
                assert(views.take(i as int) =~= views);
                calee_nodes.saturating_add(arg_nodes)
            },
        };
        nodes_in_subtrees.saturating_add(1)
    }

    /// The expression with its constant subtrees folded.
    pub fn optimize(&self) -> (r: Self)
        ensures
            r@ == optimize_expr(self@),
        decreases self,
    {
        let expr = match &self.node {
            Expr::BinOp(binop) => {
                let optimized_left = binop.left.optimize();
                let optimized_right = binop.right.optimize();
                // Fold only where both sides came out as literals.
                match (optimized_left.node, optimized_right.node) {
                    (Expr::Constant(c1), Expr::Constant(c2)) => Expr::fold_constants(
                        c1,
                        c2,
                        binop.op,
                    ),
                    _ => self.duplicate().node,
                }
            },
            Expr::Unary(unary) => {
                let optimized_operand = unary.operand.optimize();
                Expr::Unary(UnaryExpr { op: unary.op, operand: Box::new(optimized_operand) })
            },
            Expr::Assignment(assignment) => {
                let optimized_expr = assignment.expr.optimize();
                Expr::Assignment(
                    AssignmentExpr { name: assignment.name, expr: Box::new(optimized_expr) },
                )
            },
            Expr::Call(call) => {
                let ghost views = self@.node->Call_args;
                let mut optimized_args: Vec<ExprNode<'a>> = Vec::new();
                let mut i: usize = 0;
                while i < call.args.len()
                    invariant
                        0 <= i <= call.args.len(),
                        self.node == Expr::Call(*call),
                        views == self@.node->Call_args,
                        expr_views(optimized_args@) == optimize_exprs(views.take(i as int)),
                    decreases call.args.len() - i,
                {
                    assert(decreases_to!(call.args => call.args[i as int]));
                    let arg = call.args[i].optimize();
                    proof {
                        assert(views.take(i + 1).drop_last() =~= views.take(i as int));
                        assert(views.take(i + 1).last() == call.args@[i as int]@);
                        assert(expr_views(optimized_args@.push(arg)) =~= expr_views(
                            optimized_args@,
                        ).push(arg@));
                    }
                    optimized_args.push(arg);
                    i = i + 1;
                }
                assert(views.take(i as int) =~= views);
                let optimized_calee = call.calee.optimize();
                let r = Expr::Call(
                    CallExpr { calee: Box::new(optimized_calee), args: optimized_args },
                );
                assert(r@->Call_args =~= expr_views(optimized_args@));
                r
            },
            Expr::PropertyAccess(prop) => {
                let optimized_object = prop.object.optimize();
                Expr::PropertyAccess(
                    PropertyAccessExpr {
                        object: Box::new(optimized_object),
                        property: prop.property,
                    },
                )
            },
            Expr::Grouping(group) => {
                let optimized = group.optimize();
                match optimized.node {
                    Expr::Constant(val) => Expr::Constant(val),
                    node => Expr::Grouping(Box::new(ExprNode { token: optimized.token, node })),
                }
            },
            Expr::Error | Expr::Var(_) | Expr::Constant(_) => self.duplicate().node,
        };
        Self { node: expr, token: self.token }
    }
}

impl<'a> Clone for ExprNode<'a> {
    fn clone(&self) -> (r: Self)
        ensures
            r@ == self@,
    {
        self.duplicate()
    }
}

impl<'a> AstNode for ExprNode<'a> {
    open spec fn node_count(&self) -> nat {
        count_expr(self@)
    }

    open spec fn folds_to(&self, folded: &Self) -> bool {
        folded@ == optimize_expr(self@)
    }

    fn count_nodes(&self) -> (n: usize) {
        ExprNode::count_nodes(self)
    }

    fn optimize(&self) -> (folded: Self) {
        ExprNode::optimize(self)
    }
}

} // verus!
