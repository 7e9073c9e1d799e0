use vstd::prelude::*;

use crate::scanner::token::{token_views, Token, TokenView};

use super::ast::{clamp, count_expr, optimize_expr, AstNode, ExprNode, ExprNodeView};

verus! {

/// An `if` statement.
#[derive(Clone)]
pub struct IfStmt<'a> {
    pub condition: ExprNode<'a>,
    pub if_body: Vec<Stmt<'a>>,
    /// empty where the statement has no `else`
    pub else_body: Vec<Stmt<'a>>,
}

/// A `while` statement.
#[derive(Clone)]
pub struct WhileStmt<'a> {
    pub condition: ExprNode<'a>,
    pub body: Vec<Stmt<'a>>,
}

/// A `for` statement; each of its three clauses may be absent.
#[derive(Clone)]
pub struct ForStmt<'a> {
    /// what runs once before the loop
    pub initializer: Option<Box<Stmt<'a>>>,
    /// what decides whether the loop goes on
    pub condition: Option<ExprNode<'a>>,
    /// what runs after each round
    pub increment: Option<ExprNode<'a>>,
    pub body: Vec<Stmt<'a>>,
}

/// A variable declaration.
#[derive(Clone)]
pub struct VarDeclStatement<'a> {
    pub var_name: Token<'a>,
    pub initializer: Option<ExprNode<'a>>,
}

/// A `return` statement.
#[derive(Clone)]
pub struct ReturnStmt<'a> {
    pub value: Option<ExprNode<'a>>,
}

/// A function declaration.
pub struct FuncDeclStatement<'a> {
    pub name: Token<'a>,
    pub parameters: Vec<Token<'a>>,
    pub body: Vec<Stmt<'a>>,
}

/// A class declaration.
#[derive(Clone)]
pub struct ClassDeclStatement<'a> {
    pub name: Token<'a>,
    pub methods: Vec<FuncDeclStatement<'a>>,
}

/// A statement of the source language.
pub enum Stmt<'a> {
    /// A single expression.
    Expression(ExprNode<'a>),
    /// A condition, the statements that run where it holds, and those that
    /// run where it does not.
    If(IfStmt<'a>),
    /// A condition and the statements that run while it holds.
    While(WhileStmt<'a>),
    /// An initializer, a condition, an increment and a body.
    For(ForStmt<'a>),
    /// A variable's name and, where it has one, its initial value.
    VarDecl(VarDeclStatement<'a>),
    /// A return, with its value where it has one.
    Return(ReturnStmt<'a>),
    /// A function's name, parameters and body.
    FuncDecl(FuncDeclStatement<'a>),
    /// A class's name and methods.
    ClassDecl(ClassDeclStatement<'a>),
    /// Stands where no statement could be parsed.
    Error,
}

/// The mathematical model of a function declaration.
pub struct FuncDeclView {
    pub name: TokenView,
    pub params: Seq<TokenView>,
    pub body: Seq<StmtView>,
}

/// The mathematical model of a statement.
#[allow(inconsistent_fields)]
pub enum StmtView {
    Expression(ExprNodeView),
    If { cond: ExprNodeView, then_body: Seq<StmtView>, else_body: Seq<StmtView> },
    While { cond: ExprNodeView, body: Seq<StmtView> },
    For {
        init: Option<Box<StmtView>>,
        cond: Option<ExprNodeView>,
        step: Option<ExprNodeView>,
        body: Seq<StmtView>,
    },
    VarDecl { name: TokenView, init: Option<ExprNodeView> },
    Return { value: Option<ExprNodeView> },
    FuncDecl(FuncDeclView),
    ClassDecl { name: TokenView, methods: Seq<FuncDeclView> },
    Error,
}

/// The model of an expression that may be absent.
pub open spec fn opt_expr_view<'a>(e: Option<ExprNode<'a>>) -> Option<ExprNodeView> {
    match e {
        Some(n) => Some(n@),
        None => None,
    }
}

/// The model of a statement.
pub open spec fn stmt_view<'a>(s: Stmt<'a>) -> StmtView
    decreases s,
{
    match s {
        Stmt::Expression(e) => StmtView::Expression(e@),
        Stmt::If(d) => StmtView::If {
            cond: d.condition@,
            then_body: stmt_views(d.if_body@),
            else_body: stmt_views(d.else_body@),
        },
        Stmt::While(d) => StmtView::While { cond: d.condition@, body: stmt_views(d.body@) },
        Stmt::For(d) => StmtView::For {
            init: match d.initializer {
                Some(b) => Some(Box::new(stmt_view(*b))),
                None => None,
            },
            cond: opt_expr_view(d.condition),
            step: opt_expr_view(d.increment),
            body: stmt_views(d.body@),
        },
        Stmt::VarDecl(d) => StmtView::VarDecl {
            name: d.var_name@,
            init: opt_expr_view(d.initializer),
        },
        Stmt::Return(d) => StmtView::Return { value: opt_expr_view(d.value) },
        Stmt::FuncDecl(d) => StmtView::FuncDecl(func_view(d)),
        Stmt::ClassDecl(d) => StmtView::ClassDecl {
            name: d.name@,
            methods: func_views(d.methods@),
        },
        Stmt::Error => StmtView::Error,
    }
}

/// The models of a sequence of statements, in order.
pub open spec fn stmt_views<'a>(v: Seq<Stmt<'a>>) -> Seq<StmtView>
    decreases v,
{
    Seq::new(
        v.len(),
        |i: int|
            if 0 <= i < v.len() {
                stmt_view(v[i])
            } else {
                arbitrary()
            },
    )
}

/// The model of a function declaration.
pub open spec fn func_view<'a>(f: FuncDeclStatement<'a>) -> FuncDeclView
    decreases f,
{
    FuncDeclView { name: f.name@, params: token_views(f.parameters@), body: stmt_views(f.body@) }
}

/// The models of a sequence of function declarations, in order.
pub open spec fn func_views<'a>(v: Seq<FuncDeclStatement<'a>>) -> Seq<FuncDeclView>
    decreases v,
{
    Seq::new(
        v.len(),
        |i: int|
            if 0 <= i < v.len() {
                func_view(v[i])
            } else {
                arbitrary()
            },
    )
}

impl<'a> View for Stmt<'a> {
    type V = StmtView;

    open spec fn view(&self) -> StmtView {
        stmt_view(*self)
    }
}

impl<'a> View for FuncDeclStatement<'a> {
    type V = FuncDeclView;

    open spec fn view(&self) -> FuncDeclView {
        func_view(*self)
    }
}

/// The number of nodes of an expression that may be absent.
pub open spec fn count_opt_expr(e: Option<ExprNodeView>) -> nat {
    match e {
        Some(n) => count_expr(n),
        None => 0,
    }
}

/// The number of expression nodes that a statement holds: those of its
/// expressions and of the statements in its bodies. The error statement
/// counts as one node.
pub open spec fn count_stmt(s: StmtView) -> nat
    decreases s,
{
    match s {
        StmtView::Error => 1,
        StmtView::Expression(e) => count_expr(e),
        StmtView::FuncDecl(f) => count_stmts(f.body),
        StmtView::ClassDecl { name, methods } => count_funcs(methods),
        StmtView::VarDecl { name, init } => count_opt_expr(init),
        StmtView::Return { value } => count_opt_expr(value),
        StmtView::While { cond, body } => count_expr(cond) + count_stmts(body),
        StmtView::For { init, cond, step, body } => (match init {
            Some(i) => count_stmt(*i),
            None => 0,
        }) + count_opt_expr(cond) + count_opt_expr(step) + count_stmts(body),
        StmtView::If { cond, then_body, else_body } => count_expr(cond) + count_stmts(then_body)
            + count_stmts(else_body),
    }
}

/// The number of expression nodes of a sequence of statements.
pub open spec fn count_stmts(s: Seq<StmtView>) -> nat
    decreases s,
{
    if s.len() == 0 {
        0
    } else {
        count_stmts(s.drop_last()) + count_stmt(s.last())
    }
}

/// The number of expression nodes in the bodies of a sequence of functions.
pub open spec fn count_funcs(s: Seq<FuncDeclView>) -> nat
    decreases s,
{
    if s.len() == 0 {
        0
    } else {
        count_funcs(s.drop_last()) + count_stmts(s.last().body)
    }
}

/// The folded form of an expression that may be absent.
pub open spec fn optimize_opt_expr(e: Option<ExprNodeView>) -> Option<ExprNodeView> {
    match e {
        Some(n) => Some(optimize_expr(n)),
        None => None,
    }
}

/// The folded form of a statement: every expression in it folded, every
/// statement in its bodies folded, and nothing else changed.
pub open spec fn optimize_stmt(s: StmtView) -> StmtView
    decreases s,
{
    match s {
        StmtView::Error => StmtView::Error,
        StmtView::Expression(e) => StmtView::Expression(optimize_expr(e)),
        StmtView::FuncDecl(f) => StmtView::FuncDecl(optimize_func(f)),
        StmtView::ClassDecl { name, methods } => StmtView::ClassDecl {
            name,
            methods: optimize_funcs(methods),
        },
        StmtView::VarDecl { name, init } => StmtView::VarDecl {
            name,
            init: optimize_opt_expr(init),
        },
        StmtView::Return { value } => StmtView::Return { value: optimize_opt_expr(value) },
        StmtView::While { cond, body } => StmtView::While {
            cond: optimize_expr(cond),
            body: optimize_stmts(body),
        },
        StmtView::For { init, cond, step, body } => StmtView::For {
            init: match init {
                Some(i) => Some(Box::new(optimize_stmt(*i))),
                None => None,
            },
            cond: optimize_opt_expr(cond),
            step: optimize_opt_expr(step),
            body: optimize_stmts(body),
        },
        StmtView::If { cond, then_body, else_body } => StmtView::If {
            cond: optimize_expr(cond),
            then_body: optimize_stmts(then_body),
            else_body: optimize_stmts(else_body),
        },
    }
}

/// The folded forms of a sequence of statements, in order.
pub open spec fn optimize_stmts(s: Seq<StmtView>) -> Seq<StmtView>
    decreases s,
{
    if s.len() == 0 {
        Seq::empty()
    } else {
        optimize_stmts(s.drop_last()).push(optimize_stmt(s.last()))
    }
}

/// The folded form of a function declaration: its body folded.
pub open spec fn optimize_func(f: FuncDeclView) -> FuncDeclView
    decreases f,
{
    FuncDeclView { name: f.name, params: f.params, body: optimize_stmts(f.body) }
}

/// The folded forms of a sequence of function declarations, in order.
pub open spec fn optimize_funcs(s: Seq<FuncDeclView>) -> Seq<FuncDeclView>
    decreases s,
{
    if s.len() == 0 {
        Seq::empty()
    } else {
        optimize_funcs(s.drop_last()).push(optimize_func(s.last()))
    }
}

/// The number of nodes of an expression that may be absent.
fn count_opt(e: &Option<ExprNode<'_>>) -> (n: usize)
    ensures
        n as nat == clamp(count_opt_expr(opt_expr_view(*e))),
{
    match e {
        Some(i) => i.count_nodes(),
        None => 0,
    }
}

/// The folded form of an expression that may be absent.
fn optimize_opt<'a>(e: &Option<ExprNode<'a>>) -> (r: Option<ExprNode<'a>>)
    ensures
        opt_expr_view(r) == optimize_opt_expr(opt_expr_view(*e)),
{
    match e {
        Some(i) => Some(i.optimize()),
        None => None,
    }
}

/// The number of expression nodes of a list of statements, or the largest
/// `usize` where the count does not fit.
pub fn count_block(stmts: &Vec<Stmt<'_>>) -> (n: usize)
    ensures
        n as nat == clamp(count_stmts(stmt_views(stmts@))),
    decreases stmts,
{
    let ghost views = stmt_views(stmts@);
    let mut total: usize = 0;
    let mut i: usize = 0;
    while i < stmts.len()
        invariant
            0 <= i <= stmts.len(),
            views == stmt_views(stmts@),
            total as nat == clamp(count_stmts(views.take(i as int))),
        decreases stmts.len() - i,
    {
        assert(decreases_to!(stmts => stmts[i as int]));
        let k = stmts[i].count_nodes();
        proof {
            assert(views.take(i + 1).drop_last() =~= views.take(i as int));
            assert(views.take(i + 1).last() == stmts@[i as int]@);
        }
        total = total.saturating_add(k);
        i = i + 1;
    }
    assert(views.take(i as int) =~= views);
    total
}

/// The folded forms of a list of statements, in order.
pub fn optimize_block<'a>(stmts: &Vec<Stmt<'a>>) -> (r: Vec<Stmt<'a>>)
    ensures
        stmt_views(r@) == optimize_stmts(stmt_views(stmts@)),
    decreases stmts,
{
    let ghost views = stmt_views(stmts@);
    let mut out: Vec<Stmt<'a>> = Vec::new();
    let mut i: usize = 0;
    while i < stmts.len()
        invariant
            0 <= i <= stmts.len(),
            views == stmt_views(stmts@),
            stmt_views(out@) == optimize_stmts(views.take(i as int)),
        decreases stmts.len() - i,
    {
        assert(decreases_to!(stmts => stmts[i as int]));
        let s = stmts[i].optimize();
        proof {
            assert(views.take(i + 1).drop_last() =~= views.take(i as int));
            assert(views.take(i + 1).last() == stmts@[i as int]@);
            assert(stmt_views(out@.push(s)) =~= stmt_views(out@).push(s@));
        }
        out.push(s);
        i = i + 1;
    }
    assert(views.take(i as int) =~= views);
    out
}

/// A copy of a list of tokens.
fn copy_tokens<'a>(tokens: &Vec<Token<'a>>) -> (r: Vec<Token<'a>>)
    ensures
        token_views(r@) == token_views(tokens@),
{
    let mut out: Vec<Token<'a>> = Vec::new();
    let mut i: usize = 0;
    while i < tokens.len()
        invariant
            0 <= i <= tokens.len(),
            out.len() == i,
            forall|j: int| 0 <= j < i ==> out@[j] == tokens@[j],
        decreases tokens.len() - i,
    {
        out.push(tokens[i]);
        i = i + 1;
    }
    assert(token_views(out@) =~= token_views(tokens@));
    out
}

/// The number of expression nodes in the bodies of a list of functions.
fn count_methods(methods: &Vec<FuncDeclStatement<'_>>) -> (n: usize)
    ensures
        n as nat == clamp(count_funcs(func_views(methods@))),
    decreases methods,
{
    let ghost views = func_views(methods@);
    let mut total: usize = 0;
    let mut i: usize = 0;
    while i < methods.len()
        invariant
            0 <= i <= methods.len(),
            views == func_views(methods@),
            total as nat == clamp(count_funcs(views.take(i as int))),
        decreases methods.len() - i,
    {
        assert(decreases_to!(methods => methods[i as int]));
        let k = count_block(&methods[i].body);
        proof {
            assert(views.take(i + 1).drop_last() =~= views.take(i as int));
            assert(views.take(i + 1).last() == methods@[i as int]@);
        }
        total = total.saturating_add(k);
        i = i + 1;
    }
    assert(views.take(i as int) =~= views);
    total
}

/// The folded forms of a list of functions, in order.
fn optimize_methods<'a>(methods: &Vec<FuncDeclStatement<'a>>) -> (r: Vec<FuncDeclStatement<'a>>)
    ensures
        func_views(r@) == optimize_funcs(func_views(methods@)),
    decreases methods,
{
    let ghost views = func_views(methods@);
    let mut out: Vec<FuncDeclStatement<'a>> = Vec::new();
    let mut i: usize = 0;
    while i < methods.len()
        invariant
            0 <= i <= methods.len(),
            views == func_views(methods@),
            func_views(out@) == optimize_funcs(views.take(i as int)),
        decreases methods.len() - i,
    {
        assert(decreases_to!(methods => methods[i as int]));
        let m = methods[i].optimize();
        proof {
            assert(views.take(i + 1).drop_last() =~= views.take(i as int));
            assert(views.take(i + 1).last() == methods@[i as int]@);
            assert(func_views(out@.push(m)) =~= func_views(out@).push(m@));
        }
        out.push(m);
        i = i + 1;
    }
    assert(views.take(i as int) =~= views);
    out
}

/// A copy of an expression that may be absent.
fn duplicate_opt<'a>(e: &Option<ExprNode<'a>>) -> (r: Option<ExprNode<'a>>)
    ensures
        opt_expr_view(r) == opt_expr_view(*e),
{
    match e {
        Some(i) => Some(i.duplicate()),
        None => None,
    }
}

/// A copy of a list of statements.
fn duplicate_block<'a>(stmts: &Vec<Stmt<'a>>) -> (r: Vec<Stmt<'a>>)
    ensures
        stmt_views(r@) == stmt_views(stmts@),
    decreases stmts,
{
    let mut out: Vec<Stmt<'a>> = Vec::new();
    let mut i: usize = 0;
    while i < stmts.len()
        invariant
            0 <= i <= stmts.len(),
            out.len() == i,
            forall|j: int| 0 <= j < i ==> out@[j]@ == stmts@[j]@,
        decreases stmts.len() - i,
    {
        assert(decreases_to!(stmts => stmts[i as int]));
        let s = stmts[i].duplicate();
        out.push(s);
        i = i + 1;
    }
    assert(stmt_views(out@) =~= stmt_views(stmts@));
    out
}

/// A copy of a list of function declarations.
fn duplicate_methods<'a>(methods: &Vec<FuncDeclStatement<'a>>) -> (r: Vec<FuncDeclStatement<'a>>)
    ensures
        func_views(r@) == func_views(methods@),
    decreases methods,
{
    let mut out: Vec<FuncDeclStatement<'a>> = Vec::new();
    let mut i: usize = 0;
    while i < methods.len()
        invariant
            0 <= i <= methods.len(),
            out.len() == i,
            forall|j: int| 0 <= j < i ==> out@[j]@ == methods@[j]@,
        decreases methods.len() - i,
    {
        assert(decreases_to!(methods => methods[i as int]));
        let m = methods[i].duplicate();
        out.push(m);
        i = i + 1;
    }
    assert(func_views(out@) =~= func_views(methods@));
    out
}

impl<'a> Clone for FuncDeclStatement<'a> {
    fn clone(&self) -> (r: Self)
        ensures
            r@ == self@,
    {
        self.duplicate()
    }
}

impl<'a> Clone for Stmt<'a> {
    fn clone(&self) -> (r: Self)
        ensures
            r@ == self@,
    {
        self.duplicate()
    }
}

impl<'a> FuncDeclStatement<'a> {
    /// A copy of the declaration and of everything below it.
    pub fn duplicate(&self) -> (r: Self)
        ensures
            r@ == self@,
        decreases self,
    {
        FuncDeclStatement {
            name: self.name,
            parameters: copy_tokens(&self.parameters),
            body: duplicate_block(&self.body),
        }
    }

    /// The declaration with its body folded.
    pub fn optimize(&self) -> (r: Self)
        ensures
            r@ == optimize_func(self@),
        decreases self,
    {
        FuncDeclStatement {
            name: self.name,
            parameters: copy_tokens(&self.parameters),
            body: optimize_block(&self.body),
        }
    }
}

impl<'a> Stmt<'a> {
    /// A copy of the statement and of everything below it.
    pub fn duplicate(&self) -> (r: Self)
        ensures
            r@ == self@,
        decreases self,
    {
        match self {
            Stmt::Error => Stmt::Error,
            Stmt::Expression(expr) => Stmt::Expression(expr.duplicate()),
            Stmt::FuncDecl(func) => Stmt::FuncDecl(func.duplicate()),
            Stmt::ClassDecl(class) => Stmt::ClassDecl(
                ClassDeclStatement { name: class.name, methods: duplicate_methods(&class.methods) },
            ),
            Stmt::VarDecl(var) => Stmt::VarDecl(
                VarDeclStatement {
                    var_name: var.var_name,
                    initializer: duplicate_opt(&var.initializer),
                },
            ),
            Stmt::Return(ret) => Stmt::Return(ReturnStmt { value: duplicate_opt(&ret.value) }),
            Stmt::While(wh) => Stmt::While(
                WhileStmt { condition: wh.condition.duplicate(), body: duplicate_block(&wh.body) },
            ),
            Stmt::For(payload) => {
                let initializer = match &payload.initializer {
                    Some(init) => Some(Box::new(init.duplicate())),
                    None => None,
                };
                Stmt::For(
                    ForStmt {
                        initializer,
                        condition: duplicate_opt(&payload.condition),
                        increment: duplicate_opt(&payload.increment),
                        body: duplicate_block(&payload.body),
                    },
                )
            },
            Stmt::If(payload) => Stmt::If(
                IfStmt {
                    condition: payload.condition.duplicate(),
                    if_body: duplicate_block(&payload.if_body),
                    else_body: duplicate_block(&payload.else_body),
                },
            ),
        }
    }

    /// The number of expression nodes of the statement, or the largest
    /// `usize` where the count does not fit.
    pub fn count_nodes(&self) -> (n: usize)
        ensures
            n as nat == clamp(count_stmt(self@)),
        decreases self,
    {
        match self {
            Stmt::Error => 1,
            Stmt::Expression(expr) => expr.count_nodes(),
            Stmt::FuncDecl(func) => {
                assert(func@.body == stmt_views(func.body@));
                count_block(&func.body)
            },
            Stmt::ClassDecl(class) => count_methods(&class.methods),
            Stmt::VarDecl(var) => count_opt(&var.initializer),
            Stmt::Return(ret) => count_opt(&ret.value),
            Stmt::While(wh) => {
                let condition = wh.condition.count_nodes();
                let body = count_block(&wh.body);
                condition.saturating_add(body)
            },
            Stmt::For(payload) => {
                let initializer = match &payload.initializer {
                    Some(init) => init.count_nodes(),
                    None => 0,
                };
                let condition = count_opt(&payload.condition);
                let increment = count_opt(&payload.increment);
                let body = count_block(&payload.body);
                initializer.saturating_add(condition).saturating_add(increment).saturating_add(
                    body,
                )
            },
            Stmt::If(payload) => {
                let condition = payload.condition.count_nodes();
                let if_body = count_block(&payload.if_body);
                let else_body = count_block(&payload.else_body);
                condition.saturating_add(if_body).saturating_add(else_body)
            },
        }
    }

    /// The statement with the constant subtrees of its expressions folded.
    pub fn optimize(&self) -> (r: Self)
        ensures
            r@ == optimize_stmt(self@),
        decreases self,
    {
        match self {
            Stmt::Error => Stmt::Error,
            Stmt::Expression(expr) => Stmt::Expression(expr.optimize()),
            Stmt::FuncDecl(func) => Stmt::FuncDecl(func.optimize()),
            Stmt::ClassDecl(class) => Stmt::ClassDecl(
                ClassDeclStatement { name: class.name, methods: optimize_methods(&class.methods) },
            ),
            Stmt::VarDecl(var) => Stmt::VarDecl(
                VarDeclStatement {
                    var_name: var.var_name,
                    initializer: optimize_opt(&var.initializer),
                },
            ),
            Stmt::Return(ret) => Stmt::Return(ReturnStmt { value: optimize_opt(&ret.value) }),
            Stmt::While(wh) => Stmt::While(
                WhileStmt { condition: wh.condition.optimize(), body: optimize_block(&wh.body) },
            ),
            Stmt::For(payload) => {
                let initializer = match &payload.initializer {
                    Some(init) => Some(Box::new(init.optimize())),
                    None => None,
                };
                Stmt::For(
                    ForStmt {
                        initializer,
                        condition: optimize_opt(&payload.condition),
                        increment: optimize_opt(&payload.increment),
                        body: optimize_block(&payload.body),
                    },
                )
            },
            Stmt::If(payload) => Stmt::If(
                IfStmt {
                    condition: payload.condition.optimize(),
                    if_body: optimize_block(&payload.if_body),
                    else_body: optimize_block(&payload.else_body),
                },
            ),
        }
    }
}

impl<'a> AstNode for Stmt<'a> {
    open spec fn node_count(&self) -> nat {
        count_stmt(self@)
    }

    open spec fn folds_to(&self, folded: &Self) -> bool {
        folded@ == optimize_stmt(self@)
    }

    fn count_nodes(&self) -> (n: usize) {
        Stmt::count_nodes(self)
    }

    fn optimize(&self) -> (folded: Self) {
        Stmt::optimize(self)
    }
}

} // verus!
