//! The listing of a syntax tree as indented text, two spaces to a level.

use vstd::prelude::*;
use vstd::string::*;

use crate::scanner::token::{token_views, Token, TokenView};
use crate::text::{push_signed_decimal, signed_decimal, trim_end, trimmed};

use super::ast::{ExprNode, ExprNodeView};
use super::expressions::{Expr, ExprView, Value, ValueView};
use super::statements::{
    func_views, stmt_views, FuncDeclStatement, FuncDeclView, Stmt,
    StmtView,
};

verus! {

/// The indentation of a level: two spaces for each level.
pub open spec fn blanks(level: nat) -> Seq<char> {
    Seq::new(2 * level, |i: int| ' ')
}

/// The text of a literal in a listing.
pub open spec fn value_text(v: ValueView) -> Seq<char> {
    match v {
        ValueView::StringLiteral(l) => l,
        ValueView::Nil => "Nil"@,
        ValueView::Bool(b) => if b {
            "true"@
        } else {
            "false"@
        },
        ValueView::Number(n) => signed_decimal(n),
    }
}

/// The listing of an expression at a level of indentation.
pub open spec fn yaml_expr(e: ExprView, level: nat) -> Seq<char>
    decreases e,
{
    let spaces = blanks(level);
    let indent = blanks(level + 1);
    match e {
        ExprView::Error => spaces + "ERROR"@,
        ExprView::Var(name) => spaces + "Var: "@ + name,
        ExprView::Call { callee, args } => {
            let s = spaces + "Call:\n"@ + indent + "Calee:\n"@ + yaml_expr(callee.node, level + 2);
            let s = if args.len() == 0 {
                s + "\n"@ + indent + "Args: []"@
            } else {
                s + "\n"@ + indent + "Args: ["@ + yaml_args(args, level + 2) + "\n"@ + indent
                    + "]"@
            };
            trimmed(s)
        },
        ExprView::Constant(v) => spaces + "Constant: "@ + value_text(v),
        ExprView::Unary { op, operand } => spaces + "Unary:\n"@ + indent + "Op: '"@ + op.text()
            + "'\n"@ + indent + "Expr:\n"@ + yaml_expr(operand.node, level + 2),
        ExprView::Grouping(inner) => spaces + "Group:\n"@ + yaml_expr(inner.node, level + 1),
        ExprView::Assignment { name, value } => spaces + "Assignment:\n"@ + indent + "Name: "@
            + name.text() + "\n"@ + indent + "Val:\n"@ + yaml_expr(value.node, level + 2),
        ExprView::BinOp { op, left, right } => spaces + "BinOp:\n"@ + indent + "Op: '"@
            + op.text() + "'"@ + "\n"@ + indent + "Lhs:\n"@ + yaml_expr(left.node, level + 2)
            + "\n"@ + indent + "Rhs:\n"@ + yaml_expr(right.node, level + 2),
        ExprView::PropertyAccess { object, property } => spaces + "PropAccess:\n"@ + indent
            + "Obj:\n"@ + yaml_expr(object.node, level + 2) + "\n"@ + indent + "Prop: "@
            + property.text(),
    }
}

/// The listings of the arguments of a call, each on a line of its own.
pub open spec fn yaml_args(args: Seq<ExprNodeView>, level: nat) -> Seq<char>
    decreases args,
{
    if args.len() == 0 {
        Seq::empty()
    } else {
        yaml_args(args.drop_last(), level) + "\n"@ + trimmed(yaml_expr(args.last().node, level))
    }
}

/// The listing of an expression that may be absent.
pub open spec fn yaml_opt_expr(e: Option<ExprNodeView>, level: nat) -> Seq<char> {
    match e {
        Some(n) => yaml_expr(n.node, level),
        None => blanks(level) + "None"@,
    }
}

/// The first `n` of a sequence of names, with a comma and a space between
/// them.
pub open spec fn joined(names: Seq<TokenView>, n: nat) -> Seq<char>
    decreases n,
{
    if n == 0 || n > names.len() {
        Seq::empty()
    } else if n == 1 {
        names[0].text()
    } else {
        joined(names, (n - 1) as nat) + ", "@ + names[n - 1].text()
    }
}

/// The listing of a statement at a level of indentation.
pub open spec fn yaml_stmt(s: StmtView, level: nat) -> Seq<char>
    decreases s,
{
    let spaces = blanks(level);
    let indent = blanks(level + 1);
    match s {
        StmtView::If { cond, then_body, else_body } => {
            let s = spaces + "IfStmt:\n"@ + indent + "Condition:\n"@ + yaml_expr(
                cond.node,
                level + 2,
            ) + "\n"@ + indent + "If:"@ + yaml_body(then_body, level + 1);
            let s = if else_body.len() > 0 {
                s + "\n"@ + indent + "Else:"@ + yaml_body(else_body, level + 1)
            } else {
                s
            };
            trimmed(s)
        },
        StmtView::Expression(e) => trimmed(yaml_expr(e.node, level + 1)),
        StmtView::While { cond, body } => trimmed(
            spaces + "WhileStmt:\n"@ + indent + "Condition:\n"@ + yaml_expr(cond.node, level + 2)
                + "\n"@ + indent + "Body:"@ + yaml_body(body, level + 1),
        ),
        StmtView::For { init, cond, step, body } => {
            let s = spaces + "ForStmt:\n"@ + indent + "Initializer:\n"@;
            let s = match init {
                Some(i) => s + yaml_stmt(*i, level + 1),
                None => s + blanks(level + 2) + "None"@,
            };
            trimmed(
                s + "\n"@ + indent + "Condition:\n"@ + yaml_opt_expr(cond, level + 2) + "\n"@
                    + indent + "Increment:\n"@ + yaml_opt_expr(step, level + 2) + "\n"@ + indent
                    + "Body:"@ + yaml_body(body, level + 1),
            )
        },
        StmtView::VarDecl { name, init } => trimmed(
            spaces + "VarDeclStmt:\n"@ + indent + "Var: "@ + name.text() + "\n"@ + indent
                + "Initializer:\n"@ + yaml_opt_expr(init, level + 2),
        ),
        StmtView::Return { value } => {
            let s = spaces + "Return:\n"@;
            trimmed(
                match value {
                    Some(n) => s + yaml_expr(n.node, level + 1),
                    None => s + blanks(level + 2) + "None"@,
                },
            )
        },
        StmtView::FuncDecl(f) => yaml_func(f, level),
        StmtView::ClassDecl { name, methods } => {
            let s = spaces + "Class:\n"@ + indent + "Name: "@ + name.text();
            let s = if methods.len() == 0 {
                s + "\n"@ + indent + "Methods: []"@
            } else {
                s + "\n"@ + indent + "Methods: ["@ + yaml_methods(methods, level + 2) + indent
                    + "]"@
            };
            trimmed(s)
        },
        StmtView::Error => spaces + "ERROR"@,
    }
}

/// The listing of a function declaration at a level of indentation.
pub open spec fn yaml_func(f: FuncDeclView, level: nat) -> Seq<char>
    decreases f,
{
    let spaces = blanks(level);
    let indent = blanks(level + 1);
    let s = spaces + "Func:\n"@ + indent + "Name: "@ + f.name.text();
    let s = if f.params.len() == 0 {
        s + "\n"@ + indent + "Params: []"@
    } else {
        s + "\n"@ + indent + "Params: [ "@ + joined(f.params, f.params.len()) + " ]"@
    };
    let s = if f.body.len() == 0 {
        s + "\n"@ + indent + "Body: []"@
    } else {
        s + "\n"@ + indent + "Body: ["@ + yaml_members(f.body, level + 2) + indent + "]"@
    };
    trimmed(s)
}

/// The listings of the statements of a body, each between two line feeds.
pub open spec fn yaml_body(stmts: Seq<StmtView>, level: nat) -> Seq<char>
    decreases stmts,
{
    if stmts.len() == 0 {
        Seq::empty()
    } else {
        yaml_body(stmts.drop_last(), level) + "\n"@ + trimmed(yaml_stmt(stmts.last(), level))
            + "\n"@
    }
}

/// The listings of the statements of a function, each followed by a comma.
pub open spec fn yaml_members(stmts: Seq<StmtView>, level: nat) -> Seq<char>
    decreases stmts,
{
    if stmts.len() == 0 {
        Seq::empty()
    } else {
        yaml_members(stmts.drop_last(), level) + "\n"@ + trimmed(yaml_stmt(stmts.last(), level))
            + ",\n"@
    }
}

/// The listings of the methods of a class, each followed by a comma.
pub open spec fn yaml_methods(funcs: Seq<FuncDeclView>, level: nat) -> Seq<char>
    decreases funcs,
{
    if funcs.len() == 0 {
        Seq::empty()
    } else {
        yaml_methods(funcs.drop_last(), level) + "\n"@ + trimmed(yaml_func(funcs.last(), level))
            + ",\n"@
    }
}

/// The indentation of a level.
fn blank_string(level: usize) -> (r: String)
    ensures
        r@ == blanks(level as nat),
{
    let mut s = String::new();
    let mut i: usize = 0;
    assert(s@ =~= blanks(0));
    while i < level
        invariant
            0 <= i <= level,
            s@ == blanks(i as nat),
        decreases level - i,
    {
        proof {
            reveal_strlit("  ");
        }
        s.append("  ");
        i = i + 1;
        assert(s@ =~= blanks(i as nat));
    }
    s
}

/// The indentation of the level below.
fn deeper(spaces: &str, Ghost(level): Ghost<nat>) -> (r: String)
    requires
        spaces@ == blanks(level),
    ensures
        r@ == blanks(level + 1),
{
    proof {
        reveal_strlit("  ");
    }
    let mut s = String::from_str(spaces);
    s.append("  ");
    assert(s@ =~= blanks(level + 1));
    s
}

/// The text of a literal in a listing.
fn value_string(v: &Value) -> (r: String)
    ensures
        r@ == value_text(v@),
{
    match v {
        Value::StringLiteral(l) => l.clone(),
        Value::Nil => String::from_str("Nil"),
        Value::Bool(b) => if *b {
            String::from_str("true")
        } else {
            String::from_str("false")
        },
        Value::Number(n) => {
            let mut s = String::new();
            push_signed_decimal(&mut s, *n);
            assert(s@ =~= signed_decimal(*n as int));
            s
        },
    }
}

/// The listing of an expression that may be absent.
fn opt_expr_yaml(e: &Option<ExprNode<'_>>, spaces: &str, Ghost(level): Ghost<nat>) -> (r: String)
    requires
        spaces@ == blanks(level),
    ensures
        r@ == yaml_opt_expr(
            match *e {
                Some(n) => Some(n@),
                None => None,
            },
            level,
        ),
{
    match e {
        Some(n) => n.node.yaml(spaces, Ghost(level)),
        None => {
            let mut s = String::from_str(spaces);
            s.append("None");
            s
        },
    }
}

impl<'a> Expr<'a> {
    /// The listing of the expression, indented by `level` levels.
    pub fn to_yaml(&self, level: usize) -> (r: String)
        ensures
            r@ == yaml_expr(self@, level as nat),
    {
        let spaces = blank_string(level);
        self.yaml(spaces.as_str(), Ghost(level as nat))
    }

    /// The listing of the expression behind the given indentation.
    pub(crate) fn yaml(&self, spaces: &str, Ghost(level): Ghost<nat>) -> (r: String)
        requires
            spaces@ == blanks(level),
        ensures
            r@ == yaml_expr(self@, level),
        decreases self,
    {
        let indent = deeper(spaces, Ghost(level));
        let below = deeper(indent.as_str(), Ghost(level + 1));
        let mut s = String::from_str(spaces);
        match self {
            Expr::Error => {
                s.append("ERROR");
                s
            },
            Expr::Var(var) => {
                s.append("Var: ");
                s.append(var);
                s
            },
            Expr::Call(call) => {
                s.append("Call:\n");
                s.append(indent.as_str());
                s.append("Calee:\n");
                let calee = call.calee.node.yaml(below.as_str(), Ghost(level + 2));
                s.append(calee.as_str());
                s.append("\n");
                s.append(indent.as_str());
                let ghost views = self@->Call_args;
                if call.args.len() == 0 {
                    s.append("Args: []");
                } else {
                    s.append("Args: [");
                    let ghost head = s@;
                    let mut i: usize = 0;
                    assert(s@ =~= head + yaml_args(views.take(0), level + 2));
                    while i < call.args.len()
                        invariant
                            0 <= i <= call.args.len(),
                            self is Call,
                            self->Call_0 == *call,
                            views == self@->Call_args,
                            views.len() == call.args.len(),
                            below@ == blanks(level + 2),
                            s@ == head + yaml_args(views.take(i as int), level + 2),
                        decreases call.args.len() - i,
                    {
                        assert(decreases_to!(call.args => call.args[i as int]));
                        let arg = call.args[i].node.yaml(below.as_str(), Ghost(level + 2));
                        proof {
                            assert(views.take(i + 1).drop_last() =~= views.take(i as int));
                            assert(views.take(i + 1).last() == call.args@[i as int]@);
                        }
                        s.append("\n");
                        s.append(trim_end(arg.as_str()));
                        i = i + 1;
                        assert(s@ =~= head + yaml_args(views.take(i as int), level + 2));
                    }
                    assert(views.take(i as int) =~= views);
                    s.append("\n");
                    s.append(indent.as_str());
                    s.append("]");
                }
                String::from_str(trim_end(s.as_str()))
            },
            Expr::Constant(val) => {
                s.append("Constant: ");
                s.append(value_string(val).as_str());
                s
            },
            Expr::Unary(unary) => {
                s.append("Unary:\n");
                s.append(indent.as_str());
                s.append("Op: '");
                s.append(unary.op.as_str());
                s.append("'\n");
                s.append(indent.as_str());
                s.append("Expr:\n");
                s.append(unary.operand.node.yaml(below.as_str(), Ghost(level + 2)).as_str());
                s
            },
            Expr::Grouping(expr) => {
                s.append("Group:\n");
                s.append(expr.node.yaml(indent.as_str(), Ghost(level + 1)).as_str());
                s
            },
            Expr::Assignment(a) => {
                s.append("Assignment:\n");
                s.append(indent.as_str());
                s.append("Name: ");
                s.append(a.name.text());
                s.append("\n");
                s.append(indent.as_str());
                s.append("Val:\n");
                s.append(a.expr.node.yaml(below.as_str(), Ghost(level + 2)).as_str());
                s
            },
            Expr::BinOp(bin) => {
                s.append("BinOp:\n");
                s.append(indent.as_str());
                s.append("Op: '");
                s.append(bin.op.as_str());
                s.append("'");
                s.append("\n");
                s.append(indent.as_str());
                s.append("Lhs:\n");
                s.append(bin.left.node.yaml(below.as_str(), Ghost(level + 2)).as_str());
                s.append("\n");
                s.append(indent.as_str());
                s.append("Rhs:\n");
                s.append(bin.right.node.yaml(below.as_str(), Ghost(level + 2)).as_str());
                s
            },
            Expr::PropertyAccess(prop) => {
                s.append("PropAccess:\n");
                s.append(indent.as_str());
                s.append("Obj:\n");
                s.append(prop.object.node.yaml(below.as_str(), Ghost(level + 2)).as_str());
                s.append("\n");
                s.append(indent.as_str());
                s.append("Prop: ");
                s.append(prop.property.text());
                s
            },
        }
    }
}

impl<'a> Expr<'a> {
    /// The listing of the expression, between two line feeds.
    pub fn to_string(&self) -> (r: String)
        ensures
            r@ == "\n"@ + yaml_expr(self@, 0) + "\n"@,
    {
        let mut s = String::from_str("\n");
        s.append(self.to_yaml(0).as_str());
        s.append("\n");
        s
    }
}

impl<'a> ExprNode<'a> {
    /// The listing of the expression, between two line feeds.
    pub fn to_string(&self) -> (r: String)
        ensures
            r@ == "\n"@ + yaml_expr(self@.node, 0) + "\n"@,
    {
        self.node.to_string()
    }
}

/// The listings of the statements of a body, each between two line feeds.
fn body_yaml(stmts: &Vec<Stmt<'_>>, spaces: &str, Ghost(level): Ghost<nat>) -> (r: String)
    requires
        spaces@ == blanks(level),
    ensures
        r@ == yaml_body(stmt_views(stmts@), level),
    decreases stmts,
{
    let ghost views = stmt_views(stmts@);
    let mut s = String::new();
    let mut i: usize = 0;
    assert(s@ =~= yaml_body(views.take(0), level));
    while i < stmts.len()
        invariant
            0 <= i <= stmts.len(),
            views == stmt_views(stmts@),
            spaces@ == blanks(level),
            s@ == yaml_body(views.take(i as int), level),
        decreases stmts.len() - i,
    {
        assert(decreases_to!(stmts => stmts[i as int]));
        let item = stmts[i].yaml(spaces, Ghost(level));
        proof {
            assert(views.take(i + 1).drop_last() =~= views.take(i as int));
            assert(views.take(i + 1).last() == stmts@[i as int]@);
        }
        s.append("\n");
        s.append(trim_end(item.as_str()));
        s.append("\n");
        i = i + 1;
    }
    assert(views.take(i as int) =~= views);
    s
}

/// The listings of the statements of a function, each followed by a comma.
fn members_yaml(stmts: &Vec<Stmt<'_>>, spaces: &str, Ghost(level): Ghost<nat>) -> (r: String)
    requires
        spaces@ == blanks(level),
    ensures
        r@ == yaml_members(stmt_views(stmts@), level),
    decreases stmts,
{
    let ghost views = stmt_views(stmts@);
    let mut s = String::new();
    let mut i: usize = 0;
    assert(s@ =~= yaml_members(views.take(0), level));
    while i < stmts.len()
        invariant
            0 <= i <= stmts.len(),
            views == stmt_views(stmts@),
            spaces@ == blanks(level),
            s@ == yaml_members(views.take(i as int), level),
        decreases stmts.len() - i,
    {
        assert(decreases_to!(stmts => stmts[i as int]));
        let item = stmts[i].yaml(spaces, Ghost(level));
        proof {
            assert(views.take(i + 1).drop_last() =~= views.take(i as int));
            assert(views.take(i + 1).last() == stmts@[i as int]@);
        }
        s.append("\n");
        s.append(trim_end(item.as_str()));
        s.append(",\n");
        i = i + 1;
    }
    assert(views.take(i as int) =~= views);
    s
}

/// The listings of the methods of a class, each followed by a comma.
fn methods_yaml(funcs: &Vec<FuncDeclStatement<'_>>, spaces: &str, Ghost(level): Ghost<nat>) -> (r:
    String)
    requires
        spaces@ == blanks(level),
    ensures
        r@ == yaml_methods(func_views(funcs@), level),
    decreases funcs,
{
    let ghost views = func_views(funcs@);
    let mut s = String::new();
    let mut i: usize = 0;
    assert(s@ =~= yaml_methods(views.take(0), level));
    while i < funcs.len()
        invariant
            0 <= i <= funcs.len(),
            views == func_views(funcs@),
            spaces@ == blanks(level),
            s@ == yaml_methods(views.take(i as int), level),
        decreases funcs.len() - i,
    {
        assert(decreases_to!(funcs => funcs[i as int]));
        let item = funcs[i].yaml(spaces, Ghost(level));
        proof {
            assert(views.take(i + 1).drop_last() =~= views.take(i as int));
            assert(views.take(i + 1).last() == funcs@[i as int]@);
        }
        s.append("\n");
        s.append(trim_end(item.as_str()));
        s.append(",\n");
        i = i + 1;
    }
    assert(views.take(i as int) =~= views);
    s
}

/// The names of the parameters, with a comma and a space between them.
fn params_string(params: &Vec<Token<'_>>) -> (r: String)
    ensures
        r@ == joined(token_views(params@), params@.len()),
{
    let ghost views = token_views(params@);
    let mut s = String::new();
    let mut idx: usize = 0;
    assert(s@ =~= joined(views, 0));
    while idx < params.len()
        invariant
            0 <= idx <= params.len(),
            views == token_views(params@),
            s@ == joined(views, idx as nat),
        decreases params.len() - idx,
    {
        if idx > 0 {
            s.append(", ");
        }
        s.append(params[idx].text());
        idx = idx + 1;
        assert(s@ =~= joined(views, idx as nat));
    }
    s
}

impl<'a> FuncDeclStatement<'a> {
    /// The listing of the declaration behind the given indentation.
    pub(crate) fn yaml(&self, spaces: &str, Ghost(level): Ghost<nat>) -> (r: String)
        requires
            spaces@ == blanks(level),
        ensures
            r@ == yaml_func(self@, level),
        decreases self,
    {
        let indent = deeper(spaces, Ghost(level));
        let below = deeper(indent.as_str(), Ghost(level + 1));
        let mut s = String::from_str(spaces);
        s.append("Func:\n");
        s.append(indent.as_str());
        s.append("Name: ");
        s.append(self.name.text());
        s.append("\n");
        s.append(indent.as_str());
        if self.parameters.len() == 0 {
            s.append("Params: []");
        } else {
            s.append("Params: [ ");
            s.append(params_string(&self.parameters).as_str());
            s.append(" ]");
        }
        s.append("\n");
        s.append(indent.as_str());
        if self.body.len() == 0 {
            s.append("Body: []");
        } else {
            s.append("Body: [");
            s.append(members_yaml(&self.body, below.as_str(), Ghost(level + 2)).as_str());
            s.append(indent.as_str());
            s.append("]");
        }
        proof {
            let f = self@;
            assert(f == (FuncDeclView {
                name: self.name@,
                params: token_views(self.parameters@),
                body: stmt_views(self.body@),
            }));
        }
        String::from_str(trim_end(s.as_str()))
    }
}

impl<'a> Stmt<'a> {
    /// The listing of the statement, indented by `level` levels.
    pub fn to_yaml(&self, level: usize) -> (r: String)
        ensures
            r@ == yaml_stmt(self@, level as nat),
    {
        let spaces = blank_string(level);
        self.yaml(spaces.as_str(), Ghost(level as nat))
    }

    /// The listing of the statement, between two line feeds.
    pub fn to_string(&self) -> (r: String)
        ensures
            r@ == "\n"@ + yaml_stmt(self@, 0) + "\n"@,
    {
        let mut s = String::from_str("\n");
        s.append(self.to_yaml(0).as_str());
        s.append("\n");
        s
    }

    /// The listing of the statement behind the given indentation.
    pub(crate) fn yaml(&self, spaces: &str, Ghost(level): Ghost<nat>) -> (r: String)
        requires
            spaces@ == blanks(level),
        ensures
            r@ == yaml_stmt(self@, level),
        decreases self,
    {
        let indent = deeper(spaces, Ghost(level));
        let below = deeper(indent.as_str(), Ghost(level + 1));
        let mut s = String::from_str(spaces);
        match self {
            Stmt::If(data) => {
                s.append("IfStmt:\n");
                s.append(indent.as_str());
                s.append("Condition:\n");
                s.append(data.condition.node.yaml(below.as_str(), Ghost(level + 2)).as_str());
                s.append("\n");
                s.append(indent.as_str());
                s.append("If:");
                s.append(body_yaml(&data.if_body, indent.as_str(), Ghost(level + 1)).as_str());
                assert(stmt_views(data.else_body@).len() == data.else_body@.len());
                if data.else_body.len() > 0 {
                    s.append("\n");
                    s.append(indent.as_str());
                    s.append("Else:");
                    s.append(
                        body_yaml(&data.else_body, indent.as_str(), Ghost(level + 1)).as_str(),
                    );
                }
                let r = String::from_str(trim_end(s.as_str()));
                assert(r@ == yaml_stmt(self@, level));
                r
            },
            Stmt::Expression(expr) => {
                let text = expr.node.yaml(indent.as_str(), Ghost(level + 1));
                let r = String::from_str(trim_end(text.as_str()));
                assert(r@ == yaml_stmt(self@, level));
                r
            },
            Stmt::While(data) => {
                s.append("WhileStmt:\n");
                s.append(indent.as_str());
                s.append("Condition:\n");
                s.append(data.condition.node.yaml(below.as_str(), Ghost(level + 2)).as_str());
                s.append("\n");
                s.append(indent.as_str());
                s.append("Body:");
                s.append(body_yaml(&data.body, indent.as_str(), Ghost(level + 1)).as_str());
                let r = String::from_str(trim_end(s.as_str()));
                assert(r@ == yaml_stmt(self@, level));
                r
            },
            Stmt::For(data) => {
                s.append("ForStmt:\n");
                s.append(indent.as_str());
                s.append("Initializer:\n");
                match &data.initializer {
                    Some(node) => {
                        s.append(node.yaml(indent.as_str(), Ghost(level + 1)).as_str());
                    },
                    None => {
                        s.append(below.as_str());
                        s.append("None");
                    },
                }
                s.append("\n");
                s.append(indent.as_str());
                s.append("Condition:\n");
                s.append(
                    opt_expr_yaml(&data.condition, below.as_str(), Ghost(level + 2)).as_str(),
                );
                s.append("\n");
                s.append(indent.as_str());
                s.append("Increment:\n");
                s.append(
                    opt_expr_yaml(&data.increment, below.as_str(), Ghost(level + 2)).as_str(),
                );
                s.append("\n");
                s.append(indent.as_str());
                s.append("Body:");
                s.append(body_yaml(&data.body, indent.as_str(), Ghost(level + 1)).as_str());
                let r = String::from_str(trim_end(s.as_str()));
                assert(r@ == yaml_stmt(self@, level));
                r
            },
            Stmt::VarDecl(data) => {
                s.append("VarDeclStmt:\n");
                s.append(indent.as_str());
                s.append("Var: ");
                s.append(data.var_name.text());
                s.append("\n");
                s.append(indent.as_str());
                s.append("Initializer:\n");
                s.append(
                    opt_expr_yaml(&data.initializer, below.as_str(), Ghost(level + 2)).as_str(),
                );
                let r = String::from_str(trim_end(s.as_str()));
                assert(r@ == yaml_stmt(self@, level));
                r
            },
            Stmt::Return(ret) => {
                s.append("Return:\n");
                match &ret.value {
                    Some(node) => {
                        s.append(node.node.yaml(indent.as_str(), Ghost(level + 1)).as_str());
                    },
                    None => {
                        s.append(below.as_str());
                        s.append("None");
                    },
                }
                let r = String::from_str(trim_end(s.as_str()));
                assert(r@ == yaml_stmt(self@, level));
                r
            },
            Stmt::FuncDecl(func) => {
                let r = func.yaml(spaces, Ghost(level));
                assert(r@ == yaml_stmt(self@, level));
                r
            },
            Stmt::ClassDecl(class) => {
                s.append("Class:\n");
                s.append(indent.as_str());
                s.append("Name: ");
                s.append(class.name.text());
                s.append("\n");
                s.append(indent.as_str());
                assert(func_views(class.methods@).len() == class.methods@.len());
                if class.methods.len() == 0 {
                    s.append("Methods: []");
                } else {
                    s.append("Methods: [");
                    s.append(
                        methods_yaml(&class.methods, below.as_str(), Ghost(level + 2)).as_str(),
                    );
                    s.append(indent.as_str());
                    s.append("]");
                }
                let r = String::from_str(trim_end(s.as_str()));
                assert(r@ == yaml_stmt(self@, level));
                r
            },
            Stmt::Error => {
                s.append("ERROR");
                s
            },
        }
    }
}

} // verus!
