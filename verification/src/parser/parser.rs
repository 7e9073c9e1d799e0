use vstd::prelude::*;
use vstd::string::*;

use crate::errors::{error_views, report, summary, summary_text, RoxError, RoxErrorView};
use crate::scanner::token::{token_views, Token, TokenType, TokenView};
use crate::text::{parse_i32, unquote};

use super::ast::{expr_views, ExprNode};
use super::expressions::{
    AssignmentExpr, BinaryExpr, CallExpr, Expr, PropertyAccessExpr, UnaryExpr, Value,
};
use super::grammar::{
    args_loop_spec, block_loop_spec, ends_expression, infix_loop_spec, infix_power, is_operator,
    is_sync_point, methods_loop_spec, msg_expected_ident,
    msg_expected_operator, msg_expected_paren, msg_unexpected,
    msg_wrong_type, params_loop_spec, parse_class_decl_spec, parse_expr_spec,
    parse_expression_spec, parse_for_spec, parse_func_decl_spec, parse_if_spec, parse_infix_spec,
    parse_postfix_spec, parse_return_spec, parse_spec, parse_statement_spec, parse_var_decl_spec,
    parse_while_spec, postfix_power, prefix_power, program_loop_spec, skipped, token_at,
    ParserState,
};
use super::statements::{
    func_views, stmt_views, ClassDeclStatement, ForStmt, FuncDeclStatement,
    FuncDeclView, IfStmt, ReturnStmt, Stmt, VarDeclStatement, WhileStmt,
};

verus! {

/// A Pratt parser over a scanned token sequence. It reports what it cannot
/// parse, skips to the next `;`, `}` or `)`, and goes on.
pub struct Parser<'a> {
    cur: usize,
    tokens: Vec<Token<'a>>,
    errors: Vec<RoxError<'a>>,
}

impl<'a> Parser<'a> {
    /// The tokens that the parser reads.
    pub closed spec fn tokens(&self) -> Seq<TokenView> {
        token_views(self.tokens@)
    }

    /// Where the parser stands.
    pub closed spec fn state(&self) -> ParserState {
        ParserState { cur: self.cur as nat, errors: error_views(self.errors@) }
    }

    /// A parser at the start of a token sequence, with no errors reported.
    pub fn new(tokens: Vec<Token<'a>>) -> (r: Self)
        ensures
            r.tokens() == token_views(tokens@),
            r.state() == (ParserState { cur: 0, errors: Seq::empty() }),
    {
        let r = Parser { cur: 0, tokens, errors: Vec::new() };
        assert(r.state().errors =~= Seq::empty());
        r
    }

    /// Parses the whole input as a program.
    pub fn parse(&mut self) -> (statements: Vec<Stmt<'a>>)
        ensures
            final(self).tokens() == old(self).tokens(),
            (final(self).state(), stmt_views(statements@)) == parse_spec(
                old(self).tokens(),
                old(self).state(),
            ),
    {
        let ghost tokens = self.tokens();
        let ghost start = self.state();
        let mut statements: Vec<Stmt<'a>> = Vec::new();
        assert(stmt_views(statements@) =~= Seq::empty());
        while !self.is_at_end()
            invariant
                self.tokens() == tokens,
                tokens == old(self).tokens(),
                start == old(self).state(),
                program_loop_spec(tokens, self.state(), stmt_views(statements@))
                    == program_loop_spec(tokens, start, Seq::empty()),
            decreases self.state().remaining(tokens),
        {
            let stmt = self.parse_statement(true);
            assert(stmt_views(statements@.push(stmt)) =~= stmt_views(statements@).push(stmt@));
            statements.push(stmt);
        }
        statements
    }

    fn parse_statement(&mut self, expect_semicolon: bool) -> (stmt: Stmt<'a>)
        ensures
            final(self).tokens() == old(self).tokens(),
            (final(self).state(), stmt@) == parse_statement_spec(
                old(self).tokens(),
                old(self).state(),
                expect_semicolon,
            ),
            final(self).state().cur >= old(self).state().cur,
            old(self).state().cur < old(self).tokens().len() ==> final(self).state().cur > old(
                self,
            ).state().cur,
        decreases old(self).state().remaining(old(self).tokens()), 5nat,
    {
        match self.peek().token_type {
            TokenType::If => self.parse_if(),
            TokenType::While => self.parse_while(),
            TokenType::For => self.parse_for(),
            TokenType::Var => self.parse_var_decl(expect_semicolon),
            TokenType::Return => self.parse_return(),
            TokenType::Fun => self.parse_func_decl(),
            TokenType::Class => self.parse_class_decl(),
            _ => {
                let expr = self.parse_expr(0);
                if expect_semicolon {
                    self.expect(TokenType::Semicolon);
                }
                Stmt::Expression(expr)
            },
        }
    }

    /// The statements up to the closing brace or the end of input.
    fn parse_block(&mut self) -> (body: Vec<Stmt<'a>>)
        ensures
            final(self).tokens() == old(self).tokens(),
            (final(self).state(), stmt_views(body@)) == block_loop_spec(
                old(self).tokens(),
                old(self).state(),
                Seq::empty(),
            ),
            final(self).state().cur >= old(self).state().cur,
        decreases old(self).state().remaining(old(self).tokens()), 6nat,
    {
        let ghost tokens = self.tokens();
        let ghost start = self.state();
        let mut body: Vec<Stmt<'a>> = Vec::new();
        assert(stmt_views(body@) =~= Seq::empty());
        while self.before(TokenType::RightBrace)
            invariant
                self.tokens() == tokens,
                tokens == old(self).tokens(),
                start == old(self).state(),
                self.state().cur >= start.cur,
                block_loop_spec(tokens, self.state(), stmt_views(body@)) == block_loop_spec(
                    tokens,
                    start,
                    Seq::empty(),
                ),
            decreases self.state().remaining(tokens),
        {
            let stmt = self.parse_statement(true);
            assert(stmt_views(body@.push(stmt)) =~= stmt_views(body@).push(stmt@));
            body.push(stmt);
        }
        body
    }

    /// The methods of a class, up to the closing brace or the end of input;
    /// nothing where a statement among them is not a function declaration.
    fn parse_methods(&mut self) -> (r: Option<Vec<FuncDeclStatement<'a>>>)
        ensures
            final(self).tokens() == old(self).tokens(),
            methods_loop_spec(old(self).tokens(), old(self).state(), Seq::empty()) == (
                final(self).state(),
                match r {
                    Some(methods) => Some(func_views(methods@)),
                    None => None,
                },
            ),
            final(self).state().cur >= old(self).state().cur,
        decreases old(self).state().remaining(old(self).tokens()), 6nat,
    {
        let ghost tokens = self.tokens();
        let ghost start = self.state();
        let mut methods: Vec<FuncDeclStatement<'a>> = Vec::new();
        assert(func_views(methods@) =~= Seq::empty());
        while self.before(TokenType::RightBrace)
            invariant
                self.tokens() == tokens,
                tokens == old(self).tokens(),
                start == old(self).state(),
                self.state().cur >= start.cur,
                methods_loop_spec(tokens, self.state(), func_views(methods@)) == methods_loop_spec(
                    tokens,
                    start,
                    Seq::empty(),
                ),
            decreases self.state().remaining(tokens),
        {
            let stmt = self.parse_statement(true);
            match stmt {
                Stmt::FuncDecl(decl) => {
                    assert(func_views(methods@.push(decl)) =~= func_views(methods@).push(decl@));
                    methods.push(decl);
                },
                _ => {
                    return None;
                },
            }
        }
        Some(methods)
    }

    /// The parameters of a function, up to the closing parenthesis or the
    /// end of input; nothing where one of them is not a plain name.
    fn parse_params(&mut self) -> (r: Option<Vec<Token<'a>>>)
        ensures
            final(self).tokens() == old(self).tokens(),
            params_loop_spec(old(self).tokens(), old(self).state(), Seq::empty()) == (
                final(self).state(),
                match r {
                    Some(params) => Some(token_views(params@)),
                    None => None,
                },
            ),
            final(self).state().cur >= old(self).state().cur,
        decreases old(self).state().remaining(old(self).tokens()), 3nat,
    {
        let ghost tokens = self.tokens();
        let ghost start = self.state();
        let mut params: Vec<Token<'a>> = Vec::new();
        assert(token_views(params@) =~= Seq::empty());
        while self.before(TokenType::RightParen)
            invariant
                self.tokens() == tokens,
                tokens == old(self).tokens(),
                start == old(self).state(),
                self.state().cur >= start.cur,
                params_loop_spec(tokens, self.state(), token_views(params@)) == params_loop_spec(
                    tokens,
                    start,
                    Seq::empty(),
                ),
            decreases self.state().remaining(tokens),
        {
            let param = self.parse_expr(0);
            // Every parameter is a plain name.
            if !matches!(param.node, Expr::Var(_)) {
                return None;
            }
            assert(token_views(params@.push(param.token)) =~= token_views(params@).push(
                param.token@,
            ));
            params.push(param.token);
            self.matches(TokenType::Comma);
        }
        Some(params)
    }

    /// The arguments of a call, up to the closing parenthesis or the end of
    /// input.
    fn parse_args(&mut self) -> (args: Vec<ExprNode<'a>>)
        ensures
            final(self).tokens() == old(self).tokens(),
            (final(self).state(), expr_views(args@)) == args_loop_spec(
                old(self).tokens(),
                old(self).state(),
                Seq::empty(),
            ),
            final(self).state().cur >= old(self).state().cur,
        decreases old(self).state().remaining(old(self).tokens()), 3nat,
    {
        let ghost tokens = self.tokens();
        let ghost start = self.state();
        let mut args: Vec<ExprNode<'a>> = Vec::new();
        assert(expr_views(args@) =~= Seq::empty());
        while self.before(TokenType::RightParen)
            invariant
                self.tokens() == tokens,
                tokens == old(self).tokens(),
                start == old(self).state(),
                self.state().cur >= start.cur,
                args_loop_spec(tokens, self.state(), expr_views(args@)) == args_loop_spec(
                    tokens,
                    start,
                    Seq::empty(),
                ),
            decreases self.state().remaining(tokens),
        {
            let expr = self.parse_expr(0);
            assert(expr_views(args@.push(expr)) =~= expr_views(args@).push(expr@));
            args.push(expr);
            self.matches(TokenType::Comma);
        }
        args
    }

    fn parse_class_decl(&mut self) -> (stmt: Stmt<'a>)
        requires
            old(self).state().next_is(old(self).tokens(), TokenType::Class),
        ensures
            final(self).tokens() == old(self).tokens(),
            (final(self).state(), stmt@) == parse_class_decl_spec(
                old(self).tokens(),
                old(self).state(),
            ),
            final(self).state().cur > old(self).state().cur,
        decreases old(self).state().remaining(old(self).tokens()), 4nat,
    {
        self.next();
        let name = self.next();
        if !matches!(name.token_type, TokenType::Identifier) {
            self.handle_error(name, expected_ident_message(name.token_type));
            return Stmt::Error;
        }
        self.expect(TokenType::LeftBrace);

        let methods = match self.parse_methods() {
            Some(methods) => methods,
            None => {
                self.handle_error(name, expected_ident_message(name.token_type));
                return Stmt::Error;
            },
        };
        self.expect(TokenType::RightBrace);
        Stmt::ClassDecl(ClassDeclStatement { name, methods })
    }

    fn parse_func_decl(&mut self) -> (stmt: Stmt<'a>)
        requires
            old(self).state().next_is(old(self).tokens(), TokenType::Fun),
        ensures
            final(self).tokens() == old(self).tokens(),
            (final(self).state(), stmt@) == parse_func_decl_spec(
                old(self).tokens(),
                old(self).state(),
            ),
            final(self).state().cur > old(self).state().cur,
        decreases old(self).state().remaining(old(self).tokens()), 4nat,
    {
        self.next();
        let name = self.next();
        if !matches!(name.token_type, TokenType::Identifier) {
            self.handle_error(name, expected_ident_message(name.token_type));
            return Stmt::Error;
        }
        self.expect(TokenType::LeftParen);

        let params = match self.parse_params() {
            Some(params) => params,
            None => {
                self.handle_error(name, expected_ident_message(name.token_type));
                return Stmt::Error;
            },
        };
        self.expect(TokenType::RightParen);
        self.expect(TokenType::LeftBrace);
        let body = self.parse_block();
        self.expect(TokenType::RightBrace);
        let decl = FuncDeclStatement { name, parameters: params, body };
        assert(decl@ == (FuncDeclView {
            name: name@,
            params: token_views(decl.parameters@),
            body: stmt_views(decl.body@),
        }));
        Stmt::FuncDecl(decl)
    }

    fn parse_return(&mut self) -> (stmt: Stmt<'a>)
        requires
            old(self).state().next_is(old(self).tokens(), TokenType::Return),
        ensures
            final(self).tokens() == old(self).tokens(),
            (final(self).state(), stmt@) == parse_return_spec(
                old(self).tokens(),
                old(self).state(),
            ),
            final(self).state().cur > old(self).state().cur,
        decreases old(self).state().remaining(old(self).tokens()), 4nat,
    {
        self.next();
        let mut value = None;
        if !self.matches(TokenType::Semicolon) {
            let expr = self.parse_expr(0);
            self.expect(TokenType::Semicolon);
            value = Some(expr);
        }
        Stmt::Return(ReturnStmt { value })
    }

    fn parse_var_decl(&mut self, expect_semicolon: bool) -> (stmt: Stmt<'a>)
        requires
            old(self).state().next_is(old(self).tokens(), TokenType::Var),
        ensures
            final(self).tokens() == old(self).tokens(),
            (final(self).state(), stmt@) == parse_var_decl_spec(
                old(self).tokens(),
                old(self).state(),
                expect_semicolon,
            ),
            final(self).state().cur > old(self).state().cur,
        decreases old(self).state().remaining(old(self).tokens()), 4nat,
    {
        self.next();
        let var_name = self.next();
        if !matches!(var_name.token_type, TokenType::Identifier) {
            self.handle_error(var_name, expected_ident_message(var_name.token_type));
            return Stmt::Error;
        }
        let mut initializer = None;
        if self.matches(TokenType::Equal) {
            initializer = Some(self.parse_expr(0));
        }
        if expect_semicolon {
            self.expect(TokenType::Semicolon);
        }
        Stmt::VarDecl(VarDeclStatement { var_name, initializer })
    }

    fn parse_for(&mut self) -> (stmt: Stmt<'a>)
        requires
            old(self).state().next_is(old(self).tokens(), TokenType::For),
        ensures
            final(self).tokens() == old(self).tokens(),
            (final(self).state(), stmt@) == parse_for_spec(old(self).tokens(), old(self).state()),
            final(self).state().cur > old(self).state().cur,
        decreases old(self).state().remaining(old(self).tokens()), 4nat,
    {
        self.next();
        self.expect(TokenType::LeftParen);

        let mut initializer = None;
        if !self.next_is(TokenType::Semicolon) {
            initializer = Some(Box::new(self.parse_statement(false)));
        }
        self.expect(TokenType::Semicolon);

        let mut condition = None;
        if !self.next_is(TokenType::Semicolon) {
            condition = Some(self.parse_expr(0));
        }
        self.expect(TokenType::Semicolon);

        let mut increment = None;
        if !self.next_is(TokenType::RightParen) {
            increment = Some(self.parse_expr(0));
        }
        self.expect(TokenType::RightParen);
        self.expect(TokenType::LeftBrace);
        let body = self.parse_block();
        self.expect(TokenType::RightBrace);
        Stmt::For(ForStmt { initializer, condition, increment, body })
    }

    fn parse_while(&mut self) -> (stmt: Stmt<'a>)
        requires
            old(self).state().next_is(old(self).tokens(), TokenType::While),
        ensures
            final(self).tokens() == old(self).tokens(),
            (final(self).state(), stmt@) == parse_while_spec(old(self).tokens(), old(self).state()),
            final(self).state().cur > old(self).state().cur,
        decreases old(self).state().remaining(old(self).tokens()), 4nat,
    {
        self.next();
        self.expect(TokenType::LeftParen);
        let condition = self.parse_expr(0);
        self.expect(TokenType::RightParen);
        self.expect(TokenType::LeftBrace);
        let body = self.parse_block();
        self.expect(TokenType::RightBrace);
        Stmt::While(WhileStmt { condition, body })
    }

    fn parse_if(&mut self) -> (stmt: Stmt<'a>)
        requires
            old(self).state().next_is(old(self).tokens(), TokenType::If),
        ensures
            final(self).tokens() == old(self).tokens(),
            (final(self).state(), stmt@) == parse_if_spec(old(self).tokens(), old(self).state()),
            final(self).state().cur > old(self).state().cur,
        decreases old(self).state().remaining(old(self).tokens()), 4nat,
    {
        self.next();
        self.expect(TokenType::LeftParen);
        let condition = self.parse_expr(0);
        self.expect(TokenType::RightParen);
        self.expect(TokenType::LeftBrace);
        let if_body = self.parse_block();
        self.expect(TokenType::RightBrace);

        let mut else_body: Vec<Stmt<'a>> = Vec::new();
        assert(stmt_views(else_body@) =~= Seq::empty());
        if self.matches(TokenType::Else) {
            self.expect(TokenType::LeftBrace);
            else_body = self.parse_block();
            self.expect(TokenType::RightBrace);
        }
        Stmt::If(IfStmt { condition, if_body, else_body })
    }

    /// Parses one expression, and the semicolon after it where one is asked
    /// for.
    pub fn parse_expression(&mut self, expect_semicolon: bool) -> (expr: ExprNode<'a>)
        ensures
            final(self).tokens() == old(self).tokens(),
            (final(self).state(), expr@) == parse_expression_spec(
                old(self).tokens(),
                old(self).state(),
                expect_semicolon,
            ),
    {
        let expr = self.parse_expr(0);
        if expect_semicolon {
            self.expect(TokenType::Semicolon);
        }
        expr
    }

    fn parse_expr(&mut self, bp: usize) -> (node: ExprNode<'a>)
        ensures
            final(self).tokens() == old(self).tokens(),
            (final(self).state(), node@) == parse_expr_spec(
                old(self).tokens(),
                old(self).state(),
                bp as nat,
            ),
            final(self).state().cur >= old(self).state().cur,
            old(self).state().cur < old(self).tokens().len() ==> final(self).state().cur > old(
                self,
            ).state().cur,
        decreases old(self).state().remaining(old(self).tokens()), 2nat,
    {
        let tok = self.next();
        let lhs = match tok.token_type {
            TokenType::StringLiteral => Expr::Constant(
                Value::StringLiteral(String::from_str(unquote(tok.text()))),
            ),
            TokenType::Identifier => Expr::Var(tok.text()),
            TokenType::Minus | TokenType::Plus | TokenType::Bang => {
                let (_, rbp) = prefix_binding_power(tok.token_type);
                let operand = self.parse_expr(rbp);
                Expr::Unary(UnaryExpr { op: tok.token_type, operand: Box::new(operand) })
            },
            TokenType::True => Expr::Constant(Value::Bool(true)),
            TokenType::False => Expr::Constant(Value::Bool(false)),
            TokenType::Number => match parse_i32(tok.text()) {
                Some(n) => Expr::Constant(Value::Number(n)),
                None => Expr::Error,
            },
            TokenType::LeftParen => {
                let group_expr = self.parse_expr(0);
                if !group_expr.node.is_error() && !self.matches(TokenType::RightParen) {
                    let found = self.previous();
                    self.handle_error(found, expected_paren_message(found.token_type));
                    return ExprNode::new(self.previous(), Expr::Error);
                }
                Expr::Grouping(Box::new(group_expr))
            },
            _ => Expr::Error,
        };

        if lhs.is_error() {
            self.handle_error(tok, unexpected_message(tok.token_type));
            return ExprNode::new(self.previous(), Expr::Error);
        }
        let lhs = ExprNode::new(tok, lhs);
        self.parse_operators(bp, lhs)
    }

    /// Takes the operators that follow `lhs` for as long as they bind at
    /// least as tightly as `bp`.
    fn parse_operators(&mut self, bp: usize, lhs: ExprNode<'a>) -> (node: ExprNode<'a>)
        ensures
            final(self).tokens() == old(self).tokens(),
            (final(self).state(), node@) == infix_loop_spec(
                old(self).tokens(),
                old(self).state(),
                bp as nat,
                lhs@,
            ),
            final(self).state().cur >= old(self).state().cur,
        decreases old(self).state().remaining(old(self).tokens()), 1nat,
    {
        let ghost tokens = self.tokens();
        let ghost start = self.state();
        let ghost first = lhs@;
        let mut node = lhs;
        loop
            invariant
                self.tokens() == tokens,
                tokens == old(self).tokens(),
                start == old(self).state(),
                first == lhs@,
                self.state().cur >= start.cur,
                infix_loop_spec(tokens, self.state(), bp as nat, node@) == infix_loop_spec(
                    tokens,
                    start,
                    bp as nat,
                    first,
                ),
            ensures
                (self.state(), node@) == infix_loop_spec(tokens, start, bp as nat, first),
            decreases self.state().remaining(tokens),
        {
            let op = self.peek();
            if ends_expression_at(op.token_type) {
                break ;
            }
            if !is_operator_kind(op.token_type) {
                self.handle_error(op, expected_operator_message(op.token_type));
                return ExprNode::new(op, Expr::Error);
            }
            if let Some((lbp, rbp)) = postfix_binding_power(op.token_type) {
                if lbp < bp {
                    break ;
                }
                node = self.parse_postfix_expression(rbp, node, op);
            } else if let Some((lbp, rbp)) = infix_binding_power(op.token_type) {
                if lbp < bp {
                    break ;
                }
                node = self.parse_infix_expression(rbp, node, op);
            }
        }
        node
    }

    fn parse_postfix_expression(&mut self, bp: usize, lhs: ExprNode<'a>, op: Token<'a>) -> (node:
        ExprNode<'a>)
        requires
            op@ == old(self).state().peek(old(self).tokens()),
            postfix_power(op.token_type) is Some,
        ensures
            final(self).tokens() == old(self).tokens(),
            (final(self).state(), node@) == parse_postfix_spec(
                old(self).tokens(),
                old(self).state(),
                bp as nat,
                lhs@,
            ),
            final(self).state().cur > old(self).state().cur,
        decreases old(self).state().remaining(old(self).tokens()), 0nat,
    {
        self.next();
        match op.token_type {
            TokenType::Dot => {
                let rhs = self.parse_expr(bp);
                ExprNode::new(
                    rhs.token,
                    Expr::PropertyAccess(
                        PropertyAccessExpr { object: Box::new(lhs), property: rhs.token },
                    ),
                )
            },
            _ => {
                let args = self.parse_args();
                self.expect(TokenType::RightParen);
                let ghost views = expr_views(args@);
                let node = ExprNode::new(op, Expr::Call(CallExpr { calee: Box::new(lhs), args }));
                assert(node@.node->Call_args =~= views);
                node
            },
        }
    }

    fn parse_infix_expression(&mut self, bp: usize, lhs: ExprNode<'a>, op: Token<'a>) -> (node:
        ExprNode<'a>)
        requires
            op@ == old(self).state().peek(old(self).tokens()),
            infix_power(op.token_type) is Some,
        ensures
            final(self).tokens() == old(self).tokens(),
            (final(self).state(), node@) == parse_infix_spec(
                old(self).tokens(),
                old(self).state(),
                bp as nat,
                lhs@,
            ),
            final(self).state().cur > old(self).state().cur,
        decreases old(self).state().remaining(old(self).tokens()), 0nat,
    {
        self.next();
        let rhs = self.parse_expr(bp);
        let token_type = op.token_type;
        match token_type {
            TokenType::Equal => {
                // Only a plain name can be assigned to.
                if !matches!(lhs.node, Expr::Var(_)) {
                    self.handle_error(lhs.token, String::from_str("invalid variable assignment"));
                    return ExprNode::new(lhs.token, Expr::Error);
                }
                // Assignments do not chain.
                if matches!(rhs.node, Expr::Assignment(_)) {
                    self.handle_error(
                        lhs.token,
                        String::from_str("invalid chaining of assignments"),
                    );
                    return ExprNode::new(lhs.token, Expr::Error);
                }
                ExprNode::new(
                    op,
                    Expr::Assignment(AssignmentExpr { name: lhs.token, expr: Box::new(rhs) }),
                )
            },
            _ => ExprNode::new(
                op,
                Expr::BinOp(
                    BinaryExpr { left: Box::new(lhs), right: Box::new(rhs), op: token_type },
                ),
            ),
        }
    }

    /// Whether an error has been reported.
    pub fn has_errors(&self) -> (r: bool)
        ensures
            r == (self.state().errors.len() > 0),
    {
        self.errors.len() > 0
    }

    /// The errors reported so far, in the order in which they were found.
    pub fn errors(&self) -> (r: &Vec<RoxError<'a>>)
        ensures
            error_views(r@) == self.state().errors,
    {
        &self.errors
    }

    /// Gives up the parser for the errors that it reported.
    pub fn into_errors(self) -> (r: Vec<RoxError<'a>>)
        ensures
            error_views(r@) == self.state().errors,
    {
        self.errors
    }

    /// The summary that is shown where parsing found errors.
    pub fn error_summary(&self) -> (r: String)
        ensures
            r@ == summary_text(self.state().errors.len()),
    {
        summary(self.errors.len())
    }

    /// The lines that report the errors: the summary, then one line for
    /// each error in the order in which they were found.
    pub fn log_errors(&self) -> (lines: Vec<String>)
        requires
            self.state().errors.len() > 0,
        ensures
            lines@.len() == self.state().errors.len() + 1,
            lines@[0]@ == summary_text(self.state().errors.len()),
            forall|i: int|
                0 <= i < self.state().errors.len() ==> (#[trigger] lines@[i + 1])@
                    == self.state().errors[i].text(),
    {
        report(&self.errors)
    }

    /// Reads the next token, where there is one, and returns it; at the end
    /// of the sequence it returns the end-of-input token.
    fn next(&mut self) -> (tok: Token<'a>)
        ensures
            final(self).tokens() == old(self).tokens(),
            tok@ == old(self).state().peek(old(self).tokens()),
            final(self).state() == old(self).state().advance(old(self).tokens()),
    {
        let tok = self.peek();
        if self.cur < self.tokens.len() {
            self.cur += 1;
        }
        tok
    }

    fn is_at_end(&self) -> (r: bool)
        ensures
            r == self.state().at_end(self.tokens()),
    {
        matches!(self.peek().token_type, TokenType::EOF)
    }

    /// Whether the next token has the given kind.
    fn next_is(&self, kind: TokenType) -> (r: bool)
        ensures
            r == self.state().next_is(self.tokens(), kind),
    {
        self.peek().token_type == kind
    }

    /// Whether there is a token to read before the given closing token or
    /// the end of input.
    fn before(&self, closer: TokenType) -> (r: bool)
        ensures
            r == !(self.state().at_end(self.tokens()) || self.state().next_is(
                self.tokens(),
                closer,
            )),
            r ==> self.state().cur < self.tokens().len(),
    {
        !self.is_at_end() && !self.next_is(closer)
    }

    /// The token that was read last, where there is one.
    fn prev(&self) -> (r: Option<Token<'a>>)
        ensures
            match r {
                Some(t) => 0 < self.state().cur <= self.tokens().len() && t@ == token_at(
                    self.tokens(),
                    self.state().cur - 1,
                ),
                None => !(0 < self.state().cur <= self.tokens().len()),
            },
    {
        if self.cur == 0 || self.cur > self.tokens.len() {
            return None;
        }
        Some(self.tokens[self.cur - 1])
    }

    /// The token that was read last, or the end-of-input token where none
    /// was.
    fn previous(&self) -> (r: Token<'a>)
        ensures
            r@ == self.state().previous(self.tokens()),
    {
        match self.prev() {
            Some(t) => t,
            None => Token::end_marker(),
        }
    }

    /// Reads the next token where it has the given kind, does nothing at
    /// the end of input, and reports an error otherwise.
    fn expect(&mut self, token_type: TokenType)
        ensures
            final(self).tokens() == old(self).tokens(),
            final(self).state() == old(self).state().expect(old(self).tokens(), token_type),
            final(self).state().cur >= old(self).state().cur,
    {
        if self.is_at_end() {
            return ;
        }
        let found = self.peek();
        if found.token_type == token_type {
            self.next();
            return ;
        }
        self.handle_error(found, wrong_type_message(token_type, found.token_type));
    }

    /// Reads the next token where it has the given kind, and says whether
    /// it did.
    fn matches(&mut self, target: TokenType) -> (r: bool)
        ensures
            final(self).tokens() == old(self).tokens(),
            r == old(self).state().next_is(old(self).tokens(), target),
            final(self).state() == old(self).state().accept(old(self).tokens(), target),
            final(self).state().cur >= old(self).state().cur,
    {
        if self.peek().token_type == target {
            self.next();
            return true;
        }
        false
    }

    fn equals_any(&self, targets: &Vec<TokenType>) -> (r: bool)
        ensures
            r == targets@.contains(self.state().peek(self.tokens()).kind),
    {
        let kind = self.peek().token_type;
        let mut i: usize = 0;
        while i < targets.len()
            invariant
                0 <= i <= targets.len(),
                kind == self.state().peek(self.tokens()).kind,
                forall|j: int| 0 <= j < i ==> targets@[j] != kind,
            decreases targets.len() - i,
        {
            if targets[i] == kind {
                assert(targets@[i as int] == kind);
                return true;
            }
            i = i + 1;
        }
        false
    }

    /// The token that is read next, or the end-of-input token where none is
    /// left.
    fn peek(&self) -> (tok: Token<'a>)
        ensures
            tok@ == self.state().peek(self.tokens()),
            tok.token_type != TokenType::EOF ==> self.state().cur < self.tokens().len(),
    {
        if self.cur < self.tokens.len() {
            self.tokens[self.cur]
        } else {
            Token::end_marker()
        }
    }

    /// The token `step` places after the next one, where there is one.
    fn _look_ahead(&self, step: usize) -> (r: Option<Token<'a>>)
        ensures
            match r {
                Some(t) => self.state().cur + step < self.tokens().len() && t@ == token_at(
                    self.tokens(),
                    self.state().cur + step,
                ),
                None => self.state().cur + step >= self.tokens().len(),
            },
    {
        if step < self.tokens.len() && self.cur < self.tokens.len() - step {
            Some(self.tokens[self.cur + step])
        } else {
            None
        }
    }

    /// Records an error at `token` and skips to the next token at which
    /// parsing can go on: a `;`, a `}`, a `)` or the end of input.
    fn handle_error(&mut self, token: Token<'a>, msg: String)
        ensures
            final(self).tokens() == old(self).tokens(),
            final(self).state() == old(self).state().report(old(self).tokens(), token@, msg@),
            final(self).state().cur >= old(self).state().cur,
    {
        let ghost tokens = self.tokens();
        let ghost start = self.state();
        let error = RoxError::new(token, msg);
        assert(error_views(self.errors@.push(error)) =~= error_views(self.errors@).push(error@));
        self.errors.push(error);
        let targets = vec![TokenType::Semicolon, TokenType::RightBrace, TokenType::RightParen];
        while !self.is_at_end() && !self.equals_any(&targets)
            invariant
                self.tokens() == tokens,
                self.state().errors == start.errors.push(RoxErrorView { token: token@, msg: msg@ }),
                self.state().cur >= start.cur,
                self.state().cur + skipped(tokens, self.state().cur) == start.cur + skipped(
                    tokens,
                    start.cur,
                ),
                targets@ == seq![
                    TokenType::Semicolon,
                    TokenType::RightBrace,
                    TokenType::RightParen,
                ],
            decreases self.state().remaining(tokens),
        {
            self.next();
        }
        proof {
            let kind = self.state().peek(tokens).kind;
            if !self.state().at_end(tokens) {
                assert(targets@.contains(kind));
                assert(is_sync_point(kind));
            }
            assert(skipped(tokens, self.state().cur) == 0);
        }
    }
}

/// The message for a token that starts no expression.
fn unexpected_message(kind: TokenType) -> (r: String)
    ensures
        r@ == msg_unexpected(kind),
{
    let mut s = String::from_str("unexpected token: '");
    s.append(kind.as_str());
    s.append("'");
    s
}

/// The message for a token that stands where a name belongs.
fn expected_ident_message(kind: TokenType) -> (r: String)
    ensures
        r@ == msg_expected_ident(kind),
{
    let mut s = String::from_str("unexpected token: expected 'IDENT' but got '");
    s.append(kind.as_str());
    s.append("'");
    s
}

/// The message for a group that is not closed.
fn expected_paren_message(kind: TokenType) -> (r: String)
    ensures
        r@ == msg_expected_paren(kind),
{
    let mut s = String::from_str("unexpected token: expected '(' but got '");
    s.append(kind.as_str());
    s.append("'");
    s
}

/// The message for a token that stands where an operator belongs.
fn expected_operator_message(kind: TokenType) -> (r: String)
    ensures
        r@ == msg_expected_operator(kind),
{
    let mut s = String::from_str("unexpected token: expected arithmetic operator but got '");
    s.append(kind.as_str());
    s.append("'");
    s
}

/// The message for a token of one kind that stands where another belongs.
fn wrong_type_message(expected: TokenType, got: TokenType) -> (r: String)
    ensures
        r@ == msg_wrong_type(expected, got),
{
    let mut s = String::from_str("unexpected token type: expected '");
    s.append(expected.as_str());
    s.append("' but got '");
    s.append(got.as_str());
    s.append("'");
    s
}

fn ends_expression_at(kind: TokenType) -> (r: bool)
    ensures
        r == ends_expression(kind),
{
    matches!(
        kind,
        TokenType::EOF | TokenType::Semicolon | TokenType::RightParen | TokenType::Comma
    )
}

fn is_operator_kind(kind: TokenType) -> (r: bool)
    ensures
        r == is_operator(kind),
{
    postfix_binding_power(kind).is_some() || infix_binding_power(kind).is_some()
}

/// The left and right binding powers of a postfix operator.
pub fn postfix_binding_power(token_type: TokenType) -> (r: Option<(usize, usize)>)
    ensures
        match postfix_power(token_type) {
            Some((l, r2)) => r == Some((l as usize, r2 as usize)),
            None => r is None,
        },
{
    let res = match token_type {
        TokenType::LeftParen => (41, 42),
        TokenType::Dot => (51, 52),
        _ => return None,
    };
    Some(res)
}

/// The left and right binding powers of an infix operator.
pub fn infix_binding_power(token_type: TokenType) -> (r: Option<(usize, usize)>)
    ensures
        match infix_power(token_type) {
            Some((l, r2)) => r == Some((l as usize, r2 as usize)),
            None => r is None,
        },
{
    let res = match token_type {
        TokenType::Equal => (5, 6),
        TokenType::Or => (7, 8),
        TokenType::And => (9, 10),
        TokenType::EqualEqual | TokenType::BangEqual => (13, 14),
        TokenType::Less | TokenType::LessEqual | TokenType::Greater | TokenType::GreaterEqual => (
            17,
            18,
        ),
        TokenType::Plus | TokenType::Minus => (21, 22),
        TokenType::Star | TokenType::Slash => (31, 32),
        _ => return None,
    };
    Some(res)
}

/// The binding power with which a prefix operator takes its operand.
pub fn prefix_binding_power(token_type: TokenType) -> (r: ((), usize))
    requires
        token_type == TokenType::Minus || token_type == TokenType::Plus || token_type
            == TokenType::Bang,
    ensures
        r.1 == prefix_power(token_type),
{
    match token_type {
        TokenType::Minus | TokenType::Plus => ((), 90),
        _ => ((), 100),
    }
}

} // verus!
