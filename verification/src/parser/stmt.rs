//! The rules for statements.

use super::{
    block_outcome, expr_outcome, opt_expr_outcome, opt_stmt_outcome, stmt_outcome, ParseResult,
    Parser,
};
use crate::ast::{
    at, block_view, lemma_stmts_value, stmt_views, BlockStmt, BlockView, Expr, FunDeclStmt, IfStmt,
    LiteralExpr, Stmt, StmtView, Typed, VarDeclStmt, WhileStmt,
};
use crate::error::{Expected, ParseErrorKind};
use crate::grammar;
use crate::span::Span;
use crate::token::TokenKind;
use vstd::prelude::*;

verus! {

impl Parser {
    pub(super) fn declaration(&mut self) -> (r: ParseResult<Stmt>)
        requires
            old(self).valid(),
        ensures
            final(self).steps(old(self), r is Ok),
            stmt_outcome(final(self).state(), r) == grammar::declaration(
                old(self).tokens@,
                old(self).state(),
            ),
        decreases old(self).tokens@.len() - old(self).position, 62nat,
    {
        reveal(grammar::declaration);
        if self.matches([TokenKind::Var]) {
            reveal(grammar::var_declaration);
            return self.var_declaration();
        } else if self.matches([TokenKind::Fun]) {
            reveal(grammar::fun_declaration);
            return self.fun_declaration();
        }
        reveal(grammar::statement);
        self.statement()
    }

    #[verifier::rlimit(50)]
    pub(super) fn var_declaration(&mut self) -> (r: ParseResult<Stmt>)
        requires
            old(self).valid(),
            grammar::kind_at(old(self).tokens@, old(self).state()) == TokenKind::Var,
        ensures
            final(self).steps(old(self), r is Ok),
            stmt_outcome(final(self).state(), r) == grammar::var_declaration(
                old(self).tokens@,
                old(self).state(),
            ),
        decreases old(self).tokens@.len() - old(self).position, 58nat,
    {
        reveal(grammar::var_declaration);
        reveal(grammar::var_initializer);
        let var_keyword_span = self.current().span;
        self.advance_position();

        let variable_name = self.parse_variable_name()?;

        let initializer = self.parse_var_initializer()?;
        let last = self.statement_end_span();
        self.expect_semicolon();

        Ok(
            Stmt::VarDecl(
                Typed::new(
                    VarDeclStmt { ident: variable_name, initializer },
                    self.create_span(var_keyword_span, last),
                ),
            ),
        )
    }

    pub(super) fn parse_var_initializer(&mut self) -> (r: ParseResult<Option<Expr>>)
        requires
            old(self).valid(),
        ensures
            final(self).follows(old(self)),
            opt_expr_outcome(final(self).state(), r) == grammar::var_initializer(
                old(self).tokens@,
                old(self).state(),
            ),
        decreases old(self).tokens@.len() - old(self).position, 0nat,
    {
        reveal(grammar::var_initializer);
        reveal(grammar::expression);
        let initializer = if self.consume([TokenKind::Equal]) {
            if self.consume([TokenKind::Semicolon]) {
                return Err(ParseErrorKind::ExpectedExpression { span: self.previous().span });
            }
            Some(self.expression()?)
        } else if self.matches([TokenKind::Semicolon]) {
            None
        } else {
            return Err(
                ParseErrorKind::UnexpectedToken {
                    span: self.current().span,
                    expected: Expected::AssignOrSemicolon,
                    found: self.current().token_kind,
                },
            );
        };
        Ok(initializer)
    }

    #[verifier::rlimit(50)]
    fn fun_declaration(&mut self) -> (r: ParseResult<Stmt>)
        requires
            old(self).valid(),
            grammar::kind_at(old(self).tokens@, old(self).state()) == TokenKind::Fun,
        ensures
            final(self).steps(old(self), r is Ok),
            stmt_outcome(final(self).state(), r) == grammar::fun_declaration(
                old(self).tokens@,
                old(self).state(),
            ),
        decreases old(self).tokens@.len() - old(self).position, 58nat,
    {
        reveal(grammar::fun_declaration);
        reveal(grammar::block);
        let fun_keyword_span = self.current().span;
        self.advance_position();

        let function_name = self.parse_function_name()?;

        let parameters = self.parse_function_parameters()?;

        self.expect_block()?;
        let body = self.block()?;

        Ok(
            Stmt::FunDecl(
                Typed::new(
                    FunDeclStmt { ident: function_name, params: parameters, body },
                    self.create_span(fun_keyword_span, self.previous().span),
                ),
            ),
        )
    }

    /// current is the start of the statement
    #[verifier::rlimit(50)]
    fn statement(&mut self) -> (r: ParseResult<Stmt>)
        requires
            old(self).valid(),
        ensures
            final(self).steps(old(self), r is Ok),
            stmt_outcome(final(self).state(), r) == grammar::statement(
                old(self).tokens@,
                old(self).state(),
            ),
        decreases old(self).tokens@.len() - old(self).position, 60nat,
    {
        reveal(grammar::statement);
        if self.matches([TokenKind::Print]) {
            reveal(grammar::print_stmt);
            return self.print_stmt();
        } else if self.matches([TokenKind::LeftBrace]) {
            reveal(grammar::block);
            return Ok(Stmt::Block(self.block()?));
        } else if self.matches([TokenKind::If]) {
            reveal(grammar::if_stmt);
            return self.if_stmt();
        } else if self.matches([TokenKind::While]) {
            reveal(grammar::while_stmt);
            return self.while_stmt();
        } else if self.matches([TokenKind::For]) {
            reveal(grammar::for_stmt);
            return self.for_stmt();
        } else if self.matches([TokenKind::Return]) {
            reveal(grammar::return_stmt);
            return self.return_stmt();
        }
        reveal(grammar::expression_stmt);
        self.expression_stmt()
    }

    /// current is start of the statement, end is next statement
    fn expression_stmt(&mut self) -> (r: ParseResult<Stmt>)
        requires
            old(self).valid(),
        ensures
            final(self).steps(old(self), r is Ok),
            stmt_outcome(final(self).state(), r) == grammar::expression_stmt(
                old(self).tokens@,
                old(self).state(),
            ),
        decreases old(self).tokens@.len() - old(self).position, 58nat,
    {
        reveal(grammar::expression_stmt);
        reveal(grammar::expression);
        let left_span = self.current().span;
        let value = self.expression()?;

        let last = self.statement_end_span();
        self.expect_semicolon();

        Ok(Stmt::ExprStmt(Typed::new(value, self.create_span(left_span, last))))
    }

    /// current is 'print', end is next statement
    fn print_stmt(&mut self) -> (r: ParseResult<Stmt>)
        requires
            old(self).valid(),
            grammar::kind_at(old(self).tokens@, old(self).state()) == TokenKind::Print,
        ensures
            final(self).steps(old(self), r is Ok),
            stmt_outcome(final(self).state(), r) == grammar::print_stmt(
                old(self).tokens@,
                old(self).state(),
            ),
        decreases old(self).tokens@.len() - old(self).position, 58nat,
    {
        reveal(grammar::print_stmt);
        reveal(grammar::expression);
        let left_span = self.current().span;
        self.advance_position();

        let value = self.expression()?;

        let last = self.statement_end_span();
        self.expect_semicolon();

        Ok(Stmt::PrintStmt(Typed::new(value, self.create_span(left_span, last))))
    }

    /// current is '{' and ends after '}'
    #[verifier::rlimit(50)]
    pub(super) fn block(&mut self) -> (r: ParseResult<Typed<BlockStmt>>)
        requires
            old(self).valid(),
        ensures
            final(self).steps(old(self), r is Ok),
            block_outcome(final(self).state(), r) == grammar::block(
                old(self).tokens@,
                old(self).state(),
            ),
        decreases old(self).tokens@.len() - old(self).position, 58nat,
    {
        reveal(grammar::block);
        reveal(grammar::block_items);
        reveal(grammar::declaration);
        let opening_brace_span = self.current().span;
        let ghost t = self.tokens@;
        self.open_delimiter()?;
        let ghost inside = self.state();

        let mut statements: Vec<Stmt> = Vec::new();
        assert(stmt_views(statements@) =~= Seq::<StmtView>::empty());
        while !self.matches([TokenKind::RightBrace]) && !self.at_eof()
            invariant
                self.follows(old(self)),
                self.position > old(self).position,
                t == self.tokens@,
                grammar::block_items(t, self.state(), stmt_views(statements@))
                    == grammar::block_items(t, inside, Seq::<StmtView>::empty()),
            decreases self.tokens@.len() - self.position,
        {
            reveal(grammar::block_items);
            reveal(grammar::declaration);
            let ghost seen = stmt_views(statements@);
            let statement = self.declaration();
            match statement {
                Ok(stmt) => {
                    statements.push(stmt);
                    assert(stmt_views(statements@) =~= seen.push(stmt@));
                },
                Err(err) => {
                    self.report(err);
                    self.skip_to_next_stmt();
                },
            }
        }
        self.close_delimiter()?;
        proof {
            lemma_stmts_value(statements);
        }

        Ok(
            Typed::new(
                BlockStmt { statements },
                self.create_span(opening_brace_span, self.previous().span),
            ),
        )
    }

    /// start is `if`, end is next statement
    #[verifier::rlimit(50)]
    fn if_stmt(&mut self) -> (r: ParseResult<Stmt>)
        requires
            old(self).valid(),
            grammar::kind_at(old(self).tokens@, old(self).state()) == TokenKind::If,
        ensures
            final(self).steps(old(self), r is Ok),
            stmt_outcome(final(self).state(), r) == grammar::if_stmt(
                old(self).tokens@,
                old(self).state(),
            ),
        decreases old(self).tokens@.len() - old(self).position, 58nat,
    {
        reveal(grammar::if_stmt);
        reveal(grammar::block);
        reveal(grammar::condition);
        let if_span = self.current().span;
        self.advance_position();
        let condition = self.parse_condition();

        self.expect_block()?;
        let then_branch = self.block()?;

        let mut else_branch = None;
        if self.consume([TokenKind::Else]) {
            self.expect_block()?;
            else_branch = Some(self.block()?);
        }
        Ok(
            Stmt::If(
                Typed::new(
                    IfStmt { condition, then_branch, else_branch },
                    self.create_span(if_span, self.previous().span),
                ),
            ),
        )
    }

    /// starts at first condition token, ends after the condition
    fn parse_condition(&mut self) -> (condition: Expr)
        requires
            old(self).valid(),
        ensures
            final(self).follows(old(self)),
            (grammar::Condition { state: final(self).state(), expr: condition@ })
                == grammar::condition(old(self).tokens@, old(self).state()),
        decreases old(self).tokens@.len() - old(self).position, 54nat,
    {
        reveal(grammar::condition);
        reveal(grammar::expression);
        let left_condition_span = self.current().span;
        let start: usize = self.position;
        match self.expression() {
            Ok(con) => {
                if let Expr::Grouping(_) = &con {
                    self.report(
                        ParseErrorKind::RedundantParenthesis {
                            first: left_condition_span,
                            second: self.previous().span,
                        },
                    );
                }
                con
            },
            Err(err) => {
                self.report(err);
                let passed = if self.position > start {
                    self.create_span(left_condition_span, self.previous().span)
                } else {
                    left_condition_span
                };
                Expr::Literal(Typed::new(LiteralExpr::Bool(true), passed))
            },
        }
    }

    /// start is `while`, end is next statement
    #[verifier::rlimit(50)]
    fn while_stmt(&mut self) -> (r: ParseResult<Stmt>)
        requires
            old(self).valid(),
            grammar::kind_at(old(self).tokens@, old(self).state()) == TokenKind::While,
        ensures
            final(self).steps(old(self), r is Ok),
            stmt_outcome(final(self).state(), r) == grammar::while_stmt(
                old(self).tokens@,
                old(self).state(),
            ),
        decreases old(self).tokens@.len() - old(self).position, 58nat,
    {
        reveal(grammar::while_stmt);
        reveal(grammar::block);
        reveal(grammar::condition);
        let while_span = self.current().span;
        self.advance_position();

        let condition = self.parse_condition();
        self.expect_block()?;
        let block = self.block()?;

        Ok(
            Stmt::While(
                Typed::new(
                    WhileStmt { condition, body: block },
                    self.create_span(while_span, self.previous().span),
                ),
            ),
        )
    }

    /// The first clause of a `for`.
    fn for_initializer(&mut self) -> (r: ParseResult<Option<Stmt>>)
        requires
            old(self).valid(),
        ensures
            final(self).follows(old(self)),
            r is Ok ==> final(self).position > old(self).position,
            opt_stmt_outcome(final(self).state(), r) == grammar::for_initializer(
                old(self).tokens@,
                old(self).state(),
            ),
        decreases old(self).tokens@.len() - old(self).position, 60nat,
    {
        reveal(grammar::for_initializer);
        reveal(grammar::var_declaration);
        reveal(grammar::expression_stmt);
        if self.matches([TokenKind::Var]) {
            Ok(Some(self.var_declaration()?))
        } else if !self.consume([TokenKind::Semicolon]) {
            Ok(Some(self.expression_stmt()?))
        } else {
            Ok(None)
        }
    }

    /// The second clause of a `for`, and its semicolon.
    fn for_condition(&mut self) -> (r: ParseResult<Expr>)
        requires
            old(self).valid(),
            old(self).position > 0,
        ensures
            final(self).follows(old(self)),
            expr_outcome(final(self).state(), r) == grammar::for_condition(
                old(self).tokens@,
                old(self).state(),
            ),
        decreases old(self).tokens@.len() - old(self).position, 54nat,
    {
        reveal(grammar::for_condition);
        reveal(grammar::expression);
        let condition = if !self.matches([TokenKind::Semicolon]) {
            self.expression()?
        } else {
            Expr::Literal(Typed::new(LiteralExpr::Bool(true), self.previous().span))
        };

        if !self.consume([TokenKind::Semicolon]) {
            let behind = self.next_span(self.previous().span);
            self.report(ParseErrorKind::MissingSemicolon { span: behind });
        }
        Ok(condition)
    }

    /// The third clause of a `for`.
    fn for_increment(&mut self, parenthesised: bool) -> (r: ParseResult<Option<Expr>>)
        requires
            old(self).valid(),
        ensures
            final(self).follows(old(self)),
            opt_expr_outcome(final(self).state(), r) == grammar::for_increment(
                old(self).tokens@,
                old(self).state(),
                parenthesised,
            ),
        decreases old(self).tokens@.len() - old(self).position, 54nat,
    {
        reveal(grammar::for_increment);
        reveal(grammar::expression);
        if self.matches([TokenKind::LeftBrace]) || (parenthesised && self.matches(
            [TokenKind::RightParen],
        )) {
            Ok(None)
        } else {
            Ok(Some(self.expression()?))
        }
    }

    /// current is for, end is after block
    #[verifier::rlimit(50)]
    fn for_stmt(&mut self) -> (r: ParseResult<Stmt>)
        requires
            old(self).valid(),
            grammar::kind_at(old(self).tokens@, old(self).state()) == TokenKind::For,
        ensures
            final(self).steps(old(self), r is Ok),
            stmt_outcome(final(self).state(), r) == grammar::for_stmt(
                old(self).tokens@,
                old(self).state(),
            ),
        decreases old(self).tokens@.len() - old(self).position, 58nat,
    {
        reveal(grammar::for_stmt);
        reveal(grammar::block);
        reveal(grammar::for_initializer);
        reveal(grammar::for_condition);
        reveal(grammar::for_increment);
        let for_span = self.current().span;
        self.advance_position();

        let parenthesised = self.matches([TokenKind::LeftParen]);
        if parenthesised {
            self.open_delimiter()?;
        }
        let initializer = self.for_initializer()?;
        let condition = self.for_condition()?;
        let increment = self.for_increment(parenthesised)?;
        let to_increment = self.create_span(for_span, self.previous().span);
        if parenthesised {
            self.close_delimiter()?;
        }
        self.expect_block()?;
        let body = self.block()?;
        let whole = self.create_span(for_span, self.previous().span);

        Ok(desugar_for(initializer, condition, increment, body, whole, to_increment))
    }

    /// current is `return` end is next statement
    fn return_stmt(&mut self) -> (r: ParseResult<Stmt>)
        requires
            old(self).valid(),
            grammar::kind_at(old(self).tokens@, old(self).state()) == TokenKind::Return,
        ensures
            final(self).steps(old(self), r is Ok),
            stmt_outcome(final(self).state(), r) == grammar::return_stmt(
                old(self).tokens@,
                old(self).state(),
            ),
        decreases old(self).tokens@.len() - old(self).position, 58nat,
    {
        reveal(grammar::return_stmt);
        reveal(grammar::expression);
        let left_return_span = self.current().span;
        self.advance_position();

        let value = if !self.matches([TokenKind::Semicolon]) {
            if self.matches([TokenKind::EOF]) {
                return Err(ParseErrorKind::ExpectedExpression { span: self.current().span });
            }
            Some(self.expression()?)
        } else {
            None
        };

        let last = self.statement_end_span();
        self.expect_semicolon();
        Ok(
            Stmt::Return(
                Typed::new(value, self.create_span(left_return_span, last)),
            ),
        )
    }
}

/// The tree that a `for` stands for: a block that holds the initialiser and a
/// `while`, whose body ends with the increment.
pub fn desugar_for(
    initializer: Option<Stmt>,
    condition: Expr,
    increment: Option<Expr>,
    body: Typed<BlockStmt>,
    whole: Span,
    to_increment: Span,
) -> (result: Stmt)
    ensures
        result@ == grammar::desugared_for(
            match initializer {
                Some(init) => Some(init@),
                None => None,
            },
            condition@,
            match increment {
                Some(inc) => Some(inc@),
                None => None,
            },
            block_view(body),
            whole,
            to_increment,
        ),
{
    let ghost body_view = block_view(body);
    let ghost first = match &initializer {
        Some(init) => Some(init@),
        None => None,
    };
    let ghost step = match &increment {
        Some(inc) => Some(inc@),
        None => None,
    };
    let ghost wanted = grammar::desugared_for(
        first,
        condition@,
        step,
        body_view,
        whole,
        to_increment,
    );

    let mut statements: Vec<Stmt> = Vec::new();
    if let Some(init) = initializer {
        statements.push(init);
    }
    let body_span = body.span;
    let body_type = body.type_id;
    let mut while_body_statements = body.node.statements;
    proof {
        lemma_stmts_value(while_body_statements);
    }
    if let Some(inc) = increment {
        let ghost before = while_body_statements@;
        let last = Stmt::ExprStmt(Typed::new(inc, to_increment));
        assert(last@ == (StmtView::ExprStmt { expr: inc@, meta: at(to_increment) }));
        while_body_statements.push(last);
        assert(stmt_views(while_body_statements@) =~= stmt_views(before).push(last@));
    }
    let while_body = Typed {
        node: BlockStmt { statements: while_body_statements },
        span: body_span,
        type_id: body_type,
    };
    proof {
        lemma_stmts_value(while_body_statements);
    }
    assert(block_view(while_body) == (BlockView {
        statements: stmt_views(while_body_statements@),
        meta: body_view.meta,
    }));
    let while_stmt = Stmt::While(Typed::new(WhileStmt { condition, body: while_body }, whole));
    assert(while_stmt@ == (StmtView::While {
        condition: condition@,
        body: block_view(while_body),
        meta: at(whole),
    }));
    let ghost before = statements@;
    statements.push(while_stmt);
    assert(stmt_views(statements@) =~= stmt_views(before).push(while_stmt@));
    assert(stmt_views(statements@) =~= match first {
        Some(init) => seq![init, while_stmt@],
        None => seq![while_stmt@],
    });
    let desugared = Typed::new(BlockStmt { statements }, whole);
    proof {
        lemma_stmts_value(statements);
    }
    assert(block_view(desugared) == (BlockView {
        statements: stmt_views(statements@),
        meta: at(whole),
    }));
    let result = Stmt::Block(desugared);
    assert(result@ == wanted);
    result
}

} // verus!
