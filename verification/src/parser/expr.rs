//! The rules for expressions.

use super::{expr_outcome, ParseResult, Parser};
use crate::ast::{
    expr_views, lemma_exprs_value, AssignExpr, BinaryExpr, BinaryOp, CallExpr, Expr, ExprView,
    LambdaExpr, LiteralExpr, LiteralView, LogicalExpr, LogicalOp, Typed, UnaryExpr, UnaryOp,
};
use crate::error::{Expected, IdentContext, NameFault, ParseErrorKind, Side};
use crate::grammar;
use crate::grammar::{BinaryLevel, Parsed};
use crate::span::Span;
use crate::token::TokenKind;
use vstd::prelude::*;

verus! {

impl Parser {
    /// The operator of `level` that the current token spells.
    fn binary_operator(&self, level: BinaryLevel) -> (op: Option<BinaryOp>)
        requires
            self.valid(),
        ensures
            op == level.operator(grammar::kind_at(self.tokens@, self.state())),
    {
        match (level, self.current().token_kind) {
            (BinaryLevel::Equality, TokenKind::BangEqual) => Some(BinaryOp::BangEqual),
            (BinaryLevel::Equality, TokenKind::EqualEqual) => Some(BinaryOp::EqualEqual),
            (BinaryLevel::Comparison, TokenKind::Less) => Some(BinaryOp::Less),
            (BinaryLevel::Comparison, TokenKind::LessEqual) => Some(BinaryOp::LessEqual),
            (BinaryLevel::Comparison, TokenKind::Greater) => Some(BinaryOp::Greater),
            (BinaryLevel::Comparison, TokenKind::GreaterEqual) => Some(BinaryOp::GreaterEqual),
            (BinaryLevel::Term, TokenKind::Plus) => Some(BinaryOp::Plus),
            (BinaryLevel::Term, TokenKind::Minus) => Some(BinaryOp::Minus),
            (BinaryLevel::Factor, TokenKind::Slash) => Some(BinaryOp::Slash),
            (BinaryLevel::Factor, TokenKind::Star) => Some(BinaryOp::Star),
            _ => None,
        }
    }

    /// starts at first token, ends after the last token of the expression
    pub(super) fn expression(&mut self) -> (r: ParseResult<Expr>)
        requires
            old(self).valid(),
        ensures
            final(self).steps(old(self), r is Ok),
            expr_outcome(final(self).state(), r) == grammar::expression(
                old(self).tokens@,
                old(self).state(),
            ),
        decreases old(self).tokens@.len() - old(self).position, 52nat,
    {
        reveal(grammar::expression);
        reveal(grammar::lambda_expr);
        reveal(grammar::assignment);
        if self.matches([TokenKind::Fun]) {
            return self.lambda_expr();
        }
        self.assignment()
    }

    #[verifier::rlimit(50)]
    pub(super) fn assignment(&mut self) -> (r: ParseResult<Expr>)
        requires
            old(self).valid(),
        ensures
            final(self).steps(old(self), r is Ok),
            expr_outcome(final(self).state(), r) == grammar::assignment(
                old(self).tokens@,
                old(self).state(),
            ),
        decreases old(self).tokens@.len() - old(self).position, 50nat,
    {
        reveal(grammar::assignment);
        reveal(grammar::expression);
        reveal(grammar::logical);
        let left_assignment_span = self.current().span;
        let expr = self.logic_or()?;

        if self.consume([TokenKind::Equal]) {
            let equal_span = self.previous().span;

            let result = self.expression();
            let value = match result {
                Ok(val) => val,
                Err(_) => {
                    return Err(ParseErrorKind::ExpectedExpression { span: self.previous().span })
                },
            };

            return match expr {
                Expr::Variable(variable_ident) => Ok(
                    Expr::Assign(
                        Typed::new(
                            AssignExpr { target: variable_ident, value: Box::new(value) },
                            self.create_span(left_assignment_span, self.previous().span),
                        ),
                    ),
                ),
                _ => Err(
                    ParseErrorKind::ExpectedIdentifier {
                        span: equal_span,
                        context: IdentContext::VariableName,
                    },
                ),
            };
        }
        Ok(expr)
    }

    #[verifier::rlimit(50)]
    pub(super) fn lambda_expr(&mut self) -> (r: ParseResult<Expr>)
        requires
            old(self).valid(),
            grammar::kind_at(old(self).tokens@, old(self).state()) == TokenKind::Fun,
        ensures
            final(self).steps(old(self), r is Ok),
            expr_outcome(final(self).state(), r) == grammar::lambda_expr(
                old(self).tokens@,
                old(self).state(),
            ),
        decreases old(self).tokens@.len() - old(self).position, 50nat,
    {
        reveal(grammar::lambda_expr);
        reveal(grammar::block);
        let left_lambda_span = self.current().span;
        self.advance_position();

        let parameters = self.parse_function_parameters()?;
        self.expect_block()?;
        let block = self.block()?;

        Ok(
            Expr::Lambda(
                Typed::new(
                    LambdaExpr { parameters, body: block },
                    self.create_span(left_lambda_span, self.previous().span),
                ),
            ),
        )
    }

    pub(super) fn logic_or(&mut self) -> (r: ParseResult<Expr>)
        requires
            old(self).valid(),
        ensures
            final(self).steps(old(self), r is Ok),
            expr_outcome(final(self).state(), r) == grammar::logical(
                old(self).tokens@,
                old(self).state(),
                LogicalOp::Or,
            ),
        decreases old(self).tokens@.len() - old(self).position, 49nat,
    {
        reveal(grammar::logical);
        reveal(grammar::logical_rest);
        reveal(grammar::binary);
        self.logical(LogicalOp::Or)
    }

    fn logic_and(&mut self) -> (r: ParseResult<Expr>)
        requires
            old(self).valid(),
        ensures
            final(self).steps(old(self), r is Ok),
            expr_outcome(final(self).state(), r) == grammar::logical(
                old(self).tokens@,
                old(self).state(),
                LogicalOp::And,
            ),
        decreases old(self).tokens@.len() - old(self).position, 47nat,
    {
        reveal(grammar::logical);
        reveal(grammar::logical_rest);
        reveal(grammar::binary);
        self.logical(LogicalOp::And)
    }

    /// The operands of `op` and the operators between them.
    #[verifier::rlimit(50)]
    fn logical(&mut self, op: LogicalOp) -> (r: ParseResult<Expr>)
        requires
            old(self).valid(),
        ensures
            final(self).steps(old(self), r is Ok),
            expr_outcome(final(self).state(), r) == grammar::logical(
                old(self).tokens@,
                old(self).state(),
                op,
            ),
        decreases old(self).tokens@.len() - old(self).position, 2 * op.rank(),
    {
        reveal(grammar::logical);
        reveal(grammar::logical_rest);
        reveal(grammar::binary);
        let left_span = self.current().span;
        let ghost t = self.tokens@;
        let ghost start = self.state();
        let first = match op {
            LogicalOp::Or => self.logic_and(),
            LogicalOp::And => self.equality(),
        };
        let mut expr = first?;
        loop
            invariant
                self.follows(old(self)),
                self.position > old(self).position,
                t == self.tokens@,
                start == old(self).state(),
                grammar::logical_rest(t, self.state(), op, left_span, expr@) == grammar::logical(
                    t,
                    start,
                    op,
                ),
            decreases self.tokens@.len() - self.position,
        {
            reveal(grammar::logical_rest);
            reveal(grammar::logical);
            reveal(grammar::binary);
            let spelled = match op {
                LogicalOp::Or => TokenKind::Or,
                LogicalOp::And => TokenKind::And,
            };
            if !self.current_is(spelled) {
                return Ok(expr);
            }
            self.advance_position();

            if self.current_is(TokenKind::Semicolon) {
                let span = self.current().span;
                self.report(ParseErrorKind::ExpectedExpression { span });
                let right = Expr::Literal(Typed::new(LiteralExpr::Bool(false), span));
                assert(right@ == grammar::literal(LiteralView::Bool(false), span));
                return Ok(
                    Expr::Logical(
                        Typed::new(
                            LogicalExpr { left: Box::new(expr), op, right: Box::new(right) },
                            self.create_span(left_span, self.previous().span),
                        ),
                    ),
                );
            }
            let right = match op {
                LogicalOp::Or => self.logic_and(),
                LogicalOp::And => self.equality(),
            }?;
            expr =
            Expr::Logical(
                Typed::new(
                    LogicalExpr { left: Box::new(expr), op, right: Box::new(right) },
                    self.create_span(left_span, self.previous().span),
                ),
            );
        }
    }

    fn equality(&mut self) -> (r: ParseResult<Expr>)
        requires
            old(self).valid(),
        ensures
            final(self).steps(old(self), r is Ok),
            expr_outcome(final(self).state(), r) == grammar::binary(
                old(self).tokens@,
                old(self).state(),
                BinaryLevel::Equality,
            ),
        decreases old(self).tokens@.len() - old(self).position, 45nat,
    {
        reveal(grammar::binary);
        reveal(grammar::binary_rest);
        reveal(grammar::unary);
        self.binary(BinaryLevel::Equality)
    }

    fn comparison(&mut self) -> (r: ParseResult<Expr>)
        requires
            old(self).valid(),
        ensures
            final(self).steps(old(self), r is Ok),
            expr_outcome(final(self).state(), r) == grammar::binary(
                old(self).tokens@,
                old(self).state(),
                BinaryLevel::Comparison,
            ),
        decreases old(self).tokens@.len() - old(self).position, 43nat,
    {
        reveal(grammar::binary);
        reveal(grammar::binary_rest);
        reveal(grammar::unary);
        self.binary(BinaryLevel::Comparison)
    }

    fn term(&mut self) -> (r: ParseResult<Expr>)
        requires
            old(self).valid(),
        ensures
            final(self).steps(old(self), r is Ok),
            expr_outcome(final(self).state(), r) == grammar::binary(
                old(self).tokens@,
                old(self).state(),
                BinaryLevel::Term,
            ),
        decreases old(self).tokens@.len() - old(self).position, 41nat,
    {
        reveal(grammar::binary);
        reveal(grammar::binary_rest);
        reveal(grammar::unary);
        self.binary(BinaryLevel::Term)
    }

    fn factor(&mut self) -> (r: ParseResult<Expr>)
        requires
            old(self).valid(),
        ensures
            final(self).steps(old(self), r is Ok),
            expr_outcome(final(self).state(), r) == grammar::binary(
                old(self).tokens@,
                old(self).state(),
                BinaryLevel::Factor,
            ),
        decreases old(self).tokens@.len() - old(self).position, 39nat,
    {
        reveal(grammar::binary);
        reveal(grammar::binary_rest);
        reveal(grammar::unary);
        self.binary(BinaryLevel::Factor)
    }

    /// The operands of the operators of `level` and the operators between
    /// them.
    #[verifier::rlimit(50)]
    fn binary(&mut self, level: BinaryLevel) -> (r: ParseResult<Expr>)
        requires
            old(self).valid(),
        ensures
            final(self).steps(old(self), r is Ok),
            expr_outcome(final(self).state(), r) == grammar::binary(
                old(self).tokens@,
                old(self).state(),
                level,
            ),
        decreases old(self).tokens@.len() - old(self).position, 2 * level.rank(),
    {
        reveal(grammar::binary);
        reveal(grammar::binary_rest);
        reveal(grammar::unary);
        let left_span = self.current().span;
        let ghost t = self.tokens@;
        let ghost start = self.state();
        let first = match level {
            BinaryLevel::Equality => self.comparison(),
            BinaryLevel::Comparison => self.term(),
            BinaryLevel::Term => self.factor(),
            BinaryLevel::Factor => self.unary(),
        };
        let mut expr = first?;
        loop
            invariant
                self.follows(old(self)),
                self.position > old(self).position,
                t == self.tokens@,
                start == old(self).state(),
                grammar::binary_rest(t, self.state(), level, left_span, expr@) == grammar::binary(
                    t,
                    start,
                    level,
                ),
            decreases self.tokens@.len() - self.position,
        {
            reveal(grammar::binary_rest);
            reveal(grammar::binary);
            reveal(grammar::unary);
            let op = match self.binary_operator(level) {
                Some(op) => op,
                None => {
                    return Ok(expr);
                },
            };
            let operator_span = self.current().span;
            self.advance_position();
            let result = match level {
                BinaryLevel::Equality => self.comparison(),
                BinaryLevel::Comparison => self.term(),
                BinaryLevel::Term => self.factor(),
                BinaryLevel::Factor => self.unary(),
            };
            let right = self.expect_expr(result, Side::Right, operator_span)?;
            expr =
            Expr::Binary(
                Typed::new(
                    BinaryExpr { left: Box::new(expr), op, right: Box::new(right) },
                    self.create_span(left_span, self.previous().span),
                ),
            );
        }
    }

    fn unary(&mut self) -> (r: ParseResult<Expr>)
        requires
            old(self).valid(),
        ensures
            final(self).steps(old(self), r is Ok),
            expr_outcome(final(self).state(), r) == grammar::unary(
                old(self).tokens@,
                old(self).state(),
            ),
        decreases old(self).tokens@.len() - old(self).position, 36nat,
    {
        reveal(grammar::unary);
        reveal(grammar::call);
        let unary_left_span = self.current().span;
        let op = match self.current().token_kind {
            TokenKind::Bang => UnaryOp::Bang,
            TokenKind::Minus => UnaryOp::Minus,
            _ => {
                return self.call();
            },
        };
        self.advance_position();
        let result = self.unary();
        let expr = self.expect_expr(result, Side::Right, unary_left_span)?;

        Ok(
            Expr::Unary(
                Typed::new(
                    UnaryExpr { op, expr: Box::new(expr) },
                    self.create_span(unary_left_span, self.previous().span),
                ),
            ),
        )
    }

    #[verifier::rlimit(50)]
    fn call(&mut self) -> (r: ParseResult<Expr>)
        requires
            old(self).valid(),
        ensures
            final(self).steps(old(self), r is Ok),
            expr_outcome(final(self).state(), r) == grammar::call(
                old(self).tokens@,
                old(self).state(),
            ),
        decreases old(self).tokens@.len() - old(self).position, 34nat,
    {
        reveal(grammar::call);
        reveal(grammar::call_rest);
        reveal(grammar::primary);
        reveal(grammar::finish_call);
        let left_span = self.current().span;
        let ghost t = self.tokens@;
        let ghost start = self.state();
        let mut expr = self.primary()?;

        while self.matches([TokenKind::LeftParen])
            invariant
                self.follows(old(self)),
                self.position > old(self).position,
                t == self.tokens@,
                start == old(self).state(),
                grammar::call_rest(t, self.state(), left_span, expr@) == grammar::call(t, start),
            decreases self.tokens@.len() - self.position,
        {
            reveal(grammar::call_rest);
            reveal(grammar::finish_call);
            expr = self.finish_call(expr, left_span)?;
        }

        Ok(expr)
    }

    // current is '('
    #[verifier::rlimit(50)]
    fn finish_call(&mut self, callee: Expr, first: Span) -> (r: ParseResult<Expr>)
        requires
            old(self).valid(),
        ensures
            final(self).steps(old(self), r is Ok),
            expr_outcome(final(self).state(), r) == grammar::finish_call(
                old(self).tokens@,
                old(self).state(),
                first,
                callee@,
            ),
        decreases old(self).tokens@.len() - old(self).position, 32nat,
    {
        reveal(grammar::finish_call);
        reveal(grammar::arguments);
        let left_paren_span = self.current().span;
        self.open_delimiter()?;

        if self.matches([TokenKind::EOF, TokenKind::Semicolon]) {
            self.forget_delimiter();
            return Err(
                ParseErrorKind::UnclosedDelimiter {
                    span: left_paren_span,
                    delimiter: TokenKind::LeftParen,
                },
            );
        }
        let arguments: Vec<Expr> = if self.matches([TokenKind::RightParen]) {
            let none: Vec<Expr> = Vec::new();
            assert(expr_views(none@) =~= Seq::<ExprView>::empty());
            none
        } else {
            self.arguments()?
        };
        self.close_delimiter()?;
        proof {
            lemma_exprs_value(arguments);
        }

        Ok(
            Expr::Call(
                Typed::new(
                    CallExpr { callee: Box::new(callee), arguments },
                    self.create_span(first, self.previous().span),
                ),
            ),
        )
    }

    /// The arguments of a call, up to the token behind the last of them.
    #[verifier::rlimit(50)]
    fn arguments(&mut self) -> (r: ParseResult<Vec<Expr>>)
        requires
            old(self).valid(),
        ensures
            final(self).steps(old(self), r is Ok),
            (Parsed {
                state: final(self).state(),
                out: match r {
                    Ok(list) => Ok(expr_views(list@)),
                    Err(e) => Err(e),
                },
            }) == grammar::arguments(
                old(self).tokens@,
                old(self).state(),
                Seq::<ExprView>::empty(),
            ),
        decreases old(self).tokens@.len() - old(self).position, 54nat,
    {
        reveal(grammar::arguments);
        reveal(grammar::expression);
        let ghost t = self.tokens@;
        let ghost start = self.state();
        let mut arguments: Vec<Expr> = Vec::new();
        assert(expr_views(arguments@) =~= Seq::<ExprView>::empty());
        loop
            invariant
                self.follows(old(self)),
                t == self.tokens@,
                start == old(self).state(),
                arguments@.len() > 0 ==> self.position > old(self).position,
                arguments@.len() == 0 ==> self.state() == start,
                grammar::arguments(t, self.state(), expr_views(arguments@)) == grammar::arguments(
                    t,
                    start,
                    Seq::<ExprView>::empty(),
                ),
            decreases self.tokens@.len() - self.position,
        {
            reveal(grammar::arguments);
            reveal(grammar::expression);
            let ghost seen = expr_views(arguments@);
            let argument = self.expression()?;
            arguments.push(argument);
            assert(expr_views(arguments@) =~= seen.push(argument@));
            if !self.consume([TokenKind::Comma]) {
                return Ok(arguments);
            }
        }
    }

    /// current is token to parse, end is after the token
    #[verifier::rlimit(50)]
    fn primary(&mut self) -> (r: ParseResult<Expr>)
        requires
            old(self).valid(),
        ensures
            final(self).steps(old(self), r is Ok),
            expr_outcome(final(self).state(), r) == grammar::primary(
                old(self).tokens@,
                old(self).state(),
            ),
        decreases old(self).tokens@.len() - old(self).position, 32nat,
    {
        reveal(grammar::primary);
        reveal(grammar::expression);
        let span = self.current().span;
        match self.current().token_kind {
            TokenKind::RightBrace | TokenKind::RightParen => {
                let delimiter = self.current().token_kind;
                self.close_delimiter()?;
                Err(ParseErrorKind::UnexpectedClosingDelimiter { span, delimiter })
            },
            TokenKind::False => {
                self.advance_position();
                Ok(Expr::Literal(Typed::new(LiteralExpr::Bool(false), span)))
            },
            TokenKind::True => {
                self.advance_position();
                Ok(Expr::Literal(Typed::new(LiteralExpr::Bool(true), span)))
            },
            TokenKind::Nil => {
                self.advance_position();
                Ok(Expr::Literal(Typed::new(LiteralExpr::Nil, span)))
            },
            TokenKind::LeftParen => {
                self.open_delimiter()?;

                if self.current_is(TokenKind::RightParen) {
                    let empty = self.create_span(span, self.current().span);
                    let _ = self.close_delimiter();
                    return Err(ParseErrorKind::ExpectedExpression { span: empty });
                }
                let expr = self.expression()?;

                self.close_delimiter()?;

                Ok(
                    Expr::Grouping(
                        Typed::new(Box::new(expr), self.create_span(span, self.previous().span)),
                    ),
                )
            },
            TokenKind::Number => {
                let numeral = self.current().literal.clone();
                self.advance_position();

                if self.current_is(TokenKind::Ident) {
                    return Err(
                        ParseErrorKind::InvalidVariableName {
                            span,
                            fault: NameFault::StartsWithDigit,
                        },
                    );
                }
                Ok(Expr::Literal(Typed::new(LiteralExpr::Number(numeral), span)))
            },
            TokenKind::String => {
                let string = self.current().literal.clone();
                self.advance_position();
                Ok(Expr::Literal(Typed::new(LiteralExpr::String(string), span)))
            },
            TokenKind::Ident => {
                let name = self.ident_here();
                self.advance_position();
                Ok(Expr::Variable(name))
            },
            TokenKind::EOF => Err(ParseErrorKind::UnexpectedEOF { expected: Expected::Expression }),
            TokenKind::Semicolon => {
                self.advance_position();
                Err(ParseErrorKind::RedundantSemicolon { span })
            },
            found => Err(
                ParseErrorKind::UnexpectedToken { span, found, expected: Expected::Primary },
            ),
        }
    }
}

} // verus!
