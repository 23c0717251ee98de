//! The parser: recursive descent with one token of lookahead, recovery in
//! panic mode, and a stack of open delimiters.
//!
//! Every rule computes the function of the same name in [`crate::grammar`].

use crate::ast::{
    block_view, ident_view, ident_views, lemma_stmts_value, stmt_views, BlockStmt, BlockView,
    Delimiter, DelimiterKind, Expr, ExprView, Ident, IdentView, Program, Stmt, StmtView, Typed,
};
use crate::error::{
    Expected, IdentContext, NameFault, ParseError, ParseErrorKind, ParseErrorView, Side,
};
use crate::grammar;
use crate::coverage::stmts_placed;
use crate::grammar::{Cursor, Parsed};
use crate::progress::lemma_program_items;
use crate::span::{covering, just_after, Span};
use crate::token::{stream_well_formed, Token, TokenKind};
use vstd::prelude::*;
use vstd::string::*;

mod expr;
mod stmt;

verus! {

/// What a rule of the parser returns.
pub type ParseResult<T> = Result<T, ParseErrorKind>;

/// The parser of one token sequence.
pub struct Parser {
    pub(crate) tokens: Vec<Token>,
    pub(crate) position: usize,
    pub(crate) errors: Vec<ParseErrorKind>,
    pub(crate) source: String,
    pub(crate) delimiter_stack: Vec<Delimiter>,
}

/// What a rule without a value yielded, as the grammar states it.
pub open spec fn unit_outcome(state: Cursor, r: ParseResult<()>) -> Parsed<()> {
    Parsed { state, out: r }
}

/// What a rule for an expression yielded, as the grammar states it.
pub open spec fn expr_outcome(state: Cursor, r: ParseResult<Expr>) -> Parsed<ExprView> {
    Parsed {
        state,
        out: match r {
            Ok(e) => Ok(e@),
            Err(k) => Err(k),
        },
    }
}

/// What a rule for an optional expression yielded, as the grammar states it.
pub open spec fn opt_expr_outcome(state: Cursor, r: ParseResult<Option<Expr>>) -> Parsed<
    Option<ExprView>,
> {
    Parsed {
        state,
        out: match r {
            Ok(Some(e)) => Ok(Some(e@)),
            Ok(None) => Ok(None),
            Err(k) => Err(k),
        },
    }
}

/// What a rule for a statement yielded, as the grammar states it.
pub open spec fn stmt_outcome(state: Cursor, r: ParseResult<Stmt>) -> Parsed<StmtView> {
    Parsed {
        state,
        out: match r {
            Ok(s) => Ok(s@),
            Err(k) => Err(k),
        },
    }
}

/// What a rule for an optional statement yielded, as the grammar states it.
pub open spec fn opt_stmt_outcome(state: Cursor, r: ParseResult<Option<Stmt>>) -> Parsed<
    Option<StmtView>,
> {
    Parsed {
        state,
        out: match r {
            Ok(Some(s)) => Ok(Some(s@)),
            Ok(None) => Ok(None),
            Err(k) => Err(k),
        },
    }
}

/// What the rule for a block yielded, as the grammar states it.
pub open spec fn block_outcome(state: Cursor, r: ParseResult<Typed<BlockStmt>>) -> Parsed<
    BlockView,
> {
    Parsed {
        state,
        out: match r {
            Ok(b) => Ok(block_view(b)),
            Err(k) => Err(k),
        },
    }
}

/// What a rule for a name yielded, as the grammar states it.
pub open spec fn ident_outcome(state: Cursor, r: ParseResult<Ident>) -> Parsed<IdentView> {
    Parsed {
        state,
        out: match r {
            Ok(i) => Ok(ident_view(i)),
            Err(k) => Err(k),
        },
    }
}

/// What the rule for a parameter list yielded, as the grammar states it.
pub open spec fn idents_outcome(state: Cursor, r: ParseResult<Vec<Ident>>) -> Parsed<
    Seq<IdentView>,
> {
    Parsed {
        state,
        out: match r {
            Ok(v) => Ok(ident_views(v@)),
            Err(k) => Err(k),
        },
    }
}

impl DelimiterKind {
    /// The token that opens a delimiter of this kind.
    pub fn open_token(self) -> (kind: TokenKind)
        ensures
            kind == self.opening(),
    {
        match self {
            DelimiterKind::Paren => TokenKind::LeftParen,
            DelimiterKind::Brace => TokenKind::LeftBrace,
        }
    }

    /// The token that closes a delimiter of this kind.
    pub fn close_token(self) -> (kind: TokenKind)
        ensures
            kind == self.closing(),
    {
        match self {
            DelimiterKind::Paren => TokenKind::RightParen,
            DelimiterKind::Brace => TokenKind::RightBrace,
        }
    }
}

// The cursor.
impl Parser {
    /// The parser holds a token sequence that ends with the end-of-input
    /// marker, and its cursor is on one of the tokens.
    pub closed spec fn wf(&self) -> bool {
        self.valid()
    }

    pub(crate) open spec fn valid(&self) -> bool {
        &&& stream_well_formed(self.tokens@)
        &&& self.position < self.tokens@.len()
    }

    /// The tokens that are parsed.
    pub closed spec fn tokens(&self) -> Seq<Token> {
        self.tokens@
    }

    /// The source text that the diagnostics will carry.
    pub closed spec fn source(&self) -> Seq<char> {
        self.source@
    }

    /// The state of the parse.
    pub closed spec fn cursor(&self) -> Cursor {
        self.state()
    }

    pub(crate) open spec fn state(&self) -> Cursor {
        Cursor {
            pos: self.position as int,
            delims: self.delimiter_stack@,
            errors: self.errors@,
        }
    }

    /// The parser is well formed, holds the input of `before`, and is not
    /// behind it.
    pub(crate) open spec fn follows(&self, before: &Parser) -> bool {
        &&& self.valid()
        &&& self.tokens == before.tokens
        &&& self.source == before.source
        &&& self.position >= before.position
        &&& before.errors@.is_prefix_of(self.errors@)
    }

    /// What holds behind every rule: the parser follows `before`; a rule that
    /// succeeded has passed a token; and one that has passed none at a closing
    /// brace has taken a delimiter off the stack of open ones.
    pub(crate) open spec fn steps(&self, before: &Parser, succeeded: bool) -> bool {
        &&& self.follows(before)
        &&& succeeded ==> self.position > before.position
        &&& (self.position == before.position && before.tokens@[before.position as int].token_kind
            == TokenKind::RightBrace) ==> self.delimiter_stack@.len()
            < before.delimiter_stack@.len()
    }

    fn current(&self) -> (token: &Token)
        requires
            self.valid(),
        ensures
            *token == self.tokens@[self.position as int],
    {
        &self.tokens[self.position]
    }

    fn previous(&self) -> (token: &Token)
        requires
            self.valid(),
            self.position > 0,
        ensures
            *token == self.tokens@[self.position - 1],
    {
        &self.tokens[self.position - 1]
    }

    /// The token behind the current one, which is not the last.
    fn peek(&self) -> (token: &Token)
        requires
            self.valid(),
            !grammar::at_eof(self.tokens@, self.state()),
        ensures
            *token == self.tokens@[self.position + 1],
    {
        let n: usize = self.tokens.len();
        assert(self.position + 1 < n);
        &self.tokens[self.position + 1]
    }

    fn at_eof(&self) -> (end: bool)
        requires
            self.valid(),
        ensures
            end == grammar::at_eof(self.tokens@, self.state()),
    {
        self.current().token_kind == TokenKind::EOF
    }

    fn advance_position(&mut self)
        requires
            old(self).valid(),
        ensures
            final(self).follows(old(self)),
            final(self).state() == grammar::advance(old(self).tokens@, old(self).state()),
    {
        let n: usize = self.tokens.len();
        if !self.at_eof() {
            assert(self.position + 1 < n);
            self.position += 1;
        }
    }

    fn current_is(&self, kind: TokenKind) -> (same: bool)
        requires
            self.valid(),
        ensures
            same == (grammar::kind_at(self.tokens@, self.state()) == kind),
    {
        self.current().token_kind == kind
    }

    /// Whether the current token is of one of `kinds`.
    fn matches<const N: usize>(&self, kinds: [TokenKind; N]) -> (found: bool)
        requires
            self.valid(),
        ensures
            found == kinds@.contains(grammar::kind_at(self.tokens@, self.state())),
    {
        let mut i: usize = 0;
        while i < N
            invariant
                i <= N,
                self.valid(),
                forall|j: int|
                    0 <= j < i ==> kinds@[j] != grammar::kind_at(self.tokens@, self.state()),
            decreases N - i,
        {
            if self.current_is(kinds[i]) {
                return true;
            }
            i += 1;
        }
        false
    }

    /// Passes the current token if it is of one of `kinds`.
    fn consume<const N: usize>(&mut self, kinds: [TokenKind; N]) -> (found: bool)
        requires
            old(self).valid(),
        ensures
            final(self).follows(old(self)),
            found == kinds@.contains(grammar::kind_at(old(self).tokens@, old(self).state())),
            final(self).state() == if found {
                grammar::advance(old(self).tokens@, old(self).state())
            } else {
                old(self).state()
            },
    {
        if self.matches(kinds) {
            self.advance_position();
            true
        } else {
            false
        }
    }

    /// * `start` - Starting span (inclusive)
    /// * `end` - Ending span (inclusive)
    fn create_span(&self, start: Span, end: Span) -> (span: Span)
        requires
            end.bounded(),
        ensures
            span == covering(start, end),
    {
        let right: usize = end.offset + end.len;
        if right >= start.offset {
            Span { offset: start.offset, len: right - start.offset }
        } else {
            Span { offset: start.offset, len: 0 }
        }
    }

    fn next_span(&self, current_span: Span) -> (span: Span)
        requires
            current_span.bounded(),
        ensures
            span == just_after(current_span),
    {
        Span { offset: current_span.offset + current_span.len, len: 0 }
    }

    fn report(&mut self, error: ParseErrorKind)
        requires
            old(self).valid(),
        ensures
            final(self).follows(old(self)),
            final(self).state() == old(self).state().report(error),
    {
        self.errors.push(error);
    }

    /// Forgets the innermost open delimiter, if one is open.
    fn forget_delimiter(&mut self)
        requires
            old(self).valid(),
        ensures
            final(self).follows(old(self)),
            final(self).state() == old(self).state().pop(),
    {
        let _ = self.delimiter_stack.pop();
    }

    /// The span of the last token of a statement whose expression ends at the
    /// cursor: that of the semicolon, or of the token before the cursor where
    /// the semicolon is missing.
    fn statement_end_span(&self) -> (span: Span)
        requires
            self.valid(),
            self.position > 0,
        ensures
            span == grammar::prev_span(
                self.tokens@,
                grammar::statement_end(self.tokens@, self.state()),
            ),
    {
        if self.current_is(TokenKind::Semicolon) {
            self.current().span
        } else {
            self.previous().span
        }
    }
}

// Recovery.
impl Parser {
    /// Skips up to the next token of `kind` or the end of input.
    fn eat_to_token(&mut self, kind: TokenKind)
        requires
            old(self).valid(),
        ensures
            final(self).follows(old(self)),
            final(self).state() == old(self).state().at_pos(
                grammar::seek(old(self).tokens@, old(self).position as int, kind),
            ),
            grammar::kind_at(final(self).tokens@, final(self).state()) == kind || grammar::at_eof(
                final(self).tokens@,
                final(self).state(),
            ),
            old(self).tokens@[old(self).position as int].token_kind != kind && !grammar::at_eof(
                old(self).tokens@,
                old(self).state(),
            ) ==> final(self).position > old(self).position,
    {
        while !self.at_eof() && !self.current_is(kind)
            invariant
                self.follows(old(self)),
                self.errors@ == old(self).errors@,
                self.delimiter_stack@ == old(self).delimiter_stack@,
                grammar::seek(self.tokens@, self.position as int, kind) == grammar::seek(
                    old(self).tokens@,
                    old(self).position as int,
                    kind,
                ),
            decreases self.tokens@.len() - self.position,
        {
            self.advance_position();
        }
    }

    /// skips past the next semicolon, stops before block ending
    fn skip_to_next_stmt(&mut self)
        requires
            old(self).valid(),
        ensures
            final(self).follows(old(self)),
            final(self).state() == grammar::skip_to_next_stmt(
                old(self).tokens@,
                old(self).state(),
            ),
            grammar::kind_at(old(self).tokens@, old(self).state()) != TokenKind::RightBrace
                && !grammar::at_eof(old(self).tokens@, old(self).state()) ==> final(self).position
                > old(self).position,
            final(self).delimiter_stack@ == old(self).delimiter_stack@,
            final(self).errors@ == old(self).errors@,
    {
        reveal(grammar::skip_to_next_stmt);
        while !self.matches([TokenKind::Semicolon, TokenKind::RightBrace]) && !self.at_eof()
            invariant
                self.follows(old(self)),
                self.errors@ == old(self).errors@,
                self.delimiter_stack@ == old(self).delimiter_stack@,
                grammar::stmt_boundary(self.tokens@, self.position as int)
                    == grammar::stmt_boundary(old(self).tokens@, old(self).position as int),
            decreases self.tokens@.len() - self.position,
        {
            self.advance_position();
        }
        if self.matches([TokenKind::Semicolon]) {
            self.advance_position();
        }
    }

    /// skips until next left paren
    fn skip_to_next_paren(&mut self)
        requires
            old(self).valid(),
        ensures
            final(self).follows(old(self)),
            final(self).state() == grammar::skip_to_next_paren(
                old(self).tokens@,
                old(self).state(),
            ),
            old(self).tokens@[old(self).position as int].token_kind != TokenKind::LeftParen
                && !grammar::at_eof(old(self).tokens@, old(self).state()) ==> final(self).position
                > old(self).position,
    {
        reveal(grammar::skip_to_next_paren);
        self.eat_to_token(TokenKind::LeftParen)
    }

    /// skips past the whole next block
    #[verifier::rlimit(50)]
    fn skip_next_block(&mut self)
        requires
            old(self).valid(),
        ensures
            final(self).follows(old(self)),
            final(self).state() == grammar::skip_next_block(old(self).tokens@, old(self).state()),
    {
        reveal(grammar::skip_next_block);
        let start: usize = self.position;
        self.eat_to_token(TokenKind::LeftBrace);
        if self.at_eof() {
            self.position = start;
            return ;
        }
        let ghost opening = self.position as int;
        self.advance_position();
        let mut brace_count: usize = 1;
        let n: usize = self.tokens.len();
        while brace_count > 0 && !self.at_eof()
            invariant
                self.follows(old(self)),
                n == self.tokens@.len(),
                self.errors@ == old(self).errors@,
                self.delimiter_stack@ == old(self).delimiter_stack@,
                0 <= opening < self.position,
                brace_count <= self.position - opening,
                grammar::block_end(self.tokens@, self.position as int, brace_count as nat)
                    == grammar::block_end(old(self).tokens@, opening + 1, 1),
            decreases self.tokens@.len() - self.position,
        {
            match self.current().token_kind {
                TokenKind::LeftBrace => {
                    brace_count += 1;
                    self.advance_position();
                },
                TokenKind::RightBrace => {
                    brace_count -= 1;
                    self.advance_position();
                },
                _ => self.advance_position(),
            }
        }
    }

    /// if `current` is not a left brace it skips the whole block
    fn expect_block(&mut self) -> (r: ParseResult<()>)
        requires
            old(self).valid(),
        ensures
            final(self).follows(old(self)),
            unit_outcome(final(self).state(), r) == grammar::expect_block(
                old(self).tokens@,
                old(self).state(),
            ),
            r is Ok ==> final(self).state() == old(self).state(),
    {
        reveal(grammar::expect_block);
        if !self.matches([TokenKind::LeftBrace]) {
            let opening_span = self.current().span;
            self.skip_next_block();
            return Err(ParseErrorKind::MissingBlock { span: opening_span });
        }
        Ok(())
    }

    /// if `current` is not a semicolon, it skips to the next statement
    fn expect_semicolon(&mut self)
        requires
            old(self).valid(),
            old(self).position > 0,
        ensures
            final(self).follows(old(self)),
            final(self).state() == grammar::expect_semicolon(
                old(self).tokens@,
                old(self).state(),
            ),
    {
        reveal(grammar::expect_semicolon);
        if !self.consume([TokenKind::Semicolon]) {
            let previous_span = self.previous().span;
            let next_span = self.next_span(previous_span);
            self.report(ParseErrorKind::MissingSemicolon { span: next_span });
            self.skip_to_next_stmt();
        }
    }

    fn expect_expr(&self, result: ParseResult<Expr>, side: Side, span: Span) -> (r: ParseResult<
        Expr,
    >)
        ensures
            r == match result {
                Ok(e) => Ok::<Expr, ParseErrorKind>(e),
                Err(_) => Err(ParseErrorKind::MissingOperand { span, side }),
            },
    {
        match result {
            Ok(e) => Ok(e),
            Err(_) => Err(ParseErrorKind::MissingOperand { span, side }),
        }
    }
}

// Delimiters.
impl Parser {
    /// current is the opening delimiter, end is the next token
    fn open_delimiter(&mut self) -> (r: ParseResult<()>)
        requires
            old(self).valid(),
        ensures
            final(self).steps(old(self), r is Ok),
            unit_outcome(final(self).state(), r) == grammar::open_delimiter(
                old(self).tokens@,
                old(self).state(),
            ),
            !grammar::at_eof(old(self).tokens@, old(self).state()) ==> final(self).position
                == old(self).position + 1,
            r is Ok <==> (grammar::kind_at(old(self).tokens@, old(self).state())
                == TokenKind::LeftParen || grammar::kind_at(old(self).tokens@, old(self).state())
                == TokenKind::LeftBrace),
    {
        reveal(grammar::open_delimiter);
        let span = self.current().span;
        let found = self.current().token_kind;
        match found {
            TokenKind::LeftParen => {
                self.delimiter_stack.push(Delimiter { delimiter: DelimiterKind::Paren, span });
                self.advance_position();
                Ok(())
            },
            TokenKind::LeftBrace => {
                self.delimiter_stack.push(Delimiter { delimiter: DelimiterKind::Brace, span });
                self.advance_position();
                Ok(())
            },
            _ => {
                self.advance_position();
                Err(
                    ParseErrorKind::UnexpectedToken {
                        span,
                        found,
                        expected: Expected::OpeningDelimiter,
                    },
                )
            },
        }
    }

    /// current is closing delimiter, end is the next token
    fn close_delimiter(&mut self) -> (r: ParseResult<()>)
        requires
            old(self).valid(),
        ensures
            final(self).steps(old(self), r is Ok),
            unit_outcome(final(self).state(), r) == grammar::close_delimiter(
                old(self).tokens@,
                old(self).state(),
            ),
    {
        reveal(grammar::close_delimiter);
        let span = self.current().span;
        let found = self.current().token_kind;
        let ghost before = self.delimiter_stack@;
        match self.delimiter_stack.pop() {
            None => {
                self.advance_position();
                Err(ParseErrorKind::UnexpectedClosingDelimiter { span, delimiter: found })
            },
            Some(last_delimiter) => {
                assert(self.delimiter_stack@ == before.drop_last());
                let expected_closing = last_delimiter.delimiter.close_token();
                if self.at_eof() {
                    Err(
                        ParseErrorKind::UnclosedDelimiter {
                            span: last_delimiter.span,
                            delimiter: last_delimiter.delimiter.open_token(),
                        },
                    )
                } else if found != expected_closing {
                    Err(
                        ParseErrorKind::UnmatchedDelimiter {
                            opening_span: last_delimiter.span,
                            closing_span: span,
                            expected: expected_closing,
                            found,
                        },
                    )
                } else {
                    self.advance_position();
                    Ok(())
                }
            },
        }
    }
}


// Names and parameters.
impl Parser {
    /// The name that the current token spells.
    fn ident_here(&self) -> (ident: Ident)
        requires
            self.valid(),
        ensures
            ident_view(ident) == grammar::ident_at(self.tokens@, self.state()),
    {
        let token = self.current();
        Typed::new(token.literal.clone(), token.span)
    }

    /// Why the number at the cursor is no name.
    fn name_fault(&self) -> (fault: NameFault)
        requires
            self.valid(),
            !grammar::at_eof(self.tokens@, self.state()),
        ensures
            fault == grammar::name_fault(self.tokens@, self.state()),
    {
        if self.peek().token_kind == TokenKind::Ident {
            NameFault::StartsWithDigit
        } else {
            NameFault::IsNumber
        }
    }

    fn parse_variable_name(&mut self) -> (r: ParseResult<Ident>)
        requires
            old(self).valid(),
            old(self).position > 0,
        ensures
            final(self).follows(old(self)),
            ident_outcome(final(self).state(), r) == grammar::variable_name(
                old(self).tokens@,
                old(self).state(),
            ),
    {
        reveal(grammar::variable_name);
        let var_keyword_span = self.previous().span;
        let variable_span = self.current().span;
        match self.current().token_kind {
            TokenKind::Ident => {
                let name = self.ident_here();
                self.advance_position();
                Ok(name)
            },
            TokenKind::Number => Err(
                ParseErrorKind::InvalidVariableName {
                    span: variable_span,
                    fault: self.name_fault(),
                },
            ),
            TokenKind::Semicolon | TokenKind::Equal => Err(
                ParseErrorKind::ExpectedIdentifier {
                    span: var_keyword_span,
                    context: IdentContext::VariableName,
                },
            ),
            _ => Err(
                ParseErrorKind::ExpectedIdentifier {
                    span: variable_span,
                    context: IdentContext::Variable,
                },
            ),
        }
    }

    /// current is function name, ends at '('
    fn parse_function_name(&mut self) -> (r: ParseResult<Ident>)
        requires
            old(self).valid(),
        ensures
            final(self).follows(old(self)),
            r is Ok ==> final(self).position > old(self).position,
            ident_outcome(final(self).state(), r) == grammar::function_name(
                old(self).tokens@,
                old(self).state(),
            ),
    {
        reveal(grammar::function_name);
        let function_span = self.current().span;
        match self.current().token_kind {
            TokenKind::Ident => {
                let name = self.ident_here();
                self.advance_position();
                Ok(name)
            },
            TokenKind::Number => {
                let fault = self.name_fault();
                self.skip_to_next_paren();
                self.report(ParseErrorKind::InvalidFunctionName { span: function_span, fault });
                let placeholder = match fault {
                    NameFault::StartsWithDigit => String::from_str("err_fun"),
                    NameFault::IsNumber => String::from_str("err fun"),
                };
                Ok(Typed::new(placeholder, self.current().span))
            },
            _ => {
                self.skip_to_next_paren();
                Err(
                    ParseErrorKind::ExpectedIdentifier {
                        span: function_span,
                        context: IdentContext::Function,
                    },
                )
            },
        }
    }

    /// current is '(' ends after ')'
    #[verifier::rlimit(50)]
    fn parse_function_parameters(&mut self) -> (r: ParseResult<Vec<Ident>>)
        requires
            old(self).valid(),
        ensures
            final(self).follows(old(self)),
            r is Ok ==> final(self).position > old(self).position,
            idents_outcome(final(self).state(), r) == grammar::parameters(
                old(self).tokens@,
                old(self).state(),
            ),
    {
        reveal(grammar::parameters);
        reveal(grammar::parameter_list);
        let mut parameters: Vec<Ident> = Vec::new();
        let opening_paren_span = self.current().span;
        let ghost t = self.tokens@;
        let ghost start = self.state();

        self.open_delimiter()?;

        if self.matches([TokenKind::RightParen]) {
            self.close_delimiter()?;
            assert(ident_views(parameters@) =~= Seq::<IdentView>::empty());
            return Ok(parameters);
        }
        assert(ident_views(parameters@) =~= Seq::<IdentView>::empty());
        loop
            invariant
                self.follows(old(self)),
                self.position > old(self).position,
                t == self.tokens@,
                start == old(self).state(),
                grammar::parameter_list(
                    t,
                    self.state(),
                    opening_paren_span,
                    ident_views(parameters@),
                ) == grammar::parameters(t, start),
            decreases self.tokens@.len() - self.position,
        {
            reveal(grammar::parameter_list);
            let unclosed = ParseErrorKind::UnclosedDelimiter {
                span: opening_paren_span,
                delimiter: TokenKind::LeftParen,
            };
            if self.matches([TokenKind::EOF]) {
                self.forget_delimiter();
                return Err(unclosed);
            }
            let curr_span = self.current().span;
            match self.current().token_kind {
                TokenKind::Ident => {
                    let ghost seen = ident_views(parameters@);
                    let name = self.ident_here();
                    parameters.push(name);
                    assert(ident_views(parameters@) =~= seen.push(ident_view(name)));
                    self.advance_position();

                    match self.current().token_kind {
                        TokenKind::Comma => {
                            self.advance_position();
                            if self.current_is(TokenKind::RightParen) {
                                return Err(
                                    ParseErrorKind::ExpectedIdentifier {
                                        span: self.previous().span,
                                        context: IdentContext::Parameter,
                                    },
                                );
                            }
                        },
                        TokenKind::RightParen => {
                            self.close_delimiter()?;
                            return Ok(parameters);
                        },
                        TokenKind::EOF => {
                            self.forget_delimiter();
                            return Err(unclosed);
                        },
                        found => {
                            return Err(
                                ParseErrorKind::UnexpectedToken {
                                    span: self.current().span,
                                    found,
                                    expected: Expected::CommaOrRightParen,
                                },
                            );
                        },
                    }
                },
                _ => {
                    self.skip_next_block();
                    return Err(
                        ParseErrorKind::ExpectedIdentifier {
                            span: curr_span,
                            context: IdentContext::Parameter,
                        },
                    );
                },
            }
        }
    }
}


/// The diagnostics of `kinds`, each with the source text `src`.
pub open spec fn diagnostics(src: Seq<char>, kinds: Seq<ParseErrorKind>) -> Seq<ParseErrorView> {
    kinds.map_values(|kind: ParseErrorKind| ParseErrorView { src, kind })
}

/// The values of a sequence of syntactic diagnostics.
pub open spec fn parse_error_views(errors: Seq<ParseError>) -> Seq<ParseErrorView> {
    errors.map_values(|e: ParseError| e@)
}

// The parser as its users see it.
impl Parser {
    /// A parser at the first of `tokens`, with no delimiter open and nothing
    /// reported. `source` is the text that the tokens were read from.
    pub fn new(tokens: Vec<Token>, source: &str) -> (parser: Parser)
        requires
            stream_well_formed(tokens@),
        ensures
            parser.wf(),
            parser.tokens() == tokens@,
            parser.source() == source@,
            parser.cursor() == Cursor::start(),
    {
        Parser {
            tokens,
            position: 0,
            errors: Vec::new(),
            source: source.to_owned(),
            delimiter_stack: Vec::new(),
        }
    }

    /// Parses declarations up to the end of input. A declaration that cannot
    /// be parsed is reported, and the parse goes on behind it. At the end of
    /// input every delimiter that is still open is reported as unclosed. The
    /// result is the program of the declarations that could be parsed, as
    /// [`grammar::program`] defines it. Every node of it, at any depth, has a
    /// span that reaches from one token to the same token or a later one.
    #[verifier::rlimit(50)]
    pub fn parse(&mut self) -> (program: Program)
        requires
            old(self).wf(),
        ensures
            final(self).wf(),
            final(self).tokens() == old(self).tokens(),
            final(self).source() == old(self).source(),
            (program@, final(self).cursor()) == grammar::program(
                old(self).tokens(),
                old(self).cursor(),
            ),
            grammar::at_eof(final(self).tokens(), final(self).cursor()),
            old(self).cursor().errors.is_prefix_of(final(self).cursor().errors),
            final(self).cursor().delims.len() == 0,
            stmts_placed(final(self).tokens(), program@.statements),
    {
        reveal(grammar::program_items);
        reveal(grammar::declaration);
        proof {
            lemma_program_items(self.tokens@, self.state(), Seq::empty());
        }
        let left_program_span = self.current().span;
        let ghost t = self.tokens@;
        let ghost start = self.state();
        let mut statements: Vec<Stmt> = Vec::new();
        assert(stmt_views(statements@) =~= Seq::<StmtView>::empty());
        while !self.at_eof()
            invariant
                self.follows(old(self)),
                t == self.tokens@,
                start == old(self).state(),
                grammar::program_items(t, self.state(), stmt_views(statements@))
                    == grammar::program_items(t, start, Seq::<StmtView>::empty()),
            decreases self.tokens@.len() - self.position, self.delimiter_stack@.len(),
        {
            reveal(grammar::program_items);
            reveal(grammar::declaration);
            let ghost seen = stmt_views(statements@);
            let statement = self.declaration();
            match statement {
                Ok(stmt) => {
                    statements.push(stmt);
                    assert(stmt_views(statements@) =~= seen.push(stmt@));
                },
                Err(err) => {
                    self.report(err);
                    self.skip_to_next_stmt();
                },
            }
        }
        proof {
            lemma_stmts_value(statements);
        }
        let ghost at_end = self.state();
        while self.delimiter_stack.len() > 0
            invariant
                self.follows(old(self)),
                self.position == at_end.pos,
                grammar::report_unclosed(self.state()) == grammar::report_unclosed(at_end),
            decreases self.delimiter_stack@.len(),
        {
            let n: usize = self.delimiter_stack.len();
            let open = self.delimiter_stack[n - 1];
            self.forget_delimiter();
            self.report(
                ParseErrorKind::UnclosedDelimiter {
                    span: open.span,
                    delimiter: open.delimiter.open_token(),
                },
            );
        }
        Program { statements, span: self.create_span(left_program_span, self.current().span) }
    }

    /// The diagnostics reported so far, in the order in which they were
    /// reported, each with the source text.
    pub fn get_errors(self) -> (errors: Vec<ParseError>)
        ensures
            parse_error_views(errors@) == diagnostics(self.source(), self.cursor().errors),
    {
        let mut errors: Vec<ParseError> = Vec::new();
        let n: usize = self.errors.len();
        let mut i: usize = 0;
        while i < n
            invariant
                i <= n,
                n == self.errors@.len(),
                errors@.len() == i,
                forall|j: int|
                    0 <= j < i ==> (#[trigger] errors@[j])@ == (ParseErrorView {
                        src: self.source@,
                        kind: self.errors@[j],
                    }),
            decreases n - i,
        {
            errors.push(ParseError { src: self.source.clone(), kind: self.errors[i] });
            i += 1;
        }
        assert(parse_error_views(errors@) =~= diagnostics(self.source@, self.errors@));
        errors
    }
}


} // verus!
