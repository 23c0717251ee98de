//! The grammar, as functions on token sequences.
//!
//! Each function here says what one rule of the parser yields when it is
//! applied at a cursor: the cursor behind the rule, with the delimiters still
//! open and the diagnostics reported, and the tree that was built or the error
//! that was raised. The parser computes exactly these functions.
//!
//! The functions are defined on cursors inside the token sequence. Where a rule
//! goes on behind another rule it does so behind the place where it started
//! itself ([`Cursor::past`]). Rules never move backwards, as
//! [`crate::progress`] proves, so this only makes the recursion evidently well
//! founded.

use crate::ast::{
    at, BinaryOp, BlockView, Delimiter, DelimiterKind, ExprView, IdentView, LiteralView, LogicalOp,
    ProgramView, StmtView, UnaryOp,
};
use crate::error::{Expected, IdentContext, NameFault, ParseErrorKind, Side};
use crate::span::{covering, just_after, Span};
use crate::token::{Token, TokenKind};
use vstd::prelude::*;

verus! {

/// The state of a parse: the index of the current token, the opening
/// delimiters that wait for their counterparts, innermost last, and the
/// diagnostics reported so far.
pub struct Cursor {
    pub pos: int,
    pub delims: Seq<Delimiter>,
    pub errors: Seq<ParseErrorKind>,
}

/// What a rule yields: the state behind it, and its result.
pub struct Parsed<T> {
    pub state: Cursor,
    pub out: Result<T, ParseErrorKind>,
}

/// What a statement loop yields: the state behind it, and the statements.
pub struct Items {
    pub state: Cursor,
    pub list: Seq<StmtView>,
}

/// What the rule for a condition yields: it always has an expression to give.
pub struct Condition {
    pub state: Cursor,
    pub expr: ExprView,
}

/// The four levels of binary operators, loosest first.
#[derive(Debug, Copy, Clone, PartialEq, Eq, Structural)]
pub enum BinaryLevel {
    Equality,
    Comparison,
    Term,
    Factor,
}

/// A rule that succeeded with `value`.
pub open spec fn ok<T>(state: Cursor, value: T) -> Parsed<T> {
    Parsed { state, out: Ok(value) }
}

/// A rule that failed with `error`.
pub open spec fn fail<T>(state: Cursor, error: ParseErrorKind) -> Parsed<T> {
    Parsed { state, out: Err(error) }
}

impl Cursor {
    /// The state in which a parse begins.
    pub open spec fn start() -> Cursor {
        Cursor { pos: 0, delims: Seq::empty(), errors: Seq::empty() }
    }

    /// The state with one more diagnostic.
    pub open spec fn report(self, error: ParseErrorKind) -> Cursor {
        Cursor { errors: self.errors.push(error), ..self }
    }

    /// The state with one more open delimiter.
    pub open spec fn push(self, opening: Delimiter) -> Cursor {
        Cursor { delims: self.delims.push(opening), ..self }
    }

    /// The state without the innermost open delimiter.
    pub open spec fn pop(self) -> Cursor {
        if self.delims.len() > 0 {
            Cursor { delims: self.delims.drop_last(), ..self }
        } else {
            self
        }
    }

    /// The state at another token.
    pub open spec fn at_pos(self, pos: int) -> Cursor {
        Cursor { pos, ..self }
    }

    /// This state, as one that lies behind `mark`.
    pub open spec fn past(self, mark: Cursor) -> Cursor {
        if self.pos > mark.pos {
            self
        } else {
            self.at_pos(mark.pos + 1)
        }
    }
}

impl DelimiterKind {
    /// The token that opens a delimiter of this kind.
    pub open spec fn opening(self) -> TokenKind {
        match self {
            DelimiterKind::Paren => TokenKind::LeftParen,
            DelimiterKind::Brace => TokenKind::LeftBrace,
        }
    }

    /// The token that closes a delimiter of this kind.
    pub open spec fn closing(self) -> TokenKind {
        match self {
            DelimiterKind::Paren => TokenKind::RightParen,
            DelimiterKind::Brace => TokenKind::RightBrace,
        }
    }
}

impl LogicalOp {
    /// The token that spells the operator.
    pub open spec fn token(self) -> TokenKind {
        match self {
            LogicalOp::Or => TokenKind::Or,
            LogicalOp::And => TokenKind::And,
        }
    }

    /// The place of the rule among the rules that may begin at one token.
    pub open spec fn rank(self) -> nat {
        match self {
            LogicalOp::Or => 24,
            LogicalOp::And => 23,
        }
    }
}

impl BinaryLevel {
    /// The operator of this level that `kind` spells, if it spells one.
    pub open spec fn operator(self, kind: TokenKind) -> Option<BinaryOp> {
        match (self, kind) {
            (BinaryLevel::Equality, TokenKind::BangEqual) => Some(BinaryOp::BangEqual),
            (BinaryLevel::Equality, TokenKind::EqualEqual) => Some(BinaryOp::EqualEqual),
            (BinaryLevel::Comparison, TokenKind::Less) => Some(BinaryOp::Less),
            (BinaryLevel::Comparison, TokenKind::LessEqual) => Some(BinaryOp::LessEqual),
            (BinaryLevel::Comparison, TokenKind::Greater) => Some(BinaryOp::Greater),
            (BinaryLevel::Comparison, TokenKind::GreaterEqual) => Some(BinaryOp::GreaterEqual),
            (BinaryLevel::Term, TokenKind::Plus) => Some(BinaryOp::Plus),
            (BinaryLevel::Term, TokenKind::Minus) => Some(BinaryOp::Minus),
            (BinaryLevel::Factor, TokenKind::Slash) => Some(BinaryOp::Slash),
            (BinaryLevel::Factor, TokenKind::Star) => Some(BinaryOp::Star),
            _ => None,
        }
    }

    /// The place of the rule among the rules that may begin at one token.
    pub open spec fn rank(self) -> nat {
        match self {
            BinaryLevel::Equality => 22,
            BinaryLevel::Comparison => 21,
            BinaryLevel::Term => 20,
            BinaryLevel::Factor => 19,
        }
    }
}

/// The unary operator that `kind` spells, if it spells one.
pub open spec fn unary_operator(kind: TokenKind) -> Option<UnaryOp> {
    match kind {
        TokenKind::Bang => Some(UnaryOp::Bang),
        TokenKind::Minus => Some(UnaryOp::Minus),
        _ => None,
    }
}

/// Whether the cursor is on a token of `t`.
pub open spec fn in_bounds(t: Seq<Token>, c: Cursor) -> bool {
    0 <= c.pos < t.len()
}

/// The number of tokens from the cursor on.
pub open spec fn remaining(t: Seq<Token>, c: Cursor) -> nat {
    if in_bounds(t, c) {
        (t.len() - c.pos) as nat
    } else {
        0
    }
}

/// The kind of the current token.
pub open spec fn kind_at(t: Seq<Token>, c: Cursor) -> TokenKind {
    t[c.pos].token_kind
}

/// The span of the current token.
pub open spec fn span_at(t: Seq<Token>, c: Cursor) -> Span {
    t[c.pos].span
}

/// The payload of the current token.
pub open spec fn text_at(t: Seq<Token>, c: Cursor) -> Seq<char> {
    t[c.pos].literal@
}

/// The span of the token before the cursor.
pub open spec fn prev_span(t: Seq<Token>, c: Cursor) -> Span {
    t[c.pos - 1].span
}

/// Whether the current token is the end-of-input marker.
pub open spec fn at_eof(t: Seq<Token>, c: Cursor) -> bool {
    kind_at(t, c) == TokenKind::EOF
}

/// The state behind the current token; the end-of-input marker is never
/// passed.
pub open spec fn advance(t: Seq<Token>, c: Cursor) -> Cursor {
    if at_eof(t, c) {
        c
    } else {
        c.at_pos(c.pos + 1)
    }
}

/// The name that the current token spells.
pub open spec fn ident_at(t: Seq<Token>, c: Cursor) -> IdentView {
    IdentView { name: text_at(t, c), meta: at(span_at(t, c)) }
}

// Recovery.

/// The first index from `pos` on that holds `kind` or the end of input.
pub open spec fn seek(t: Seq<Token>, pos: int, kind: TokenKind) -> int
    decreases t.len() - pos,
{
    if 0 <= pos < t.len() && t[pos].token_kind != kind && t[pos].token_kind != TokenKind::EOF {
        seek(t, pos + 1, kind)
    } else {
        pos
    }
}

/// The first index from `pos` on that holds a semicolon, a closing brace or
/// the end of input.
pub open spec fn stmt_boundary(t: Seq<Token>, pos: int) -> int
    decreases t.len() - pos,
{
    if 0 <= pos < t.len() && t[pos].token_kind != TokenKind::Semicolon && t[pos].token_kind
        != TokenKind::RightBrace && t[pos].token_kind != TokenKind::EOF {
        stmt_boundary(t, pos + 1)
    } else {
        pos
    }
}

/// The index behind the closing brace that brings `depth` open braces down to
/// none, or the end of input.
pub open spec fn block_end(t: Seq<Token>, pos: int, depth: nat) -> int
    decreases t.len() - pos,
{
    if 0 <= pos < t.len() && depth > 0 && t[pos].token_kind != TokenKind::EOF {
        if t[pos].token_kind == TokenKind::LeftBrace {
            block_end(t, pos + 1, depth + 1)
        } else if t[pos].token_kind == TokenKind::RightBrace {
            block_end(t, pos + 1, (depth - 1) as nat)
        } else {
            block_end(t, pos + 1, depth)
        }
    } else {
        pos
    }
}

/// Skips past the next semicolon, or up to a closing brace or the end of
/// input.
#[verifier::opaque]
pub open spec fn skip_to_next_stmt(t: Seq<Token>, c: Cursor) -> Cursor {
    let boundary = stmt_boundary(t, c.pos);
    if t[boundary].token_kind == TokenKind::Semicolon {
        c.at_pos(boundary + 1)
    } else {
        c.at_pos(boundary)
    }
}

/// Skips up to the next opening parenthesis or the end of input.
#[verifier::opaque]
pub open spec fn skip_to_next_paren(t: Seq<Token>, c: Cursor) -> Cursor {
    c.at_pos(seek(t, c.pos, TokenKind::LeftParen))
}

/// Skips the whole of the next braced region, to the brace that balances its
/// opening brace; where no opening brace is ahead, skips nothing.
#[verifier::opaque]
pub open spec fn skip_next_block(t: Seq<Token>, c: Cursor) -> Cursor {
    let opening = seek(t, c.pos, TokenKind::LeftBrace);
    if t[opening].token_kind == TokenKind::LeftBrace {
        c.at_pos(block_end(t, opening + 1, 1))
    } else {
        c
    }
}

/// Takes the semicolon that ends a statement. Where there is none, reports it
/// as missing directly behind the previous token, and skips to the next
/// statement.
#[verifier::opaque]
pub open spec fn expect_semicolon(t: Seq<Token>, c: Cursor) -> Cursor {
    if kind_at(t, c) == TokenKind::Semicolon {
        advance(t, c)
    } else {
        skip_to_next_stmt(
            t,
            c.report(ParseErrorKind::MissingSemicolon { span: just_after(prev_span(t, c)) }),
        )
    }
}

/// The state behind the last token of a statement whose expression ends at
/// `c`: behind the semicolon, or at `c` where the semicolon is missing.
pub open spec fn statement_end(t: Seq<Token>, c: Cursor) -> Cursor {
    if kind_at(t, c) == TokenKind::Semicolon {
        advance(t, c)
    } else {
        c
    }
}

/// The span of the tokens that a rule passed between `c` and `behind`; where
/// it passed none, the span of the token at `c`.
pub open spec fn passed_span(t: Seq<Token>, c: Cursor, behind: Cursor) -> Span {
    if behind.pos > c.pos {
        covering(span_at(t, c), prev_span(t, behind))
    } else {
        span_at(t, c)
    }
}

/// Checks that a block begins here. Where none does, skips the next braced
/// region and fails.
#[verifier::opaque]
pub open spec fn expect_block(t: Seq<Token>, c: Cursor) -> Parsed<()> {
    if kind_at(t, c) == TokenKind::LeftBrace {
        ok(c, ())
    } else {
        fail(skip_next_block(t, c), ParseErrorKind::MissingBlock { span: span_at(t, c) })
    }
}

// Delimiters.

/// Takes the current token as an opening delimiter and remembers it.
#[verifier::opaque]
pub open spec fn open_delimiter(t: Seq<Token>, c: Cursor) -> Parsed<()> {
    match kind_at(t, c) {
        TokenKind::LeftParen => ok(
            advance(t, c.push(Delimiter { delimiter: DelimiterKind::Paren, span: span_at(t, c) })),
            (),
        ),
        TokenKind::LeftBrace => ok(
            advance(t, c.push(Delimiter { delimiter: DelimiterKind::Brace, span: span_at(t, c) })),
            (),
        ),
        found => fail(
            advance(t, c),
            ParseErrorKind::UnexpectedToken {
                span: span_at(t, c),
                found,
                expected: Expected::OpeningDelimiter,
            },
        ),
    }
}

/// Takes the current token as the counterpart of the innermost open delimiter.
/// With none open the token is passed and reported as unexpected. Otherwise
/// the innermost one is forgotten; the token is passed only if it is its
/// counterpart. At the end of input the delimiter is reported as unclosed, at
/// any other token as unmatched.
#[verifier::opaque]
pub open spec fn close_delimiter(t: Seq<Token>, c: Cursor) -> Parsed<()> {
    if c.delims.len() == 0 {
        fail(
            advance(t, c),
            ParseErrorKind::UnexpectedClosingDelimiter {
                span: span_at(t, c),
                delimiter: kind_at(t, c),
            },
        )
    } else {
        let innermost = c.delims.last();
        let popped = Cursor { delims: c.delims.drop_last(), ..c };
        if at_eof(t, c) {
            fail(
                popped,
                ParseErrorKind::UnclosedDelimiter {
                    span: innermost.span,
                    delimiter: innermost.delimiter.opening(),
                },
            )
        } else if kind_at(t, c) != innermost.delimiter.closing() {
            fail(
                popped,
                ParseErrorKind::UnmatchedDelimiter {
                    opening_span: innermost.span,
                    closing_span: span_at(t, c),
                    expected: innermost.delimiter.closing(),
                    found: kind_at(t, c),
                },
            )
        } else {
            ok(advance(t, popped), ())
        }
    }
}

// Names and parameters.

/// Why the number at the cursor is no name: it is followed by a word, or not.
pub open spec fn name_fault(t: Seq<Token>, c: Cursor) -> NameFault {
    if t[c.pos + 1].token_kind == TokenKind::Ident {
        NameFault::StartsWithDigit
    } else {
        NameFault::IsNumber
    }
}

/// The name that stands in for a function name that could not be read.
pub open spec fn placeholder_name(fault: NameFault) -> Seq<char> {
    match fault {
        NameFault::StartsWithDigit => "err_fun"@,
        NameFault::IsNumber => "err fun"@,
    }
}

/// The name of a variable, behind `var`.
#[verifier::opaque]
pub open spec fn variable_name(t: Seq<Token>, c: Cursor) -> Parsed<IdentView> {
    match kind_at(t, c) {
        TokenKind::Ident => ok(advance(t, c), ident_at(t, c)),
        TokenKind::Number => fail(
            c,
            ParseErrorKind::InvalidVariableName { span: span_at(t, c), fault: name_fault(t, c) },
        ),
        TokenKind::Semicolon | TokenKind::Equal => fail(
            c,
            ParseErrorKind::ExpectedIdentifier {
                span: prev_span(t, c),
                context: IdentContext::VariableName,
            },
        ),
        _ => fail(
            c,
            ParseErrorKind::ExpectedIdentifier {
                span: span_at(t, c),
                context: IdentContext::Variable,
            },
        ),
    }
}

/// The name of a function, behind `fun`. A number in its place is reported,
/// and the parse goes on at the next opening parenthesis under a placeholder
/// name.
#[verifier::opaque]
pub open spec fn function_name(t: Seq<Token>, c: Cursor) -> Parsed<IdentView> {
    match kind_at(t, c) {
        TokenKind::Ident => ok(advance(t, c), ident_at(t, c)),
        TokenKind::Number => {
            let fault = name_fault(t, c);
            let resumed = skip_to_next_paren(t, c);
            ok(
                resumed.report(
                    ParseErrorKind::InvalidFunctionName { span: span_at(t, c), fault },
                ),
                IdentView { name: placeholder_name(fault), meta: at(span_at(t, resumed)) },
            )
        },
        _ => fail(
            skip_to_next_paren(t, c),
            ParseErrorKind::ExpectedIdentifier {
                span: span_at(t, c),
                context: IdentContext::Function,
            },
        ),
    }
}

/// The parameters behind the first one or behind a comma, up to and with the
/// closing parenthesis. `opening` is the span of the opening parenthesis. At
/// the end of input the parenthesis is reported as unclosed and forgotten.
#[verifier::opaque]
pub open spec fn parameter_list(
    t: Seq<Token>,
    c: Cursor,
    opening: Span,
    seen: Seq<IdentView>,
) -> Parsed<Seq<IdentView>>
    decreases remaining(t, c),
    when in_bounds(t, c)
{
    let unclosed = ParseErrorKind::UnclosedDelimiter {
        span: opening,
        delimiter: TokenKind::LeftParen,
    };
    if kind_at(t, c) == TokenKind::EOF {
        fail(c.pop(), unclosed)
    } else if kind_at(t, c) == TokenKind::Ident {
        let params = seen.push(ident_at(t, c));
        let behind = advance(t, c);
        match kind_at(t, behind) {
            TokenKind::Comma => {
                let next = advance(t, behind);
                if kind_at(t, next) == TokenKind::RightParen {
                    fail(
                        next,
                        ParseErrorKind::ExpectedIdentifier {
                            span: prev_span(t, next),
                            context: IdentContext::Parameter,
                        },
                    )
                } else {
                    parameter_list(t, next, opening, params)
                }
            },
            TokenKind::RightParen => {
                let closed = close_delimiter(t, behind);
                match closed.out {
                    Ok(_) => ok(closed.state, params),
                    Err(e) => fail(closed.state, e),
                }
            },
            TokenKind::EOF => fail(behind.pop(), unclosed),
            found => fail(
                behind,
                ParseErrorKind::UnexpectedToken {
                    span: span_at(t, behind),
                    found,
                    expected: Expected::CommaOrRightParen,
                },
            ),
        }
    } else {
        fail(
            skip_next_block(t, c),
            ParseErrorKind::ExpectedIdentifier {
                span: span_at(t, c),
                context: IdentContext::Parameter,
            },
        )
    }
}

/// A parenthesised list of parameter names.
#[verifier::opaque]
pub open spec fn parameters(t: Seq<Token>, c: Cursor) -> Parsed<Seq<IdentView>> {
    let opened = open_delimiter(t, c);
    match opened.out {
        Err(e) => fail(opened.state, e),
        Ok(_) => if kind_at(t, opened.state) == TokenKind::RightParen {
            let closed = close_delimiter(t, opened.state);
            match closed.out {
                Ok(_) => ok(closed.state, Seq::empty()),
                Err(e) => fail(closed.state, e),
            }
        } else {
            parameter_list(t, opened.state, span_at(t, c), Seq::empty())
        },
    }
}

// Expressions.

/// The literal `value` found at `span`.
pub open spec fn literal(value: LiteralView, span: Span) -> ExprView {
    ExprView::Literal { value, meta: at(span) }
}

/// The annotation of a node that began at the token of span `first` and ends
/// with the token before `behind`.
pub open spec fn from_to(t: Seq<Token>, first: Span, behind: Cursor) -> crate::ast::Meta {
    at(covering(first, prev_span(t, behind)))
}

/// An expression: a lambda, or else an assignment.
#[verifier::opaque]
pub open spec fn expression(t: Seq<Token>, c: Cursor) -> Parsed<ExprView>
    decreases remaining(t, c), 26nat,
    when in_bounds(t, c)
{
    if kind_at(t, c) == TokenKind::Fun {
        lambda_expr(t, c)
    } else {
        assignment(t, c)
    }
}

/// `fun`, a parameter list and a block.
#[verifier::opaque]
pub open spec fn lambda_expr(t: Seq<Token>, c: Cursor) -> Parsed<ExprView>
    decreases remaining(t, c), 25nat,
    when in_bounds(t, c)
{
    let params = parameters(t, advance(t, c));
    match params.out {
        Err(e) => fail(params.state, e),
        Ok(parameters) => {
            let opening = params.state.past(c);
            let brace = expect_block(t, opening);
            match brace.out {
                Err(e) => fail(brace.state, e),
                Ok(_) => {
                    let body = block(t, opening);
                    match body.out {
                        Err(e) => fail(body.state, e),
                        Ok(body_block) => ok(
                            body.state,
                            ExprView::Lambda {
                                parameters,
                                body: body_block,
                                meta: from_to(t, span_at(t, c), body.state),
                            },
                        ),
                    }
                },
            }
        },
    }
}

/// A logical-or expression, and, if `=` follows, the value assigned to it. Only
/// a variable can be assigned to; assignment associates to the right.
#[verifier::opaque]
pub open spec fn assignment(t: Seq<Token>, c: Cursor) -> Parsed<ExprView>
    decreases remaining(t, c), 25nat,
    when in_bounds(t, c)
{
    let first = logical(t, c, LogicalOp::Or);
    match first.out {
        Err(_) => first,
        Ok(target) => {
            let behind = first.state.past(c);
            if kind_at(t, behind) == TokenKind::Equal {
                let value = expression(t, advance(t, behind));
                match value.out {
                    Err(_) => fail(
                        value.state,
                        ParseErrorKind::ExpectedExpression { span: prev_span(t, value.state) },
                    ),
                    Ok(assigned) => match target {
                        ExprView::Variable { ident } => ok(
                            value.state,
                            ExprView::Assign {
                                target: ident,
                                value: Box::new(assigned),
                                meta: from_to(t, span_at(t, c), value.state),
                            },
                        ),
                        _ => fail(
                            value.state,
                            ParseErrorKind::ExpectedIdentifier {
                                span: span_at(t, behind),
                                context: IdentContext::VariableName,
                            },
                        ),
                    },
                }
            } else {
                ok(behind, target)
            }
        },
    }
}

/// An operand of the logical operator `op`: for `or` a logical-and expression,
/// for `and` an equality. Then the operators and operands that follow.
#[verifier::opaque]
pub open spec fn logical(t: Seq<Token>, c: Cursor, op: LogicalOp) -> Parsed<ExprView>
    decreases remaining(t, c), op.rank(),
    when in_bounds(t, c)
{
    let first = if op == LogicalOp::Or {
        logical(t, c, LogicalOp::And)
    } else {
        binary(t, c, BinaryLevel::Equality)
    };
    match first.out {
        Err(_) => first,
        Ok(left) => logical_rest(t, first.state.past(c), op, span_at(t, c), left),
    }
}

/// The operators `op` and their operands behind the expression `left`, which
/// began at `first`; they associate to the left. An operator directly before a
/// semicolon gets `false` for its right operand, and that is reported.
#[verifier::opaque]
pub open spec fn logical_rest(
    t: Seq<Token>,
    c: Cursor,
    op: LogicalOp,
    first: Span,
    left: ExprView,
) -> Parsed<ExprView>
    decreases remaining(t, c), 0nat,
    when in_bounds(t, c)
{
    if kind_at(t, c) == op.token() {
        let behind = advance(t, c);
        if kind_at(t, behind) == TokenKind::Semicolon {
            ok(
                behind.report(ParseErrorKind::ExpectedExpression { span: span_at(t, behind) }),
                ExprView::Logical {
                    left: Box::new(left),
                    op,
                    right: Box::new(literal(LiteralView::Bool(false), span_at(t, behind))),
                    meta: from_to(t, first, behind),
                },
            )
        } else {
            let right = if op == LogicalOp::Or {
                logical(t, behind, LogicalOp::And)
            } else {
                binary(t, behind, BinaryLevel::Equality)
            };
            match right.out {
                Err(e) => fail(right.state, e),
                Ok(operand) => {
                    let state = right.state.past(c);
                    logical_rest(
                        t,
                        state,
                        op,
                        first,
                        ExprView::Logical {
                            left: Box::new(left),
                            op,
                            right: Box::new(operand),
                            meta: from_to(t, first, state),
                        },
                    )
                },
            }
        }
    } else {
        ok(c, left)
    }
}

/// An operand of the binary operators of `level`: an expression of the next
/// tighter level, at the tightest a unary expression. Then the operators and
/// operands that follow.
#[verifier::opaque]
pub open spec fn binary(t: Seq<Token>, c: Cursor, level: BinaryLevel) -> Parsed<ExprView>
    decreases remaining(t, c), level.rank(),
    when in_bounds(t, c)
{
    let first = match level {
        BinaryLevel::Equality => binary(t, c, BinaryLevel::Comparison),
        BinaryLevel::Comparison => binary(t, c, BinaryLevel::Term),
        BinaryLevel::Term => binary(t, c, BinaryLevel::Factor),
        BinaryLevel::Factor => unary(t, c),
    };
    match first.out {
        Err(_) => first,
        Ok(left) => binary_rest(t, first.state.past(c), level, span_at(t, c), left),
    }
}

/// The operators of `level` and their operands behind the expression `left`,
/// which began at `first`; they associate to the left. An operator without a
/// right operand is an error at the operator.
#[verifier::opaque]
pub open spec fn binary_rest(
    t: Seq<Token>,
    c: Cursor,
    level: BinaryLevel,
    first: Span,
    left: ExprView,
) -> Parsed<ExprView>
    decreases remaining(t, c), 0nat,
    when in_bounds(t, c)
{
    match level.operator(kind_at(t, c)) {
        Some(op) => {
            let behind = advance(t, c);
            let right = match level {
                BinaryLevel::Equality => binary(t, behind, BinaryLevel::Comparison),
                BinaryLevel::Comparison => binary(t, behind, BinaryLevel::Term),
                BinaryLevel::Term => binary(t, behind, BinaryLevel::Factor),
                BinaryLevel::Factor => unary(t, behind),
            };
            match right.out {
                Err(_) => fail(
                    right.state,
                    ParseErrorKind::MissingOperand { span: span_at(t, c), side: Side::Right },
                ),
                Ok(operand) => {
                    let state = right.state.past(c);
                    binary_rest(
                        t,
                        state,
                        level,
                        first,
                        ExprView::Binary {
                            left: Box::new(left),
                            op,
                            right: Box::new(operand),
                            meta: from_to(t, first, state),
                        },
                    )
                },
            }
        },
        None => ok(c, left),
    }
}

/// A unary operator and its operand, or else a call.
#[verifier::opaque]
pub open spec fn unary(t: Seq<Token>, c: Cursor) -> Parsed<ExprView>
    decreases remaining(t, c), 18nat,
    when in_bounds(t, c)
{
    match unary_operator(kind_at(t, c)) {
        Some(op) => {
            let inner = unary(t, advance(t, c));
            match inner.out {
                Err(_) => fail(
                    inner.state,
                    ParseErrorKind::MissingOperand { span: span_at(t, c), side: Side::Right },
                ),
                Ok(operand) => ok(
                    inner.state,
                    ExprView::Unary {
                        op,
                        operand: Box::new(operand),
                        meta: from_to(t, span_at(t, c), inner.state),
                    },
                ),
            }
        },
        None => call(t, c),
    }
}

/// A primary expression and the argument lists that follow it.
#[verifier::opaque]
pub open spec fn call(t: Seq<Token>, c: Cursor) -> Parsed<ExprView>
    decreases remaining(t, c), 17nat,
    when in_bounds(t, c)
{
    let first = primary(t, c);
    match first.out {
        Err(_) => first,
        Ok(callee) => call_rest(t, first.state.past(c), span_at(t, c), callee),
    }
}

/// The argument lists behind the expression `callee`, which began at `first`.
#[verifier::opaque]
pub open spec fn call_rest(t: Seq<Token>, c: Cursor, first: Span, callee: ExprView) -> Parsed<
    ExprView,
>
    decreases remaining(t, c), 17nat,
    when in_bounds(t, c)
{
    if kind_at(t, c) == TokenKind::LeftParen {
        let called = finish_call(t, c, first, callee);
        match called.out {
            Err(_) => called,
            Ok(result) => call_rest(t, called.state.past(c), first, result),
        }
    } else {
        ok(c, callee)
    }
}

/// One parenthesised argument list behind `callee`. A list that ends at once,
/// with a semicolon or the end of input, is reported as unclosed, and its
/// parenthesis is forgotten.
#[verifier::opaque]
pub open spec fn finish_call(t: Seq<Token>, c: Cursor, first: Span, callee: ExprView) -> Parsed<
    ExprView,
>
    decreases remaining(t, c), 16nat,
    when in_bounds(t, c)
{
    let opened = open_delimiter(t, c);
    match opened.out {
        Err(e) => fail(opened.state, e),
        Ok(_) => {
            let inside = opened.state.past(c);
            if kind_at(t, inside) == TokenKind::EOF || kind_at(t, inside) == TokenKind::Semicolon {
                fail(
                    inside.pop(),
                    ParseErrorKind::UnclosedDelimiter {
                        span: span_at(t, c),
                        delimiter: TokenKind::LeftParen,
                    },
                )
            } else {
                let args = if kind_at(t, inside) == TokenKind::RightParen {
                    ok(inside, Seq::empty())
                } else {
                    arguments(t, inside, Seq::empty())
                };
                match args.out {
                    Err(e) => fail(args.state, e),
                    Ok(arguments) => {
                        let closed = close_delimiter(t, args.state);
                        match closed.out {
                            Err(e) => fail(closed.state, e),
                            Ok(_) => ok(
                                closed.state,
                                ExprView::Call {
                                    callee: Box::new(callee),
                                    arguments,
                                    meta: from_to(t, first, closed.state),
                                },
                            ),
                        }
                    },
                }
            }
        },
    }
}

/// The arguments of a call, separated by commas, behind those in `seen`.
#[verifier::opaque]
pub open spec fn arguments(t: Seq<Token>, c: Cursor, seen: Seq<ExprView>) -> Parsed<
    Seq<ExprView>,
>
    decreases remaining(t, c), 27nat,
    when in_bounds(t, c)
{
    let first = expression(t, c);
    match first.out {
        Err(e) => fail(first.state, e),
        Ok(argument) => {
            let behind = first.state.past(c);
            if kind_at(t, behind) == TokenKind::Comma {
                arguments(t, advance(t, behind), seen.push(argument))
            } else {
                ok(behind, seen.push(argument))
            }
        },
    }
}

/// A literal, a name or a parenthesised expression. A closing delimiter here
/// is taken off the open delimiters and is an error; so are a semicolon, which
/// is passed, the end of input, and any other token.
#[verifier::opaque]
pub open spec fn primary(t: Seq<Token>, c: Cursor) -> Parsed<ExprView>
    decreases remaining(t, c), 16nat,
    when in_bounds(t, c)
{
    match kind_at(t, c) {
        TokenKind::RightBrace | TokenKind::RightParen => {
            let closed = close_delimiter(t, c);
            match closed.out {
                Err(e) => fail(closed.state, e),
                Ok(_) => fail(
                    closed.state,
                    ParseErrorKind::UnexpectedClosingDelimiter {
                        span: span_at(t, c),
                        delimiter: kind_at(t, c),
                    },
                ),
            }
        },
        TokenKind::False => ok(advance(t, c), literal(LiteralView::Bool(false), span_at(t, c))),
        TokenKind::True => ok(advance(t, c), literal(LiteralView::Bool(true), span_at(t, c))),
        TokenKind::Nil => ok(advance(t, c), literal(LiteralView::Nil, span_at(t, c))),
        TokenKind::LeftParen => {
            let opened = open_delimiter(t, c);
            let inside = opened.state.past(c);
            if kind_at(t, inside) == TokenKind::RightParen {
                fail(
                    close_delimiter(t, inside).state,
                    ParseErrorKind::ExpectedExpression {
                        span: covering(span_at(t, c), span_at(t, inside)),
                    },
                )
            } else {
                let inner = expression(t, inside);
                match inner.out {
                    Err(e) => fail(inner.state, e),
                    Ok(grouped) => {
                        let closed = close_delimiter(t, inner.state);
                        match closed.out {
                            Err(e) => fail(closed.state, e),
                            Ok(_) => ok(
                                closed.state,
                                ExprView::Grouping {
                                    inner: Box::new(grouped),
                                    meta: from_to(t, span_at(t, c), closed.state),
                                },
                            ),
                        }
                    },
                }
            }
        },
        TokenKind::Number => {
            let behind = advance(t, c);
            if kind_at(t, behind) == TokenKind::Ident {
                fail(
                    behind,
                    ParseErrorKind::InvalidVariableName {
                        span: span_at(t, c),
                        fault: NameFault::StartsWithDigit,
                    },
                )
            } else {
                ok(behind, literal(LiteralView::Number(text_at(t, c)), span_at(t, c)))
            }
        },
        TokenKind::String => ok(
            advance(t, c),
            literal(LiteralView::String(text_at(t, c)), span_at(t, c)),
        ),
        TokenKind::Ident => ok(advance(t, c), ExprView::Variable { ident: ident_at(t, c) }),
        TokenKind::EOF => fail(c, ParseErrorKind::UnexpectedEOF { expected: Expected::Expression }),
        TokenKind::Semicolon => fail(
            advance(t, c),
            ParseErrorKind::RedundantSemicolon { span: span_at(t, c) },
        ),
        found => fail(
            c,
            ParseErrorKind::UnexpectedToken {
                span: span_at(t, c),
                found,
                expected: Expected::Primary,
            },
        ),
    }
}

// Statements.

/// A declaration of a variable or of a function, or else a statement.
#[verifier::opaque]
pub open spec fn declaration(t: Seq<Token>, c: Cursor) -> Parsed<StmtView>
    decreases remaining(t, c), 31nat,
    when in_bounds(t, c)
{
    if kind_at(t, c) == TokenKind::Var {
        var_declaration(t, c)
    } else if kind_at(t, c) == TokenKind::Fun {
        fun_declaration(t, c)
    } else {
        statement(t, c)
    }
}

/// `var`, a name, an initialiser if there is one, and a semicolon.
#[verifier::opaque]
pub open spec fn var_declaration(t: Seq<Token>, c: Cursor) -> Parsed<StmtView>
    decreases remaining(t, c), 29nat,
    when in_bounds(t, c)
{
    let name = variable_name(t, advance(t, c));
    match name.out {
        Err(e) => fail(name.state, e),
        Ok(ident) => {
            let init = var_initializer(t, name.state.past(c));
            match init.out {
                Err(e) => fail(init.state, e),
                Ok(initializer) => {
                    let last = statement_end(t, init.state);
                    ok(
                        expect_semicolon(t, init.state),
                        StmtView::VarDecl {
                            ident,
                            initializer,
                            meta: from_to(t, span_at(t, c), last),
                        },
                    )
                },
            }
        },
    }
}

/// What follows the name of a declared variable: `=` and an expression, or
/// nothing before the semicolon.
#[verifier::opaque]
pub open spec fn var_initializer(t: Seq<Token>, c: Cursor) -> Parsed<Option<ExprView>>
    decreases remaining(t, c), 0nat,
    when in_bounds(t, c)
{
    if kind_at(t, c) == TokenKind::Equal {
        let behind = advance(t, c);
        if kind_at(t, behind) == TokenKind::Semicolon {
            fail(
                advance(t, behind),
                ParseErrorKind::ExpectedExpression { span: span_at(t, behind) },
            )
        } else {
            let value = expression(t, behind);
            match value.out {
                Err(e) => fail(value.state, e),
                Ok(v) => ok(value.state, Some(v)),
            }
        }
    } else if kind_at(t, c) == TokenKind::Semicolon {
        ok(c, None)
    } else {
        fail(
            c,
            ParseErrorKind::UnexpectedToken {
                span: span_at(t, c),
                found: kind_at(t, c),
                expected: Expected::AssignOrSemicolon,
            },
        )
    }
}

/// `fun`, a name, a parameter list and a block.
#[verifier::opaque]
pub open spec fn fun_declaration(t: Seq<Token>, c: Cursor) -> Parsed<StmtView>
    decreases remaining(t, c), 29nat,
    when in_bounds(t, c)
{
    let name = function_name(t, advance(t, c));
    match name.out {
        Err(e) => fail(name.state, e),
        Ok(ident) => {
            let params = parameters(t, name.state);
            match params.out {
                Err(e) => fail(params.state, e),
                Ok(parameters) => {
                    let opening = params.state.past(c);
                    let brace = expect_block(t, opening);
                    match brace.out {
                        Err(e) => fail(brace.state, e),
                        Ok(_) => {
                            let body = block(t, opening);
                            match body.out {
                                Err(e) => fail(body.state, e),
                                Ok(body_block) => ok(
                                    body.state,
                                    StmtView::FunDecl {
                                        ident,
                                        params: parameters,
                                        body: body_block,
                                        meta: from_to(t, span_at(t, c), body.state),
                                    },
                                ),
                            }
                        },
                    }
                },
            }
        },
    }
}

/// A statement, told by its first token.
#[verifier::opaque]
pub open spec fn statement(t: Seq<Token>, c: Cursor) -> Parsed<StmtView>
    decreases remaining(t, c), 30nat,
    when in_bounds(t, c)
{
    match kind_at(t, c) {
        TokenKind::Print => print_stmt(t, c),
        TokenKind::LeftBrace => {
            let inner = block(t, c);
            match inner.out {
                Err(e) => fail(inner.state, e),
                Ok(b) => ok(inner.state, StmtView::Block { block: b }),
            }
        },
        TokenKind::If => if_stmt(t, c),
        TokenKind::While => while_stmt(t, c),
        TokenKind::For => for_stmt(t, c),
        TokenKind::Return => return_stmt(t, c),
        _ => expression_stmt(t, c),
    }
}

/// An expression and a semicolon. The statement reaches to the semicolon, or
/// to the end of the expression where the semicolon is missing.
#[verifier::opaque]
pub open spec fn expression_stmt(t: Seq<Token>, c: Cursor) -> Parsed<StmtView>
    decreases remaining(t, c), 29nat,
    when in_bounds(t, c)
{
    let value = expression(t, c);
    match value.out {
        Err(e) => fail(value.state, e),
        Ok(expr) => {
            let last = statement_end(t, value.state);
            ok(
                expect_semicolon(t, value.state),
                StmtView::ExprStmt { expr, meta: from_to(t, span_at(t, c), last) },
            )
        },
    }
}

/// `print`, an expression and a semicolon.
#[verifier::opaque]
pub open spec fn print_stmt(t: Seq<Token>, c: Cursor) -> Parsed<StmtView>
    decreases remaining(t, c), 29nat,
    when in_bounds(t, c)
{
    let value = expression(t, advance(t, c));
    match value.out {
        Err(e) => fail(value.state, e),
        Ok(expr) => {
            let last = statement_end(t, value.state);
            ok(
                expect_semicolon(t, value.state),
                StmtView::PrintStmt { expr, meta: from_to(t, span_at(t, c), last) },
            )
        },
    }
}

/// A braced sequence of declarations.
#[verifier::opaque]
pub open spec fn block(t: Seq<Token>, c: Cursor) -> Parsed<BlockView>
    decreases remaining(t, c), 29nat,
    when in_bounds(t, c)
{
    let opened = open_delimiter(t, c);
    match opened.out {
        Err(e) => fail(opened.state, e),
        Ok(_) => {
            let items = block_items(t, opened.state.past(c), Seq::empty());
            let closed = close_delimiter(t, items.state);
            match closed.out {
                Err(e) => fail(closed.state, e),
                Ok(_) => ok(
                    closed.state,
                    BlockView {
                        statements: items.list,
                        meta: from_to(t, span_at(t, c), closed.state),
                    },
                ),
            }
        },
    }
}

/// The state and the statements behind a declaration that was tried at the
/// cursor: a statement is kept; an error is reported, and the parse skips to
/// the next statement.
pub open spec fn recovered(t: Seq<Token>, tried: Parsed<StmtView>, seen: Seq<StmtView>) -> Items {
    match tried.out {
        Ok(stmt) => Items { state: tried.state, list: seen.push(stmt) },
        Err(e) => Items { state: skip_to_next_stmt(t, tried.state.report(e)), list: seen },
    }
}

/// The declarations of a block behind those in `seen`, up to its closing brace
/// or the end of input.
#[verifier::opaque]
pub open spec fn block_items(t: Seq<Token>, c: Cursor, seen: Seq<StmtView>) -> Items
    decreases remaining(t, c), 32nat,
    when in_bounds(t, c)
{
    if kind_at(t, c) == TokenKind::RightBrace || at_eof(t, c) {
        Items { state: c, list: seen }
    } else {
        let next = recovered(t, declaration(t, c), seen);
        block_items(t, next.state.past(c), next.list)
    }
}

/// The condition of an `if` or a `while`. A condition that is one
/// parenthesised expression is reported as a matter of style. One that cannot
/// be parsed is reported, and `true` stands in for it.
#[verifier::opaque]
pub open spec fn condition(t: Seq<Token>, c: Cursor) -> Condition
    decreases remaining(t, c), 27nat,
    when in_bounds(t, c)
{
    let tried = expression(t, c);
    match tried.out {
        Ok(expr) => Condition {
            state: if expr is Grouping {
                tried.state.report(
                    ParseErrorKind::RedundantParenthesis {
                        first: span_at(t, c),
                        second: prev_span(t, tried.state),
                    },
                )
            } else {
                tried.state
            },
            expr,
        },
        Err(e) => Condition {
            state: tried.state.report(e),
            expr: literal(LiteralView::Bool(true), passed_span(t, c, tried.state)),
        },
    }
}

/// `if`, a condition, a block, and, behind `else`, a second block.
#[verifier::opaque]
pub open spec fn if_stmt(t: Seq<Token>, c: Cursor) -> Parsed<StmtView>
    decreases remaining(t, c), 29nat,
    when in_bounds(t, c)
{
    let cond = condition(t, advance(t, c));
    let opening = cond.state.past(c);
    let brace = expect_block(t, opening);
    match brace.out {
        Err(e) => fail(brace.state, e),
        Ok(_) => {
            let then = block(t, opening);
            match then.out {
                Err(e) => fail(then.state, e),
                Ok(then_branch) => {
                    let behind = then.state.past(c);
                    if kind_at(t, behind) == TokenKind::Else {
                        let else_opening = advance(t, behind);
                        let else_brace = expect_block(t, else_opening);
                        match else_brace.out {
                            Err(e) => fail(else_brace.state, e),
                            Ok(_) => {
                                let other = block(t, else_opening);
                                match other.out {
                                    Err(e) => fail(other.state, e),
                                    Ok(else_branch) => ok(
                                        other.state,
                                        StmtView::If {
                                            condition: cond.expr,
                                            then_branch,
                                            else_branch: Some(else_branch),
                                            meta: from_to(t, span_at(t, c), other.state),
                                        },
                                    ),
                                }
                            },
                        }
                    } else {
                        ok(
                            behind,
                            StmtView::If {
                                condition: cond.expr,
                                then_branch,
                                else_branch: None,
                                meta: from_to(t, span_at(t, c), behind),
                            },
                        )
                    }
                },
            }
        },
    }
}

/// `while`, a condition and a block.
#[verifier::opaque]
pub open spec fn while_stmt(t: Seq<Token>, c: Cursor) -> Parsed<StmtView>
    decreases remaining(t, c), 29nat,
    when in_bounds(t, c)
{
    let cond = condition(t, advance(t, c));
    let opening = cond.state.past(c);
    let brace = expect_block(t, opening);
    match brace.out {
        Err(e) => fail(brace.state, e),
        Ok(_) => {
            let body = block(t, opening);
            match body.out {
                Err(e) => fail(body.state, e),
                Ok(body_block) => ok(
                    body.state,
                    StmtView::While {
                        condition: cond.expr,
                        body: body_block,
                        meta: from_to(t, span_at(t, c), body.state),
                    },
                ),
            }
        },
    }
}

/// The first clause of a `for`: a variable declaration, an expression
/// statement, or a lone semicolon.
#[verifier::opaque]
pub open spec fn for_initializer(t: Seq<Token>, c: Cursor) -> Parsed<Option<StmtView>>
    decreases remaining(t, c), 30nat,
    when in_bounds(t, c)
{
    if kind_at(t, c) == TokenKind::Semicolon {
        ok(advance(t, c), None)
    } else {
        let stmt = if kind_at(t, c) == TokenKind::Var {
            var_declaration(t, c)
        } else {
            expression_stmt(t, c)
        };
        match stmt.out {
            Err(e) => fail(stmt.state, e),
            Ok(s) => ok(stmt.state, Some(s)),
        }
    }
}

/// The second clause of a `for`: an expression, or `true` where there is none;
/// then its semicolon, which is reported where it is missing.
#[verifier::opaque]
pub open spec fn for_condition(t: Seq<Token>, c: Cursor) -> Parsed<ExprView>
    decreases remaining(t, c), 27nat,
    when in_bounds(t, c)
{
    let cond = if kind_at(t, c) != TokenKind::Semicolon {
        expression(t, c)
    } else {
        ok(c, literal(LiteralView::Bool(true), prev_span(t, c)))
    };
    match cond.out {
        Err(_) => cond,
        Ok(expr) => if kind_at(t, cond.state) == TokenKind::Semicolon {
            ok(advance(t, cond.state), expr)
        } else {
            ok(
                cond.state.report(
                    ParseErrorKind::MissingSemicolon {
                        span: just_after(prev_span(t, cond.state)),
                    },
                ),
                expr,
            )
        },
    }
}

/// The third clause of a `for`: an expression, unless the body, or the
/// parenthesis that closes the clauses, begins at once.
#[verifier::opaque]
pub open spec fn for_increment(t: Seq<Token>, c: Cursor, parenthesised: bool) -> Parsed<
    Option<ExprView>,
>
    decreases remaining(t, c), 27nat,
    when in_bounds(t, c)
{
    if kind_at(t, c) == TokenKind::LeftBrace || (parenthesised && kind_at(t, c)
        == TokenKind::RightParen) {
        ok(c, None)
    } else {
        let step = expression(t, c);
        match step.out {
            Err(e) => fail(step.state, e),
            Ok(expr) => ok(step.state, Some(expr)),
        }
    }
}

/// The tree that a `for` stands for: a block that holds the initialiser, if
/// there is one, and a `while` whose body is the body of the `for` with the
/// increment, if there is one, as its last statement. `whole` is the span of
/// the `for` statement, `to_increment` the span from `for` to the end of the
/// increment.
pub open spec fn desugared_for(
    initializer: Option<StmtView>,
    condition: ExprView,
    increment: Option<ExprView>,
    body: BlockView,
    whole: Span,
    to_increment: Span,
) -> StmtView {
    let body_items = match increment {
        Some(expr) => body.statements.push(StmtView::ExprStmt { expr, meta: at(to_increment) }),
        None => body.statements,
    };
    let looping = StmtView::While {
        condition,
        body: BlockView { statements: body_items, meta: body.meta },
        meta: at(whole),
    };
    let items = match initializer {
        Some(stmt) => seq![stmt, looping],
        None => seq![looping],
    };
    StmtView::Block { block: BlockView { statements: items, meta: at(whole) } }
}

/// `for`, three clauses, which may stand in parentheses, and a block.
#[verifier::opaque]
pub open spec fn for_stmt(t: Seq<Token>, c: Cursor) -> Parsed<StmtView>
    decreases remaining(t, c), 29nat,
    when in_bounds(t, c)
{
    let behind = advance(t, c);
    let parenthesised = kind_at(t, behind) == TokenKind::LeftParen;
    let clauses = if parenthesised {
        open_delimiter(t, behind).state
    } else {
        behind
    };
    let init = for_initializer(t, clauses.past(c));
    match init.out {
        Err(e) => fail(init.state, e),
        Ok(initializer) => {
            let cond = for_condition(t, init.state.past(c));
            match cond.out {
                Err(e) => fail(cond.state, e),
                Ok(condition) => {
                    let step = for_increment(t, cond.state.past(c), parenthesised);
                    match step.out {
                        Err(e) => fail(step.state, e),
                        Ok(increment) => {
                            let closed = if parenthesised {
                                close_delimiter(t, step.state)
                            } else {
                                ok(step.state, ())
                            };
                            match closed.out {
                                Err(e) => fail(closed.state, e),
                                Ok(_) => {
                                    let opening = closed.state.past(c);
                                    let brace = expect_block(t, opening);
                                    match brace.out {
                                        Err(e) => fail(brace.state, e),
                                        Ok(_) => {
                                            let body = block(t, opening);
                                            match body.out {
                                                Err(e) => fail(body.state, e),
                                                Ok(body_block) => ok(
                                                    body.state,
                                                    desugared_for(
                                                        initializer,
                                                        condition,
                                                        increment,
                                                        body_block,
                                                        covering(
                                                            span_at(t, c),
                                                            prev_span(t, body.state),
                                                        ),
                                                        covering(
                                                            span_at(t, c),
                                                            prev_span(t, step.state),
                                                        ),
                                                    ),
                                                ),
                                            }
                                        },
                                    }
                                },
                            }
                        },
                    }
                },
            }
        },
    }
}

/// `return`, an expression if there is one, and a semicolon.
#[verifier::opaque]
pub open spec fn return_stmt(t: Seq<Token>, c: Cursor) -> Parsed<StmtView>
    decreases remaining(t, c), 29nat,
    when in_bounds(t, c)
{
    let behind = advance(t, c);
    if kind_at(t, behind) == TokenKind::Semicolon {
        let last = statement_end(t, behind);
        ok(
            expect_semicolon(t, behind),
            StmtView::Return { value: None, meta: from_to(t, span_at(t, c), last) },
        )
    } else if kind_at(t, behind) == TokenKind::EOF {
        fail(behind, ParseErrorKind::ExpectedExpression { span: span_at(t, behind) })
    } else {
        let value = expression(t, behind);
        match value.out {
            Err(e) => fail(value.state, e),
            Ok(v) => {
                let last = statement_end(t, value.state);
                ok(
                    expect_semicolon(t, value.state),
                    StmtView::Return { value: Some(v), meta: from_to(t, span_at(t, c), last) },
                )
            },
        }
    }
}

// Programs.

/// Whether the parse at `next` is further than at `c`: behind it, or at the
/// same token with fewer delimiters open.
pub open spec fn further(c: Cursor, next: Cursor) -> bool {
    next.pos > c.pos || (next.pos == c.pos && next.delims.len() < c.delims.len())
}

/// The declarations of a program behind those in `seen`, up to the end of
/// input.
#[verifier::opaque]
pub open spec fn program_items(t: Seq<Token>, c: Cursor, seen: Seq<StmtView>) -> Items
    decreases remaining(t, c), c.delims.len(),
    when in_bounds(t, c)
{
    if at_eof(t, c) {
        Items { state: c, list: seen }
    } else {
        let next = recovered(t, declaration(t, c), seen);
        if further(c, next.state) {
            program_items(t, next.state, next.list)
        } else {
            next
        }
    }
}

/// The state at the end of input: every delimiter that is still open is
/// reported as unclosed, the innermost first, and forgotten.
pub open spec fn report_unclosed(c: Cursor) -> Cursor
    decreases c.delims.len(),
{
    if c.delims.len() > 0 {
        report_unclosed(
            c.pop().report(
                ParseErrorKind::UnclosedDelimiter {
                    span: c.delims.last().span,
                    delimiter: c.delims.last().delimiter.opening(),
                },
            ),
        )
    } else {
        c
    }
}

/// What parsing a whole token sequence from `c` on yields: the program, and
/// the state at the end of input, where no delimiter is open any more.
pub open spec fn program(t: Seq<Token>, c: Cursor) -> (ProgramView, Cursor) {
    let items = program_items(t, c, Seq::empty());
    (
        ProgramView {
            statements: items.list,
            span: covering(span_at(t, c), span_at(t, items.state)),
        },
        report_unclosed(items.state),
    )
}


} // verus!
