//! Progress, balance and placement of the grammar.
//!
//! Every rule ends on a token of the input, at or behind the token at which
//! it began, and a rule that succeeded has passed a token: a parse can take no
//! more steps than there are tokens. No rule drops a diagnostic. A rule that
//! succeeded without reporting anything has closed every delimiter that it
//! opened, and at the end of a parse no delimiter is open. Every node of the
//! tree that a rule builds, at any depth, has an empty type slot and a span
//! that reaches from one token to the same token or a later one.

use crate::ast::{ExprView, LiteralView, LogicalOp, StmtView};
use crate::coverage::{
    block_ok_placed, expr_ok_placed, expr_placed, exprs_placed, lemma_desugared_for_placed,
    lemma_reach, on_tokens, opt_expr_ok_placed, opt_stmt_ok_placed, stmt_ok_placed, stmt_placed,
    stmts_placed,
};
use crate::grammar;
use crate::grammar::{
    advance, at_eof, block_end, in_bounds, kind_at, prev_span, recovered, remaining, seek, span_at,
    stmt_boundary, BinaryLevel, Cursor, Parsed,
};
use crate::span::{covering, Span};
use crate::token::{stream_well_formed, Token, TokenKind};
use vstd::prelude::*;

verus! {

/// The state `s` is on a token of `t`, at or behind that of `c`, and holds no
/// fewer diagnostics.
pub open spec fn settled(t: Seq<Token>, c: Cursor, s: Cursor) -> bool {
    in_bounds(t, s) && s.pos >= c.pos && s.errors.len() >= c.errors.len()
}

/// If nothing was reported between `c` and `s`, the delimiters that are open
/// at `s` are those that were open at `c`.
pub open spec fn balanced(c: Cursor, s: Cursor) -> bool {
    s.errors.len() == c.errors.len() ==> s.delims == c.delims
}

/// The rule that began at `c` and yielded `p` is settled, and if it succeeded,
/// it is balanced.
pub open spec fn concluded<T>(t: Seq<Token>, c: Cursor, p: Parsed<T>) -> bool {
    settled(t, c, p.state) && (p.out is Ok ==> balanced(c, p.state))
}

/// The rule that began at `c` and yielded `p` is concluded, and if it
/// succeeded, it has passed a token.
pub open spec fn progressed<T>(t: Seq<Token>, c: Cursor, p: Parsed<T>) -> bool {
    concluded(t, c, p) && (p.out is Ok ==> p.state.pos > c.pos)
}

/// [`seek`] stays inside the input and never goes back.
pub proof fn lemma_seek(t: Seq<Token>, pos: int, kind: TokenKind)
    requires
        stream_well_formed(t),
        0 <= pos < t.len(),
    ensures
        pos <= seek(t, pos, kind) < t.len(),
        t[seek(t, pos, kind)].token_kind == kind || t[seek(t, pos, kind)].token_kind
            == TokenKind::EOF,
        t[pos].token_kind != kind && t[pos].token_kind != TokenKind::EOF ==> seek(t, pos, kind)
            > pos,
    decreases t.len() - pos,
{
    if t[pos].token_kind != kind && t[pos].token_kind != TokenKind::EOF {
        lemma_seek(t, pos + 1, kind);
    }
}

/// [`stmt_boundary`] stays inside the input and never goes back.
pub proof fn lemma_stmt_boundary(t: Seq<Token>, pos: int)
    requires
        stream_well_formed(t),
        0 <= pos < t.len(),
    ensures
        pos <= stmt_boundary(t, pos) < t.len(),
    decreases t.len() - pos,
{
    if t[pos].token_kind != TokenKind::Semicolon && t[pos].token_kind != TokenKind::RightBrace
        && t[pos].token_kind != TokenKind::EOF {
        lemma_stmt_boundary(t, pos + 1);
    }
}

/// [`block_end`] stays inside the input and never goes back.
pub proof fn lemma_block_end(t: Seq<Token>, pos: int, depth: nat)
    requires
        stream_well_formed(t),
        0 <= pos < t.len(),
    ensures
        pos <= block_end(t, pos, depth) < t.len(),
    decreases t.len() - pos,
{
    if depth > 0 && t[pos].token_kind != TokenKind::EOF {
        if t[pos].token_kind == TokenKind::LeftBrace {
            lemma_block_end(t, pos + 1, depth + 1);
        } else if t[pos].token_kind == TokenKind::RightBrace {
            lemma_block_end(t, pos + 1, (depth - 1) as nat);
        } else {
            lemma_block_end(t, pos + 1, depth);
        }
    }
}

/// Recovery never leaves the input and never goes back. A block that is
/// where it was expected leaves the parse where it is.
pub proof fn lemma_recovery(t: Seq<Token>, c: Cursor)
    requires
        stream_well_formed(t),
        in_bounds(t, c),
    ensures
        settled(t, c, grammar::skip_to_next_stmt(t, c)),
        settled(t, c, grammar::skip_to_next_paren(t, c)),
        kind_at(t, c) != TokenKind::LeftParen && !at_eof(t, c) ==> grammar::skip_to_next_paren(
            t,
            c,
        ).pos > c.pos,
        settled(t, c, grammar::skip_next_block(t, c)),
        settled(t, c, grammar::expect_semicolon(t, c)),
        settled(t, c, grammar::expect_block(t, c).state),
        grammar::expect_block(t, c).out is Ok ==> grammar::expect_block(t, c).state == c,
        grammar::skip_to_next_stmt(t, c).delims == c.delims,
        grammar::skip_to_next_stmt(t, c).errors == c.errors,
        grammar::skip_to_next_paren(t, c).delims == c.delims,
        grammar::skip_to_next_paren(t, c).errors == c.errors,
        balanced(c, grammar::expect_semicolon(t, c)),
        kind_at(t, c) == TokenKind::Semicolon ==> grammar::expect_semicolon(t, c) == advance(t, c),
        kind_at(t, c) != TokenKind::Semicolon ==> grammar::expect_semicolon(t, c).errors.len()
            == c.errors.len() + 1,
{
    reveal(grammar::skip_to_next_stmt);
    reveal(grammar::skip_to_next_paren);
    reveal(grammar::skip_next_block);
    reveal(grammar::expect_semicolon);
    reveal(grammar::expect_block);
    lemma_stmt_boundary(t, c.pos);
    lemma_seek(t, c.pos, TokenKind::LeftParen);
    lemma_seek(t, c.pos, TokenKind::LeftBrace);
    let opening = seek(t, c.pos, TokenKind::LeftBrace);
    if t[opening].token_kind == TokenKind::LeftBrace {
        lemma_block_end(t, opening + 1, 1);
    }
}

/// Taking a delimiter never leaves the input, and passes it where it
/// succeeds.
pub proof fn lemma_delimiters(t: Seq<Token>, c: Cursor)
    requires
        stream_well_formed(t),
        in_bounds(t, c),
    ensures
        settled(t, c, grammar::open_delimiter(t, c).state),
        !at_eof(t, c) ==> grammar::open_delimiter(t, c).state.pos == c.pos + 1,
        kind_at(t, c) == TokenKind::LeftParen || kind_at(t, c) == TokenKind::LeftBrace
            ==> grammar::open_delimiter(t, c).out is Ok,
        grammar::open_delimiter(t, c).out is Ok ==> {
            &&& grammar::open_delimiter(t, c).state.pos > c.pos
            &&& grammar::open_delimiter(t, c).state.errors == c.errors
            &&& grammar::open_delimiter(t, c).state.delims.len() == c.delims.len() + 1
            &&& grammar::open_delimiter(t, c).state.delims.drop_last() == c.delims
        },
        settled(t, c, grammar::close_delimiter(t, c).state),
        grammar::close_delimiter(t, c).out is Ok ==> {
            &&& grammar::close_delimiter(t, c).state.pos > c.pos
            &&& grammar::close_delimiter(t, c).state.errors == c.errors
            &&& c.delims.len() > 0
            &&& grammar::close_delimiter(t, c).state.delims == c.delims.drop_last()
        },
{
    reveal(grammar::open_delimiter);
    reveal(grammar::close_delimiter);
    let opened = grammar::open_delimiter(t, c);
    if opened.out is Ok {
        assert(opened.state.delims.drop_last() =~= c.delims);
    }
}

/// Reading a name never leaves the input, and passes a token where it
/// succeeds.
pub proof fn lemma_names(t: Seq<Token>, c: Cursor)
    requires
        stream_well_formed(t),
        in_bounds(t, c),
    ensures
        progressed(t, c, grammar::variable_name(t, c)),
        progressed(t, c, grammar::function_name(t, c)),
{
    reveal(grammar::variable_name);
    reveal(grammar::function_name);
    lemma_recovery(t, c);
}

/// Progress, balance and placement of [`grammar::parameter_list`].
pub proof fn lemma_parameter_list(t: Seq<Token>, c: Cursor, opening: Span, seen: Seq<
    crate::ast::IdentView,
>)
    requires
        stream_well_formed(t),
        in_bounds(t, c),
    ensures
        settled(t, c, grammar::parameter_list(t, c, opening, seen).state),
        grammar::parameter_list(t, c, opening, seen).out is Ok ==> {
            &&& grammar::parameter_list(t, c, opening, seen).state.pos > c.pos
            &&& grammar::parameter_list(t, c, opening, seen).state.errors == c.errors
            &&& c.delims.len() > 0
            &&& grammar::parameter_list(t, c, opening, seen).state.delims == c.delims.drop_last()
        },
    decreases remaining(t, c),
{
    reveal(grammar::parameter_list);
    lemma_recovery(t, c);
    if kind_at(t, c) == TokenKind::Ident {
        let behind = advance(t, c);
        lemma_delimiters(t, behind);
        if kind_at(t, behind) == TokenKind::Comma {
            let next = advance(t, behind);
            if kind_at(t, next) != TokenKind::RightParen {
                lemma_parameter_list(t, next, opening, seen.push(grammar::ident_at(t, c)));
            }
        }
    }
}

/// Progress, balance and placement of [`grammar::parameters`].
pub proof fn lemma_parameters(t: Seq<Token>, c: Cursor)
    requires
        stream_well_formed(t),
        in_bounds(t, c),
    ensures
        progressed(t, c, grammar::parameters(t, c)),
{
    reveal(grammar::parameters);
    lemma_delimiters(t, c);
    let opened = grammar::open_delimiter(t, c);
    if opened.out is Ok {
        lemma_delimiters(t, opened.state);
        lemma_parameter_list(t, opened.state, span_at(t, c), Seq::empty());
    }
}

// The rules for expressions.

/// Progress, balance and placement of [`grammar::expression`].
pub proof fn lemma_expression(t: Seq<Token>, c: Cursor)
    requires
        stream_well_formed(t),
        in_bounds(t, c),
    ensures
        progressed(t, c, grammar::expression(t, c)),
        expr_ok_placed(t, grammar::expression(t, c)),
    decreases remaining(t, c), 26nat,
{
    lemma_reach(t, c.pos);
    reveal(grammar::expression);
    if kind_at(t, c) == TokenKind::Fun {
        reveal(grammar::lambda_expr);
        lemma_lambda_expr(t, c);
    } else {
        reveal(grammar::assignment);
        lemma_assignment(t, c);
    }
}

/// Progress, balance and placement of [`grammar::lambda_expr`].
#[verifier::rlimit(50)]
pub proof fn lemma_lambda_expr(t: Seq<Token>, c: Cursor)
    requires
        stream_well_formed(t),
        in_bounds(t, c),
        kind_at(t, c) == TokenKind::Fun,
    ensures
        progressed(t, c, grammar::lambda_expr(t, c)),
        expr_ok_placed(t, grammar::lambda_expr(t, c)),
    decreases remaining(t, c), 25nat,
{
    lemma_reach(t, c.pos);
    reveal(grammar::lambda_expr);
    reveal(grammar::block);
    lemma_parameters(t, advance(t, c));
    let params = grammar::parameters(t, advance(t, c));
    if params.out is Ok {
        let opening = params.state.past(c);
        lemma_recovery(t, opening);
        if grammar::expect_block(t, opening).out is Ok {
            lemma_block(t, opening);
        }
    }
}

/// Progress, balance and placement of [`grammar::assignment`].
#[verifier::rlimit(50)]
pub proof fn lemma_assignment(t: Seq<Token>, c: Cursor)
    requires
        stream_well_formed(t),
        in_bounds(t, c),
    ensures
        progressed(t, c, grammar::assignment(t, c)),
        expr_ok_placed(t, grammar::assignment(t, c)),
    decreases remaining(t, c), 25nat,
{
    lemma_reach(t, c.pos);
    reveal(grammar::assignment);
    reveal(grammar::expression);
    reveal(grammar::logical);
    lemma_logical(t, c, LogicalOp::Or);
    let first = grammar::logical(t, c, LogicalOp::Or);
    if first.out is Ok {
        let behind = first.state.past(c);
        if kind_at(t, behind) == TokenKind::Equal {
            lemma_expression(t, advance(t, behind));
        }
    }
}

/// Progress, balance and placement of [`grammar::logical`].
pub proof fn lemma_logical(t: Seq<Token>, c: Cursor, op: LogicalOp)
    requires
        stream_well_formed(t),
        in_bounds(t, c),
    ensures
        progressed(t, c, grammar::logical(t, c, op)),
        expr_ok_placed(t, grammar::logical(t, c, op)),
    decreases remaining(t, c), op.rank(),
{
    reveal(grammar::logical);
    reveal(grammar::logical_rest);
    reveal(grammar::binary);
    let first = if op == LogicalOp::Or {
        lemma_logical(t, c, LogicalOp::And);
        grammar::logical(t, c, LogicalOp::And)
    } else {
        lemma_binary(t, c, BinaryLevel::Equality);
        grammar::binary(t, c, BinaryLevel::Equality)
    };
    if let Ok(left) = first.out {
        lemma_logical_rest(t, first.state.past(c), op, span_at(t, c), left, c.pos);
    }
}

/// Progress, balance and placement of [`grammar::logical_rest`].
#[verifier::rlimit(50)]
pub proof fn lemma_logical_rest(
    t: Seq<Token>,
    c: Cursor,
    op: LogicalOp,
    first: Span,
    left: ExprView,
    from: int,
)
    requires
        stream_well_formed(t),
        in_bounds(t, c),
    ensures
        concluded(t, c, grammar::logical_rest(t, c, op, first, left)),
        0 <= from < c.pos && first == t[from].span && expr_placed(t, left) ==> expr_ok_placed(
            t,
            grammar::logical_rest(t, c, op, first, left),
        ),
    decreases remaining(t, c), 0nat,
{
    if 0 <= from < c.pos {
        lemma_reach(t, from);
    }
    reveal(grammar::logical);
    reveal(grammar::logical_rest);
    reveal(grammar::binary);
    if kind_at(t, c) == op.token() {
        let behind = advance(t, c);
        lemma_reach(t, behind.pos);
        let given = 0 <= from < c.pos && first == t[from].span && expr_placed(t, left);
        if kind_at(t, behind) == TokenKind::Semicolon {
            if given {
                let right = grammar::literal(
                    LiteralView::Bool(false),
                    span_at(t, behind),
                );
                assert(expr_placed(t, right));
                assert(on_tokens(t, grammar::from_to(t, first, behind)));
            }
        } else {
            let right = if op == LogicalOp::Or {
                lemma_logical(t, behind, LogicalOp::And);
                grammar::logical(t, behind, LogicalOp::And)
            } else {
                lemma_binary(t, behind, BinaryLevel::Equality);
                grammar::binary(t, behind, BinaryLevel::Equality)
            };
            if let Ok(operand) = right.out {
                let state = right.state.past(c);
                if given {
                    assert(on_tokens(t, grammar::from_to(t, first, state)));
                }
                lemma_logical_rest(
                    t,
                    state,
                    op,
                    first,
                    ExprView::Logical {
                        left: Box::new(left),
                        op,
                        right: Box::new(operand),
                        meta: grammar::from_to(t, first, state),
                    },
                    from,
                );
            }
        }
    }
}

/// The operand of the operators of `level`, as the grammar parses it.
pub open spec fn operand_of(t: Seq<Token>, c: Cursor, level: BinaryLevel) -> Parsed<ExprView> {
    match level {
        BinaryLevel::Equality => grammar::binary(t, c, BinaryLevel::Comparison),
        BinaryLevel::Comparison => grammar::binary(t, c, BinaryLevel::Term),
        BinaryLevel::Term => grammar::binary(t, c, BinaryLevel::Factor),
        BinaryLevel::Factor => grammar::unary(t, c),
    }
}

/// Progress, balance and placement of [`grammar::binary`].
pub proof fn lemma_binary(t: Seq<Token>, c: Cursor, level: BinaryLevel)
    requires
        stream_well_formed(t),
        in_bounds(t, c),
    ensures
        progressed(t, c, grammar::binary(t, c, level)),
        expr_ok_placed(t, grammar::binary(t, c, level)),
    decreases remaining(t, c), level.rank(),
{
    reveal(grammar::binary);
    reveal(grammar::binary_rest);
    reveal(grammar::unary);
    match level {
        BinaryLevel::Equality => lemma_binary(t, c, BinaryLevel::Comparison),
        BinaryLevel::Comparison => lemma_binary(t, c, BinaryLevel::Term),
        BinaryLevel::Term => lemma_binary(t, c, BinaryLevel::Factor),
        BinaryLevel::Factor => lemma_unary(t, c),
    };
    let first = operand_of(t, c, level);
    if let Ok(left) = first.out {
        lemma_binary_rest(t, first.state.past(c), level, span_at(t, c), left, c.pos);
    }
}

/// Progress, balance and placement of [`grammar::binary_rest`].
#[verifier::rlimit(50)]
pub proof fn lemma_binary_rest(
    t: Seq<Token>,
    c: Cursor,
    level: BinaryLevel,
    first: Span,
    left: ExprView,
    from: int,
)
    requires
        stream_well_formed(t),
        in_bounds(t, c),
    ensures
        concluded(t, c, grammar::binary_rest(t, c, level, first, left)),
        0 <= from < c.pos && first == t[from].span && expr_placed(t, left) ==> expr_ok_placed(
            t,
            grammar::binary_rest(t, c, level, first, left),
        ),
    decreases remaining(t, c), 0nat,
{
    if 0 <= from < c.pos {
        lemma_reach(t, from);
    }
    reveal(grammar::binary);
    reveal(grammar::binary_rest);
    reveal(grammar::unary);
    if let Some(op) = level.operator(kind_at(t, c)) {
        let behind = advance(t, c);
        match level {
            BinaryLevel::Equality => lemma_binary(t, behind, BinaryLevel::Comparison),
            BinaryLevel::Comparison => lemma_binary(t, behind, BinaryLevel::Term),
            BinaryLevel::Term => lemma_binary(t, behind, BinaryLevel::Factor),
            BinaryLevel::Factor => lemma_unary(t, behind),
        };
        let right = operand_of(t, behind, level);
        if let Ok(operand) = right.out {
            let state = right.state.past(c);
            lemma_binary_rest(
                t,
                state,
                level,
                first,
                ExprView::Binary {
                    left: Box::new(left),
                    op,
                    right: Box::new(operand),
                    meta: grammar::from_to(t, first, state),
                },
                from,
            );
        }
    }
}

/// Progress, balance and placement of [`grammar::unary`].
pub proof fn lemma_unary(t: Seq<Token>, c: Cursor)
    requires
        stream_well_formed(t),
        in_bounds(t, c),
    ensures
        progressed(t, c, grammar::unary(t, c)),
        expr_ok_placed(t, grammar::unary(t, c)),
    decreases remaining(t, c), 18nat,
{
    lemma_reach(t, c.pos);
    reveal(grammar::unary);
    reveal(grammar::call);
    if grammar::unary_operator(kind_at(t, c)) is Some {
        lemma_unary(t, advance(t, c));
    } else {
        lemma_call(t, c);
    }
}

/// Progress, balance and placement of [`grammar::call`].
pub proof fn lemma_call(t: Seq<Token>, c: Cursor)
    requires
        stream_well_formed(t),
        in_bounds(t, c),
    ensures
        progressed(t, c, grammar::call(t, c)),
        expr_ok_placed(t, grammar::call(t, c)),
    decreases remaining(t, c), 17nat,
{
    lemma_reach(t, c.pos);
    reveal(grammar::call);
    reveal(grammar::call_rest);
    reveal(grammar::primary);
    lemma_primary(t, c);
    let first = grammar::primary(t, c);
    if let Ok(callee) = first.out {
        lemma_call_rest(t, first.state.past(c), span_at(t, c), callee, c.pos);
    }
}

/// Progress, balance and placement of [`grammar::call_rest`].
pub proof fn lemma_call_rest(t: Seq<Token>, c: Cursor, first: Span, callee: ExprView, from: int)
    requires
        stream_well_formed(t),
        in_bounds(t, c),
    ensures
        concluded(t, c, grammar::call_rest(t, c, first, callee)),
        0 <= from < c.pos && first == t[from].span && expr_placed(t, callee) ==> expr_ok_placed(
            t,
            grammar::call_rest(t, c, first, callee),
        ),
    decreases remaining(t, c), 17nat,
{
    if 0 <= from < c.pos {
        lemma_reach(t, from);
    }
    reveal(grammar::call_rest);
    reveal(grammar::finish_call);
    if kind_at(t, c) == TokenKind::LeftParen {
        lemma_finish_call(t, c, first, callee, from);
        let called = grammar::finish_call(t, c, first, callee);
        if let Ok(result) = called.out {
            lemma_call_rest(t, called.state.past(c), first, result, from);
        }
    }
}

/// Progress, balance and placement of [`grammar::finish_call`].
#[verifier::rlimit(50)]
pub proof fn lemma_finish_call(t: Seq<Token>, c: Cursor, first: Span, callee: ExprView, from: int)
    requires
        stream_well_formed(t),
        in_bounds(t, c),
    ensures
        progressed(t, c, grammar::finish_call(t, c, first, callee)),
        0 <= from < c.pos && first == t[from].span && expr_placed(t, callee) ==> expr_ok_placed(
            t,
            grammar::finish_call(t, c, first, callee),
        ),
    decreases remaining(t, c), 16nat,
{
    if 0 <= from < c.pos {
        lemma_reach(t, from);
    }
    reveal(grammar::finish_call);
    reveal(grammar::arguments);
    lemma_delimiters(t, c);
    let opened = grammar::open_delimiter(t, c);
    if opened.out is Ok {
        let inside = opened.state.past(c);
        if !(kind_at(t, inside) == TokenKind::EOF || kind_at(t, inside) == TokenKind::Semicolon) {
            let args = if kind_at(t, inside) == TokenKind::RightParen {
                grammar::ok(inside, Seq::<ExprView>::empty())
            } else {
                lemma_arguments(t, inside, Seq::empty());
                grammar::arguments(t, inside, Seq::empty())
            };
            if args.out is Ok {
                lemma_delimiters(t, args.state);
            }
            if 0 <= from < c.pos && first == t[from].span && expr_placed(t, callee) {
                assert(exprs_placed(t, Seq::<ExprView>::empty()));
                if let Ok(list) = args.out {
                    assert(exprs_placed(t, list));
                    let closed = grammar::close_delimiter(t, args.state);
                    if closed.out is Ok {
                        assert(on_tokens(t, grammar::from_to(t, first, closed.state)));
                    }
                }
            }
        }
    }
}

/// Progress, balance and placement of [`grammar::arguments`].
pub proof fn lemma_arguments(t: Seq<Token>, c: Cursor, seen: Seq<ExprView>)
    requires
        stream_well_formed(t),
        in_bounds(t, c),
    ensures
        progressed(t, c, grammar::arguments(t, c, seen)),
        exprs_placed(t, seen) ==> (grammar::arguments(t, c, seen).out matches Ok(list)
            ==> exprs_placed(t, list)),
    decreases remaining(t, c), 27nat,
{
    reveal(grammar::arguments);
    reveal(grammar::expression);
    lemma_expression(t, c);
    let first = grammar::expression(t, c);
    if let Ok(argument) = first.out {
        let behind = first.state.past(c);
        if exprs_placed(t, seen) {
            assert forall|i: int| 0 <= i < seen.push(argument).len() implies expr_placed(
                t,
                #[trigger] seen.push(argument)[i],
            ) by {
                if i < seen.len() {
                    assert(seen.push(argument)[i] == seen[i]);
                }
            }
        }
        if kind_at(t, behind) == TokenKind::Comma {
            lemma_arguments(t, advance(t, behind), seen.push(argument));
        }
    }
}

/// Progress, balance and placement of [`grammar::primary`].
#[verifier::rlimit(50)]
pub proof fn lemma_primary(t: Seq<Token>, c: Cursor)
    requires
        stream_well_formed(t),
        in_bounds(t, c),
    ensures
        progressed(t, c, grammar::primary(t, c)),
        expr_ok_placed(t, grammar::primary(t, c)),
    decreases remaining(t, c), 16nat,
{
    lemma_reach(t, c.pos);
    reveal(grammar::primary);
    reveal(grammar::expression);
    lemma_delimiters(t, c);
    if kind_at(t, c) == TokenKind::LeftParen {
        let opened = grammar::open_delimiter(t, c);
        let inside = opened.state.past(c);
        assert(inside == opened.state);
        if kind_at(t, inside) == TokenKind::RightParen {
            lemma_delimiters(t, inside);
        } else {
            lemma_expression(t, inside);
            let inner = grammar::expression(t, inside);
            if inner.out is Ok {
                lemma_delimiters(t, inner.state);
                let closed = grammar::close_delimiter(t, inner.state);
                if closed.out is Ok && closed.state.errors.len() == c.errors.len() {
                    assert(inner.state.errors.len() == inside.errors.len());
                    assert(inner.state.delims == inside.delims);
                    assert(closed.state.delims == c.delims);
                }
            }
        }
    }
}

// The rules for statements.

/// Progress, balance and placement of [`grammar::declaration`].
#[verifier::rlimit(50)]
pub proof fn lemma_declaration(t: Seq<Token>, c: Cursor)
    requires
        stream_well_formed(t),
        in_bounds(t, c),
    ensures
        progressed(t, c, grammar::declaration(t, c)),
        stmt_ok_placed(t, grammar::declaration(t, c)),
    decreases remaining(t, c), 31nat,
{
    lemma_reach(t, c.pos);
    reveal(grammar::declaration);
    if kind_at(t, c) == TokenKind::Var {
        reveal(grammar::var_declaration);
        lemma_var_declaration(t, c);
    } else if kind_at(t, c) == TokenKind::Fun {
        reveal(grammar::fun_declaration);
        lemma_fun_declaration(t, c);
    } else {
        reveal(grammar::statement);
        lemma_statement(t, c);
    }
}

/// Progress, balance and placement of [`grammar::var_declaration`].
#[verifier::rlimit(50)]
pub proof fn lemma_var_declaration(t: Seq<Token>, c: Cursor)
    requires
        stream_well_formed(t),
        in_bounds(t, c),
    ensures
        progressed(t, c, grammar::var_declaration(t, c)),
        stmt_ok_placed(t, grammar::var_declaration(t, c)),
    decreases remaining(t, c), 29nat,
{
    lemma_reach(t, c.pos);
    reveal(grammar::var_declaration);
    reveal(grammar::var_initializer);
    lemma_names(t, advance(t, c));
    let name = grammar::variable_name(t, advance(t, c));
    if name.out is Ok {
        lemma_var_initializer(t, name.state.past(c));
        let init = grammar::var_initializer(t, name.state.past(c));
        if init.out is Ok {
            lemma_recovery(t, init.state);
        }
    }
}

/// Progress, balance and placement of [`grammar::var_initializer`].
pub proof fn lemma_var_initializer(t: Seq<Token>, c: Cursor)
    requires
        stream_well_formed(t),
        in_bounds(t, c),
    ensures
        concluded(t, c, grammar::var_initializer(t, c)),
        opt_expr_ok_placed(t, grammar::var_initializer(t, c)),
    decreases remaining(t, c), 0nat,
{
    reveal(grammar::var_initializer);
    reveal(grammar::expression);
    if kind_at(t, c) == TokenKind::Equal {
        let behind = advance(t, c);
        if kind_at(t, behind) != TokenKind::Semicolon {
            lemma_expression(t, behind);
        }
    }
}

/// Progress, balance and placement of [`grammar::fun_declaration`].
#[verifier::rlimit(50)]
pub proof fn lemma_fun_declaration(t: Seq<Token>, c: Cursor)
    requires
        stream_well_formed(t),
        in_bounds(t, c),
    ensures
        progressed(t, c, grammar::fun_declaration(t, c)),
        stmt_ok_placed(t, grammar::fun_declaration(t, c)),
    decreases remaining(t, c), 29nat,
{
    lemma_reach(t, c.pos);
    reveal(grammar::fun_declaration);
    reveal(grammar::block);
    lemma_names(t, advance(t, c));
    let name = grammar::function_name(t, advance(t, c));
    if name.out is Ok {
        lemma_parameters(t, name.state);
        let params = grammar::parameters(t, name.state);
        if params.out is Ok {
            let opening = params.state.past(c);
            lemma_recovery(t, opening);
            if grammar::expect_block(t, opening).out is Ok {
                lemma_block(t, opening);
            }
        }
    }
}

/// Progress, balance and placement of [`grammar::statement`].
#[verifier::rlimit(50)]
pub proof fn lemma_statement(t: Seq<Token>, c: Cursor)
    requires
        stream_well_formed(t),
        in_bounds(t, c),
    ensures
        progressed(t, c, grammar::statement(t, c)),
        stmt_ok_placed(t, grammar::statement(t, c)),
    decreases remaining(t, c), 30nat,
{
    lemma_reach(t, c.pos);
    reveal(grammar::statement);
    if kind_at(t, c) == TokenKind::Print {
        reveal(grammar::print_stmt);
        lemma_print_stmt(t, c);
    } else if kind_at(t, c) == TokenKind::LeftBrace {
        reveal(grammar::block);
        lemma_block(t, c);
    } else if kind_at(t, c) == TokenKind::If {
        reveal(grammar::if_stmt);
        lemma_if_stmt(t, c);
    } else if kind_at(t, c) == TokenKind::While {
        reveal(grammar::while_stmt);
        lemma_while_stmt(t, c);
    } else if kind_at(t, c) == TokenKind::For {
        reveal(grammar::for_stmt);
        lemma_for_stmt(t, c);
    } else if kind_at(t, c) == TokenKind::Return {
        reveal(grammar::return_stmt);
        lemma_return_stmt(t, c);
    } else {
        reveal(grammar::expression_stmt);
        lemma_expression_stmt(t, c);
    }
}

/// Progress, balance and placement of [`grammar::expression_stmt`].
#[verifier::rlimit(50)]
pub proof fn lemma_expression_stmt(t: Seq<Token>, c: Cursor)
    requires
        stream_well_formed(t),
        in_bounds(t, c),
    ensures
        progressed(t, c, grammar::expression_stmt(t, c)),
        stmt_ok_placed(t, grammar::expression_stmt(t, c)),
    decreases remaining(t, c), 29nat,
{
    lemma_reach(t, c.pos);
    reveal(grammar::expression_stmt);
    reveal(grammar::expression);
    lemma_expression(t, c);
    let value = grammar::expression(t, c);
    if value.out is Ok {
        lemma_recovery(t, value.state);
    }
}

/// Progress, balance and placement of [`grammar::print_stmt`].
#[verifier::rlimit(50)]
pub proof fn lemma_print_stmt(t: Seq<Token>, c: Cursor)
    requires
        stream_well_formed(t),
        in_bounds(t, c),
    ensures
        progressed(t, c, grammar::print_stmt(t, c)),
        stmt_ok_placed(t, grammar::print_stmt(t, c)),
    decreases remaining(t, c), 29nat,
{
    lemma_reach(t, c.pos);
    reveal(grammar::print_stmt);
    reveal(grammar::expression);
    lemma_expression(t, advance(t, c));
    let value = grammar::expression(t, advance(t, c));
    if value.out is Ok {
        lemma_recovery(t, value.state);
    }
}

/// Progress, balance and placement of [`grammar::block`].
#[verifier::rlimit(50)]
pub proof fn lemma_block(t: Seq<Token>, c: Cursor)
    requires
        stream_well_formed(t),
        in_bounds(t, c),
    ensures
        progressed(t, c, grammar::block(t, c)),
        block_ok_placed(t, grammar::block(t, c)),
    decreases remaining(t, c), 29nat,
{
    lemma_reach(t, c.pos);
    reveal(grammar::block);
    reveal(grammar::block_items);
    lemma_delimiters(t, c);
    let opened = grammar::open_delimiter(t, c);
    if opened.out is Ok {
        let inside = opened.state.past(c);
        lemma_block_items(t, inside, Seq::empty());
        lemma_delimiters(t, grammar::block_items(t, inside, Seq::empty()).state);
    }
}

/// Progress, balance and placement of [`grammar::block_items`].
pub proof fn lemma_block_items(t: Seq<Token>, c: Cursor, seen: Seq<StmtView>)
    requires
        stream_well_formed(t),
        in_bounds(t, c),
    ensures
        settled(t, c, grammar::block_items(t, c, seen).state),
        balanced(c, grammar::block_items(t, c, seen).state),
        stmts_placed(t, seen) ==> stmts_placed(t, grammar::block_items(t, c, seen).list),
    decreases remaining(t, c), 32nat,
{
    reveal(grammar::block_items);
    reveal(grammar::declaration);
    if !(kind_at(t, c) == TokenKind::RightBrace || at_eof(t, c)) {
        lemma_declaration(t, c);
        let tried = grammar::declaration(t, c);
        if let Err(e) = tried.out {
            lemma_recovery(t, tried.state.report(e));
        }
        let next = recovered(t, tried, seen);
        if stmts_placed(t, seen) {
            assert forall|i: int| 0 <= i < next.list.len() implies stmt_placed(
                t,
                #[trigger] next.list[i],
            ) by {
                if i < seen.len() {
                    assert(next.list[i] == seen[i]);
                }
            }
        }
        lemma_block_items(t, next.state.past(c), next.list);
    }
}

/// Progress, balance and placement of [`grammar::condition`].
pub proof fn lemma_condition(t: Seq<Token>, c: Cursor)
    requires
        stream_well_formed(t),
        in_bounds(t, c),
    ensures
        settled(t, c, grammar::condition(t, c).state),
        balanced(c, grammar::condition(t, c).state),
        expr_placed(t, grammar::condition(t, c).expr),
    decreases remaining(t, c), 27nat,
{
    lemma_reach(t, c.pos);
    reveal(grammar::condition);
    reveal(grammar::expression);
    lemma_expression(t, c);
}

/// Progress, balance and placement of [`grammar::if_stmt`].
#[verifier::rlimit(50)]
pub proof fn lemma_if_stmt(t: Seq<Token>, c: Cursor)
    requires
        stream_well_formed(t),
        in_bounds(t, c),
        kind_at(t, c) == TokenKind::If,
    ensures
        progressed(t, c, grammar::if_stmt(t, c)),
        stmt_ok_placed(t, grammar::if_stmt(t, c)),
    decreases remaining(t, c), 29nat,
{
    lemma_reach(t, c.pos);
    reveal(grammar::if_stmt);
    reveal(grammar::block);
    reveal(grammar::condition);
    lemma_condition(t, advance(t, c));
    let opening = grammar::condition(t, advance(t, c)).state.past(c);
    lemma_recovery(t, opening);
    if grammar::expect_block(t, opening).out is Ok {
        lemma_block(t, opening);
        let then = grammar::block(t, opening);
        if then.out is Ok {
            let behind = then.state.past(c);
            if kind_at(t, behind) == TokenKind::Else {
                let else_opening = advance(t, behind);
                lemma_recovery(t, else_opening);
                if grammar::expect_block(t, else_opening).out is Ok {
                    lemma_block(t, else_opening);
                    let other = grammar::block(t, else_opening);
                    if other.out is Ok {
                        assert(on_tokens(t, grammar::from_to(t, span_at(t, c), other.state)));
                    }
                }
            } else {
                assert(on_tokens(t, grammar::from_to(t, span_at(t, c), behind)));
            }
        }
    }
}

/// Progress, balance and placement of [`grammar::while_stmt`].
#[verifier::rlimit(50)]
pub proof fn lemma_while_stmt(t: Seq<Token>, c: Cursor)
    requires
        stream_well_formed(t),
        in_bounds(t, c),
        kind_at(t, c) == TokenKind::While,
    ensures
        progressed(t, c, grammar::while_stmt(t, c)),
        stmt_ok_placed(t, grammar::while_stmt(t, c)),
    decreases remaining(t, c), 29nat,
{
    lemma_reach(t, c.pos);
    reveal(grammar::while_stmt);
    reveal(grammar::block);
    reveal(grammar::condition);
    lemma_condition(t, advance(t, c));
    let opening = grammar::condition(t, advance(t, c)).state.past(c);
    lemma_recovery(t, opening);
    if grammar::expect_block(t, opening).out is Ok {
        lemma_block(t, opening);
    }
}

/// Progress, balance and placement of [`grammar::for_initializer`].
pub proof fn lemma_for_initializer(t: Seq<Token>, c: Cursor)
    requires
        stream_well_formed(t),
        in_bounds(t, c),
    ensures
        progressed(t, c, grammar::for_initializer(t, c)),
        opt_stmt_ok_placed(t, grammar::for_initializer(t, c)),
    decreases remaining(t, c), 30nat,
{
    reveal(grammar::for_initializer);
    if kind_at(t, c) != TokenKind::Semicolon {
        if kind_at(t, c) == TokenKind::Var {
            reveal(grammar::var_declaration);
            lemma_var_declaration(t, c);
        } else {
            reveal(grammar::expression_stmt);
            lemma_expression_stmt(t, c);
        }
    }
}

/// Progress, balance and placement of [`grammar::for_condition`].
pub proof fn lemma_for_condition(t: Seq<Token>, c: Cursor)
    requires
        stream_well_formed(t),
        in_bounds(t, c),
    ensures
        progressed(t, c, grammar::for_condition(t, c)),
        c.pos > 0 ==> expr_ok_placed(t, grammar::for_condition(t, c)),
    decreases remaining(t, c), 27nat,
{
    if c.pos > 0 {
        lemma_reach(t, c.pos - 1);
    }
    reveal(grammar::for_condition);
    reveal(grammar::expression);
    if kind_at(t, c) != TokenKind::Semicolon {
        lemma_expression(t, c);
    }
}

/// Progress, balance and placement of [`grammar::for_increment`].
pub proof fn lemma_for_increment(t: Seq<Token>, c: Cursor, parenthesised: bool)
    requires
        stream_well_formed(t),
        in_bounds(t, c),
    ensures
        concluded(t, c, grammar::for_increment(t, c, parenthesised)),
        opt_expr_ok_placed(t, grammar::for_increment(t, c, parenthesised)),
    decreases remaining(t, c), 27nat,
{
    reveal(grammar::for_increment);
    reveal(grammar::expression);
    lemma_expression(t, c);
}

/// Progress, balance and placement of [`grammar::for_stmt`].
#[verifier::rlimit(50)]
pub proof fn lemma_for_stmt(t: Seq<Token>, c: Cursor)
    requires
        stream_well_formed(t),
        in_bounds(t, c),
        kind_at(t, c) == TokenKind::For,
    ensures
        progressed(t, c, grammar::for_stmt(t, c)),
        stmt_ok_placed(t, grammar::for_stmt(t, c)),
    decreases remaining(t, c), 29nat,
{
    lemma_reach(t, c.pos);
    reveal(grammar::for_stmt);
    reveal(grammar::block);
    reveal(grammar::for_initializer);
    reveal(grammar::for_condition);
    reveal(grammar::for_increment);
    let behind = advance(t, c);
    let parenthesised = kind_at(t, behind) == TokenKind::LeftParen;
    lemma_delimiters(t, behind);
    let clauses = if parenthesised {
        grammar::open_delimiter(t, behind).state
    } else {
        behind
    };
    assert(clauses.past(c) == clauses);
    assert(clauses.errors == c.errors);
    lemma_for_initializer(t, clauses);
    let init = grammar::for_initializer(t, clauses);
    if init.out is Ok {
        assert(init.state.past(c) == init.state);
        lemma_for_condition(t, init.state);
        let cond = grammar::for_condition(t, init.state);
        if cond.out is Ok {
            assert(cond.state.past(c) == cond.state);
            lemma_for_increment(t, cond.state, parenthesised);
            let step = grammar::for_increment(t, cond.state, parenthesised);
            if step.out is Ok {
                lemma_delimiters(t, step.state);
                let closed = if parenthesised {
                    grammar::close_delimiter(t, step.state)
                } else {
                    grammar::ok(step.state, ())
                };
                if closed.out is Ok {
                    let opening = closed.state.past(c);
                    assert(opening == closed.state);
                    lemma_recovery(t, opening);
                    if grammar::expect_block(t, opening).out is Ok {
                        lemma_block(t, opening);
                        let body = grammar::block(t, opening);
                        if let Ok(body_block) = body.out {
                            if let Ok(initializer) = init.out {
                                if let Ok(condition) = cond.out {
                                    if let Ok(increment) = step.out {
                                        lemma_desugared_for_placed(
                                            t,
                                            initializer,
                                            condition,
                                            increment,
                                            body_block,
                                            covering(span_at(t, c), prev_span(t, body.state)),
                                            covering(span_at(t, c), prev_span(t, step.state)),
                                        );
                                    }
                                }
                            }
                        }
                        if body.out is Ok && body.state.errors.len() == c.errors.len() {
                            assert(opening.errors.len() == c.errors.len());
                            assert(step.state.errors.len() == c.errors.len());
                            assert(cond.state.errors.len() == c.errors.len());
                            assert(init.state.errors.len() == c.errors.len());
                            assert(init.state.delims == clauses.delims);
                            assert(cond.state.delims == clauses.delims);
                            assert(step.state.delims == clauses.delims);
                            assert(opening.delims == c.delims);
                            assert(body.state.delims == c.delims);
                        }
                    }
                }
            }
        }
    }
}

/// Progress, balance and placement of [`grammar::return_stmt`].
#[verifier::rlimit(50)]
pub proof fn lemma_return_stmt(t: Seq<Token>, c: Cursor)
    requires
        stream_well_formed(t),
        in_bounds(t, c),
    ensures
        progressed(t, c, grammar::return_stmt(t, c)),
        stmt_ok_placed(t, grammar::return_stmt(t, c)),
    decreases remaining(t, c), 29nat,
{
    lemma_reach(t, c.pos);
    reveal(grammar::return_stmt);
    reveal(grammar::expression);
    let behind = advance(t, c);
    lemma_recovery(t, behind);
    if kind_at(t, behind) != TokenKind::Semicolon && kind_at(t, behind) != TokenKind::EOF {
        lemma_expression(t, behind);
        let value = grammar::expression(t, behind);
        if value.out is Ok {
            lemma_recovery(t, value.state);
        }
    }
}

/// The declarations of a program are parsed without leaving the input.
pub proof fn lemma_program_items(t: Seq<Token>, c: Cursor, seen: Seq<StmtView>)
    requires
        stream_well_formed(t),
        in_bounds(t, c),
    ensures
        settled(t, c, grammar::program_items(t, c, seen).state),
        balanced(c, grammar::program_items(t, c, seen).state),
        stmts_placed(t, seen) ==> stmts_placed(t, grammar::program_items(t, c, seen).list),
    decreases remaining(t, c), c.delims.len(),
{
    reveal(grammar::program_items);
    reveal(grammar::declaration);
    if !at_eof(t, c) {
        lemma_declaration(t, c);
        let tried = grammar::declaration(t, c);
        if let Err(e) = tried.out {
            lemma_recovery(t, tried.state.report(e));
        }
        let next = recovered(t, tried, seen);
        if stmts_placed(t, seen) {
            assert forall|i: int| 0 <= i < next.list.len() implies stmt_placed(
                t,
                #[trigger] next.list[i],
            ) by {
                if i < seen.len() {
                    assert(next.list[i] == seen[i]);
                }
            }
        }
        if grammar::further(c, next.state) {
            lemma_program_items(t, next.state, next.list);
        }
    }
}


/// What a parse of a whole token sequence from the start yields.
pub open spec fn parsed_program(t: Seq<Token>) -> (crate::ast::ProgramView, Cursor) {
    grammar::program(t, Cursor::start())
}

/// Reporting the delimiters that are still open leaves none open, moves the
/// parse nowhere, and adds one diagnostic for each of them.
pub proof fn lemma_report_unclosed(c: Cursor)
    ensures
        grammar::report_unclosed(c).delims.len() == 0,
        grammar::report_unclosed(c).pos == c.pos,
        grammar::report_unclosed(c).errors.len() == c.errors.len() + c.delims.len(),
    decreases c.delims.len(),
{
    if c.delims.len() > 0 {
        lemma_report_unclosed(
            c.pop().report(
                crate::error::ParseErrorKind::UnclosedDelimiter {
                    span: c.delims.last().span,
                    delimiter: c.delims.last().delimiter.opening(),
                },
            ),
        );
    }
}

/// A parse ends on a token of the input with no delimiter open: whatever was
/// left open is reported. So a parse that reports nothing has closed every
/// delimiter that it opened. Every node of the program is placed.
pub proof fn lemma_program(t: Seq<Token>)
    requires
        stream_well_formed(t),
    ensures
        in_bounds(t, parsed_program(t).1),
        parsed_program(t).1.delims.len() == 0,
        parsed_program(t).1.errors.len() == 0 ==> grammar::program_items(
            t,
            Cursor::start(),
            Seq::empty(),
        ).state.delims.len() == 0,
        stmts_placed(t, parsed_program(t).0.statements),
{
    lemma_program_items(t, Cursor::start(), Seq::empty());
    lemma_report_unclosed(grammar::program_items(t, Cursor::start(), Seq::empty()).state);
}


} // verus!
