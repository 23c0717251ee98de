//! Span coverage: the span of the node that a rule builds reaches from the
//! first token of the rule to the last one that it passed. The tokens that
//! recovery skips behind a statement are no part of the statement.
//!
//! The module also says what it means for a whole tree to be placed on the
//! tokens ([`expr_placed`], [`stmt_placed`]); [`crate::progress`] proves that
//! of every tree that the grammar builds.

use crate::ast::{at, BlockView, ExprView, LogicalOp, Meta, StmtView};
use crate::grammar;
use crate::grammar::{
    advance, in_bounds, kind_at, prev_span, remaining, span_at, BinaryLevel, Cursor, Parsed,
};
use crate::progress::{
    lemma_binary, lemma_expression, lemma_finish_call, lemma_logical, lemma_names, lemma_primary,
    lemma_recovery, lemma_unary, lemma_var_initializer,
};
use crate::span::{covering, Span};
use crate::token::{stream_well_formed, Token, TokenKind};
use vstd::prelude::*;

verus! {

/// The annotation of an expression node.
pub open spec fn expr_meta(expr: ExprView) -> Meta {
    match expr {
        ExprView::Literal { meta, .. } => meta,
        ExprView::Unary { meta, .. } => meta,
        ExprView::Binary { meta, .. } => meta,
        ExprView::Logical { meta, .. } => meta,
        ExprView::Grouping { meta, .. } => meta,
        ExprView::Variable { ident } => ident.meta,
        ExprView::Assign { meta, .. } => meta,
        ExprView::Call { meta, .. } => meta,
        ExprView::Lambda { meta, .. } => meta,
    }
}

/// The annotation of a statement node.
pub open spec fn stmt_meta(stmt: StmtView) -> Meta {
    match stmt {
        StmtView::ExprStmt { meta, .. } => meta,
        StmtView::PrintStmt { meta, .. } => meta,
        StmtView::VarDecl { meta, .. } => meta,
        StmtView::FunDecl { meta, .. } => meta,
        StmtView::Block { block } => block.meta,
        StmtView::If { meta, .. } => meta,
        StmtView::While { meta, .. } => meta,
        StmtView::Return { meta, .. } => meta,
    }
}

/// `meta` is the annotation of a fresh node whose span reaches from one token
/// of `t` to the same token or a later one.
pub open spec fn on_tokens(t: Seq<Token>, meta: Meta) -> bool {
    exists|from: int, last: int|
        0 <= from <= last < t.len() && meta == at(
            covering(#[trigger] t[from].span, #[trigger] t[last].span),
        )
}

/// Every node of the expression, at any depth, is fresh and reaches from one
/// token to the same token or a later one.
pub open spec fn expr_placed(t: Seq<Token>, expr: ExprView) -> bool
    decreases expr,
{
    &&& on_tokens(t, expr_meta(expr))
    &&& match expr {
        ExprView::Unary { operand, .. } => expr_placed(t, *operand),
        ExprView::Binary { left, right, .. } => expr_placed(t, *left) && expr_placed(t, *right),
        ExprView::Logical { left, right, .. } => expr_placed(t, *left) && expr_placed(t, *right),
        ExprView::Grouping { inner, .. } => expr_placed(t, *inner),
        ExprView::Assign { value, .. } => expr_placed(t, *value),
        ExprView::Call { callee, arguments, .. } => expr_placed(t, *callee) && exprs_placed(
            t,
            arguments,
        ),
        ExprView::Lambda { body, .. } => block_placed(t, body),
        _ => true,
    }
}

/// Every node of the expressions, at any depth, is placed.
pub open spec fn exprs_placed(t: Seq<Token>, exprs: Seq<ExprView>) -> bool
    decreases exprs,
{
    forall|i: int| 0 <= i < exprs.len() ==> expr_placed(t, #[trigger] exprs[i])
}

/// The block and every node in it, at any depth, is placed.
pub open spec fn block_placed(t: Seq<Token>, block: BlockView) -> bool
    decreases block,
{
    on_tokens(t, block.meta) && stmts_placed(t, block.statements)
}

/// Every node of the statements, at any depth, is placed.
pub open spec fn stmts_placed(t: Seq<Token>, stmts: Seq<StmtView>) -> bool
    decreases stmts,
{
    forall|i: int| 0 <= i < stmts.len() ==> stmt_placed(t, #[trigger] stmts[i])
}

/// Every node of the statement, at any depth, is fresh and reaches from one
/// token to the same token or a later one.
pub open spec fn stmt_placed(t: Seq<Token>, stmt: StmtView) -> bool
    decreases stmt,
{
    &&& on_tokens(t, stmt_meta(stmt))
    &&& match stmt {
        StmtView::ExprStmt { expr, .. } => expr_placed(t, expr),
        StmtView::PrintStmt { expr, .. } => expr_placed(t, expr),
        StmtView::VarDecl { initializer, .. } => match initializer {
            Some(e) => expr_placed(t, e),
            None => true,
        },
        StmtView::FunDecl { body, .. } => block_placed(t, body),
        StmtView::Block { block } => block_placed(t, block),
        StmtView::If { condition, then_branch, else_branch, .. } => {
            &&& expr_placed(t, condition)
            &&& block_placed(t, then_branch)
            &&& match else_branch {
                Some(other) => block_placed(t, other),
                None => true,
            }
        },
        StmtView::While { condition, body, .. } => expr_placed(t, condition) && block_placed(
            t,
            body,
        ),
        StmtView::Return { value, .. } => match value {
            Some(e) => expr_placed(t, e),
            None => true,
        },
    }
}

/// The expression that a rule yielded, if it yielded one, is placed.
pub open spec fn expr_ok_placed(t: Seq<Token>, p: Parsed<ExprView>) -> bool {
    p.out matches Ok(e) ==> expr_placed(t, e)
}

/// The optional expression that a rule yielded is placed.
pub open spec fn opt_expr_ok_placed(t: Seq<Token>, p: Parsed<Option<ExprView>>) -> bool {
    p.out matches Ok(Some(e)) ==> expr_placed(t, e)
}

/// The statement that a rule yielded, if it yielded one, is placed.
pub open spec fn stmt_ok_placed(t: Seq<Token>, p: Parsed<StmtView>) -> bool {
    p.out matches Ok(s) ==> stmt_placed(t, s)
}

/// The optional statement that a rule yielded is placed.
pub open spec fn opt_stmt_ok_placed(t: Seq<Token>, p: Parsed<Option<StmtView>>) -> bool {
    p.out matches Ok(Some(s)) ==> stmt_placed(t, s)
}

/// The block that a rule yielded, if it yielded one, is placed.
pub open spec fn block_ok_placed(t: Seq<Token>, p: Parsed<BlockView>) -> bool {
    p.out matches Ok(b) ==> block_placed(t, b)
}

/// A node that reaches from the token of index `from` to the token before
/// any state behind it is on tokens.
pub proof fn lemma_reach(t: Seq<Token>, from: int)
    requires
        0 <= from < t.len(),
    ensures
        forall|behind: Cursor|
            from < behind.pos <= t.len() ==> on_tokens(
                t,
                #[trigger] grammar::from_to(t, t[from].span, behind),
            ),
        forall|behind: Cursor|
            from < behind.pos <= t.len() ==> on_tokens(
                t,
                at(#[trigger] covering(t[from].span, prev_span(t, behind))),
            ),
        on_tokens(t, at(t[from].span)),
{
    assert forall|behind: Cursor| from < behind.pos <= t.len() implies on_tokens(
        t,
        #[trigger] grammar::from_to(t, t[from].span, behind),
    ) by {
        let last = behind.pos - 1;
        assert(grammar::from_to(t, t[from].span, behind) == at(
            covering(t[from].span, t[last].span),
        ));
    }
    assert forall|behind: Cursor| from < behind.pos <= t.len() implies on_tokens(
        t,
        at(#[trigger] covering(t[from].span, prev_span(t, behind))),
    ) by {
        let last = behind.pos - 1;
        assert(covering(t[from].span, prev_span(t, behind)) == covering(
            t[from].span,
            t[last].span,
        ));
    }
    assert(at(t[from].span) == at(covering(t[from].span, t[from].span)));
}

/// The tree that a `for` stands for is placed if its parts are.
pub proof fn lemma_desugared_for_placed(
    t: Seq<Token>,
    initializer: Option<StmtView>,
    condition: ExprView,
    increment: Option<ExprView>,
    body: BlockView,
    whole: Span,
    to_increment: Span,
)
    requires
        initializer matches Some(s) ==> stmt_placed(t, s),
        expr_placed(t, condition),
        increment matches Some(e) ==> expr_placed(t, e),
        block_placed(t, body),
        on_tokens(t, at(whole)),
        on_tokens(t, at(to_increment)),
    ensures
        stmt_placed(
            t,
            grammar::desugared_for(initializer, condition, increment, body, whole, to_increment),
        ),
{
    let body_items = match increment {
        Some(expr) => body.statements.push(StmtView::ExprStmt { expr, meta: at(to_increment) }),
        None => body.statements,
    };
    assert forall|i: int| 0 <= i < body_items.len() implies stmt_placed(
        t,
        #[trigger] body_items[i],
    ) by {
        if i < body.statements.len() {
            assert(body_items[i] == body.statements[i]);
        }
    }
    let looping = StmtView::While {
        condition,
        body: BlockView { statements: body_items, meta: body.meta },
        meta: at(whole),
    };
    assert(stmt_placed(t, looping));
    let items = match initializer {
        Some(stmt) => seq![stmt, looping],
        None => seq![looping],
    };
    assert forall|i: int| 0 <= i < items.len() implies stmt_placed(t, #[trigger] items[i]) by {}
}

/// `meta` is the annotation of a fresh node that reaches from the token of
/// span `first` to the token before `behind`.
pub open spec fn reaches(t: Seq<Token>, first: Span, behind: Cursor, meta: Meta) -> bool {
    meta == at(covering(first, prev_span(t, behind)))
}

/// An expression that was parsed from `c` on reaches from the token at `c` to
/// the last token that the rule passed.
pub open spec fn expr_covered(t: Seq<Token>, c: Cursor, p: Parsed<ExprView>) -> bool {
    p.out matches Ok(e) ==> reaches(t, span_at(t, c), p.state, expr_meta(e))
}

/// A statement that was parsed from `c` on begins with the token at `c`, and
/// if nothing was reported on the way, it reaches to the last token that the
/// rule passed.
pub open spec fn stmt_covered(t: Seq<Token>, c: Cursor, p: Parsed<StmtView>) -> bool {
    p.out matches Ok(s) ==> {
        &&& stmt_meta(s).span.offset == span_at(t, c).offset
        &&& p.state.errors.len() == c.errors.len() ==> reaches(
            t,
            span_at(t, c),
            p.state,
            stmt_meta(s),
        )
    }
}

/// Span coverage of [`grammar::primary`].
pub proof fn lemma_primary_span(t: Seq<Token>, c: Cursor)
    requires
        stream_well_formed(t),
        in_bounds(t, c),
    ensures
        expr_covered(t, c, grammar::primary(t, c)),
{
    reveal(grammar::primary);
}

/// Span coverage of [`grammar::call_rest`].
pub proof fn lemma_call_rest_span(t: Seq<Token>, c: Cursor, first: Span, callee: ExprView)
    requires
        stream_well_formed(t),
        in_bounds(t, c),
        reaches(t, first, c, expr_meta(callee)),
    ensures
        grammar::call_rest(t, c, first, callee).out matches Ok(e) ==> reaches(
            t,
            first,
            grammar::call_rest(t, c, first, callee).state,
            expr_meta(e),
        ),
    decreases remaining(t, c),
{
    reveal(grammar::call_rest);
    reveal(grammar::finish_call);
    if kind_at(t, c) == TokenKind::LeftParen {
        lemma_finish_call(t, c, first, callee, 0);
        let called = grammar::finish_call(t, c, first, callee);
        if let Ok(result) = called.out {
            lemma_call_rest_span(t, called.state, first, result);
        }
    }
}

/// Span coverage of [`grammar::call`].
pub proof fn lemma_call_span(t: Seq<Token>, c: Cursor)
    requires
        stream_well_formed(t),
        in_bounds(t, c),
    ensures
        expr_covered(t, c, grammar::call(t, c)),
{
    reveal(grammar::call);
    reveal(grammar::call_rest);
    reveal(grammar::primary);
    lemma_primary(t, c);
    lemma_primary_span(t, c);
    let first = grammar::primary(t, c);
    if let Ok(callee) = first.out {
        lemma_call_rest_span(t, first.state, span_at(t, c), callee);
    }
}

/// Span coverage of [`grammar::unary`].
pub proof fn lemma_unary_span(t: Seq<Token>, c: Cursor)
    requires
        stream_well_formed(t),
        in_bounds(t, c),
    ensures
        expr_covered(t, c, grammar::unary(t, c)),
{
    reveal(grammar::unary);
    reveal(grammar::call);
    lemma_call_span(t, c);
}

/// Span coverage of [`grammar::binary_rest`].
pub proof fn lemma_binary_rest_span(
    t: Seq<Token>,
    c: Cursor,
    level: BinaryLevel,
    first: Span,
    left: ExprView,
)
    requires
        stream_well_formed(t),
        in_bounds(t, c),
        reaches(t, first, c, expr_meta(left)),
    ensures
        grammar::binary_rest(t, c, level, first, left).out matches Ok(e) ==> reaches(
            t,
            first,
            grammar::binary_rest(t, c, level, first, left).state,
            expr_meta(e),
        ),
    decreases remaining(t, c),
{
    reveal(grammar::binary);
    reveal(grammar::binary_rest);
    reveal(grammar::unary);
    if let Some(op) = level.operator(kind_at(t, c)) {
        let behind = advance(t, c);
        let right = match level {
            BinaryLevel::Equality => {
                lemma_binary(t, behind, BinaryLevel::Comparison);
                grammar::binary(t, behind, BinaryLevel::Comparison)
            },
            BinaryLevel::Comparison => {
                lemma_binary(t, behind, BinaryLevel::Term);
                grammar::binary(t, behind, BinaryLevel::Term)
            },
            BinaryLevel::Term => {
                lemma_binary(t, behind, BinaryLevel::Factor);
                grammar::binary(t, behind, BinaryLevel::Factor)
            },
            BinaryLevel::Factor => {
                lemma_unary(t, behind);
                grammar::unary(t, behind)
            },
        };
        if let Ok(operand) = right.out {
            lemma_binary_rest_span(
                t,
                right.state,
                level,
                first,
                ExprView::Binary {
                    left: Box::new(left),
                    op,
                    right: Box::new(operand),
                    meta: grammar::from_to(t, first, right.state),
                },
            );
        }
    }
}

/// Span coverage of [`grammar::binary`].
pub proof fn lemma_binary_span(t: Seq<Token>, c: Cursor, level: BinaryLevel)
    requires
        stream_well_formed(t),
        in_bounds(t, c),
    ensures
        expr_covered(t, c, grammar::binary(t, c, level)),
    decreases level.rank(),
{
    reveal(grammar::binary);
    reveal(grammar::binary_rest);
    reveal(grammar::unary);
    let first = match level {
        BinaryLevel::Equality => {
            lemma_binary(t, c, BinaryLevel::Comparison);
            lemma_binary_span(t, c, BinaryLevel::Comparison);
            grammar::binary(t, c, BinaryLevel::Comparison)
        },
        BinaryLevel::Comparison => {
            lemma_binary(t, c, BinaryLevel::Term);
            lemma_binary_span(t, c, BinaryLevel::Term);
            grammar::binary(t, c, BinaryLevel::Term)
        },
        BinaryLevel::Term => {
            lemma_binary(t, c, BinaryLevel::Factor);
            lemma_binary_span(t, c, BinaryLevel::Factor);
            grammar::binary(t, c, BinaryLevel::Factor)
        },
        BinaryLevel::Factor => {
            lemma_unary(t, c);
            lemma_unary_span(t, c);
            grammar::unary(t, c)
        },
    };
    if let Ok(left) = first.out {
        lemma_binary_rest_span(t, first.state, level, span_at(t, c), left);
    }
}

/// Span coverage of [`grammar::logical_rest`].
pub proof fn lemma_logical_rest_span(
    t: Seq<Token>,
    c: Cursor,
    op: LogicalOp,
    first: Span,
    left: ExprView,
)
    requires
        stream_well_formed(t),
        in_bounds(t, c),
        reaches(t, first, c, expr_meta(left)),
    ensures
        grammar::logical_rest(t, c, op, first, left).out matches Ok(e) ==> reaches(
            t,
            first,
            grammar::logical_rest(t, c, op, first, left).state,
            expr_meta(e),
        ),
    decreases remaining(t, c),
{
    reveal(grammar::logical);
    reveal(grammar::logical_rest);
    reveal(grammar::binary);
    if kind_at(t, c) == op.token() {
        let behind = advance(t, c);
        if kind_at(t, behind) != TokenKind::Semicolon {
            let right = if op == LogicalOp::Or {
                lemma_logical(t, behind, LogicalOp::And);
                grammar::logical(t, behind, LogicalOp::And)
            } else {
                lemma_binary(t, behind, BinaryLevel::Equality);
                grammar::binary(t, behind, BinaryLevel::Equality)
            };
            if let Ok(operand) = right.out {
                lemma_logical_rest_span(
                    t,
                    right.state,
                    op,
                    first,
                    ExprView::Logical {
                        left: Box::new(left),
                        op,
                        right: Box::new(operand),
                        meta: grammar::from_to(t, first, right.state),
                    },
                );
            }
        }
    }
}

/// Span coverage of [`grammar::logical`].
pub proof fn lemma_logical_span(t: Seq<Token>, c: Cursor, op: LogicalOp)
    requires
        stream_well_formed(t),
        in_bounds(t, c),
    ensures
        expr_covered(t, c, grammar::logical(t, c, op)),
    decreases op.rank(),
{
    reveal(grammar::logical);
    reveal(grammar::logical_rest);
    reveal(grammar::binary);
    let first = if op == LogicalOp::Or {
        lemma_logical(t, c, LogicalOp::And);
        lemma_logical_span(t, c, LogicalOp::And);
        grammar::logical(t, c, LogicalOp::And)
    } else {
        lemma_binary(t, c, BinaryLevel::Equality);
        lemma_binary_span(t, c, BinaryLevel::Equality);
        grammar::binary(t, c, BinaryLevel::Equality)
    };
    if let Ok(left) = first.out {
        lemma_logical_rest_span(t, first.state, op, span_at(t, c), left);
    }
}

/// Every expression node that the grammar builds reaches from the first token
/// of the expression to its last: its span covers the tokens that make it up,
/// no more and no less.
pub proof fn lemma_expression_span(t: Seq<Token>, c: Cursor)
    requires
        stream_well_formed(t),
        in_bounds(t, c),
    ensures
        expr_covered(t, c, grammar::expression(t, c)),
{
    reveal(grammar::expression);
    reveal(grammar::lambda_expr);
    reveal(grammar::assignment);
    reveal(grammar::logical);
    if kind_at(t, c) != TokenKind::Fun {
        lemma_logical(t, c, LogicalOp::Or);
        lemma_logical_span(t, c, LogicalOp::Or);
    }
}

/// Every statement node that the grammar builds begins with the first token of
/// the statement, and where nothing was reported while it was parsed, it ends
/// with the last token that the statement passed.
pub proof fn lemma_declaration_span(t: Seq<Token>, c: Cursor)
    requires
        stream_well_formed(t),
        in_bounds(t, c),
    ensures
        stmt_covered(t, c, grammar::declaration(t, c)),
{
    reveal(grammar::declaration);
    if kind_at(t, c) == TokenKind::Var {
        reveal(grammar::var_declaration);
        reveal(grammar::var_initializer);
        lemma_names(t, advance(t, c));
        let name = grammar::variable_name(t, advance(t, c));
        if name.out is Ok {
            lemma_var_initializer(t, name.state.past(c));
            let init = grammar::var_initializer(t, name.state.past(c));
            if init.out is Ok {
                lemma_recovery(t, init.state);
            }
        }
    } else if kind_at(t, c) == TokenKind::Fun {
        reveal(grammar::fun_declaration);
    } else {
        reveal(grammar::statement);
        if kind_at(t, c) == TokenKind::Print {
            reveal(grammar::print_stmt);
            reveal(grammar::expression);
            lemma_expression(t, advance(t, c));
            let value = grammar::expression(t, advance(t, c));
            if value.out is Ok {
                lemma_recovery(t, value.state);
            }
        } else if kind_at(t, c) == TokenKind::LeftBrace {
            reveal(grammar::block);
        } else if kind_at(t, c) == TokenKind::If {
            reveal(grammar::if_stmt);
        } else if kind_at(t, c) == TokenKind::While {
            reveal(grammar::while_stmt);
        } else if kind_at(t, c) == TokenKind::For {
            reveal(grammar::for_stmt);
        } else if kind_at(t, c) == TokenKind::Return {
            reveal(grammar::return_stmt);
            reveal(grammar::expression);
            let behind = advance(t, c);
            lemma_recovery(t, behind);
            if kind_at(t, behind) != TokenKind::Semicolon && kind_at(t, behind) != TokenKind::EOF {
                lemma_expression(t, behind);
                let value = grammar::expression(t, behind);
                if value.out is Ok {
                    lemma_recovery(t, value.state);
                }
            }
        } else {
            reveal(grammar::expression_stmt);
            reveal(grammar::expression);
            lemma_expression(t, c);
            let value = grammar::expression(t, c);
            if value.out is Ok {
                lemma_recovery(t, value.state);
            }
        }
    }
}

} // verus!
