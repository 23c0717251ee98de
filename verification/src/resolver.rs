//! The resolver: one walk over the program that checks every use of a name
//! against the scopes in reach.
//!
//! [`resolve_stmt`] and [`resolve_expr`] define what the walk reports;
//! [`Resolver::resolve`] computes it.

use crate::ast::{
    block_view, ident_view, ident_views, lemma_stmts_value, stmt_views, AssignExpr, BinaryExpr,
    BlockStmt, BlockView, CallExpr, Expr, ExprView, FunDeclStmt, Ident, IdentView, IfStmt,
    LambdaExpr, LogicalExpr, Program, ProgramView, Spanned, Stmt, StmtView, UnaryExpr,
    VarDeclStmt, WhileStmt,
};
use crate::error::{ResolverError, ResolverErrorView};
use crate::scope::{
    clone_idents, declare, find_binding, lemma_scope_push, lookup, scope_view, scopes_view,
    ScopeView, SymbolView,
};
use vstd::prelude::*;
use vstd::string::*;

pub use crate::scope::{Binding, Symbol};

verus! {

/// The state of the walk: the scopes in reach, innermost last, and the
/// diagnostics reported so far.
pub struct Resolution {
    pub scopes: Seq<ScopeView>,
    pub errors: Seq<ResolverErrorView>,
}

impl Resolution {
    /// The state in which the walk begins: the global scope, empty, and no
    /// diagnostic.
    pub open spec fn start() -> Resolution {
        Resolution { scopes: seq![Map::empty()], errors: Seq::empty() }
    }

    /// The state with one more diagnostic.
    pub open spec fn report(self, error: ResolverErrorView) -> Resolution {
        Resolution { errors: self.errors.push(error), ..self }
    }

    /// The state with `name` bound to `symbol` in the innermost scope.
    pub open spec fn declare(self, name: Seq<char>, symbol: SymbolView) -> Resolution {
        Resolution { scopes: declare(self.scopes, name, symbol), ..self }
    }

    /// The state inside a new, empty scope.
    pub open spec fn enter(self) -> Resolution {
        Resolution { scopes: self.scopes.push(Map::empty()), ..self }
    }

    /// The state outside the innermost scope.
    pub open spec fn leave(self) -> Resolution {
        Resolution { scopes: self.scopes.drop_last(), ..self }
    }
}

/// What reading the variable `ident` reports: nothing if the name stands for
/// a function or for a variable with a value.
pub open spec fn resolve_read(src: Seq<char>, ident: IdentView, r: Resolution) -> Resolution {
    match lookup(r.scopes, ident.name) {
        Some(SymbolView::Variable { initialized: false }) => r.report(
            ResolverErrorView::UninitializedVariable {
                src,
                span: ident.meta.span,
                name: ident.name,
            },
        ),
        None => r.report(
            ResolverErrorView::UndefinedVariable { src, span: ident.meta.span, name: ident.name },
        ),
        _ => r,
    }
}

/// What the target of an assignment reports: the name must be declared. The
/// assignment gives the variable no value in the eyes of this walk.
pub open spec fn resolve_write(src: Seq<char>, target: IdentView, r: Resolution) -> Resolution {
    match lookup(r.scopes, target.name) {
        None => r.report(
            ResolverErrorView::UndefinedVariable {
                src,
                span: target.meta.span,
                name: target.name,
            },
        ),
        Some(_) => r,
    }
}

/// What the walk over an expression reports. The walk goes through operators
/// and parentheses. An assignment checks its target and then its value. A
/// lambda is walked as the body of a function is: in a scope of its own that
/// holds its parameters. The parts of a call are left to a later pass.
pub open spec fn resolve_expr(src: Seq<char>, expr: ExprView, r: Resolution) -> Resolution
    decreases expr, 0nat,
{
    match expr {
        ExprView::Literal { .. } => r,
        ExprView::Unary { operand, .. } => resolve_expr(src, *operand, r),
        ExprView::Binary { left, right, .. } => resolve_expr(
            src,
            *right,
            resolve_expr(src, *left, r),
        ),
        ExprView::Logical { left, right, .. } => resolve_expr(
            src,
            *right,
            resolve_expr(src, *left, r),
        ),
        ExprView::Grouping { inner, .. } => resolve_expr(src, *inner, r),
        ExprView::Variable { ident } => resolve_read(src, ident, r),
        ExprView::Assign { target, value, .. } => resolve_expr(
            src,
            *value,
            resolve_write(src, target, r),
        ),
        ExprView::Call { .. } => r,
        ExprView::Lambda { parameters, body, .. } => resolve_stmts(
            src,
            body.statements,
            0,
            bind_params(src, parameters, 0, Seq::empty(), r.enter()),
        ).leave(),
    }
}

/// What the walk over an optional expression reports.
pub open spec fn resolve_opt_expr(src: Seq<char>, expr: Option<ExprView>, r: Resolution)
    -> Resolution
    decreases expr, 1nat,
{
    match expr {
        Some(e) => resolve_expr(src, e, r),
        None => r,
    }
}

/// Binds the parameters from index `i` on in the innermost scope, each as a
/// variable with a value. A name that the scope holds already is reported and
/// not bound again.
pub open spec fn bind_params(
    src: Seq<char>,
    params: Seq<IdentView>,
    i: int,
    function_name: Seq<char>,
    r: Resolution,
) -> Resolution
    decreases params.len() - i,
{
    if 0 <= i < params.len() {
        let param = params[i];
        let next = if r.scopes.last().contains_key(param.name) {
            r.report(
                ResolverErrorView::DuplicateParameter {
                    src,
                    span: param.meta.span,
                    function_name,
                },
            )
        } else {
            r.declare(param.name, SymbolView::Variable { initialized: true })
        };
        bind_params(src, params, i + 1, function_name, next)
    } else {
        r
    }
}

/// What the walk over a statement reports, and what it declares.
pub open spec fn resolve_stmt(src: Seq<char>, stmt: StmtView, r: Resolution) -> Resolution
    decreases stmt, 0nat,
{
    match stmt {
        StmtView::ExprStmt { expr, .. } => resolve_expr(src, expr, r),
        StmtView::PrintStmt { expr, .. } => resolve_expr(src, expr, r),
        StmtView::VarDecl { ident, initializer, .. } => resolve_opt_expr(
            src,
            initializer,
            r,
        ).declare(ident.name, SymbolView::Variable { initialized: initializer is Some }),
        StmtView::FunDecl { ident, params, body, .. } => resolve_stmts(
            src,
            body.statements,
            0,
            bind_params(
                src,
                params,
                0,
                ident.name,
                r.declare(ident.name, SymbolView::Function { params }).enter(),
            ),
        ).leave(),
        StmtView::Block { block } => resolve_block(src, block, r),
        StmtView::If { condition, then_branch, else_branch, .. } => {
            let then = resolve_block(src, then_branch, resolve_expr(src, condition, r));
            match else_branch {
                Some(other) => resolve_block(src, other, then),
                None => then,
            }
        },
        StmtView::While { condition, body, .. } => resolve_block(
            src,
            body,
            resolve_expr(src, condition, r),
        ),
        StmtView::Return { value, .. } => resolve_opt_expr(src, value, r),
    }
}

/// What the walk over a block reports: its statements are walked in a scope
/// of their own.
pub open spec fn resolve_block(src: Seq<char>, block: BlockView, r: Resolution) -> Resolution
    decreases block, 0nat,
{
    resolve_stmts(src, block.statements, 0, r.enter()).leave()
}

/// What the walk over the statements from index `i` on reports and declares.
pub open spec fn resolve_stmts(src: Seq<char>, stmts: Seq<StmtView>, i: int, r: Resolution)
    -> Resolution
    decreases stmts, stmts.len() - i,
{
    if 0 <= i < stmts.len() {
        resolve_stmts(src, stmts, i + 1, resolve_stmt(src, stmts[i], r))
    } else {
        r
    }
}

/// The number of places in an expression at which the walk can report: the
/// reads of variables, the targets of assignments, and the parameters of
/// lambdas, with what the bodies of the lambdas hold.
pub open spec fn expr_sites(expr: ExprView) -> int
    decreases expr, 0nat,
{
    match expr {
        ExprView::Literal { .. } => 0,
        ExprView::Unary { operand, .. } => expr_sites(*operand),
        ExprView::Binary { left, right, .. } => expr_sites(*left) + expr_sites(*right),
        ExprView::Logical { left, right, .. } => expr_sites(*left) + expr_sites(*right),
        ExprView::Grouping { inner, .. } => expr_sites(*inner),
        ExprView::Variable { .. } => 1,
        ExprView::Assign { value, .. } => 1 + expr_sites(*value),
        ExprView::Call { .. } => 0,
        ExprView::Lambda { parameters, body, .. } => parameters.len() + stmts_sites(
            body.statements,
            0,
        ),
    }
}

/// The number of places in an optional expression at which the walk can
/// report.
pub open spec fn opt_expr_sites(expr: Option<ExprView>) -> int
    decreases expr, 1nat,
{
    match expr {
        Some(e) => expr_sites(e),
        None => 0,
    }
}

/// The number of places in a statement at which the walk can report.
pub open spec fn stmt_sites(stmt: StmtView) -> int
    decreases stmt, 0nat,
{
    match stmt {
        StmtView::ExprStmt { expr, .. } => expr_sites(expr),
        StmtView::PrintStmt { expr, .. } => expr_sites(expr),
        StmtView::VarDecl { initializer, .. } => opt_expr_sites(initializer),
        StmtView::FunDecl { params, body, .. } => params.len() + stmts_sites(body.statements, 0),
        StmtView::Block { block } => stmts_sites(block.statements, 0),
        StmtView::If { condition, then_branch, else_branch, .. } => expr_sites(condition)
            + stmts_sites(then_branch.statements, 0) + match else_branch {
            Some(other) => stmts_sites(other.statements, 0),
            None => 0,
        },
        StmtView::While { condition, body, .. } => expr_sites(condition) + stmts_sites(
            body.statements,
            0,
        ),
        StmtView::Return { value, .. } => opt_expr_sites(value),
    }
}

/// The number of places in the statements from index `i` on at which the
/// walk can report.
pub open spec fn stmts_sites(stmts: Seq<StmtView>, i: int) -> int
    decreases stmts, stmts.len() - i,
{
    if 0 <= i < stmts.len() {
        stmt_sites(stmts[i]) + stmts_sites(stmts, i + 1)
    } else {
        0
    }
}

/// Behind an expression the walk is in as many scopes as before it, no
/// diagnostic is dropped on the way, and at most one is added for each place
/// at which the walk can report.
pub proof fn lemma_expr_keeps_depth(src: Seq<char>, expr: ExprView, r: Resolution)
    requires
        r.scopes.len() >= 1,
    ensures
        resolve_expr(src, expr, r).scopes.len() == r.scopes.len(),
        r.errors.is_prefix_of(resolve_expr(src, expr, r).errors),
        0 <= expr_sites(expr),
        resolve_expr(src, expr, r).errors.len() <= r.errors.len() + expr_sites(expr),
    decreases expr, 0nat,
{
    match expr {
        ExprView::Assign { target, value, .. } => {
            lemma_expr_keeps_depth(src, *value, resolve_write(src, target, r));
        },
        ExprView::Lambda { parameters, body, .. } => {
            lemma_params_keep_depth(src, parameters, 0, Seq::empty(), r.enter());
            lemma_stmts_keep_depth(
                src,
                body.statements,
                0,
                bind_params(src, parameters, 0, Seq::empty(), r.enter()),
            );
        },
        ExprView::Unary { operand, .. } => lemma_expr_keeps_depth(src, *operand, r),
        ExprView::Binary { left, right, .. } => {
            lemma_expr_keeps_depth(src, *left, r);
            lemma_expr_keeps_depth(src, *right, resolve_expr(src, *left, r));
        },
        ExprView::Logical { left, right, .. } => {
            lemma_expr_keeps_depth(src, *left, r);
            lemma_expr_keeps_depth(src, *right, resolve_expr(src, *left, r));
        },
        ExprView::Grouping { inner, .. } => lemma_expr_keeps_depth(src, *inner, r),
        _ => {},
    }
}

/// Binding parameters opens and closes no scope.
pub proof fn lemma_params_keep_depth(
    src: Seq<char>,
    params: Seq<IdentView>,
    i: int,
    function_name: Seq<char>,
    r: Resolution,
)
    requires
        r.scopes.len() >= 1,
        0 <= i <= params.len(),
    ensures
        bind_params(src, params, i, function_name, r).scopes.len() == r.scopes.len(),
        r.errors.is_prefix_of(bind_params(src, params, i, function_name, r).errors),
        bind_params(src, params, i, function_name, r).errors.len() <= r.errors.len()
            + params.len() - i,
    decreases params.len() - i,
{
    if 0 <= i < params.len() {
        let param = params[i];
        let next = if r.scopes.last().contains_key(param.name) {
            r.report(
                ResolverErrorView::DuplicateParameter {
                    src,
                    span: param.meta.span,
                    function_name,
                },
            )
        } else {
            r.declare(param.name, SymbolView::Variable { initialized: true })
        };
        lemma_params_keep_depth(src, params, i + 1, function_name, next);
    }
}

/// Scopes are entered and left in pairs: behind every statement the walk is
/// in as many scopes as before it, so it never leaves the global scope. No
/// diagnostic is dropped on the way, and at most one is added for each place
/// at which the walk can report: the walk is one pass.
pub proof fn lemma_stmt_keeps_depth(src: Seq<char>, stmt: StmtView, r: Resolution)
    requires
        r.scopes.len() >= 1,
    ensures
        resolve_stmt(src, stmt, r).scopes.len() == r.scopes.len(),
        r.errors.is_prefix_of(resolve_stmt(src, stmt, r).errors),
        0 <= stmt_sites(stmt),
        resolve_stmt(src, stmt, r).errors.len() <= r.errors.len() + stmt_sites(stmt),
    decreases stmt, 0nat,
{
    match stmt {
        StmtView::ExprStmt { expr, .. } => lemma_expr_keeps_depth(src, expr, r),
        StmtView::PrintStmt { expr, .. } => lemma_expr_keeps_depth(src, expr, r),
        StmtView::VarDecl { initializer, .. } => {
            if let Some(e) = initializer {
                lemma_expr_keeps_depth(src, e, r);
            }
        },
        StmtView::FunDecl { ident, params, body, .. } => {
            let entered = r.declare(ident.name, SymbolView::Function { params }).enter();
            lemma_params_keep_depth(src, params, 0, ident.name, entered);
            let bound = bind_params(src, params, 0, ident.name, entered);
            lemma_stmts_keep_depth(src, body.statements, 0, bound);
        },
        StmtView::Block { block } => lemma_block_keeps_depth(src, block, r),
        StmtView::If { condition, then_branch, else_branch, .. } => {
            lemma_expr_keeps_depth(src, condition, r);
            let checked = resolve_expr(src, condition, r);
            lemma_block_keeps_depth(src, then_branch, checked);
            if let Some(other) = else_branch {
                lemma_block_keeps_depth(src, other, resolve_block(src, then_branch, checked));
            }
        },
        StmtView::While { condition, body, .. } => {
            lemma_expr_keeps_depth(src, condition, r);
            lemma_block_keeps_depth(src, body, resolve_expr(src, condition, r));
        },
        StmtView::Return { value, .. } => {
            if let Some(e) = value {
                lemma_expr_keeps_depth(src, e, r);
            }
        },
    }
}

/// Behind a block the walk is in as many scopes as before it.
pub proof fn lemma_block_keeps_depth(src: Seq<char>, block: BlockView, r: Resolution)
    requires
        r.scopes.len() >= 1,
    ensures
        resolve_block(src, block, r).scopes.len() == r.scopes.len(),
        r.errors.is_prefix_of(resolve_block(src, block, r).errors),
        0 <= stmts_sites(block.statements, 0),
        resolve_block(src, block, r).errors.len() <= r.errors.len() + stmts_sites(
            block.statements,
            0,
        ),
    decreases block, 0nat,
{
    lemma_stmts_keep_depth(src, block.statements, 0, r.enter());
}

/// Behind a sequence of statements the walk is in as many scopes as before
/// it.
pub proof fn lemma_stmts_keep_depth(src: Seq<char>, stmts: Seq<StmtView>, i: int, r: Resolution)
    requires
        r.scopes.len() >= 1,
    ensures
        resolve_stmts(src, stmts, i, r).scopes.len() == r.scopes.len(),
        r.errors.is_prefix_of(resolve_stmts(src, stmts, i, r).errors),
        0 <= stmts_sites(stmts, i),
        resolve_stmts(src, stmts, i, r).errors.len() <= r.errors.len() + stmts_sites(stmts, i),
    decreases stmts, stmts.len() - i,
{
    if 0 <= i < stmts.len() {
        lemma_stmt_keeps_depth(src, stmts[i], r);
        lemma_stmts_keep_depth(src, stmts, i + 1, resolve_stmt(src, stmts[i], r));
    }
}

/// What resolving a whole program reports.
pub open spec fn resolve_program(src: Seq<char>, program: ProgramView) -> Seq<ResolverErrorView> {
    resolve_stmts(src, program.statements, 0, Resolution::start()).errors
}

/// The values of a sequence of diagnostics.
pub open spec fn resolver_error_views(errors: Seq<ResolverError>) -> Seq<ResolverErrorView> {
    errors.map_values(|e: ResolverError| e@)
}

/// The resolver of one program.
pub struct Resolver<'a> {
    source: String,
    program: &'a Program,
    errors: Vec<ResolverError>,
    scopes: Vec<Vec<Binding>>,
}

impl<'a> Resolver<'a> {
    /// The resolver is in at least one scope: the global one is never left.
    pub closed spec fn wf(&self) -> bool {
        self.scopes@.len() >= 1
    }

    /// The source text that the diagnostics carry.
    pub closed spec fn source(&self) -> Seq<char> {
        self.source@
    }

    /// The program that is resolved.
    pub closed spec fn program(&self) -> ProgramView {
        self.program@
    }

    /// The state of the walk.
    pub closed spec fn resolution(&self) -> Resolution {
        Resolution { scopes: scopes_view(self.scopes@), errors: resolver_error_views(self.errors@) }
    }

    /// The resolver is well formed and works on what `before` worked on, in
    /// as many scopes.
    spec fn follows(&self, before: &Resolver<'a>) -> bool {
        &&& self.wf()
        &&& self.source == before.source
        &&& self.program == before.program
        &&& self.scopes@.len() == before.scopes@.len()
    }

    /// A resolver for `ast`, in the global scope. `source` is the text that
    /// the program was read from.
    pub fn new(ast: &'a Program, source: String) -> (resolver: Self)
        ensures
            resolver.wf(),
            resolver.source() == source@,
            resolver.program() == ast@,
            resolver.resolution() == Resolution::start(),
    {
        let mut scopes: Vec<Vec<Binding>> = Vec::new();
        let global: Vec<Binding> = Vec::new();
        assert(scope_view(global@) =~= Map::<Seq<char>, SymbolView>::empty());
        scopes.push(global);
        let resolver = Resolver { source, program: ast, errors: Vec::new(), scopes };
        assert(resolver.resolution().scopes =~= Resolution::start().scopes);
        assert(resolver.resolution().errors =~= Resolution::start().errors);
        resolver
    }

    fn report(&mut self, error: ResolverError)
        requires
            old(self).wf(),
        ensures
            final(self).follows(old(self)),
            final(self).resolution() == old(self).resolution().report(error@),
    {
        let ghost before = self.errors@;
        self.errors.push(error);
        assert(resolver_error_views(self.errors@) =~= resolver_error_views(before).push(error@));
    }

    /// The symbol that `key` stands for in the scopes in reach.
    fn lookup_symbol(&self, key: &String) -> (symbol: Option<&Symbol>)
        requires
            self.wf(),
        ensures
            match symbol {
                Some(s) => lookup(self.resolution().scopes, key@) == Some(s@),
                None => lookup(self.resolution().scopes, key@) is None,
            },
    {
        let ghost all = scopes_view(self.scopes@);
        let mut i: usize = self.scopes.len();
        assert(all.take(i as int) =~= all);
        while i > 0
            invariant
                i <= self.scopes@.len(),
                all == scopes_view(self.scopes@),
                lookup(all.take(i as int), key@) == lookup(all, key@),
            decreases i,
        {
            let ghost reach = all.take(i as int);
            i -= 1;
            assert(reach.drop_last() =~= all.take(i as int));
            assert(reach.last() == scope_view(self.scopes@[i as int]@));
            let scope = &self.scopes[i];
            match find_binding(scope, key) {
                Some(j) => {
                    return Some(&scope[j].symbol);
                },
                None => {},
            }
        }
        None
    }

    /// Binds `name` to `symbol` in the innermost scope.
    fn declare(&mut self, name: String, symbol: Symbol)
        requires
            old(self).wf(),
        ensures
            final(self).follows(old(self)),
            final(self).resolution() == old(self).resolution().declare(name@, symbol@),
    {
        let ghost before = self.scopes@;
        let mut scope = self.scopes.pop().unwrap();
        let binding = Binding { name, symbol };
        proof {
            lemma_scope_push(scope@, binding);
        }
        scope.push(binding);
        self.scopes.push(scope);
        assert(scopes_view(self.scopes@) =~= declare(scopes_view(before), name@, symbol@));
    }

    /// Enters a new, empty scope.
    fn enter_scope(&mut self)
        requires
            old(self).wf(),
        ensures
            final(self).wf(),
            final(self).source == old(self).source,
            final(self).program == old(self).program,
            final(self).scopes@.len() == old(self).scopes@.len() + 1,
            final(self).resolution() == old(self).resolution().enter(),
    {
        let ghost before = self.scopes@;
        let fresh: Vec<Binding> = Vec::new();
        assert(scope_view(fresh@) =~= Map::<Seq<char>, SymbolView>::empty());
        self.scopes.push(fresh);
        assert(scopes_view(self.scopes@) =~= scopes_view(before).push(Map::empty()));
    }

    /// Leaves the innermost scope, which is not the global one.
    fn leave_scope(&mut self)
        requires
            old(self).scopes@.len() >= 2,
        ensures
            final(self).wf(),
            final(self).source == old(self).source,
            final(self).program == old(self).program,
            final(self).scopes@.len() == old(self).scopes@.len() - 1,
            final(self).resolution() == old(self).resolution().leave(),
    {
        let ghost before = self.scopes@;
        let _ = self.scopes.pop();
        assert(scopes_view(self.scopes@) =~= scopes_view(before).drop_last());
    }

    /// Resolves the whole program and returns the diagnostics, in the order
    /// of the walk.
    pub fn resolve(self) -> (errors: Vec<ResolverError>)
        requires
            self.wf(),
        ensures
            resolver_error_views(errors@) == resolve_stmts(
                self.source(),
                self.program().statements,
                0,
                self.resolution(),
            ).errors,
            self.resolution() == Resolution::start() ==> resolver_error_views(errors@)
                == resolve_program(self.source(), self.program()),
            errors@.len() <= self.resolution().errors.len() + stmts_sites(
                self.program().statements,
                0,
            ),
    {
        proof {
            lemma_stmts_keep_depth(
                self.source@,
                self.program@.statements,
                0,
                self.resolution(),
            );
        }
        let mut resolver = self;
        let program = resolver.program;
        resolver.resolve_stmts(&program.statements);
        proof {
            lemma_stmts_value(program.statements);
        }
        resolver.errors
    }

    /// Resolves statements in order, in the current scope.
    fn resolve_stmts(&mut self, stmts: &Vec<Stmt>)
        requires
            old(self).wf(),
        ensures
            final(self).follows(old(self)),
            final(self).resolution() == resolve_stmts(
                old(self).source@,
                stmt_views(stmts@),
                0,
                old(self).resolution(),
            ),
        decreases stmts, 1nat,
    {
        let ghost src = self.source@;
        let ghost whole = resolve_stmts(src, stmt_views(stmts@), 0, self.resolution());
        let mut i: usize = 0;
        while i < stmts.len()
            invariant
                i <= stmts@.len(),
                self.follows(old(self)),
                src == self.source@,
                whole == resolve_stmts(src, stmt_views(stmts@), i as int, self.resolution()),
            decreases stmts@.len() - i,
        {
            self.resolve_stmt(&stmts[i]);
            i += 1;
        }
    }

    fn resolve_stmt(&mut self, stmt: &Stmt)
        requires
            old(self).wf(),
        ensures
            final(self).follows(old(self)),
            final(self).resolution() == resolve_stmt(
                old(self).source@,
                stmt@,
                old(self).resolution(),
            ),
        decreases stmt, 0nat,
    {
        match stmt {
            Stmt::ExprStmt(expr_stmt) => self.resolve_expr_stmt(expr_stmt),
            Stmt::PrintStmt(print_stmt) => self.resolve_print_stmt(print_stmt),
            Stmt::VarDecl(var_decl) => self.resolve_var_decl(var_decl),
            Stmt::FunDecl(fun_decl) => self.resolve_fun_decl(fun_decl),
            Stmt::Block(block) => self.resolve_block(block),
            Stmt::If(if_stmt) => self.resolve_if_stmt(if_stmt),
            Stmt::While(while_stmt) => self.resolve_while_stmt(while_stmt),
            Stmt::Return(return_stmt) => self.resolve_return_stmt(return_stmt),
        }
    }

    fn resolve_expr_stmt(&mut self, expr_stmt: &Spanned<Expr>)
        requires
            old(self).wf(),
        ensures
            final(self).follows(old(self)),
            final(self).resolution() == resolve_expr(
                old(self).source@,
                expr_stmt.node@,
                old(self).resolution(),
            ),
        decreases expr_stmt, 0nat,
    {
        self.resolve_expr(&expr_stmt.node);
    }

    fn resolve_print_stmt(&mut self, print_stmt: &Spanned<Expr>)
        requires
            old(self).wf(),
        ensures
            final(self).follows(old(self)),
            final(self).resolution() == resolve_expr(
                old(self).source@,
                print_stmt.node@,
                old(self).resolution(),
            ),
        decreases print_stmt, 0nat,
    {
        self.resolve_expr(&print_stmt.node);
    }

    fn resolve_var_decl(&mut self, var_decl: &Spanned<VarDeclStmt>)
        requires
            old(self).wf(),
        ensures
            final(self).follows(old(self)),
            final(self).resolution() == resolve_stmt(
                old(self).source@,
                Stmt::VarDecl(*var_decl)@,
                old(self).resolution(),
            ),
        decreases var_decl, 0nat,
    {
        if let Some(init) = &var_decl.node.initializer {
            self.resolve_expr(init);
        }
        self.declare(
            var_decl.node.ident.node.clone(),
            Symbol::Variable { initialized: var_decl.node.initializer.is_some() },
        );
    }

    fn resolve_fun_decl(&mut self, fun_decl: &Spanned<FunDeclStmt>)
        requires
            old(self).wf(),
        ensures
            final(self).follows(old(self)),
            final(self).resolution() == resolve_stmt(
                old(self).source@,
                Stmt::FunDecl(*fun_decl)@,
                old(self).resolution(),
            ),
        decreases fun_decl, 0nat,
    {
        self.declare(
            fun_decl.node.ident.node.clone(),
            Symbol::Function { params: clone_idents(&fun_decl.node.params) },
        );

        self.enter_scope();
        self.bind_params(&fun_decl.node.params, &fun_decl.node.ident.node);
        proof {
            lemma_stmts_value(fun_decl.node.body.node.statements);
        }
        self.resolve_stmts(&fun_decl.node.body.node.statements);
        self.leave_scope();
    }

    /// Binds the parameters of the function `function_name` in the innermost
    /// scope, and reports those that stand in the list a second time.
    fn bind_params(&mut self, params: &Vec<Ident>, function_name: &String)
        requires
            old(self).wf(),
        ensures
            final(self).follows(old(self)),
            final(self).resolution() == bind_params(
                old(self).source@,
                ident_views(params@),
                0,
                function_name@,
                old(self).resolution(),
            ),
    {
        let ghost src = self.source@;
        let ghost names = ident_views(params@);
        let ghost entered = self.resolution();
        let mut i: usize = 0;
        while i < params.len()
            invariant
                i <= params@.len(),
                self.follows(old(self)),
                src == self.source@,
                names == ident_views(params@),
                bind_params(src, names, i as int, function_name@, self.resolution())
                    == bind_params(src, names, 0, function_name@, entered),
            decreases params@.len() - i,
        {
            let param = &params[i];
            assert(names[i as int] == ident_view(*param));
            let ghost innermost = self.scopes@.last()@;
            assert(self.resolution().scopes.last() == scope_view(innermost));
            let n: usize = self.scopes.len();
            if find_binding(&self.scopes[n - 1], &param.node).is_some() {
                self.report(
                    ResolverError::DuplicateParameter {
                        src: self.source.clone(),
                        span: param.span,
                        function_name: function_name.clone(),
                    },
                )
            } else {
                self.declare(param.node.clone(), Symbol::Variable { initialized: true });
            }
            i += 1;
        }
    }

    fn resolve_block(&mut self, block: &Spanned<BlockStmt>)
        requires
            old(self).wf(),
        ensures
            final(self).follows(old(self)),
            final(self).resolution() == resolve_block(
                old(self).source@,
                block_view(*block),
                old(self).resolution(),
            ),
        decreases block, 0nat,
    {
        proof {
            lemma_stmts_value(block.node.statements);
        }
        self.enter_scope();
        self.resolve_stmts(&block.node.statements);
        self.leave_scope();
    }

    fn resolve_if_stmt(&mut self, if_stmt: &Spanned<IfStmt>)
        requires
            old(self).wf(),
        ensures
            final(self).follows(old(self)),
            final(self).resolution() == resolve_stmt(
                old(self).source@,
                Stmt::If(*if_stmt)@,
                old(self).resolution(),
            ),
        decreases if_stmt, 0nat,
    {
        self.resolve_expr(&if_stmt.node.condition);
        self.resolve_block(&if_stmt.node.then_branch);
        if let Some(else_branch) = &if_stmt.node.else_branch {
            self.resolve_block(else_branch);
        }
    }

    fn resolve_while_stmt(&mut self, while_stmt: &Spanned<WhileStmt>)
        requires
            old(self).wf(),
        ensures
            final(self).follows(old(self)),
            final(self).resolution() == resolve_stmt(
                old(self).source@,
                Stmt::While(*while_stmt)@,
                old(self).resolution(),
            ),
        decreases while_stmt, 0nat,
    {
        self.resolve_expr(&while_stmt.node.condition);
        self.resolve_block(&while_stmt.node.body);
    }

    fn resolve_return_stmt(&mut self, return_stmt: &Spanned<Option<Expr>>)
        requires
            old(self).wf(),
        ensures
            final(self).follows(old(self)),
            final(self).resolution() == resolve_stmt(
                old(self).source@,
                Stmt::Return(*return_stmt)@,
                old(self).resolution(),
            ),
        decreases return_stmt, 0nat,
    {
        if let Some(node) = &return_stmt.node {
            self.resolve_expr(node);
        }
    }

    fn resolve_expr(&mut self, expr: &Expr)
        requires
            old(self).wf(),
        ensures
            final(self).follows(old(self)),
            final(self).resolution() == resolve_expr(
                old(self).source@,
                expr@,
                old(self).resolution(),
            ),
        decreases expr, 0nat,
    {
        match expr {
            Expr::Literal(_) => {},
            Expr::Unary(unary_expr) => self.resolve_unary_expr(unary_expr),
            Expr::Binary(binary_expr) => self.resolve_binary_expr(binary_expr),
            Expr::Grouping(grouping) => self.resolve_grouping_expr(grouping),
            Expr::Variable(variable_expr) => self.resolve_variable_expr(variable_expr),
            Expr::Assign(assign) => self.resolve_assign_expr(assign),
            Expr::Logical(logical_expr) => self.resolve_logical_expr(logical_expr),
            Expr::Call(call) => self.resolve_call_expr(call),
            Expr::Lambda(lambda) => self.resolve_lambda_expr(lambda),
        }
    }

    fn resolve_unary_expr(&mut self, unary_expr: &Spanned<UnaryExpr>)
        requires
            old(self).wf(),
        ensures
            final(self).follows(old(self)),
            final(self).resolution() == resolve_expr(
                old(self).source@,
                unary_expr.node.expr@,
                old(self).resolution(),
            ),
        decreases unary_expr, 0nat,
    {
        self.resolve_expr(&unary_expr.node.expr);
    }

    fn resolve_binary_expr(&mut self, binary_expr: &Spanned<BinaryExpr>)
        requires
            old(self).wf(),
        ensures
            final(self).follows(old(self)),
            final(self).resolution() == resolve_expr(
                old(self).source@,
                binary_expr.node.right@,
                resolve_expr(old(self).source@, binary_expr.node.left@, old(self).resolution()),
            ),
        decreases binary_expr, 0nat,
    {
        self.resolve_expr(&binary_expr.node.left);
        self.resolve_expr(&binary_expr.node.right);
    }

    fn resolve_grouping_expr(&mut self, grouping_expr: &Spanned<Box<Expr>>)
        requires
            old(self).wf(),
        ensures
            final(self).follows(old(self)),
            final(self).resolution() == resolve_expr(
                old(self).source@,
                grouping_expr.node@,
                old(self).resolution(),
            ),
        decreases grouping_expr, 0nat,
    {
        self.resolve_expr(&grouping_expr.node);
    }

    fn resolve_variable_expr(&mut self, variable_expr: &Ident)
        requires
            old(self).wf(),
        ensures
            final(self).follows(old(self)),
            final(self).resolution() == resolve_read(
                old(self).source@,
                ident_view(*variable_expr),
                old(self).resolution(),
            ),
    {
        let uninitialized = match self.lookup_symbol(&variable_expr.node) {
            Some(Symbol::Variable { initialized: false }) => true,
            None => {
                self.report(
                    ResolverError::UndefinedVariable {
                        src: self.source.clone(),
                        span: variable_expr.span,
                        name: variable_expr.node.clone(),
                    },
                );
                false
            },
            _ => false,
        };
        if uninitialized {
            self.report(
                ResolverError::UninitializedVariable {
                    src: self.source.clone(),
                    span: variable_expr.span,
                    name: variable_expr.node.clone(),
                },
            );
        }
    }

    fn resolve_assign_expr(&mut self, assign_expr: &Spanned<AssignExpr>)
        requires
            old(self).wf(),
        ensures
            final(self).follows(old(self)),
            final(self).resolution() == resolve_expr(
                old(self).source@,
                assign_expr.node.value@,
                resolve_write(
                    old(self).source@,
                    ident_view(assign_expr.node.target),
                    old(self).resolution(),
                ),
            ),
        decreases assign_expr, 0nat,
    {
        let declared = self.lookup_symbol(&assign_expr.node.target.node).is_some();
        if !declared {
            self.report(
                ResolverError::UndefinedVariable {
                    src: self.source.clone(),
                    span: assign_expr.node.target.span,
                    name: assign_expr.node.target.node.clone(),
                },
            )
        }
        self.resolve_expr(&assign_expr.node.value);
    }

    fn resolve_logical_expr(&mut self, logical_expr: &Spanned<LogicalExpr>)
        requires
            old(self).wf(),
        ensures
            final(self).follows(old(self)),
            final(self).resolution() == resolve_expr(
                old(self).source@,
                logical_expr.node.right@,
                resolve_expr(old(self).source@, logical_expr.node.left@, old(self).resolution()),
            ),
        decreases logical_expr, 0nat,
    {
        self.resolve_expr(&logical_expr.node.left);
        self.resolve_expr(&logical_expr.node.right);
    }

    /// Calls are checked by a later pass.
    fn resolve_call_expr(&mut self, call_expr: &Spanned<CallExpr>)
        requires
            old(self).wf(),
        ensures
            final(self).follows(old(self)),
            final(self).resolution() == old(self).resolution(),
    {
    }

    /// A lambda is resolved as the body of a function without a name.
    fn resolve_lambda_expr(&mut self, lambda_expr: &Spanned<LambdaExpr>)
        requires
            old(self).wf(),
        ensures
            final(self).follows(old(self)),
            final(self).resolution() == resolve_stmts(
                old(self).source@,
                block_view(lambda_expr.node.body).statements,
                0,
                bind_params(
                    old(self).source@,
                    ident_views(lambda_expr.node.parameters@),
                    0,
                    Seq::empty(),
                    old(self).resolution().enter(),
                ),
            ).leave(),
        decreases lambda_expr, 0nat,
    {
        proof {
            lemma_stmts_value(lambda_expr.node.body.node.statements);
        }
        let anonymous = String::new();
        self.enter_scope();
        self.bind_params(&lambda_expr.node.parameters, &anonymous);
        self.resolve_stmts(&lambda_expr.node.body.node.statements);
        self.leave_scope();
    }
}

} // verus!
