//! The syntax tree, and its mathematical value.
//!
//! Every node is wrapped in [`Typed`], which holds the node's span and a slot
//! for its type. The front end leaves that slot empty.

use crate::span::Span;
use vstd::prelude::*;

verus! {

/// The identity of a type, as a later pass assigns it.
pub type TypeId = usize;

/// A node with its span and its type slot.
#[derive(Debug, Clone)]
pub struct Typed<T> {
    pub node: T,
    pub span: Span,
    pub type_id: Option<TypeId>,
}

/// The same wrapper under the name that stresses the span.
pub type Spanned<T> = Typed<T>;

/// A name in the source.
pub type Ident = Typed<String>;

/// What [`Typed`] adds to a node.
pub struct Meta {
    pub span: Span,
    pub type_id: Option<TypeId>,
}

/// The annotation of a fresh node: its span, and no type yet.
pub open spec fn at(span: Span) -> Meta {
    Meta { span, type_id: None }
}

impl<T> Typed<T> {
    /// The span and the type slot of the node.
    pub open spec fn meta(&self) -> Meta {
        Meta { span: self.span, type_id: self.type_id }
    }

    /// Wraps `node`, found at `span`, with an empty type slot.
    pub fn new(node: T, span: Span) -> (typed: Typed<T>)
        ensures
            typed == (Typed { node, span, type_id: None::<TypeId> }),
            typed.meta() == at(span),
    {
        Typed { node, span, type_id: None }
    }
}

/// The operators with one operand.
#[derive(Debug, Copy, Clone, PartialEq, Eq, Structural)]
pub enum UnaryOp {
    Bang,
    Minus,
}

/// The operators with two operands that always evaluate both.
#[derive(Debug, Copy, Clone, PartialEq, Eq, Structural)]
pub enum BinaryOp {
    BangEqual,
    EqualEqual,
    Less,
    LessEqual,
    Greater,
    GreaterEqual,
    Plus,
    Minus,
    Slash,
    Star,
}

/// The operators with two operands that may leave the second unevaluated.
#[derive(Debug, Copy, Clone, PartialEq, Eq, Structural)]
pub enum LogicalOp {
    Or,
    And,
}

/// The two kinds of bracket that the parser keeps in balance.
#[derive(Debug, Copy, Clone, PartialEq, Eq, Structural)]
pub enum DelimiterKind {
    Paren,
    Brace,
}

/// An opening bracket that is still waiting for its counterpart.
#[derive(Debug, Copy, Clone, PartialEq, Eq, Structural)]
pub struct Delimiter {
    pub delimiter: DelimiterKind,
    pub span: Span,
}

/// A literal value.
#[derive(Debug, Clone)]
pub enum LiteralExpr {
    /// A number, held as the numeral that was written.
    Number(String),
    String(String),
    Bool(bool),
    Nil,
}

/// An operator before its operand.
#[derive(Debug)]
pub struct UnaryExpr {
    pub op: UnaryOp,
    pub expr: Box<Expr>,
}

/// A binary operator between its operands.
#[derive(Debug)]
pub struct BinaryExpr {
    pub left: Box<Expr>,
    pub op: BinaryOp,
    pub right: Box<Expr>,
}

/// A logical operator between its operands.
#[derive(Debug)]
pub struct LogicalExpr {
    pub left: Box<Expr>,
    pub op: LogicalOp,
    pub right: Box<Expr>,
}

/// A variable and the value assigned to it.
#[derive(Debug)]
pub struct AssignExpr {
    pub target: Ident,
    pub value: Box<Expr>,
}

/// A callee and its arguments.
#[derive(Debug)]
pub struct CallExpr {
    pub callee: Box<Expr>,
    pub arguments: Vec<Expr>,
}

/// A function without a name.
#[derive(Debug)]
pub struct LambdaExpr {
    pub parameters: Vec<Ident>,
    pub body: Typed<BlockStmt>,
}

/// An expression. Every variant owns its parts.
#[derive(Debug)]
pub enum Expr {
    Literal(Typed<LiteralExpr>),
    Unary(Typed<UnaryExpr>),
    Binary(Typed<BinaryExpr>),
    Logical(Typed<LogicalExpr>),
    Grouping(Typed<Box<Expr>>),
    Variable(Ident),
    Assign(Typed<AssignExpr>),
    Call(Typed<CallExpr>),
    Lambda(Typed<LambdaExpr>),
}

/// The statements between two braces.
#[derive(Debug)]
pub struct BlockStmt {
    pub statements: Vec<Stmt>,
}

/// The declaration of a variable, with or without a value.
#[derive(Debug)]
pub struct VarDeclStmt {
    pub ident: Ident,
    pub initializer: Option<Expr>,
}

/// The declaration of a function.
#[derive(Debug)]
pub struct FunDeclStmt {
    pub ident: Ident,
    pub params: Vec<Ident>,
    pub body: Typed<BlockStmt>,
}

/// A condition and the blocks to run when it holds and when it does not.
#[derive(Debug)]
pub struct IfStmt {
    pub condition: Expr,
    pub then_branch: Typed<BlockStmt>,
    pub else_branch: Option<Typed<BlockStmt>>,
}

/// A condition and the block to run while it holds.
#[derive(Debug)]
pub struct WhileStmt {
    pub condition: Expr,
    pub body: Typed<BlockStmt>,
}

/// A statement. A `for` statement is a block around a `while`.
#[derive(Debug)]
pub enum Stmt {
    ExprStmt(Typed<Expr>),
    PrintStmt(Typed<Expr>),
    VarDecl(Typed<VarDeclStmt>),
    FunDecl(Typed<FunDeclStmt>),
    Block(Typed<BlockStmt>),
    If(Typed<IfStmt>),
    While(Typed<WhileStmt>),
    Return(Typed<Option<Expr>>),
}

/// A whole program: its statements in order, and the span of them all.
#[derive(Debug)]
pub struct Program {
    pub statements: Vec<Stmt>,
    pub span: Span,
}

/// The value of an [`Ident`].
pub struct IdentView {
    pub name: Seq<char>,
    pub meta: Meta,
}

/// The value of a [`LiteralExpr`].
pub enum LiteralView {
    Number(Seq<char>),
    String(Seq<char>),
    Bool(bool),
    Nil,
}

/// The value of an [`Expr`].
pub enum ExprView {
    Literal { value: LiteralView, meta: Meta },
    Unary { op: UnaryOp, operand: Box<ExprView>, meta: Meta },
    Binary { left: Box<ExprView>, op: BinaryOp, right: Box<ExprView>, meta: Meta },
    Logical { left: Box<ExprView>, op: LogicalOp, right: Box<ExprView>, meta: Meta },
    Grouping { inner: Box<ExprView>, meta: Meta },
    Variable { ident: IdentView },
    Assign { target: IdentView, value: Box<ExprView>, meta: Meta },
    Call { callee: Box<ExprView>, arguments: Seq<ExprView>, meta: Meta },
    Lambda { parameters: Seq<IdentView>, body: BlockView, meta: Meta },
}

/// The value of a block with its annotation.
pub struct BlockView {
    pub statements: Seq<StmtView>,
    pub meta: Meta,
}

/// The value of a [`Stmt`].
pub enum StmtView {
    ExprStmt { expr: ExprView, meta: Meta },
    PrintStmt { expr: ExprView, meta: Meta },
    VarDecl { ident: IdentView, initializer: Option<ExprView>, meta: Meta },
    FunDecl { ident: IdentView, params: Seq<IdentView>, body: BlockView, meta: Meta },
    Block { block: BlockView },
    If { condition: ExprView, then_branch: BlockView, else_branch: Option<BlockView>, meta: Meta },
    While { condition: ExprView, body: BlockView, meta: Meta },
    Return { value: Option<ExprView>, meta: Meta },
}

/// The value of a [`Program`].
pub struct ProgramView {
    pub statements: Seq<StmtView>,
    pub span: Span,
}

/// The value of a name.
pub open spec fn ident_view(ident: Ident) -> IdentView {
    IdentView { name: ident.node@, meta: ident.meta() }
}

/// The values of a sequence of names.
pub open spec fn ident_views(idents: Seq<Ident>) -> Seq<IdentView> {
    idents.map_values(|i: Ident| ident_view(i))
}

/// The values of a sequence of expressions.
pub open spec fn expr_views(exprs: Seq<Expr>) -> Seq<ExprView> {
    exprs.map_values(|e: Expr| e@)
}

/// The values of a sequence of statements.
pub open spec fn stmt_views(stmts: Seq<Stmt>) -> Seq<StmtView> {
    stmts.map_values(|s: Stmt| s@)
}

impl View for LiteralExpr {
    type V = LiteralView;

    open spec fn view(&self) -> LiteralView {
        match self {
            LiteralExpr::Number(numeral) => LiteralView::Number(numeral@),
            LiteralExpr::String(text) => LiteralView::String(text@),
            LiteralExpr::Bool(b) => LiteralView::Bool(*b),
            LiteralExpr::Nil => LiteralView::Nil,
        }
    }
}

/// The value of a vector of expressions, element by element.
pub open spec fn exprs_value(exprs: Vec<Expr>) -> Seq<ExprView>
    decreases exprs,
{
    Seq::new(
        exprs.len() as nat,
        |i: int|
            if 0 <= i < exprs.len() {
                exprs[i].view()
            } else {
                arbitrary()
            },
    )
}

/// The value of a vector of statements, element by element.
pub open spec fn stmts_value(stmts: Vec<Stmt>) -> Seq<StmtView>
    decreases stmts,
{
    Seq::new(
        stmts.len() as nat,
        |i: int|
            if 0 <= i < stmts.len() {
                stmts[i].view()
            } else {
                arbitrary()
            },
    )
}

/// The value of a block with its annotation.
pub open spec fn block_view(block: Typed<BlockStmt>) -> BlockView
    decreases block,
{
    BlockView { statements: stmts_value(block.node.statements), meta: block.meta() }
}

impl Expr {
    /// The value of the expression.
    pub open spec fn view(&self) -> ExprView
        decreases self,
    {
        match self {
            Expr::Literal(t) => ExprView::Literal { value: t.node@, meta: t.meta() },
            Expr::Unary(t) => ExprView::Unary {
                op: t.node.op,
                operand: Box::new(t.node.expr.view()),
                meta: t.meta(),
            },
            Expr::Binary(t) => ExprView::Binary {
                left: Box::new(t.node.left.view()),
                op: t.node.op,
                right: Box::new(t.node.right.view()),
                meta: t.meta(),
            },
            Expr::Logical(t) => ExprView::Logical {
                left: Box::new(t.node.left.view()),
                op: t.node.op,
                right: Box::new(t.node.right.view()),
                meta: t.meta(),
            },
            Expr::Grouping(t) => ExprView::Grouping {
                inner: Box::new(t.node.view()),
                meta: t.meta(),
            },
            Expr::Variable(ident) => ExprView::Variable { ident: ident_view(*ident) },
            Expr::Assign(t) => ExprView::Assign {
                target: ident_view(t.node.target),
                value: Box::new(t.node.value.view()),
                meta: t.meta(),
            },
            Expr::Call(t) => ExprView::Call {
                callee: Box::new(t.node.callee.view()),
                arguments: exprs_value(t.node.arguments),
                meta: t.meta(),
            },
            Expr::Lambda(t) => ExprView::Lambda {
                parameters: ident_views(t.node.parameters@),
                body: block_view(t.node.body),
                meta: t.meta(),
            },
        }
    }
}

impl Stmt {
    /// The value of the statement.
    pub open spec fn view(&self) -> StmtView
        decreases self,
    {
        match self {
            Stmt::ExprStmt(t) => StmtView::ExprStmt { expr: t.node.view(), meta: t.meta() },
            Stmt::PrintStmt(t) => StmtView::PrintStmt { expr: t.node.view(), meta: t.meta() },
            Stmt::VarDecl(t) => StmtView::VarDecl {
                ident: ident_view(t.node.ident),
                initializer: match t.node.initializer {
                    Some(e) => Some(e.view()),
                    None => None,
                },
                meta: t.meta(),
            },
            Stmt::FunDecl(t) => StmtView::FunDecl {
                ident: ident_view(t.node.ident),
                params: ident_views(t.node.params@),
                body: block_view(t.node.body),
                meta: t.meta(),
            },
            Stmt::Block(t) => StmtView::Block { block: block_view(*t) },
            Stmt::If(t) => StmtView::If {
                condition: t.node.condition.view(),
                then_branch: block_view(t.node.then_branch),
                else_branch: match t.node.else_branch {
                    Some(b) => Some(block_view(b)),
                    None => None,
                },
                meta: t.meta(),
            },
            Stmt::While(t) => StmtView::While {
                condition: t.node.condition.view(),
                body: block_view(t.node.body),
                meta: t.meta(),
            },
            Stmt::Return(t) => StmtView::Return {
                value: match t.node {
                    Some(e) => Some(e.view()),
                    None => None,
                },
                meta: t.meta(),
            },
        }
    }
}

impl View for Program {
    type V = ProgramView;

    open spec fn view(&self) -> ProgramView {
        ProgramView { statements: stmts_value(self.statements), span: self.span }
    }
}

/// The value of a vector of expressions is the values of its elements.
pub proof fn lemma_exprs_value(exprs: Vec<Expr>)
    ensures
        exprs_value(exprs) == expr_views(exprs@),
{
    assert(exprs_value(exprs) =~= expr_views(exprs@));
}

/// The value of a vector of statements is the values of its elements.
pub proof fn lemma_stmts_value(stmts: Vec<Stmt>)
    ensures
        stmts_value(stmts) == stmt_views(stmts@),
{
    assert(stmts_value(stmts) =~= stmt_views(stmts@));
}

} // verus!
