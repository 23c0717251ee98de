//! The diagnostics of the three passes. Each carries the source text it
//! refers to, so that it can be rendered on its own.

use crate::span::Span;
use crate::token::TokenKind;
use vstd::prelude::*;
use vstd::string::*;

verus! {

/// What went wrong while scanning.
#[derive(Debug, Copy, Clone, PartialEq, Eq, Structural)]
pub enum LexErrorKind {
    /// A string literal was opened and never closed.
    UnterminatedString,
    /// A character that begins no token.
    UnexpectedCharacter { found: char },
}

/// A lexical diagnostic.
#[derive(Debug, Clone)]
pub struct LexError {
    pub src: String,
    pub span: Span,
    pub kind: LexErrorKind,
}

/// The mathematical value of a [`LexError`].
pub struct LexErrorView {
    pub src: Seq<char>,
    pub span: Span,
    pub kind: LexErrorKind,
}

impl View for LexError {
    type V = LexErrorView;

    open spec fn view(&self) -> LexErrorView {
        LexErrorView { src: self.src@, span: self.span, kind: self.kind }
    }
}

impl LexErrorKind {
    /// The help text of the diagnostic.
    pub open spec fn help_text(self) -> Seq<char> {
        match self {
            LexErrorKind::UnterminatedString => "string starts here but never closes"@,
            LexErrorKind::UnexpectedCharacter { .. } => "unexpected character"@,
        }
    }

    /// The help text of the diagnostic.
    pub fn help(&self) -> (text: String)
        ensures
            text@ == self.help_text(),
    {
        match self {
            LexErrorKind::UnterminatedString => String::from_str(
                "string starts here but never closes",
            ),
            LexErrorKind::UnexpectedCharacter { .. } => String::from_str("unexpected character"),
        }
    }
}

/// The side of an operator on which an operand is missing.
#[derive(Debug, Copy, Clone, PartialEq, Eq, Structural)]
pub enum Side {
    Left,
    Right,
}

/// Why a number cannot stand where a name is wanted.
#[derive(Debug, Copy, Clone, PartialEq, Eq, Structural)]
pub enum NameFault {
    /// The name begins with digits: a number directly followed by a word.
    StartsWithDigit,
    /// The name is a number and nothing else.
    IsNumber,
}

/// The place in which an identifier was wanted.
#[derive(Debug, Copy, Clone, PartialEq, Eq, Structural)]
pub enum IdentContext {
    VariableName,
    Variable,
    Function,
    Parameter,
}

/// What the parser would have accepted where it found something else.
#[derive(Debug, Copy, Clone, PartialEq, Eq, Structural)]
pub enum Expected {
    OpeningDelimiter,
    AssignOrSemicolon,
    CommaOrRightParen,
    Primary,
    Expression,
}

/// What went wrong while parsing.
#[derive(Debug, Copy, Clone, PartialEq, Eq, Structural)]
pub enum ParseErrorKind {
    UnexpectedToken { span: Span, found: TokenKind, expected: Expected },
    UnexpectedEOF { expected: Expected },
    MissingSemicolon { span: Span },
    MissingBlock { span: Span },
    MissingOperand { span: Span, side: Side },
    ExpectedExpression { span: Span },
    ExpectedIdentifier { span: Span, context: IdentContext },
    InvalidVariableName { span: Span, fault: NameFault },
    InvalidFunctionName { span: Span, fault: NameFault },
    UnclosedDelimiter { span: Span, delimiter: TokenKind },
    UnmatchedDelimiter {
        opening_span: Span,
        closing_span: Span,
        expected: TokenKind,
        found: TokenKind,
    },
    UnexpectedClosingDelimiter { span: Span, delimiter: TokenKind },
    /// A matter of style, not an error: the whole condition is parenthesised.
    RedundantParenthesis { first: Span, second: Span },
    RedundantSemicolon { span: Span },
}

/// A syntactic diagnostic.
#[derive(Debug, Clone)]
pub struct ParseError {
    pub src: String,
    pub kind: ParseErrorKind,
}

/// The mathematical value of a [`ParseError`].
pub struct ParseErrorView {
    pub src: Seq<char>,
    pub kind: ParseErrorKind,
}

impl View for ParseError {
    type V = ParseErrorView;

    open spec fn view(&self) -> ParseErrorView {
        ParseErrorView { src: self.src@, kind: self.kind }
    }
}

impl Side {
    /// The word for it in a message.
    pub open spec fn text(self) -> Seq<char> {
        match self {
            Side::Left => "left"@,
            Side::Right => "right"@,
        }
    }

    /// The word for it in a message.
    pub fn as_text(&self) -> (text: String)
        ensures
            text@ == self.text(),
    {
        match self {
            Side::Left => String::from_str("left"),
            Side::Right => String::from_str("right"),
        }
    }
}

impl NameFault {
    /// The message for a variable name.
    pub open spec fn variable_text(self) -> Seq<char> {
        match self {
            NameFault::StartsWithDigit => "A variable cannot start with a number"@,
            NameFault::IsNumber => "A variable name cannot be a number"@,
        }
    }

    /// The message for a function name.
    pub open spec fn function_text(self) -> Seq<char> {
        match self {
            NameFault::StartsWithDigit => "A function name cannot start with a number"@,
            NameFault::IsNumber => "A function name cannot be a number"@,
        }
    }

    /// The message for a variable name.
    pub fn variable_message(&self) -> (text: String)
        ensures
            text@ == self.variable_text(),
    {
        match self {
            NameFault::StartsWithDigit => String::from_str("A variable cannot start with a number"),
            NameFault::IsNumber => String::from_str("A variable name cannot be a number"),
        }
    }

    /// The message for a function name.
    pub fn function_message(&self) -> (text: String)
        ensures
            text@ == self.function_text(),
    {
        match self {
            NameFault::StartsWithDigit => String::from_str(
                "A function name cannot start with a number",
            ),
            NameFault::IsNumber => String::from_str("A function name cannot be a number"),
        }
    }
}

impl IdentContext {
    /// The word for it in a message.
    pub open spec fn text(self) -> Seq<char> {
        match self {
            IdentContext::VariableName => "variable name"@,
            IdentContext::Variable => "variable"@,
            IdentContext::Function => "function"@,
            IdentContext::Parameter => "parameter"@,
        }
    }

    /// The word for it in a message.
    pub fn as_text(&self) -> (text: String)
        ensures
            text@ == self.text(),
    {
        match self {
            IdentContext::VariableName => String::from_str("variable name"),
            IdentContext::Variable => String::from_str("variable"),
            IdentContext::Function => String::from_str("function"),
            IdentContext::Parameter => String::from_str("parameter"),
        }
    }
}

impl Expected {
    /// The word for it in a message.
    pub open spec fn text(self) -> Seq<char> {
        match self {
            Expected::OpeningDelimiter => "an opening delimiter"@,
            Expected::AssignOrSemicolon => "'=' or ';'"@,
            Expected::CommaOrRightParen => "',', or ')'"@,
            Expected::Primary => "literal or '('"@,
            Expected::Expression => "an expression"@,
        }
    }

    /// The word for it in a message.
    pub fn as_text(&self) -> (text: String)
        ensures
            text@ == self.text(),
    {
        match self {
            Expected::OpeningDelimiter => String::from_str("an opening delimiter"),
            Expected::AssignOrSemicolon => String::from_str("'=' or ';'"),
            Expected::CommaOrRightParen => String::from_str("',', or ')'"),
            Expected::Primary => String::from_str("literal or '('"),
            Expected::Expression => String::from_str("an expression"),
        }
    }
}

impl ParseErrorKind {
    /// Whether the diagnostic is advice on style and no error.
    pub open spec fn is_style(self) -> bool {
        self is RedundantParenthesis
    }

    /// Whether the diagnostic is advice on style and no error.
    pub fn style_only(&self) -> (style: bool)
        ensures
            style == self.is_style(),
    {
        match self {
            ParseErrorKind::RedundantParenthesis { .. } => true,
            _ => false,
        }
    }
}


/// A diagnostic of the resolver.
#[derive(Debug, Clone)]
pub enum ResolverError {
    /// A name is read or assigned to that no scope in reach declares.
    UndefinedVariable { src: String, span: Span, name: String },
    /// A variable is read that was declared without a value.
    UninitializedVariable { src: String, span: Span, name: String },
    /// A name stands twice in the parameter list of one function.
    DuplicateParameter { src: String, span: Span, function_name: String },
}

/// The mathematical value of a [`ResolverError`].
pub enum ResolverErrorView {
    UndefinedVariable { src: Seq<char>, span: Span, name: Seq<char> },
    UninitializedVariable { src: Seq<char>, span: Span, name: Seq<char> },
    DuplicateParameter { src: Seq<char>, span: Span, function_name: Seq<char> },
}

impl View for ResolverError {
    type V = ResolverErrorView;

    open spec fn view(&self) -> ResolverErrorView {
        match self {
            ResolverError::UndefinedVariable { src, span, name } => {
                ResolverErrorView::UndefinedVariable { src: src@, span: *span, name: name@ }
            },
            ResolverError::UninitializedVariable { src, span, name } => {
                ResolverErrorView::UninitializedVariable { src: src@, span: *span, name: name@ }
            },
            ResolverError::DuplicateParameter { src, span, function_name } => {
                ResolverErrorView::DuplicateParameter {
                    src: src@,
                    span: *span,
                    function_name: function_name@,
                }
            },
        }
    }
}


} // verus!
