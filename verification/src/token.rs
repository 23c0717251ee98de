//! Tokens: the units that the lexer hands to the parser.

use crate::span::Span;
use vstd::prelude::*;
use vstd::string::*;

verus! {

/// The closed set of token kinds.
#[derive(Debug, Copy, Clone, PartialEq, Eq, Structural)]
pub enum TokenKind {
    LeftParen,
    RightParen,
    LeftBrace,
    RightBrace,
    Comma,
    Dot,
    Minus,
    Plus,
    Semicolon,
    Slash,
    Star,
    Bang,
    BangEqual,
    Equal,
    EqualEqual,
    Greater,
    GreaterEqual,
    Less,
    LessEqual,
    /// `?`: a kind that no rule reads yet.
    Question,
    /// `:`: a kind that no rule reads yet.
    Colon,
    /// A string literal; the token's payload is the text between the quotes.
    String,
    /// A number literal; the token's payload is the numeral as written.
    Number,
    /// An identifier; the token's payload is the name.
    Ident,
    And,
    Else,
    False,
    For,
    Fun,
    If,
    Nil,
    Or,
    Print,
    Return,
    True,
    Var,
    While,
    /// The end-of-input marker.
    EOF,
}

/// A token: its kind, where it stands in the source, and its payload.
#[derive(Debug, Clone)]
pub struct Token {
    pub token_kind: TokenKind,
    pub span: Span,
    pub literal: String,
}

/// The mathematical value of a [`Token`].
pub struct TokenView {
    pub kind: TokenKind,
    pub span: Span,
    pub literal: Seq<char>,
}

impl View for Token {
    type V = TokenView;

    open spec fn view(&self) -> TokenView {
        TokenView { kind: self.token_kind, span: self.span, literal: self.literal@ }
    }
}

/// What the parser asks of its input: at least one token, the last one the
/// end-of-input marker, and every span with a representable end.
pub open spec fn stream_well_formed(tokens: Seq<Token>) -> bool {
    &&& tokens.len() > 0
    &&& tokens.last().token_kind == TokenKind::EOF
    &&& forall|i: int| 0 <= i < tokens.len() ==> (#[trigger] tokens[i]).span.bounded()
}

/// The keyword that `word` spells, if it spells one.
pub open spec fn keyword_kind(word: Seq<char>) -> Option<TokenKind> {
    if word == "and"@ {
        Some(TokenKind::And)
    } else if word == "else"@ {
        Some(TokenKind::Else)
    } else if word == "false"@ {
        Some(TokenKind::False)
    } else if word == "for"@ {
        Some(TokenKind::For)
    } else if word == "fun"@ {
        Some(TokenKind::Fun)
    } else if word == "if"@ {
        Some(TokenKind::If)
    } else if word == "nil"@ {
        Some(TokenKind::Nil)
    } else if word == "or"@ {
        Some(TokenKind::Or)
    } else if word == "print"@ {
        Some(TokenKind::Print)
    } else if word == "return"@ {
        Some(TokenKind::Return)
    } else if word == "true"@ {
        Some(TokenKind::True)
    } else if word == "var"@ {
        Some(TokenKind::Var)
    } else if word == "while"@ {
        Some(TokenKind::While)
    } else {
        None
    }
}

/// Whether two pieces of text hold the same characters.
pub fn same_text(a: &str, b: &str) -> (same: bool)
    ensures
        same == (a@ == b@),
{
    let n: usize = a.unicode_len();
    if n != b.unicode_len() {
        return false;
    }
    let mut i: usize = 0;
    while i < n
        invariant
            i <= n,
            n == a@.len(),
            n == b@.len(),
            forall|j: int| 0 <= j < i ==> a@[j] == b@[j],
        decreases n - i,
    {
        if a.get_char(i) != b.get_char(i) {
            return false;
        }
        i += 1;
    }
    assert(a@ =~= b@);
    true
}

/// Looks `word` up among the keywords.
pub fn keyword(word: &str) -> (kind: Option<TokenKind>)
    ensures
        kind == keyword_kind(word@),
{
    if same_text(word, "and") {
        Some(TokenKind::And)
    } else if same_text(word, "else") {
        Some(TokenKind::Else)
    } else if same_text(word, "false") {
        Some(TokenKind::False)
    } else if same_text(word, "for") {
        Some(TokenKind::For)
    } else if same_text(word, "fun") {
        Some(TokenKind::Fun)
    } else if same_text(word, "if") {
        Some(TokenKind::If)
    } else if same_text(word, "nil") {
        Some(TokenKind::Nil)
    } else if same_text(word, "or") {
        Some(TokenKind::Or)
    } else if same_text(word, "print") {
        Some(TokenKind::Print)
    } else if same_text(word, "return") {
        Some(TokenKind::Return)
    } else if same_text(word, "true") {
        Some(TokenKind::True)
    } else if same_text(word, "var") {
        Some(TokenKind::Var)
    } else if same_text(word, "while") {
        Some(TokenKind::While)
    } else {
        None
    }
}

} // verus!
