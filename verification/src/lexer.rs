//! The lexer: one pass over the characters of the source, left to right.
//!
//! [`spec_lex`] defines what the scan of a text is; [`Lexer::lex`] computes
//! it. Spans are measured in bytes of the UTF-8 encoding of the source.

use crate::error::{LexError, LexErrorKind, LexErrorView};
use crate::span::Span;
use crate::token::{keyword, keyword_kind, stream_well_formed, Token, TokenKind, TokenView};
use vstd::prelude::*;
use vstd::string::*;
use vstd::utf8::{encode_scalar, encode_utf8};

verus! {

/// One entry of the lexer's output, as a mathematical value.
pub type LexItemView = Result<TokenView, LexErrorView>;

/// The number of bytes that `c` takes in UTF-8.
pub open spec fn utf8_width(c: char) -> int {
    encode_scalar(c as u32).len() as int
}

/// The byte offset at which the character of index `i` begins.
pub open spec fn byte_offset(src: Seq<char>, i: int) -> int {
    encode_utf8(src.take(i)).len() as int
}

/// The span of the characters of index `from` up to, not including, `to`.
pub open spec fn span_between(src: Seq<char>, from: int, to: int) -> Span {
    Span {
        offset: byte_offset(src, from) as usize,
        len: (byte_offset(src, to) - byte_offset(src, from)) as usize,
    }
}

/// Whether `c` is a decimal digit.
pub open spec fn is_digit(c: char) -> bool {
    '0' <= c <= '9'
}

/// Whether an identifier can begin with `c`.
pub open spec fn is_ident_start(c: char) -> bool {
    ('a' <= c <= 'z') || ('A' <= c <= 'Z') || c == '_'
}

/// Whether an identifier can go on with `c`.
pub open spec fn is_ident_part(c: char) -> bool {
    is_ident_start(c) || is_digit(c)
}

/// Whether `c` is white space.
pub open spec fn is_space(c: char) -> bool {
    c == ' ' || c == '\r' || c == '\t' || c == '\n'
}

/// The sets of characters that the lexer reads in runs.
#[derive(Debug, Copy, Clone, PartialEq, Eq, Structural)]
pub enum CharClass {
    /// Letters, digits and the underscore.
    IdentPart,
    /// Decimal digits.
    Digit,
    /// Everything but the line feed.
    NotNewline,
    /// Everything but the double quote.
    NotQuote,
}

impl CharClass {
    /// Whether `c` is of this class.
    pub open spec fn holds(self, c: char) -> bool {
        match self {
            CharClass::IdentPart => is_ident_part(c),
            CharClass::Digit => is_digit(c),
            CharClass::NotNewline => c != '\n',
            CharClass::NotQuote => c != '"',
        }
    }

    /// Whether `c` is of this class.
    pub fn test(self, c: char) -> (r: bool)
        ensures
            r == self.holds(c),
    {
        match self {
            CharClass::IdentPart => test_ident_part(c),
            CharClass::Digit => test_digit(c),
            CharClass::NotNewline => c != '\n',
            CharClass::NotQuote => c != '"',
        }
    }
}

/// Whether `c` is a decimal digit.
pub fn test_digit(c: char) -> (r: bool)
    ensures
        r == is_digit(c),
{
    '0' <= c && c <= '9'
}

/// Whether an identifier can begin with `c`.
pub fn test_ident_start(c: char) -> (r: bool)
    ensures
        r == is_ident_start(c),
{
    ('a' <= c && c <= 'z') || ('A' <= c && c <= 'Z') || c == '_'
}

/// Whether an identifier can go on with `c`.
pub fn test_ident_part(c: char) -> (r: bool)
    ensures
        r == is_ident_part(c),
{
    test_ident_start(c) || test_digit(c)
}

/// The index at which the run of `class` characters that begins at `i` ends.
pub open spec fn run_end(src: Seq<char>, i: int, class: CharClass) -> int
    decreases src.len() - i,
{
    if 0 <= i < src.len() && class.holds(src[i]) {
        run_end(src, i + 1, class)
    } else {
        i
    }
}

/// What the lexer does at one position: the entry it emits, if any, and the
/// index at which it goes on.
pub struct Step {
    pub item: Option<LexItemView>,
    pub next: int,
}

/// A token of `kind` made of the characters from `from` to `to`.
pub open spec fn lexeme(src: Seq<char>, kind: TokenKind, from: int, to: int) -> Step {
    Step {
        item: Some(
            Ok(
                TokenView {
                    kind,
                    span: span_between(src, from, to),
                    literal: src.subrange(from, to),
                },
            ),
        ),
        next: to,
    }
}

/// An operator that is `long` when an `=` follows and `short` otherwise.
pub open spec fn with_equal(src: Seq<char>, i: int, short: TokenKind, long: TokenKind) -> Step {
    if i + 1 < src.len() && src[i + 1] == '=' {
        lexeme(src, long, i, i + 2)
    } else {
        lexeme(src, short, i, i + 1)
    }
}

/// The index at which the number literal that begins at `i` ends: a run of
/// digits, then, if a dot and a digit follow, the dot and a second run.
pub open spec fn number_end(src: Seq<char>, i: int) -> int {
    let whole = run_end(src, i + 1, CharClass::Digit);
    if whole + 1 < src.len() && src[whole] == '.' && is_digit(src[whole + 1]) {
        run_end(src, whole + 2, CharClass::Digit)
    } else {
        whole
    }
}

/// The kind of the word `word`: a keyword, or else an identifier.
pub open spec fn word_kind(word: Seq<char>) -> TokenKind {
    match keyword_kind(word) {
        Some(kind) => kind,
        None => TokenKind::Ident,
    }
}

/// The step of the lexer at index `i` of `src`, for `0 <= i < src.len()`.
pub open spec fn scan_step(src: Seq<char>, i: int) -> Step {
    let c = src[i];
    if c == '(' {
        lexeme(src, TokenKind::LeftParen, i, i + 1)
    } else if c == ')' {
        lexeme(src, TokenKind::RightParen, i, i + 1)
    } else if c == '{' {
        lexeme(src, TokenKind::LeftBrace, i, i + 1)
    } else if c == '}' {
        lexeme(src, TokenKind::RightBrace, i, i + 1)
    } else if c == ',' {
        lexeme(src, TokenKind::Comma, i, i + 1)
    } else if c == '.' {
        lexeme(src, TokenKind::Dot, i, i + 1)
    } else if c == '-' {
        lexeme(src, TokenKind::Minus, i, i + 1)
    } else if c == '+' {
        lexeme(src, TokenKind::Plus, i, i + 1)
    } else if c == ';' {
        lexeme(src, TokenKind::Semicolon, i, i + 1)
    } else if c == '*' {
        lexeme(src, TokenKind::Star, i, i + 1)
    } else if c == '/' {
        if i + 1 < src.len() && src[i + 1] == '/' {
            let line_end = run_end(src, i + 2, CharClass::NotNewline);
            Step { item: None, next: if line_end < src.len() { line_end + 1 } else { line_end } }
        } else {
            lexeme(src, TokenKind::Slash, i, i + 1)
        }
    } else if c == '!' {
        with_equal(src, i, TokenKind::Bang, TokenKind::BangEqual)
    } else if c == '=' {
        with_equal(src, i, TokenKind::Equal, TokenKind::EqualEqual)
    } else if c == '<' {
        with_equal(src, i, TokenKind::Less, TokenKind::LessEqual)
    } else if c == '>' {
        with_equal(src, i, TokenKind::Greater, TokenKind::GreaterEqual)
    } else if c == '"' {
        let quote = run_end(src, i + 1, CharClass::NotQuote);
        if quote < src.len() {
            Step {
                item: Some(
                    Ok(
                        TokenView {
                            kind: TokenKind::String,
                            span: span_between(src, i, quote + 1),
                            literal: src.subrange(i + 1, quote),
                        },
                    ),
                ),
                next: quote + 1,
            }
        } else {
            Step {
                item: Some(
                    Err(
                        LexErrorView {
                            src,
                            span: span_between(src, i, src.len() as int),
                            kind: LexErrorKind::UnterminatedString,
                        },
                    ),
                ),
                next: i + 1,
            }
        }
    } else if is_digit(c) {
        lexeme(src, TokenKind::Number, i, number_end(src, i))
    } else if is_ident_start(c) {
        let end = run_end(src, i + 1, CharClass::IdentPart);
        lexeme(src, word_kind(src.subrange(i, end)), i, end)
    } else if is_space(c) {
        Step { item: None, next: i + 1 }
    } else {
        Step {
            item: Some(
                Err(
                    LexErrorView {
                        src,
                        span: span_between(src, i, i + 1),
                        kind: LexErrorKind::UnexpectedCharacter { found: c },
                    },
                ),
            ),
            next: i + 1,
        }
    }
}

/// The end-of-input marker of `src`: an empty span at the end of the source.
pub open spec fn eof_token(src: Seq<char>) -> TokenView {
    TokenView {
        kind: TokenKind::EOF,
        span: Span { offset: byte_offset(src, src.len() as int) as usize, len: 0 },
        literal: Seq::empty(),
    }
}

/// The entries that the lexer emits from index `i` on.
pub open spec fn scan(src: Seq<char>, i: int) -> Seq<LexItemView>
    decreases src.len() - i,
{
    if 0 <= i < src.len() {
        let step = scan_step(src, i);
        let rest = if i < step.next <= src.len() {
            scan(src, step.next)
        } else {
            seq![Ok(eof_token(src))]
        };
        match step.item {
            Some(item) => seq![item] + rest,
            None => rest,
        }
    } else {
        seq![Ok(eof_token(src))]
    }
}

/// The scan of a whole source text.
pub open spec fn spec_lex(src: Seq<char>) -> Seq<LexItemView> {
    scan(src, 0)
}

/// Whether `item` is the end-of-input marker.
pub open spec fn is_eof(item: LexItemView) -> bool {
    item matches Ok(t) && t.kind == TokenKind::EOF
}

/// A run ends inside the text, holds only characters of its class, and stops
/// before a character that is not of it.
pub proof fn lemma_run_end_bounds(src: Seq<char>, i: int, class: CharClass)
    requires
        0 <= i <= src.len(),
    ensures
        i <= run_end(src, i, class) <= src.len(),
        forall|j: int| i <= j < run_end(src, i, class) ==> class.holds(#[trigger] src[j]),
        run_end(src, i, class) < src.len() ==> !class.holds(src[run_end(src, i, class)]),
    decreases src.len() - i,
{
    if i < src.len() && class.holds(src[i]) {
        lemma_run_end_bounds(src, i + 1, class);
    }
}

/// Every step of the lexer moves forward, and stays inside the source.
pub proof fn lemma_step_advances(src: Seq<char>, i: int)
    requires
        0 <= i < src.len(),
    ensures
        i < scan_step(src, i).next <= src.len(),
{
    lemma_run_end_bounds(src, i + 1, CharClass::NotQuote);
    lemma_run_end_bounds(src, i + 1, CharClass::IdentPart);
    lemma_run_end_bounds(src, i + 1, CharClass::Digit);
    let whole = run_end(src, i + 1, CharClass::Digit);
    if whole + 2 <= src.len() {
        lemma_run_end_bounds(src, whole + 2, CharClass::Digit);
    }
    if i + 2 <= src.len() {
        lemma_run_end_bounds(src, i + 2, CharClass::NotNewline);
    }
}

/// A step never emits the end-of-input marker: keywords are the only words
/// with a kind of their own, and the marker is none of them.
pub proof fn lemma_step_not_eof(src: Seq<char>, i: int)
    requires
        0 <= i < src.len(),
    ensures
        scan_step(src, i).item matches Some(item) ==> !is_eof(item),
{
}

/// The scan ends with the end-of-input marker, holds no other, and has at most
/// one entry for each character that is left, and the marker.
pub proof fn lemma_scan_shape(src: Seq<char>, i: int)
    requires
        0 <= i <= src.len(),
    ensures
        scan(src, i).len() >= 1,
        scan(src, i).len() <= src.len() - i + 1,
        scan(src, i).last() == Ok::<TokenView, LexErrorView>(eof_token(src)),
        forall|k: int| 0 <= k < scan(src, i).len() - 1 ==> !is_eof(#[trigger] scan(src, i)[k]),
    decreases src.len() - i,
{
    if i < src.len() {
        lemma_step_advances(src, i);
        lemma_step_not_eof(src, i);
        lemma_scan_shape(src, scan_step(src, i).next);
    }
}


/// The scan of any text ends with exactly one end-of-input marker: the last
/// entry is the marker, no entry before it is one, and the marker's span is
/// empty and begins at the length of the text in bytes. The scan has at most
/// one entry for each character, and the marker.
pub proof fn lemma_lex_ends_with_marker(src: Seq<char>)
    ensures
        spec_lex(src).len() >= 1,
        spec_lex(src).len() <= src.len() + 1,
        spec_lex(src).last() == Ok::<TokenView, LexErrorView>(eof_token(src)),
        forall|k: int| 0 <= k < spec_lex(src).len() - 1 ==> !is_eof(#[trigger] spec_lex(src)[k]),
        eof_token(src).kind == TokenKind::EOF,
        eof_token(src).span.len == 0,
        encode_utf8(src).len() <= usize::MAX ==> eof_token(src).span.offset == encode_utf8(
            src,
        ).len(),
{
    lemma_scan_shape(src, 0);
    assert(src.take(src.len() as int) =~= src);
}

/// The tokens among the entries of a scan, in order.
pub open spec fn tokens_of(items: Seq<LexItemView>) -> Seq<TokenView>
    decreases items.len(),
{
    if items.len() == 0 {
        Seq::empty()
    } else {
        let front = tokens_of(items.drop_last());
        match items.last() {
            Ok(token) => front.push(token),
            Err(_) => front,
        }
    }
}

/// The diagnostics among the entries of a scan, in order.
pub open spec fn errors_of(items: Seq<LexItemView>) -> Seq<LexErrorView>
    decreases items.len(),
{
    if items.len() == 0 {
        Seq::empty()
    } else {
        let front = errors_of(items.drop_last());
        match items.last() {
            Ok(_) => front,
            Err(error) => front.push(error),
        }
    }
}

/// The values of a sequence of tokens.
pub open spec fn token_views(tokens: Seq<Token>) -> Seq<TokenView> {
    tokens.map_values(|t: Token| t@)
}

/// The values of a sequence of lexical diagnostics.
pub open spec fn error_views(errors: Seq<LexError>) -> Seq<LexErrorView> {
    errors.map_values(|e: LexError| e@)
}

/// Encoding a text piece by piece gives the encoding of the whole.
pub proof fn lemma_encode_concat(a: Seq<char>, b: Seq<char>)
    ensures
        encode_utf8(a + b) == encode_utf8(a) + encode_utf8(b),
    decreases a.len(),
{
    if a.len() == 0 {
        assert(a + b =~= b);
        assert(encode_utf8(a) + encode_utf8(b) =~= encode_utf8(b));
    } else {
        assert((a + b).drop_first() =~= a.drop_first() + b);
        lemma_encode_concat(a.drop_first(), b);
        assert(encode_utf8(a + b) =~= encode_utf8(a) + encode_utf8(b));
    }
}

/// Byte offsets grow by the width of the character that is passed.
pub proof fn lemma_offset_step(src: Seq<char>, i: int)
    requires
        0 <= i < src.len(),
    ensures
        byte_offset(src, i + 1) == byte_offset(src, i) + utf8_width(src[i]),
        1 <= utf8_width(src[i]) <= 4,
{
    let one = seq![src[i]];
    assert(src.take(i + 1) =~= src.take(i) + one);
    lemma_encode_concat(src.take(i), one);
    assert(one.drop_first() =~= Seq::<char>::empty());
    assert(encode_utf8(one) =~= encode_scalar(src[i] as u32)) by {
        reveal_with_fuel(encode_utf8, 2);
    }
}

/// Byte offsets grow with the index.
pub proof fn lemma_offset_monotone(src: Seq<char>, i: int, j: int)
    requires
        0 <= i <= j <= src.len(),
    ensures
        byte_offset(src, i) <= byte_offset(src, j),
{
    assert(src.take(j) =~= src.take(i) + src.subrange(i, j));
    lemma_encode_concat(src.take(i), src.subrange(i, j));
}

/// In a source whose length in bytes is representable, so is the end of the
/// span of every token of the scan.
pub proof fn lemma_scan_spans_bounded(src: Seq<char>, i: int)
    requires
        0 <= i <= src.len(),
        byte_offset(src, src.len() as int) <= usize::MAX,
    ensures
        forall|k: int|
            0 <= k < scan(src, i).len() ==> (#[trigger] scan(src, i)[k] matches Ok(t)
                ==> t.span.bounded()),
    decreases src.len() - i,
{
    let end = src.len() as int;
    if i < src.len() {
        let step = scan_step(src, i);
        lemma_step_advances(src, i);
        lemma_scan_spans_bounded(src, step.next);
        lemma_offset_monotone(src, i, step.next);
        lemma_offset_monotone(src, step.next, end);
        lemma_offset_monotone(src, 0, i);
    } else {
        lemma_offset_monotone(src, 0, end);
    }
}

/// The span of an entry that is a token.
pub open spec fn token_span(item: LexItemView) -> Option<Span> {
    match item {
        Ok(token) => Some(token.span),
        Err(_) => None,
    }
}

/// The tokens of a scan stand in the order of the source and do not overlap:
/// each lies inside the text that was still to be scanned, and ends before
/// the next one begins.
pub proof fn lemma_scan_spans_ordered(src: Seq<char>, i: int)
    requires
        0 <= i <= src.len(),
        byte_offset(src, src.len() as int) <= usize::MAX,
    ensures
        forall|k: int|
            0 <= k < scan(src, i).len() && (#[trigger] token_span(scan(src, i)[k])) is Some ==> {
                &&& byte_offset(src, i) <= token_span(scan(src, i)[k])->0.offset
                &&& token_span(scan(src, i)[k])->0.end() <= byte_offset(src, src.len() as int)
            },
        forall|j: int, k: int|
            0 <= j < k < scan(src, i).len() && (#[trigger] token_span(scan(src, i)[j])) is Some
                && (#[trigger] token_span(scan(src, i)[k])) is Some ==> token_span(
                scan(src, i)[j],
            )->0.end() <= token_span(scan(src, i)[k])->0.offset,
    decreases src.len() - i,
{
    let end = src.len() as int;
    let all = scan(src, i);
    lemma_offset_monotone(src, i, end);
    lemma_offset_monotone(src, 0, i);
    if i < src.len() {
        let step = scan_step(src, i);
        let rest = scan(src, step.next);
        lemma_step_advances(src, i);
        lemma_scan_spans_ordered(src, step.next);
        lemma_offset_monotone(src, i, step.next);
        lemma_offset_monotone(src, step.next, end);
        lemma_run_end_bounds(src, i + 1, CharClass::NotQuote);
        lemma_run_end_bounds(src, i + 1, CharClass::Digit);
        lemma_run_end_bounds(src, i + 1, CharClass::IdentPart);
        match step.item {
            Some(first) => {
                assert(all == seq![first] + rest);
                if token_span(first) is Some {
                    assert(token_span(first)->0.offset == byte_offset(src, i));
                    assert(token_span(first)->0.end() == byte_offset(src, step.next));
                }
                assert forall|k: int| 1 <= k < all.len() implies all[k] == rest[k - 1] by {}
            },
            None => {
                assert(all == rest);
            },
        }
    }
}

/// The value of one entry of the lexer's output.
pub open spec fn item_view(item: Result<Token, LexError>) -> LexItemView {
    match item {
        Ok(token) => Ok(token@),
        Err(error) => Err(error@),
    }
}

/// The value of the lexer's output.
pub open spec fn items_view(items: Seq<Result<Token, LexError>>) -> Seq<LexItemView> {
    items.map_values(|item: Result<Token, LexError>| item_view(item))
}

/// The number of bytes that `c` takes in UTF-8.
pub fn char_width(c: char) -> (w: usize)
    ensures
        w == utf8_width(c),
        1 <= w <= 4,
{
    let v: u32 = c as u32;
    if v < 0x80 {
        1
    } else if v < 0x800 {
        2
    } else if v < 0x10000 {
        3
    } else {
        4
    }
}

/// The lexer of one source text.
pub struct Lexer {
    source: String,
    chars: Vec<char>,
    tokens: Vec<Result<Token, LexError>>,
    /// Index of the next character to read.
    position: usize,
    /// Index of the first character of the token being read.
    start: usize,
    /// Byte offset of `position`.
    offset: usize,
    /// Byte offset of `start`.
    start_offset: usize,
}

impl Lexer {
    #[verifier::type_invariant]
    closed spec fn inv(&self) -> bool {
        &&& self.chars@ == self.source@
        &&& byte_offset(self.source@, self.source@.len() as int) <= usize::MAX
    }

    /// The text that this lexer scans.
    pub closed spec fn source(&self) -> Seq<char> {
        self.source@
    }

    /// The entries emitted so far.
    pub closed spec fn items(&self) -> Seq<Result<Token, LexError>> {
        self.tokens@
    }

    /// The cursor and the token start are inside the source, and the byte
    /// offsets kept beside them are theirs.
    closed spec fn in_step(&self) -> bool {
        &&& self.start <= self.position <= self.source@.len()
        &&& self.offset == byte_offset(self.source@, self.position as int)
        &&& self.start_offset == byte_offset(self.source@, self.start as int)
    }

    /// Everything but the cursor is as in `other`.
    closed spec fn same_but_cursor(&self, other: &Lexer) -> bool {
        &&& self.source == other.source
        &&& self.chars == other.chars
        &&& self.tokens == other.tokens
        &&& self.start == other.start
        &&& self.start_offset == other.start_offset
    }

    /// A lexer for `source`, with nothing scanned yet.
    pub fn new(source: &str) -> (lexer: Lexer)
        ensures
            lexer.source() == source@,
            lexer.items().len() == 0,
    {
        let mut chars: Vec<char> = Vec::new();
        for c in it: source.chars()
            invariant
                chars@ == source@.take(it.index()),
                it.seq() == source@,
        {
            chars.push(c);
        }
        let byte_len: usize = source.as_bytes().len();
        proof {
            assert(source@.take(source@.len() as int) =~= source@);
            assert(chars@ =~= source@);
        }
        Lexer {
            source: source.to_owned(),
            chars,
            tokens: Vec::new(),
            position: 0,
            start: 0,
            offset: 0,
            start_offset: 0,
        }
    }

    /// Reads one character.
    fn bump(&mut self)
        requires
            old(self).in_step(),
            old(self).position < old(self).source@.len(),
        ensures
            final(self).in_step(),
            final(self).position == old(self).position + 1,
            final(self).same_but_cursor(old(self)),
    {
        proof {
            use_type_invariant(&*self);
            lemma_offset_step(self.source@, self.position as int);
            lemma_offset_monotone(
                self.source@,
                self.position + 1,
                self.source@.len() as int,
            );
        }
        let n: usize = self.chars.len();
        let c: char = self.chars[self.position];
        self.offset = self.offset + char_width(c);
        assert(self.position < n);
        self.position = self.position + 1;
    }

    /// The next character, if one is left.
    fn peek(&self) -> (next: Option<char>)
        requires
            self.in_step(),
        ensures
            next == if self.position < self.source@.len() {
                Some(self.source@[self.position as int])
            } else {
                None::<char>
            },
    {
        proof {
            use_type_invariant(self);
        }
        if self.position < self.chars.len() {
            Some(self.chars[self.position])
        } else {
            None
        }
    }

    /// Reads the next character if it is `expected`.
    fn match_char(&mut self, expected: char) -> (matched: bool)
        requires
            old(self).in_step(),
        ensures
            final(self).in_step(),
            final(self).same_but_cursor(old(self)),
            matched == (old(self).position < old(self).source@.len() && old(self).source@[old(
                self,
            ).position as int] == expected),
            final(self).position == if matched {
                old(self).position + 1
            } else {
                old(self).position as int
            },
    {
        let next = match self.peek() {
            None => return false,
            Some(c) => c,
        };
        if next == expected {
            self.bump();
            true
        } else {
            false
        }
    }

    /// Reads the run of `class` characters that begins at the cursor.
    fn skip_run(&mut self, class: CharClass)
        requires
            old(self).in_step(),
        ensures
            final(self).in_step(),
            final(self).same_but_cursor(old(self)),
            final(self).position == run_end(old(self).source@, old(self).position as int, class),
    {
        proof {
            use_type_invariant(&*self);
        }
        let n: usize = self.chars.len();
        while self.position < n && class.test(self.chars[self.position])
            invariant
                self.in_step(),
                self.same_but_cursor(old(self)),
                n == self.source@.len(),
                self.chars@ == self.source@,
                old(self).position <= self.position,
                run_end(self.source@, self.position as int, class) == run_end(
                    old(self).source@,
                    old(self).position as int,
                    class,
                ),
            decreases n - self.position,
        {
            self.bump();
        }
    }

    /// The token of `kind` whose payload is the text from `from` to `to`, and
    /// whose span is that of the text from the token start to the cursor.
    fn create_token_with(&self, kind: TokenKind, from: usize, to: usize) -> (token: Token)
        requires
            self.in_step(),
            from <= to <= self.source@.len(),
        ensures
            token@ == (TokenView {
                kind,
                span: span_between(self.source@, self.start as int, self.position as int),
                literal: self.source@.subrange(from as int, to as int),
            }),
    {
        proof {
            lemma_offset_monotone(self.source@, self.start as int, self.position as int);
        }
        let literal: String = self.source.as_str().substring_char(from, to).to_owned();
        Token {
            token_kind: kind,
            span: Span { offset: self.start_offset, len: self.offset - self.start_offset },
            literal,
        }
    }

    /// The token of `kind` made of the text from the token start to the cursor.
    fn create_token(&self, kind: TokenKind) -> (token: Token)
        requires
            self.in_step(),
        ensures
            token@ == (TokenView {
                kind,
                span: span_between(self.source@, self.start as int, self.position as int),
                literal: self.source@.subrange(self.start as int, self.position as int),
            }),
    {
        self.create_token_with(kind, self.start, self.position)
    }

    /// The diagnostic of `kind` for the text from the token start to the cursor.
    fn create_error(&self, kind: LexErrorKind) -> (error: LexError)
        requires
            self.in_step(),
        ensures
            error@ == (LexErrorView {
                src: self.source@,
                span: span_between(self.source@, self.start as int, self.position as int),
                kind,
            }),
    {
        proof {
            lemma_offset_monotone(self.source@, self.start as int, self.position as int);
        }
        LexError {
            src: self.source.clone(),
            span: Span { offset: self.start_offset, len: self.offset - self.start_offset },
            kind,
        }
    }

    /// Reads what stands at the cursor: a token, a comment, white space, or a
    /// character that begins no token.
    #[verifier::rlimit(50)]
    fn next_item(&mut self) -> (item: Option<Result<Token, LexError>>)
        requires
            old(self).in_step(),
            old(self).position < old(self).source@.len(),
        ensures
            final(self).in_step(),
            final(self).source == old(self).source,
            final(self).chars == old(self).chars,
            final(self).tokens == old(self).tokens,
            final(self).position == scan_step(old(self).source@, old(self).position as int).next,
            match item {
                Some(it) => scan_step(old(self).source@, old(self).position as int).item == Some(
                    item_view(it),
                ),
                None => scan_step(old(self).source@, old(self).position as int).item is None,
            },
    {
        proof {
            use_type_invariant(&*self);
        }
        self.start = self.position;
        self.start_offset = self.offset;
        let ghost src = self.source@;
        let n: usize = self.chars.len();
        let ghost i = self.position as int;
        let ghost step = scan_step(src, i);
        proof {
            lemma_step_advances(src, i);
            lemma_run_end_bounds(src, i + 1, CharClass::NotQuote);
            lemma_run_end_bounds(src, i + 1, CharClass::Digit);
            if i + 2 <= src.len() {
                lemma_run_end_bounds(src, i + 2, CharClass::NotNewline);
            }
        }
        let c: char = self.chars[self.position];
        self.bump();
        let item: Option<Result<Token, LexError>> = if c == '(' {
            Some(Ok(self.create_token(TokenKind::LeftParen)))
        } else if c == ')' {
            Some(Ok(self.create_token(TokenKind::RightParen)))
        } else if c == '{' {
            Some(Ok(self.create_token(TokenKind::LeftBrace)))
        } else if c == '}' {
            Some(Ok(self.create_token(TokenKind::RightBrace)))
        } else if c == ',' {
            Some(Ok(self.create_token(TokenKind::Comma)))
        } else if c == '.' {
            Some(Ok(self.create_token(TokenKind::Dot)))
        } else if c == '-' {
            Some(Ok(self.create_token(TokenKind::Minus)))
        } else if c == '+' {
            Some(Ok(self.create_token(TokenKind::Plus)))
        } else if c == ';' {
            Some(Ok(self.create_token(TokenKind::Semicolon)))
        } else if c == '*' {
            Some(Ok(self.create_token(TokenKind::Star)))
        } else if c == '/' {
            if self.match_char('/') {
                self.skip_run(CharClass::NotNewline);
                let _ = self.match_char('\n');
                None
            } else {
                Some(Ok(self.create_token(TokenKind::Slash)))
            }
        } else if c == '!' {
            if self.match_char('=') {
                Some(Ok(self.create_token(TokenKind::BangEqual)))
            } else {
                Some(Ok(self.create_token(TokenKind::Bang)))
            }
        } else if c == '=' {
            if self.match_char('=') {
                Some(Ok(self.create_token(TokenKind::EqualEqual)))
            } else {
                Some(Ok(self.create_token(TokenKind::Equal)))
            }
        } else if c == '<' {
            if self.match_char('=') {
                Some(Ok(self.create_token(TokenKind::LessEqual)))
            } else {
                Some(Ok(self.create_token(TokenKind::Less)))
            }
        } else if c == '>' {
            if self.match_char('=') {
                Some(Ok(self.create_token(TokenKind::GreaterEqual)))
            } else {
                Some(Ok(self.create_token(TokenKind::Greater)))
            }
        } else if c == '"' {
            let after_quote: usize = self.position;
            let after_offset: usize = self.offset;
            self.skip_run(CharClass::NotQuote);
            if self.position < n {
                let quote: usize = self.position;
                self.bump();
                Some(Ok(self.create_token_with(TokenKind::String, self.start + 1, quote)))
            } else {
                let error = self.create_error(LexErrorKind::UnterminatedString);
                self.position = after_quote;
                self.offset = after_offset;
                Some(Err(error))
            }
        } else if test_digit(c) {
            self.skip_run(CharClass::Digit);
            if n - self.position >= 2 && self.chars[self.position] == '.' && test_digit(
                self.chars[self.position + 1],
            ) {
                self.bump();
                self.skip_run(CharClass::Digit);
            }
            Some(Ok(self.create_token(TokenKind::Number)))
        } else if test_ident_start(c) {
            self.skip_run(CharClass::IdentPart);
            let mut token = self.create_token(TokenKind::Ident);
            match keyword(token.literal.as_str()) {
                Some(kind) => {
                    token.token_kind = kind;
                },
                None => {},
            }
            Some(Ok(token))
        } else if c == ' ' || c == '\r' || c == '\t' || c == '\n' {
            None
        } else {
            Some(Err(self.create_error(LexErrorKind::UnexpectedCharacter { found: c })))
        };
        item
    }

    /// Scans the whole source and returns the entries: the tokens and, where
    /// something could not be read, the diagnostics, in source order, closed
    /// by the end-of-input marker.
    #[verifier::rlimit(50)]
    pub fn lex(&mut self) -> (items: &Vec<Result<Token, LexError>>)
        ensures
            final(self).source() == old(self).source(),
            final(self).items() == items@,
            items_view(items@) == spec_lex(old(self).source()),
            1 <= items@.len() <= old(self).source().len() + 1,
            item_view(items@.last()) == Ok::<TokenView, LexErrorView>(
                eof_token(old(self).source()),
            ),
            forall|k: int| 0 <= k < items@.len() - 1 ==> !is_eof(item_view(#[trigger] items@[k])),
    {
        proof {
            use_type_invariant(&*self);
        }
        let ghost src = self.source@;
        let mut out: Vec<Result<Token, LexError>> = Vec::new();
        self.position = 0;
        self.start = 0;
        self.offset = 0;
        self.start_offset = 0;
        let n: usize = self.chars.len();
        proof {
            assert(src.take(0) =~= Seq::<char>::empty());
            assert(items_view(out@) + scan(src, 0) =~= scan(src, 0));
        }
        while self.position < n
            invariant
                self.source@ == src,
                self.chars@ == src,
                n == src.len(),
                byte_offset(src, src.len() as int) <= usize::MAX,
                self.in_step(),
                items_view(out@) + scan(src, self.position as int) == scan(src, 0),
            decreases n - self.position,
        {
            let ghost i = self.position as int;
            let ghost step = scan_step(src, i);
            proof {
                lemma_step_advances(src, i);
            }
            let item = self.next_item();
            match item {
                Some(it) => {
                    let ghost before = out@;
                    out.push(it);
                    proof {
                        assert(items_view(out@) =~= items_view(before).push(item_view(it)));
                        assert(items_view(out@) + scan(src, step.next) =~= items_view(
                            before,
                        ) + scan(src, i));
                    }
                },
                None => {},
            }
        }
        let ghost before = out@;
        let marker = Token {
            token_kind: TokenKind::EOF,
            span: Span { offset: self.offset, len: 0 },
            literal: String::new(),
        };
        out.push(Ok(marker));
        proof {
            assert(items_view(out@) =~= items_view(before).push(Ok(marker@)));
            assert(items_view(out@) =~= scan(src, 0));
            lemma_scan_shape(src, 0);
            assert forall|k: int| 0 <= k < out@.len() - 1 implies !is_eof(
                item_view(#[trigger] out@[k]),
            ) by {
                assert(scan(src, 0)[k] == item_view(out@[k]));
            }
        }
        self.tokens = out;
        &self.tokens
    }

    /// The tokens among the entries emitted so far, in order. After
    /// [`Lexer::lex`] they are what the parser takes.
    pub fn get_tokens(&self) -> (tokens: Vec<Token>)
        ensures
            token_views(tokens@) == tokens_of(items_view(self.items())),
            items_view(self.items()) == spec_lex(self.source()) ==> stream_well_formed(tokens@),
    {
        proof {
            use_type_invariant(self);
        }
        let ghost all = items_view(self.tokens@);
        let ghost lexed = all == spec_lex(self.source@);
        let mut tokens: Vec<Token> = Vec::new();
        let n: usize = self.tokens.len();
        let mut i: usize = 0;
        proof {
            assert(all.take(0) =~= Seq::<LexItemView>::empty());
            assert(token_views(tokens@) =~= tokens_of(all.take(0)));
            if lexed {
                lemma_scan_spans_bounded(self.source@, 0);
            }
        }
        while i < n
            invariant
                i <= n,
                n == self.tokens@.len(),
                all == items_view(self.tokens@),
                token_views(tokens@) == tokens_of(all.take(i as int)),
                lexed ==> forall|k: int|
                    0 <= k < all.len() ==> (#[trigger] all[k] matches Ok(t) ==> t.span.bounded()),
                lexed ==> forall|k: int|
                    0 <= k < tokens@.len() ==> (#[trigger] tokens@[k]).span.bounded(),
            decreases n - i,
        {
            proof {
                assert(all.take(i + 1).drop_last() =~= all.take(i as int));
                assert(all.take(i + 1).last() == all[i as int]);
            }
            match &self.tokens[i] {
                Ok(token) => {
                    let ghost before = tokens@;
                    let copy = Token {
                        token_kind: token.token_kind,
                        span: token.span,
                        literal: token.literal.clone(),
                    };
                    tokens.push(copy);
                    proof {
                        assert(token_views(tokens@) =~= token_views(before).push(token@));
                    }
                },
                Err(_) => {},
            }
            i += 1;
        }
        proof {
            assert(all.take(n as int) =~= all);
            if lexed {
                lemma_scan_shape(self.source@, 0);
                assert(token_views(tokens@).last().kind == TokenKind::EOF);
            }
        }
        tokens
    }

    /// The diagnostics among the entries emitted so far, in order.
    pub fn get_errors(&self) -> (errors: Vec<LexError>)
        ensures
            error_views(errors@) == errors_of(items_view(self.items())),
    {
        let ghost all = items_view(self.tokens@);
        let mut errors: Vec<LexError> = Vec::new();
        let n: usize = self.tokens.len();
        let mut i: usize = 0;
        proof {
            assert(all.take(0) =~= Seq::<LexItemView>::empty());
            assert(error_views(errors@) =~= errors_of(all.take(0)));
        }
        while i < n
            invariant
                i <= n,
                n == self.tokens@.len(),
                all == items_view(self.tokens@),
                error_views(errors@) == errors_of(all.take(i as int)),
            decreases n - i,
        {
            proof {
                assert(all.take(i + 1).drop_last() =~= all.take(i as int));
                assert(all.take(i + 1).last() == all[i as int]);
            }
            match &self.tokens[i] {
                Ok(_) => {},
                Err(error) => {
                    let ghost before = errors@;
                    let copy = LexError {
                        src: error.src.clone(),
                        span: error.span,
                        kind: error.kind,
                    };
                    errors.push(copy);
                    proof {
                        assert(error_views(errors@) =~= error_views(before).push(error@));
                    }
                },
            }
            i += 1;
        }
        proof {
            assert(all.take(n as int) =~= all);
        }
        errors
    }
}

} // verus!
