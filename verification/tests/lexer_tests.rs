use rslox::error::{LexError, LexErrorKind};
use rslox::lexer::Lexer;
use rslox::span::Span;
use rslox::token::{Token, TokenKind};

fn lex(source: &str) -> Vec<Result<Token, LexError>> {
    let mut lexer = Lexer::new(source);
    lexer.lex().clone()
}

fn tokens(source: &str) -> Vec<Token> {
    let mut lexer = Lexer::new(source);
    lexer.lex();
    lexer.get_tokens()
}

fn kinds(source: &str) -> Vec<TokenKind> {
    tokens(source).iter().map(|t| t.token_kind).collect()
}

fn errors(source: &str) -> Vec<LexError> {
    let mut lexer = Lexer::new(source);
    lexer.lex();
    lexer.get_errors()
}

fn span(offset: usize, len: usize) -> Span {
    Span { offset, len }
}

#[test]
fn empty_source_gives_only_the_marker() {
    let items = lex("");
    assert_eq!(items.len(), 1);
    let marker = items[0].as_ref().unwrap();
    assert_eq!(marker.token_kind, TokenKind::EOF);
    assert_eq!(marker.span, span(0, 0));
    assert_eq!(marker.literal, "");
}

#[test]
fn marker_ends_every_scan() {
    for source in ["", "var x = 1;", "\"open", "@@@", "// only a comment", "a\n", "(((", "é"] {
        let items = lex(source);
        let last = items.last().unwrap().as_ref().unwrap();
        assert_eq!(last.token_kind, TokenKind::EOF);
        assert_eq!(last.span, span(source.len(), 0));
        let markers = items
            .iter()
            .filter(|item| matches!(item, Ok(t) if t.token_kind == TokenKind::EOF))
            .count();
        assert_eq!(markers, 1);
        assert!(items.len() <= source.chars().count() + 1);
    }
}

#[test]
fn single_character_tokens() {
    assert_eq!(
        kinds("(){},.-+;/*"),
        vec![
            TokenKind::LeftParen,
            TokenKind::RightParen,
            TokenKind::LeftBrace,
            TokenKind::RightBrace,
            TokenKind::Comma,
            TokenKind::Dot,
            TokenKind::Minus,
            TokenKind::Plus,
            TokenKind::Semicolon,
            TokenKind::Slash,
            TokenKind::Star,
            TokenKind::EOF,
        ]
    );
}

#[test]
fn operators_of_one_and_two_characters() {
    assert_eq!(
        kinds("! != = == < <= > >="),
        vec![
            TokenKind::Bang,
            TokenKind::BangEqual,
            TokenKind::Equal,
            TokenKind::EqualEqual,
            TokenKind::Less,
            TokenKind::LessEqual,
            TokenKind::Greater,
            TokenKind::GreaterEqual,
            TokenKind::EOF,
        ]
    );
    let toks = tokens("a<=b");
    assert_eq!(toks[1].token_kind, TokenKind::LessEqual);
    assert_eq!(toks[1].span, span(1, 2));
    assert_eq!(toks[1].literal, "<=");
    assert_eq!(toks[2].span, span(3, 1));
}

#[test]
fn operator_at_the_end_of_the_source() {
    assert_eq!(kinds("!"), vec![TokenKind::Bang, TokenKind::EOF]);
    assert_eq!(kinds("="), vec![TokenKind::Equal, TokenKind::EOF]);
    assert_eq!(kinds("=!"), vec![TokenKind::Equal, TokenKind::Bang, TokenKind::EOF]);
}

#[test]
fn comments_run_to_the_end_of_the_line() {
    assert_eq!(kinds("// nothing here"), vec![TokenKind::EOF]);
    let toks = tokens("a // b c\nd");
    assert_eq!(toks.len(), 3);
    assert_eq!(toks[0].literal, "a");
    assert_eq!(toks[1].literal, "d");
    assert_eq!(toks[1].span, span(9, 1));
    assert_eq!(kinds("1 / 2"), vec![TokenKind::Number, TokenKind::Slash, TokenKind::Number, TokenKind::EOF]);
}

#[test]
fn string_literal_holds_the_text_between_the_quotes() {
    let toks = tokens("\"hi there\" x");
    assert_eq!(toks[0].token_kind, TokenKind::String);
    assert_eq!(toks[0].literal, "hi there");
    assert_eq!(toks[0].span, span(0, 10));
    assert_eq!(toks[1].token_kind, TokenKind::Ident);
    assert_eq!(toks[1].span, span(11, 1));
}

#[test]
fn string_literal_knows_no_escapes() {
    let toks = tokens("\"a\\\" b");
    assert_eq!(toks[0].token_kind, TokenKind::String);
    assert_eq!(toks[0].literal, "a\\");
    assert_eq!(toks[1].literal, "b");
}

#[test]
fn empty_string_literal() {
    let toks = tokens("\"\"");
    assert_eq!(toks[0].token_kind, TokenKind::String);
    assert_eq!(toks[0].literal, "");
    assert_eq!(toks[0].span, span(0, 2));
}

#[test]
fn unterminated_string_is_reported_to_the_end_of_the_source() {
    let items = lex("x \"abc");
    assert!(matches!(&items[0], Ok(t) if t.token_kind == TokenKind::Ident));
    match &items[1] {
        Err(e) => {
            assert_eq!(e.kind, LexErrorKind::UnterminatedString);
            assert_eq!(e.span, span(2, 4));
            assert_eq!(e.src, "x \"abc");
        }
        Ok(_) => panic!("a token where a diagnostic was due"),
    }
    match &items[2] {
        Ok(t) => {
            assert_eq!(t.token_kind, TokenKind::Ident);
            assert_eq!(t.literal, "abc");
            assert_eq!(t.span, span(3, 3));
        }
        Err(_) => panic!("the scan did not go on behind the quote"),
    }
    assert_eq!(items.len(), 4);
}

#[test]
fn identifiers_are_greedy() {
    let toks = tokens("_a1b2 zZ");
    assert_eq!(toks[0].token_kind, TokenKind::Ident);
    assert_eq!(toks[0].literal, "_a1b2");
    assert_eq!(toks[0].span, span(0, 5));
    assert_eq!(toks[1].token_kind, TokenKind::Ident);
    assert_eq!(toks[1].literal, "zZ");
}

#[test]
fn identifiers_are_ascii_only() {
    let items = lex("aé");
    assert!(matches!(&items[0], Ok(t) if t.literal == "a"));
    assert!(matches!(&items[1], Err(e) if e.kind == LexErrorKind::UnexpectedCharacter { found: 'é' }));
}

#[test]
fn keywords_have_kinds_of_their_own() {
    assert_eq!(
        kinds("and else false for fun if nil or print return true var while"),
        vec![
            TokenKind::And,
            TokenKind::Else,
            TokenKind::False,
            TokenKind::For,
            TokenKind::Fun,
            TokenKind::If,
            TokenKind::Nil,
            TokenKind::Or,
            TokenKind::Print,
            TokenKind::Return,
            TokenKind::True,
            TokenKind::Var,
            TokenKind::While,
            TokenKind::EOF,
        ]
    );
    assert_eq!(kinds("variable iff For"), vec![TokenKind::Ident, TokenKind::Ident, TokenKind::Ident, TokenKind::EOF]);
}

#[test]
fn numbers_with_and_without_fraction() {
    let toks = tokens("12 3.25 7. .5");
    assert_eq!(toks[0].token_kind, TokenKind::Number);
    assert_eq!(toks[0].literal, "12");
    assert_eq!(toks[1].token_kind, TokenKind::Number);
    assert_eq!(toks[1].literal, "3.25");
    assert_eq!(toks[1].span, span(3, 4));
    assert_eq!(toks[2].token_kind, TokenKind::Number);
    assert_eq!(toks[2].literal, "7");
    assert_eq!(toks[3].token_kind, TokenKind::Dot);
    assert_eq!(toks[4].token_kind, TokenKind::Dot);
    assert_eq!(toks[5].token_kind, TokenKind::Number);
    assert_eq!(toks[5].literal, "5");
}

#[test]
fn number_directly_before_a_word() {
    let toks = tokens("1x");
    assert_eq!(toks[0].token_kind, TokenKind::Number);
    assert_eq!(toks[0].literal, "1");
    assert_eq!(toks[1].token_kind, TokenKind::Ident);
    assert_eq!(toks[1].literal, "x");
    assert_eq!(toks[1].span, span(1, 1));
}

#[test]
fn whitespace_is_skipped() {
    let toks = tokens(" \t\r\n a \n");
    assert_eq!(toks.len(), 2);
    assert_eq!(toks[0].span, span(5, 1));
    assert_eq!(toks[1].span, span(8, 0));
}

#[test]
fn unexpected_character_is_reported_and_passed() {
    let items = lex("a @ b");
    assert_eq!(items.len(), 4);
    match &items[1] {
        Err(e) => {
            assert_eq!(e.kind, LexErrorKind::UnexpectedCharacter { found: '@' });
            assert_eq!(e.span, span(2, 1));
            assert_eq!(e.src, "a @ b");
        }
        Ok(_) => panic!("a token where a diagnostic was due"),
    }
    assert!(matches!(&items[2], Ok(t) if t.literal == "b"));
    assert_eq!(kinds("? :"), vec![TokenKind::EOF]);
    assert_eq!(errors("? :").len(), 2);
}

#[test]
fn spans_count_bytes() {
    let items = lex("é;\"ü\"x€y");
    match &items[0] {
        Err(e) => assert_eq!(e.span, span(0, 2)),
        Ok(_) => panic!("a token where a diagnostic was due"),
    }
    let toks = tokens("é;\"ü\"x€y");
    assert_eq!(toks[0].token_kind, TokenKind::Semicolon);
    assert_eq!(toks[0].span, span(2, 1));
    assert_eq!(toks[1].token_kind, TokenKind::String);
    assert_eq!(toks[1].literal, "ü");
    assert_eq!(toks[1].span, span(3, 4));
    assert_eq!(toks[2].literal, "x");
    assert_eq!(toks[2].span, span(7, 1));
    assert_eq!(toks[3].literal, "y");
    assert_eq!(toks[3].span, span(11, 1));
    assert_eq!(toks[4].span, span(12, 0));
    let four = lex("\u{1F600}");
    assert!(matches!(&four[0], Err(e) if e.span == span(0, 4)));
}

#[test]
fn tokens_and_errors_are_told_apart() {
    let source = "var a = \"x; @";
    assert_eq!(errors(source).len(), 2);
    assert_eq!(
        kinds(source),
        vec![
            TokenKind::Var,
            TokenKind::Ident,
            TokenKind::Equal,
            TokenKind::Ident,
            TokenKind::Semicolon,
            TokenKind::EOF,
        ]
    );
}

#[test]
fn a_second_scan_gives_the_same_entries() {
    let mut lexer = Lexer::new("a + b");
    let first = lexer.lex().len();
    let second = lexer.lex().len();
    assert_eq!(first, 4);
    assert_eq!(second, 4);
}

#[test]
fn help_texts() {
    assert_eq!(LexErrorKind::UnterminatedString.help(), "string starts here but never closes");
    assert_eq!(LexErrorKind::UnexpectedCharacter { found: '#' }.help(), "unexpected character");
}

#[test]
fn a_long_source_is_scanned() {
    let mut source = String::new();
    for _ in 0..200 {
        source.push_str("var x = 1 + 2; // note\n");
    }
    let toks = tokens(&source);
    assert_eq!(toks.len(), 200 * 7 + 1);
}
