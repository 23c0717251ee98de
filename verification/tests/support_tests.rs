use rslox::ast::{DelimiterKind, Typed};
use rslox::lexer::{char_width, test_digit, test_ident_part, test_ident_start, CharClass};
use rslox::resolver::{Binding, Symbol};
use rslox::scope::{clone_idents, find_binding};
use rslox::span::Span;
use rslox::token::{keyword, same_text, TokenKind};

#[test]
fn span_is_an_offset_and_a_length() {
    let span = Span::new(3, 4);
    assert_eq!(span, Span { offset: 3, len: 4 });
}

#[test]
fn widths_of_characters_in_bytes() {
    assert_eq!(char_width('a'), 1);
    assert_eq!(char_width('\u{7f}'), 1);
    assert_eq!(char_width('\u{80}'), 2);
    assert_eq!(char_width('\u{7ff}'), 2);
    assert_eq!(char_width('\u{800}'), 3);
    assert_eq!(char_width('\u{ffff}'), 3);
    assert_eq!(char_width('\u{10000}'), 4);
    assert_eq!(char_width('\u{10ffff}'), 4);
    for c in ['x', 'é', '€', '😀'] {
        assert_eq!(char_width(c), c.len_utf8());
    }
}

#[test]
fn classes_of_characters() {
    assert!(test_digit('0') && test_digit('9') && !test_digit('a') && !test_digit('/'));
    assert!(test_ident_start('a') && test_ident_start('z') && test_ident_start('A'));
    assert!(test_ident_start('Z') && test_ident_start('_') && !test_ident_start('1'));
    assert!(!test_ident_start('é') && !test_ident_start('-'));
    assert!(test_ident_part('5') && test_ident_part('q') && !test_ident_part(' '));
    assert!(CharClass::IdentPart.test('_') && !CharClass::IdentPart.test('.'));
    assert!(CharClass::Digit.test('7') && !CharClass::Digit.test('x'));
    assert!(CharClass::NotNewline.test('x') && !CharClass::NotNewline.test('\n'));
    assert!(CharClass::NotQuote.test('\n') && !CharClass::NotQuote.test('"'));
}

#[test]
fn texts_are_compared_character_by_character() {
    assert!(same_text("", ""));
    assert!(same_text("while", "while"));
    assert!(!same_text("while", "whilE"));
    assert!(!same_text("whil", "while"));
    assert!(!same_text("é", "e"));
}

#[test]
fn keywords_are_looked_up() {
    assert_eq!(keyword("and"), Some(TokenKind::And));
    assert_eq!(keyword("while"), Some(TokenKind::While));
    assert_eq!(keyword("nil"), Some(TokenKind::Nil));
    assert_eq!(keyword("While"), None);
    assert_eq!(keyword("class"), None);
    assert_eq!(keyword(""), None);
}

#[test]
fn delimiters_and_their_tokens() {
    assert_eq!(DelimiterKind::Paren.open_token(), TokenKind::LeftParen);
    assert_eq!(DelimiterKind::Paren.close_token(), TokenKind::RightParen);
    assert_eq!(DelimiterKind::Brace.open_token(), TokenKind::LeftBrace);
    assert_eq!(DelimiterKind::Brace.close_token(), TokenKind::RightBrace);
}

#[test]
fn a_fresh_node_has_no_type() {
    let node = Typed::new(7u8, Span { offset: 1, len: 2 });
    assert_eq!(node.node, 7);
    assert_eq!(node.span, Span { offset: 1, len: 2 });
    assert!(node.type_id.is_none());
}

#[test]
fn names_are_copied() {
    let names = vec![
        Typed::new("a".to_string(), Span { offset: 0, len: 1 }),
        Typed::new("bc".to_string(), Span { offset: 2, len: 2 }),
    ];
    let copy = clone_idents(&names);
    assert_eq!(copy.len(), 2);
    assert_eq!(copy[0].node, "a");
    assert_eq!(copy[1].node, "bc");
    assert_eq!(copy[1].span, Span { offset: 2, len: 2 });
    assert!(clone_idents(&Vec::new()).is_empty());
}

#[test]
fn the_last_binding_of_a_name_counts() {
    let scope = vec![
        Binding { name: "x".to_string(), symbol: Symbol::Variable { initialized: false } },
        Binding { name: "f".to_string(), symbol: Symbol::Function { params: Vec::new() } },
        Binding { name: "x".to_string(), symbol: Symbol::Variable { initialized: true } },
    ];
    assert_eq!(find_binding(&scope, &"x".to_string()), Some(2));
    assert_eq!(find_binding(&scope, &"f".to_string()), Some(1));
    assert_eq!(find_binding(&scope, &"y".to_string()), None);
    assert_eq!(find_binding(&Vec::new(), &"x".to_string()), None);
    assert!(matches!(scope[2].symbol, Symbol::Variable { initialized: true }));
}
