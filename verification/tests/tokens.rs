//! Tests of the tokenizer's classification and of cursor positions.

use rulefmt::lexer::Lexer;
use rulefmt::lexer::Token;
use rulefmt::position::Position;

#[test]
fn keywords_need_a_separator() {
    let tokens = Lexer::new().lex(b"setx set y\n".to_vec()).expect("tokenize");
    assert!(matches!(tokens[0].token, Token::Identifier(_)));
    assert!(matches!(tokens[1].token, Token::KeywordSet));
    assert!(matches!(tokens[2].token, Token::Identifier(_)));
    assert!(matches!(tokens[3].token, Token::Newline));
}

#[test]
fn longest_keyword_wins() {
    let tokens = Lexer::new().lex(b"snatpool p\nsnat a b\n".to_vec()).expect("tokenize");
    assert!(matches!(tokens[0].token, Token::KeywordSnatPool));
    assert!(matches!(tokens[3].token, Token::KeywordSnat));
}

#[test]
fn every_line_ends_in_one_newline_token() {
    let tokens = Lexer::new().lex(b"set x 1\n\nset y 2\n".to_vec()).expect("tokenize");
    let newlines = tokens.iter().filter(|t| matches!(t.token, Token::Newline)).count();
    assert_eq!(newlines, 3);
}

#[test]
fn spacing_flags_mark_separated_tokens() {
    let tokens = Lexer::new().lex(b"$x > 1\n".to_vec()).expect("tokenize");
    assert!(!tokens[0].space_before);
    assert!(!tokens[1].space_before);
    assert!(tokens[2].space_before);
    assert!(tokens[3].space_before);
}

#[test]
fn unmatched_text_becomes_an_opaque_span() {
    let tokens = Lexer::new().lex(b"set x @weird, stuff\n".to_vec()).expect("tokenize");
    match &tokens[2].token {
        Token::Other(data) => assert_eq!(data.as_slice(), b"@weird, stuff"),
        t => panic!("expected an opaque span, got {:?}", t),
    }
}

#[test]
fn classification_covers_the_token_kinds() {
    assert!(Token::KeywordWhen.is_keyword());
    assert!(!Token::Colon.is_keyword());
    assert!(Token::Plus.is_operator());
    assert!(!Token::KeywordIf.is_operator());
    assert!(Token::Dollar.is_symbol());
    assert!(!Token::LParen.is_symbol());
    assert!(Token::LAngleBracket.is_bracket());
    assert!(!Token::Bang.is_bracket());
}

#[test]
fn token_text_reproduces_the_source_form() {
    assert_eq!(Token::KeywordSnatPool.text(), b"snatpool".to_vec());
    assert_eq!(Token::DoubleColon.text(), b"::".to_vec());
    assert_eq!(Token::Identifier(b"ab.c".to_vec()).text(), b"ab.c".to_vec());
    assert_eq!(Token::Newline.text(), b"\n".to_vec());
}

#[test]
fn carriage_returns_are_stripped_per_line() {
    let tokens = Lexer::new().lex(b"set x 1\r\nset y 2\r\n".to_vec()).expect("tokenize");
    assert!(tokens.iter().all(|t| !matches!(&t.token, Token::Other(_))));
    assert_eq!(tokens.len(), 8);
}

#[test]
fn position_tracks_lines_and_columns() {
    let mut p = Position::default();
    p.move_char();
    p.move_char();
    assert_eq!((p.line, p.column, p.idx), (0, 2, 2));
    p.move_sym(10);
    assert_eq!((p.line, p.column, p.idx), (1, 0, 3));
    p.move_sym(97);
    assert_eq!((p.line, p.column, p.idx), (1, 1, 4));
    p.move_line();
    assert_eq!((p.line, p.column, p.idx), (2, 0, 5));
}
