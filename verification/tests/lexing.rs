use std::rc::Rc;

use adze::lexer::{lex_source, Token, TokenType};
use adze::parse_error::ParseError;
use adze::source::Source;

fn lex_text(text: &str) -> Result<Vec<Token>, Vec<ParseError>> {
    let source = Rc::new(Source::from_text(
        None,
        String::from("test.adze"),
        String::from(text),
    ));
    lex_source(source)
}

#[test]
fn single_identifier_spans_whole_input() {
    let tokens = lex_text("abc").unwrap();
    assert_eq!(tokens.len(), 1);
    assert_eq!(tokens[0].token_type, TokenType::Identifier);
    assert_eq!(tokens[0].text, "abc");
    assert_eq!(tokens[0].loc.line, 0);
    assert_eq!(tokens[0].loc.offset, 0);
    assert_eq!(tokens[0].loc.length, 3);
    assert!(!tokens[0].leading_ws);
}

#[test]
fn underscore_identifier() {
    let tokens = lex_text("_x1").unwrap();
    assert_eq!(tokens.len(), 1);
    assert_eq!(tokens[0].token_type, TokenType::Identifier);
    assert_eq!(tokens[0].text, "_x1");
    assert_eq!(tokens[0].loc.length, 3);
}

#[test]
fn keywords_lex_to_keyword_kinds() {
    let cases = [
        ("while", TokenType::While),
        ("if", TokenType::If),
        ("return", TokenType::Return),
        ("trait", TokenType::Trait),
        ("fn", TokenType::Fn),
        ("for", TokenType::For),
        ("is", TokenType::Is),
        ("import", TokenType::Import),
        ("struct", TokenType::Struct),
    ];
    for (text, kind) in cases {
        let tokens = lex_text(text).unwrap();
        assert_eq!(tokens.len(), 1, "keyword {}", text);
        assert_eq!(tokens[0].token_type, kind, "keyword {}", text);
        assert_ne!(tokens[0].token_type, TokenType::Identifier);
        assert_eq!(tokens[0].text, text);
        assert_eq!(tokens[0].loc.offset, 0);
        assert_eq!(tokens[0].loc.length, text.len());
    }
}

#[test]
fn keyword_prefix_is_identifier() {
    let tokens = lex_text("whileX").unwrap();
    assert_eq!(tokens.len(), 1);
    assert_eq!(tokens[0].token_type, TokenType::Identifier);
}

#[test]
fn qualified_name_tokens() {
    let tokens = lex_text("a::b").unwrap();
    let kinds: Vec<TokenType> = tokens.iter().map(|t| t.token_type).collect();
    assert_eq!(
        kinds,
        vec![
            TokenType::Identifier,
            TokenType::Colon,
            TokenType::Colon,
            TokenType::Identifier,
        ]
    );
    assert_eq!(tokens[0].text, "a");
    assert_eq!(tokens[3].text, "b");
    // no internal whitespace: neither colon nor `b` is whitespace-preceded
    assert!(!tokens[1].leading_ws);
    assert!(!tokens[2].leading_ws);
    assert!(!tokens[3].leading_ws);
}

#[test]
fn integer_token() {
    let tokens = lex_text("12345").unwrap();
    assert_eq!(tokens.len(), 1);
    assert_eq!(tokens[0].token_type, TokenType::Integer);
    assert_eq!(tokens[0].text, "12345");
    assert_eq!(tokens[0].loc.length, 5);
}

#[test]
fn symbols_lex_one_character_each() {
    let tokens = lex_text("<>()[]{}+-*/%=~&|!?.,;:").unwrap();
    let kinds: Vec<TokenType> = tokens.iter().map(|t| t.token_type).collect();
    assert_eq!(
        kinds,
        vec![
            TokenType::LeftAngle,
            TokenType::RightAngle,
            TokenType::LeftParenthesis,
            TokenType::RightParenthesis,
            TokenType::LeftBracket,
            TokenType::RightBracket,
            TokenType::LeftBrace,
            TokenType::RightBrace,
            TokenType::Plus,
            TokenType::Minus,
            TokenType::Star,
            TokenType::Slash,
            TokenType::Percent,
            TokenType::Equal,
            TokenType::Tilde,
            TokenType::Ampersand,
            TokenType::VerticalBar,
            TokenType::Exclamation,
            TokenType::Question,
            TokenType::Period,
            TokenType::Comma,
            TokenType::Semicolon,
            TokenType::Colon,
        ]
    );
    for (i, t) in tokens.iter().enumerate() {
        assert_eq!(t.loc.offset, i);
        assert_eq!(t.loc.length, 1);
    }
}

#[test]
fn whitespace_marks_following_token() {
    let tokens = lex_text("a b").unwrap();
    assert_eq!(tokens.len(), 2);
    assert!(!tokens[0].leading_ws);
    assert!(tokens[1].leading_ws);
}

#[test]
fn newline_advances_line_bookkeeping() {
    let tokens = lex_text("ab\ncd").unwrap();
    assert_eq!(tokens.len(), 2);
    assert_eq!(tokens[0].loc.line, 0);
    assert_eq!(tokens[0].loc.offset, 0);
    assert_eq!(tokens[1].loc.line, 1);
    assert_eq!(tokens[1].loc.offset, 0);
    assert!(tokens[1].leading_ws);
}

#[test]
fn unexpected_character_is_reported_once() {
    let errors = lex_text("@").unwrap_err();
    assert_eq!(errors.len(), 1);
    match &errors[0] {
        ParseError::UnexpectedCharacter(c, loc) => {
            assert_eq!(*c, '@');
            assert_eq!(loc.line, 0);
            assert_eq!(loc.offset, 0);
            assert_eq!(loc.length, 1);
        }
        _ => panic!("expected an unexpected-character diagnostic"),
    }
}

#[test]
fn lexing_continues_past_unexpected_character() {
    // one diagnostic for the one `@`, and the rest of the file is still scanned
    let errors = lex_text("a @ b\nc#d").unwrap_err();
    assert_eq!(errors.len(), 2);
    match &errors[0] {
        ParseError::UnexpectedCharacter(c, loc) => {
            assert_eq!(*c, '@');
            assert_eq!(loc.line, 0);
            assert_eq!(loc.offset, 2);
        }
        _ => panic!("expected an unexpected-character diagnostic"),
    }
    match &errors[1] {
        ParseError::UnexpectedCharacter(c, loc) => {
            assert_eq!(*c, '#');
            assert_eq!(loc.line, 1);
            assert_eq!(loc.offset, 1);
        }
        _ => panic!("expected an unexpected-character diagnostic"),
    }
}

#[test]
fn token_new_copies_text() {
    let source = Rc::new(Source::from_text(
        None,
        String::from("t"),
        String::from("x"),
    ));
    let loc = adze::source::Location::new(Rc::clone(&source), 0, 0, 1);
    let token = Token::new("x", TokenType::Identifier, loc, false);
    assert_eq!(token.text, "x");
    assert_eq!(token.token_type, TokenType::Identifier);
    assert!(!token.leading_ws);
}

#[test]
fn token_loc_range_covers_both() {
    let tokens = lex_text("ab cd").unwrap();
    let range = tokens[0].loc_range(&tokens[1]);
    assert_eq!(range.line, 0);
    assert_eq!(range.offset, 0);
    assert_eq!(range.length, 5);
    assert!(!range.multiline);
}
