use std::rc::Rc;

use adze::error::{ErrorDisplay, ErrorSet, CompilerError};
use adze::lexer::TokenType;
use adze::parse_error::{token_type_name, ParseError};
use adze::source::{Location, Source};
use adze::text::{pad_left, parse_u64_digits, repeat_str, u64_to_string};

fn source_of(text: &str) -> Rc<Source> {
    Rc::new(Source::from_text(
        None,
        String::from("test.adze"),
        String::from(text),
    ))
}

#[test]
fn from_text_records_line_ranges() {
    let source = source_of("ab\ncd");
    assert_eq!(source.lines.len(), 2);
    assert_eq!(source.lines[0].start, 0);
    assert_eq!(source.lines[0].end, 3);
    assert_eq!(source.lines[1].start, 3);
    assert_eq!(source.lines[1].end, 5);
}

#[test]
fn trailing_newline_makes_empty_final_line() {
    let source = source_of("ab\n");
    assert_eq!(source.lines.len(), 2);
    assert_eq!(source.lines[1].start, 3);
    assert_eq!(source.lines[1].end, 3);
}

#[test]
fn get_line_returns_exact_text() {
    let source = source_of("ab\ncd");
    assert_eq!(source.get_line(0), "ab\n");
    assert_eq!(source.get_line(1), "cd");
}

#[test]
fn eof_location_points_past_last_character() {
    let source = source_of("ab\ncd");
    let loc = Location::new_eof(Rc::clone(&source));
    assert_eq!(loc.line, 1);
    assert_eq!(loc.offset, 5);
    assert_eq!(loc.length, 1);
    assert!(!loc.multiline);
}

#[test]
fn location_constructors_set_fields() {
    let source = source_of("abc");
    let single = Location::new(Rc::clone(&source), 1, 2, 3);
    assert!(!single.multiline);
    assert_eq!((single.line, single.offset, single.length), (1, 2, 3));
    let multi = Location::new_multiline(Rc::clone(&source), 1, 2, 3);
    assert!(multi.multiline);
}

#[test]
fn combine_uses_true_extent_of_both_spans() {
    // length must be max(a.end, b.end) - min(a.offset, b.offset)
    let source = source_of("a long single line of text");
    let a = Location::new(Rc::clone(&source), 0, 2, 3);
    let b = Location::new(Rc::clone(&source), 0, 10, 5);
    let c = a.combine(&b);
    assert_eq!(c.line, 0);
    assert_eq!(c.offset, 2);
    assert_eq!(c.length, 13);
    assert!(!c.multiline);
}

#[test]
fn combine_is_commutative_in_span() {
    let source = source_of("line one\nline two");
    let a = Location::new(Rc::clone(&source), 0, 5, 2);
    let b = Location::new(Rc::clone(&source), 1, 1, 3);
    let ab = a.combine(&b);
    let ba = b.combine(&a);
    assert_eq!(ab.line, ba.line);
    assert_eq!(ab.offset, ba.offset);
    assert_eq!(ab.length, ba.length);
    assert_eq!(ab.multiline, ba.multiline);
    assert_eq!(ab.line, 0);
    assert_eq!(ab.offset, 5);
    // ends are 7 and 4; offsets 5 and 1: length = 7 - 1
    assert_eq!(ab.length, 6);
    assert!(ab.multiline);
}

#[test]
fn combine_is_idempotent_for_single_line_spans() {
    let source = source_of("some text");
    let a = Location::new(Rc::clone(&source), 0, 3, 4);
    let c = a.combine(&a);
    assert_eq!(c.line, a.line);
    assert_eq!(c.offset, a.offset);
    assert_eq!(c.length, a.length);
    assert_eq!(c.multiline, a.multiline);
}

#[test]
fn error_with_location_renders_source_context() {
    let source = source_of("let x = 1;\n");
    let display = ErrorDisplay::new();
    let loc = Location::new(Rc::clone(&source), 0, 4, 1);
    let rendered = display.error_with_location("Error", "boom", &loc);
    assert_eq!(
        rendered,
        "Error: boom\n     |> In test.adze\n   1 | let x = 1;\n           ^\n"
    );
}

#[test]
fn multiline_span_renders_continuation_mark() {
    let source = source_of("first\nsecond\n");
    let display = ErrorDisplay::new();
    let loc = adze::source::Location::new_multiline(Rc::clone(&source), 0, 1, 4);
    let rendered = display.error_with_location("Error", "spans lines", &loc);
    assert!(rendered.ends_with("        ^^^^>\n"));
}

#[test]
fn unexpected_token_renders_kind_names() {
    let source = source_of("struct 5 {}\n");
    let mut display = ErrorDisplay::new();
    let error = ParseError::UnexpectedToken {
        expected: TokenType::Identifier,
        got: TokenType::Integer,
        loc: Location::new(Rc::clone(&source), 0, 7, 1),
    };
    let rendered = error.render(&mut display);
    assert!(rendered.starts_with("Error: Unexpected token: Got Integer, expected Identifier.\n"));
    assert!(rendered.contains("   1 | struct 5 {}\n"));
}

#[test]
fn file_not_found_renders_path() {
    let source = source_of("import missing;\n");
    let mut display = ErrorDisplay::new();
    let error = ParseError::FileNotFound(
        String::from("/p/missing.adze"),
        Location::new(Rc::clone(&source), 0, 7, 7),
    );
    let rendered = error.render(&mut display);
    assert!(rendered.starts_with("Error: Could not read from file '/p/missing.adze'.\n"));
}

#[test]
fn could_not_parse_literal_renders_kind() {
    let source = source_of("99999999999999999999\n");
    let mut display = ErrorDisplay::new();
    let error = ParseError::CouldNotParseLiteral(
        TokenType::Integer,
        Location::new(Rc::clone(&source), 0, 0, 20),
    );
    let rendered = error.render(&mut display);
    assert!(rendered.starts_with("Error: Could not parse literal as a Integer.\n"));
}

#[test]
fn with_message_renders_verbatim() {
    let source = source_of("x -\n");
    let mut display = ErrorDisplay::new();
    let error = ParseError::WithMessage(
        String::from("Expected a '->'."),
        Location::new(Rc::clone(&source), 0, 2, 1),
    );
    let rendered = error.render(&mut display);
    assert!(rendered.starts_with("Error: Expected a '->'.\n"));
}

#[test]
fn token_type_names() {
    assert_eq!(token_type_name(TokenType::Integer), "Integer");
    assert_eq!(token_type_name(TokenType::LeftAngle), "LeftAngle");
    assert_eq!(token_type_name(TokenType::EOF), "EOF");
}

#[test]
fn error_set_accumulates_in_order() {
    let source = source_of("x\n");
    let loc = Location::new(Rc::clone(&source), 0, 0, 1);
    let mut set: ErrorSet<ParseError> = ErrorSet::new();
    assert!(set.is_empty());
    set.add_error(ParseError::UnexpectedCharacter('@', loc.clone()));
    let mut other = ErrorSet::from_vec(vec![
        ParseError::WithMessage(String::from("first"), loc.clone()),
        ParseError::WithMessage(String::from("second"), loc.clone()),
    ]);
    set.add_errors(&mut other);
    assert!(other.is_empty());
    assert_eq!(set.len(), 3);
    assert!(matches!(set.get(0), ParseError::UnexpectedCharacter('@', _)));
    match set.get(1) {
        ParseError::WithMessage(m, _) => assert_eq!(m, "first"),
        _ => panic!("expected a message diagnostic"),
    }
}

#[test]
fn render_all_renders_each_error_as_a_paragraph() {
    let source = source_of("@\n");
    let loc = Location::new(Rc::clone(&source), 0, 0, 1);
    let set = ErrorSet::from_vec(vec![ParseError::UnexpectedCharacter('@', loc)]);
    assert_eq!(
        set.render_all(),
        "Error: Unexpected character '@'.\n     |> In test.adze\n   1 | @\n       ^\n\n"
    );
}

#[test]
fn u64_rendering_is_decimal() {
    assert_eq!(u64_to_string(0), "0");
    assert_eq!(u64_to_string(7), "7");
    assert_eq!(u64_to_string(1234567890), "1234567890");
    assert_eq!(u64_to_string(u64::MAX), "18446744073709551615");
}

#[test]
fn pad_left_pads_to_width() {
    assert_eq!(pad_left(String::from("1"), 4), "   1");
    assert_eq!(pad_left(String::from("12345"), 4), "12345");
}

#[test]
fn repeat_str_repeats() {
    assert_eq!(repeat_str("  | ", 2), "  |   | ");
    assert_eq!(repeat_str("^", 0), "");
    assert_eq!(repeat_str("^", 3), "^^^");
}

#[test]
fn parse_u64_digits_edges() {
    assert_eq!(parse_u64_digits("0"), Some(0));
    assert_eq!(parse_u64_digits("18446744073709551615"), Some(u64::MAX));
    assert_eq!(parse_u64_digits("18446744073709551616"), None);
    assert_eq!(parse_u64_digits(""), None);
    assert_eq!(parse_u64_digits("12a"), None);
    assert_eq!(parse_u64_digits("007"), Some(7));
}
