use std::rc::Rc;

use adze::ast::{ExprNode, QualifiedNameNode, StmtNode, TopLevelNode, TypeNode};
use adze::lexer::{lex_source, Token, TokenType};
use adze::parse_error::ParseError;
use adze::parser::Parser;
use adze::source::Source;

fn make_parser(text: &str) -> Parser {
    let source = Rc::new(Source::from_text(
        None,
        String::from("test.adze"),
        String::from(text),
    ));
    let tokens: Vec<Token> = lex_source(Rc::clone(&source)).unwrap();
    Parser::new(source, tokens)
}

fn type_is_named(typ: &TypeNode, expected: &str) -> bool {
    match typ {
        TypeNode::Name(data) => match &*data.name {
            QualifiedNameNode::Name(n) => n.name == expected,
            _ => false,
        },
        _ => false,
    }
}

#[test]
fn struct_declaration_parses() {
    let mut parser = make_parser("struct Foo { x: Int; }");
    let file = parser.parse_file().unwrap();
    assert!(parser.errors.is_empty());
    assert_eq!(file.top_levels.len(), 1);
    match &*file.top_levels[0] {
        TopLevelNode::Struct(s) => {
            assert_eq!(s.name, "Foo");
            assert_eq!(s.generic_parameters.len(), 0);
            assert!(s.superstruct.is_none());
            assert_eq!(s.interfaces.len(), 0);
            assert_eq!(s.fields.len(), 1);
            assert_eq!(s.fields[0].name, "x");
            assert!(type_is_named(&s.fields[0].typ, "Int"));
        }
        _ => panic!("expected a struct declaration"),
    }
}

#[test]
fn function_declaration_parses() {
    let mut parser = make_parser("fn f() -> Int { return 0; }");
    let file = parser.parse_file().unwrap();
    assert!(parser.errors.is_empty());
    assert_eq!(file.top_levels.len(), 1);
    match &*file.top_levels[0] {
        TopLevelNode::Function(f) => {
            assert_eq!(f.name, "f");
            assert_eq!(f.generic_parameters.len(), 0);
            assert_eq!(f.parameters.len(), 0);
            assert!(type_is_named(&f.ret, "Int"));
            assert_eq!(f.body.stmts.len(), 1);
            match &*f.body.stmts[0] {
                StmtNode::Return(r) => match &*r.expr {
                    ExprNode::Integer(n) => assert_eq!(n.integer, 0),
                    _ => panic!("expected an integer literal"),
                },
                _ => panic!("expected a return statement"),
            }
        }
        _ => panic!("expected a function declaration"),
    }
}

#[test]
fn recovery_resumes_at_next_declaration() {
    // the malformed first declaration is diagnosed; `Bar` still parses
    let mut parser = make_parser("struct ; struct Bar {}");
    let file = parser.parse_file().unwrap();
    assert!(!parser.errors.is_empty());
    assert_eq!(file.top_levels.len(), 1);
    match &*file.top_levels[0] {
        TopLevelNode::Struct(s) => assert_eq!(s.name, "Bar"),
        _ => panic!("expected a struct declaration"),
    }
}

#[test]
fn parse_withholds_tree_when_diagnostics_exist() {
    let source = Rc::new(Source::from_text(
        None,
        String::from("test.adze"),
        String::from("struct ; struct Bar {}"),
    ));
    let tokens = lex_source(Rc::clone(&source)).unwrap();
    let result = Parser::parse(source, tokens);
    let errors = result.err().expect("recovered parse must still report its diagnostics");
    assert!(errors.len() >= 1);
}

#[test]
fn struct_with_generics_and_superstruct() {
    let mut parser = make_parser("struct Foo<T, U>(Base::Inner { x: T; y: U; }");
    let file = parser.parse_file().unwrap();
    assert!(parser.errors.is_empty());
    match &*file.top_levels[0] {
        TopLevelNode::Struct(s) => {
            assert_eq!(s.generic_parameters.len(), 2);
            assert_eq!(s.generic_parameters[0].name, "T");
            assert!(s.generic_parameters[0].bound.is_none());
            match s.superstruct.as_deref() {
                Some(QualifiedNameNode::Namespace(ns)) => {
                    assert_eq!(ns.attr, "Inner");
                    match &*ns.source {
                        QualifiedNameNode::Name(n) => assert_eq!(n.name, "Base"),
                        _ => panic!("expected a bare base name"),
                    }
                }
                _ => panic!("expected a qualified superstruct name"),
            }
            assert_eq!(s.fields.len(), 2);
        }
        _ => panic!("expected a struct declaration"),
    }
}

#[test]
fn function_with_parameters_and_types() {
    let mut parser = make_parser("fn g(a: Int, b: (Int) -> Bool&) -> Int { 1; }");
    let file = parser.parse_file().unwrap();
    assert!(parser.errors.is_empty());
    match &*file.top_levels[0] {
        TopLevelNode::Function(f) => {
            assert_eq!(f.parameters.len(), 2);
            assert_eq!(f.parameters[0].name, "a");
            assert!(type_is_named(&f.parameters[0].typ, "Int"));
            // the trailing `&` binds to the function type's return type
            match &*f.parameters[1].typ {
                TypeNode::Function(ft) => {
                    assert_eq!(ft.arguments.len(), 1);
                    assert!(type_is_named(&ft.arguments[0], "Int"));
                    match &*ft.ret {
                        TypeNode::Reference(inner) => {
                            assert!(type_is_named(&inner.typ, "Bool"));
                        }
                        _ => panic!("expected a reference return type"),
                    }
                }
                _ => panic!("expected a function type"),
            }
        }
        _ => panic!("expected a function declaration"),
    }
}

#[test]
fn named_type_has_no_generic_arguments() {
    let mut parser = make_parser("struct S { x: Int; }");
    let file = parser.parse_file().unwrap();
    match &*file.top_levels[0] {
        TopLevelNode::Struct(s) => match &*s.fields[0].typ {
            TypeNode::Name(data) => assert!(data.generic_arguments.is_none()),
            _ => panic!("expected a named type"),
        },
        _ => panic!("expected a struct declaration"),
    }
}

#[test]
fn oversized_integer_literal_is_diagnosed() {
    let source = Rc::new(Source::from_text(
        None,
        String::from("test.adze"),
        String::from("fn f() -> Int { return 18446744073709551616; }"),
    ));
    let tokens = lex_source(Rc::clone(&source)).unwrap();
    let result = Parser::parse(source, tokens);
    let errors = result.err().expect("oversized literal must be a diagnostic");
    let mut found = false;
    for i in 0..errors.len() {
        if matches!(errors.get(i), ParseError::CouldNotParseLiteral(..)) {
            found = true;
        }
    }
    assert!(found);
}

#[test]
fn largest_integer_literal_parses() {
    let mut parser = make_parser("fn f() -> Int { return 18446744073709551615; }");
    let file = parser.parse_file().unwrap();
    assert!(parser.errors.is_empty());
    match &*file.top_levels[0] {
        TopLevelNode::Function(f) => match &*f.body.stmts[0] {
            StmtNode::Return(r) => match &*r.expr {
                ExprNode::Integer(n) => assert_eq!(n.integer, u64::MAX),
                _ => panic!("expected an integer literal"),
            },
            _ => panic!("expected a return statement"),
        },
        _ => panic!("expected a function declaration"),
    }
}

#[test]
fn expect_symbol_true_for_adjacent_colons() {
    let mut parser = make_parser("a::b");
    parser.advance();
    assert!(parser.expect_symbol(TokenType::Colon, TokenType::Colon));
}

#[test]
fn expect_symbol_false_for_separated_colons() {
    let mut parser = make_parser("a : :b");
    parser.advance();
    assert!(!parser.expect_symbol(TokenType::Colon, TokenType::Colon));
}

#[test]
fn expect_symbol_false_for_spaced_arrow() {
    let parser = make_parser("- >");
    assert!(!parser.expect_symbol(TokenType::Minus, TokenType::RightAngle));
    let adjacent = make_parser("->");
    assert!(adjacent.expect_symbol(TokenType::Minus, TokenType::RightAngle));
}

#[test]
fn nested_blocks_and_parenthesized_expressions() {
    let mut parser = make_parser("fn f() -> Int { { (0); }; return (1); }");
    let file = parser.parse_file().unwrap();
    assert!(parser.errors.is_empty());
    match &*file.top_levels[0] {
        TopLevelNode::Function(f) => {
            assert_eq!(f.body.stmts.len(), 2);
            match &*f.body.stmts[0] {
                StmtNode::Expr(e) => assert!(matches!(&*e.expr, ExprNode::Block(_))),
                _ => panic!("expected an expression statement"),
            }
        }
        _ => panic!("expected a function declaration"),
    }
}

#[test]
fn unexpected_token_diagnostic_names_kinds() {
    let mut parser = make_parser("struct 5 {}");
    let _ = parser.parse_file();
    assert!(!parser.errors.is_empty());
    match parser.errors.get(0) {
        ParseError::UnexpectedToken { expected, got, .. } => {
            assert_eq!(*expected, TokenType::Identifier);
            assert_eq!(*got, TokenType::Integer);
        }
        _ => panic!("expected an unexpected-token diagnostic"),
    }
}

#[test]
fn curr_past_end_is_synthetic_eof() {
    let parser = make_parser("");
    let token = parser.curr();
    assert_eq!(token.token_type, TokenType::EOF);
    assert_eq!(token.loc.length, 1);
    assert!(!token.leading_ws);
}

#[test]
fn empty_file_parses_to_empty_tree() {
    let mut parser = make_parser("");
    let file = parser.parse_file().unwrap();
    assert!(parser.errors.is_empty());
    assert_eq!(file.top_levels.len(), 0);
}

#[test]
fn stray_top_level_token_is_diagnosed() {
    let mut parser = make_parser("5");
    let result = parser.parse_file();
    assert!(result.is_err());
    assert_eq!(parser.errors.len(), 1);
    match parser.errors.get(0) {
        ParseError::WithMessage(m, _) => {
            assert_eq!(m, "Expected the start of a struct, function, or import.")
        }
        _ => panic!("expected a message diagnostic"),
    }
}

#[test]
fn missing_arrow_is_diagnosed() {
    let mut parser = make_parser("fn f() Int { }");
    let _ = parser.parse_file();
    assert!(!parser.errors.is_empty());
    match parser.errors.get(0) {
        ParseError::WithMessage(m, _) => assert_eq!(m, "Expected a '->'."),
        _ => panic!("expected a message diagnostic"),
    }
}

#[test]
fn deep_qualified_name_is_left_associative() {
    let mut parser = make_parser("struct S(a::b::c {}");
    let file = parser.parse_file().unwrap();
    assert!(parser.errors.is_empty());
    match &*file.top_levels[0] {
        TopLevelNode::Struct(s) => match s.superstruct.as_deref() {
            Some(QualifiedNameNode::Namespace(outer)) => {
                assert_eq!(outer.attr, "c");
                match &*outer.source {
                    QualifiedNameNode::Namespace(inner) => {
                        assert_eq!(inner.attr, "b");
                        match &*inner.source {
                            QualifiedNameNode::Name(n) => assert_eq!(n.name, "a"),
                            _ => panic!("expected the base name"),
                        }
                    }
                    _ => panic!("expected a nested namespace"),
                }
            }
            _ => panic!("expected a namespace node"),
        },
        _ => panic!("expected a struct declaration"),
    }
}

#[test]
fn struct_location_spans_keyword_to_closing_brace() {
    let mut parser = make_parser("struct Foo { x: Int; }");
    let file = parser.parse_file().unwrap();
    match &*file.top_levels[0] {
        TopLevelNode::Struct(s) => {
            assert_eq!(s.loc.line, 0);
            assert_eq!(s.loc.offset, 0);
            assert_eq!(s.loc.length, 22);
            assert!(!s.loc.multiline);
        }
        _ => panic!("expected a struct declaration"),
    }
}

#[test]
fn multi_line_struct_location_is_marked_multiline() {
    let mut parser = make_parser("struct A {\n}");
    let file = parser.parse_file().unwrap();
    match &*file.top_levels[0] {
        TopLevelNode::Struct(s) => {
            assert_eq!(s.loc.line, 0);
            assert!(s.loc.multiline);
        }
        _ => panic!("expected a struct declaration"),
    }
}

#[test]
fn trailing_comma_in_generic_list_is_tolerated() {
    let mut parser = make_parser("struct F<T,> { }");
    let file = parser.parse_file().unwrap();
    assert!(parser.errors.is_empty());
    match &*file.top_levels[0] {
        TopLevelNode::Struct(s) => {
            assert_eq!(s.generic_parameters.len(), 1);
            assert_eq!(s.generic_parameters[0].name, "T");
        }
        _ => panic!("expected a struct declaration"),
    }
}

#[test]
fn advance_past_end_returns_synthetic_eof() {
    let mut parser = make_parser("a");
    parser.advance();
    let token = parser.advance();
    assert_eq!(token.token_type, TokenType::EOF);
    let again = parser.advance();
    assert_eq!(again.token_type, TokenType::EOF);
}
