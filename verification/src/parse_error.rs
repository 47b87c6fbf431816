//! The closed set of user-facing lexical and syntactic diagnostics.

use vstd::prelude::*;
use crate::source::{Location, Span};
use crate::lexer::TokenType;
use crate::error::{CompilerError, ErrorDisplay, renderable_loc, rendered_error};
use crate::text::push_char;

verus! {

/// Everything the lexer or parser can report about user input. None of these
/// abort the run; they are collected and rendered.
#[derive(Debug)]
pub enum ParseError {
    /// A file reachable by import could not be canonicalized, opened or read.
    FileNotFound(String, Location),
    /// A character matching no token class was met while lexing.
    UnexpectedCharacter(char, Location),
    /// The parser needed one token kind and saw another.
    UnexpectedToken { expected: TokenType, got: TokenType, loc: Location },
    /// A literal's text does not denote a value of the required kind.
    CouldNotParseLiteral(TokenType, Location),
    /// A grammar-specific message at a location.
    WithMessage(String, Location),
}

/// The mathematical content of a `ParseError`: its variant, its plain data,
/// and the numeric span it points at (the shared source is dropped).
pub ghost enum ParseErrorV {
    FileNotFound { path: Seq<char>, span: Span },
    UnexpectedCharacter { chr: char, span: Span },
    UnexpectedToken { expected: TokenType, got: TokenType, span: Span },
    CouldNotParseLiteral { as_type: TokenType, span: Span },
    WithMessage { msg: Seq<char>, span: Span },
}

impl View for ParseError {
    type V = ParseErrorV;

    open spec fn view(&self) -> ParseErrorV {
        match self {
            ParseError::FileNotFound(path, loc) => ParseErrorV::FileNotFound {
                path: path@,
                span: loc.span(),
            },
            ParseError::UnexpectedCharacter(chr, loc) => ParseErrorV::UnexpectedCharacter {
                chr: *chr,
                span: loc.span(),
            },
            ParseError::UnexpectedToken { expected, got, loc } => ParseErrorV::UnexpectedToken {
                expected: *expected,
                got: *got,
                span: loc.span(),
            },
            ParseError::CouldNotParseLiteral(as_type, loc) => ParseErrorV::CouldNotParseLiteral {
                as_type: *as_type,
                span: loc.span(),
            },
            ParseError::WithMessage(msg, loc) => ParseErrorV::WithMessage {
                msg: msg@,
                span: loc.span(),
            },
        }
    }
}

impl ParseError {
    /// The location the diagnostic points at.
    pub open spec fn loc(&self) -> Location {
        match self {
            ParseError::FileNotFound(_, loc) => *loc,
            ParseError::UnexpectedCharacter(_, loc) => *loc,
            ParseError::UnexpectedToken { loc, .. } => *loc,
            ParseError::CouldNotParseLiteral(_, loc) => *loc,
            ParseError::WithMessage(_, loc) => *loc,
        }
    }
}

/// The display name of a token kind, as used in diagnostics.
pub open spec fn spec_token_type_name(t: TokenType) -> Seq<char> {
    match t {
        TokenType::Integer => "Integer"@,
        TokenType::Identifier => "Identifier"@,
        TokenType::String => "String"@,
        TokenType::Return => "Return"@,
        TokenType::If => "If"@,
        TokenType::For => "For"@,
        TokenType::Is => "Is"@,
        TokenType::While => "While"@,
        TokenType::Struct => "Struct"@,
        TokenType::Import => "Import"@,
        TokenType::Fn => "Fn"@,
        TokenType::Trait => "Trait"@,
        TokenType::LeftAngle => "LeftAngle"@,
        TokenType::RightAngle => "RightAngle"@,
        TokenType::LeftParenthesis => "LeftParenthesis"@,
        TokenType::RightParenthesis => "RightParenthesis"@,
        TokenType::LeftBracket => "LeftBracket"@,
        TokenType::RightBracket => "RightBracket"@,
        TokenType::LeftBrace => "LeftBrace"@,
        TokenType::RightBrace => "RightBrace"@,
        TokenType::Plus => "Plus"@,
        TokenType::Minus => "Minus"@,
        TokenType::Star => "Star"@,
        TokenType::Slash => "Slash"@,
        TokenType::Percent => "Percent"@,
        TokenType::Equal => "Equal"@,
        TokenType::Tilde => "Tilde"@,
        TokenType::Ampersand => "Ampersand"@,
        TokenType::VerticalBar => "VerticalBar"@,
        TokenType::Exclamation => "Exclamation"@,
        TokenType::Question => "Question"@,
        TokenType::Period => "Period"@,
        TokenType::Comma => "Comma"@,
        TokenType::Semicolon => "Semicolon"@,
        TokenType::Colon => "Colon"@,
        TokenType::Error => "Error"@,
        TokenType::EOF => "EOF"@,
    }
}

/// The display name of a token kind.
pub fn token_type_name(t: TokenType) -> (r: String)
    ensures
        r@ == spec_token_type_name(t),
{
    match t {
        TokenType::Integer => String::from_str("Integer"),
        TokenType::Identifier => String::from_str("Identifier"),
        TokenType::String => String::from_str("String"),
        TokenType::Return => String::from_str("Return"),
        TokenType::If => String::from_str("If"),
        TokenType::For => String::from_str("For"),
        TokenType::Is => String::from_str("Is"),
        TokenType::While => String::from_str("While"),
        TokenType::Struct => String::from_str("Struct"),
        TokenType::Import => String::from_str("Import"),
        TokenType::Fn => String::from_str("Fn"),
        TokenType::Trait => String::from_str("Trait"),
        TokenType::LeftAngle => String::from_str("LeftAngle"),
        TokenType::RightAngle => String::from_str("RightAngle"),
        TokenType::LeftParenthesis => String::from_str("LeftParenthesis"),
        TokenType::RightParenthesis => String::from_str("RightParenthesis"),
        TokenType::LeftBracket => String::from_str("LeftBracket"),
        TokenType::RightBracket => String::from_str("RightBracket"),
        TokenType::LeftBrace => String::from_str("LeftBrace"),
        TokenType::RightBrace => String::from_str("RightBrace"),
        TokenType::Plus => String::from_str("Plus"),
        TokenType::Minus => String::from_str("Minus"),
        TokenType::Star => String::from_str("Star"),
        TokenType::Slash => String::from_str("Slash"),
        TokenType::Percent => String::from_str("Percent"),
        TokenType::Equal => String::from_str("Equal"),
        TokenType::Tilde => String::from_str("Tilde"),
        TokenType::Ampersand => String::from_str("Ampersand"),
        TokenType::VerticalBar => String::from_str("VerticalBar"),
        TokenType::Exclamation => String::from_str("Exclamation"),
        TokenType::Question => String::from_str("Question"),
        TokenType::Period => String::from_str("Period"),
        TokenType::Comma => String::from_str("Comma"),
        TokenType::Semicolon => String::from_str("Semicolon"),
        TokenType::Colon => String::from_str("Colon"),
        TokenType::Error => String::from_str("Error"),
        TokenType::EOF => String::from_str("EOF"),
    }
}

/// The message text of a diagnostic, without its source context.
pub open spec fn spec_message_of(e: ParseError) -> Seq<char> {
    match e {
        ParseError::FileNotFound(path, _) => "Could not read from file '"@ + path@ + "'."@,
        ParseError::UnexpectedCharacter(chr, _) => "Unexpected character '"@ + seq![chr] + "'."@,
        ParseError::UnexpectedToken { expected, got, .. } => "Unexpected token: Got "@
            + spec_token_type_name(got) + ", expected "@ + spec_token_type_name(expected) + "."@,
        ParseError::CouldNotParseLiteral(as_type, _) => "Could not parse literal as a "@
            + spec_token_type_name(as_type) + "."@,
        ParseError::WithMessage(msg, _) => msg@,
    }
}

impl CompilerError for ParseError {
    open spec fn renderable(&self) -> bool {
        renderable_loc(self.loc())
    }

    open spec fn rendered(&self, indent: nat) -> Seq<char> {
        rendered_error(indent, "Error"@, spec_message_of(*self), self.loc())
    }

    fn render(&self, display: &mut ErrorDisplay) -> (r: String)
    {
        match self {
            ParseError::FileNotFound(path, loc) => {
                let mut m = String::from_str("Could not read from file '");
                m.append(path.as_str());
                m.append("'.");
                proof {
                    assert(m@ =~= spec_message_of(*self));
                }
                display.error_with_location("Error", m.as_str(), loc)
            },
            ParseError::UnexpectedCharacter(chr, loc) => {
                let mut m = String::from_str("Unexpected character '");
                push_char(&mut m, *chr);
                m.append("'.");
                proof {
                    assert(m@ =~= spec_message_of(*self));
                }
                display.error_with_location("Error", m.as_str(), loc)
            },
            ParseError::UnexpectedToken { expected, got, loc } => {
                let mut m = String::from_str("Unexpected token: Got ");
                let got_name = token_type_name(*got);
                m.append(got_name.as_str());
                m.append(", expected ");
                let expected_name = token_type_name(*expected);
                m.append(expected_name.as_str());
                m.append(".");
                proof {
                    assert(m@ =~= spec_message_of(*self));
                }
                display.error_with_location("Error", m.as_str(), loc)
            },
            ParseError::CouldNotParseLiteral(as_type, loc) => {
                let mut m = String::from_str("Could not parse literal as a ");
                let kind_name = token_type_name(*as_type);
                m.append(kind_name.as_str());
                m.append(".");
                proof {
                    assert(m@ =~= spec_message_of(*self));
                }
                display.error_with_location("Error", m.as_str(), loc)
            },
            ParseError::WithMessage(msg, loc) => {
                display.error_with_location("Error", msg.as_str(), loc)
            },
        }
    }
}

} // verus!
