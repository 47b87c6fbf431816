//! The lexer: a single left-to-right scan that converts one source's
//! character sequence into an ordered token sequence, classifying identifiers
//! against the keyword table, digit runs as integer literals, and single
//! characters against the symbol table, while collecting every lexical error
//! instead of halting at the first.

use vstd::prelude::*;
use std::rc::Rc;
use crate::source::{Source, Location, Span, HasLoc};
use crate::parse_error::{ParseError, ParseErrorV};
use crate::text::is_dec_digit;

verus! {

/// The closed set of token kinds.
#[derive(Debug, Clone, Copy, PartialEq, Eq, Structural)]
pub enum TokenType {
    Integer,
    Identifier,
    String,
    // Keywords
    Return,
    If,
    For,
    Is,
    While,
    Struct,
    Import,
    Fn,
    Trait,
    // Symbols
    LeftAngle,
    RightAngle,
    LeftParenthesis,
    RightParenthesis,
    LeftBracket,
    RightBracket,
    LeftBrace,
    RightBrace,
    Plus,
    Minus,
    Star,
    Slash,
    Percent,
    Equal,
    Tilde,
    Ampersand,
    VerticalBar,
    Exclamation,
    Question,
    Period,
    Comma,
    Semicolon,
    Colon,
    // Special
    Error,
    EOF,
}

/// Alphabetic ASCII or underscore: may start an identifier.
pub open spec fn is_ident_start_char(c: char) -> bool {
    (97 <= c as u32 <= 122) || (65 <= c as u32 <= 90) || c == '_'
}

/// Alphanumeric ASCII or underscore: may continue an identifier.
pub open spec fn is_ident_char(c: char) -> bool {
    is_ident_start_char(c) || is_dec_digit(c)
}

/// ASCII whitespace other than newline (which advances line bookkeeping).
pub open spec fn is_space_char(c: char) -> bool {
    c == ' ' || c == '\t' || c == '\r' || c == '\x0c'
}

/// The character at position `i` of a text.
pub open spec fn char_at(text: Seq<char>, i: int) -> char {
    text[i]
}

/// The keyword table: the kind for an exact identifier text, falling back to
/// a generic identifier.
pub open spec fn keyword_kind(s: Seq<char>) -> TokenType {
    if s == "while"@ {
        TokenType::While
    } else if s == "if"@ {
        TokenType::If
    } else if s == "return"@ {
        TokenType::Return
    } else if s == "trait"@ {
        TokenType::Trait
    } else if s == "fn"@ {
        TokenType::Fn
    } else if s == "for"@ {
        TokenType::For
    } else if s == "is"@ {
        TokenType::Is
    } else if s == "import"@ {
        TokenType::Import
    } else if s == "struct"@ {
        TokenType::Struct
    } else {
        TokenType::Identifier
    }
}

/// The symbol table: the kind for a single-character symbol, or `None` for a
/// character outside every token class.
pub open spec fn symbol_kind(c: char) -> Option<TokenType> {
    match c {
        '<' => Some(TokenType::LeftAngle),
        '>' => Some(TokenType::RightAngle),
        '(' => Some(TokenType::LeftParenthesis),
        ')' => Some(TokenType::RightParenthesis),
        '[' => Some(TokenType::LeftBracket),
        ']' => Some(TokenType::RightBracket),
        '{' => Some(TokenType::LeftBrace),
        '}' => Some(TokenType::RightBrace),
        '+' => Some(TokenType::Plus),
        '-' => Some(TokenType::Minus),
        '*' => Some(TokenType::Star),
        '/' => Some(TokenType::Slash),
        '%' => Some(TokenType::Percent),
        '=' => Some(TokenType::Equal),
        '~' => Some(TokenType::Tilde),
        '&' => Some(TokenType::Ampersand),
        '|' => Some(TokenType::VerticalBar),
        '!' => Some(TokenType::Exclamation),
        '?' => Some(TokenType::Question),
        '.' => Some(TokenType::Period),
        ',' => Some(TokenType::Comma),
        ';' => Some(TokenType::Semicolon),
        ':' => Some(TokenType::Colon),
        _ => None,
    }
}

/// First position at or after `j` that does not continue an identifier.
pub open spec fn ident_end(text: Seq<char>, j: int) -> int
    decreases text.len() - j,
{
    if j < 0 || j >= text.len() {
        j
    } else if is_ident_char(text[j]) {
        ident_end(text, j + 1)
    } else {
        j
    }
}

/// First position at or after `j` that is not a decimal digit.
pub open spec fn digit_end(text: Seq<char>, j: int) -> int
    decreases text.len() - j,
{
    if j < 0 || j >= text.len() {
        j
    } else if is_dec_digit(text[j]) {
        digit_end(text, j + 1)
    } else {
        j
    }
}

pub proof fn lemma_ident_end_props(text: Seq<char>, j: int)
    requires
        0 <= j <= text.len(),
    ensures
        j <= ident_end(text, j) <= text.len(),
        forall|k: int| j <= k < ident_end(text, j) ==> is_ident_char(#[trigger] text[k]),
        ident_end(text, j) < text.len() ==> !is_ident_char(text[ident_end(text, j)]),
    decreases text.len() - j,
{
    if j < text.len() && is_ident_char(text[j]) {
        lemma_ident_end_props(text, j + 1);
    }
}

pub proof fn lemma_digit_end_props(text: Seq<char>, j: int)
    requires
        0 <= j <= text.len(),
    ensures
        j <= digit_end(text, j) <= text.len(),
        forall|k: int| j <= k < digit_end(text, j) ==> is_dec_digit(#[trigger] text[k]),
        digit_end(text, j) < text.len() ==> !is_dec_digit(text[digit_end(text, j)]),
    decreases text.len() - j,
{
    if j < text.len() && is_dec_digit(text[j]) {
        lemma_digit_end_props(text, j + 1);
    }
}

/// Number of newline characters at or after position `i`.
pub open spec fn newlines_from(text: Seq<char>, i: int) -> nat
    decreases text.len() - i,
{
    if i < 0 || i >= text.len() {
        0
    } else if text[i] == '\n' {
        1 + newlines_from(text, i + 1)
    } else {
        newlines_from(text, i + 1)
    }
}

/// A text has one line range per newline, plus the trailing line.
pub proof fn lemma_line_ranges_from_len(text: Seq<char>, i: nat, line_start: nat)
    requires
        line_start <= i <= text.len(),
    ensures
        crate::source::line_ranges_from(text, i, line_start).len() == newlines_from(text, i as int)
            + 1,
    decreases text.len() - i,
{
    if i < text.len() {
        if text[i as int] == '\n' {
            lemma_line_ranges_from_len(text, i + 1, i + 1);
        } else {
            lemma_line_ranges_from_len(text, i + 1, line_start);
        }
    }
}

/// A region holds no more newlines than characters.
pub proof fn lemma_newlines_from_le(text: Seq<char>, i: int)
    requires
        0 <= i <= text.len(),
    ensures
        newlines_from(text, i) <= text.len() - i,
    decreases text.len() - i,
{
    if i < text.len() {
        lemma_newlines_from_le(text, i + 1);
    }
}

/// Skipping a newline-free region does not change the newline count.
pub proof fn lemma_newlines_from_skip(text: Seq<char>, i: int, j: int)
    requires
        0 <= i <= j <= text.len(),
        forall|k: int| i <= k < j ==> #[trigger] text[k] != '\n',
    ensures
        newlines_from(text, i) == newlines_from(text, j),
    decreases j - i,
{
    if i < j {
        lemma_newlines_from_skip(text, i + 1, j);
    }
}

/// The mathematical content of a token: its kind, its exact text, its span
/// fields, and whether whitespace preceded it.
pub ghost struct TokenV {
    pub token_type: TokenType,
    pub text: Seq<char>,
    pub line: int,
    pub offset: int,
    pub length: int,
    pub multiline: bool,
    pub leading_ws: bool,
}

/// What one lexing pass produces: the ordered tokens and the ordered lexical
/// errors, both complete.
pub ghost struct LexOut {
    pub tokens: Seq<TokenV>,
    pub errors: Seq<ParseErrorV>,
}

/// The token and error sequences produced by scanning `text` from position
/// `i`, on line `line` whose text starts at `line_start`, with `ws` marking
/// whether whitespace immediately precedes.
pub open spec fn lex_from(text: Seq<char>, i: int, line: int, line_start: int, ws: bool) -> LexOut
    decreases text.len() - i,
    via lex_from_decreases
{
    if i < 0 || i >= text.len() {
        LexOut { tokens: Seq::empty(), errors: Seq::empty() }
    } else if text[i] == '\n' {
        lex_from(text, i + 1, line + 1, i + 1, true)
    } else if is_space_char(text[i]) {
        lex_from(text, i + 1, line, line_start, true)
    } else if is_ident_start_char(text[i]) {
        let end = ident_end(text, i);
        let word = text.subrange(i, end);
        let rest = lex_from(text, end, line, line_start, false);
        LexOut {
            tokens: seq![
                TokenV {
                    token_type: keyword_kind(word),
                    text: word,
                    line,
                    offset: i - line_start,
                    length: end - i,
                    multiline: false,
                    leading_ws: ws,
                },
            ] + rest.tokens,
            errors: rest.errors,
        }
    } else if is_dec_digit(text[i]) {
        let end = digit_end(text, i);
        let rest = lex_from(text, end, line, line_start, false);
        LexOut {
            tokens: seq![
                TokenV {
                    token_type: TokenType::Integer,
                    text: text.subrange(i, end),
                    line,
                    offset: i - line_start,
                    length: end - i,
                    multiline: false,
                    leading_ws: ws,
                },
            ] + rest.tokens,
            errors: rest.errors,
        }
    } else {
        let rest = lex_from(text, i + 1, line, line_start, false);
        let span = Span { line, offset: i - line_start, length: 1, multiline: false };
        let tok = TokenV {
            token_type: if symbol_kind(text[i]) is Some {
                symbol_kind(text[i]).unwrap()
            } else {
                TokenType::Error
            },
            text: text.subrange(i, i + 1),
            line,
            offset: i - line_start,
            length: 1,
            multiline: false,
            leading_ws: ws,
        };
        if symbol_kind(text[i]) is Some {
            LexOut { tokens: seq![tok] + rest.tokens, errors: rest.errors }
        } else {
            LexOut {
                tokens: seq![tok] + rest.tokens,
                errors: seq![ParseErrorV::UnexpectedCharacter { chr: char_at(text, i), span }]
                    + rest.errors,
            }
        }
    }
}

#[via_fn]
proof fn lex_from_decreases(text: Seq<char>, i: int, line: int, line_start: int, ws: bool) {
    if 0 <= i < text.len() {
        if is_ident_start_char(text[i]) {
            lemma_ident_end_props(text, i + 1);
        } else if is_dec_digit(text[i]) {
            lemma_digit_end_props(text, i + 1);
        }
    }
}

/// The complete lexing of `text` from its start.
pub open spec fn spec_lex(text: Seq<char>) -> LexOut {
    lex_from(text, 0, 0, 0, false)
}

/// A classified lexeme: kind, owned copy of the matched text, location, and
/// whether whitespace immediately preceded it (needed to recognize adjacent
/// symbol pairs such as `->`).
#[derive(Debug)]
pub struct Token {
    pub loc: Location,
    pub token_type: TokenType,
    pub text: String,
    pub leading_ws: bool,
}

impl View for Token {
    type V = TokenV;

    open spec fn view(&self) -> TokenV {
        TokenV {
            token_type: self.token_type,
            text: self.text@,
            line: self.loc.line as int,
            offset: self.loc.offset as int,
            length: self.loc.length as int,
            multiline: self.loc.multiline,
            leading_ws: self.leading_ws,
        }
    }
}

impl Clone for Token {
    fn clone(&self) -> (r: Token)
        ensures
            r == *self,
    {
        Token {
            loc: self.loc.clone(),
            token_type: self.token_type,
            text: self.text.clone(),
            leading_ws: self.leading_ws,
        }
    }
}

impl Token {
    pub fn new(text: &str, token_type: TokenType, loc: Location, leading_ws: bool) -> (r: Token)
        ensures
            r.text@ == text@,
            r.token_type == token_type,
            r.loc == loc,
            r.leading_ws == leading_ws,
    {
        Token { loc, token_type, text: String::from_str(text), leading_ws }
    }

    /// The minimal location covering this token and `other`.
    pub fn loc_range(&self, other: &Token) -> (r: Location)
        requires
            self.loc.source.name@ == other.loc.source.name@,
            self.loc.offset + self.loc.length <= usize::MAX,
            other.loc.offset + other.loc.length <= usize::MAX,
        ensures
            r.span() == crate::source::combine_span(self.loc.span(), other.loc.span()),
            r.source == self.loc.source,
            r == crate::source::spec_combine(self.loc, other.loc),
    {
        self.loc.combine(&other.loc)
    }
}

impl HasLoc for Token {
    open spec fn spec_loc(&self) -> Location {
        self.loc
    }

    fn get_loc(&self) -> &Location {
        &self.loc
    }
}

/// The token's location points into `source`, at a real line, with its end
/// offset at most one past the text's length.
pub open spec fn token_from_source(t: Token, source: Rc<Source>) -> bool {
    &&& t.loc.source == source
    &&& t.loc.line < source.lines@.len()
    &&& t.loc.offset <= source.text@.len()
    &&& t.loc.offset + t.loc.length <= source.text@.len() + 1
}

/// The error's location points into `source`, at a real line, with its end
/// offset at most one past the text's length.
pub open spec fn error_from_source(e: ParseError, source: Rc<Source>) -> bool {
    &&& e.loc().source == source
    &&& e.loc().line < source.lines@.len()
    &&& e.loc().offset + e.loc().length <= source.text@.len() + 1
}

pub open spec fn token_views(ts: Seq<Token>) -> Seq<TokenV> {
    ts.map_values(|t: Token| t@)
}

pub open spec fn error_views(es: Seq<ParseError>) -> Seq<ParseErrorV> {
    es.map_values(|e: ParseError| e@)
}

/// Character-by-character string equality.
pub fn str_eq_chars(a: &str, b: &str) -> (r: bool)
    ensures
        r == (a@ == b@),
{
    let na = a.unicode_len();
    let nb = b.unicode_len();
    if na != nb {
        return false;
    }
    let mut i: usize = 0;
    while i < na
        invariant
            i <= na,
            na == a@.len(),
            na == b@.len(),
            forall|k: int| 0 <= k < i ==> a@[k] == b@[k],
        decreases na - i,
    {
        if a.get_char(i) != b.get_char(i) {
            return false;
        }
        i = i + 1;
    }
    proof {
        assert(a@ =~= b@);
    }
    true
}

/// Classifies an identifier's exact text against the keyword table.
fn classify_word(word: &str) -> (k: TokenType)
    ensures
        k == keyword_kind(word@),
{
    if str_eq_chars(word, "while") {
        TokenType::While
    } else if str_eq_chars(word, "if") {
        TokenType::If
    } else if str_eq_chars(word, "return") {
        TokenType::Return
    } else if str_eq_chars(word, "trait") {
        TokenType::Trait
    } else if str_eq_chars(word, "fn") {
        TokenType::Fn
    } else if str_eq_chars(word, "for") {
        TokenType::For
    } else if str_eq_chars(word, "is") {
        TokenType::Is
    } else if str_eq_chars(word, "import") {
        TokenType::Import
    } else if str_eq_chars(word, "struct") {
        TokenType::Struct
    } else {
        TokenType::Identifier
    }
}

/// Looks one character up in the symbol table.
fn symbol_token_type(c: char) -> (k: Option<TokenType>)
    ensures
        k == symbol_kind(c),
{
    match c {
        '<' => Some(TokenType::LeftAngle),
        '>' => Some(TokenType::RightAngle),
        '(' => Some(TokenType::LeftParenthesis),
        ')' => Some(TokenType::RightParenthesis),
        '[' => Some(TokenType::LeftBracket),
        ']' => Some(TokenType::RightBracket),
        '{' => Some(TokenType::LeftBrace),
        '}' => Some(TokenType::RightBrace),
        '+' => Some(TokenType::Plus),
        '-' => Some(TokenType::Minus),
        '*' => Some(TokenType::Star),
        '/' => Some(TokenType::Slash),
        '%' => Some(TokenType::Percent),
        '=' => Some(TokenType::Equal),
        '~' => Some(TokenType::Tilde),
        '&' => Some(TokenType::Ampersand),
        '|' => Some(TokenType::VerticalBar),
        '!' => Some(TokenType::Exclamation),
        '?' => Some(TokenType::Question),
        '.' => Some(TokenType::Period),
        ',' => Some(TokenType::Comma),
        ';' => Some(TokenType::Semicolon),
        ':' => Some(TokenType::Colon),
        _ => None,
    }
}

fn ident_start_at(s: &str, j: usize) -> (r: bool)
    requires
        j < s@.len(),
    ensures
        r == is_ident_start_char(s@[j as int]),
{
    let c = s.get_char(j);
    let u = c as u32;
    (97 <= u && u <= 122) || (65 <= u && u <= 90) || c == '_'
}

fn ident_char_at(s: &str, j: usize) -> (r: bool)
    requires
        j < s@.len(),
    ensures
        r == is_ident_char(s@[j as int]),
{
    let c = s.get_char(j);
    let u = c as u32;
    (97 <= u && u <= 122) || (65 <= u && u <= 90) || c == '_' || (48 <= u && u <= 57)
}

fn digit_at(s: &str, j: usize) -> (r: bool)
    requires
        j < s@.len(),
    ensures
        r == is_dec_digit(s@[j as int]),
{
    let c = s.get_char(j);
    let u = c as u32;
    48 <= u && u <= 57
}

/// Lexes one source completely. Returns the full ordered token sequence when
/// the text holds no unexpected character, and otherwise the full ordered
/// sequence of lexical errors — one per unexpected character, in order.
pub fn lex_source(source: Rc<Source>) -> (r: Result<Vec<Token>, Vec<ParseError>>)
    requires
        source.wf(),
        source.text@.len() < usize::MAX,
    ensures
        match r {
            Ok(tokens) => {
                &&& spec_lex(source.text@).errors.len() == 0
                &&& token_views(tokens@) == spec_lex(source.text@).tokens
                &&& forall|k: int|
                    0 <= k < tokens@.len() ==> token_from_source(#[trigger] tokens@[k], source)
            },
            Err(errors) => {
                &&& spec_lex(source.text@).errors.len() > 0
                &&& error_views(errors@) == spec_lex(source.text@).errors
                &&& forall|k: int|
                    0 <= k < errors@.len() ==> error_from_source(#[trigger] errors@[k], source)
            },
        },
{
    let ghost text = source.text@;
    let mut tokens: Vec<Token> = Vec::new();
    let mut errors: Vec<ParseError> = Vec::new();

    let n = source.text.as_str().unicode_len();

    let mut index: usize = 0;
    let mut prev_is_ws = false;
    let mut line: usize = 0;
    let mut line_start: usize = 0;

    proof {
        lemma_line_ranges_from_len(text, 0, 0);
        lemma_newlines_from_le(text, 0);
        assert(token_views(tokens@) =~= Seq::<TokenV>::empty());
        assert(error_views(errors@) =~= Seq::<ParseErrorV>::empty());
        assert(spec_lex(text).tokens =~= token_views(tokens@) + lex_from(
            text,
            0,
            0,
            0,
            false,
        ).tokens);
        assert(spec_lex(text).errors =~= error_views(errors@) + lex_from(
            text,
            0,
            0,
            0,
            false,
        ).errors);
    }

    while index < n
        invariant
            index <= n,
            n == text.len(),
            n < usize::MAX,
            text == source.text@,
            source.wf(),
            line_start <= index,
            line + newlines_from(text, index as int) == newlines_from(text, 0),
            newlines_from(text, 0) <= n,
            source.lines@.len() == newlines_from(text, 0) + 1,
            spec_lex(text).tokens == token_views(tokens@) + lex_from(
                text,
                index as int,
                line as int,
                line_start as int,
                prev_is_ws,
            ).tokens,
            spec_lex(text).errors == error_views(errors@) + lex_from(
                text,
                index as int,
                line as int,
                line_start as int,
                prev_is_ws,
            ).errors,
            forall|k: int| 0 <= k < tokens@.len() ==> token_from_source(#[trigger] tokens@[k], source),
            forall|k: int| 0 <= k < errors@.len() ==> error_from_source(#[trigger] errors@[k], source),
        decreases n - index,
    {
        let chr = source.text.as_str().get_char(index);
        if chr == '\n' {
            line_start = index + 1;
            line = line + 1;
            index = index + 1;
            prev_is_ws = true;
        } else if chr == ' ' || chr == '\t' || chr == '\r' || chr == '\x0c' {
            index = index + 1;
            prev_is_ws = true;
        } else if ident_start_at(source.text.as_str(), index) {
            let start = index;
            let mut j = index;
            while j < n && ident_char_at(source.text.as_str(), j)
                invariant
                    index <= j <= n,
                    n == text.len(),
                    text == source.text@,
                    ident_end(text, index as int) == ident_end(text, j as int),
                decreases n - j,
            {
                j = j + 1;
            }
            proof {
                lemma_ident_end_props(text, index as int);
                lemma_newlines_from_skip(text, index as int, j as int);
            }
            let word = source.text.as_str().substring_char(start, j);
            let kind = classify_word(word);
            let loc = Location::new(Rc::clone(&source), line, start - line_start, j - start);
            let token = Token::new(word, kind, loc, prev_is_ws);
            let ghost prev_tokens = tokens@;
            tokens.push(token);
            proof {
                let rest = lex_from(text, j as int, line as int, line_start as int, false);
                assert(token_views(tokens@) =~= token_views(prev_tokens).push(token@));
                assert(token_views(tokens@) + rest.tokens =~= token_views(prev_tokens)
                    + lex_from(
                    text,
                    index as int,
                    line as int,
                    line_start as int,
                    prev_is_ws,
                ).tokens);
            }
            index = j;
            prev_is_ws = false;
        } else if digit_at(source.text.as_str(), index) {
            let start = index;
            let mut j = index;
            while j < n && digit_at(source.text.as_str(), j)
                invariant
                    index <= j <= n,
                    n == text.len(),
                    text == source.text@,
                    digit_end(text, index as int) == digit_end(text, j as int),
                decreases n - j,
            {
                j = j + 1;
            }
            proof {
                lemma_digit_end_props(text, index as int);
                lemma_newlines_from_skip(text, index as int, j as int);
            }
            let word = source.text.as_str().substring_char(start, j);
            let loc = Location::new(Rc::clone(&source), line, start - line_start, j - start);
            let token = Token::new(word, TokenType::Integer, loc, prev_is_ws);
            let ghost prev_tokens = tokens@;
            tokens.push(token);
            proof {
                let rest = lex_from(text, j as int, line as int, line_start as int, false);
                assert(token_views(tokens@) =~= token_views(prev_tokens).push(token@));
                assert(token_views(tokens@) + rest.tokens =~= token_views(prev_tokens)
                    + lex_from(
                    text,
                    index as int,
                    line as int,
                    line_start as int,
                    prev_is_ws,
                ).tokens);
            }
            index = j;
            prev_is_ws = false;
        } else {
            let loc = Location::new(Rc::clone(&source), line, index - line_start, 1);
            let word = source.text.as_str().substring_char(index, index + 1);
            let ghost prev_errors = errors@;
            let kind = match symbol_token_type(chr) {
                Some(k) => k,
                None => {
                    errors.push(ParseError::UnexpectedCharacter(chr, loc.clone()));
                    TokenType::Error
                },
            };
            let token = Token::new(word, kind, loc, prev_is_ws);
            let ghost prev_tokens = tokens@;
            tokens.push(token);
            proof {
                let rest = lex_from(text, index + 1, line as int, line_start as int, false);
                assert(token_views(tokens@) =~= token_views(prev_tokens).push(token@));
                assert(token_views(tokens@) + rest.tokens =~= token_views(prev_tokens)
                    + lex_from(
                    text,
                    index as int,
                    line as int,
                    line_start as int,
                    prev_is_ws,
                ).tokens);
                if symbol_kind(text[index as int]) is None {
                    assert(errors@ == prev_errors.push(errors@.last()));
                    assert(error_views(errors@) =~= error_views(prev_errors).push(
                        errors@.last()@,
                    ));
                    assert(error_views(errors@) + rest.errors =~= error_views(prev_errors)
                        + lex_from(
                        text,
                        index as int,
                        line as int,
                        line_start as int,
                        prev_is_ws,
                    ).errors);
                }
            }
            index = index + 1;
            prev_is_ws = false;
        }
    }
    if errors.is_empty() {
        Ok(tokens)
    } else {
        Err(errors)
    }
}

/// A character outside every token class: not a newline, not whitespace,
/// unable to start an identifier or a number, and absent from the symbol
/// table. Exactly these produce "unexpected character" diagnostics.
pub open spec fn is_bad_char(c: char) -> bool {
    !(c == '\n' || is_space_char(c) || is_ident_start_char(c) || is_dec_digit(c) || symbol_kind(c)
        is Some)
}

/// The characters outside every token class at or after position `i`, in
/// order.
pub open spec fn bad_chars(text: Seq<char>, i: int) -> Seq<char>
    decreases text.len() - i,
{
    if i < 0 || i >= text.len() {
        Seq::empty()
    } else if is_bad_char(text[i]) {
        seq![text[i]] + bad_chars(text, i + 1)
    } else {
        bad_chars(text, i + 1)
    }
}

/// The character an "unexpected character" diagnostic reports.
pub open spec fn unexpected_char_of(e: ParseErrorV) -> char {
    match e {
        ParseErrorV::UnexpectedCharacter { chr, .. } => chr,
        _ => vstd::pervasive::arbitrary(),
    }
}

/// A region with no character outside the token classes contributes no
/// unexpected characters.
proof fn lemma_bad_chars_skip(text: Seq<char>, i: int, j: int)
    requires
        0 <= i <= j <= text.len(),
        forall|k: int| i <= k < j ==> !is_bad_char(#[trigger] text[k]),
    ensures
        bad_chars(text, i) == bad_chars(text, j),
    decreases j - i,
{
    if i < j {
        lemma_bad_chars_skip(text, i + 1, j);
    }
}

/// The lexer reports exactly one "unexpected character" diagnostic per
/// character outside every token class, in order, reporting that character —
/// and nothing else: scanning always continues past a bad character.
proof fn lemma_lex_from_unexpected(text: Seq<char>, i: int, line: int, line_start: int, ws: bool)
    requires
        0 <= i <= text.len(),
    ensures
        lex_from(text, i, line, line_start, ws).errors.map_values(
            |e: ParseErrorV| unexpected_char_of(e),
        ) =~= bad_chars(text, i),
        forall|k: int|
            0 <= k < lex_from(text, i, line, line_start, ws).errors.len() ==> lex_from(
                text,
                i,
                line,
                line_start,
                ws,
            ).errors[k] is UnexpectedCharacter,
    decreases text.len() - i,
{
    let out = lex_from(text, i, line, line_start, ws);
    if i >= text.len() {
        assert(out.errors.map_values(|e: ParseErrorV| unexpected_char_of(e)) =~= Seq::empty());
    } else if text[i] == '\n' {
        lemma_lex_from_unexpected(text, i + 1, line + 1, i + 1, true);
    } else if is_space_char(text[i]) {
        lemma_lex_from_unexpected(text, i + 1, line, line_start, true);
    } else if is_ident_start_char(text[i]) {
        let end = ident_end(text, i);
        lemma_ident_end_props(text, i);
        lemma_lex_from_unexpected(text, end, line, line_start, false);
        lemma_bad_chars_skip(text, i, end);
    } else if is_dec_digit(text[i]) {
        let end = digit_end(text, i);
        lemma_digit_end_props(text, i);
        lemma_lex_from_unexpected(text, end, line, line_start, false);
        lemma_bad_chars_skip(text, i, end);
    } else {
        lemma_lex_from_unexpected(text, i + 1, line, line_start, false);
        if symbol_kind(text[i]) is None {
            assert(out.errors =~= seq![
                ParseErrorV::UnexpectedCharacter {
                    chr: char_at(text, i),
                    span: Span { line, offset: i - line_start, length: 1, multiline: false },
                },
            ] + lex_from(text, i + 1, line, line_start, false).errors);
        }
    }
}

/// A character not in any token class, anywhere in a text, produces exactly
/// one "unexpected character" diagnostic naming that character, in order of
/// appearance, and lexing still scans the whole text: no other diagnostic
/// kind is ever produced by lexing.
pub proof fn lemma_lex_unexpected_characters(text: Seq<char>)
    ensures
        spec_lex(text).errors.map_values(|e: ParseErrorV| unexpected_char_of(e)) == bad_chars(
            text,
            0,
        ),
        spec_lex(text).errors.len() == bad_chars(text, 0).len(),
        forall|k: int|
            0 <= k < spec_lex(text).errors.len() ==> spec_lex(text).errors[k]
                is UnexpectedCharacter,
{
    lemma_lex_from_unexpected(text, 0, 0, 0, false);
}

/// Lexing a text that is one maximal identifier-shaped word yields exactly
/// one token: it carries the word's exact text, starts at the beginning of
/// line zero, spans the whole input, and is classified by the keyword table.
/// No diagnostic is produced.
pub proof fn lemma_lex_single_word(text: Seq<char>)
    requires
        text.len() > 0,
        is_ident_start_char(text[0]),
        forall|k: int| 0 <= k < text.len() ==> is_ident_char(#[trigger] text[k]),
    ensures
        spec_lex(text).errors.len() == 0,
        spec_lex(text).tokens.len() == 1,
        spec_lex(text).tokens[0] == (TokenV {
            token_type: keyword_kind(text),
            text: text,
            line: 0,
            offset: 0,
            length: text.len() as int,
            multiline: false,
            leading_ws: false,
        }),
{
    lemma_ident_end_props(text, 0);
    let end = ident_end(text, 0);
    assert(end == text.len());
    assert(text.subrange(0, text.len() as int) =~= text);
    assert(text[0] != '\n');
    assert(!is_space_char(text[0]));
    assert(lex_from(text, end, 0, 0, false).tokens =~= Seq::<TokenV>::empty());
    assert(spec_lex(text).tokens =~= seq![
        TokenV {
            token_type: keyword_kind(text),
            text: text,
            line: 0,
            offset: 0,
            length: text.len() as int,
            multiline: false,
            leading_ws: false,
        },
    ]);
}

/// Lexing a file that holds exactly one valid identifier not in the keyword
/// table yields one `Identifier` token spanning the whole input, and no
/// diagnostic.
pub proof fn lemma_lex_single_identifier(text: Seq<char>)
    requires
        text.len() > 0,
        is_ident_start_char(text[0]),
        forall|k: int| 0 <= k < text.len() ==> is_ident_char(#[trigger] text[k]),
        keyword_kind(text) == TokenType::Identifier,
    ensures
        spec_lex(text).errors.len() == 0,
        spec_lex(text).tokens.len() == 1,
        spec_lex(text).tokens[0] == (TokenV {
            token_type: TokenType::Identifier,
            text: text,
            line: 0,
            offset: 0,
            length: text.len() as int,
            multiline: false,
            leading_ws: false,
        }),
{
    lemma_lex_single_word(text);
}

/// Whether a text is one of the nine keywords.
pub open spec fn is_keyword_text(text: Seq<char>) -> bool {
    text == "while"@ || text == "if"@ || text == "return"@ || text == "trait"@ || text == "fn"@
        || text == "for"@ || text == "is"@ || text == "import"@ || text == "struct"@
}

/// Lexing a file that holds exactly one keyword yields one token of the
/// matching keyword kind — not `Identifier` — spanning the whole input, and
/// no diagnostic.
pub proof fn lemma_lex_single_keyword(text: Seq<char>)
    requires
        is_keyword_text(text),
    ensures
        spec_lex(text).errors.len() == 0,
        spec_lex(text).tokens.len() == 1,
        spec_lex(text).tokens[0] == (TokenV {
            token_type: keyword_kind(text),
            text: text,
            line: 0,
            offset: 0,
            length: text.len() as int,
            multiline: false,
            leading_ws: false,
        }),
        spec_lex(text).tokens[0].token_type != TokenType::Identifier,
{
    reveal_strlit("while");
    reveal_strlit("if");
    reveal_strlit("return");
    reveal_strlit("trait");
    reveal_strlit("fn");
    reveal_strlit("for");
    reveal_strlit("is");
    reveal_strlit("import");
    reveal_strlit("struct");
    lemma_lex_single_word(text);
}

} // verus!
