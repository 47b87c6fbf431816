//! The recursive-descent parser with panic-mode recovery: a cursor over one
//! file's token sequence, an error accumulator, and a stack of
//! resynchronization handlers. A grammar mismatch is diagnosed locally, then
//! the cursor skips forward to the first token some handler claims, so one
//! malformed construct does not abort the rest of the file.

use vstd::prelude::*;
use std::rc::Rc;
use crate::source::{Source, Location, HasLoc, combine_span};
use crate::parse_error::ParseError;
use crate::error::{ErrorSet, CompilerError};
use crate::lexer::{Token, TokenType, token_from_source, error_from_source, lex_source};
use crate::ast::{
    QualifiedNameNode, QualNameData, QualNamespaceData, TypeNode, TypeNameData, TypeFunctionData,
    TypeReferenceData, StmtNode, StmtReturnData, StmtExprData, ExprNode, IntegerData, BlockData,
    GenericParameter, StructField, StructData, FunctionParameter, FunctionData, TopLevelNode, File,
    Program,
};
use crate::compiler::CompilerState;
use crate::text::{parse_u64_digits, all_dec_digits, digits_val};

verus! {

broadcast use vstd::std_specs::control_flow::group_control_flow_axioms;

/// Identifies which handler on the stack should absorb a recovery signal:
/// the handler's depth, with 0 meaning "no handler claimed it".
pub type SyncFlag = usize;

/// Either a parsed construct, or a recovery signal travelling up to the
/// handler whose depth it names.
pub type ParseResult<T> = Result<T, SyncFlag>;

/// The first handler at or after position `h` whose kind set claims `kind`,
/// scanning the stack as stored: outermost first.
pub open spec fn first_handler_for(
    handlers: Seq<(Vec<TokenType>, usize)>,
    kind: TokenType,
    h: int,
) -> Option<int>
    decreases handlers.len() - h,
{
    if h < 0 || h >= handlers.len() {
        None
    } else if handlers[h].0@.contains(kind) {
        Some(h)
    } else {
        first_handler_for(handlers, kind, h + 1)
    }
}

/// Where synchronization from position `i` stops, and the flag it reports:
/// the first position whose token some handler claims (without consuming
/// it), or the end of the stream with flag 0.
pub open spec fn sync_stop(
    tokens: Seq<Token>,
    handlers: Seq<(Vec<TokenType>, usize)>,
    i: int,
) -> (int, SyncFlag)
    decreases tokens.len() - i,
{
    if i < 0 || i >= tokens.len() {
        (tokens.len() as int, 0)
    } else {
        match first_handler_for(handlers, tokens[i].token_type, 0) {
            Some(h) => (i, handlers[h].1),
            None => sync_stop(tokens, handlers, i + 1),
        }
    }
}

proof fn lemma_first_handler_scan(handlers: Seq<(Vec<TokenType>, usize)>, kind: TokenType, h: int)
    requires
        0 <= h <= handlers.len(),
        forall|j: int| 0 <= j < h ==> !(#[trigger] handlers[j]).0@.contains(kind),
    ensures
        first_handler_for(handlers, kind, 0) == first_handler_for(handlers, kind, h),
    decreases h,
{
    if h > 0 {
        lemma_first_handler_scan(handlers, kind, h - 1);
    }
}

pub proof fn lemma_first_handler_for_props(
    handlers: Seq<(Vec<TokenType>, usize)>,
    kind: TokenType,
    h: int,
)
    requires
        0 <= h <= handlers.len(),
    ensures
        match first_handler_for(handlers, kind, h) {
            Some(m) => h <= m < handlers.len() && handlers[m].0@.contains(kind),
            None => forall|j: int| h <= j < handlers.len() ==> !(#[trigger] handlers[j]).0@.contains(
                kind,
            ),
        },
    decreases handlers.len() - h,
{
    if h < handlers.len() && !handlers[h].0@.contains(kind) {
        lemma_first_handler_for_props(handlers, kind, h + 1);
    }
}

pub proof fn lemma_sync_stop_props(
    tokens: Seq<Token>,
    handlers: Seq<(Vec<TokenType>, usize)>,
    i: int,
)
    requires
        0 <= i <= tokens.len(),
    ensures
        i <= sync_stop(tokens, handlers, i).0 <= tokens.len(),
        sync_stop(tokens, handlers, i).0 < tokens.len() ==> {
            &&& first_handler_for(
                handlers,
                tokens[sync_stop(tokens, handlers, i).0].token_type,
                0,
            ) matches Some(h)
            &&& handlers[first_handler_for(
                handlers,
                tokens[sync_stop(tokens, handlers, i).0].token_type,
                0,
            ).unwrap()].1 == sync_stop(tokens, handlers, i).1
        },
        sync_stop(tokens, handlers, i).0 == tokens.len() ==> sync_stop(tokens, handlers, i).1 == 0,
        forall|j: int|
            i <= j < sync_stop(tokens, handlers, i).0 ==> first_handler_for(
                handlers,
                #[trigger] tokens[j].token_type,
                0,
            ) is None,
    decreases tokens.len() - i,
{
    if i < tokens.len() && first_handler_for(handlers, tokens[i].token_type, 0) is None {
        lemma_sync_stop_props(tokens, handlers, i + 1);
    }
}

/// The kind of the token at position `i` of a token sequence, or the
/// synthetic end-of-file kind past the end.
pub open spec fn kind_of(tokens: Seq<Token>, i: int) -> TokenType {
    if 0 <= i < tokens.len() {
        tokens[i].token_type
    } else {
        TokenType::EOF
    }
}

/// Whether the tokens at positions `i` and `i + 1` form the adjacent pair
/// `(first, second)` with no whitespace between.
pub open spec fn pair_of(tokens: Seq<Token>, i: int, first: TokenType, second: TokenType) -> bool {
    &&& kind_of(tokens, i) == first
    &&& kind_of(tokens, i + 1) == second
    &&& !(0 <= i + 1 < tokens.len() && tokens[i + 1].leading_ws)
}

/// Whether the tokens at `i` derive a complete qualified name: an
/// identifier, then after every adjacent `::` another identifier.
pub open spec fn qual_name_at(tokens: Seq<Token>, i: int) -> bool
    decreases tokens.len() - i,
{
    if i < 0 || i >= tokens.len() {
        false
    } else {
        kind_of(tokens, i) == TokenType::Identifier && (pair_of(
            tokens,
            i + 1,
            TokenType::Colon,
            TokenType::Colon,
        ) ==> qual_name_at(tokens, i + 3))
    }
}

/// One past the last token of the qualified name starting at `i`.
pub open spec fn qual_name_end_at(tokens: Seq<Token>, i: int) -> int
    decreases tokens.len() - i,
{
    if 0 <= i < tokens.len() && pair_of(tokens, i + 1, TokenType::Colon, TokenType::Colon) {
        qual_name_end_at(tokens, i + 3)
    } else {
        i + 1
    }
}

/// The qualified-name node is exactly what the tokens at `i` spell out:
/// each identifier text in order, the bare name carrying its identifier
/// token's location, and every namespace node spanning its prefix through
/// its attribute identifier.
pub open spec fn qual_name_matches_at(tokens: Seq<Token>, i: int, n: QualifiedNameNode) -> bool
    decreases n,
{
    match n {
        QualifiedNameNode::Name(d) => {
            &&& d.name@ == tokens[i].text@
            &&& d.loc == tokens[i].loc
        },
        QualifiedNameNode::Namespace(d) => {
            &&& qual_name_matches_at(tokens, i, *d.source)
            &&& d.attr@ == tokens[i + 3 * ((*d.source).parts().len() as int)].text@
            &&& d.loc == crate::source::spec_combine(
                (*d.source).spec_loc(),
                tokens[i + 3 * ((*d.source).parts().len() as int)].loc,
            )
        },
    }
}

/// One past the last token of the type deriving at `i`, when the tokens at
/// `i` derive a complete type: a terminal, optionally wrapped by one
/// trailing `&`.
pub open spec fn type_end_at(tokens: Seq<Token>, i: int) -> Option<int>
    decreases tokens.len() - i, 3int,
{
    match type_terminal_end_at(tokens, i) {
        None => None,
        Some(j) => if j <= i {
            None
        } else if kind_of(tokens, j) == TokenType::Ampersand {
            Some(j + 1)
        } else {
            Some(j)
        },
    }
}

/// One past the last token of the type terminal deriving at `i`: a function
/// type after a parenthesis, a qualified name otherwise.
pub open spec fn type_terminal_end_at(tokens: Seq<Token>, i: int) -> Option<int>
    decreases tokens.len() - i, 2int,
{
    if kind_of(tokens, i) == TokenType::LeftParenthesis {
        function_type_end_at(tokens, i)
    } else if qual_name_at(tokens, i) {
        Some(qual_name_end_at(tokens, i))
    } else {
        None
    }
}

/// One past the last token of the function type deriving at `i`:
/// `'(' (Type (',' Type)*)? ')' '->' Type` with the arrow's two tokens
/// adjacent.
pub open spec fn function_type_end_at(tokens: Seq<Token>, i: int) -> Option<int>
    decreases tokens.len() - i, 1int,
{
    if kind_of(tokens, i) != TokenType::LeftParenthesis {
        None
    } else {
        match type_list_end_at(tokens, i + 1) {
            None => None,
            Some(j) => if j <= i {
                None
            } else if kind_of(tokens, j) == TokenType::RightParenthesis && pair_of(
                tokens,
                j + 1,
                TokenType::Minus,
                TokenType::RightAngle,
            ) {
                type_end_at(tokens, j + 3)
            } else {
                None
            },
        }
    }
}

/// The position of the closing parenthesis ending the comma-separated type
/// list at `i`, when the tokens derive one (with trailing-comma tolerance).
pub open spec fn type_list_end_at(tokens: Seq<Token>, i: int) -> Option<int>
    decreases tokens.len() - i, 4int,
{
    if kind_of(tokens, i) == TokenType::RightParenthesis {
        Some(i)
    } else {
        match type_end_at(tokens, i) {
            None => None,
            Some(j) => if j <= i {
                None
            } else if kind_of(tokens, j) == TokenType::Comma {
                type_list_end_at(tokens, j + 1)
            } else {
                Some(j)
            },
        }
    }
}

/// The position of the closing brace ending the statement list at `i`,
/// when the tokens derive one.
pub open spec fn stmt_list_end_at(tokens: Seq<Token>, i: int) -> Option<int>
    decreases tokens.len() - i, 6int,
{
    if kind_of(tokens, i) == TokenType::RightBrace {
        Some(i)
    } else {
        match stmt_end_at(tokens, i) {
            None => None,
            Some(j) => if i < j <= tokens.len() {
                stmt_list_end_at(tokens, j)
            } else {
                None
            },
        }
    }
}

/// One past the last token of the statement deriving at `i`: a `return`
/// statement or an expression statement, both ended by a semicolon.
pub open spec fn stmt_end_at(tokens: Seq<Token>, i: int) -> Option<int>
    decreases tokens.len() - i, 5int,
{
    if kind_of(tokens, i) == TokenType::Return {
        match expr_end_at(tokens, i + 1) {
            None => None,
            Some(j) => if j <= i + 1 {
                None
            } else if kind_of(tokens, j) == TokenType::Semicolon {
                Some(j + 1)
            } else {
                None
            },
        }
    } else {
        expr_stmt_end_at(tokens, i)
    }
}

/// One past the last token of the expression statement deriving at `i`.
pub open spec fn expr_stmt_end_at(tokens: Seq<Token>, i: int) -> Option<int>
    decreases tokens.len() - i, 4int,
{
    match expr_end_at(tokens, i) {
        None => None,
        Some(j) => if j <= i {
            None
        } else if kind_of(tokens, j) == TokenType::Semicolon {
            Some(j + 1)
        } else {
            None
        },
    }
}

/// One past the last token of the expression deriving at `i`: a block after
/// a brace, a terminal otherwise.
pub open spec fn expr_end_at(tokens: Seq<Token>, i: int) -> Option<int>
    decreases tokens.len() - i, 3int,
{
    if kind_of(tokens, i) == TokenType::LeftBrace {
        block_end_at(tokens, i)
    } else {
        expr_terminal_end_at(tokens, i)
    }
}

/// One past the last token of the expression terminal deriving at `i`: an
/// in-range integer literal, or a parenthesized expression.
pub open spec fn expr_terminal_end_at(tokens: Seq<Token>, i: int) -> Option<int>
    decreases tokens.len() - i, 2int,
{
    if kind_of(tokens, i) == TokenType::Integer {
        if tokens[i].text@.len() > 0 && all_dec_digits(tokens[i].text@) && digits_val(
            tokens[i].text@,
        ) <= u64::MAX {
            Some(i + 1)
        } else {
            None
        }
    } else if kind_of(tokens, i) == TokenType::LeftParenthesis {
        match expr_end_at(tokens, i + 1) {
            None => None,
            Some(j) => if j <= i + 1 {
                None
            } else if kind_of(tokens, j) == TokenType::RightParenthesis {
                Some(j + 1)
            } else {
                None
            },
        }
    } else {
        None
    }
}

/// One past the last token of the block deriving at `i`: `'{' Stmt* '}'`.
pub open spec fn block_end_at(tokens: Seq<Token>, i: int) -> Option<int>
    decreases tokens.len() - i, 1int,
{
    if kind_of(tokens, i) != TokenType::LeftBrace {
        None
    } else {
        match stmt_list_end_at(tokens, i + 1) {
            None => None,
            Some(j) => if j <= i {
                None
            } else if kind_of(tokens, j) == TokenType::RightBrace {
                Some(j + 1)
            } else {
                None
            },
        }
    }
}

/// One past the last token of the struct field deriving at `i`:
/// `Identifier ':' Type ';'`.
pub open spec fn struct_field_end_at(tokens: Seq<Token>, i: int) -> Option<int> {
    if kind_of(tokens, i) == TokenType::Identifier && kind_of(tokens, i + 1) == TokenType::Colon {
        match type_end_at(tokens, i + 2) {
            None => None,
            Some(j) => if kind_of(tokens, j) == TokenType::Semicolon {
                Some(j + 1)
            } else {
                None
            },
        }
    } else {
        None
    }
}

/// One past the last token of the function parameter deriving at `i`:
/// `Identifier ':' Type`.
pub open spec fn function_param_end_at(tokens: Seq<Token>, i: int) -> Option<int> {
    if kind_of(tokens, i) == TokenType::Identifier && kind_of(tokens, i + 1) == TokenType::Colon {
        type_end_at(tokens, i + 2)
    } else {
        None
    }
}

/// The position of the closing angle bracket ending the comma-separated
/// generic parameter list at `i`, when the tokens derive one.
pub open spec fn generic_list_end_at(tokens: Seq<Token>, i: int) -> Option<int>
    decreases tokens.len() - i,
{
    if kind_of(tokens, i) == TokenType::RightAngle {
        Some(i)
    } else if kind_of(tokens, i) == TokenType::Identifier {
        if kind_of(tokens, i + 1) == TokenType::Comma {
            generic_list_end_at(tokens, i + 2)
        } else {
            Some(i + 1)
        }
    } else {
        None
    }
}

/// One past the optional `'<' ... '>'` generic parameter list at `i` — `i`
/// itself when no list opens there.
pub open spec fn after_generics_at(tokens: Seq<Token>, i: int) -> Option<int> {
    if kind_of(tokens, i) == TokenType::LeftAngle {
        match generic_list_end_at(tokens, i + 1) {
            None => None,
            Some(g) => if kind_of(tokens, g) == TokenType::RightAngle {
                Some(g + 1)
            } else {
                None
            },
        }
    } else {
        Some(i)
    }
}

/// The position of the closing brace ending the struct field list at `i`,
/// when the tokens derive one.
pub open spec fn field_list_end_at(tokens: Seq<Token>, i: int) -> Option<int>
    decreases tokens.len() - i,
{
    if kind_of(tokens, i) == TokenType::RightBrace {
        Some(i)
    } else {
        match struct_field_end_at(tokens, i) {
            None => None,
            Some(j) => if i < j <= tokens.len() {
                field_list_end_at(tokens, j)
            } else {
                None
            },
        }
    }
}

/// The position of the closing parenthesis ending the comma-separated
/// function parameter list at `i`, when the tokens derive one.
pub open spec fn param_list_end_at(tokens: Seq<Token>, i: int) -> Option<int>
    decreases tokens.len() - i,
{
    if kind_of(tokens, i) == TokenType::RightParenthesis {
        Some(i)
    } else {
        match function_param_end_at(tokens, i) {
            None => None,
            Some(j) => if !(i < j <= tokens.len()) {
                None
            } else if kind_of(tokens, j) == TokenType::Comma {
                param_list_end_at(tokens, j + 1)
            } else {
                Some(j)
            },
        }
    }
}

/// One past the last token of the struct declaration deriving at `i`:
/// `'struct' Identifier GenericParams? ('(' QualName)? '{' StructField* '}'`.
pub open spec fn struct_end_at(tokens: Seq<Token>, i: int) -> Option<int> {
    if kind_of(tokens, i) != TokenType::Struct || kind_of(tokens, i + 1) != TokenType::Identifier {
        None
    } else {
        match after_generics_at(tokens, i + 2) {
            None => None,
            Some(p) => {
                let after_super = if kind_of(tokens, p) == TokenType::LeftParenthesis {
                    if qual_name_at(tokens, p + 1) {
                        Some(qual_name_end_at(tokens, p + 1))
                    } else {
                        None
                    }
                } else {
                    Some(p)
                };
                match after_super {
                    None => None,
                    Some(q) => {
                        if kind_of(tokens, q) != TokenType::LeftBrace {
                            None
                        } else {
                            match field_list_end_at(tokens, q + 1) {
                                None => None,
                                Some(fend) => if kind_of(tokens, fend)
                                    == TokenType::RightBrace {
                                    Some(fend + 1)
                                } else {
                                    None
                                },
                            }
                        }
                    },
                }
            },
        }
    }
}

/// One past the last token of the function declaration deriving at `i`:
/// `'fn' Identifier GenericParams? '(' (Param (',' Param)*)? ')' '->' Type
/// Block`.
pub open spec fn function_end_at(tokens: Seq<Token>, i: int) -> Option<int> {
    if kind_of(tokens, i) != TokenType::Fn || kind_of(tokens, i + 1) != TokenType::Identifier {
        None
    } else {
        match after_generics_at(tokens, i + 2) {
            None => None,
            Some(p) => {
                if kind_of(tokens, p) != TokenType::LeftParenthesis {
                    None
                } else {
                    match param_list_end_at(tokens, p + 1) {
                        None => None,
                        Some(q) => {
                            if kind_of(tokens, q) == TokenType::RightParenthesis && pair_of(
                                tokens,
                                q + 1,
                                TokenType::Minus,
                                TokenType::RightAngle,
                            ) {
                                match type_end_at(tokens, q + 3) {
                                    None => None,
                                    Some(t) => block_end_at(tokens, t),
                                }
                            } else {
                                None
                            }
                        },
                    }
                }
            },
        }
    }
}

/// One past the last token of the top-level declaration deriving at `i`.
pub open spec fn top_level_end_at(tokens: Seq<Token>, i: int) -> Option<int> {
    if kind_of(tokens, i) == TokenType::Struct {
        struct_end_at(tokens, i)
    } else if kind_of(tokens, i) == TokenType::Fn {
        function_end_at(tokens, i)
    } else {
        None
    }
}

/// Whether the tokens from `i` to the end of the stream derive a sequence
/// of complete top-level declarations.
pub open spec fn file_ok_at(tokens: Seq<Token>, i: int) -> bool
    decreases tokens.len() - i,
{
    if i < 0 {
        false
    } else if i >= tokens.len() {
        true
    } else {
        match top_level_end_at(tokens, i) {
            None => false,
            Some(j) => i < j <= tokens.len() && file_ok_at(tokens, j),
        }
    }
}

/// The struct node is exactly what the tokens at `i` derive: declared
/// name, generic parameters, optional superstruct, empty interface list,
/// fields, spanning keyword to closing brace.
pub open spec fn struct_node_matches_at(tokens: Seq<Token>, i: int, s: StructData) -> bool {
    &&& s.name@ == tokens[i + 1].text@
    &&& s.interfaces@.len() == 0
    &&& (kind_of(tokens, i + 2) == TokenType::LeftAngle ==> generics_match_at(
        tokens,
        i + 3,
        s.generic_parameters@,
        generic_list_end_at(tokens, i + 3).unwrap(),
    ))
    &&& (kind_of(tokens, i + 2) != TokenType::LeftAngle ==> s.generic_parameters@.len() == 0)
    &&& (kind_of(tokens, after_generics_at(tokens, i + 2).unwrap())
        == TokenType::LeftParenthesis ==> (s.superstruct matches Some(n)
        && qual_name_matches_at(tokens, after_generics_at(tokens, i + 2).unwrap() + 1, *n)))
    &&& (kind_of(tokens, after_generics_at(tokens, i + 2).unwrap())
        != TokenType::LeftParenthesis ==> s.superstruct is None)
    &&& fields_match_at(
        tokens,
        struct_body_start_at(tokens, i),
        s.fields@,
        struct_end_at(tokens, i).unwrap() - 1,
    )
    &&& s.loc == crate::source::spec_combine(
        tokens[i].loc,
        tokens[struct_end_at(tokens, i).unwrap() - 1].loc,
    )
}

/// The function node is exactly what the tokens at `i` derive: declared
/// name, generic parameters, parameters, return type and body, spanning
/// keyword through body.
pub open spec fn function_node_matches_at(tokens: Seq<Token>, i: int, f: FunctionData) -> bool {
    &&& f.name@ == tokens[i + 1].text@
    &&& (kind_of(tokens, i + 2) == TokenType::LeftAngle ==> generics_match_at(
        tokens,
        i + 3,
        f.generic_parameters@,
        generic_list_end_at(tokens, i + 3).unwrap(),
    ))
    &&& (kind_of(tokens, i + 2) != TokenType::LeftAngle ==> f.generic_parameters@.len() == 0)
    &&& params_match_at(
        tokens,
        after_generics_at(tokens, i + 2).unwrap() + 1,
        f.parameters@,
        param_list_end_at(tokens, after_generics_at(tokens, i + 2).unwrap() + 1).unwrap(),
    )
    &&& type_matches_at(
        tokens,
        param_list_end_at(tokens, after_generics_at(tokens, i + 2).unwrap() + 1).unwrap() + 3,
        *f.ret,
    )
    &&& block_node_matches_at(
        tokens,
        type_end_at(
            tokens,
            param_list_end_at(tokens, after_generics_at(tokens, i + 2).unwrap() + 1).unwrap()
                + 3,
        ).unwrap(),
        f.body,
    )
    &&& f.loc == crate::source::spec_combine(tokens[i].loc, f.body.loc)
}

/// The parsed top-level nodes match the declarations the tokens derive
/// from `i` up to position `end`: one node per declaration, its variant
/// fixed by the dispatch keyword and its declared name by the identifier
/// after it.
pub open spec fn decls_match_at(
    tokens: Seq<Token>,
    i: int,
    nodes: Seq<Box<TopLevelNode>>,
    end: int,
) -> bool
    decreases nodes.len(),
{
    if nodes.len() == 0 {
        end == i
    } else {
        match top_level_end_at(tokens, i) {
            None => false,
            Some(j) => {
                &&& ((*nodes[0]) is Struct <==> kind_of(tokens, i) == TokenType::Struct)
                &&& ((*nodes[0]) is Function <==> kind_of(tokens, i) == TokenType::Fn)
                &&& ((*nodes[0]) matches TopLevelNode::Struct(s) ==> struct_node_matches_at(
                    tokens,
                    i,
                    s,
                ))
                &&& ((*nodes[0]) matches TopLevelNode::Function(f) ==> function_node_matches_at(
                    tokens,
                    i,
                    f,
                ))
                &&& decls_match_at(tokens, j, nodes.drop_first(), end)
            },
        }
    }
}

/// Appending a node that matches the declaration at `p` extends a matching
/// node sequence ending at `p`.
proof fn lemma_decls_match_push(
    tokens: Seq<Token>,
    i: int,
    nodes: Seq<Box<TopLevelNode>>,
    x: Box<TopLevelNode>,
    p: int,
    j: int,
)
    requires
        decls_match_at(tokens, i, nodes, p),
        top_level_end_at(tokens, p) == Some(j),
        (*x) is Struct <==> kind_of(tokens, p) == TokenType::Struct,
        (*x) is Function <==> kind_of(tokens, p) == TokenType::Fn,
        (*x) matches TopLevelNode::Struct(s) ==> struct_node_matches_at(tokens, p, s),
        (*x) matches TopLevelNode::Function(f) ==> function_node_matches_at(tokens, p, f),
    ensures
        decls_match_at(tokens, i, nodes.push(x), j),
    decreases nodes.len(),
{
    if nodes.len() == 0 {
        assert(nodes.push(x)[0] == x);
        assert(nodes.push(x).drop_first() =~= Seq::<Box<TopLevelNode>>::empty());
        assert(decls_match_at(tokens, j, nodes.push(x).drop_first(), j));
    } else {
        lemma_decls_match_push(
            tokens,
            top_level_end_at(tokens, i).unwrap(),
            nodes.drop_first(),
            x,
            p,
            j,
        );
        assert(nodes.push(x)[0] == nodes[0]);
        assert(nodes.push(x).drop_first() =~= nodes.drop_first().push(x));
        assert(decls_match_at(
            tokens,
            top_level_end_at(tokens, i).unwrap(),
            nodes.push(x).drop_first(),
            j,
        ));
    }
}

/// The number of top-level declarations the tokens from `i` derive.
pub open spec fn top_level_count(tokens: Seq<Token>, i: int) -> nat
    decreases tokens.len() - i,
{
    if i < 0 || i >= tokens.len() {
        0
    } else {
        match top_level_end_at(tokens, i) {
            None => 0,
            Some(j) => if i < j <= tokens.len() {
                1 + top_level_count(tokens, j)
            } else {
                0
            },
        }
    }
}

/// The start position of the `k`-th comma-separated type argument in the
/// list beginning at `i`.
pub open spec fn type_arg_start_at(tokens: Seq<Token>, i: int, k: int) -> int
    decreases k,
{
    if k <= 0 {
        i
    } else {
        match type_end_at(tokens, type_arg_start_at(tokens, i, k - 1)) {
            None => i,
            Some(j) => j + 1,
        }
    }
}

/// The number of comma-separated type arguments the list at `i` derives.
pub open spec fn type_arg_count_at(tokens: Seq<Token>, i: int) -> nat
    decreases tokens.len() - i,
{
    if kind_of(tokens, i) == TokenType::RightParenthesis {
        0
    } else {
        match type_end_at(tokens, i) {
            None => 0,
            Some(j) => if !(i < j <= tokens.len()) {
                0
            } else if kind_of(tokens, j) == TokenType::Comma {
                1 + type_arg_count_at(tokens, j + 1)
            } else {
                1
            },
        }
    }
}

/// The type node is exactly what the tokens at `i` derive: a terminal,
/// wrapped in a reference node exactly when a trailing `&` follows it.
pub open spec fn type_matches_at(tokens: Seq<Token>, i: int, t: TypeNode) -> bool
    decreases t, 1int,
{
    match t {
        TypeNode::Reference(d) => {
            &&& type_terminal_matches_at(tokens, i, *d.typ)
            &&& type_terminal_end_at(tokens, i) matches Some(j) && kind_of(tokens, j)
                == TokenType::Ampersand && d.loc == crate::source::spec_combine(
                (*d.typ).spec_loc(),
                tokens[j].loc,
            )
        },
        _ => {
            &&& type_terminal_matches_at(tokens, i, t)
            &&& (type_terminal_end_at(tokens, i) matches Some(j) ==> kind_of(tokens, j)
                != TokenType::Ampersand)
        },
    }
}

/// The type terminal is exactly what the tokens at `i` derive: a function
/// type after a parenthesis — argument types at their list positions, the
/// return type after the arrow — and a named type without generic arguments
/// otherwise, each node spanning its constituents.
pub open spec fn type_terminal_matches_at(tokens: Seq<Token>, i: int, t: TypeNode) -> bool
    decreases t, 0int,
{
    match t {
        TypeNode::Name(d) => {
            &&& kind_of(tokens, i) != TokenType::LeftParenthesis
            &&& qual_name_matches_at(tokens, i, *d.name)
            &&& d.generic_arguments is None
            &&& d.loc == (*d.name).spec_loc()
        },
        TypeNode::Function(d) => {
            &&& kind_of(tokens, i) == TokenType::LeftParenthesis
            &&& d.arguments@.len() == type_arg_count_at(tokens, i + 1)
            &&& forall|k: int|
                0 <= k < d.arguments@.len() ==> type_matches_at(
                    tokens,
                    type_arg_start_at(tokens, i + 1, k),
                    *(#[trigger] d.arguments@[k]),
                )
            &&& type_list_end_at(tokens, i + 1) matches Some(q) && type_matches_at(
                tokens,
                q + 3,
                *d.ret,
            )
            &&& d.loc == crate::source::spec_combine(tokens[i].loc, (*d.ret).spec_loc())
        },
        TypeNode::Reference(_) => false,
    }
}

/// The start position of the `k`-th statement in the list beginning at `i`.
pub open spec fn stmt_start_at(tokens: Seq<Token>, i: int, k: int) -> int
    decreases k,
{
    if k <= 0 {
        i
    } else {
        match stmt_end_at(tokens, stmt_start_at(tokens, i, k - 1)) {
            None => i,
            Some(j) => j,
        }
    }
}

/// The number of statements the list at `i` derives.
pub open spec fn stmt_count_at(tokens: Seq<Token>, i: int) -> nat
    decreases tokens.len() - i,
{
    if kind_of(tokens, i) == TokenType::RightBrace {
        0
    } else {
        match stmt_end_at(tokens, i) {
            None => 0,
            Some(j) => if i < j <= tokens.len() {
                1 + stmt_count_at(tokens, j)
            } else {
                0
            },
        }
    }
}

/// The expression node is exactly what the tokens at `i` derive: a block
/// after a brace, a terminal otherwise.
pub open spec fn expr_matches_at(tokens: Seq<Token>, i: int, e: ExprNode) -> bool
    decreases e, tokens.len() - i, 1int,
{
    if kind_of(tokens, i) == TokenType::LeftBrace {
        e matches ExprNode::Block(d) && block_node_matches_at(tokens, i, d)
    } else {
        expr_terminal_matches_at(tokens, i, e)
    }
}

/// The expression terminal is exactly what the tokens at `i` derive: the
/// integer literal's value and location, or the expression inside
/// parentheses passed through unchanged.
pub open spec fn expr_terminal_matches_at(tokens: Seq<Token>, i: int, e: ExprNode) -> bool
    decreases e, tokens.len() - i, 0int,
{
    if kind_of(tokens, i) == TokenType::Integer {
        e matches ExprNode::Integer(d) && d.integer == digits_val(tokens[i].text@) && d.loc
            == tokens[i].loc
    } else if kind_of(tokens, i) == TokenType::LeftParenthesis {
        expr_matches_at(tokens, i + 1, e)
    } else {
        false
    }
}

/// The block node is exactly what the tokens at `i` derive: one node per
/// statement at its list position, spanning brace to brace.
pub open spec fn block_node_matches_at(tokens: Seq<Token>, i: int, d: BlockData) -> bool
    decreases d, tokens.len() - i, 0int,
{
    &&& kind_of(tokens, i) == TokenType::LeftBrace
    &&& d.stmts@.len() == stmt_count_at(tokens, i + 1)
    &&& forall|k: int|
        0 <= k < d.stmts@.len() ==> stmt_matches_at(
            tokens,
            stmt_start_at(tokens, i + 1, k),
            *(#[trigger] d.stmts@[k]),
        )
    &&& stmt_list_end_at(tokens, i + 1) matches Some(q) && d.loc == crate::source::spec_combine(
        tokens[i].loc,
        tokens[q].loc,
    )
}

/// The statement node is exactly what the tokens at `i` derive: a return
/// statement spanning keyword to semicolon, or an expression statement
/// spanning its expression to the semicolon.
pub open spec fn stmt_matches_at(tokens: Seq<Token>, i: int, s: StmtNode) -> bool
    decreases s, tokens.len() - i, 2int,
{
    if kind_of(tokens, i) == TokenType::Return {
        s matches StmtNode::Return(d) && expr_matches_at(tokens, i + 1, *d.expr) && (expr_end_at(
            tokens,
            i + 1,
        ) matches Some(j) && d.loc == crate::source::spec_combine(tokens[i].loc, tokens[j].loc))
    } else {
        s matches StmtNode::Expr(d) && expr_matches_at(tokens, i, *d.expr) && (expr_end_at(
            tokens,
            i,
        ) matches Some(j) && d.loc == crate::source::spec_combine(
            (*d.expr).spec_loc(),
            tokens[j].loc,
        ))
    }
}

/// The struct field node is exactly what the tokens at `i` derive: the
/// declared name, the declared type, spanning name through type.
pub open spec fn field_matches_at(tokens: Seq<Token>, i: int, f: StructField) -> bool {
    &&& f.name@ == tokens[i].text@
    &&& type_matches_at(tokens, i + 2, *f.typ)
    &&& f.loc == crate::source::spec_combine(tokens[i].loc, (*f.typ).spec_loc())
}

/// The parsed fields match the field declarations from `i` up to the
/// closing brace at `end`, one node per field.
pub open spec fn fields_match_at(
    tokens: Seq<Token>,
    i: int,
    fields: Seq<Box<StructField>>,
    end: int,
) -> bool
    decreases fields.len(),
{
    if fields.len() == 0 {
        end == i
    } else {
        match struct_field_end_at(tokens, i) {
            None => false,
            Some(j) => field_matches_at(tokens, i, *fields[0]) && fields_match_at(
                tokens,
                j,
                fields.drop_first(),
                end,
            ),
        }
    }
}

proof fn lemma_fields_match_push(
    tokens: Seq<Token>,
    i: int,
    fields: Seq<Box<StructField>>,
    x: Box<StructField>,
    p: int,
    j: int,
)
    requires
        fields_match_at(tokens, i, fields, p),
        struct_field_end_at(tokens, p) == Some(j),
        field_matches_at(tokens, p, *x),
    ensures
        fields_match_at(tokens, i, fields.push(x), j),
    decreases fields.len(),
{
    if fields.len() == 0 {
        assert(fields.push(x)[0] == x);
        assert(fields.push(x).drop_first() =~= Seq::<Box<StructField>>::empty());
        assert(fields_match_at(tokens, j, fields.push(x).drop_first(), j));
    } else {
        lemma_fields_match_push(
            tokens,
            struct_field_end_at(tokens, i).unwrap(),
            fields.drop_first(),
            x,
            p,
            j,
        );
        assert(fields.push(x)[0] == fields[0]);
        assert(fields.push(x).drop_first() =~= fields.drop_first().push(x));
        assert(fields_match_at(
            tokens,
            struct_field_end_at(tokens, i).unwrap(),
            fields.push(x).drop_first(),
            j,
        ));
    }
}

/// The generic parameter node is exactly the identifier at `i`.
pub open spec fn generic_matches_at(tokens: Seq<Token>, i: int, g: GenericParameter) -> bool {
    &&& g.name@ == tokens[i].text@
    &&& g.loc == tokens[i].loc
    &&& g.bound is None
}

/// The parsed generic parameters match the comma-separated identifiers from
/// `i` up to `end` (the closing angle bracket, or just past a final
/// identifier without a trailing comma).
pub open spec fn generics_match_at(
    tokens: Seq<Token>,
    i: int,
    gps: Seq<Box<GenericParameter>>,
    end: int,
) -> bool
    decreases gps.len(),
{
    if gps.len() == 0 {
        end == i
    } else {
        &&& kind_of(tokens, i) == TokenType::Identifier
        &&& generic_matches_at(tokens, i, *gps[0])
        &&& if kind_of(tokens, i + 1) == TokenType::Comma {
            generics_match_at(tokens, i + 2, gps.drop_first(), end)
        } else {
            gps.len() == 1 && end == i + 1
        }
    }
}

/// A comma-continued prefix of a generic parameter list: every node so far
/// is an identifier followed by a comma.
pub open spec fn generics_open_at(
    tokens: Seq<Token>,
    i: int,
    gps: Seq<Box<GenericParameter>>,
    end: int,
) -> bool
    decreases gps.len(),
{
    if gps.len() == 0 {
        end == i
    } else {
        &&& kind_of(tokens, i) == TokenType::Identifier
        &&& generic_matches_at(tokens, i, *gps[0])
        &&& kind_of(tokens, i + 1) == TokenType::Comma
        &&& generics_open_at(tokens, i + 2, gps.drop_first(), end)
    }
}

proof fn lemma_generics_open_push(
    tokens: Seq<Token>,
    i: int,
    gps: Seq<Box<GenericParameter>>,
    x: Box<GenericParameter>,
    p: int,
)
    requires
        generics_open_at(tokens, i, gps, p),
        kind_of(tokens, p) == TokenType::Identifier,
        generic_matches_at(tokens, p, *x),
        kind_of(tokens, p + 1) == TokenType::Comma,
    ensures
        generics_open_at(tokens, i, gps.push(x), p + 2),
    decreases gps.len(),
{
    if gps.len() == 0 {
        assert(gps.push(x)[0] == x);
        assert(gps.push(x).drop_first() =~= Seq::<Box<GenericParameter>>::empty());
        assert(generics_open_at(tokens, p + 2, gps.push(x).drop_first(), p + 2));
    } else {
        lemma_generics_open_push(tokens, i + 2, gps.drop_first(), x, p);
        assert(gps.push(x)[0] == gps[0]);
        assert(gps.push(x).drop_first() =~= gps.drop_first().push(x));
    }
}

proof fn lemma_generics_open_close(
    tokens: Seq<Token>,
    i: int,
    gps: Seq<Box<GenericParameter>>,
    x: Box<GenericParameter>,
    p: int,
)
    requires
        generics_open_at(tokens, i, gps, p),
        kind_of(tokens, p) == TokenType::Identifier,
        generic_matches_at(tokens, p, *x),
        kind_of(tokens, p + 1) != TokenType::Comma,
    ensures
        generics_match_at(tokens, i, gps.push(x), p + 1),
    decreases gps.len(),
{
    if gps.len() == 0 {
        assert(gps.push(x)[0] == x);
        assert(gps.push(x).drop_first() =~= Seq::<Box<GenericParameter>>::empty());
    } else {
        lemma_generics_open_close(tokens, i + 2, gps.drop_first(), x, p);
        assert(gps.push(x)[0] == gps[0]);
        assert(gps.push(x).drop_first() =~= gps.drop_first().push(x));
    }
}

/// An open chain whose next position closes the list is a complete match.
proof fn lemma_generics_open_to_match(
    tokens: Seq<Token>,
    i: int,
    gps: Seq<Box<GenericParameter>>,
    end: int,
)
    requires
        generics_open_at(tokens, i, gps, end),
    ensures
        generics_match_at(tokens, i, gps, end),
    decreases gps.len(),
{
    if gps.len() > 0 {
        lemma_generics_open_to_match(tokens, i + 2, gps.drop_first(), end);
    }
}


/// The function parameter node is exactly what the tokens at `i` derive.
pub open spec fn param_matches_at(tokens: Seq<Token>, i: int, p: FunctionParameter) -> bool {
    &&& p.name@ == tokens[i].text@
    &&& type_matches_at(tokens, i + 2, *p.typ)
    &&& p.loc == crate::source::spec_combine(tokens[i].loc, (*p.typ).spec_loc())
}

/// The parsed parameters match the comma-separated parameter declarations
/// from `i` up to `end` (the closing parenthesis, or just past a final
/// parameter without a trailing comma).
pub open spec fn params_match_at(
    tokens: Seq<Token>,
    i: int,
    ps: Seq<Box<FunctionParameter>>,
    end: int,
) -> bool
    decreases ps.len(),
{
    if ps.len() == 0 {
        end == i
    } else {
        match function_param_end_at(tokens, i) {
            None => false,
            Some(j) => {
                &&& param_matches_at(tokens, i, *ps[0])
                &&& if kind_of(tokens, j) == TokenType::Comma {
                    params_match_at(tokens, j + 1, ps.drop_first(), end)
                } else {
                    ps.len() == 1 && end == j
                }
            },
        }
    }
}

/// A comma-continued prefix of a function parameter list.
pub open spec fn params_open_at(
    tokens: Seq<Token>,
    i: int,
    ps: Seq<Box<FunctionParameter>>,
    end: int,
) -> bool
    decreases ps.len(),
{
    if ps.len() == 0 {
        end == i
    } else {
        match function_param_end_at(tokens, i) {
            None => false,
            Some(j) => {
                &&& param_matches_at(tokens, i, *ps[0])
                &&& kind_of(tokens, j) == TokenType::Comma
                &&& params_open_at(tokens, j + 1, ps.drop_first(), end)
            },
        }
    }
}

proof fn lemma_params_open_push(
    tokens: Seq<Token>,
    i: int,
    ps: Seq<Box<FunctionParameter>>,
    x: Box<FunctionParameter>,
    p: int,
)
    requires
        params_open_at(tokens, i, ps, p),
        function_param_end_at(tokens, p) is Some,
        param_matches_at(tokens, p, *x),
        kind_of(tokens, function_param_end_at(tokens, p).unwrap()) == TokenType::Comma,
    ensures
        params_open_at(tokens, i, ps.push(x), function_param_end_at(tokens, p).unwrap() + 1),
    decreases ps.len(),
{
    if ps.len() == 0 {
        assert(ps.push(x)[0] == x);
        assert(ps.push(x).drop_first() =~= Seq::<Box<FunctionParameter>>::empty());
        assert(params_open_at(
            tokens,
            function_param_end_at(tokens, p).unwrap() + 1,
            ps.push(x).drop_first(),
            function_param_end_at(tokens, p).unwrap() + 1,
        ));
    } else {
        lemma_params_open_push(
            tokens,
            function_param_end_at(tokens, i).unwrap() + 1,
            ps.drop_first(),
            x,
            p,
        );
        assert(ps.push(x)[0] == ps[0]);
        assert(ps.push(x).drop_first() =~= ps.drop_first().push(x));
    }
}

proof fn lemma_params_open_close(
    tokens: Seq<Token>,
    i: int,
    ps: Seq<Box<FunctionParameter>>,
    x: Box<FunctionParameter>,
    p: int,
)
    requires
        params_open_at(tokens, i, ps, p),
        function_param_end_at(tokens, p) is Some,
        param_matches_at(tokens, p, *x),
        kind_of(tokens, function_param_end_at(tokens, p).unwrap()) != TokenType::Comma,
    ensures
        params_match_at(tokens, i, ps.push(x), function_param_end_at(tokens, p).unwrap()),
    decreases ps.len(),
{
    if ps.len() == 0 {
        assert(ps.push(x)[0] == x);
        assert(ps.push(x).drop_first() =~= Seq::<Box<FunctionParameter>>::empty());
    } else {
        lemma_params_open_close(
            tokens,
            function_param_end_at(tokens, i).unwrap() + 1,
            ps.drop_first(),
            x,
            p,
        );
        assert(ps.push(x)[0] == ps[0]);
        assert(ps.push(x).drop_first() =~= ps.drop_first().push(x));
    }
}

/// An open chain whose next position closes the list is a complete match.
proof fn lemma_params_open_to_match(
    tokens: Seq<Token>,
    i: int,
    ps: Seq<Box<FunctionParameter>>,
    end: int,
)
    requires
        params_open_at(tokens, i, ps, end),
    ensures
        params_match_at(tokens, i, ps, end),
    decreases ps.len(),
{
    if ps.len() > 0 {
        lemma_params_open_to_match(
            tokens,
            function_param_end_at(tokens, i).unwrap() + 1,
            ps.drop_first(),
            end,
        );
    }
}


/// Whether position `q` is where a struct's brace sits relative to the
/// position `p` after its generic parameters: either no superstruct clause
/// opens at `p`, or one does and a qualified name runs from `p + 1` to `q`.
pub open spec fn superstruct_shape(tokens: Seq<Token>, p: int, q: int) -> bool {
    if kind_of(tokens, p) == TokenType::LeftParenthesis {
        qual_name_at(tokens, p + 1) && q == qual_name_end_at(tokens, p + 1)
    } else {
        q == p
    }
}

/// The start of a struct's field list: one past its opening brace.
pub open spec fn struct_body_start_at(tokens: Seq<Token>, i: int) -> int {
    let p = after_generics_at(tokens, i + 2).unwrap();
    let q = if kind_of(tokens, p) == TokenType::LeftParenthesis {
        qual_name_end_at(tokens, p + 1)
    } else {
        p
    };
    q + 1
}

/// Whether a handler set (an executable vector of kinds) claims `kind`.
fn kinds_contain(kinds: &Vec<TokenType>, kind: TokenType) -> (r: bool)
    ensures
        r == kinds@.contains(kind),
{
    let n = kinds.len();
    let mut i: usize = 0;
    while i < n
        invariant
            i <= n,
            n == kinds@.len(),
            forall|j: int| 0 <= j < i ==> kinds@[j] != kind,
        decreases n - i,
    {
        if kinds[i] == kind {
            return true;
        }
        i = i + 1;
    }
    false
}

/// Parser state for one file: the error accumulator, the handler stack, the
/// token sequence, the originating source, and the cursor.
pub struct Parser {
    pub errors: ErrorSet<ParseError>,
    pub handlers: Vec<(Vec<TokenType>, SyncFlag)>,
    pub tokens: Vec<Token>,
    pub source: Rc<Source>,
    pub curr_index: usize,
}

impl Parser {
    /// One more than the source's length in characters: a strict bound on
    /// every token's start offset, and the unit of the span-size budget.
    pub open spec fn lb(&self) -> int {
        self.source.text@.len() as int + 1
    }

    /// Every token's location points into this parser's source.
    pub open spec fn tokens_wf(&self) -> bool {
        forall|i: int|
            0 <= i < self.tokens@.len() ==> token_from_source(
                #[trigger] self.tokens@[i],
                self.source,
            )
    }

    /// Handlers are tagged with their own depth; depth 0, the sentinel whose
    /// kind set is empty, is always present.
    pub open spec fn handlers_wf(&self) -> bool {
        &&& self.handlers@.len() >= 1
        &&& self.handlers@[0].0@ == Seq::<TokenType>::empty()
        &&& forall|i: int| 0 <= i < self.handlers@.len() ==> (#[trigger] self.handlers@[i]).1 == i
    }

    /// Every collected error points into this parser's source and can be
    /// rendered.
    pub open spec fn errors_wf(&self) -> bool {
        forall|i: int|
            0 <= i < self.errors@.len() ==> error_from_source(
                #[trigger] self.errors@[i],
                self.source,
            )
    }

    pub open spec fn wf(&self) -> bool {
        &&& self.curr_index <= self.tokens@.len()
        &&& self.source.wf()
        &&& self.source.text@.len() < usize::MAX
        &&& self.lb() * (self.tokens@.len() + 1) <= usize::MAX
        &&& self.tokens_wf()
        &&& self.handlers_wf()
        &&& self.errors_wf()
    }

    /// What every parsing step preserves: the tokens, the source and the
    /// handler stack are unchanged, the cursor and the error count only
    /// grow, and well-formedness is kept.
    pub open spec fn frame(pre: Parser, post: Parser) -> bool {
        &&& post.tokens == pre.tokens
        &&& post.source == pre.source
        &&& post.handlers@ == pre.handlers@
        &&& pre.curr_index <= post.curr_index
        &&& pre.errors@.len() <= post.errors@.len()
        &&& post.wf()
    }

    /// The kind of the token at position `i`, or the synthetic end-of-file
    /// kind past the end.
    pub open spec fn kind_at(&self, i: int) -> TokenType {
        if 0 <= i < self.tokens@.len() {
            self.tokens@[i].token_type
        } else {
            TokenType::EOF
        }
    }

    /// Whether whitespace precedes the token at position `i` (the synthetic
    /// end-of-file token is never whitespace-preceded).
    pub open spec fn ws_at(&self, i: int) -> bool {
        if 0 <= i < self.tokens@.len() {
            self.tokens@[i].leading_ws
        } else {
            false
        }
    }

    /// The kind of the token under the cursor.
    pub open spec fn curr_kind(&self) -> TokenType {
        self.kind_at(self.curr_index as int)
    }

    /// The location of the token under the cursor, or the synthetic
    /// end-of-file location past the end.
    pub open spec fn spec_curr_loc(&self) -> Location {
        if self.curr_index < self.tokens@.len() {
            self.tokens@[self.curr_index as int].loc
        } else {
            Location {
                source: self.source,
                line: (self.source.lines@.len() - 1) as usize,
                offset: self.source.text@.len() as usize,
                length: 1,
                multiline: false,
            }
        }
    }

    /// Whether the tokens at positions `i` and `i + 1` form the adjacent
    /// pair `(first, second)` with no whitespace between.
    pub open spec fn pair_at_pos(&self, i: int, first: TokenType, second: TokenType) -> bool {
        &&& self.kind_at(i) == first
        &&& self.kind_at(i + 1) == second
        &&& !self.ws_at(i + 1)
    }

    /// Whether the tokens at the cursor and right after it form the adjacent
    /// pair `(first, second)` with no whitespace between.
    pub open spec fn pair_at(&self, first: TokenType, second: TokenType) -> bool {
        self.pair_at_pos(self.curr_index as int, first, second)
    }



    pub fn new(source: Rc<Source>, tokens: Vec<Token>) -> (r: Parser)
        requires
            source.wf(),
            source.text@.len() < usize::MAX,
            forall|i: int|
                0 <= i < tokens@.len() ==> token_from_source(#[trigger] tokens@[i], source),
            (source.text@.len() + 1) * (tokens@.len() + 1) <= usize::MAX,
        ensures
            r.wf(),
            r.curr_index == 0,
            r.tokens == tokens,
            r.source == source,
            r.errors@ == Seq::<ParseError>::empty(),
            r.handlers@.len() == 1,
            r.handlers@[0].0@ == Seq::<TokenType>::empty(),
    {
        let mut handlers: Vec<(Vec<TokenType>, SyncFlag)> = Vec::new();
        handlers.push((Vec::new(), 0));
        Parser { errors: ErrorSet::new(), handlers, tokens, source, curr_index: 0 }
    }

    /// Whether the cursor has run past the last token.
    pub fn is_done(&self) -> (r: bool)
        ensures
            r == (self.curr_index >= self.tokens@.len()),
    {
        self.curr_index >= self.tokens.len()
    }

    /// The token under the cursor, or a synthetic end-of-file token once the
    /// cursor runs past the end — every lookahead is total.
    pub fn curr(&self) -> (r: Token)
        requires
            self.wf(),
        ensures
            r.token_type == self.curr_kind(),
            r.loc == self.spec_curr_loc(),
            r.leading_ws == self.ws_at(self.curr_index as int),
            token_from_source(r, self.source),
            self.curr_index < self.tokens@.len() ==> r == self.tokens@[self.curr_index as int],
            self.curr_index >= self.tokens@.len() ==> r.text@ == "\0"@,
    {
        if self.curr_index >= self.tokens.len() {
            proof {
                crate::source::lemma_line_ranges_from_props(self.source.text@, 0, 0);
            }
            Token::new("\0", TokenType::EOF, Location::new_eof(Rc::clone(&self.source)), false)
        } else {
            self.tokens[self.curr_index].clone()
        }
    }

    /// The token after the one under the cursor, or the synthetic
    /// end-of-file token.
    pub fn next(&self) -> (r: Token)
        requires
            self.wf(),
        ensures
            r.token_type == self.kind_at(self.curr_index + 1),
            r.leading_ws == self.ws_at(self.curr_index + 1),
            token_from_source(r, self.source),
            self.curr_index + 1 < self.tokens@.len() ==> r == self.tokens@[self.curr_index + 1],
    {
        let len = self.tokens.len();
        if self.curr_index >= len || len - self.curr_index == 1 {
            proof {
                crate::source::lemma_line_ranges_from_props(self.source.text@, 0, 0);
            }
            Token::new("\0", TokenType::EOF, Location::new_eof(Rc::clone(&self.source)), false)
        } else {
            self.tokens[self.curr_index + 1].clone()
        }
    }

    /// Pure lookahead: does the token under the cursor have this kind?
    pub fn expect(&self, expected: TokenType) -> (r: bool)
        requires
            self.wf(),
        ensures
            r == (self.curr_kind() == expected),
    {
        let c = self.curr();
        c.token_type == expected
    }

    /// Pure lookahead: do the next two tokens form the adjacent symbol pair
    /// `(first, second)` with no whitespace between? This is how `->` and
    /// `::` are recognized from single-character tokens.
    pub fn expect_symbol(&self, first: TokenType, second: TokenType) -> (r: bool)
        requires
            self.wf(),
        ensures
            r == self.pair_at(first, second),
    {
        let next = self.next();
        let c = self.curr();
        c.token_type == first && next.token_type == second && !next.leading_ws
    }

    /// Consumes and returns the token under the cursor. Past the end it
    /// returns the synthetic end-of-file token and the cursor stays put — a
    /// deliberate change from letting the counter run past the end, which
    /// nothing can observe through the lookahead primitives and which would
    /// forfeit the invariant that the cursor stays within the stream.
    pub fn advance(&mut self) -> (r: Token)
        requires
            old(self).wf(),
        ensures
            final(self).tokens == old(self).tokens,
            final(self).source == old(self).source,
            final(self).handlers@ == old(self).handlers@,
            final(self).errors == old(self).errors,
            final(self).wf(),
            r.token_type == old(self).curr_kind(),
            r.loc == old(self).spec_curr_loc(),
            old(self).curr_index < old(self).tokens@.len() ==> {
                &&& final(self).curr_index == old(self).curr_index + 1
                &&& r == old(self).tokens@[old(self).curr_index as int]
            },
            old(self).curr_index >= old(self).tokens@.len() ==> {
                &&& final(self).curr_index == old(self).curr_index
                &&& r.text@ == "\0"@
                &&& !r.leading_ws
            },
    {
        proof {
            vstd::std_specs::vec::axiom_spec_len(&self.tokens);
        }
        let tok = self.curr();
        if self.curr_index < self.tokens.len() {
            self.curr_index = self.curr_index + 1;
        }
        tok
    }

    /// Skips forward to the first token some handler claims (leaving the
    /// cursor on it) and reports that handler's depth; reports 0 when the
    /// stream runs out first.
    pub fn synchronize<T>(&mut self) -> (r: ParseResult<T>)
        requires
            old(self).wf(),
        ensures
            final(self).tokens == old(self).tokens,
            final(self).source == old(self).source,
            final(self).handlers@ == old(self).handlers@,
            final(self).errors == old(self).errors,
            final(self).wf(),
            old(self).curr_index <= final(self).curr_index,
            final(self).curr_index == sync_stop(
                old(self).tokens@,
                old(self).handlers@,
                old(self).curr_index as int,
            ).0,
            r matches Err(f) && f == sync_stop(
                old(self).tokens@,
                old(self).handlers@,
                old(self).curr_index as int,
            ).1,
            r matches Err(f) && f < old(self).handlers@.len(),
            r matches Err(f) && (f == 0 <==> final(self).curr_index >= final(self).tokens@.len()),
    {
        while self.curr_index < self.tokens.len()
            invariant
                self.wf(),
                self.tokens == old(self).tokens,
                self.source == old(self).source,
                self.handlers@ == old(self).handlers@,
                self.errors == old(self).errors,
                old(self).curr_index <= self.curr_index,
                sync_stop(old(self).tokens@, old(self).handlers@, old(self).curr_index as int)
                    == sync_stop(self.tokens@, self.handlers@, self.curr_index as int),
            decreases self.tokens@.len() - self.curr_index,
        {
            let kind = self.tokens[self.curr_index].token_type;
            let hn = self.handlers.len();
            let mut h: usize = 0;
            while h < hn
                invariant
                    h <= hn,
                    hn == self.handlers@.len(),
                    self.wf(),
                    self.tokens == old(self).tokens,
                    self.source == old(self).source,
                    self.handlers@ == old(self).handlers@,
                    self.errors == old(self).errors,
                    old(self).curr_index <= self.curr_index,
                    sync_stop(old(self).tokens@, old(self).handlers@, old(self).curr_index as int)
                        == sync_stop(self.tokens@, self.handlers@, self.curr_index as int),
                    self.curr_index < self.tokens@.len(),
                    self.tokens@.len() <= usize::MAX,
                    kind == self.tokens@[self.curr_index as int].token_type,
                    forall|j: int| 0 <= j < h ==> !(#[trigger] self.handlers@[j]).0@.contains(kind),
                decreases hn - h,
            {
                if kinds_contain(&self.handlers[h].0, kind) {
                    proof {
                        lemma_first_handler_scan(self.handlers@, kind, h as int);
                        assert(h != 0);
                    }
                    return Err(self.handlers[h].1);
                }
                h = h + 1;
            }
            proof {
                lemma_first_handler_scan(self.handlers@, kind, hn as int);
            }
            self.curr_index = self.curr_index + 1;
        }
        Err(0)
    }

    /// If the token under the cursor has the expected kind, consumes and
    /// returns it; otherwise records an "unexpected token" diagnostic at the
    /// cursor and synchronizes. The end-of-file kind is a synthetic sentinel
    /// no grammar rule requests, so asking for it is excluded up front:
    /// consuming it would have to move the cursor past the stream's end.
    pub fn consume(&mut self, expected: TokenType) -> (r: ParseResult<Token>)
        requires
            old(self).wf(),
            expected != TokenType::EOF,
        ensures
            final(self).tokens == old(self).tokens,
            final(self).source == old(self).source,
            final(self).handlers@ == old(self).handlers@,
            final(self).wf(),
            old(self).curr_index <= final(self).curr_index,
            old(self).curr_kind() == expected ==> {
                &&& r matches Ok(t) && t == old(self).tokens@[old(self).curr_index as int]
                &&& final(self).curr_index == old(self).curr_index + 1
                &&& final(self).errors == old(self).errors
            },
            old(self).curr_kind() != expected ==> {
                &&& final(self).errors@ == old(self).errors@.push(
                    ParseError::UnexpectedToken {
                        expected,
                        got: old(self).curr_kind(),
                        loc: old(self).spec_curr_loc(),
                    },
                )
                &&& final(self).curr_index == sync_stop(
                    old(self).tokens@,
                    old(self).handlers@,
                    old(self).curr_index as int,
                ).0
                &&& r matches Err(f) && f == sync_stop(
                    old(self).tokens@,
                    old(self).handlers@,
                    old(self).curr_index as int,
                ).1 && f < old(self).handlers@.len()
            },
    {
        if self.expect(expected) {
            Ok(self.advance())
        } else {
            let got = self.curr();
            self.errors.add_error(
                ParseError::UnexpectedToken { expected, got: got.token_type, loc: got.loc },
            );
            self.synchronize()
        }
    }

    /// If the next two tokens form the adjacent pair, consumes and returns
    /// both; otherwise records an `Expected a <name>.` diagnostic at the
    /// cursor and synchronizes.
    pub fn consume_symbol(&mut self, first: TokenType, second: TokenType, name: &str) -> (r:
        ParseResult<(Token, Token)>)
        requires
            old(self).wf(),
            first != TokenType::EOF,
            second != TokenType::EOF,
        ensures
            final(self).tokens == old(self).tokens,
            final(self).source == old(self).source,
            final(self).handlers@ == old(self).handlers@,
            final(self).wf(),
            old(self).curr_index <= final(self).curr_index,
            old(self).pair_at(first, second) ==> {
                &&& r matches Ok(ts) && ts.0 == old(self).tokens@[old(self).curr_index as int]
                    && ts.1 == old(self).tokens@[old(self).curr_index + 1]
                &&& final(self).curr_index == old(self).curr_index + 2
                &&& final(self).errors == old(self).errors
            },
            !old(self).pair_at(first, second) ==> {
                &&& final(self).errors@.len() == old(self).errors@.len() + 1
                &&& final(self).errors@.subrange(0, old(self).errors@.len() as int) == old(
                    self,
                ).errors@
                &&& final(self).errors@.last() matches ParseError::WithMessage(m, l) && m@
                    == "Expected a "@ + name@ + "."@ && l == old(self).spec_curr_loc()
                &&& final(self).curr_index == sync_stop(
                    old(self).tokens@,
                    old(self).handlers@,
                    old(self).curr_index as int,
                ).0
                &&& r matches Err(f) && f == sync_stop(
                    old(self).tokens@,
                    old(self).handlers@,
                    old(self).curr_index as int,
                ).1 && f < old(self).handlers@.len()
            },
    {
        if self.expect_symbol(first, second) {
            let t1 = self.advance();
            let t2 = self.advance();
            Ok((t1, t2))
        } else {
            let mut m = String::from_str("Expected a ");
            m.append(name);
            m.append(".");
            let loc = self.curr().loc;
            proof {
                assert(m@ =~= "Expected a "@ + name@ + "."@);
            }
            let ghost pre_errors = self.errors@;
            self.errors.add_error(ParseError::WithMessage(m, loc));
            proof {
                assert(self.errors@.subrange(0, pre_errors.len() as int) =~= pre_errors);
            }
            self.synchronize()
        }
    }

    /// Like `consume`, but with a caller-supplied diagnostic message for
    /// sites where the generic wording would be unhelpful.
    pub fn consume_error(&mut self, expected: TokenType, error_msg: &str) -> (r: ParseResult<Token>)
        requires
            old(self).wf(),
            expected != TokenType::EOF,
        ensures
            final(self).tokens == old(self).tokens,
            final(self).source == old(self).source,
            final(self).handlers@ == old(self).handlers@,
            final(self).wf(),
            old(self).curr_index <= final(self).curr_index,
            old(self).curr_kind() == expected ==> {
                &&& r matches Ok(t) && t == old(self).tokens@[old(self).curr_index as int]
                &&& final(self).curr_index == old(self).curr_index + 1
                &&& final(self).errors == old(self).errors
            },
            old(self).curr_kind() != expected ==> {
                &&& final(self).errors@.len() == old(self).errors@.len() + 1
                &&& final(self).errors@.subrange(0, old(self).errors@.len() as int) == old(
                    self,
                ).errors@
                &&& final(self).errors@.last() matches ParseError::WithMessage(m, l) && m@
                    == error_msg@ && l == old(self).spec_curr_loc()
                &&& final(self).curr_index == sync_stop(
                    old(self).tokens@,
                    old(self).handlers@,
                    old(self).curr_index as int,
                ).0
                &&& r matches Err(f) && f == sync_stop(
                    old(self).tokens@,
                    old(self).handlers@,
                    old(self).curr_index as int,
                ).1 && f < old(self).handlers@.len()
            },
    {
        if self.expect(expected) {
            Ok(self.advance())
        } else {
            let loc = self.curr().loc;
            let ghost pre_errors = self.errors@;
            self.errors.add_error(ParseError::WithMessage(String::from_str(error_msg), loc));
            proof {
                assert(self.errors@.subrange(0, pre_errors.len() as int) =~= pre_errors);
            }
            self.synchronize()
        }
    }
}

proof fn lemma_mul_mono_left(k: int, x: int, y: int)
    requires
        k >= 1,
        x <= y,
    ensures
        k * x <= k * y,
{
    assert(k * x <= k * y) by (nonlinear_arith)
        requires
            k >= 1,
            x <= y,
    ;
}

/// A token's location always fits budget 0.
proof fn lemma_token_budget(p: Parser, t: Token)
    requires
        token_from_source(t, p.source),
    ensures
        p.loc_in_budget(t.loc, 0),
{
}

/// A location within a smaller budget is within every larger one.
proof fn lemma_budget_mono(p: Parser, l: Location, d1: int, d2: int)
    requires
        p.loc_in_budget(l, d1),
        0 <= d1 <= d2,
    ensures
        p.loc_in_budget(l, d2),
{
    lemma_mul_mono_left(p.lb(), d1 + 1, d2 + 1);
}

/// Combining two locations within strictly smaller budgets gives a location
/// within the budget: the combined end grows by less than one budget unit.
proof fn lemma_budget_combine(
    p: Parser,
    a: Location,
    b: Location,
    r: Location,
    da: int,
    db: int,
    d: int,
)
    requires
        p.loc_in_budget(a, da),
        p.loc_in_budget(b, db),
        0 <= da < d,
        0 <= db < d,
        r.span() == combine_span(a.span(), b.span()),
        r.source == a.source,
    ensures
        p.loc_in_budget(r, d),
{
    let lb = p.lb();
    lemma_mul_mono_left(lb, da + 1, d);
    lemma_mul_mono_left(lb, db + 1, d);
    assert(lb * d + lb == lb * (d + 1)) by (nonlinear_arith);
}

/// A location within a budget bounded by the token count has an end the
/// machine can represent, as `combine` requires.
proof fn lemma_budget_end_bound(p: Parser, l: Location, d: int)
    requires
        p.wf(),
        p.loc_in_budget(l, d),
        0 <= d <= p.tokens@.len(),
    ensures
        l.offset + l.length <= usize::MAX,
{
    lemma_mul_mono_left(p.lb(), d + 1, p.tokens@.len() as int + 1);
}

impl Parser {
    /// The location lies in this parser's source within span budget `d`: its
    /// start offset is below `lb` and its end within `lb * (d + 1)`.
    pub open spec fn loc_in_budget(&self, l: Location, d: int) -> bool {
        &&& l.source == self.source
        &&& l.offset < self.lb()
        &&& l.offset + l.length <= self.lb() * (d + 1)
    }

    /// Parses `QualName := Identifier ('::' Identifier)*`, left-associative;
    /// each `::` must be two adjacent colons with no whitespace between.
    pub fn parse_qual_name(&mut self) -> (r: ParseResult<Box<QualifiedNameNode>>)
        requires
            old(self).wf(),
        ensures
            Parser::frame(*old(self), *final(self)),
            r matches Err(f) ==> f < old(self).handlers@.len(),
            r matches Err(_) ==> final(self).errors@.len() > old(self).errors@.len(),
            r matches Ok(_) ==> final(self).errors == old(self).errors,
            r matches Ok(node) ==> final(self).curr_index > old(self).curr_index && final(self).loc_in_budget(
                node.spec_loc(),
                final(self).curr_index - old(self).curr_index,
            ),
            r matches Ok(node) ==> {
                &&& old(self).curr_kind() == TokenType::Identifier
                &&& (*node).parts().len() >= 1
                &&& final(self).curr_index - old(self).curr_index == 3 * ((*node).parts().len()
                    - 1) + 1
                &&& forall|j: int|
                    0 <= j < (*node).parts().len() ==> (*node).parts()[j] == old(self).tokens@[old(
                        self,
                    ).curr_index + 3 * j].text@
            },
            qual_name_at(old(self).tokens@, old(self).curr_index as int) ==> (r matches Ok(_)
                && final(self).curr_index == qual_name_end_at(
                old(self).tokens@,
                old(self).curr_index as int,
            )),
            r matches Ok(node) ==> qual_name_matches_at(
                old(self).tokens@,
                old(self).curr_index as int,
                *node,
            ),
            r matches Ok(_) ==> (qual_name_at(old(self).tokens@, old(self).curr_index as int)
                && final(self).curr_index == qual_name_end_at(
                old(self).tokens@,
                old(self).curr_index as int,
            )),
    {
        let name = self.consume(TokenType::Identifier)?;
        let mut left = Box::new(
            QualifiedNameNode::Name(QualNameData { loc: name.get_loc().clone(), name: name.text }),
        );
        proof {
            lemma_token_budget(*self, name);
            lemma_budget_mono(
                *self,
                left.spec_loc(),
                0,
                self.curr_index - old(self).curr_index,
            );
        }
        while self.expect_symbol(TokenType::Colon, TokenType::Colon)
            invariant
                self.wf(),
                self.tokens == old(self).tokens,
                self.source == old(self).source,
                self.handlers@ == old(self).handlers@,
                old(self).errors@.len() <= self.errors@.len(),
                self.errors == old(self).errors,
                old(self).curr_index < self.curr_index,
                self.loc_in_budget(left.spec_loc(), self.curr_index - old(self).curr_index),
                (*left).parts().len() >= 1,
                self.curr_index - old(self).curr_index == 3 * ((*left).parts().len() - 1) + 1,
                forall|j: int|
                    0 <= j < (*left).parts().len() ==> (*left).parts()[j] == old(self).tokens@[old(
                        self,
                    ).curr_index + 3 * j].text@,
                qual_name_matches_at(old(self).tokens@, old(self).curr_index as int, *left),
                kind_of(old(self).tokens@, self.curr_index - 1) == TokenType::Identifier,
                qual_name_at(old(self).tokens@, self.curr_index - 1) ==> qual_name_at(
                    old(self).tokens@,
                    old(self).curr_index as int,
                ),
                qual_name_end_at(old(self).tokens@, old(self).curr_index as int)
                    == qual_name_end_at(old(self).tokens@, self.curr_index - 1),
                qual_name_at(old(self).tokens@, old(self).curr_index as int) ==> {
                    &&& qual_name_at(self.tokens@, self.curr_index - 1)
                    &&& qual_name_end_at(self.tokens@, old(self).curr_index as int)
                        == qual_name_end_at(self.tokens@, self.curr_index - 1)
                },
            ensures
                self.wf(),
                self.tokens == old(self).tokens,
                self.source == old(self).source,
                self.handlers@ == old(self).handlers@,
                old(self).errors@.len() <= self.errors@.len(),
                self.errors == old(self).errors,
                old(self).curr_index < self.curr_index,
                self.loc_in_budget(left.spec_loc(), self.curr_index - old(self).curr_index),
                (*left).parts().len() >= 1,
                self.curr_index - old(self).curr_index == 3 * ((*left).parts().len() - 1) + 1,
                forall|j: int|
                    0 <= j < (*left).parts().len() ==> (*left).parts()[j] == old(self).tokens@[old(
                        self,
                    ).curr_index + 3 * j].text@,
                qual_name_matches_at(old(self).tokens@, old(self).curr_index as int, *left),
                kind_of(old(self).tokens@, self.curr_index - 1) == TokenType::Identifier,
                qual_name_at(old(self).tokens@, self.curr_index - 1) ==> qual_name_at(
                    old(self).tokens@,
                    old(self).curr_index as int,
                ),
                qual_name_end_at(old(self).tokens@, old(self).curr_index as int)
                    == qual_name_end_at(old(self).tokens@, self.curr_index - 1),
                qual_name_at(old(self).tokens@, old(self).curr_index as int) ==> {
                    &&& qual_name_at(self.tokens@, self.curr_index - 1)
                    &&& qual_name_end_at(self.tokens@, old(self).curr_index as int)
                        == qual_name_end_at(self.tokens@, self.curr_index - 1)
                },
                !self.pair_at(TokenType::Colon, TokenType::Colon),
            decreases self.tokens@.len() - self.curr_index,
        {
            let ghost step_pre = *self;
            proof {
                if qual_name_at(old(self).tokens@, old(self).curr_index as int) {
                    assert(pair_of(
                        step_pre.tokens@,
                        step_pre.curr_index as int,
                        TokenType::Colon,
                        TokenType::Colon,
                    ));
                    assert(qual_name_at(step_pre.tokens@, step_pre.curr_index - 1));
                    assert(qual_name_at(step_pre.tokens@, step_pre.curr_index + 2));
                    assert(kind_of(step_pre.tokens@, step_pre.curr_index + 2)
                        == TokenType::Identifier);
                    assert(qual_name_end_at(step_pre.tokens@, step_pre.curr_index - 1)
                        == qual_name_end_at(step_pre.tokens@, step_pre.curr_index + 2));
                }
            }
            self.advance();
            self.advance();
            let attr_name = self.consume(TokenType::Identifier)?;
            proof {
                lemma_token_budget(*self, attr_name);
                lemma_budget_end_bound(
                    *self,
                    left.spec_loc(),
                    step_pre.curr_index - old(self).curr_index,
                );
                lemma_budget_end_bound(*self, attr_name.loc, 0);
            }
            let loc = left.get_loc().combine(attr_name.get_loc());
            proof {
                lemma_budget_combine(
                    *self,
                    left.spec_loc(),
                    attr_name.loc,
                    loc,
                    step_pre.curr_index - old(self).curr_index,
                    0,
                    self.curr_index - old(self).curr_index,
                );
            }
            let ghost prev_left = *left;
            left = Box::new(
                QualifiedNameNode::Namespace(
                    QualNamespaceData { loc, source: left, attr: attr_name.text },
                ),
            );
            proof {
                assert((*left).parts() =~= prev_left.parts().push(attr_name.text@));
            }
        }
        Ok(left)
    }

    /// Parses `NameType := QualName`; generic arguments exist in the tree
    /// but no rule yet produces them.
    pub fn parse_name_type(&mut self) -> (r: ParseResult<TypeNameData>)
        requires
            old(self).wf(),
        ensures
            Parser::frame(*old(self), *final(self)),
            r matches Err(f) ==> f < old(self).handlers@.len(),
            r matches Err(_) ==> final(self).errors@.len() > old(self).errors@.len(),
            r matches Ok(_) ==> final(self).errors == old(self).errors,
            r matches Ok(node) ==> final(self).curr_index > old(self).curr_index && final(self).loc_in_budget(node.loc, final(self).curr_index - old(self).curr_index),
            r matches Ok(node) ==> node.generic_arguments is None,
            r matches Ok(node) ==> {
                &&& (*node.name).parts().len() >= 1
                &&& final(self).curr_index - old(self).curr_index == 3 * ((*node.name).parts().len()
                    - 1) + 1
                &&& forall|j: int|
                    0 <= j < (*node.name).parts().len() ==> (*node.name).parts()[j] == old(
                        self,
                    ).tokens@[old(self).curr_index + 3 * j].text@
            },
            qual_name_at(old(self).tokens@, old(self).curr_index as int) ==> (r matches Ok(_)
                && final(self).curr_index == qual_name_end_at(
                old(self).tokens@,
                old(self).curr_index as int,
            )),
            r matches Ok(node) ==> qual_name_matches_at(
                old(self).tokens@,
                old(self).curr_index as int,
                *node.name,
            ) && node.loc == (*node.name).spec_loc(),
            r matches Ok(_) ==> (qual_name_at(old(self).tokens@, old(self).curr_index as int)
                && final(self).curr_index == qual_name_end_at(
                old(self).tokens@,
                old(self).curr_index as int,
            )),
    {
        let name = self.parse_qual_name()?;
        Ok(TypeNameData { loc: name.get_loc().clone(), name, generic_arguments: None })
    }

    /// Parses `Type := TypeTerminal '&'?`; a trailing `&` wraps the terminal
    /// in a reference type.
    pub fn parse_type(&mut self) -> (r: ParseResult<Box<TypeNode>>)
        requires
            old(self).wf(),
        ensures
            Parser::frame(*old(self), *final(self)),
            r matches Err(f) ==> f < old(self).handlers@.len(),
            r matches Err(_) ==> final(self).errors@.len() > old(self).errors@.len(),
            r matches Ok(_) ==> final(self).errors == old(self).errors,
            r matches Ok(node) ==> final(self).curr_index > old(self).curr_index && final(self).loc_in_budget(
                node.spec_loc(),
                final(self).curr_index - old(self).curr_index,
            ),
            type_end_at(old(self).tokens@, old(self).curr_index as int) matches Some(j) ==> (
            r matches Ok(node) && final(self).curr_index == j && type_matches_at(
                old(self).tokens@,
                old(self).curr_index as int,
                *node,
            )),
            r matches Ok(_) ==> type_end_at(old(self).tokens@, old(self).curr_index as int)
                == Some(final(self).curr_index as int),
        decreases self.tokens@.len() - self.curr_index, 3int,
    {
        let typ = self.parse_type_terminal()?;
        if self.expect(TokenType::Ampersand) {
            let ghost mid = *self;
            let tok = self.consume(TokenType::Ampersand)?;
            proof {
                lemma_token_budget(*self, tok);
                lemma_budget_end_bound(
                    *self,
                    typ.spec_loc(),
                    mid.curr_index - old(self).curr_index,
                );
                lemma_budget_end_bound(*self, tok.loc, 0);
            }
            let loc = typ.get_loc().combine(tok.get_loc());
            proof {
                lemma_budget_combine(
                    *self,
                    typ.spec_loc(),
                    tok.loc,
                    loc,
                    mid.curr_index - old(self).curr_index,
                    0,
                    self.curr_index - old(self).curr_index,
                );
            }
            Ok(Box::new(TypeNode::Reference(TypeReferenceData { loc, typ })))
        } else {
            Ok(typ)
        }
    }

    /// Parses `TypeTerminal := FunctionType | NameType`, dispatching on a
    /// leading parenthesis.
    pub fn parse_type_terminal(&mut self) -> (r: ParseResult<Box<TypeNode>>)
        requires
            old(self).wf(),
        ensures
            Parser::frame(*old(self), *final(self)),
            r matches Err(f) ==> f < old(self).handlers@.len(),
            r matches Err(_) ==> final(self).errors@.len() > old(self).errors@.len(),
            r matches Ok(_) ==> final(self).errors == old(self).errors,
            r matches Ok(node) ==> final(self).curr_index > old(self).curr_index && final(self).loc_in_budget(
                node.spec_loc(),
                final(self).curr_index - old(self).curr_index,
            ),
            r matches Ok(node) ==> ((*node) is Function <==> old(self).curr_kind()
                == TokenType::LeftParenthesis),
            type_terminal_end_at(old(self).tokens@, old(self).curr_index as int) matches Some(
                j,
            ) ==> (r matches Ok(node) && final(self).curr_index == j && type_terminal_matches_at(
                old(self).tokens@,
                old(self).curr_index as int,
                *node,
            )),
            r matches Ok(_) ==> type_terminal_end_at(
                old(self).tokens@,
                old(self).curr_index as int,
            ) == Some(final(self).curr_index as int),
        decreases self.tokens@.len() - self.curr_index, 2int,
    {
        if self.expect(TokenType::LeftParenthesis) {
            Ok(Box::new(TypeNode::Function(self.parse_function_type()?)))
        } else {
            Ok(Box::new(TypeNode::Name(self.parse_name_type()?)))
        }
    }


    /// Parses `FunctionType := '(' (Type (',' Type)*)? ')' '->' Type`, with
    /// trailing-comma tolerance.
    pub fn parse_function_type(&mut self) -> (r: ParseResult<TypeFunctionData>)
        requires
            old(self).wf(),
        ensures
            Parser::frame(*old(self), *final(self)),
            r matches Err(f) ==> f < old(self).handlers@.len(),
            r matches Err(_) ==> final(self).errors@.len() > old(self).errors@.len(),
            r matches Ok(_) ==> final(self).errors == old(self).errors,
            r matches Ok(node) ==> final(self).curr_index > old(self).curr_index && final(self).loc_in_budget(node.loc, final(self).curr_index - old(self).curr_index),
            function_type_end_at(old(self).tokens@, old(self).curr_index as int) matches Some(
                j,
            ) ==> (r matches Ok(node) && final(self).curr_index == j && node.arguments@.len()
                == type_arg_count_at(old(self).tokens@, old(self).curr_index + 1) && (forall|
                k: int,
            |
                0 <= k < node.arguments@.len() ==> type_matches_at(
                    old(self).tokens@,
                    type_arg_start_at(old(self).tokens@, old(self).curr_index + 1, k),
                    *(#[trigger] node.arguments@[k]),
                )) && type_matches_at(
                old(self).tokens@,
                type_list_end_at(old(self).tokens@, old(self).curr_index + 1).unwrap() + 3,
                *node.ret,
            ) && node.loc == crate::source::spec_combine(
                old(self).tokens@[old(self).curr_index as int].loc,
                (*node.ret).spec_loc(),
            )),
            r matches Ok(_) ==> function_type_end_at(
                old(self).tokens@,
                old(self).curr_index as int,
            ) == Some(final(self).curr_index as int),
        decreases self.tokens@.len() - self.curr_index, 1int,
    {
        let ghost toks = old(self).tokens@;
        let ghost entry = old(self).curr_index as int;
        let ghost hyp = function_type_end_at(toks, entry) is Some;
        let ghost jrp = type_list_end_at(toks, entry + 1);
        let mut inputs: Vec<Box<TypeNode>> = Vec::new();
        let start = self.consume(TokenType::LeftParenthesis)?;
        proof {
            lemma_token_budget(*self, start);
        }
        while !self.expect(TokenType::RightParenthesis)
            invariant_except_break
                hyp ==> type_arg_start_at(toks, entry + 1, inputs@.len() as int)
                    == self.curr_index as int,
                type_list_end_at(toks, entry + 1) == type_list_end_at(
                    toks,
                    self.curr_index as int,
                ),
            invariant
                self.wf(),
                self.tokens == old(self).tokens,
                self.source == old(self).source,
                self.handlers@ == old(self).handlers@,
                old(self).errors@.len() <= self.errors@.len(),
                self.errors == old(self).errors,
                old(self).curr_index < self.curr_index,
                toks == old(self).tokens@,
                entry == old(self).curr_index as int,
                hyp == (function_type_end_at(toks, entry) is Some),
                jrp == type_list_end_at(toks, entry + 1),
                hyp ==> type_list_end_at(toks, self.curr_index as int) == jrp,
                hyp ==> inputs@.len() + type_arg_count_at(toks, self.curr_index as int)
                    == type_arg_count_at(toks, entry + 1),
                hyp ==> forall|k: int|
                    0 <= k < inputs@.len() ==> type_matches_at(
                        toks,
                        type_arg_start_at(toks, entry + 1, k),
                        *(#[trigger] inputs@[k]),
                    ),
            ensures
                self.wf(),
                self.tokens == old(self).tokens,
                self.source == old(self).source,
                self.handlers@ == old(self).handlers@,
                old(self).errors@.len() <= self.errors@.len(),
                self.errors == old(self).errors,
                old(self).curr_index < self.curr_index,
                hyp ==> self.curr_index as int == jrp.unwrap(),
                hyp ==> inputs@.len() == type_arg_count_at(toks, entry + 1),
                hyp ==> forall|k: int|
                    0 <= k < inputs@.len() ==> type_matches_at(
                        toks,
                        type_arg_start_at(toks, entry + 1, k),
                        *(#[trigger] inputs@[k]),
                    ),
                type_list_end_at(toks, entry + 1) == Some(self.curr_index as int)
                    || type_list_end_at(toks, entry + 1) == type_list_end_at(
                    toks,
                    self.curr_index as int,
                ),
            decreases self.tokens@.len() - self.curr_index,
        {
            let ghost arg_pos = self.curr_index as int;
            proof {
                if hyp {
                    assert(type_end_at(toks, self.curr_index as int) is Some);
                }
            }
            let input = self.parse_type()?;
            let ghost prev_inputs = inputs@;
            inputs.push(input);
            proof {
                if hyp {
                    assert(type_arg_start_at(toks, entry + 1, prev_inputs.len() as int)
                        == arg_pos);
                    assert(inputs@ == prev_inputs.push(input));
                    assert forall|k: int| 0 <= k < inputs@.len() implies type_matches_at(
                        toks,
                        type_arg_start_at(toks, entry + 1, k),
                        *(#[trigger] inputs@[k]),
                    ) by {
                        if k < prev_inputs.len() {
                            assert(inputs@[k] == prev_inputs[k]);
                        } else {
                            assert(inputs@[k] == input);
                        }
                    }
                }
            }
            if !self.expect(TokenType::Comma) {
                proof {
                    assert(type_end_at(toks, arg_pos) == Some(self.curr_index as int));
                    assert(type_list_end_at(toks, arg_pos) == Some(self.curr_index as int));
                    if hyp {
                        assert(kind_of(toks, jrp.unwrap()) == TokenType::RightParenthesis);
                        assert(type_list_end_at(toks, self.curr_index as int) == jrp);
                        assert(type_arg_count_at(toks, arg_pos) == 1);
                        assert(type_arg_start_at(toks, entry + 1, inputs@.len() as int)
                            == type_end_at(toks, arg_pos).unwrap() + 1);
                    }
                }
                break ;
            } else {
                self.consume(TokenType::Comma)?;
            }
        }
        self.consume(TokenType::RightParenthesis)?;
        self.consume_symbol(TokenType::Minus, TokenType::RightAngle, "'->'")?;
        let ghost mid = *self;
        proof {
            if hyp {
                assert(type_end_at(toks, mid.curr_index as int) is Some);
            }
        }
        let output = self.parse_type()?;
        proof {
            lemma_token_budget(*self, start);
            lemma_budget_end_bound(*self, start.loc, 0);
            lemma_budget_end_bound(
                *self,
                output.spec_loc(),
                self.curr_index - mid.curr_index,
            );
        }
        let loc = start.get_loc().combine(output.get_loc());
        proof {
            lemma_budget_combine(
                *self,
                start.loc,
                output.spec_loc(),
                loc,
                0,
                self.curr_index - mid.curr_index,
                self.curr_index - old(self).curr_index,
            );
        }
        Ok(TypeFunctionData { loc, arguments: inputs, ret: output })
    }
}

impl Parser {
    /// Parses one integer literal token as an unsigned 64-bit value; a token
    /// whose digits name a larger value is diagnosed and synchronized past,
    /// not silently replaced.
    pub fn parse_integer(&mut self) -> (r: ParseResult<IntegerData>)
        requires
            old(self).wf(),
        ensures
            Parser::frame(*old(self), *final(self)),
            r matches Err(f) ==> f < old(self).handlers@.len(),
            r matches Err(_) ==> final(self).errors@.len() > old(self).errors@.len(),
            r matches Ok(_) ==> final(self).errors == old(self).errors,
            r matches Ok(node) ==> final(self).curr_index > old(self).curr_index && final(self).loc_in_budget(
                node.loc,
                final(self).curr_index - old(self).curr_index,
            ),
            r matches Ok(_) ==> ({
                &&& old(self).curr_kind() == TokenType::Integer
                &&& old(self).tokens@[old(self).curr_index as int].text@.len() > 0
                &&& all_dec_digits(old(self).tokens@[old(self).curr_index as int].text@)
                &&& digits_val(old(self).tokens@[old(self).curr_index as int].text@) <= u64::MAX
                &&& final(self).curr_index == old(self).curr_index + 1
            }),
            ({
                &&& old(self).curr_kind() == TokenType::Integer
                &&& old(self).tokens@[old(self).curr_index as int].text@.len() > 0
                &&& all_dec_digits(old(self).tokens@[old(self).curr_index as int].text@)
                &&& digits_val(old(self).tokens@[old(self).curr_index as int].text@) <= u64::MAX
            }) ==> (r matches Ok(node) && node.integer == digits_val(
                old(self).tokens@[old(self).curr_index as int].text@,
            ) && node.loc == old(self).tokens@[old(self).curr_index as int].loc
                && final(self).curr_index == old(self).curr_index + 1),
            ({
                &&& old(self).curr_kind() == TokenType::Integer
                &&& !(old(self).tokens@[old(self).curr_index as int].text@.len() > 0
                    && all_dec_digits(old(self).tokens@[old(self).curr_index as int].text@)
                    && digits_val(old(self).tokens@[old(self).curr_index as int].text@)
                    <= u64::MAX)
            }) ==> {
                &&& final(self).errors@ == old(self).errors@.push(
                    ParseError::CouldNotParseLiteral(
                        TokenType::Integer,
                        old(self).tokens@[old(self).curr_index as int].loc,
                    ),
                )
                &&& r matches Err(f) && f == sync_stop(
                    old(self).tokens@,
                    old(self).handlers@,
                    old(self).curr_index + 1,
                ).1
                &&& final(self).curr_index == sync_stop(
                    old(self).tokens@,
                    old(self).handlers@,
                    old(self).curr_index + 1,
                ).0
            },
    {
        let num_str = self.consume(TokenType::Integer)?;
        let num = match parse_u64_digits(num_str.text.as_str()) {
            Some(n) => n,
            None => {
                self.errors.add_error(
                    ParseError::CouldNotParseLiteral(
                        TokenType::Integer,
                        num_str.get_loc().clone(),
                    ),
                );
                return self.synchronize();
            },
        };
        proof {
            lemma_token_budget(*self, num_str);
            lemma_budget_mono(
                *self,
                num_str.loc,
                0,
                self.curr_index - old(self).curr_index,
            );
        }
        Ok(IntegerData { loc: num_str.get_loc().clone(), integer: num })
    }

    /// Parses `Terminal := Integer | '(' Expr ')'`; anything else is
    /// diagnosed and synchronized past.
    pub fn parse_expr_terminal(&mut self) -> (r: ParseResult<Box<ExprNode>>)
        requires
            old(self).wf(),
        ensures
            Parser::frame(*old(self), *final(self)),
            r matches Err(f) ==> f < old(self).handlers@.len(),
            r matches Err(_) ==> final(self).errors@.len() > old(self).errors@.len(),
            r matches Ok(_) ==> final(self).errors == old(self).errors,
            r matches Ok(node) ==> final(self).curr_index > old(self).curr_index && final(self).loc_in_budget(
                node.spec_loc(),
                final(self).curr_index - old(self).curr_index,
            ),
            (old(self).curr_kind() != TokenType::Integer && old(self).curr_kind()
                != TokenType::LeftParenthesis) ==> {
                &&& final(self).errors@.len() == old(self).errors@.len() + 1
                &&& final(self).errors@.subrange(0, old(self).errors@.len() as int) == old(
                    self,
                ).errors@
                &&& final(self).errors@.last() matches ParseError::WithMessage(m, l) && m@
                    == "Expected an expression."@ && l == old(self).spec_curr_loc()
                &&& r matches Err(f) && f == sync_stop(
                    old(self).tokens@,
                    old(self).handlers@,
                    old(self).curr_index as int,
                ).1
                &&& final(self).curr_index == sync_stop(
                    old(self).tokens@,
                    old(self).handlers@,
                    old(self).curr_index as int,
                ).0
            },
            expr_terminal_end_at(old(self).tokens@, old(self).curr_index as int) matches Some(
                j,
            ) ==> (r matches Ok(node) && final(self).curr_index == j && expr_terminal_matches_at(
                old(self).tokens@,
                old(self).curr_index as int,
                *node,
            )),
            r matches Ok(_) ==> expr_terminal_end_at(
                old(self).tokens@,
                old(self).curr_index as int,
            ) == Some(final(self).curr_index as int),
        decreases self.tokens@.len() - self.curr_index, 1int,
    {
        if self.expect(TokenType::Integer) {
            let node = self.parse_integer()?;
            Ok(Box::new(ExprNode::Integer(node)))
        } else if self.expect(TokenType::LeftParenthesis) {
            self.consume(TokenType::LeftParenthesis)?;
            let ghost mid = *self;
            let expr = self.parse_expr()?;
            let ghost expr_extent = self.curr_index - mid.curr_index;
            self.consume(TokenType::RightParenthesis)?;
            proof {
                lemma_budget_mono(
                    *self,
                    expr.spec_loc(),
                    expr_extent,
                    self.curr_index - old(self).curr_index,
                );
            }
            Ok(expr)
        } else {
            let loc = self.curr().loc;
            self.errors.add_error(
                ParseError::WithMessage(String::from_str("Expected an expression."), loc),
            );
            self.synchronize()
        }
    }

    /// Parses `Expr := BlockExpr | Terminal`.
    pub fn parse_expr(&mut self) -> (r: ParseResult<Box<ExprNode>>)
        requires
            old(self).wf(),
        ensures
            Parser::frame(*old(self), *final(self)),
            r matches Err(f) ==> f < old(self).handlers@.len(),
            r matches Err(_) ==> final(self).errors@.len() > old(self).errors@.len(),
            r matches Ok(_) ==> final(self).errors == old(self).errors,
            r matches Ok(node) ==> final(self).curr_index > old(self).curr_index && final(self).loc_in_budget(
                node.spec_loc(),
                final(self).curr_index - old(self).curr_index,
            ),
            expr_end_at(old(self).tokens@, old(self).curr_index as int) matches Some(j) ==> (
            r matches Ok(node) && final(self).curr_index == j && expr_matches_at(
                old(self).tokens@,
                old(self).curr_index as int,
                *node,
            )),
            r matches Ok(_) ==> expr_end_at(old(self).tokens@, old(self).curr_index as int)
                == Some(final(self).curr_index as int),
        decreases self.tokens@.len() - self.curr_index, 3int,
    {
        self.parse_expr_block()
    }

    /// Parses `BlockExpr := '{' Stmt* '}' | Terminal`, dispatching on a
    /// leading brace.
    pub fn parse_expr_block(&mut self) -> (r: ParseResult<Box<ExprNode>>)
        requires
            old(self).wf(),
        ensures
            Parser::frame(*old(self), *final(self)),
            r matches Err(f) ==> f < old(self).handlers@.len(),
            r matches Err(_) ==> final(self).errors@.len() > old(self).errors@.len(),
            r matches Ok(_) ==> final(self).errors == old(self).errors,
            r matches Ok(node) ==> final(self).curr_index > old(self).curr_index && final(self).loc_in_budget(
                node.spec_loc(),
                final(self).curr_index - old(self).curr_index,
            ),
            old(self).curr_kind() == TokenType::LeftBrace ==> (r matches Ok(node) ==> (*node)
                is Block),
            expr_end_at(old(self).tokens@, old(self).curr_index as int) matches Some(j) ==> (
            r matches Ok(node) && final(self).curr_index == j && expr_matches_at(
                old(self).tokens@,
                old(self).curr_index as int,
                *node,
            )),
            r matches Ok(_) ==> expr_end_at(old(self).tokens@, old(self).curr_index as int)
                == Some(final(self).curr_index as int),
        decreases self.tokens@.len() - self.curr_index, 2int,
    {
        if self.expect(TokenType::LeftBrace) {
            let block = self.parse_block()?;
            Ok(Box::new(ExprNode::Block(block)))
        } else {
            self.parse_expr_terminal()
        }
    }

    /// Parses `'{' Stmt* '}'`: an ordered statement sequence spanning its
    /// braces.
    pub fn parse_block(&mut self) -> (r: ParseResult<BlockData>)
        requires
            old(self).wf(),
        ensures
            Parser::frame(*old(self), *final(self)),
            r matches Err(f) ==> f < old(self).handlers@.len(),
            r matches Err(_) ==> final(self).errors@.len() > old(self).errors@.len(),
            r matches Ok(_) ==> final(self).errors == old(self).errors,
            r matches Ok(node) ==> final(self).curr_index > old(self).curr_index && final(self).loc_in_budget(
                node.loc,
                final(self).curr_index - old(self).curr_index,
            ),
            block_end_at(old(self).tokens@, old(self).curr_index as int) matches Some(j) ==> (
            r matches Ok(node) && final(self).curr_index == j && block_node_matches_at(
                old(self).tokens@,
                old(self).curr_index as int,
                node,
            )),
            r matches Ok(_) ==> block_end_at(old(self).tokens@, old(self).curr_index as int)
                == Some(final(self).curr_index as int),
        decreases self.tokens@.len() - self.curr_index, 1int,
    {
        let ghost toks = old(self).tokens@;
        let ghost entry = old(self).curr_index as int;
        let ghost hyp = block_end_at(toks, entry) is Some;
        let ghost jrb = stmt_list_end_at(toks, entry + 1);
        let start = self.consume(TokenType::LeftBrace)?;
        let mut stmts: Vec<Box<StmtNode>> = Vec::new();
        while !self.expect(TokenType::RightBrace)
            invariant
                self.wf(),
                self.tokens == old(self).tokens,
                self.source == old(self).source,
                self.handlers@ == old(self).handlers@,
                old(self).errors@.len() <= self.errors@.len(),
                self.errors == old(self).errors,
                old(self).curr_index < self.curr_index,
                toks == old(self).tokens@,
                entry == old(self).curr_index as int,
                hyp == (block_end_at(toks, entry) is Some),
                jrb == stmt_list_end_at(toks, entry + 1),
                stmt_list_end_at(toks, entry + 1) == stmt_list_end_at(
                    toks,
                    self.curr_index as int,
                ),
                hyp ==> stmt_list_end_at(toks, self.curr_index as int) == jrb,
                hyp ==> stmt_start_at(toks, entry + 1, stmts@.len() as int)
                    == self.curr_index as int,
                hyp ==> stmts@.len() + stmt_count_at(toks, self.curr_index as int)
                    == stmt_count_at(toks, entry + 1),
                hyp ==> forall|k: int|
                    0 <= k < stmts@.len() ==> stmt_matches_at(
                        toks,
                        stmt_start_at(toks, entry + 1, k),
                        *(#[trigger] stmts@[k]),
                    ),
            decreases self.tokens@.len() - self.curr_index,
        {
            let ghost stmt_pos = self.curr_index as int;
            proof {
                if hyp {
                    assert(stmt_end_at(toks, self.curr_index as int) is Some);
                }
            }
            let stmt = self.parse_stmt()?;
            let ghost prev_stmts = stmts@;
            stmts.push(stmt);
            proof {
                if hyp {
                    assert(stmt_start_at(toks, entry + 1, prev_stmts.len() as int) == stmt_pos);
                    assert forall|k: int| 0 <= k < stmts@.len() implies stmt_matches_at(
                        toks,
                        stmt_start_at(toks, entry + 1, k),
                        *(#[trigger] stmts@[k]),
                    ) by {
                        if k < prev_stmts.len() {
                            assert(stmts@[k] == prev_stmts[k]);
                        } else {
                            assert(stmts@[k] == stmt);
                        }
                    }
                }
            }
        }
        let end = self.consume(TokenType::RightBrace)?;
        proof {
            lemma_token_budget(*self, start);
            lemma_token_budget(*self, end);
            lemma_budget_end_bound(*self, start.loc, 0);
            lemma_budget_end_bound(*self, end.loc, 0);
        }
        let loc = start.get_loc().combine(end.get_loc());
        proof {
            lemma_budget_combine(
                *self,
                start.loc,
                end.loc,
                loc,
                0,
                0,
                self.curr_index - old(self).curr_index,
            );
        }
        Ok(BlockData { loc, stmts })
    }

    /// Parses `Stmt := ReturnStmt | ExprStmt`.
    pub fn parse_stmt(&mut self) -> (r: ParseResult<Box<StmtNode>>)
        requires
            old(self).wf(),
        ensures
            Parser::frame(*old(self), *final(self)),
            r matches Err(f) ==> f < old(self).handlers@.len(),
            r matches Err(_) ==> final(self).errors@.len() > old(self).errors@.len(),
            r matches Ok(_) ==> final(self).errors == old(self).errors,
            r matches Ok(_) ==> final(self).curr_index > old(self).curr_index,
            r matches Ok(node) ==> ((*node) is Return <==> old(self).curr_kind()
                == TokenType::Return),
            stmt_end_at(old(self).tokens@, old(self).curr_index as int) matches Some(j) ==> (
            r matches Ok(node) && final(self).curr_index == j && stmt_matches_at(
                old(self).tokens@,
                old(self).curr_index as int,
                *node,
            )),
            r matches Ok(_) ==> stmt_end_at(old(self).tokens@, old(self).curr_index as int)
                == Some(final(self).curr_index as int),
        decreases self.tokens@.len() - self.curr_index, 5int,
    {
        if self.expect(TokenType::Return) {
            let node = self.parse_return()?;
            Ok(Box::new(StmtNode::Return(node)))
        } else {
            let node = self.parse_expr_stmt()?;
            Ok(Box::new(StmtNode::Expr(node)))
        }
    }

    /// Parses `ReturnStmt := 'return' Expr ';'`.
    pub fn parse_return(&mut self) -> (r: ParseResult<StmtReturnData>)
        requires
            old(self).wf(),
        ensures
            Parser::frame(*old(self), *final(self)),
            r matches Err(f) ==> f < old(self).handlers@.len(),
            r matches Err(_) ==> final(self).errors@.len() > old(self).errors@.len(),
            r matches Ok(_) ==> final(self).errors == old(self).errors,
            r matches Ok(_) ==> final(self).curr_index > old(self).curr_index,
            old(self).curr_kind() == TokenType::Return ==> (stmt_end_at(
                old(self).tokens@,
                old(self).curr_index as int,
            ) matches Some(j) ==> (r matches Ok(node) && final(self).curr_index == j
                && expr_matches_at(old(self).tokens@, old(self).curr_index + 1, *node.expr)
                && (expr_end_at(old(self).tokens@, old(self).curr_index + 1) matches Some(j2)
                && node.loc == crate::source::spec_combine(
                old(self).tokens@[old(self).curr_index as int].loc,
                old(self).tokens@[j2].loc,
            )))),
            r matches Ok(_) ==> (old(self).curr_kind() == TokenType::Return && stmt_end_at(
                old(self).tokens@,
                old(self).curr_index as int,
            ) == Some(final(self).curr_index as int)),
        decreases self.tokens@.len() - self.curr_index, 4int,
    {
        let start = self.consume(TokenType::Return)?;
        let expr = self.parse_expr()?;
        let end = self.consume(TokenType::Semicolon)?;
        proof {
            lemma_token_budget(*self, start);
            lemma_token_budget(*self, end);
            lemma_budget_end_bound(*self, start.loc, 0);
            lemma_budget_end_bound(*self, end.loc, 0);
        }
        let loc = start.get_loc().combine(end.get_loc());
        Ok(StmtReturnData { loc, expr })
    }

    /// Parses `ExprStmt := Expr ';'`.
    pub fn parse_expr_stmt(&mut self) -> (r: ParseResult<StmtExprData>)
        requires
            old(self).wf(),
        ensures
            Parser::frame(*old(self), *final(self)),
            r matches Err(f) ==> f < old(self).handlers@.len(),
            r matches Err(_) ==> final(self).errors@.len() > old(self).errors@.len(),
            r matches Ok(_) ==> final(self).errors == old(self).errors,
            r matches Ok(_) ==> final(self).curr_index > old(self).curr_index,
            expr_stmt_end_at(old(self).tokens@, old(self).curr_index as int) matches Some(
                j,
            ) ==> (r matches Ok(node) && final(self).curr_index == j && expr_matches_at(
                old(self).tokens@,
                old(self).curr_index as int,
                *node.expr,
            ) && (expr_end_at(old(self).tokens@, old(self).curr_index as int) matches Some(j2)
                && node.loc == crate::source::spec_combine(
                (*node.expr).spec_loc(),
                old(self).tokens@[j2].loc,
            ))),
            r matches Ok(_) ==> expr_stmt_end_at(old(self).tokens@, old(self).curr_index as int)
                == Some(final(self).curr_index as int),
        decreases self.tokens@.len() - self.curr_index, 4int,
    {
        let ghost pre = *self;
        let expr = self.parse_expr()?;
        let ghost mid = *self;
        let end = self.consume(TokenType::Semicolon)?;
        proof {
            lemma_token_budget(*self, end);
            lemma_budget_end_bound(
                *self,
                expr.spec_loc(),
                mid.curr_index - pre.curr_index,
            );
            lemma_budget_end_bound(*self, end.loc, 0);
        }
        let loc = expr.get_loc().combine(end.get_loc());
        Ok(StmtExprData { loc, expr })
    }
}

impl Parser {
    /// Parses one generic parameter: a bare name (bounds are not yet part of
    /// the grammar).
    pub fn parse_generic_parameter(&mut self) -> (r: ParseResult<Box<GenericParameter>>)
        requires
            old(self).wf(),
        ensures
            Parser::frame(*old(self), *final(self)),
            r matches Err(f) ==> f < old(self).handlers@.len(),
            r matches Err(_) ==> final(self).errors@.len() > old(self).errors@.len(),
            r matches Ok(_) ==> final(self).errors == old(self).errors,
            r matches Ok(_) ==> final(self).curr_index > old(self).curr_index,
            old(self).curr_kind() == TokenType::Identifier ==> (r matches Ok(node)
                && node.name@ == old(self).tokens@[old(self).curr_index as int].text@
                && node.loc == old(self).tokens@[old(self).curr_index as int].loc
                && node.bound is None
                && final(self).curr_index == old(self).curr_index + 1),
            r matches Ok(_) ==> (old(self).curr_kind() == TokenType::Identifier
                && final(self).curr_index == old(self).curr_index + 1),
    {
        let name = self.consume(TokenType::Identifier)?;
        Ok(Box::new(GenericParameter { loc: name.get_loc().clone(), name: name.text, bound: None }))
    }

    /// Parses `StructField := Identifier ':' Type ';'`.
    pub fn parse_struct_field(&mut self) -> (r: ParseResult<Box<StructField>>)
        requires
            old(self).wf(),
        ensures
            Parser::frame(*old(self), *final(self)),
            r matches Err(f) ==> f < old(self).handlers@.len(),
            r matches Err(_) ==> final(self).errors@.len() > old(self).errors@.len(),
            r matches Ok(_) ==> final(self).errors == old(self).errors,
            r matches Ok(_) ==> final(self).curr_index > old(self).curr_index,
            old(self).curr_kind() == TokenType::Identifier ==> (r matches Ok(node) ==> node.name@
                == old(self).tokens@[old(self).curr_index as int].text@),
            struct_field_end_at(old(self).tokens@, old(self).curr_index as int) matches Some(
                j,
            ) ==> (r matches Ok(node) && final(self).curr_index == j && field_matches_at(
                old(self).tokens@,
                old(self).curr_index as int,
                *node,
            )),
            r matches Ok(_) ==> struct_field_end_at(
                old(self).tokens@,
                old(self).curr_index as int,
            ) == Some(final(self).curr_index as int),
    {
        let name = self.consume(TokenType::Identifier)?;
        self.consume(TokenType::Colon)?;
        let ghost mid = *self;
        let typ = self.parse_type()?;
        let ghost typ_extent = self.curr_index - mid.curr_index;
        self.consume(TokenType::Semicolon)?;
        proof {
            lemma_token_budget(*self, name);
            lemma_budget_end_bound(*self, name.loc, 0);
            lemma_budget_end_bound(*self, typ.spec_loc(), typ_extent);
        }
        let loc = name.get_loc().combine(typ.get_loc());
        Ok(Box::new(StructField { loc, name: name.text, typ }))
    }

    /// Parses `Param := Identifier ':' Type`.
    pub fn parse_function_parameter(&mut self) -> (r: ParseResult<Box<FunctionParameter>>)
        requires
            old(self).wf(),
        ensures
            Parser::frame(*old(self), *final(self)),
            r matches Err(f) ==> f < old(self).handlers@.len(),
            r matches Err(_) ==> final(self).errors@.len() > old(self).errors@.len(),
            r matches Ok(_) ==> final(self).errors == old(self).errors,
            r matches Ok(_) ==> final(self).curr_index > old(self).curr_index,
            old(self).curr_kind() == TokenType::Identifier ==> (r matches Ok(node) ==> node.name@
                == old(self).tokens@[old(self).curr_index as int].text@),
            function_param_end_at(old(self).tokens@, old(self).curr_index as int) matches Some(
                j,
            ) ==> (r matches Ok(node) && final(self).curr_index == j && param_matches_at(
                old(self).tokens@,
                old(self).curr_index as int,
                *node,
            )),
            r matches Ok(_) ==> function_param_end_at(
                old(self).tokens@,
                old(self).curr_index as int,
            ) == Some(final(self).curr_index as int),
    {
        let name = self.consume(TokenType::Identifier)?;
        self.consume(TokenType::Colon)?;
        let ghost mid = *self;
        let typ = self.parse_type()?;
        proof {
            lemma_token_budget(*self, name);
            lemma_budget_end_bound(*self, name.loc, 0);
            lemma_budget_end_bound(*self, typ.spec_loc(), self.curr_index - mid.curr_index);
        }
        let loc = name.get_loc().combine(typ.get_loc());
        Ok(Box::new(FunctionParameter { loc, name: name.text, typ }))
    }

    /// Parses `Struct := 'struct' Identifier GenericParams? ('(' QualName)?
    /// '{' StructField* '}'`, with trailing-comma tolerance in the generic
    /// parameter list.
    pub fn parse_struct(&mut self) -> (r: ParseResult<StructData>)
        requires
            old(self).wf(),
        ensures
            Parser::frame(*old(self), *final(self)),
            r matches Err(f) ==> f < old(self).handlers@.len(),
            r matches Err(_) ==> final(self).errors@.len() > old(self).errors@.len(),
            r matches Ok(_) ==> final(self).errors == old(self).errors,
            r matches Ok(_) ==> final(self).curr_index > old(self).curr_index,
            old(self).curr_kind() == TokenType::Struct ==> final(self).curr_index > old(
                self,
            ).curr_index,
            (old(self).curr_kind() == TokenType::Struct && old(self).kind_at(
                old(self).curr_index + 1,
            ) == TokenType::Identifier) ==> (r matches Ok(s) ==> s.name@ == old(self).tokens@[old(
                self,
            ).curr_index + 1].text@),
            r matches Ok(s) ==> s.interfaces@.len() == 0,
            struct_end_at(old(self).tokens@, old(self).curr_index as int) matches Some(j) ==> (
            r matches Ok(s) && final(self).curr_index == j && s.loc == crate::source::spec_combine(
                old(self).tokens@[old(self).curr_index as int].loc,
                old(self).tokens@[j - 1].loc,
            ) && (kind_of(old(self).tokens@, old(self).curr_index + 2) == TokenType::LeftAngle
                ==> generics_match_at(
                old(self).tokens@,
                old(self).curr_index + 3,
                s.generic_parameters@,
                generic_list_end_at(old(self).tokens@, old(self).curr_index + 3).unwrap(),
            )) && (kind_of(old(self).tokens@, old(self).curr_index + 2) != TokenType::LeftAngle
                ==> s.generic_parameters@.len() == 0) && (kind_of(
                old(self).tokens@,
                after_generics_at(old(self).tokens@, old(self).curr_index + 2).unwrap(),
            ) == TokenType::LeftParenthesis ==> (s.superstruct matches Some(n)
                && qual_name_matches_at(
                old(self).tokens@,
                after_generics_at(old(self).tokens@, old(self).curr_index + 2).unwrap() + 1,
                *n,
            ))) && (kind_of(
                old(self).tokens@,
                after_generics_at(old(self).tokens@, old(self).curr_index + 2).unwrap(),
            ) != TokenType::LeftParenthesis ==> s.superstruct is None) && fields_match_at(
                old(self).tokens@,
                struct_body_start_at(old(self).tokens@, old(self).curr_index as int),
                s.fields@,
                j - 1,
            )),
            r matches Ok(_) ==> struct_end_at(old(self).tokens@, old(self).curr_index as int)
                == Some(final(self).curr_index as int),
    {
        let ghost toks = old(self).tokens@;
        let ghost entry = old(self).curr_index as int;
        let ghost hyp = struct_end_at(toks, entry) is Some;
        let ghost p_opt = after_generics_at(toks, entry + 2);
        let ghost glist = generic_list_end_at(toks, entry + 3);
        let start = self.curr();
        self.consume_error(TokenType::Struct, "Struct definitions must begin with 'struct'")?;
        let name = self.consume(TokenType::Identifier)?;

        let mut generic_parameters: Vec<Box<GenericParameter>> = Vec::new();
        if self.expect(TokenType::LeftAngle) {
            self.consume(TokenType::LeftAngle)?;
            while !self.expect(TokenType::RightAngle)
                invariant_except_break
                    hyp ==> generics_open_at(
                        toks,
                        entry + 3,
                        generic_parameters@,
                        self.curr_index as int,
                    ),
                    generic_list_end_at(toks, entry + 3) == generic_list_end_at(
                        toks,
                        self.curr_index as int,
                    ),
                invariant
                    self.wf(),
                    self.tokens == old(self).tokens,
                    self.source == old(self).source,
                    self.handlers@ == old(self).handlers@,
                    old(self).errors@.len() <= self.errors@.len(),
                    self.errors == old(self).errors,
                    old(self).curr_index < self.curr_index,
                    toks == old(self).tokens@,
                    entry == old(self).curr_index as int,
                    hyp == (struct_end_at(toks, entry) is Some),
                    glist == generic_list_end_at(toks, entry + 3),
                    hyp ==> kind_of(toks, entry + 2) == TokenType::LeftAngle,
                    hyp ==> glist is Some && kind_of(toks, glist.unwrap())
                        == TokenType::RightAngle,
                    hyp ==> generic_list_end_at(toks, self.curr_index as int) == glist,
                    hyp ==> generics_match_at(
                        toks,
                        entry + 3,
                        generic_parameters@,
                        self.curr_index as int,
                    ),
                ensures
                    self.wf(),
                    self.tokens == old(self).tokens,
                    self.source == old(self).source,
                    self.handlers@ == old(self).handlers@,
                    old(self).errors@.len() <= self.errors@.len(),
                    self.errors == old(self).errors,
                    old(self).curr_index < self.curr_index,
                    hyp ==> self.curr_index as int == glist.unwrap(),
                    hyp ==> generics_match_at(
                        toks,
                        entry + 3,
                        generic_parameters@,
                        self.curr_index as int,
                    ),
                    generic_list_end_at(toks, entry + 3) == Some(self.curr_index as int)
                        || generic_list_end_at(toks, entry + 3) == generic_list_end_at(
                        toks,
                        self.curr_index as int,
                    ),
                decreases self.tokens@.len() - self.curr_index,
            {
                let ghost gp_pos = self.curr_index as int;
                let ghost prev_gps = generic_parameters@;
                proof {
                    if hyp {
                        assert(kind_of(toks, self.curr_index as int) == TokenType::Identifier);
                    }
                }
                let gp = self.parse_generic_parameter()?;
                let ghost gp_ghost = gp;
                generic_parameters.push(gp);
                if !self.expect(TokenType::Comma) {
                    proof {
                        assert(generic_list_end_at(toks, gp_pos) == Some(
                            self.curr_index as int,
                        ));
                        if hyp {
                            assert(generic_list_end_at(toks, self.curr_index as int) == glist);
                            lemma_generics_open_close(
                                toks,
                                entry + 3,
                                prev_gps,
                                gp_ghost,
                                gp_pos,
                            );
                        }
                    }
                    break ;
                } else {
                    self.consume(TokenType::Comma)?;
                    proof {
                        if hyp {
                            lemma_generics_open_push(
                                toks,
                                entry + 3,
                                prev_gps,
                                gp_ghost,
                                gp_pos,
                            );
                            lemma_generics_open_to_match(
                                toks,
                                entry + 3,
                                generic_parameters@,
                                self.curr_index as int,
                            );
                        }
                    }
                }
            }
            self.consume(TokenType::RightAngle)?;
        }
        proof {
            assert(after_generics_at(toks, entry + 2) == Some(self.curr_index as int));
            if hyp {
                assert(p_opt is Some);
                assert(self.curr_index as int == p_opt.unwrap());
            }
        }
        let ghost p_exec = self.curr_index as int;
        let superstruct = if self.expect(TokenType::LeftParenthesis) {
            self.consume(TokenType::LeftParenthesis)?;
            proof {
                if hyp {
                    assert(qual_name_at(toks, p_opt.unwrap() + 1));
                }
            }
            Some(self.parse_qual_name()?)
        } else {
            None
        };
        let ghost q_exec = self.curr_index as int;
        proof {
            assert(superstruct_shape(toks, p_exec, q_exec));
        }
        let interfaces: Vec<Box<QualifiedNameNode>> = Vec::new();
        let ghost q = if hyp && kind_of(toks, p_opt.unwrap()) == TokenType::LeftParenthesis {
            qual_name_end_at(toks, p_opt.unwrap() + 1)
        } else if hyp {
            p_opt.unwrap()
        } else {
            0
        };
        let ghost flist = field_list_end_at(toks, q + 1);

        let mut fields: Vec<Box<StructField>> = Vec::new();
        self.consume(TokenType::LeftBrace)?;
        let ghost body_start = self.curr_index as int;
        proof {
            if hyp {
                assert(q + 1 == struct_body_start_at(toks, entry));
            }
        }
        while !self.expect(TokenType::RightBrace)
            invariant
                self.wf(),
                self.tokens == old(self).tokens,
                self.source == old(self).source,
                self.handlers@ == old(self).handlers@,
                old(self).errors@.len() <= self.errors@.len(),
                self.errors == old(self).errors,
                old(self).curr_index < self.curr_index,
                toks == old(self).tokens@,
                entry == old(self).curr_index as int,
                hyp == (struct_end_at(toks, entry) is Some),
                flist == field_list_end_at(toks, q + 1),
                field_list_end_at(toks, body_start) == field_list_end_at(
                    toks,
                    self.curr_index as int,
                ),
                hyp ==> flist is Some && kind_of(toks, flist.unwrap()) == TokenType::RightBrace
                    && struct_end_at(toks, entry) == Some(flist.unwrap() + 1),
                hyp ==> field_list_end_at(toks, self.curr_index as int) == flist,
                hyp ==> fields_match_at(toks, q + 1, fields@, self.curr_index as int),
                body_start == q_exec + 1,
                kind_of(toks, entry) == TokenType::Struct,
                kind_of(toks, entry + 1) == TokenType::Identifier,
                after_generics_at(toks, entry + 2) is Some,
                superstruct_shape(toks, after_generics_at(toks, entry + 2).unwrap(), q_exec),
                kind_of(toks, q_exec) == TokenType::LeftBrace,
            decreases self.tokens@.len() - self.curr_index,
        {
            let ghost field_pos = self.curr_index as int;
            let ghost prev_fields = fields@;
            proof {
                if hyp {
                    assert(struct_field_end_at(toks, self.curr_index as int) is Some);
                }
            }
            let field = self.parse_struct_field()?;
            let ghost field_ghost = field;
            fields.push(field);
            proof {
                if hyp {
                    lemma_fields_match_push(
                        toks,
                        q + 1,
                        prev_fields,
                        field_ghost,
                        field_pos,
                        self.curr_index as int,
                    );
                }
            }
        }
        let end = self.consume(TokenType::RightBrace)?;

        proof {
            lemma_token_budget(*self, end);
            lemma_token_budget(*self, start);
            lemma_budget_end_bound(*self, end.loc, 0);
            lemma_budget_end_bound(*self, start.loc, 0);
            assert(field_list_end_at(toks, body_start) == Some(self.curr_index - 1));
            assert(struct_end_at(toks, entry) == Some(self.curr_index as int));
        }
        let loc = start.get_loc().combine(end.get_loc());

        Ok(
            StructData {
                loc,
                name: name.text,
                generic_parameters,
                superstruct,
                interfaces,
                fields,
            },
        )
    }

    /// Parses `Function := 'fn' Identifier GenericParams? '(' (Param (','
    /// Param)*)? ')' '->' Type Block`.
    pub fn parse_function(&mut self) -> (r: ParseResult<FunctionData>)
        requires
            old(self).wf(),
        ensures
            Parser::frame(*old(self), *final(self)),
            r matches Err(f) ==> f < old(self).handlers@.len(),
            r matches Err(_) ==> final(self).errors@.len() > old(self).errors@.len(),
            r matches Ok(_) ==> final(self).errors == old(self).errors,
            r matches Ok(_) ==> final(self).curr_index > old(self).curr_index,
            old(self).curr_kind() == TokenType::Fn ==> final(self).curr_index > old(
                self,
            ).curr_index,
            (old(self).curr_kind() == TokenType::Fn && old(self).kind_at(old(self).curr_index + 1)
                == TokenType::Identifier) ==> (r matches Ok(f) ==> f.name@ == old(self).tokens@[old(
                self,
            ).curr_index + 1].text@),
            function_end_at(old(self).tokens@, old(self).curr_index as int) matches Some(j) ==> (
            r matches Ok(f2) && final(self).curr_index == j && f2.loc
                == crate::source::spec_combine(
                old(self).tokens@[old(self).curr_index as int].loc,
                f2.body.loc,
            ) && (kind_of(old(self).tokens@, old(self).curr_index + 2) == TokenType::LeftAngle
                ==> generics_match_at(
                old(self).tokens@,
                old(self).curr_index + 3,
                f2.generic_parameters@,
                generic_list_end_at(old(self).tokens@, old(self).curr_index + 3).unwrap(),
            )) && (kind_of(old(self).tokens@, old(self).curr_index + 2) != TokenType::LeftAngle
                ==> f2.generic_parameters@.len() == 0) && params_match_at(
                old(self).tokens@,
                after_generics_at(old(self).tokens@, old(self).curr_index + 2).unwrap() + 1,
                f2.parameters@,
                param_list_end_at(
                    old(self).tokens@,
                    after_generics_at(old(self).tokens@, old(self).curr_index + 2).unwrap() + 1,
                ).unwrap(),
            ) && type_matches_at(
                old(self).tokens@,
                param_list_end_at(
                    old(self).tokens@,
                    after_generics_at(old(self).tokens@, old(self).curr_index + 2).unwrap() + 1,
                ).unwrap() + 3,
                *f2.ret,
            ) && block_node_matches_at(
                old(self).tokens@,
                type_end_at(
                    old(self).tokens@,
                    param_list_end_at(
                        old(self).tokens@,
                        after_generics_at(old(self).tokens@, old(self).curr_index + 2).unwrap()
                            + 1,
                    ).unwrap() + 3,
                ).unwrap(),
                f2.body,
            )),
            r matches Ok(_) ==> function_end_at(old(self).tokens@, old(self).curr_index as int)
                == Some(final(self).curr_index as int),
    {
        let ghost toks = old(self).tokens@;
        let ghost entry = old(self).curr_index as int;
        let ghost hyp = function_end_at(toks, entry) is Some;
        let ghost p_opt = after_generics_at(toks, entry + 2);
        let ghost glist = generic_list_end_at(toks, entry + 3);
        let start = self.consume(TokenType::Fn)?;
        let name = self.consume(TokenType::Identifier)?;

        let mut generic_parameters: Vec<Box<GenericParameter>> = Vec::new();
        if self.expect(TokenType::LeftAngle) {
            self.consume(TokenType::LeftAngle)?;
            while !self.expect(TokenType::RightAngle)
                invariant_except_break
                    hyp ==> generics_open_at(
                        toks,
                        entry + 3,
                        generic_parameters@,
                        self.curr_index as int,
                    ),
                    generic_list_end_at(toks, entry + 3) == generic_list_end_at(
                        toks,
                        self.curr_index as int,
                    ),
                invariant
                    self.wf(),
                    self.tokens == old(self).tokens,
                    self.source == old(self).source,
                    self.handlers@ == old(self).handlers@,
                    old(self).errors@.len() <= self.errors@.len(),
                    self.errors == old(self).errors,
                    old(self).curr_index < self.curr_index,
                    toks == old(self).tokens@,
                    entry == old(self).curr_index as int,
                    hyp == (function_end_at(toks, entry) is Some),
                    glist == generic_list_end_at(toks, entry + 3),
                    hyp ==> kind_of(toks, entry + 2) == TokenType::LeftAngle,
                    hyp ==> glist is Some && kind_of(toks, glist.unwrap())
                        == TokenType::RightAngle,
                    hyp ==> generic_list_end_at(toks, self.curr_index as int) == glist,
                    hyp ==> generics_match_at(
                        toks,
                        entry + 3,
                        generic_parameters@,
                        self.curr_index as int,
                    ),
                ensures
                    self.wf(),
                    self.tokens == old(self).tokens,
                    self.source == old(self).source,
                    self.handlers@ == old(self).handlers@,
                    old(self).errors@.len() <= self.errors@.len(),
                    self.errors == old(self).errors,
                    old(self).curr_index < self.curr_index,
                    hyp ==> self.curr_index as int == glist.unwrap(),
                    hyp ==> generics_match_at(
                        toks,
                        entry + 3,
                        generic_parameters@,
                        self.curr_index as int,
                    ),
                    generic_list_end_at(toks, entry + 3) == Some(self.curr_index as int)
                        || generic_list_end_at(toks, entry + 3) == generic_list_end_at(
                        toks,
                        self.curr_index as int,
                    ),
                decreases self.tokens@.len() - self.curr_index,
            {
                let ghost gp_pos = self.curr_index as int;
                let ghost prev_gps = generic_parameters@;
                proof {
                    if hyp {
                        assert(kind_of(toks, self.curr_index as int) == TokenType::Identifier);
                    }
                }
                let gp = self.parse_generic_parameter()?;
                let ghost gp_ghost = gp;
                generic_parameters.push(gp);
                if !self.expect(TokenType::Comma) {
                    proof {
                        assert(generic_list_end_at(toks, gp_pos) == Some(
                            self.curr_index as int,
                        ));
                        if hyp {
                            assert(generic_list_end_at(toks, self.curr_index as int) == glist);
                            lemma_generics_open_close(
                                toks,
                                entry + 3,
                                prev_gps,
                                gp_ghost,
                                gp_pos,
                            );
                        }
                    }
                    break ;
                } else {
                    self.consume(TokenType::Comma)?;
                    proof {
                        if hyp {
                            lemma_generics_open_push(
                                toks,
                                entry + 3,
                                prev_gps,
                                gp_ghost,
                                gp_pos,
                            );
                            lemma_generics_open_to_match(
                                toks,
                                entry + 3,
                                generic_parameters@,
                                self.curr_index as int,
                            );
                        }
                    }
                }
            }
            self.consume(TokenType::RightAngle)?;
        }
        proof {
            assert(after_generics_at(toks, entry + 2) == Some(self.curr_index as int));
            if hyp {
                assert(p_opt is Some);
                assert(self.curr_index as int == p_opt.unwrap());
            }
        }
        let ghost p_exec = self.curr_index as int;
        let ghost plist = param_list_end_at(toks, p_opt.unwrap() + 1);
        let mut parameters: Vec<Box<FunctionParameter>> = Vec::new();
        self.consume(TokenType::LeftParenthesis)?;
        while !self.expect(TokenType::RightParenthesis)
            invariant_except_break
                hyp ==> params_open_at(
                    toks,
                    p_opt.unwrap() + 1,
                    parameters@,
                    self.curr_index as int,
                ),
                param_list_end_at(toks, p_exec + 1) == param_list_end_at(
                    toks,
                    self.curr_index as int,
                ),
            invariant
                self.wf(),
                self.tokens == old(self).tokens,
                self.source == old(self).source,
                self.handlers@ == old(self).handlers@,
                old(self).errors@.len() <= self.errors@.len(),
                self.errors == old(self).errors,
                old(self).curr_index < self.curr_index,
                toks == old(self).tokens@,
                entry == old(self).curr_index as int,
                hyp == (function_end_at(toks, entry) is Some),
                plist == param_list_end_at(toks, p_opt.unwrap() + 1),
                hyp ==> plist is Some && kind_of(toks, plist.unwrap())
                    == TokenType::RightParenthesis,
                hyp ==> param_list_end_at(toks, self.curr_index as int) == plist,
                hyp ==> params_match_at(
                    toks,
                    p_opt.unwrap() + 1,
                    parameters@,
                    self.curr_index as int,
                ),
            ensures
                self.wf(),
                self.tokens == old(self).tokens,
                self.source == old(self).source,
                self.handlers@ == old(self).handlers@,
                old(self).errors@.len() <= self.errors@.len(),
                self.errors == old(self).errors,
                old(self).curr_index < self.curr_index,
                hyp ==> self.curr_index as int == plist.unwrap(),
                hyp ==> params_match_at(
                    toks,
                    p_opt.unwrap() + 1,
                    parameters@,
                    self.curr_index as int,
                ),
                param_list_end_at(toks, p_exec + 1) == Some(self.curr_index as int)
                    || param_list_end_at(toks, p_exec + 1) == param_list_end_at(
                    toks,
                    self.curr_index as int,
                ),
            decreases self.tokens@.len() - self.curr_index,
        {
            let ghost param_pos = self.curr_index as int;
            let ghost prev_params = parameters@;
            proof {
                if hyp {
                    assert(function_param_end_at(toks, self.curr_index as int) is Some);
                }
            }
            let param = self.parse_function_parameter()?;
            let ghost param_ghost = param;
            parameters.push(param);
            if !self.expect(TokenType::Comma) {
                proof {
                    assert(function_param_end_at(toks, param_pos) == Some(
                        self.curr_index as int,
                    ));
                    assert(param_list_end_at(toks, param_pos) == Some(self.curr_index as int));
                    if hyp {
                        lemma_params_open_close(
                            toks,
                            p_opt.unwrap() + 1,
                            prev_params,
                            param_ghost,
                            param_pos,
                        );
                        assert(param_list_end_at(toks, self.curr_index as int) == plist);
                    }
                }
                break ;
            } else {
                self.consume(TokenType::Comma)?;
                proof {
                    if hyp {
                        lemma_params_open_push(
                            toks,
                            p_opt.unwrap() + 1,
                            prev_params,
                            param_ghost,
                            param_pos,
                        );
                        lemma_params_open_to_match(
                            toks,
                            p_opt.unwrap() + 1,
                            parameters@,
                            self.curr_index as int,
                        );
                    }
                }
            }
        }
        self.consume(TokenType::RightParenthesis)?;

        self.consume_symbol(TokenType::Minus, TokenType::RightAngle, "'->'")?;
        proof {
            if hyp {
                assert(type_end_at(toks, self.curr_index as int) is Some);
            }
        }
        let ret = self.parse_type()?;

        let ghost mid = *self;
        proof {
            if hyp {
                assert(block_end_at(toks, mid.curr_index as int) is Some);
            }
        }
        let body = self.parse_block()?;

        proof {
            lemma_token_budget(*self, start);
            lemma_budget_end_bound(*self, start.loc, 0);
            lemma_budget_end_bound(*self, body.loc, self.curr_index - mid.curr_index);
            assert(function_end_at(toks, entry) == Some(self.curr_index as int));
        }
        let loc = start.get_loc().combine(&body.loc);
        Ok(FunctionData { loc, name: name.text, generic_parameters, parameters, ret, body })
    }

    /// Parses one top-level declaration, dispatching purely on lookahead of
    /// `struct` or `fn`; anything else is a hard parse error.
    pub fn parse_top_level(&mut self) -> (r: ParseResult<Box<TopLevelNode>>)
        requires
            old(self).wf(),
        ensures
            Parser::frame(*old(self), *final(self)),
            r matches Err(f) ==> f < old(self).handlers@.len(),
            r matches Err(_) ==> final(self).errors@.len() > old(self).errors@.len(),
            r matches Ok(_) ==> final(self).errors == old(self).errors,
            r matches Ok(_) ==> final(self).curr_index > old(self).curr_index,
            r matches Ok(node) ==> (((*node) is Struct && old(self).curr_kind()
                == TokenType::Struct) || ((*node) is Function && old(self).curr_kind()
                == TokenType::Fn)),
            (old(self).curr_kind() == TokenType::Struct || old(self).curr_kind()
                == TokenType::Fn) ==> final(self).curr_index > old(self).curr_index,
            (old(self).curr_kind() != TokenType::Struct && old(self).curr_kind()
                != TokenType::Fn) ==> {
                &&& final(self).curr_index == sync_stop(
                    old(self).tokens@,
                    old(self).handlers@,
                    old(self).curr_index as int,
                ).0
                &&& r matches Err(f) && f == sync_stop(
                    old(self).tokens@,
                    old(self).handlers@,
                    old(self).curr_index as int,
                ).1
                &&& final(self).errors@.len() == old(self).errors@.len() + 1
                &&& final(self).errors@.subrange(0, old(self).errors@.len() as int) == old(
                    self,
                ).errors@
                &&& final(self).errors@.last() matches ParseError::WithMessage(m, l) && m@
                    == "Expected the start of a struct, function, or import."@ && l == old(
                    self,
                ).spec_curr_loc()
            },
            top_level_end_at(old(self).tokens@, old(self).curr_index as int) matches Some(
                j,
            ) ==> (r matches Ok(node) && final(self).curr_index == j && ((*node) matches
                TopLevelNode::Struct(s) ==> struct_node_matches_at(
                old(self).tokens@,
                old(self).curr_index as int,
                s,
            )) && ((*node) matches TopLevelNode::Function(f2) ==> function_node_matches_at(
                old(self).tokens@,
                old(self).curr_index as int,
                f2,
            ))),
            r matches Ok(_) ==> top_level_end_at(old(self).tokens@, old(self).curr_index as int)
                == Some(final(self).curr_index as int),
            old(self).kind_at(old(self).curr_index + 1) == TokenType::Identifier ==> (r matches Ok(
                node,
            ) ==> {
                &&& ((*node) matches TopLevelNode::Struct(s) ==> s.name@ == old(self).tokens@[old(
                    self,
                ).curr_index + 1].text@)
                &&& ((*node) matches TopLevelNode::Function(f) ==> f.name@ == old(
                    self,
                ).tokens@[old(self).curr_index + 1].text@)
            }),
    {
        if self.expect(TokenType::Struct) {
            let node = self.parse_struct()?;
            Ok(Box::new(TopLevelNode::Struct(node)))
        } else if self.expect(TokenType::Fn) {
            let node = self.parse_function()?;
            Ok(Box::new(TopLevelNode::Function(node)))
        } else {
            let loc = self.curr().loc;
            self.errors.add_error(
                ParseError::WithMessage(
                    String::from_str("Expected the start of a struct, function, or import."),
                    loc,
                ),
            );
            self.synchronize()
        }
    }

    /// Parses `File := TopLevel*`. Each top-level declaration is parsed
    /// under a handler claiming `struct` and `fn`, so a malformed
    /// declaration is skipped up to the next declaration boundary and its
    /// siblings still parse.
    pub fn parse_file(&mut self) -> (r: ParseResult<File>)
        requires
            old(self).wf(),
        ensures
            Parser::frame(*old(self), *final(self)),
            r matches Err(f) ==> f < old(self).handlers@.len(),
            r matches Err(_) ==> final(self).errors@.len() > old(self).errors@.len(),
            r matches Ok(_) ==> final(self).curr_index == final(self).tokens@.len(),
            r matches Ok(f) ==> ((final(self).errors@.len() == old(self).errors@.len() && old(
                self,
            ).curr_index < old(self).tokens@.len()) ==> f.top_levels@.len() >= 1),
            file_ok_at(old(self).tokens@, old(self).curr_index as int) ==> (r matches Ok(f)
                && final(self).errors == old(self).errors && f.top_levels@.len()
                == top_level_count(old(self).tokens@, old(self).curr_index as int)
                && decls_match_at(
                old(self).tokens@,
                old(self).curr_index as int,
                f.top_levels@,
                old(self).tokens@.len() as int,
            )),
            r matches Ok(_) ==> (final(self).errors@ == old(self).errors@ ==> file_ok_at(
                old(self).tokens@,
                old(self).curr_index as int,
            )),
    {
        let ghost toks = old(self).tokens@;
        let ghost hyp = file_ok_at(toks, old(self).curr_index as int);
        let mut top_levels: Vec<Box<TopLevelNode>> = Vec::new();
        while !self.is_done()
            invariant
                self.wf(),
                self.tokens == old(self).tokens,
                self.source == old(self).source,
                self.handlers@ == old(self).handlers@,
                old(self).errors@.len() <= self.errors@.len(),
                old(self).curr_index <= self.curr_index,
                (old(self).curr_index < self.curr_index && self.errors@.len() == old(
                    self,
                ).errors@.len()) ==> top_levels@.len() >= 1,
                toks == old(self).tokens@,
                hyp == file_ok_at(toks, old(self).curr_index as int),
                hyp ==> file_ok_at(toks, self.curr_index as int) && self.errors == old(
                    self,
                ).errors && top_levels@.len() + top_level_count(toks, self.curr_index as int)
                    == top_level_count(toks, old(self).curr_index as int),
                hyp ==> decls_match_at(
                    toks,
                    old(self).curr_index as int,
                    top_levels@,
                    self.curr_index as int,
                ),
                self.errors@ == old(self).errors@ ==> (file_ok_at(toks, self.curr_index as int)
                    ==> file_ok_at(toks, old(self).curr_index as int)),
            decreases self.tokens@.len() - self.curr_index,
        {
            let ghost loop_pre = *self;
            proof {
                if hyp {
                    assert(top_level_end_at(toks, self.curr_index as int) is Some);
                }
            }
            let this_flag = self.handlers.len();
            let mut kinds: Vec<TokenType> = Vec::new();
            kinds.push(TokenType::Struct);
            kinds.push(TokenType::Fn);
            let ghost kinds_view = kinds@;
            self.handlers.push((kinds, this_flag));
            let ghost call_pre = *self;
            proof {
                assert forall|i: int| 0 <= i < self.handlers@.len() implies (
                #[trigger] self.handlers@[i]).1 == i by {
                    if i < loop_pre.handlers@.len() {
                        assert(self.handlers@[i] == loop_pre.handlers@[i]);
                    }
                }
            }
            let result = self.parse_top_level();
            self.handlers.pop();
            proof {
                assert(self.handlers@ =~= loop_pre.handlers@);
            }
            match result {
                Ok(t) => {
                    let ghost prev_nodes = top_levels@;
                    let ghost new_node = t;
                    top_levels.push(t);
                    proof {
                        if hyp {
                            assert(top_level_end_at(toks, loop_pre.curr_index as int) == Some(
                                self.curr_index as int,
                            ));
                            lemma_decls_match_push(
                                toks,
                                old(self).curr_index as int,
                                prev_nodes,
                                new_node,
                                loop_pre.curr_index as int,
                                self.curr_index as int,
                            );
                        }
                    }
                },
                Err(flag) => {
                    if flag != this_flag {
                        proof {
                            assert(flag < call_pre.handlers@.len());
                        }
                        return Err(flag);
                    }
                    proof {
                        let toks = call_pre.tokens@;
                        let hs = call_pre.handlers@;
                        let ci = call_pre.curr_index as int;
                        if call_pre.curr_kind() != TokenType::Struct && call_pre.curr_kind()
                            != TokenType::Fn {
                            lemma_sync_stop_props(toks, hs, ci);
                            let stop = sync_stop(toks, hs, ci).0;
                            if stop == toks.len() {
                                assert(sync_stop(toks, hs, ci).1 == 0);
                                assert(false);
                            } else {
                                let m = first_handler_for(
                                    hs,
                                    toks[stop].token_type,
                                    0,
                                ).unwrap();
                                lemma_first_handler_for_props(hs, toks[stop].token_type, 0);
                                assert(hs[m].1 == this_flag);
                                assert(m == this_flag as int);
                                assert(hs[m].0@ == kinds_view);
                                assert(kinds_view.contains(toks[stop].token_type));
                                assert(kinds_view[0] == TokenType::Struct);
                                assert(kinds_view[1] == TokenType::Fn);
                                assert(toks[stop].token_type == TokenType::Struct
                                    || toks[stop].token_type == TokenType::Fn);
                                assert(stop != ci);
                            }
                        }
                    }
                },
            }
        }
        Ok(File { top_levels })
    }

    /// Parses one file's complete token sequence. Returns the file's syntax
    /// tree only when no diagnostic was recorded — recovery may produce a
    /// partial tree, but a tree is never exposed alongside errors.
    pub fn parse(source: Rc<Source>, tokens: Vec<Token>) -> (r: Result<File, ErrorSet<ParseError>>)
        requires
            source.wf(),
            source.text@.len() < usize::MAX,
            forall|i: int|
                0 <= i < tokens@.len() ==> token_from_source(#[trigger] tokens@[i], source),
            (source.text@.len() + 1) * (tokens@.len() + 1) <= usize::MAX,
        ensures
            r matches Err(e) ==> e@.len() > 0 && forall|i: int|
                0 <= i < e@.len() ==> (#[trigger] e@[i]).renderable(),
            r matches Ok(f) ==> (tokens@.len() > 0 ==> f.top_levels@.len() >= 1),
            file_ok_at(tokens@, 0) ==> (r matches Ok(f) && f.top_levels@.len()
                == top_level_count(tokens@, 0) && decls_match_at(
                tokens@,
                0,
                f.top_levels@,
                tokens@.len() as int,
            )),
            r matches Ok(_) ==> file_ok_at(tokens@, 0),
    {
        let mut parser = Parser::new(source, tokens);
        let result = parser.parse_file();
        proof {
            assert forall|i: int| 0 <= i < parser.errors@.len() implies (
            #[trigger] parser.errors@[i]).renderable() by {
                assert(error_from_source(parser.errors@[i], parser.source));
            }
        }
        match result {
            Ok(f) => {
                if parser.errors.is_empty() {
                    proof {
                        assert(parser.errors@ =~= Seq::<ParseError>::empty());
                    }
                    Ok(f)
                } else {
                    Err(parser.errors)
                }
            },
            Err(_) => Err(parser.errors),
        }
    }
}

/// The canonical path a source was loaded from, as a character sequence, or
/// `None` for a synthetic source.
pub open spec fn path_view(s: Rc<Source>) -> Option<Seq<char>> {
    match s.path {
        Some(p) => Some(p@),
        None => None,
    }
}

/// Every loaded source's line table is consistent with its text.
pub open spec fn sources_wf(sources: Seq<Rc<Source>>) -> bool {
    forall|i: int| 0 <= i < sources.len() ==> (#[trigger] sources[i]).wf()
}

/// No two loaded sources share a canonical path: the multi-file traversal
/// visits each canonical path at most once.
pub open spec fn distinct_source_paths(sources: Seq<Rc<Source>>) -> bool {
    forall|i: int, j: int|
        0 <= i < j < sources.len() && path_view(#[trigger] sources[i]) is Some ==> path_view(
            sources[i],
        ) != path_view(#[trigger] sources[j])
}

/// Whether `sources` holds a source loaded from canonical path `p`.
pub open spec fn some_source_has_path(sources: Seq<Rc<Source>>, p: Seq<char>) -> bool {
    exists|k: int| 0 <= k < sources.len() && path_view(#[trigger] sources[k]) == Some(p)
}

/// An input the front end is able to record: readable text whose size, and
/// the size of its token sequence, the machine can account for.
pub open spec fn loadable_input(input: SourceInput) -> bool {
    match input.text {
        Some(t) => t@.len() < usize::MAX && (t@.len() + 1) * (crate::lexer::spec_lex(
            t@,
        ).tokens.len() + 1) <= usize::MAX,
        None => false,
    }
}

/// Whether a recorded source is exactly the given input's file: its
/// canonical path as both path and display name, and the input's text.
pub open spec fn source_from_input(s: Rc<Source>, input: SourceInput) -> bool {
    &&& path_view(s) == Some(input.path@)
    &&& s.name@ == input.path@
    &&& match input.text {
        Some(t) => s.text == t && s.wf(),
        None => false,
    }
}

/// Whether the source at index `k` is exactly some input's file.
pub open spec fn source_stems_from_inputs(
    sources: Seq<Rc<Source>>,
    inputs: Seq<SourceInput>,
    k: int,
) -> bool {
    exists|m: int| 0 <= m < inputs.len() && source_from_input(sources[k], #[trigger] inputs[m])
}

/// Whether the error set holds a file-not-found diagnostic naming `path`.
pub open spec fn has_file_not_found(es: Seq<ParseError>, path: Seq<char>) -> bool {
    exists|i: int|
        0 <= i < es.len() && ((#[trigger] es[i]) matches ParseError::FileNotFound(pp, _) && pp@
            == path)
}

/// Whether some already-loaded source was loaded from `path`.
fn sources_contain_path(sources: &Vec<Rc<Source>>, path: &String) -> (r: bool)
    ensures
        r == exists|i: int|
            0 <= i < sources@.len() && path_view(#[trigger] sources@[i]) == Some(path@),
{
    let n = sources.len();
    let mut i: usize = 0;
    while i < n
        invariant
            i <= n,
            n == sources@.len(),
            forall|j: int| 0 <= j < i ==> path_view(#[trigger] sources@[j]) != Some(path@),
        decreases n - i,
    {
        match &sources[i].path {
            Some(p) => {
                if *p == *path {
                    return true;
                }
            },
            None => {},
        }
        i = i + 1;
    }
    false
}

/// One entry of the work queue of files to visit: a canonical path and the
/// file's text, or `None` where the file could not be read.
pub struct SourceInput {
    pub path: String,
    pub text: Option<String>,
}

/// Drives the multi-file work queue. Each entry is visited in order; an
/// entry whose canonical path is already loaded is skipped, so visiting the
/// same canonical path twice yields one parsed file. Each new path's text is
/// recorded as a source, lexed and parsed, with every lexical and syntactic
/// diagnostic accumulated. Returns the program's files only when no
/// diagnostic was recorded, and otherwise the non-empty diagnostic set.
pub fn parse_program(state: &mut CompilerState, inputs: Vec<SourceInput>) -> (r: Result<
    Program,
    ErrorSet<ParseError>,
>)
    requires
        sources_wf(old(state).sources@),
        distinct_source_paths(old(state).sources@),
    ensures
        final(state).sources@.subrange(0, old(state).sources@.len() as int) == old(state).sources@,
        sources_wf(final(state).sources@),
        distinct_source_paths(final(state).sources@),
        forall|m: int|
            0 <= m < inputs@.len() && loadable_input(#[trigger] inputs@[m])
                ==> some_source_has_path(final(state).sources@, inputs@[m].path@),
        r matches Ok(p) ==> p.files@.len() + old(state).sources@.len() == final(state).sources@.len(),
        forall|k: int|
            old(state).sources@.len() <= k < final(state).sources@.len()
                ==> source_stems_from_inputs(final(state).sources@, inputs@, k),
        r matches Ok(p) ==> forall|k: int|
            old(state).sources@.len() <= k < final(state).sources@.len() ==> {
                &&& crate::lexer::spec_lex((#[trigger] final(state).sources@[k]).text@).errors.len()
                    == 0
                &&& (crate::lexer::spec_lex(final(state).sources@[k].text@).tokens.len() > 0
                    ==> p.files@[k - old(state).sources@.len()].top_levels@.len() >= 1)
            },
        r matches Ok(_) ==> forall|m: int|
            0 <= m < inputs@.len() && (#[trigger] inputs@[m]).text is None
                ==> some_source_has_path(final(state).sources@, inputs@[m].path@),
        r matches Err(e) ==> e@.len() > 0 && (forall|i: int|
            0 <= i < e@.len() ==> (#[trigger] e@[i]).renderable()),
        r matches Err(e) ==> forall|m: int|
            0 <= m < inputs@.len() && (#[trigger] inputs@[m]).text is None
                && !some_source_has_path(final(state).sources@, inputs@[m].path@)
                ==> has_file_not_found(e@, inputs@[m].path@),
{
    let ghost base = old(state).sources@;
    let mut program_files: Vec<File> = Vec::new();
    let mut errors: ErrorSet<ParseError> = ErrorSet::new();

    let n_inputs = inputs.len();
    let mut qi: usize = 0;
    proof {
        assert(state.sources@.subrange(0, base.len() as int) =~= base);
    }
    while qi < n_inputs
        invariant
            qi <= n_inputs,
            n_inputs == inputs@.len(),
            sources_wf(state.sources@),
            distinct_source_paths(state.sources@),
            base.len() <= state.sources@.len(),
            state.sources@.subrange(0, base.len() as int) == base,
            program_files@.len() + base.len() <= state.sources@.len(),
            errors@.len() == 0 ==> program_files@.len() + base.len() == state.sources@.len(),
            forall|k: int|
                base.len() <= k < state.sources@.len() ==> source_stems_from_inputs(
                    state.sources@,
                    inputs@,
                    k,
                ),
            errors@.len() == 0 ==> forall|k: int|
                base.len() <= k < state.sources@.len() ==> {
                    &&& crate::lexer::spec_lex((#[trigger] state.sources@[k]).text@).errors.len()
                        == 0
                    &&& (crate::lexer::spec_lex(state.sources@[k].text@).tokens.len() > 0
                        ==> program_files@[k - base.len()].top_levels@.len() >= 1)
                },
            forall|m: int|
                0 <= m < qi && (#[trigger] inputs@[m]).text is None && !some_source_has_path(
                    state.sources@,
                    inputs@[m].path@,
                ) ==> has_file_not_found(errors@, inputs@[m].path@),
            errors@.len() == 0 ==> forall|m: int|
                0 <= m < qi && (#[trigger] inputs@[m]).text is None ==> some_source_has_path(
                    state.sources@,
                    inputs@[m].path@,
                ),
            forall|m: int|
                0 <= m < qi && loadable_input(#[trigger] inputs@[m]) ==> some_source_has_path(
                    state.sources@,
                    inputs@[m].path@,
                ),
            forall|i: int| 0 <= i < errors@.len() ==> (#[trigger] errors@[i]).renderable(),
        decreases n_inputs - qi,
    {
        let ghost iter_pre_sources = state.sources@;
        let ghost iter_pre_errors = errors@;
        let next_path = inputs[qi].path.clone();
        let ghost next_path_view = next_path@;
        let already = sources_contain_path(&state.sources, &next_path);
        if !already {
            match &inputs[qi].text {
                None => {
                    let name = next_path.clone();
                    let synthetic = Rc::new(Source::from_text(None, name, String::new()));
                    proof {
                        crate::source::lemma_line_ranges_from_props(synthetic.text@, 0, 0);
                    }
                    let loc = Location::new(Rc::clone(&synthetic), 0, 0, 1);
                    errors.add_error(ParseError::FileNotFound(next_path, loc));
                    proof {
                        assert(errors@[errors@.len() - 1] matches ParseError::FileNotFound(
                            pp,
                            _,
                        ) && pp@ == next_path_view);
                        assert(has_file_not_found(errors@, next_path_view));
                    }
                },
                Some(text_ref) => {
                    let text = text_ref.clone();
                    let n_chars = text.as_str().unicode_len();
                    if n_chars >= usize::MAX {
                        let name = next_path.clone();
                        let synthetic = Rc::new(Source::from_text(None, name, String::new()));
                        proof {
                            crate::source::lemma_line_ranges_from_props(synthetic.text@, 0, 0);
                        }
                        let loc = Location::new(Rc::clone(&synthetic), 0, 0, 1);
                        errors.add_error(
                            ParseError::WithMessage(
                                String::from_str("File is too large to parse."),
                                loc,
                            ),
                        );
                    } else {
                        let name = next_path.clone();
                        let source = Rc::new(Source::from_text(Some(next_path), name, text));
                        let ghost pre_sources = state.sources@;
                        state.sources.push(Rc::clone(&source));
                        proof {
                            assert(source_from_input(
                                state.sources@[state.sources@.len() - 1],
                                inputs@[qi as int],
                            ));
                            assert(source_stems_from_inputs(
                                state.sources@,
                                inputs@,
                                state.sources@.len() - 1,
                            ));
                            assert(state.sources@.subrange(0, base.len() as int)
                                =~= pre_sources.subrange(0, base.len() as int));
                            assert forall|i: int, j: int|
                                0 <= i < j < state.sources@.len() && path_view(
                                    #[trigger] state.sources@[i],
                                ) is Some implies path_view(state.sources@[i]) != path_view(
                                #[trigger] state.sources@[j],
                            ) by {
                                if j == state.sources@.len() - 1 {
                                    assert(state.sources@[i] == pre_sources[i]);
                                }
                            }
                        }
                        match lex_source(Rc::clone(&source)) {
                            Err(lex_errors) => {
                                let mut new_errors = ErrorSet::from_vec(lex_errors);
                                errors.add_errors(&mut new_errors);
                            },
                            Ok(tokens) => {
                                let n_tokens = tokens.len();
                                let mut bound_ok = false;
                                if n_tokens < usize::MAX {
                                    match (n_chars + 1).checked_mul(n_tokens + 1) {
                                        Some(_) => {
                                            bound_ok = true;
                                        },
                                        None => {},
                                    }
                                }
                                if bound_ok {
                                    match Parser::parse(Rc::clone(&source), tokens) {
                                        Ok(f) => {
                                            program_files.push(f);
                                        },
                                        Err(mut e) => {
                                            errors.add_errors(&mut e);
                                        },
                                    }
                                } else {
                                    proof {
                                        crate::source::lemma_line_ranges_from_props(
                                            source.text@,
                                            0,
                                            0,
                                        );
                                    }
                                    errors.add_error(
                                        ParseError::WithMessage(
                                            String::from_str("File is too large to parse."),
                                            Location::new(Rc::clone(&source), 0, 0, 1),
                                        ),
                                    );
                                }
                            },
                        }
                    }
                },
            }
        }
        proof {
            assert(iter_pre_errors.len() <= errors@.len());
            assert forall|i: int| 0 <= i < iter_pre_errors.len() implies errors@[i]
                == iter_pre_errors[i] by {}
            assert forall|k: int|
                base.len() <= k < state.sources@.len() implies source_stems_from_inputs(
                state.sources@,
                inputs@,
                k,
            ) by {
                if k < iter_pre_sources.len() {
                    assert(state.sources@[k] == iter_pre_sources[k]);
                    assert(source_stems_from_inputs(iter_pre_sources, inputs@, k));
                    let m = choose|m: int|
                        0 <= m < inputs@.len() && source_from_input(
                            iter_pre_sources[k],
                            #[trigger] inputs@[m],
                        );
                    assert(source_from_input(state.sources@[k], inputs@[m]));
                }
            }
            assert forall|m: int|
                0 <= m < qi + 1 && (#[trigger] inputs@[m]).text is None && !some_source_has_path(
                    state.sources@,
                    inputs@[m].path@,
                ) implies has_file_not_found(errors@, inputs@[m].path@) by {
                if m < qi {
                    if some_source_has_path(iter_pre_sources, inputs@[m].path@) {
                        let k = choose|k: int|
                            0 <= k < iter_pre_sources.len() && path_view(
                                #[trigger] iter_pre_sources[k],
                            ) == Some(inputs@[m].path@);
                        assert(state.sources@[k] == iter_pre_sources[k]);
                        assert(false);
                    } else {
                        assert(has_file_not_found(iter_pre_errors, inputs@[m].path@));
                        let i = choose|i: int|
                            0 <= i < iter_pre_errors.len() && ((#[trigger] iter_pre_errors[i])
                                matches ParseError::FileNotFound(pp, _) && pp@
                                == inputs@[m].path@);
                        assert(errors@[i] == iter_pre_errors[i]);
                    }
                } else {
                    if !already {
                        assert(inputs@[m].text is None);
                    } else {
                        let k = choose|k: int|
                            0 <= k < iter_pre_sources.len() && path_view(
                                #[trigger] iter_pre_sources[k],
                            ) == Some(next_path_view);
                        assert(state.sources@[k] == iter_pre_sources[k]);
                        assert(false);
                    }
                }
            }
            if errors@.len() == 0 {
                assert forall|m: int|
                    0 <= m < qi + 1 && (#[trigger] inputs@[m]).text is None implies some_source_has_path(
                    state.sources@,
                    inputs@[m].path@,
                ) by {
                    if m < qi {
                        assert(some_source_has_path(iter_pre_sources, inputs@[m].path@));
                        let k = choose|k: int|
                            0 <= k < iter_pre_sources.len() && path_view(
                                #[trigger] iter_pre_sources[k],
                            ) == Some(inputs@[m].path@);
                        assert(state.sources@[k] == iter_pre_sources[k]);
                    } else {
                        assert(already);
                        let k = choose|k: int|
                            0 <= k < iter_pre_sources.len() && path_view(
                                #[trigger] iter_pre_sources[k],
                            ) == Some(next_path_view);
                        assert(state.sources@[k] == iter_pre_sources[k]);
                    }
                }
            }
            assert forall|m: int|
                0 <= m < qi + 1 && loadable_input(#[trigger] inputs@[m]) implies some_source_has_path(
                state.sources@,
                inputs@[m].path@,
            ) by {
                if m < qi {
                    assert(some_source_has_path(iter_pre_sources, inputs@[m].path@));
                    let k = choose|k: int|
                        0 <= k < iter_pre_sources.len() && path_view(
                            #[trigger] iter_pre_sources[k],
                        ) == Some(inputs@[m].path@);
                    assert(state.sources@[k] == iter_pre_sources[k]);
                } else {
                    if already {
                        let k = choose|k: int|
                            0 <= k < iter_pre_sources.len() && path_view(
                                #[trigger] iter_pre_sources[k],
                            ) == Some(next_path_view);
                        assert(state.sources@[k] == iter_pre_sources[k]);
                    } else {
                        assert(path_view(state.sources@[state.sources@.len() - 1]) == Some(
                            next_path_view,
                        ));
                    }
                }
            }
        }
        qi = qi + 1;
    }
    if errors.is_empty() {
        Ok(Program { files: program_files })
    } else {
        Err(errors)
    }
}

} // verus!
