//! The abstract syntax tree: a closed set of node variants for programs,
//! files, top-level declarations, types, qualified names, statements and
//! expressions, each carrying the `Location` of its full source text. The
//! tree is owned top-down and never mutated after construction.

use vstd::prelude::*;
use crate::source::{Location, HasLoc};

verus! {

/// An ordered collection of per-file syntax trees.
#[derive(Debug)]
pub struct Program {
    pub files: Vec<File>,
}

/// The ordered top-level declarations of one source file.
#[derive(Debug)]
pub struct File {
    pub top_levels: Vec<Box<TopLevelNode>>,
}

/// A construct directly contained in a file.
#[derive(Debug)]
pub enum TopLevelNode {
    Import(ImportData),
    Struct(StructData),
    Function(FunctionData),
}

#[derive(Debug)]
pub struct ImportData {
    pub loc: Location,
}

/// A generic parameter: a name with an optional bound (the current grammar
/// never populates the bound).
#[derive(Debug)]
pub struct GenericParameter {
    pub loc: Location,
    pub name: String,
    pub bound: Option<Box<TypeNode>>,
}

/// A struct declaration: name, generic parameters, optional superstruct,
/// interface list (the current grammar leaves it empty), and fields.
#[derive(Debug)]
pub struct StructData {
    pub loc: Location,
    pub name: String,
    pub generic_parameters: Vec<Box<GenericParameter>>,
    pub superstruct: Option<Box<QualifiedNameNode>>,
    pub interfaces: Vec<Box<QualifiedNameNode>>,
    pub fields: Vec<Box<StructField>>,
}

#[derive(Debug)]
pub struct StructField {
    pub loc: Location,
    pub name: String,
    pub typ: Box<TypeNode>,
}

/// A function declaration: name, generic parameters, parameters, return type
/// and body.
#[derive(Debug)]
pub struct FunctionData {
    pub loc: Location,
    pub name: String,
    pub generic_parameters: Vec<Box<GenericParameter>>,
    pub parameters: Vec<Box<FunctionParameter>>,
    pub ret: Box<TypeNode>,
    pub body: BlockData,
}

#[derive(Debug)]
pub struct FunctionParameter {
    pub loc: Location,
    pub name: String,
    pub typ: Box<TypeNode>,
}

impl HasLoc for TopLevelNode {
    open spec fn spec_loc(&self) -> Location {
        match self {
            TopLevelNode::Import(n) => n.loc,
            TopLevelNode::Struct(n) => n.loc,
            TopLevelNode::Function(n) => n.loc,
        }
    }

    fn get_loc(&self) -> &Location {
        match self {
            TopLevelNode::Import(n) => &n.loc,
            TopLevelNode::Struct(n) => &n.loc,
            TopLevelNode::Function(n) => &n.loc,
        }
    }
}

/// A statement.
#[derive(Debug)]
pub enum StmtNode {
    Expr(StmtExprData),
    Return(StmtReturnData),
}

/// An expression in statement position.
#[derive(Debug)]
pub struct StmtExprData {
    pub loc: Location,
    pub expr: Box<ExprNode>,
}

/// A `return` statement with its value expression.
#[derive(Debug)]
pub struct StmtReturnData {
    pub loc: Location,
    pub expr: Box<ExprNode>,
}

/// An expression.
#[derive(Debug)]
pub enum ExprNode {
    Name(NameData),
    Integer(IntegerData),
    Block(BlockData),
}

/// A reference to a (possibly qualified) name.
#[derive(Debug)]
pub struct NameData {
    pub loc: Location,
    pub name: QualNameData,
}

/// An unsigned 64-bit integer literal.
#[derive(Debug)]
pub struct IntegerData {
    pub loc: Location,
    pub integer: u64,
}

/// An ordered sequence of statements, usable both as a function body and as
/// an expression.
#[derive(Debug)]
pub struct BlockData {
    pub loc: Location,
    pub stmts: Vec<Box<StmtNode>>,
}

impl HasLoc for ExprNode {
    open spec fn spec_loc(&self) -> Location {
        match self {
            ExprNode::Name(n) => n.loc,
            ExprNode::Integer(n) => n.loc,
            ExprNode::Block(n) => n.loc,
        }
    }

    fn get_loc(&self) -> &Location {
        match self {
            ExprNode::Name(n) => &n.loc,
            ExprNode::Integer(n) => &n.loc,
            ExprNode::Block(n) => &n.loc,
        }
    }
}

/// A possibly-qualified name, built left-associatively: `a::b::c` is a
/// namespace node whose source is `a::b` with attribute `c`.
#[derive(Debug)]
pub enum QualifiedNameNode {
    Name(QualNameData),
    Namespace(QualNamespaceData),
}

/// A bare identifier.
#[derive(Debug)]
pub struct QualNameData {
    pub loc: Location,
    pub name: String,
}

/// A qualified-name prefix plus a trailing attribute identifier.
#[derive(Debug)]
pub struct QualNamespaceData {
    pub loc: Location,
    pub source: Box<QualifiedNameNode>,
    pub attr: String,
}

impl QualifiedNameNode {
    /// The identifier texts of a qualified name, left to right: `a::b::c`
    /// yields the texts of `a`, `b`, `c`.
    pub open spec fn parts(self) -> Seq<Seq<char>>
        decreases self,
    {
        match self {
            QualifiedNameNode::Name(d) => seq![d.name@],
            QualifiedNameNode::Namespace(d) => (*d.source).parts().push(d.attr@),
        }
    }
}

impl HasLoc for QualifiedNameNode {
    open spec fn spec_loc(&self) -> Location {
        match self {
            QualifiedNameNode::Name(node) => node.loc,
            QualifiedNameNode::Namespace(node) => node.loc,
        }
    }

    fn get_loc(&self) -> &Location {
        match self {
            QualifiedNameNode::Name(node) => &node.loc,
            QualifiedNameNode::Namespace(node) => &node.loc,
        }
    }
}

/// A type expression.
#[derive(Debug)]
pub enum TypeNode {
    Name(TypeNameData),
    Function(TypeFunctionData),
    Reference(TypeReferenceData),
}

/// A named type with optional generic arguments (the current grammar never
/// populates the arguments).
#[derive(Debug)]
pub struct TypeNameData {
    pub loc: Location,
    pub name: Box<QualifiedNameNode>,
    pub generic_arguments: Option<Vec<Box<TypeNode>>>,
}

/// A function type: ordered parameter types and a return type.
#[derive(Debug)]
pub struct TypeFunctionData {
    pub loc: Location,
    pub arguments: Vec<Box<TypeNode>>,
    pub ret: Box<TypeNode>,
}

/// A borrowed/aliased form of its inner type.
#[derive(Debug)]
pub struct TypeReferenceData {
    pub loc: Location,
    pub typ: Box<TypeNode>,
}

impl HasLoc for TypeNode {
    open spec fn spec_loc(&self) -> Location {
        match self {
            TypeNode::Name(n) => n.loc,
            TypeNode::Function(n) => n.loc,
            TypeNode::Reference(n) => n.loc,
        }
    }

    fn get_loc(&self) -> &Location {
        match self {
            TypeNode::Name(n) => &n.loc,
            TypeNode::Function(n) => &n.loc,
            TypeNode::Reference(n) => &n.loc,
        }
    }
}

} // verus!
