//! The part of a script's syntax tree that extraction reads.
use vstd::prelude::*;
use crate::num::Num;

verus! {

/// An expression with the byte range `[start, end)` it spans in the source.
pub struct Expr {
    pub start: u32,
    pub end: u32,
    pub kind: ExprKind,
}

/// Binary operators; every operator other than the four below is `Other`.
#[derive(Clone, Copy, PartialEq, Eq, Structural, Debug)]
pub enum BinOp {
    Add,
    Sub,
    Mul,
    Div,
    Other,
}

/// The shapes of expression that extraction tells apart.
pub enum ExprKind {
    /// A string literal with its value.
    Str(String),
    /// A numeric literal.
    Num(Num),
    /// A numeric literal whose digits do not fit the range numbers are computed in.
    NumOutOfRange,
    Binary(BinOp, Box<Expr>, Box<Expr>),
    Template(Template),
    /// `object[key]`.
    ComputedMember,
    /// `object.name`.
    StaticMember(Box<Expr>, String),
    Ident(String),
    Object(Vec<Prop>),
    /// A call with its callee and its arguments (spread arguments left out).
    Call(Box<Expr>, Vec<Expr>),
    /// A tagged template: its tag and its template.
    TaggedTemplate(Box<Expr>, Template),
    /// An arrow function with its number of parameters and its body; a
    /// concise body `=> e` is the single statement `e`.
    Arrow(usize, Vec<Stmt>),
    /// A JSX element: the expressions of its attribute containers, then those
    /// of its child containers.
    Jsx(Vec<Expr>),
    Paren(Box<Expr>),
    Other,
}

/// A template literal: its raw text chunks and the expressions between them.
pub struct Template {
    pub start: u32,
    pub quasis: Vec<String>,
    pub exprs: Vec<Expr>,
}

/// A member of an object literal.
pub enum Prop {
    KeyValue(PropKey, Expr),
    /// `...arg`, with the start of the spread.
    Spread(u32, Expr),
}

/// The key of an object member: a plain identifier or string literal, or any
/// other form (computed, private), with its start.
pub enum PropKey {
    Name(String),
    Unsupported(u32),
}

/// The statements that extraction walks through; a function declaration is
/// the block of its body, an exported declaration the declaration itself.
pub enum Stmt {
    Expr(Expr),
    Var(Vec<Declarator>),
    Return(Option<Expr>),
    Block(Vec<Stmt>),
    If(Box<Stmt>, Option<Box<Stmt>>),
    Other,
}

/// One declarator of a variable declaration: the bound name when the binding
/// is a plain identifier, and the initialiser.
pub struct Declarator {
    pub name: Option<String>,
    pub init: Option<Expr>,
}

} // verus!
