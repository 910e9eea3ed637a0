//! The Rust code that is looked at: what the rules read of expressions, statements, patterns, types
//! and function items.
use vstd::prelude::*;

verus! {

/// An integer literal.
#[derive(Debug)]
pub struct IntLit {
    /// The literal as it is written.
    pub text: String,
    /// Its value in decimal digits.
    pub digits: String,
    /// What is said of it where it does not fit an `i64`.
    pub complaint: String,
}

/// A literal.
#[derive(Debug)]
pub enum Lit {
    Int(IntLit),
    Bool(bool),
    /// Any other literal, by its description.
    Other(String),
}

/// A binary operator. Those that the solver has no operation for carry their description.
#[derive(Debug)]
pub enum BinOp {
    Plus,
    Minus,
    Times,
    Div,
    Rem,
    Shr,
    Shl,
    BitAnd(String),
    Eq,
    Ne,
    Lt,
    Le,
    Gt,
    Ge,
    And,
    Or,
    AddAssign(String),
    SubAssign(String),
    Other(String),
}

/// A unary operator. Other ones carry their description.
#[derive(Debug)]
pub enum UnOp {
    Not,
    Neg,
    Deref,
    Other(String),
}

/// A field of a struct, by its name or its number.
#[derive(Debug)]
pub enum Member {
    Named(String),
    Unnamed(u32),
}

/// A path.
#[derive(Debug)]
pub struct Path {
    /// Its names, in order.
    pub segments: Vec<String>,
    /// Whether it is one name, without arguments and leading colons.
    pub bare: bool,
}

/// A pattern.
#[derive(Debug)]
pub enum Pat {
    Ident(String),
    Wild,
    Lit(Lit),
    TupleStruct(Path, Vec<Pat>),
    Path(Path),
    Struct,
    Other,
}

/// What is called.
#[derive(Debug)]
pub enum Callee {
    Path(Path),
    /// Any other expression, by its description.
    Other(String),
}

/// An expression.
#[derive(Debug)]
pub enum Expr {
    Lit(Lit),
    Path(Path),
    Binary(BinOp, Box<Expr>, Box<Expr>),
    /// Receiver, name of the method, arguments.
    MethodCall(Box<Expr>, String, Vec<Expr>),
    Call(Callee, Vec<Expr>),
    Unary(UnOp, Box<Expr>),
    Paren(Box<Expr>),
    Cast(Box<Expr>),
    Reference(Box<Expr>),
    Try(Box<Expr>),
    Tuple(Vec<Expr>),
    Array(Vec<Expr>),
    /// Element and length.
    Repeat(Box<Expr>, Box<Expr>),
    /// Start, end, and whether the end is included.
    Range(Option<Box<Expr>>, Option<Box<Expr>>, bool),
    Field(Box<Expr>, Member),
    Index(Box<Expr>, Box<Expr>),
    Block(Block),
    Match(Box<Expr>, Vec<Arm>),
    ForLoop(Box<Expr>, Block),
    While(Box<Expr>, Block),
    Loop(Block),
    Closure(Vec<Pat>, Box<Expr>),
    If(Box<Expr>, Block, Option<Box<Expr>>),
    /// Pattern, its description, scrutinee.
    Let(Pat, String, Box<Expr>),
    Struct(Vec<FieldValue>),
    /// Left side, right side, description.
    Assign(Box<Expr>, Box<Expr>, String),
    /// Value and description.
    Return(Option<Box<Expr>>, String),
    /// Any other expression, by its description.
    Other(String),
}

/// A block.
#[derive(Debug)]
pub struct Block {
    pub stmts: Vec<Stmt>,
}

/// A statement.
#[derive(Debug)]
pub enum Stmt {
    /// A binding and what it is bound to.
    Local(Pat, Option<Expr>),
    /// An expression with a semicolon.
    Semi(Expr),
    /// An expression without a semicolon, and whether it is the same as the last statement of its
    /// block.
    Tail(Expr, bool),
    Item,
    Macro,
}

/// An arm of a match.
#[derive(Debug)]
pub struct Arm {
    pub pat: Pat,
    /// Whether the arm has a guard.
    pub guard: bool,
    pub body: Expr,
}

/// A field of a struct expression.
#[derive(Debug)]
pub struct FieldValue {
    pub member: Member,
    pub expr: Expr,
}

/// A type.
#[derive(Debug)]
pub enum Type {
    /// A path, of which the last segment counts: its name, and its arguments in angle brackets.
    Path(String, Option<Vec<TypeArg>>),
    /// A path without segments.
    EmptyPath,
    Tuple(Vec<Type>),
    Array,
    Slice,
    Reference(Box<Type>),
    Ptr(Box<Type>),
    Other,
}

/// An argument of a type.
#[derive(Debug)]
pub enum TypeArg {
    Type(Type),
    Other,
}

/// A function.
#[derive(Debug)]
pub struct FnItem {
    pub name: String,
    /// The parameters that are plain names, with their types, in order.
    pub params: Vec<(String, Type)>,
    /// The return type, if one is written.
    pub output: Option<Type>,
    pub body: Block,
}

} // verus!
