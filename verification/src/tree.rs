//! Rust code as a mathematical value.
use vstd::prelude::*;
use crate::ast::{
    Arm, BinOp, Callee, Expr, FieldValue, FnItem, Lit, Member, Pat, Path, Stmt, Type, TypeArg,
    UnOp,
};
use crate::attributes::SourceFn;
use crate::contracts::{Attr, InnerAttr};
use crate::patterns;
use crate::text;

verus! {

/// A literal.
pub enum LitTree {
    /// As it is written, its value in decimal digits, and what is said of it where it does not fit.
    Int(Seq<char>, Seq<char>, Seq<char>),
    Bool(bool),
    Other(Seq<char>),
}

/// An operator: as it is written, where it is one that the rules know, and its description, where it
/// carries one.
pub type OpTree = (Seq<char>, Seq<char>);

/// A field: its name or its number.
pub type MemberTree = Result<Seq<char>, u32>;

/// A path.
pub struct PathTree {
    pub segments: Seq<Seq<char>>,
    pub bare: bool,
}

/// A pattern.
pub enum PatTree {
    Ident(Seq<char>),
    Wild,
    Lit(LitTree),
    TupleStruct(PathTree, Seq<PatTree>),
    Path(PathTree),
    Struct,
    Other,
}

/// An expression.
pub enum Tree {
    Lit(LitTree),
    Path(PathTree),
    Binary(OpTree, Box<Tree>, Box<Tree>),
    MethodCall(Box<Tree>, Seq<char>, Seq<Tree>),
    Call(Result<PathTree, Seq<char>>, Seq<Tree>),
    Unary(OpTree, Box<Tree>),
    Paren(Box<Tree>),
    Cast(Box<Tree>),
    Reference(Box<Tree>),
    Try(Box<Tree>),
    Tuple(Seq<Tree>),
    Array(Seq<Tree>),
    Repeat(Box<Tree>, Box<Tree>),
    Range(Option<Box<Tree>>, Option<Box<Tree>>, bool),
    Field(Box<Tree>, MemberTree),
    Index(Box<Tree>, Box<Tree>),
    Block(Seq<StmtTree>),
    Match(Box<Tree>, Seq<ArmTree>),
    ForLoop(Box<Tree>, Seq<StmtTree>),
    While(Box<Tree>, Seq<StmtTree>),
    Loop(Seq<StmtTree>),
    Closure(Seq<PatTree>, Box<Tree>),
    If(Box<Tree>, Seq<StmtTree>, Option<Box<Tree>>),
    Let(PatTree, Seq<char>, Box<Tree>),
    Struct(Seq<(MemberTree, Tree)>),
    Assign(Box<Tree>, Box<Tree>, Seq<char>),
    Return(Option<Box<Tree>>, Seq<char>),
    Other(Seq<char>),
}

/// A statement.
pub enum StmtTree {
    Local(PatTree, Option<Tree>),
    Semi(Tree),
    Tail(Tree, bool),
    Item,
    Macro,
}

/// An arm of a match.
pub struct ArmTree {
    pub pat: PatTree,
    pub guard: bool,
    pub body: Tree,
}

/// A type.
pub enum TypeTree {
    Path(Seq<char>, Option<Seq<Option<TypeTree>>>),
    EmptyPath,
    Tuple(Seq<TypeTree>),
    Array,
    Slice,
    Reference(Box<TypeTree>),
    Ptr(Box<TypeTree>),
    Other,
}

/// A function.
pub struct FnTree {
    pub name: Seq<char>,
    pub params: Seq<(Seq<char>, TypeTree)>,
    pub output: Option<TypeTree>,
    pub body: Seq<StmtTree>,
}

/// An attribute inside another one.
pub struct InnerTree {
    pub name: Option<Seq<char>>,
    pub tokens: Seq<char>,
    pub expr: Option<Tree>,
}

/// An attribute.
pub struct AttrTree {
    pub path: PathTree,
    pub tokens: Seq<char>,
    pub arg: Option<(Seq<char>, Tree)>,
    pub inner: Option<InnerTree>,
}

/// A function with its attributes.
pub struct SourceTree {
    pub name: Seq<char>,
    pub attrs: Seq<AttrTree>,
    pub item: FnTree,
}

/// An item of a file: a function, the parts of an implementation with the functions among them, or
/// anything else.
pub enum ItemTree {
    Fn(SourceTree),
    Impl(Seq<Option<SourceTree>>),
    Other,
}

/// A literal as a mathematical value.
pub open spec fn lit_view(l: Lit) -> LitTree {
    match l {
        Lit::Int(n) => LitTree::Int(n.text@, n.digits@, n.complaint@),
        Lit::Bool(b) => LitTree::Bool(b),
        Lit::Other(s) => LitTree::Other(s@),
    }
}

/// A binary operator as a mathematical value.
pub open spec fn op_view(op: BinOp) -> OpTree {
    match op {
        BinOp::Plus => ("+"@, seq![]),
        BinOp::Minus => ("-"@, seq![]),
        BinOp::Times => ("*"@, seq![]),
        BinOp::Div => ("/"@, seq![]),
        BinOp::Rem => ("%"@, seq![]),
        BinOp::Shr => (">>"@, seq![]),
        BinOp::Shl => ("<<"@, seq![]),
        BinOp::BitAnd(s) => ("&"@, s@),
        BinOp::Eq => ("=="@, seq![]),
        BinOp::Ne => ("!="@, seq![]),
        BinOp::Lt => ("<"@, seq![]),
        BinOp::Le => ("<="@, seq![]),
        BinOp::Gt => (">"@, seq![]),
        BinOp::Ge => (">="@, seq![]),
        BinOp::And => ("&&"@, seq![]),
        BinOp::Or => ("||"@, seq![]),
        BinOp::AddAssign(s) => ("+="@, s@),
        BinOp::SubAssign(s) => ("-="@, s@),
        BinOp::Other(s) => (seq![], s@),
    }
}

/// A unary operator as a mathematical value.
pub open spec fn unary_view(op: UnOp) -> OpTree {
    match op {
        UnOp::Not => ("!"@, seq![]),
        UnOp::Neg => ("-"@, seq![]),
        UnOp::Deref => ("*"@, seq![]),
        UnOp::Other(s) => (seq![], s@),
    }
}

/// A field as a mathematical value.
pub open spec fn member_view(m: Member) -> MemberTree {
    match m {
        Member::Named(s) => Ok(s@),
        Member::Unnamed(n) => Err(n),
    }
}

/// A path as a mathematical value.
pub open spec fn path_view(p: Path) -> PathTree {
    PathTree { segments: text::views(p.segments@), bare: p.bare }
}

/// What is called as a mathematical value.
pub open spec fn callee_view(c: Callee) -> Result<PathTree, Seq<char>> {
    match c {
        Callee::Path(p) => Ok(path_view(p)),
        Callee::Other(s) => Err(s@),
    }
}

/// A pattern as a mathematical value.
pub open spec fn pat_view(p: Pat) -> PatTree
    decreases p,
{
    match p {
        Pat::Ident(s) => PatTree::Ident(s@),
        Pat::Wild => PatTree::Wild,
        Pat::Lit(l) => PatTree::Lit(lit_view(l)),
        Pat::TupleStruct(q, v) => PatTree::TupleStruct(path_view(q), pat_views(v)),
        Pat::Path(q) => PatTree::Path(path_view(q)),
        Pat::Struct => PatTree::Struct,
        Pat::Other => PatTree::Other,
    }
}

/// Patterns as mathematical values.
pub open spec fn pat_views(v: Vec<Pat>) -> Seq<PatTree>
    decreases v,
{
    Seq::new(
        v@.len(),
        |i: int|
            if 0 <= i < v@.len() {
                pat_view(v@[i])
            } else {
                PatTree::Other
            },
    )
}

/// An expression as a mathematical value.
pub open spec fn expr_view(e: Expr) -> Tree
    decreases e,
{
    match e {
        Expr::Lit(l) => Tree::Lit(lit_view(l)),
        Expr::Path(p) => Tree::Path(path_view(p)),
        Expr::Binary(op, a, b) => Tree::Binary(
            op_view(op),
            Box::new(expr_view(*a)),
            Box::new(expr_view(*b)),
        ),
        Expr::MethodCall(a, m, v) => Tree::MethodCall(Box::new(expr_view(*a)), m@, expr_views(v)),
        Expr::Call(c, v) => Tree::Call(callee_view(c), expr_views(v)),
        Expr::Unary(op, a) => Tree::Unary(unary_view(op), Box::new(expr_view(*a))),
        Expr::Paren(a) => Tree::Paren(Box::new(expr_view(*a))),
        Expr::Cast(a) => Tree::Cast(Box::new(expr_view(*a))),
        Expr::Reference(a) => Tree::Reference(Box::new(expr_view(*a))),
        Expr::Try(a) => Tree::Try(Box::new(expr_view(*a))),
        Expr::Tuple(v) => Tree::Tuple(expr_views(v)),
        Expr::Array(v) => Tree::Array(expr_views(v)),
        Expr::Repeat(a, b) => Tree::Repeat(Box::new(expr_view(*a)), Box::new(expr_view(*b))),
        Expr::Range(a, b, closed) => Tree::Range(
            match a {
                Some(x) => Some(Box::new(expr_view(*x))),
                None => None,
            },
            match b {
                Some(x) => Some(Box::new(expr_view(*x))),
                None => None,
            },
            closed,
        ),
        Expr::Field(a, m) => Tree::Field(Box::new(expr_view(*a)), member_view(m)),
        Expr::Index(a, b) => Tree::Index(Box::new(expr_view(*a)), Box::new(expr_view(*b))),
        Expr::Block(b) => Tree::Block(stmt_views(b.stmts)),
        Expr::Match(a, v) => Tree::Match(Box::new(expr_view(*a)), arm_views(v)),
        Expr::ForLoop(a, b) => Tree::ForLoop(Box::new(expr_view(*a)), stmt_views(b.stmts)),
        Expr::While(a, b) => Tree::While(Box::new(expr_view(*a)), stmt_views(b.stmts)),
        Expr::Loop(b) => Tree::Loop(stmt_views(b.stmts)),
        Expr::Closure(v, a) => Tree::Closure(pat_views(v), Box::new(expr_view(*a))),
        Expr::If(a, b, other) => Tree::If(
            Box::new(expr_view(*a)),
            stmt_views(b.stmts),
            match other {
                Some(x) => Some(Box::new(expr_view(*x))),
                None => None,
            },
        ),
        Expr::Let(p, s, a) => Tree::Let(pat_view(p), s@, Box::new(expr_view(*a))),
        Expr::Struct(v) => Tree::Struct(field_views(v)),
        Expr::Assign(a, b, s) => Tree::Assign(
            Box::new(expr_view(*a)),
            Box::new(expr_view(*b)),
            s@,
        ),
        Expr::Return(a, s) => Tree::Return(
            match a {
                Some(x) => Some(Box::new(expr_view(*x))),
                None => None,
            },
            s@,
        ),
        Expr::Other(s) => Tree::Other(s@),
    }
}

/// Expressions as mathematical values.
pub open spec fn expr_views(v: Vec<Expr>) -> Seq<Tree>
    decreases v,
{
    Seq::new(
        v@.len(),
        |i: int|
            if 0 <= i < v@.len() {
                expr_view(v@[i])
            } else {
                Tree::Other(seq![])
            },
    )
}

/// A statement as a mathematical value.
pub open spec fn stmt_view(s: Stmt) -> StmtTree
    decreases s,
{
    match s {
        Stmt::Local(p, init) => StmtTree::Local(
            pat_view(p),
            match init {
                Some(e) => Some(expr_view(e)),
                None => None,
            },
        ),
        Stmt::Semi(e) => StmtTree::Semi(expr_view(e)),
        Stmt::Tail(e, last) => StmtTree::Tail(expr_view(e), last),
        Stmt::Item => StmtTree::Item,
        Stmt::Macro => StmtTree::Macro,
    }
}

/// Statements as mathematical values.
pub open spec fn stmt_views(v: Vec<Stmt>) -> Seq<StmtTree>
    decreases v,
{
    Seq::new(
        v@.len(),
        |i: int|
            if 0 <= i < v@.len() {
                stmt_view(v@[i])
            } else {
                StmtTree::Item
            },
    )
}

/// An arm as a mathematical value.
pub open spec fn arm_view(a: Arm) -> ArmTree
    decreases a,
{
    ArmTree { pat: pat_view(a.pat), guard: a.guard, body: expr_view(a.body) }
}

/// Arms as mathematical values.
pub open spec fn arm_views(v: Vec<Arm>) -> Seq<ArmTree>
    decreases v,
{
    Seq::new(
        v@.len(),
        |i: int|
            if 0 <= i < v@.len() {
                arm_view(v@[i])
            } else {
                arbitrary()
            },
    )
}

/// A field of a struct expression as a mathematical value.
pub open spec fn field_view(f: FieldValue) -> (MemberTree, Tree)
    decreases f,
{
    (member_view(f.member), expr_view(f.expr))
}

/// Fields of a struct expression as mathematical values.
pub open spec fn field_views(v: Vec<FieldValue>) -> Seq<(MemberTree, Tree)>
    decreases v,
{
    Seq::new(
        v@.len(),
        |i: int|
            if 0 <= i < v@.len() {
                field_view(v@[i])
            } else {
                arbitrary()
            },
    )
}

/// A type as a mathematical value.
pub open spec fn type_view(t: Type) -> TypeTree
    decreases t,
{
    match t {
        Type::Path(s, args) => TypeTree::Path(
            s@,
            match args {
                Some(v) => Some(type_arg_views(v)),
                None => None,
            },
        ),
        Type::EmptyPath => TypeTree::EmptyPath,
        Type::Tuple(v) => TypeTree::Tuple(type_views(v)),
        Type::Array => TypeTree::Array,
        Type::Slice => TypeTree::Slice,
        Type::Reference(a) => TypeTree::Reference(Box::new(type_view(*a))),
        Type::Ptr(a) => TypeTree::Ptr(Box::new(type_view(*a))),
        Type::Other => TypeTree::Other,
    }
}

/// Types as mathematical values.
pub open spec fn type_views(v: Vec<Type>) -> Seq<TypeTree>
    decreases v,
{
    Seq::new(
        v@.len(),
        |i: int|
            if 0 <= i < v@.len() {
                type_view(v@[i])
            } else {
                TypeTree::Other
            },
    )
}

/// The arguments of a type as mathematical values.
pub open spec fn type_arg_views(v: Vec<TypeArg>) -> Seq<Option<TypeTree>>
    decreases v,
{
    Seq::new(
        v@.len(),
        |i: int|
            if 0 <= i < v@.len() {
                match v@[i] {
                    TypeArg::Type(t) => Some(type_view(t)),
                    TypeArg::Other => None,
                }
            } else {
                None
            },
    )
}

/// A function as a mathematical value.
pub open spec fn fn_view(f: FnItem) -> FnTree {
    FnTree {
        name: f.name@,
        params: f.params@.map_values(|p: (String, Type)| (p.0@, type_view(p.1))),
        output: match f.output {
            Some(t) => Some(type_view(t)),
            None => None,
        },
        body: stmt_views(f.body.stmts),
    }
}

/// An attribute inside another one as a mathematical value.
pub open spec fn inner_view(a: InnerAttr) -> InnerTree {
    InnerTree {
        name: patterns::group_view(a.name),
        tokens: a.tokens@,
        expr: match a.expr {
            Some(e) => Some(expr_view(*e)),
            None => None,
        },
    }
}

/// An attribute as a mathematical value.
pub open spec fn attr_view(a: Attr) -> AttrTree {
    AttrTree {
        path: path_view(a.path),
        tokens: a.tokens@,
        arg: match a.arg {
            Some((s, e)) => Some((s@, expr_view(*e))),
            None => None,
        },
        inner: match a.inner {
            Some(i) => Some(inner_view(i)),
            None => None,
        },
    }
}

/// A function with its attributes as a mathematical value.
pub open spec fn source_view(f: SourceFn) -> SourceTree {
    SourceTree {
        name: f.name@,
        attrs: f.attrs@.map_values(|a: Attr| attr_view(a)),
        item: fn_view(*f.item),
    }
}

/// Functions with their attributes as mathematical values.
pub open spec fn source_views(v: Seq<SourceFn>) -> Seq<SourceTree> {
    v.map_values(|f: SourceFn| source_view(f))
}

} // verus!
