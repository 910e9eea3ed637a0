//! The syntax trees of the `syn` crate, and what they hold.
//!
//! The trees are opaque. Each has a name for the code that it is, and the functions here take a tree
//! apart by one level: they say how the code of the whole is put together from that of its parts.
use quote::ToTokens;
use syn::{
    BinOp as SynBinOp, Block as SynBlock, Expr as SynExpr, Lit as SynLit, Member as SynMember,
    Pat as SynPat, Path as SynPath, PathSegment as SynPathSegment, Stmt as SynStmt, Type as SynType,
    UnOp as SynUnOp,
};
use vstd::prelude::*;
use crate::ast::{Lit, Member, Path};
use crate::patterns;
use crate::tree;
use crate::tree::{
    ArmTree, AttrTree, FnTree, InnerTree, ItemTree, LitTree, MemberTree, OpTree, PatTree, PathTree,
    SourceTree, StmtTree, Tree, TypeTree,
};

verus! {

/// An expression of `syn`.
#[verifier::external_type_specification]
#[verifier::external_body]
pub struct ExExpr(SynExpr);

/// A literal of `syn`.
#[verifier::external_type_specification]
#[verifier::external_body]
pub struct ExLit(SynLit);

/// A path of `syn`.
#[verifier::external_type_specification]
#[verifier::external_body]
pub struct ExPath(SynPath);

/// A segment of a path of `syn`.
#[verifier::external_type_specification]
#[verifier::external_body]
pub struct ExPathSegment(SynPathSegment);

/// A binary operator of `syn`.
#[verifier::external_type_specification]
#[verifier::external_body]
pub struct ExBinOp(SynBinOp);

/// A unary operator of `syn`.
#[verifier::external_type_specification]
#[verifier::external_body]
pub struct ExUnOp(SynUnOp);

/// A field of `syn`.
#[verifier::external_type_specification]
#[verifier::external_body]
pub struct ExMember(SynMember);

/// A pattern of `syn`.
#[verifier::external_type_specification]
#[verifier::external_body]
pub struct ExPat(SynPat);

/// A statement of `syn`.
#[verifier::external_type_specification]
#[verifier::external_body]
pub struct ExStmt(SynStmt);

/// A block of `syn`.
#[verifier::external_type_specification]
#[verifier::external_body]
pub struct ExBlock(SynBlock);

/// A type of `syn`.
#[verifier::external_type_specification]
#[verifier::external_body]
pub struct ExType(SynType);

/// A file of `syn`.
#[verifier::external_type_specification]
#[verifier::external_body]
pub struct ExFile(syn::File);

/// An item of `syn`.
#[verifier::external_type_specification]
#[verifier::external_body]
pub struct ExItem(syn::Item);

/// A part of an implementation of `syn`.
#[verifier::external_type_specification]
#[verifier::external_body]
pub struct ExImplItem(syn::ImplItem);

/// A signature of `syn`.
#[verifier::external_type_specification]
#[verifier::external_body]
pub struct ExSignature(syn::Signature);

/// An attribute of `syn`.
#[verifier::external_type_specification]
#[verifier::external_body]
pub struct ExAttribute(syn::Attribute);

// ---------------------------------------------------------------------------
// Names
// ---------------------------------------------------------------------------
/// The code of an expression.
pub uninterp spec fn expr_tree(e: syn::Expr) -> Tree;

/// How `Debug` writes an expression.
pub uninterp spec fn expr_debug(e: syn::Expr) -> Seq<char>;

/// The code of a literal.
pub uninterp spec fn lit_tree(l: syn::Lit) -> LitTree;

/// The code of a path.
pub uninterp spec fn path_tree(p: syn::Path) -> PathTree;

/// The name of a segment of a path and its arguments in angle brackets: of each its type, where it
/// is one.
pub uninterp spec fn segment_tree(s: syn::PathSegment) -> (Seq<char>, Option<Seq<Option<TypeTree>>>);

/// A binary operator as it is written.
pub uninterp spec fn operator_text(op: syn::BinOp) -> Seq<char>;

/// How `Debug` writes a binary operator.
pub uninterp spec fn operator_debug(op: syn::BinOp) -> Seq<char>;

/// A unary operator as it is written.
pub uninterp spec fn unary_text(op: syn::UnOp) -> Seq<char>;

/// How `Debug` writes a unary operator.
pub uninterp spec fn unary_debug(op: syn::UnOp) -> Seq<char>;

/// The code of a field.
pub uninterp spec fn member_tree(m: syn::Member) -> MemberTree;

/// The code of a pattern.
pub uninterp spec fn pat_tree(p: syn::Pat) -> PatTree;

/// How `Debug` writes a pattern.
pub uninterp spec fn pat_debug(p: syn::Pat) -> Seq<char>;

/// The code of a statement, where it is known whether it is the same as the last one of its block.
pub uninterp spec fn stmt_tree(s: syn::Stmt, last: bool) -> StmtTree;

/// Whether two statements are the same.
pub uninterp spec fn stmt_same(a: syn::Stmt, b: syn::Stmt) -> bool;

/// The code of a block.
pub uninterp spec fn block_tree(b: syn::Block) -> Seq<StmtTree>;

/// The code of a type.
pub uninterp spec fn type_tree(t: syn::Type) -> TypeTree;

/// The code of the expression that a text is, if it is one.
pub uninterp spec fn expression_read(s: Seq<char>) -> Option<Tree>;

/// The name in a signature, the inputs, and the output. Of an input that is a plain name with a type
/// there is that name and the code of the type, of others nothing.
pub uninterp spec fn signature_tree(s: syn::Signature) -> (
    Seq<char>,
    Seq<Option<(Seq<char>, TypeTree)>>,
    Option<TypeTree>,
);

/// The code of the path of an attribute, and the attribute written out.
pub uninterp spec fn attr_head(a: syn::Attribute) -> (PathTree, Seq<char>);

/// The arguments of an attribute, where they are one expression: written out, and its code.
pub uninterp spec fn attr_argument(a: syn::Attribute) -> Option<(Seq<char>, Tree)>;

/// The arguments of an attribute, where they are attributes themselves. Of one with a list there is
/// the last name of its path and the list written out, of others nothing.
pub uninterp spec fn attr_metas(a: syn::Attribute) -> Option<
    Seq<Option<(Option<Seq<char>>, Seq<char>)>>,
>;

/// The code of an item.
pub uninterp spec fn item_tree(i: syn::Item) -> ItemTree;

/// The code of a part of an implementation, where it is a function.
pub uninterp spec fn part_tree(i: syn::ImplItem) -> Option<SourceTree>;

/// The code of a file.
pub uninterp spec fn file_tree(f: syn::File) -> Seq<ItemTree>;

/// The code of the file that a text is, or what is said against it.
pub uninterp spec fn source_read(s: Seq<char>) -> Result<Seq<ItemTree>, Seq<char>>;

// ---------------------------------------------------------------------------
// The parts of an expression
// ---------------------------------------------------------------------------
/// An expression by its parts.
pub enum ExprParts<'a> {
    Lit(&'a syn::Lit),
    Path(&'a syn::Path),
    Binary(&'a syn::BinOp, &'a syn::Expr, &'a syn::Expr),
    MethodCall(&'a syn::Expr, String, Vec<&'a syn::Expr>),
    Call(&'a syn::Expr, Vec<&'a syn::Expr>),
    Unary(&'a syn::UnOp, &'a syn::Expr),
    Paren(&'a syn::Expr),
    Cast(&'a syn::Expr),
    Reference(&'a syn::Expr),
    Try(&'a syn::Expr),
    Tuple(Vec<&'a syn::Expr>),
    Array(Vec<&'a syn::Expr>),
    Repeat(&'a syn::Expr, &'a syn::Expr),
    Range(Option<&'a syn::Expr>, Option<&'a syn::Expr>, bool),
    Field(&'a syn::Expr, &'a syn::Member),
    Index(&'a syn::Expr, &'a syn::Expr),
    Block(&'a syn::Block),
    Match(&'a syn::Expr, Vec<(&'a syn::Pat, bool, &'a syn::Expr)>),
    ForLoop(&'a syn::Expr, &'a syn::Block),
    While(&'a syn::Expr, &'a syn::Block),
    Loop(&'a syn::Block),
    Closure(Vec<&'a syn::Pat>, &'a syn::Expr),
    If(&'a syn::Expr, &'a syn::Block, Option<&'a syn::Expr>),
    Let(&'a syn::Pat, &'a syn::Expr),
    Struct(Vec<(&'a syn::Member, &'a syn::Expr)>),
    Assign(&'a syn::Expr, &'a syn::Expr),
    Return(Option<&'a syn::Expr>),
    Other,
}

/// The code of expressions.
pub open spec fn expr_trees(v: Seq<&syn::Expr>) -> Seq<Tree> {
    v.map_values(|e: &syn::Expr| expr_tree(*e))
}

/// The code of patterns.
pub open spec fn pat_trees(v: Seq<&syn::Pat>) -> Seq<PatTree> {
    v.map_values(|p: &syn::Pat| pat_tree(*p))
}

/// The code of arms.
pub open spec fn arm_trees(v: Seq<(&syn::Pat, bool, &syn::Expr)>) -> Seq<ArmTree> {
    v.map_values(
        |a: (&syn::Pat, bool, &syn::Expr)|
            ArmTree { pat: pat_tree(*a.0), guard: a.1, body: expr_tree(*a.2) },
    )
}

/// The code of the fields of a struct expression.
pub open spec fn field_trees(v: Seq<(&syn::Member, &syn::Expr)>) -> Seq<(MemberTree, Tree)> {
    v.map_values(|f: (&syn::Member, &syn::Expr)| (member_tree(*f.0), expr_tree(*f.1)))
}

/// The code of an expression that may be absent.
pub open spec fn boxed_tree(e: Option<&syn::Expr>) -> Option<Box<Tree>> {
    match e {
        Some(x) => Some(Box::new(expr_tree(*x))),
        None => None,
    }
}

/// A binary operator by how it is written, where the rules know it, and how `Debug` writes it.
pub open spec fn op_tree(symbol: Seq<char>, description: Seq<char>) -> OpTree {
    if symbol == "&"@ || symbol == "+="@ || symbol == "-="@ {
        (symbol, description)
    } else if symbol == "+"@ || symbol == "-"@ || symbol == "*"@ || symbol == "/"@ || symbol == "%"@
        || symbol == ">>"@ || symbol == "<<"@ || symbol == "=="@ || symbol == "!="@ || symbol
        == "<"@ || symbol == "<="@ || symbol == ">"@ || symbol == ">="@ || symbol == "&&"@ || symbol
        == "||"@ {
        (symbol, seq![])
    } else {
        (seq![], description)
    }
}

/// A unary operator by how it is written, where the rules know it, and how `Debug` writes it.
pub open spec fn unary_tree(symbol: Seq<char>, description: Seq<char>) -> OpTree {
    if symbol == "!"@ || symbol == "-"@ || symbol == "*"@ {
        (symbol, seq![])
    } else {
        (seq![], description)
    }
}

/// What is called: a path, or any other expression by how `Debug` writes it.
pub open spec fn callee_tree(f: syn::Expr) -> Result<PathTree, Seq<char>> {
    match expr_tree(f) {
        Tree::Path(p) => Ok(p),
        _ => Err(expr_debug(f)),
    }
}

/// The code of the expression `e` with the given parts.
pub open spec fn whole(e: syn::Expr, p: ExprParts<'_>) -> Tree {
    match p {
        ExprParts::Lit(l) => Tree::Lit(lit_tree(*l)),
        ExprParts::Path(q) => Tree::Path(path_tree(*q)),
        ExprParts::Binary(op, a, b) => Tree::Binary(
            op_tree(operator_text(*op), operator_debug(*op)),
            Box::new(expr_tree(*a)),
            Box::new(expr_tree(*b)),
        ),
        ExprParts::MethodCall(a, m, v) => Tree::MethodCall(
            Box::new(expr_tree(*a)),
            m@,
            expr_trees(v@),
        ),
        ExprParts::Call(f, v) => Tree::Call(callee_tree(*f), expr_trees(v@)),
        ExprParts::Unary(op, a) => Tree::Unary(
            unary_tree(unary_text(*op), unary_debug(*op)),
            Box::new(expr_tree(*a)),
        ),
        ExprParts::Paren(a) => Tree::Paren(Box::new(expr_tree(*a))),
        ExprParts::Cast(a) => Tree::Cast(Box::new(expr_tree(*a))),
        ExprParts::Reference(a) => Tree::Reference(Box::new(expr_tree(*a))),
        ExprParts::Try(a) => Tree::Try(Box::new(expr_tree(*a))),
        ExprParts::Tuple(v) => Tree::Tuple(expr_trees(v@)),
        ExprParts::Array(v) => Tree::Array(expr_trees(v@)),
        ExprParts::Repeat(a, b) => Tree::Repeat(Box::new(expr_tree(*a)), Box::new(expr_tree(*b))),
        ExprParts::Range(a, b, closed) => Tree::Range(boxed_tree(a), boxed_tree(b), closed),
        ExprParts::Field(a, m) => Tree::Field(Box::new(expr_tree(*a)), member_tree(*m)),
        ExprParts::Index(a, b) => Tree::Index(Box::new(expr_tree(*a)), Box::new(expr_tree(*b))),
        ExprParts::Block(b) => Tree::Block(block_tree(*b)),
        ExprParts::Match(a, v) => Tree::Match(Box::new(expr_tree(*a)), arm_trees(v@)),
        ExprParts::ForLoop(a, b) => Tree::ForLoop(Box::new(expr_tree(*a)), block_tree(*b)),
        ExprParts::While(a, b) => Tree::While(Box::new(expr_tree(*a)), block_tree(*b)),
        ExprParts::Loop(b) => Tree::Loop(block_tree(*b)),
        ExprParts::Closure(v, a) => Tree::Closure(pat_trees(v@), Box::new(expr_tree(*a))),
        ExprParts::If(a, b, other) => Tree::If(
            Box::new(expr_tree(*a)),
            block_tree(*b),
            boxed_tree(other),
        ),
        ExprParts::Let(q, a) => Tree::Let(pat_tree(*q), pat_debug(*q), Box::new(expr_tree(*a))),
        ExprParts::Struct(v) => Tree::Struct(field_trees(v@)),
        ExprParts::Assign(a, b) => Tree::Assign(
            Box::new(expr_tree(*a)),
            Box::new(expr_tree(*b)),
            expr_debug(e),
        ),
        ExprParts::Return(a) => Tree::Return(boxed_tree(a), expr_debug(e)),
        ExprParts::Other => Tree::Other(expr_debug(e)),
    }
}

/// An operation on other expressions.
pub open spec fn operation(t: Tree) -> bool {
    t is Binary || t is Unary || t is Paren || t is Cast || t is Reference || t is Try || t is Index
        || t is Repeat
}

/// A literal, a path, a call, a field or a list.
pub open spec fn value(t: Tree) -> bool {
    t is Lit || t is Path || t is Call || t is Tuple || t is Array || t is Field
}

/// A block, a loop or a choice.
pub open spec fn control(t: Tree) -> bool {
    t is Block || t is Loop || t is ForLoop || t is While || t is If
}

/// A method call, a match, a closure or a struct expression.
pub open spec fn listing(t: Tree) -> bool {
    t is MethodCall || t is Match || t is Closure || t is Struct
}

/// The parts of an operation: the variant of `syn::Expr` and its fields.
#[verifier::external_body]
pub(crate) fn operation_parts(e: &syn::Expr) -> (r: Option<ExprParts<'_>>)
    ensures
        match r {
            Some(p) => expr_tree(*e) == whole(*e, p),
            None => !operation(expr_tree(*e)),
        },
{
    Some(match e {
        syn::Expr::Binary(x) => ExprParts::Binary(&x.op, &x.left, &x.right),
        syn::Expr::Unary(x) => ExprParts::Unary(&x.op, &x.expr),
        syn::Expr::Paren(x) => ExprParts::Paren(&x.expr),
        syn::Expr::Cast(x) => ExprParts::Cast(&x.expr),
        syn::Expr::Reference(x) => ExprParts::Reference(&x.expr),
        syn::Expr::Try(x) => ExprParts::Try(&x.expr),
        syn::Expr::Index(x) => ExprParts::Index(&x.expr, &x.index),
        syn::Expr::Repeat(x) => ExprParts::Repeat(&x.expr, &x.len),
        _ => return None,
    })
}

/// The parts of a literal, a path, a call, a field or a list: the variant of `syn::Expr` and its
/// fields.
#[verifier::external_body]
pub(crate) fn value_parts(e: &syn::Expr) -> (r: Option<ExprParts<'_>>)
    ensures
        match r {
            Some(p) => expr_tree(*e) == whole(*e, p),
            None => !value(expr_tree(*e)),
        },
{
    Some(match e {
        syn::Expr::Lit(x) => ExprParts::Lit(&x.lit),
        syn::Expr::Path(x) => ExprParts::Path(&x.path),
        syn::Expr::Call(x) => ExprParts::Call(&x.func, x.args.iter().collect()),
        syn::Expr::Tuple(x) => ExprParts::Tuple(x.elems.iter().collect()),
        syn::Expr::Array(x) => ExprParts::Array(x.elems.iter().collect()),
        syn::Expr::Field(x) => ExprParts::Field(&x.base, &x.member),
        _ => return None,
    })
}

/// The parts of a block, a loop or a choice: the variant of `syn::Expr` and its fields.
#[verifier::external_body]
pub(crate) fn control_parts(e: &syn::Expr) -> (r: Option<ExprParts<'_>>)
    ensures
        match r {
            Some(p) => expr_tree(*e) == whole(*e, p),
            None => !control(expr_tree(*e)),
        },
{
    Some(match e {
        syn::Expr::Block(x) => ExprParts::Block(&x.block),
        syn::Expr::Loop(x) => ExprParts::Loop(&x.body),
        syn::Expr::ForLoop(x) => ExprParts::ForLoop(&x.expr, &x.body),
        syn::Expr::While(x) => ExprParts::While(&x.cond, &x.body),
        syn::Expr::If(x) => {
            ExprParts::If(&x.cond, &x.then_branch, x.else_branch.as_ref().map(|b| &*b.1))
        },
        _ => return None,
    })
}

/// The parts of a method call, a match, a closure or a struct expression: the variant of `syn::Expr`
/// and its fields.
#[verifier::external_body]
pub(crate) fn listing_parts(e: &syn::Expr) -> (r: Option<ExprParts<'_>>)
    ensures
        match r {
            Some(p) => expr_tree(*e) == whole(*e, p),
            None => !listing(expr_tree(*e)),
        },
{
    Some(match e {
        syn::Expr::MethodCall(x) => {
            ExprParts::MethodCall(&x.receiver, x.method.to_string(), x.args.iter().collect())
        },
        syn::Expr::Match(x) => ExprParts::Match(
            &x.expr,
            x.arms.iter().map(|a| (&a.pat, a.guard.is_some(), &*a.body)).collect(),
        ),
        syn::Expr::Closure(x) => ExprParts::Closure(x.inputs.iter().collect(), &x.body),
        syn::Expr::Struct(x) => {
            ExprParts::Struct(x.fields.iter().map(|f| (&f.member, &f.expr)).collect())
        },
        _ => return None,
    })
}

/// The parts of the other expressions: the variant of `syn::Expr` and its fields.
#[verifier::external_body]
pub(crate) fn other_parts(e: &syn::Expr) -> (r: ExprParts<'_>)
    ensures
        ({
            let t = expr_tree(*e);
            operation(t) || value(t) || control(t) || listing(t) || t == whole(*e, r)
        }),
{
    match e {
        syn::Expr::Range(x) => ExprParts::Range(
            x.start.as_deref(),
            x.end.as_deref(),
            matches!(x.limits, syn::RangeLimits::Closed(_)),
        ),
        syn::Expr::Let(x) => ExprParts::Let(&x.pat, &x.expr),
        syn::Expr::Assign(x) => ExprParts::Assign(&x.left, &x.right),
        syn::Expr::Return(x) => ExprParts::Return(x.expr.as_deref()),
        _ => ExprParts::Other,
    }
}

/// `Debug` of a `syn::Expr`.
#[verifier::external_body]
pub(crate) fn describe_expr(e: &syn::Expr) -> (r: String)
    ensures
        r@ == expr_debug(*e),
{
    format!("{e:?}")
}

/// What a `syn::Lit` holds: of an integer the text, `base10_digits` and what `base10_parse` to an
/// `i64` says against it, of a truth value its value, and of any other how `Debug` writes it.
#[verifier::external_body]
pub(crate) fn literal(l: &syn::Lit) -> (r: Lit)
    ensures
        tree::lit_view(r) == lit_tree(*l),
{
    match l {
        syn::Lit::Int(n) => Lit::Int(crate::ast::IntLit {
            text: n.to_string(),
            digits: n.base10_digits().to_string(),
            complaint: n.base10_parse::<i64>().map_or_else(|e| e.to_string(), |_| String::new()),
        }),
        syn::Lit::Bool(b) => Lit::Bool(b.value),
        _ => Lit::Other(format!("{l:?}")),
    }
}

/// The names of the segments of a `syn::Path`, and whether `get_ident` finds it to be one name.
#[verifier::external_body]
pub(crate) fn path(p: &syn::Path) -> (r: Path)
    ensures
        tree::path_view(r) == path_tree(*p),
{
    Path {
        segments: p.segments.iter().map(|s| s.ident.to_string()).collect(),
        bare: p.get_ident().is_some(),
    }
}

/// A `syn::Member`: its name or its number.
#[verifier::external_body]
pub(crate) fn member(m: &syn::Member) -> (r: Member)
    ensures
        tree::member_view(r) == member_tree(*m),
{
    match m {
        syn::Member::Named(name) => Member::Named(name.to_string()),
        syn::Member::Unnamed(index) => Member::Unnamed(index.index),
    }
}

/// The tokens of a `syn::BinOp`, and how `Debug` writes it.
#[verifier::external_body]
pub(crate) fn operator_texts(op: &syn::BinOp) -> (r: (String, String))
    ensures
        r.0@ == operator_text(*op),
        r.1@ == operator_debug(*op),
{
    (op.to_token_stream().to_string(), format!("{op:?}"))
}

/// The tokens of a `syn::UnOp`, and how `Debug` writes it.
#[verifier::external_body]
pub(crate) fn unary_texts(op: &syn::UnOp) -> (r: (String, String))
    ensures
        r.0@ == unary_text(*op),
        r.1@ == unary_debug(*op),
{
    (op.to_token_stream().to_string(), format!("{op:?}"))
}

// ---------------------------------------------------------------------------
// The parts of a pattern
// ---------------------------------------------------------------------------
/// A pattern by its parts.
pub enum PatParts<'a> {
    Ident(String),
    Wild,
    Lit(&'a syn::Lit),
    TupleStruct(&'a syn::Path, Vec<&'a syn::Pat>),
    Path(&'a syn::Path),
    Struct,
    Other,
}

/// The code of a pattern with the given parts.
pub open spec fn whole_pat(p: PatParts<'_>) -> PatTree {
    match p {
        PatParts::Ident(s) => PatTree::Ident(s@),
        PatParts::Wild => PatTree::Wild,
        PatParts::Lit(l) => PatTree::Lit(lit_tree(*l)),
        PatParts::TupleStruct(q, v) => PatTree::TupleStruct(path_tree(*q), pat_trees(v@)),
        PatParts::Path(q) => PatTree::Path(path_tree(*q)),
        PatParts::Struct => PatTree::Struct,
        PatParts::Other => PatTree::Other,
    }
}

/// The parts of a pattern: the variant of `syn::Pat` and its fields.
#[verifier::external_body]
pub(crate) fn pat_parts(p: &syn::Pat) -> (r: PatParts<'_>)
    ensures
        pat_tree(*p) == whole_pat(r),
{
    match p {
        syn::Pat::Ident(x) => PatParts::Ident(x.ident.to_string()),
        syn::Pat::Wild(_) => PatParts::Wild,
        syn::Pat::Lit(x) => PatParts::Lit(&x.lit),
        syn::Pat::TupleStruct(x) => PatParts::TupleStruct(&x.path, x.elems.iter().collect()),
        syn::Pat::Path(x) => PatParts::Path(&x.path),
        syn::Pat::Struct(_) => PatParts::Struct,
        _ => PatParts::Other,
    }
}

/// `Debug` of a `syn::Pat`.
#[verifier::external_body]
pub(crate) fn describe_pat(p: &syn::Pat) -> (r: String)
    ensures
        r@ == pat_debug(*p),
{
    format!("{p:?}")
}

// ---------------------------------------------------------------------------
// The parts of a block
// ---------------------------------------------------------------------------
/// A statement by its parts.
pub enum StmtParts<'a> {
    Local(&'a syn::Pat, Option<&'a syn::Expr>),
    Semi(&'a syn::Expr),
    Tail(&'a syn::Expr),
    Item,
    Macro,
}

/// The code of a statement with the given parts.
pub open spec fn whole_stmt(p: StmtParts<'_>, last: bool) -> StmtTree {
    match p {
        StmtParts::Local(q, init) => StmtTree::Local(
            pat_tree(*q),
            match init {
                Some(e) => Some(expr_tree(*e)),
                None => None,
            },
        ),
        StmtParts::Semi(e) => StmtTree::Semi(expr_tree(*e)),
        StmtParts::Tail(e) => StmtTree::Tail(expr_tree(*e), last),
        StmtParts::Item => StmtTree::Item,
        StmtParts::Macro => StmtTree::Macro,
    }
}

/// The code of the statements of a block.
pub open spec fn stmt_trees(v: Seq<&syn::Stmt>) -> Seq<StmtTree> {
    v.map_values(|s: &syn::Stmt| stmt_tree(*s, stmt_same(*s, *v.last())))
}

/// The parts of a statement: the variant of `syn::Stmt` and its fields.
#[verifier::external_body]
pub(crate) fn stmt_parts(s: &syn::Stmt) -> (r: StmtParts<'_>)
    ensures
        stmt_tree(*s, true) == whole_stmt(r, true),
        stmt_tree(*s, false) == whole_stmt(r, false),
{
    match s {
        syn::Stmt::Local(l) => StmtParts::Local(&l.pat, l.init.as_ref().map(|i| &*i.expr)),
        syn::Stmt::Item(_) => StmtParts::Item,
        syn::Stmt::Expr(e, Some(_)) => StmtParts::Semi(e),
        syn::Stmt::Expr(e, None) => StmtParts::Tail(e),
        syn::Stmt::Macro(_) => StmtParts::Macro,
    }
}

/// The statements of a `syn::Block`.
#[verifier::external_body]
pub(crate) fn statements(b: &syn::Block) -> (r: Vec<&syn::Stmt>)
    ensures
        block_tree(*b) == stmt_trees(r@),
{
    b.stmts.iter().collect()
}

/// `==` of two `syn::Stmt`.
#[verifier::external_body]
pub(crate) fn same_stmt(a: &syn::Stmt, b: &syn::Stmt) -> (r: bool)
    ensures
        r == stmt_same(*a, *b),
{
    a == b
}

// ---------------------------------------------------------------------------
// The parts of a type
// ---------------------------------------------------------------------------
/// A type by its parts.
pub enum TypeParts<'a> {
    /// A path, by its last segment.
    Path(Option<&'a syn::PathSegment>),
    Tuple(Vec<&'a syn::Type>),
    Array,
    Slice,
    Reference(&'a syn::Type),
    Ptr(&'a syn::Type),
    Other,
}

/// The code of types.
pub open spec fn type_trees(v: Seq<&syn::Type>) -> Seq<TypeTree> {
    v.map_values(|t: &syn::Type| type_tree(*t))
}

/// The code of the arguments of a type.
pub open spec fn type_arg_trees(v: Seq<Option<&syn::Type>>) -> Seq<Option<TypeTree>> {
    v.map_values(
        |t: Option<&syn::Type>|
            match t {
                Some(t) => Some(type_tree(*t)),
                None => None,
            },
    )
}

/// The code of a type with the given parts.
pub open spec fn whole_type(p: TypeParts<'_>) -> TypeTree {
    match p {
        TypeParts::Path(Some(s)) => TypeTree::Path(segment_tree(*s).0, segment_tree(*s).1),
        TypeParts::Path(None) => TypeTree::EmptyPath,
        TypeParts::Tuple(v) => TypeTree::Tuple(type_trees(v@)),
        TypeParts::Array => TypeTree::Array,
        TypeParts::Slice => TypeTree::Slice,
        TypeParts::Reference(t) => TypeTree::Reference(Box::new(type_tree(*t))),
        TypeParts::Ptr(t) => TypeTree::Ptr(Box::new(type_tree(*t))),
        TypeParts::Other => TypeTree::Other,
    }
}

/// The parts of a type: the variant of `syn::Type` and its fields.
#[verifier::external_body]
pub(crate) fn type_parts(t: &syn::Type) -> (r: TypeParts<'_>)
    ensures
        type_tree(*t) == whole_type(r),
{
    match t {
        syn::Type::Path(x) => TypeParts::Path(x.path.segments.last()),
        syn::Type::Tuple(x) => TypeParts::Tuple(x.elems.iter().collect()),
        syn::Type::Array(_) => TypeParts::Array,
        syn::Type::Slice(_) => TypeParts::Slice,
        syn::Type::Reference(x) => TypeParts::Reference(&x.elem),
        syn::Type::Ptr(x) => TypeParts::Ptr(&x.elem),
        _ => TypeParts::Other,
    }
}

/// The name of a `syn::PathSegment`, and its arguments where they stand in angle brackets: of each
/// its type, where it is one.
#[verifier::external_body]
pub(crate) fn segment_parts(s: &syn::PathSegment) -> (r: (String, Option<Vec<Option<&syn::Type>>>))
    ensures
        segment_tree(*s) == (
            r.0@,
            match r.1 {
                Some(v) => Some(type_arg_trees(v@)),
                None => None,
            },
        ),
{
    let args = match &s.arguments {
        syn::PathArguments::AngleBracketed(given) => Some(given.args.iter().map(|a| match a {
            syn::GenericArgument::Type(t) => Some(t),
            _ => None,
        }).collect()),
        _ => None,
    };
    (s.ident.to_string(), args)
}

// ---------------------------------------------------------------------------
// The parts of a file
// ---------------------------------------------------------------------------
/// A function by its parts.
pub type FnParts<'a> = (Vec<&'a syn::Attribute>, &'a syn::Signature, &'a syn::Block);

/// An item by its parts.
pub enum ItemParts<'a> {
    Fn(FnParts<'a>),
    Impl(Vec<&'a syn::ImplItem>),
    Other,
}

/// The inputs that are plain names, of the first `n`.
pub open spec fn named_inputs(v: Seq<Option<(Seq<char>, TypeTree)>>, n: int) -> Seq<
    (Seq<char>, TypeTree),
>
    decreases n,
{
    if n <= 0 || n > v.len() {
        seq![]
    } else {
        match v[n - 1] {
            Some(p) => named_inputs(v, n - 1).push(p),
            None => named_inputs(v, n - 1),
        }
    }
}

/// The code of a function with the given signature and body.
pub open spec fn fn_tree(sig: syn::Signature, body: syn::Block) -> FnTree {
    let (name, inputs, output) = signature_tree(sig);
    FnTree { name, params: named_inputs(inputs, inputs.len() as int), output, body: block_tree(body) }
}

/// The attribute that a conditional one stands for: the second of its arguments, where that has a
/// list, which is read as an expression.
pub open spec fn inner_tree(metas: Option<Seq<Option<(Option<Seq<char>>, Seq<char>)>>>) -> Option<
    InnerTree,
> {
    match metas {
        Some(v) => if v.len() > 1 {
            match v[1] {
                Some((name, tokens)) => Some(
                    InnerTree { name, tokens, expr: expression_read(tokens) },
                ),
                None => None,
            }
        } else {
            None
        },
        None => None,
    }
}

/// The code of an attribute.
pub open spec fn attr_tree(a: syn::Attribute) -> AttrTree {
    AttrTree {
        path: attr_head(a).0,
        tokens: attr_head(a).1,
        arg: attr_argument(a),
        inner: inner_tree(attr_metas(a)),
    }
}

/// The code of attributes.
pub open spec fn attr_trees(v: Seq<&syn::Attribute>) -> Seq<AttrTree> {
    v.map_values(|a: &syn::Attribute| attr_tree(*a))
}

/// The code of a function with the given parts.
pub open spec fn whole_fn(p: FnParts<'_>) -> SourceTree {
    SourceTree {
        name: signature_tree(*p.1).0,
        attrs: attr_trees(p.0@),
        item: fn_tree(*p.1, *p.2),
    }
}

/// The code of the parts of an implementation.
pub open spec fn part_trees(v: Seq<&syn::ImplItem>) -> Seq<Option<SourceTree>> {
    v.map_values(|i: &syn::ImplItem| part_tree(*i))
}

/// The code of items.
pub open spec fn item_trees(v: Seq<&syn::Item>) -> Seq<ItemTree> {
    v.map_values(|i: &syn::Item| item_tree(*i))
}

/// The code of an item with the given parts.
pub open spec fn whole_item(p: ItemParts<'_>) -> ItemTree {
    match p {
        ItemParts::Fn(f) => ItemTree::Fn(whole_fn(f)),
        ItemParts::Impl(v) => ItemTree::Impl(part_trees(v@)),
        ItemParts::Other => ItemTree::Other,
    }
}

/// The items of a `syn::File`.
#[verifier::external_body]
pub(crate) fn items(f: &syn::File) -> (r: Vec<&syn::Item>)
    ensures
        file_tree(*f) == item_trees(r@),
{
    f.items.iter().collect()
}

/// The parts of an item: the variant of `syn::Item` and its fields.
#[verifier::external_body]
pub(crate) fn item_parts(i: &syn::Item) -> (r: ItemParts<'_>)
    ensures
        item_tree(*i) == whole_item(r),
{
    match i {
        syn::Item::Fn(f) => ItemParts::Fn((f.attrs.iter().collect(), &f.sig, &f.block)),
        syn::Item::Impl(x) => ItemParts::Impl(x.items.iter().collect()),
        _ => ItemParts::Other,
    }
}

/// The parts of a function of an implementation: the variant `Fn` of `syn::ImplItem` and its fields.
#[verifier::external_body]
pub(crate) fn method_parts(i: &syn::ImplItem) -> (r: Option<FnParts<'_>>)
    ensures
        part_tree(*i) == match r {
            Some(f) => Some(whole_fn(f)),
            None => None,
        },
{
    match i {
        syn::ImplItem::Fn(f) => Some((f.attrs.iter().collect(), &f.sig, &f.block)),
        _ => None,
    }
}

/// The code of the inputs of a signature.
pub open spec fn input_trees(v: Seq<Option<(String, &syn::Type)>>) -> Seq<
    Option<(Seq<char>, TypeTree)>,
> {
    v.map_values(
        |p: Option<(String, &syn::Type)>|
            match p {
                Some((name, t)) => Some((name@, type_tree(*t))),
                None => None,
            },
    )
}

/// The name, the inputs and the output of a `syn::Signature`: of an input that is typed and whose
/// pattern is a plain name that name and the type, of others nothing.
#[verifier::external_body]
pub(crate) fn signature_parts(s: &syn::Signature) -> (r: (
    String,
    Vec<Option<(String, &syn::Type)>>,
    Option<&syn::Type>,
))
    ensures
        signature_tree(*s) == (
            r.0@,
            input_trees(r.1@),
            match r.2 {
                Some(t) => Some(type_tree(*t)),
                None => None,
            },
        ),
{
    let inputs = s.inputs.iter().map(|i| match i {
        syn::FnArg::Typed(x) => match &*x.pat {
            syn::Pat::Ident(name) => Some((name.ident.to_string(), &*x.ty)),
            _ => None,
        },
        _ => None,
    }).collect();
    let output = match &s.output {
        syn::ReturnType::Type(_, t) => Some(&**t),
        _ => None,
    };
    (s.ident.to_string(), inputs, output)
}

/// `path` of a `syn::Attribute`, and its tokens.
#[verifier::external_body]
pub(crate) fn head_of_attr(a: &syn::Attribute) -> (r: (&syn::Path, String))
    ensures
        attr_head(*a) == (path_tree(*r.0), r.1@),
{
    (a.path(), a.to_token_stream().to_string())
}

/// `parse_args` of a `syn::Attribute` to a `syn::Expr`, and the tokens of that.
#[verifier::external_body]
pub(crate) fn argument_of_attr(a: &syn::Attribute) -> (r: Option<(String, syn::Expr)>)
    ensures
        attr_argument(*a) == match r {
            Some((s, e)) => Some((s@, expr_tree(e))),
            None => None,
        },
{
    a.parse_args::<syn::Expr>().ok().map(|e| (e.to_token_stream().to_string(), e))
}

/// The code of the attributes inside an attribute.
pub open spec fn meta_views(v: Seq<Option<(Option<String>, String)>>) -> Seq<
    Option<(Option<Seq<char>>, Seq<char>)>,
> {
    v.map_values(
        |m: Option<(Option<String>, String)>|
            match m {
                Some((name, tokens)) => Some((patterns::group_view(name), tokens@)),
                None => None,
            },
    )
}

/// `parse_args_with` of a `syn::Attribute` to `syn::Meta`s between commas: of each that is a list the
/// last name of its path and the tokens of the list.
#[verifier::external_body]
pub(crate) fn metas_of_attr(a: &syn::Attribute) -> (r: Option<Vec<Option<(Option<String>, String)>>>)
    ensures
        attr_metas(*a) == match r {
            Some(v) => Some(meta_views(v@)),
            None => None,
        },
{
    let given = a.parse_args_with(
        syn::punctuated::Punctuated::<syn::Meta, syn::token::Comma>::parse_terminated,
    );
    given.ok().map(|v| v.iter().map(|m| match m {
        syn::Meta::List(x) => {
            Some((x.path.segments.last().map(|s| s.ident.to_string()), x.tokens.to_string()))
        },
        _ => None,
    }).collect())
}

// ---------------------------------------------------------------------------
// From texts
// ---------------------------------------------------------------------------
/// `syn::parse_str` to a `syn::Expr`: the expression that the whole text is. Outside a procedural
/// macro that depends on the text alone.
#[verifier::external_body]
pub(crate) fn parse_expression(s: &str) -> (r: Option<syn::Expr>)
    ensures
        match r {
            Some(e) => expression_read(s@) == Some(expr_tree(e)),
            None => expression_read(s@) is None,
        },
{
    syn::parse_str::<syn::Expr>(s).ok()
}

/// `syn::parse_file`: the file that the text is, or the error written out. Outside a procedural macro
/// that depends on the text alone.
#[verifier::external_body]
pub(crate) fn parse_source(s: &str) -> (r: Result<syn::File, String>)
    ensures
        match r {
            Ok(f) => source_read(s@) == Ok::<Seq<ItemTree>, Seq<char>>(file_tree(f)),
            Err(m) => source_read(s@) == Err::<Seq<ItemTree>, Seq<char>>(m@),
        },
{
    syn::parse_file(s).map_err(|e| e.to_string())
}

} // verus!
