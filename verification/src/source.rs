//! Rust code in texts: expressions, and the functions of a file.
use std::rc::Rc;
use vstd::prelude::*;
use crate::ast::{
    Arm, BinOp, Block, Callee, Expr, FieldValue, FnItem, Pat, Stmt, Type, TypeArg, UnOp,
};
use crate::attributes::{copy_text, SourceFn};
use crate::contracts::{Attr, InnerAttr};
use crate::rust_syntax;
use crate::rust_syntax::{
    arm_trees, attr_tree, attr_trees, block_tree, boxed_tree, callee_tree, expr_tree, expr_trees,
    expression_read, field_trees, file_tree, fn_tree, input_trees, item_tree, item_trees,
    named_inputs, op_tree, part_tree, part_trees, pat_tree, pat_trees, source_read, stmt_same,
    stmt_tree, stmt_trees, type_arg_trees, type_tree, type_trees, unary_tree, whole, whole_fn,
    ExprParts, FnParts, ItemParts, PatParts, StmtParts, TypeParts,
};
use crate::text::same;
use crate::tree;
use crate::tree::{
    arm_views, attr_view, expr_view, expr_views, field_views, fn_view, pat_view, pat_views,
    source_view, source_views, stmt_view, stmt_views, type_arg_views, type_view, type_views,
    ItemTree, SourceTree,
};

verus! {

fn binary_operator(symbol: &str, description: String) -> (r: BinOp)
    ensures
        tree::op_view(r) == op_tree(symbol@, description@),
{
    if same(symbol, "&") {
        BinOp::BitAnd(description)
    } else if same(symbol, "+=") {
        BinOp::AddAssign(description)
    } else if same(symbol, "-=") {
        BinOp::SubAssign(description)
    } else if same(symbol, "+") {
        BinOp::Plus
    } else if same(symbol, "-") {
        BinOp::Minus
    } else if same(symbol, "*") {
        BinOp::Times
    } else if same(symbol, "/") {
        BinOp::Div
    } else if same(symbol, "%") {
        BinOp::Rem
    } else if same(symbol, ">>") {
        BinOp::Shr
    } else if same(symbol, "<<") {
        BinOp::Shl
    } else if same(symbol, "==") {
        BinOp::Eq
    } else if same(symbol, "!=") {
        BinOp::Ne
    } else if same(symbol, "<") {
        BinOp::Lt
    } else if same(symbol, "<=") {
        BinOp::Le
    } else if same(symbol, ">") {
        BinOp::Gt
    } else if same(symbol, ">=") {
        BinOp::Ge
    } else if same(symbol, "&&") {
        BinOp::And
    } else if same(symbol, "||") {
        BinOp::Or
    } else {
        BinOp::Other(description)
    }
}

fn unary_operator(symbol: &str, description: String) -> (r: UnOp)
    ensures
        tree::unary_view(r) == unary_tree(symbol@, description@),
{
    if same(symbol, "!") {
        UnOp::Not
    } else if same(symbol, "-") {
        UnOp::Neg
    } else if same(symbol, "*") {
        UnOp::Deref
    } else {
        UnOp::Other(description)
    }
}

// ---------------------------------------------------------------------------
// Patterns
// ---------------------------------------------------------------------------
fn pattern(p: &syn::Pat) -> (r: Pat)
    ensures
        pat_view(r) == pat_tree(*p),
    decreases pat_tree(*p),
{
    match rust_syntax::pat_parts(p) {
        PatParts::Ident(s) => Pat::Ident(s),
        PatParts::Wild => Pat::Wild,
        PatParts::Lit(l) => Pat::Lit(rust_syntax::literal(l)),
        PatParts::TupleStruct(q, v) => {
            proof {
                assert(pat_tree(*p)->TupleStruct_1 == pat_trees(v@));
            }
            let path = rust_syntax::path(q);
            let elems = patterns_of(&v);
            Pat::TupleStruct(path, elems)
        },
        PatParts::Path(q) => Pat::Path(rust_syntax::path(q)),
        PatParts::Struct => Pat::Struct,
        PatParts::Other => Pat::Other,
    }
}

fn patterns_of(v: &Vec<&syn::Pat>) -> (r: Vec<Pat>)
    ensures
        pat_views(r) == pat_trees(v@),
    decreases pat_trees(v@),
{
    let ghost all = pat_trees(v@);
    let mut out: Vec<Pat> = Vec::new();
    let mut i: usize = 0;
    while i < v.len()
        invariant
            i <= v@.len(),
            all == pat_trees(v@),
            out@.len() == i,
            forall|k: int| 0 <= k < i ==> pat_view(#[trigger] out@[k]) == all[k],
        decreases v@.len() - i,
    {
        proof {
            assert(all[i as int] == pat_tree(*v@[i as int]));
        }
        out.push(pattern(v[i]));
        i += 1;
    }
    proof {
        assert(pat_views(out) =~= all);
    }
    out
}

// ---------------------------------------------------------------------------
// Types
// ---------------------------------------------------------------------------
/// A type of `syn` as a type.
pub fn type_of(t: &syn::Type) -> (r: Type)
    ensures
        type_view(r) == type_tree(*t),
    decreases type_tree(*t),
{
    match rust_syntax::type_parts(t) {
        TypeParts::Path(Some(s)) => {
            let (name, args) = rust_syntax::segment_parts(s);
            match args {
                Some(v) => {
                    proof {
                        let o = type_tree(*t)->Path_1;
                        assert(o->0 == type_arg_trees(v@));
                        assert(decreases_to!(type_tree(*t) => o));
                        assert(decreases_to!(o => o->0));
                    }
                    let given = type_arguments(&v);
                    Type::Path(name, Some(given))
                },
                None => Type::Path(name, None),
            }
        },
        TypeParts::Path(None) => Type::EmptyPath,
        TypeParts::Tuple(v) => {
            proof {
                assert(type_tree(*t)->Tuple_0 == type_trees(v@));
            }
            Type::Tuple(types_of(&v))
        },
        TypeParts::Array => Type::Array,
        TypeParts::Slice => Type::Slice,
        TypeParts::Reference(x) => {
            proof {
                assert(*type_tree(*t)->Reference_0 == type_tree(*x));
            }
            Type::Reference(Box::new(type_of(x)))
        },
        TypeParts::Ptr(x) => {
            proof {
                assert(*type_tree(*t)->Ptr_0 == type_tree(*x));
            }
            Type::Ptr(Box::new(type_of(x)))
        },
        TypeParts::Other => Type::Other,
    }
}

fn types_of(v: &Vec<&syn::Type>) -> (r: Vec<Type>)
    ensures
        type_views(r) == type_trees(v@),
    decreases type_trees(v@),
{
    let ghost all = type_trees(v@);
    let mut out: Vec<Type> = Vec::new();
    let mut i: usize = 0;
    while i < v.len()
        invariant
            i <= v@.len(),
            all == type_trees(v@),
            out@.len() == i,
            forall|k: int| 0 <= k < i ==> type_view(#[trigger] out@[k]) == all[k],
        decreases v@.len() - i,
    {
        proof {
            assert(all[i as int] == type_tree(*v@[i as int]));
        }
        out.push(type_of(v[i]));
        i += 1;
    }
    proof {
        assert(type_views(out) =~= all);
    }
    out
}

/// An argument of a type as a mathematical value.
pub open spec fn arg_view(a: TypeArg) -> Option<tree::TypeTree> {
    match a {
        TypeArg::Type(t) => Some(type_view(t)),
        TypeArg::Other => None,
    }
}

fn type_arguments(v: &Vec<Option<&syn::Type>>) -> (r: Vec<TypeArg>)
    ensures
        type_arg_views(r) == type_arg_trees(v@),
    decreases type_arg_trees(v@),
{
    let ghost all = type_arg_trees(v@);
    let mut out: Vec<TypeArg> = Vec::new();
    let mut i: usize = 0;
    while i < v.len()
        invariant
            i <= v@.len(),
            all == type_arg_trees(v@),
            out@.len() == i,
            forall|k: int| 0 <= k < i ==> arg_view(#[trigger] out@[k]) == all[k],
        decreases v@.len() - i,
    {
        match v[i] {
            Some(t) => {
                proof {
                    assert(all[i as int] == Some(type_tree(*t)));
                    assert(decreases_to!(all => all[i as int]));
                    assert(decreases_to!(all[i as int] => all[i as int]->0));
                }
                out.push(TypeArg::Type(type_of(t)));
            },
            None => {
                proof {
                    assert(all[i as int] == None::<tree::TypeTree>);
                }
                out.push(TypeArg::Other);
            },
        }
        i += 1;
    }
    proof {
        assert forall|k: int| 0 <= k < all.len() implies type_arg_views(out)[k] == all[k] by {
            assert(arg_view(out@[k]) == all[k]);
        }
        assert(type_arg_views(out) =~= all);
    }
    out
}

// ---------------------------------------------------------------------------
// Expressions
// ---------------------------------------------------------------------------
fn parts_of(e: &syn::Expr) -> (r: ExprParts<'_>)
    ensures
        expr_tree(*e) == whole(*e, r),
{
    match rust_syntax::operation_parts(e) {
        Some(p) => p,
        None => match rust_syntax::value_parts(e) {
            Some(p) => p,
            None => match rust_syntax::control_parts(e) {
                Some(p) => p,
                None => match rust_syntax::listing_parts(e) {
                    Some(p) => p,
                    None => rust_syntax::other_parts(e),
                },
            },
        },
    }
}

/// An expression of `syn` as an expression.
pub fn expression(e: &syn::Expr) -> (r: Expr)
    ensures
        expr_view(r) == expr_tree(*e),
    decreases expr_tree(*e), 1int,
{
    let p = parts_of(e);
    match p {
        ExprParts::Binary(op, a, b) => {
            proof {
                assert(*expr_tree(*e)->Binary_1 == expr_tree(*a));
                assert(*expr_tree(*e)->Binary_2 == expr_tree(*b));
            }
            let (symbol, description) = rust_syntax::operator_texts(op);
            let op = binary_operator(symbol.as_str(), description);
            let left = expression(a);
            let right = expression(b);
            Expr::Binary(op, Box::new(left), Box::new(right))
        },
        ExprParts::Unary(op, a) => {
            proof {
                assert(*expr_tree(*e)->Unary_1 == expr_tree(*a));
            }
            let (symbol, description) = rust_syntax::unary_texts(op);
            let op = unary_operator(symbol.as_str(), description);
            Expr::Unary(op, Box::new(expression(a)))
        },
        ExprParts::Paren(a) => {
            proof {
                assert(*expr_tree(*e)->Paren_0 == expr_tree(*a));
            }
            Expr::Paren(Box::new(expression(a)))
        },
        ExprParts::Cast(a) => {
            proof {
                assert(*expr_tree(*e)->Cast_0 == expr_tree(*a));
            }
            Expr::Cast(Box::new(expression(a)))
        },
        ExprParts::Reference(a) => {
            proof {
                assert(*expr_tree(*e)->Reference_0 == expr_tree(*a));
            }
            Expr::Reference(Box::new(expression(a)))
        },
        ExprParts::Try(a) => {
            proof {
                assert(*expr_tree(*e)->Try_0 == expr_tree(*a));
            }
            Expr::Try(Box::new(expression(a)))
        },
        ExprParts::Index(a, b) => {
            proof {
                assert(*expr_tree(*e)->Index_0 == expr_tree(*a));
                assert(*expr_tree(*e)->Index_1 == expr_tree(*b));
            }
            let left = expression(a);
            let right = expression(b);
            Expr::Index(Box::new(left), Box::new(right))
        },
        ExprParts::Repeat(a, b) => {
            proof {
                assert(*expr_tree(*e)->Repeat_0 == expr_tree(*a));
                assert(*expr_tree(*e)->Repeat_1 == expr_tree(*b));
            }
            let left = expression(a);
            let right = expression(b);
            Expr::Repeat(Box::new(left), Box::new(right))
        },
        _ => other_expression(e, p),
    }
}

fn other_expression(e: &syn::Expr, p: ExprParts<'_>) -> (r: Expr)
    requires
        expr_tree(*e) == whole(*e, p),
        !(p is Binary || p is Unary || p is Paren || p is Cast || p is Reference || p is Try || p
            is Index || p is Repeat),
    ensures
        expr_view(r) == expr_tree(*e),
    decreases expr_tree(*e), 0int,
{
    match p {
        ExprParts::Lit(l) => Expr::Lit(rust_syntax::literal(l)),
        ExprParts::Path(q) => Expr::Path(rust_syntax::path(q)),
        ExprParts::MethodCall(a, m, v) => {
            proof {
                assert(*expr_tree(*e)->MethodCall_0 == expr_tree(*a));
                assert(expr_tree(*e)->MethodCall_2 == expr_trees(v@));
            }
            let receiver = expression(a);
            let args = expressions(&v);
            Expr::MethodCall(Box::new(receiver), m, args)
        },
        ExprParts::Call(f, v) => {
            proof {
                assert(expr_tree(*e)->Call_1 == expr_trees(v@));
            }
            let callee = callee(f);
            let args = expressions(&v);
            Expr::Call(callee, args)
        },
        ExprParts::Tuple(v) => {
            proof {
                assert(expr_tree(*e)->Tuple_0 == expr_trees(v@));
            }
            Expr::Tuple(expressions(&v))
        },
        ExprParts::Array(v) => {
            proof {
                assert(expr_tree(*e)->Array_0 == expr_trees(v@));
            }
            Expr::Array(expressions(&v))
        },
        ExprParts::Range(a, b, closed) => {
            proof {
                assert(expr_tree(*e)->Range_0 == boxed_tree(a));
                assert(expr_tree(*e)->Range_1 == boxed_tree(b));
            }
            let start = optional(a);
            let end = optional(b);
            Expr::Range(start, end, closed)
        },
        ExprParts::Field(a, m) => {
            proof {
                assert(*expr_tree(*e)->Field_0 == expr_tree(*a));
            }
            let base = expression(a);
            Expr::Field(Box::new(base), rust_syntax::member(m))
        },
        ExprParts::Block(b) => {
            proof {
                assert(expr_tree(*e)->Block_0 == block_tree(*b));
            }
            Expr::Block(block(b))
        },
        ExprParts::Loop(b) => {
            proof {
                assert(expr_tree(*e)->Loop_0 == block_tree(*b));
            }
            Expr::Loop(block(b))
        },
        ExprParts::ForLoop(a, b) => {
            proof {
                assert(*expr_tree(*e)->ForLoop_0 == expr_tree(*a));
                assert(expr_tree(*e)->ForLoop_1 == block_tree(*b));
            }
            let over = expression(a);
            Expr::ForLoop(Box::new(over), block(b))
        },
        ExprParts::While(a, b) => {
            proof {
                assert(*expr_tree(*e)->While_0 == expr_tree(*a));
                assert(expr_tree(*e)->While_1 == block_tree(*b));
            }
            let cond = expression(a);
            Expr::While(Box::new(cond), block(b))
        },
        ExprParts::If(a, b, other) => {
            proof {
                assert(*expr_tree(*e)->If_0 == expr_tree(*a));
                assert(expr_tree(*e)->If_1 == block_tree(*b));
                assert(expr_tree(*e)->If_2 == boxed_tree(other));
            }
            let cond = expression(a);
            let then = block(b);
            Expr::If(Box::new(cond), then, optional(other))
        },
        ExprParts::Match(a, v) => {
            proof {
                assert(*expr_tree(*e)->Match_0 == expr_tree(*a));
                assert(expr_tree(*e)->Match_1 == arm_trees(v@));
            }
            let scrutinee = expression(a);
            Expr::Match(Box::new(scrutinee), arms(&v))
        },
        ExprParts::Closure(v, a) => {
            proof {
                assert(*expr_tree(*e)->Closure_1 == expr_tree(*a));
            }
            let inputs = patterns_of(&v);
            Expr::Closure(inputs, Box::new(expression(a)))
        },
        ExprParts::Let(q, a) => {
            proof {
                assert(*expr_tree(*e)->Let_2 == expr_tree(*a));
            }
            let pat = pattern(q);
            let description = rust_syntax::describe_pat(q);
            Expr::Let(pat, description, Box::new(expression(a)))
        },
        ExprParts::Struct(v) => {
            proof {
                assert(expr_tree(*e)->Struct_0 == field_trees(v@));
            }
            Expr::Struct(fields(&v))
        },
        ExprParts::Assign(a, b) => {
            proof {
                assert(*expr_tree(*e)->Assign_0 == expr_tree(*a));
                assert(*expr_tree(*e)->Assign_1 == expr_tree(*b));
            }
            let left = expression(a);
            let right = expression(b);
            Expr::Assign(Box::new(left), Box::new(right), rust_syntax::describe_expr(e))
        },
        ExprParts::Return(a) => {
            proof {
                assert(expr_tree(*e)->Return_0 == boxed_tree(a));
            }
            let given = optional(a);
            Expr::Return(given, rust_syntax::describe_expr(e))
        },
        _ => Expr::Other(rust_syntax::describe_expr(e)),
    }
}

fn callee(f: &syn::Expr) -> (r: Callee)
    ensures
        tree::callee_view(r) == callee_tree(*f),
{
    match parts_of(f) {
        ExprParts::Path(q) => Callee::Path(rust_syntax::path(q)),
        _ => Callee::Other(rust_syntax::describe_expr(f)),
    }
}

fn optional(e: Option<&syn::Expr>) -> (r: Option<Box<Expr>>)
    ensures
        match r {
            Some(x) => Some(Box::new(expr_view(*x))) == boxed_tree(e),
            None => boxed_tree(e) is None,
        },
    decreases boxed_tree(e), 1int,
{
    match e {
        Some(x) => {
            proof {
                let o = boxed_tree(e);
                assert(decreases_to!(o => o->0));
            }
            Some(Box::new(expression(x)))
        },
        None => None,
    }
}

fn expressions(v: &Vec<&syn::Expr>) -> (r: Vec<Expr>)
    ensures
        expr_views(r) == expr_trees(v@),
    decreases expr_trees(v@), 1int,
{
    let ghost all = expr_trees(v@);
    let mut out: Vec<Expr> = Vec::new();
    let mut i: usize = 0;
    while i < v.len()
        invariant
            i <= v@.len(),
            all == expr_trees(v@),
            out@.len() == i,
            forall|k: int| 0 <= k < i ==> expr_view(#[trigger] out@[k]) == all[k],
        decreases v@.len() - i,
    {
        proof {
            assert(all[i as int] == expr_tree(*v@[i as int]));
        }
        out.push(expression(v[i]));
        i += 1;
    }
    proof {
        assert(expr_views(out) =~= all);
    }
    out
}

fn arms(v: &Vec<(&syn::Pat, bool, &syn::Expr)>) -> (r: Vec<Arm>)
    ensures
        arm_views(r) == arm_trees(v@),
    decreases arm_trees(v@), 1int,
{
    let ghost all = arm_trees(v@);
    let mut out: Vec<Arm> = Vec::new();
    let mut i: usize = 0;
    while i < v.len()
        invariant
            i <= v@.len(),
            all == arm_trees(v@),
            out@.len() == i,
            forall|k: int| 0 <= k < i ==> tree::arm_view(#[trigger] out@[k]) == all[k],
        decreases v@.len() - i,
    {
        proof {
            assert(all[i as int].body == expr_tree(*v@[i as int].2));
            assert(decreases_to!(all => all[i as int]));
            assert(decreases_to!(all[i as int] => all[i as int].body));
        }
        let pat = pattern(v[i].0);
        let body = expression(v[i].2);
        out.push(Arm { pat, guard: v[i].1, body });
        i += 1;
    }
    proof {
        assert(arm_views(out) =~= all);
    }
    out
}

fn fields(v: &Vec<(&syn::Member, &syn::Expr)>) -> (r: Vec<FieldValue>)
    ensures
        field_views(r) == field_trees(v@),
    decreases field_trees(v@), 1int,
{
    let ghost all = field_trees(v@);
    let mut out: Vec<FieldValue> = Vec::new();
    let mut i: usize = 0;
    while i < v.len()
        invariant
            i <= v@.len(),
            all == field_trees(v@),
            out@.len() == i,
            forall|k: int| 0 <= k < i ==> tree::field_view(#[trigger] out@[k]) == all[k],
        decreases v@.len() - i,
    {
        proof {
            assert(all[i as int].1 == expr_tree(*v@[i as int].1));
            assert(decreases_to!(all => all[i as int]));
            assert(decreases_to!(all[i as int] => all[i as int].1));
        }
        let member = rust_syntax::member(v[i].0);
        let expr = expression(v[i].1);
        out.push(FieldValue { member, expr });
        i += 1;
    }
    proof {
        assert(field_views(out) =~= all);
    }
    out
}

/// A block of `syn` as a block.
pub fn block(b: &syn::Block) -> (r: Block)
    ensures
        stmt_views(r.stmts) == block_tree(*b),
    decreases block_tree(*b), 1int,
{
    let v = rust_syntax::statements(b);
    let ghost all = block_tree(*b);
    let mut out: Vec<Stmt> = Vec::new();
    let mut i: usize = 0;
    while i < v.len()
        invariant
            i <= v@.len(),
            all == block_tree(*b),
            all == stmt_trees(v@),
            out@.len() == i,
            forall|k: int| 0 <= k < i ==> stmt_view(#[trigger] out@[k]) == all[k],
        decreases v@.len() - i,
    {
        let last = rust_syntax::same_stmt(v[i], v[v.len() - 1]);
        proof {
            assert(last == stmt_same(*v@[i as int], *v@.last()));
            assert(all[i as int] == stmt_tree(*v@[i as int], last));
        }
        out.push(statement(v[i], last));
        i += 1;
    }
    proof {
        assert(stmt_views(out) =~= all);
    }
    Block { stmts: out }
}

fn statement(s: &syn::Stmt, last: bool) -> (r: Stmt)
    ensures
        stmt_view(r) == stmt_tree(*s, last),
    decreases stmt_tree(*s, last), 0int,
{
    match rust_syntax::stmt_parts(s) {
        StmtParts::Local(p, init) => {
            let pat = pattern(p);
            match init {
                Some(e) => {
                    proof {
                        let o = stmt_tree(*s, last)->Local_1;
                        assert(o->0 == expr_tree(*e));
                        assert(decreases_to!(stmt_tree(*s, last) => o));
                        assert(decreases_to!(o => o->0));
                    }
                    Stmt::Local(pat, Some(expression(e)))
                },
                None => Stmt::Local(pat, None),
            }
        },
        StmtParts::Semi(e) => {
            proof {
                assert(stmt_tree(*s, last)->Semi_0 == expr_tree(*e));
            }
            Stmt::Semi(expression(e))
        },
        StmtParts::Tail(e) => {
            proof {
                assert(stmt_tree(*s, last)->Tail_0 == expr_tree(*e));
            }
            Stmt::Tail(expression(e), last)
        },
        StmtParts::Item => Stmt::Item,
        StmtParts::Macro => Stmt::Macro,
    }
}

/// The expression that a text is, if it is one.
pub fn read_expression(s: &str) -> (r: Option<Rc<Expr>>)
    ensures
        match r {
            Some(e) => expression_read(s@) == Some(expr_view(*e)),
            None => expression_read(s@) is None,
        },
{
    match rust_syntax::parse_expression(s) {
        Some(e) => Some(Rc::new(expression(&e))),
        None => None,
    }
}

/// Whether a text is an expression.
pub fn is_rust_expression(s: &str) -> (r: bool)
    ensures
        r == (expression_read(s@) is Some),
{
    rust_syntax::parse_expression(s).is_some()
}

// ---------------------------------------------------------------------------
// Functions
// ---------------------------------------------------------------------------
fn attribute(a: &syn::Attribute) -> (r: Attr)
    ensures
        attr_view(r) == attr_tree(*a),
{
    let (path, tokens) = rust_syntax::head_of_attr(a);
    let arg = match rust_syntax::argument_of_attr(a) {
        Some((s, e)) => Some((s, Rc::new(expression(&e)))),
        None => None,
    };
    let inner = match rust_syntax::metas_of_attr(a) {
        Some(v) => {
            let ghost mv = rust_syntax::meta_views(v@);
            proof {
                assert(mv.len() == v@.len());
            }
            if v.len() > 1 {
                proof {
                    assert(mv[1] == rust_syntax::meta_views(v@)[1]);
                }
                match &v[1] {
                    Some((name, tokens)) => {
                        let expr = read_expression(tokens.as_str());
                        Some(
                            InnerAttr {
                                name: copy_text(name),
                                tokens: tokens.as_str().to_owned(),
                                expr,
                            },
                        )
                    },
                    None => None,
                }
            } else {
                None
            }
        },
        None => None,
    };
    Attr { path: rust_syntax::path(path), tokens, arg, inner }
}

fn attributes_of(v: &Vec<&syn::Attribute>) -> (r: Vec<Attr>)
    ensures
        r@.map_values(|a: Attr| attr_view(a)) == attr_trees(v@),
{
    let mut out: Vec<Attr> = Vec::new();
    let mut i: usize = 0;
    while i < v.len()
        invariant
            i <= v@.len(),
            out@.len() == i,
            forall|k: int| 0 <= k < i ==> attr_view(#[trigger] out@[k]) == attr_tree(*v@[k]),
        decreases v@.len() - i,
    {
        out.push(attribute(v[i]));
        i += 1;
    }
    proof {
        assert(out@.map_values(|a: Attr| attr_view(a)) =~= attr_trees(v@));
    }
    out
}

fn parameters(v: &Vec<Option<(String, &syn::Type)>>) -> (r: Vec<(String, Type)>)
    ensures
        r@.map_values(|p: (String, Type)| (p.0@, type_view(p.1))) == named_inputs(
            input_trees(v@),
            v@.len() as int,
        ),
{
    let ghost all = input_trees(v@);
    let mut out: Vec<(String, Type)> = Vec::new();
    let mut i: usize = 0;
    proof {
        assert(out@.map_values(|p: (String, Type)| (p.0@, type_view(p.1))) =~= seq![]);
    }
    while i < v.len()
        invariant
            i <= v@.len(),
            all == input_trees(v@),
            out@.map_values(|p: (String, Type)| (p.0@, type_view(p.1))) == named_inputs(
                all,
                i as int,
            ),
        decreases v@.len() - i,
    {
        let ghost had = out@.map_values(|p: (String, Type)| (p.0@, type_view(p.1)));
        proof {
            assert(all.len() == v@.len());
            assert(all[i as int] == input_trees(v@)[i as int]);
        }
        if let Some((name, t)) = &v[i] {
            out.push((name.as_str().to_owned(), type_of(t)));
            proof {
                assert(out@.map_values(|p: (String, Type)| (p.0@, type_view(p.1))) =~= had.push(
                    (name@, type_tree(**t)),
                ));
            }
        }
        i += 1;
    }
    out
}

/// A signature and a body of `syn` as a function.
pub fn function_item(sig: &syn::Signature, body: &syn::Block) -> (r: FnItem)
    ensures
        fn_view(r) == fn_tree(*sig, *body),
{
    let (name, inputs, output) = rust_syntax::signature_parts(sig);
    proof {
        assert(input_trees(inputs@).len() == inputs@.len());
    }
    let params = parameters(&inputs);
    let output = match output {
        Some(t) => Some(type_of(t)),
        None => None,
    };
    FnItem { name, params, output, body: block(body) }
}

fn source_fn(p: &FnParts<'_>) -> (r: SourceFn)
    ensures
        source_view(r) == whole_fn(*p),
{
    let item = function_item(p.1, p.2);
    SourceFn {
        name: item.name.as_str().to_owned(),
        attrs: attributes_of(&p.0),
        item: Rc::new(item),
    }
}

/// The functions among the first `n` parts of an implementation, in order.
pub open spec fn methods_in(v: Seq<Option<SourceTree>>, n: int) -> Seq<SourceTree>
    decreases n,
{
    if n <= 0 || n > v.len() {
        seq![]
    } else {
        match v[n - 1] {
            Some(f) => methods_in(v, n - 1).push(f),
            None => methods_in(v, n - 1),
        }
    }
}

/// The functions in the first `n` items of a file, in order: those that stand alone and those of
/// implementations.
pub open spec fn functions_in(v: Seq<ItemTree>, n: int) -> Seq<SourceTree>
    decreases n,
{
    if n <= 0 || n > v.len() {
        seq![]
    } else {
        match v[n - 1] {
            ItemTree::Fn(f) => functions_in(v, n - 1).push(f),
            ItemTree::Impl(parts) => functions_in(v, n - 1) + methods_in(parts, parts.len() as int),
            ItemTree::Other => functions_in(v, n - 1),
        }
    }
}

fn push_methods(v: &Vec<&syn::ImplItem>, out: &mut Vec<SourceFn>)
    ensures
        source_views(final(out)@) == source_views(old(out)@) + methods_in(
            part_trees(v@),
            v@.len() as int,
        ),
{
    let ghost before = source_views(out@);
    let ghost all = part_trees(v@);
    let mut i: usize = 0;
    proof {
        assert(before + Seq::<SourceTree>::empty() =~= before);
    }
    while i < v.len()
        invariant
            i <= v@.len(),
            all == part_trees(v@),
            source_views(out@) == before + methods_in(all, i as int),
        decreases v@.len() - i,
    {
        let ghost had = source_views(out@);
        proof {
            assert(all.len() == v@.len());
            assert(all[i as int] == part_tree(*v@[i as int]));
        }
        if let Some(p) = rust_syntax::method_parts(v[i]) {
            let f = source_fn(&p);
            out.push(f);
            proof {
                assert(source_views(out@) =~= had.push(whole_fn(p)));
                assert(before + methods_in(all, i as int).push(whole_fn(p)) =~= (before
                    + methods_in(all, i as int)).push(whole_fn(p)));
            }
        }
        i += 1;
    }
}

/// The functions of the file that a text is, or what is said against it.
pub fn read_source(content: &str) -> (r: Result<Vec<SourceFn>, String>)
    ensures
        match (r, source_read(content@)) {
            (Ok(v), Ok(items)) => source_views(v@) == functions_in(items, items.len() as int),
            (Err(m), Err(e)) => m@ == e,
            _ => false,
        },
{
    let file = match rust_syntax::parse_source(content) {
        Ok(f) => f,
        Err(m) => {
            return Err(m);
        },
    };
    let items = rust_syntax::items(&file);
    let ghost all = file_tree(file);
    let mut out: Vec<SourceFn> = Vec::new();
    let mut i: usize = 0;
    proof {
        assert(source_views(out@) =~= seq![]);
        assert(all.len() == items@.len());
    }
    while i < items.len()
        invariant
            i <= items@.len(),
            all == item_trees(items@),
            all.len() == items@.len(),
            source_views(out@) == functions_in(all, i as int),
        decreases items@.len() - i,
    {
        let ghost had = source_views(out@);
        proof {
            assert(all[i as int] == item_tree(*items@[i as int]));
        }
        match rust_syntax::item_parts(items[i]) {
            ItemParts::Fn(p) => {
                let f = source_fn(&p);
                out.push(f);
                proof {
                    assert(source_views(out@) =~= had.push(whole_fn(p)));
                }
            },
            ItemParts::Impl(v) => {
                proof {
                    assert(part_trees(v@).len() == v@.len());
                }
                push_methods(&v, &mut out);
            },
            ItemParts::Other => {},
        }
        i += 1;
    }
    Ok(out)
}

} // verus!
