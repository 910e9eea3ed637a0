//! When two expressions say the same, as far as the rules read them.
use vstd::prelude::*;
use crate::ast::{BinOp, Callee, Expr, Lit, Member, Path, UnOp};
use crate::text;
use crate::text::same;

verus! {

/// Equal literals.
pub open spec fn same_lit(a: Lit, b: Lit) -> bool {
    match (a, b) {
        (Lit::Int(x), Lit::Int(y)) => x.text@ == y.text@ && x.digits@ == y.digits@,
        (Lit::Bool(x), Lit::Bool(y)) => x == y,
        (Lit::Other(x), Lit::Other(y)) => x@ == y@,
        _ => false,
    }
}

/// Equal paths.
pub open spec fn same_path(a: Path, b: Path) -> bool {
    a.bare == b.bare && text::views(a.segments@) == text::views(b.segments@)
}

/// Equal binary operators.
pub open spec fn same_op(a: BinOp, b: BinOp) -> bool {
    match (a, b) {
        (BinOp::Plus, BinOp::Plus) => true,
        (BinOp::Minus, BinOp::Minus) => true,
        (BinOp::Times, BinOp::Times) => true,
        (BinOp::Div, BinOp::Div) => true,
        (BinOp::Rem, BinOp::Rem) => true,
        (BinOp::Shr, BinOp::Shr) => true,
        (BinOp::Shl, BinOp::Shl) => true,
        (BinOp::BitAnd(_), BinOp::BitAnd(_)) => true,
        (BinOp::Eq, BinOp::Eq) => true,
        (BinOp::Ne, BinOp::Ne) => true,
        (BinOp::Lt, BinOp::Lt) => true,
        (BinOp::Le, BinOp::Le) => true,
        (BinOp::Gt, BinOp::Gt) => true,
        (BinOp::Ge, BinOp::Ge) => true,
        (BinOp::And, BinOp::And) => true,
        (BinOp::Or, BinOp::Or) => true,
        (BinOp::Other(x), BinOp::Other(y)) => x@ == y@,
        _ => false,
    }
}

/// Equal unary operators.
pub open spec fn same_unary(a: UnOp, b: UnOp) -> bool {
    match (a, b) {
        (UnOp::Not, UnOp::Not) => true,
        (UnOp::Neg, UnOp::Neg) => true,
        (UnOp::Deref, UnOp::Deref) => true,
        (UnOp::Other(x), UnOp::Other(y)) => x@ == y@,
        _ => false,
    }
}

/// Equal fields.
pub open spec fn same_member(a: Member, b: Member) -> bool {
    match (a, b) {
        (Member::Named(x), Member::Named(y)) => x@ == y@,
        (Member::Unnamed(x), Member::Unnamed(y)) => x == y,
        _ => false,
    }
}

/// Equal callees.
pub open spec fn same_callee(a: Callee, b: Callee) -> bool {
    match (a, b) {
        (Callee::Path(x), Callee::Path(y)) => same_path(x, y),
        (Callee::Other(x), Callee::Other(y)) => x@ == y@,
        _ => false,
    }
}

/// Expressions that say the same: of literals, paths, operators, calls, fields and the like, part by
/// part. Expressions with statements in them are never taken as alike.
pub open spec fn alike(a: Expr, b: Expr) -> bool
    decreases a, 0int,
{
    match (a, b) {
        (Expr::Lit(x), Expr::Lit(y)) => same_lit(x, y),
        (Expr::Path(x), Expr::Path(y)) => same_path(x, y),
        (Expr::Binary(o, x, y), Expr::Binary(p, z, w)) => same_op(o, p) && alike(*x, *z) && alike(
            *y,
            *w,
        ),
        (Expr::MethodCall(x, n, v), Expr::MethodCall(y, m, w)) => n@ == m@ && alike(*x, *y)
            && all_alike(v, w, v@.len() as int),
        (Expr::Call(x, v), Expr::Call(y, w)) => same_callee(x, y) && all_alike(
            v,
            w,
            v@.len() as int,
        ),
        (Expr::Unary(o, x), Expr::Unary(p, y)) => same_unary(o, p) && alike(*x, *y),
        (Expr::Paren(x), Expr::Paren(y)) => alike(*x, *y),
        (Expr::Cast(x), Expr::Cast(y)) => alike(*x, *y),
        (Expr::Reference(x), Expr::Reference(y)) => alike(*x, *y),
        (Expr::Try(x), Expr::Try(y)) => alike(*x, *y),
        (Expr::Tuple(v), Expr::Tuple(w)) => all_alike(v, w, v@.len() as int),
        (Expr::Array(v), Expr::Array(w)) => all_alike(v, w, v@.len() as int),
        (Expr::Field(x, m), Expr::Field(y, n)) => same_member(m, n) && alike(*x, *y),
        (Expr::Index(x, y), Expr::Index(z, w)) => alike(*x, *z) && alike(*y, *w),
        _ => false,
    }
}

/// Lists of the same length, of which the first `n` are alike in pairs.
pub open spec fn all_alike(v: Vec<Expr>, w: Vec<Expr>, n: int) -> bool
    decreases v, n,
{
    v@.len() == w@.len() && (n <= 0 || n > v@.len() || (alike(v@[n - 1], w@[n - 1]) && all_alike(
        v,
        w,
        n - 1,
    )))
}

fn equal_lits(a: &Lit, b: &Lit) -> (r: bool)
    ensures
        r == same_lit(*a, *b),
{
    match (a, b) {
        (Lit::Int(x), Lit::Int(y)) => same(x.text.as_str(), y.text.as_str()) && same(
            x.digits.as_str(),
            y.digits.as_str(),
        ),
        (Lit::Bool(x), Lit::Bool(y)) => *x == *y,
        (Lit::Other(x), Lit::Other(y)) => same(x.as_str(), y.as_str()),
        _ => false,
    }
}

/// Whether two lists hold the same texts.
pub fn equal_texts(a: &Vec<String>, b: &Vec<String>) -> (r: bool)
    ensures
        r == (text::views(a@) == text::views(b@)),
{
    if a.len() != b.len() {
        proof {
            assert(text::views(a@).len() != text::views(b@).len());
        }
        return false;
    }
    let mut i: usize = 0;
    while i < a.len()
        invariant
            i <= a.len(),
            a.len() == b.len(),
            forall|j: int| 0 <= j < i ==> text::views(a@)[j] == text::views(b@)[j],
        decreases a.len() - i,
    {
        proof {
            assert(text::views(a@)[i as int] == a@[i as int]@);
            assert(text::views(b@)[i as int] == b@[i as int]@);
        }
        if !same(a[i].as_str(), b[i].as_str()) {
            return false;
        }
        i += 1;
    }
    proof {
        assert(text::views(a@) =~= text::views(b@));
    }
    true
}

fn equal_paths(a: &Path, b: &Path) -> (r: bool)
    ensures
        r == same_path(*a, *b),
{
    a.bare == b.bare && equal_texts(&a.segments, &b.segments)
}

fn equal_ops(a: &BinOp, b: &BinOp) -> (r: bool)
    ensures
        r == same_op(*a, *b),
{
    match (a, b) {
        (BinOp::Plus, BinOp::Plus) => true,
        (BinOp::Minus, BinOp::Minus) => true,
        (BinOp::Times, BinOp::Times) => true,
        (BinOp::Div, BinOp::Div) => true,
        (BinOp::Rem, BinOp::Rem) => true,
        (BinOp::Shr, BinOp::Shr) => true,
        (BinOp::Shl, BinOp::Shl) => true,
        (BinOp::BitAnd(_), BinOp::BitAnd(_)) => true,
        (BinOp::Eq, BinOp::Eq) => true,
        (BinOp::Ne, BinOp::Ne) => true,
        (BinOp::Lt, BinOp::Lt) => true,
        (BinOp::Le, BinOp::Le) => true,
        (BinOp::Gt, BinOp::Gt) => true,
        (BinOp::Ge, BinOp::Ge) => true,
        (BinOp::And, BinOp::And) => true,
        (BinOp::Or, BinOp::Or) => true,
        (BinOp::Other(x), BinOp::Other(y)) => same(x.as_str(), y.as_str()),
        _ => false,
    }
}

fn equal_unary(a: &UnOp, b: &UnOp) -> (r: bool)
    ensures
        r == same_unary(*a, *b),
{
    match (a, b) {
        (UnOp::Not, UnOp::Not) => true,
        (UnOp::Neg, UnOp::Neg) => true,
        (UnOp::Deref, UnOp::Deref) => true,
        (UnOp::Other(x), UnOp::Other(y)) => same(x.as_str(), y.as_str()),
        _ => false,
    }
}

fn equal_members(a: &Member, b: &Member) -> (r: bool)
    ensures
        r == same_member(*a, *b),
{
    match (a, b) {
        (Member::Named(x), Member::Named(y)) => same(x.as_str(), y.as_str()),
        (Member::Unnamed(x), Member::Unnamed(y)) => *x == *y,
        _ => false,
    }
}

fn equal_callees(a: &Callee, b: &Callee) -> (r: bool)
    ensures
        r == same_callee(*a, *b),
{
    match (a, b) {
        (Callee::Path(x), Callee::Path(y)) => equal_paths(x, y),
        (Callee::Other(x), Callee::Other(y)) => same(x.as_str(), y.as_str()),
        _ => false,
    }
}

/// Whether two expressions say the same.
pub fn are_alike(a: &Expr, b: &Expr) -> (r: bool)
    ensures
        r == alike(*a, *b),
    decreases *a, 0int,
{
    match (a, b) {
        (Expr::Lit(x), Expr::Lit(y)) => equal_lits(x, y),
        (Expr::Path(x), Expr::Path(y)) => equal_paths(x, y),
        (Expr::Binary(o, x, y), Expr::Binary(p, z, w)) => equal_ops(o, p) && are_alike(x, z)
            && are_alike(y, w),
        (Expr::MethodCall(x, n, v), Expr::MethodCall(y, m, w)) => same(n.as_str(), m.as_str())
            && are_alike(x, y) && are_all_alike(v, w, v.len()),
        (Expr::Call(x, v), Expr::Call(y, w)) => equal_callees(x, y) && are_all_alike(v, w, v.len()),
        (Expr::Unary(o, x), Expr::Unary(p, y)) => equal_unary(o, p) && are_alike(x, y),
        (Expr::Paren(x), Expr::Paren(y)) => are_alike(x, y),
        (Expr::Cast(x), Expr::Cast(y)) => are_alike(x, y),
        (Expr::Reference(x), Expr::Reference(y)) => are_alike(x, y),
        (Expr::Try(x), Expr::Try(y)) => are_alike(x, y),
        (Expr::Tuple(v), Expr::Tuple(w)) => are_all_alike(v, w, v.len()),
        (Expr::Array(v), Expr::Array(w)) => are_all_alike(v, w, v.len()),
        (Expr::Field(x, m), Expr::Field(y, n)) => equal_members(m, n) && are_alike(x, y),
        (Expr::Index(x, y), Expr::Index(z, w)) => are_alike(x, z) && are_alike(y, w),
        _ => false,
    }
}

fn are_all_alike(v: &Vec<Expr>, w: &Vec<Expr>, n: usize) -> (r: bool)
    requires
        n <= v@.len(),
    ensures
        r == all_alike(*v, *w, n as int),
    decreases *v, n as int,
{
    if v.len() != w.len() {
        return false;
    }
    if n == 0 {
        return true;
    }
    are_alike(&v[n - 1], &w[n - 1]) && are_all_alike(v, w, n - 1)
}

} // verus!
