//! Checks of contracts that need no solver.
use vstd::prelude::*;
use crate::ast::{BinOp, Expr, Lit};
use crate::contracts::{Contract, ContractType};
use crate::text::same;

verus! {

/// What a check without the solver finds.
#[derive(Debug, Clone, PartialEq, Eq)]
pub enum StaticCheckResult {
    /// The property holds.
    Passed,
    /// The property does not hold.
    Failed,
    /// Only the solver can tell.
    RequiresZ3,
}

/// Whether an expression is the integer literal zero.
pub open spec fn zero_literal(e: Expr) -> bool {
    e matches Expr::Lit(Lit::Int(l)) && l.digits@ == "0"@
}

/// Whether a condition compares with a literal for equality.
pub open spec fn constant_equality(e: Expr) -> bool {
    e matches Expr::Binary(BinOp::Eq, l, r) && (*l is Lit || *r is Lit)
}

/// Whether a condition is a bound: one value less than another.
pub open spec fn bounds_check(e: Expr) -> bool {
    e matches Expr::Binary(BinOp::Lt, _, _)
}

/// Whether a condition says that a value is not negative.
pub open spec fn non_negative_check(e: Expr) -> bool {
    e matches Expr::Binary(BinOp::Ge, l, r) && (zero_literal(*l) || zero_literal(*r))
}

/// Whether a condition asks if an option holds a value.
pub open spec fn option_check(e: Expr) -> bool {
    e matches Expr::MethodCall(_, m, _) && (m@ == "is_some"@ || m@ == "is_none"@)
}

/// Whether a condition is of a form that the static rules know.
pub open spec fn recognised(k: ContractType, e: Expr) -> bool {
    match k {
        ContractType::Requires => constant_equality(e) || bounds_check(e) || non_negative_check(e)
            || option_check(e),
        ContractType::Ensures => constant_equality(e) || non_negative_check(e),
        ContractType::Axiom => false,
    }
}

/// Whether an expression is the integer literal zero.
pub fn is_zero_literal(e: &Expr) -> (r: bool)
    ensures
        r == zero_literal(*e),
{
    match e {
        Expr::Lit(Lit::Int(l)) => same(l.digits.as_str(), "0"),
        _ => false,
    }
}

/// Whether an expression is a literal.
pub fn is_literal(e: &Expr) -> (r: bool)
    ensures
        r == (e is Lit),
{
    match e {
        Expr::Lit(_) => true,
        _ => false,
    }
}

/// Checks a contract without the solver: of the forms that are known, each needs the solver after
/// all, and of other forms nothing is said. A trusted statement is not checked.
pub fn check_contract_statically(contract: &Contract) -> (r: Option<StaticCheckResult>)
    ensures
        r is Some <==> recognised(contract.contract_type, *contract.condition),
        r is Some ==> r->0 is RequiresZ3,
{
    let e: &Expr = &contract.condition;
    match contract.contract_type {
        ContractType::Requires => check_requires_statically(e),
        ContractType::Ensures => check_ensures_statically(e),
        ContractType::Axiom => None,
    }
}

fn check_requires_statically(e: &Expr) -> (r: Option<StaticCheckResult>)
    ensures
        r is Some <==> recognised(ContractType::Requires, *e),
        r is Some ==> r->0 is RequiresZ3,
{
    match e {
        Expr::Binary(BinOp::Eq, l, r) => check_constant_equality(l, r),
        Expr::Binary(BinOp::Lt, _, _) => Some(StaticCheckResult::RequiresZ3),
        Expr::Binary(BinOp::Ge, l, r) => check_non_negative(l, r),
        Expr::MethodCall(_, m, _) => check_option_method(m.as_str()),
        _ => None,
    }
}

fn check_ensures_statically(e: &Expr) -> (r: Option<StaticCheckResult>)
    ensures
        r is Some <==> recognised(ContractType::Ensures, *e),
        r is Some ==> r->0 is RequiresZ3,
{
    match e {
        Expr::Binary(BinOp::Eq, l, r) => check_constant_equality(l, r),
        Expr::Binary(BinOp::Ge, l, r) => check_non_negative(l, r),
        _ => None,
    }
}

fn check_constant_equality(l: &Expr, r: &Expr) -> (out: Option<StaticCheckResult>)
    ensures
        out is Some <==> (l is Lit || r is Lit),
        out is Some ==> out->0 is RequiresZ3,
{
    if is_literal(l) || is_literal(r) {
        Some(StaticCheckResult::RequiresZ3)
    } else {
        None
    }
}

fn check_non_negative(l: &Expr, r: &Expr) -> (out: Option<StaticCheckResult>)
    ensures
        out is Some <==> (zero_literal(*l) || zero_literal(*r)),
        out is Some ==> out->0 is RequiresZ3,
{
    if is_zero_literal(r) || is_zero_literal(l) {
        Some(StaticCheckResult::RequiresZ3)
    } else {
        None
    }
}

fn check_option_method(m: &str) -> (out: Option<StaticCheckResult>)
    ensures
        out is Some <==> (m@ == "is_some"@ || m@ == "is_none"@),
        out is Some ==> out->0 is RequiresZ3,
{
    if same(m, "is_some") || same(m, "is_none") {
        Some(StaticCheckResult::RequiresZ3)
    } else {
        None
    }
}

/// What the rules for postconditions know, those for preconditions know too.
pub proof fn law_requires_knows_more(e: Expr)
    ensures
        recognised(ContractType::Ensures, e) ==> recognised(ContractType::Requires, e),
{
}

} // verus!
