//! The verification of a function: which contracts it has, which of them hold without the solver, and
//! what the answers of the solver to the others come to.
use std::rc::Rc;
use vstd::prelude::*;
use crate::alike;
use crate::alike::are_alike;
use crate::ast::{BinOp, Expr, FnItem, IntLit, Lit, Path, Type, TypeArg};
use crate::attributes;
use crate::attributes::{copy_contract, CalleePostcond, Contract, FunctionToVerify};
use crate::chars;
use crate::chars::{to_lowercase, trim};
use crate::condition;
use crate::condition::is_result_equality;
use crate::contracts;
use crate::contracts::ContractType;
use crate::numbers;
use crate::patterns;
use crate::rust_syntax::expression_read;
use crate::source::read_expression;
use crate::static_checker;
use crate::static_checker::is_zero_literal;
use crate::text;
use crate::text::{cat, cat3, contains, count_text, same, starts_with};
use crate::tree::expr_view;
use crate::values;
use crate::values::{Values, Worth};
use crate::z3_tables;
use crate::z3_tables::{is_unsigned_type, numbered, returns_bool_like, unwrap_to_tuple};
use crate::z3_verifier;
use crate::z3_verifier::{
    call_result_name,
    substitute_result_ident,
    CalleeFact,
    ContractQuery,
    Counterexample,
    VerificationResult as SolverResult,
    Z3Verifier,
};

verus! {

// ---------------------------------------------------------------------------
// Outcomes
// ---------------------------------------------------------------------------
/// Why a verification failed, in classes.
#[derive(Debug, Clone, Copy, PartialEq, Eq, Structural)]
pub enum FailureKind {
    /// The solver found values that refute the contract.
    Counterexample,
    /// The text of the contract is not an expression.
    ParseError,
    /// The solver could not tell.
    SolverUnknown,
    /// The question could not be put.
    SolverError,
    /// The solver is not there.
    Tooling,
    /// Everything else.
    Other,
}

impl FailureKind {
    /// The name of the class in reports.
    pub open spec fn name(self) -> Seq<char> {
        match self {
            FailureKind::Counterexample => "counterexample"@,
            FailureKind::ParseError => "parse_error"@,
            FailureKind::SolverUnknown => "solver_unknown"@,
            FailureKind::SolverError => "solver_error"@,
            FailureKind::Tooling => "tooling"@,
            FailureKind::Other => "other"@,
        }
    }

    /// The name of the class in reports.
    pub fn as_str(self) -> (r: &'static str)
        ensures
            r@ == self.name(),
    {
        match self {
            FailureKind::Counterexample => "counterexample",
            FailureKind::ParseError => "parse_error",
            FailureKind::SolverUnknown => "solver_unknown",
            FailureKind::SolverError => "solver_error",
            FailureKind::Tooling => "tooling",
            FailureKind::Other => "other",
        }
    }
}

/// Why a verification is partial.
#[derive(Debug, Clone, Copy, PartialEq, Eq, Structural)]
pub enum PartialReason {
    /// The solver could not tell.
    Z3Unknown,
    /// The solver ran out of time.
    Z3Timeout,
    /// The body or a contract could not be put to the solver.
    UnsupportedTranslation,
    /// The solver is not there.
    MissingZ3Build,
    /// Not all contracts were completed.
    IncompleteCoverage,
    /// Values refute a contract that comes from the specification.
    SpecDerivedCounterexample,
    Other,
}

impl PartialReason {
    /// The name of the reason in reports.
    pub open spec fn name(self) -> Seq<char> {
        match self {
            PartialReason::Z3Unknown => "z3_unknown"@,
            PartialReason::Z3Timeout => "z3_timeout"@,
            PartialReason::UnsupportedTranslation => "unsupported_translation"@,
            PartialReason::MissingZ3Build => "missing_z3_build"@,
            PartialReason::IncompleteCoverage => "incomplete_coverage"@,
            PartialReason::SpecDerivedCounterexample => "spec_derived_counterexample"@,
            PartialReason::Other => "other"@,
        }
    }

    /// The name of the reason in reports.
    pub fn as_str(self) -> (r: &'static str)
        ensures
            r@ == self.name(),
    {
        match self {
            PartialReason::Z3Unknown => "z3_unknown",
            PartialReason::Z3Timeout => "z3_timeout",
            PartialReason::UnsupportedTranslation => "unsupported_translation",
            PartialReason::MissingZ3Build => "missing_z3_build",
            PartialReason::IncompleteCoverage => "incomplete_coverage",
            PartialReason::SpecDerivedCounterexample => "spec_derived_counterexample",
            PartialReason::Other => "other",
        }
    }
}

/// What the verification of a function gave.
#[derive(Debug)]
pub enum VerificationResult {
    /// All contracts hold; `body_translated` where the body was used for one of them.
    Passed { body_translated: bool },
    Failed {
        contract: String,
        reason: String,
        kind: FailureKind,
        /// Where the solver could not tell: why not.
        partial_reason: Option<PartialReason>,
    },
    Partial {
        verified: usize,
        total: usize,
        reason: Option<String>,
        partial_reason: Option<PartialReason>,
    },
    /// There is nothing to verify.
    NoContracts { section: String },
    NotImplemented,
}

/// What the verification of a function gave, as a mathematical value.
#[verifier::ext_equal]
pub enum Outcome {
    Passed { body_translated: bool },
    Failed {
        contract: Seq<char>,
        reason: Seq<char>,
        kind: FailureKind,
        partial_reason: Option<PartialReason>,
    },
    Partial {
        verified: nat,
        total: nat,
        reason: Option<Seq<char>>,
        partial_reason: Option<PartialReason>,
    },
    NoContracts { section: Seq<char> },
    NotImplemented,
}

impl View for VerificationResult {
    type V = Outcome;

    open spec fn view(&self) -> Outcome {
        match *self {
            VerificationResult::Passed { body_translated } => Outcome::Passed { body_translated },
            VerificationResult::Failed { contract, reason, kind, partial_reason } => Outcome::Failed {
                contract: contract@,
                reason: reason@,
                kind,
                partial_reason,
            },
            VerificationResult::Partial { verified, total, reason, partial_reason } =>
                Outcome::Partial {
                verified: verified as nat,
                total: total as nat,
                reason: patterns::group_view(reason),
                partial_reason,
            },
            VerificationResult::NoContracts { section } => Outcome::NoContracts {
                section: section@,
            },
            VerificationResult::NotImplemented => Outcome::NotImplemented,
        }
    }
}

// ---------------------------------------------------------------------------
// Classes of failures
// ---------------------------------------------------------------------------
/// The class of a failure, by its reason and the reason in lower case.
pub open spec fn kind_given(contract: Seq<char>, reason: Seq<char>, r: Seq<char>) -> FailureKind {
    let undecided = text::holds(r, "z3 unknown"@) || text::holds(r, "z3 verification unknown"@);
    let determinism = text::holds(r, "determinism"@);
    if text::holds(r, "counterexample"@) || text::holds(r, "contract violated"@) || text::holds(
        r,
        "non-deterministic"@,
    ) || (determinism && !text::holds(r, "could not translate"@) && !undecided) {
        FailureKind::Counterexample
    } else if text::holds(r, "could not be parsed"@) || text::holds(r, "could not parse"@)
        || text::holds(r, "cannot verify: contract condition could not be parsed"@) || text::holds(
        reason,
        "Cannot verify: contract condition could not be parsed as expression"@,
    ) {
        FailureKind::ParseError
    } else if undecided {
        FailureKind::SolverUnknown
    } else if text::holds(r, "z3 error"@) || text::holds(r, "z3 verification error"@) {
        FailureKind::SolverError
    } else if text::holds(r, "z3 required but not built"@) || text::holds(
        r,
        "build blvm-spec-lock with --features z3"@,
    ) || text::holds(r, "z3 feature not enabled"@) {
        FailureKind::Tooling
    } else if contract == "Z3"@ && text::holds(r, "unknown"@) {
        FailureKind::SolverUnknown
    } else {
        FailureKind::Other
    }
}

/// The class of a failure, by its reason and the reason in lower case.
pub fn failure_kind_given(contract_type: &str, reason: &str, r: &str) -> (k: FailureKind)
    ensures
        k == kind_given(contract_type@, reason@, r@),
{
    let undecided = contains(r, "z3 unknown") || contains(r, "z3 verification unknown");
    let determinism = contains(r, "determinism");
    if contains(r, "counterexample") || contains(r, "contract violated") || contains(
        r,
        "non-deterministic",
    ) || (determinism && !contains(r, "could not translate") && !undecided) {
        return FailureKind::Counterexample;
    }
    if contains(r, "could not be parsed") || contains(r, "could not parse") || contains(
        r,
        "cannot verify: contract condition could not be parsed",
    ) || contains(reason, "Cannot verify: contract condition could not be parsed as expression") {
        return FailureKind::ParseError;
    }
    if undecided {
        return FailureKind::SolverUnknown;
    }
    if contains(r, "z3 error") || contains(r, "z3 verification error") {
        return FailureKind::SolverError;
    }
    if contains(r, "z3 required but not built") || contains(
        r,
        "build blvm-spec-lock with --features z3",
    ) || contains(r, "z3 feature not enabled") {
        return FailureKind::Tooling;
    }
    if same(contract_type, "Z3") && contains(r, "unknown") {
        return FailureKind::SolverUnknown;
    }
    FailureKind::Other
}

/// The class of a failure, by its reason.
pub fn failure_kind(contract_type: &str, reason: &str) -> (k: FailureKind)
    ensures
        k == kind_given(contract_type@, reason@, chars::unicode_lower(reason@)),
{
    let r = to_lowercase(reason);
    failure_kind_given(contract_type, reason, r.as_str())
}

/// Why the solver could not tell, by the reason in lower case.
pub open spec fn unknown_given(r: Seq<char>) -> PartialReason {
    if text::holds(r, "timeout"@) || text::holds(r, "timed out"@) || text::holds(r, "time out"@) {
        PartialReason::Z3Timeout
    } else {
        PartialReason::Z3Unknown
    }
}

/// Why the solver could not tell, by the reason in lower case.
pub fn unknown_reason_given(r: &str) -> (p: PartialReason)
    ensures
        p == unknown_given(r@),
{
    if contains(r, "timeout") || contains(r, "timed out") || contains(r, "time out") {
        PartialReason::Z3Timeout
    } else {
        PartialReason::Z3Unknown
    }
}

/// Why the solver could not tell.
pub fn solver_unknown_partial_reason(reason: &str) -> (p: PartialReason)
    ensures
        p == unknown_given(chars::unicode_lower(reason@)),
{
    let r = to_lowercase(reason);
    unknown_reason_given(r.as_str())
}

/// The reason of a failure with the number of failures.
pub open spec fn counted_reason(primary: Seq<char>, count: nat) -> Seq<char> {
    primary + " ("@ + text::decimal(count) + " total failures)"@
}

/// A failure by its first reason, where the reason in lower case is `r`.
pub open spec fn failed_given(contract: Seq<char>, primary: Seq<char>, count: nat, r: Seq<char>) -> Outcome {
    let reason = counted_reason(primary, count);
    let kind = kind_given(contract, reason, r);
    Outcome::Failed {
        contract,
        reason,
        kind,
        partial_reason: if kind == FailureKind::SolverUnknown {
            Some(unknown_given(r))
        } else {
            None
        },
    }
}

/// A failure by its first reason.
pub open spec fn failed(contract: Seq<char>, primary: Seq<char>, count: nat) -> Outcome {
    failed_given(contract, primary, count, chars::unicode_lower(counted_reason(primary, count)))
}

/// The failure of a contract, by the first reason and the number of failures.
pub fn failed_verification(
    contract_type: &str,
    primary_reason: &str,
    failed_contracts_len: usize,
) -> (r: VerificationResult)
    ensures
        r@ == failed(contract_type@, primary_reason@, failed_contracts_len as nat),
{
    let n = count_text(failed_contracts_len);
    let front = cat3(primary_reason, " (", n.as_str());
    let reason = cat(front.as_str(), " total failures)");
    let lower = to_lowercase(reason.as_str());
    let kind = failure_kind_given(contract_type, reason.as_str(), lower.as_str());
    let partial_reason = if kind == FailureKind::SolverUnknown {
        Some(unknown_reason_given(lower.as_str()))
    } else {
        None
    };
    VerificationResult::Failed { contract: contract_type.to_owned(), reason, kind, partial_reason }
}

/// A failure carries the reason for which the solver could not tell exactly where it is classed as
/// such.
pub proof fn law_partial_reason_of_failure(contract: Seq<char>, primary: Seq<char>, count: nat)
    ensures
        failed(contract, primary, count) matches Outcome::Failed { kind, partial_reason, .. } && (
        partial_reason is Some <==> kind == FailureKind::SolverUnknown),
{
}

/// Different classes of failures have different names.
pub proof fn law_failure_names_differ(a: FailureKind, b: FailureKind)
    ensures
        a.name() == b.name() ==> a == b,
{
    reveal_strlit("counterexample");
    reveal_strlit("parse_error");
    reveal_strlit("solver_unknown");
    reveal_strlit("solver_error");
    reveal_strlit("tooling");
    reveal_strlit("other");
    assert("counterexample"@.len() == 14 && "counterexample"@[0] == 'c');
    assert("parse_error"@.len() == 11);
    assert("solver_unknown"@.len() == 14 && "solver_unknown"@[0] == 's');
    assert("solver_error"@.len() == 12);
    assert("tooling"@.len() == 7);
    assert("other"@.len() == 5);
}

/// Different reasons have different names.
pub proof fn law_partial_names_differ(a: PartialReason, b: PartialReason)
    ensures
        a.name() == b.name() ==> a == b,
{
    reveal_strlit("z3_unknown");
    reveal_strlit("z3_timeout");
    reveal_strlit("unsupported_translation");
    reveal_strlit("missing_z3_build");
    reveal_strlit("incomplete_coverage");
    reveal_strlit("spec_derived_counterexample");
    reveal_strlit("other");
    assert("z3_unknown"@.len() == 10 && "z3_unknown"@[3] == 'u');
    assert("z3_timeout"@.len() == 10 && "z3_timeout"@[3] == 't');
    assert("unsupported_translation"@.len() == 23);
    assert("missing_z3_build"@.len() == 16);
    assert("incomplete_coverage"@.len() == 19);
    assert("spec_derived_counterexample"@.len() == 27);
    assert("other"@.len() == 5);
}

// ---------------------------------------------------------------------------
// Gaps
// ---------------------------------------------------------------------------
/// A contract that failed: its kind, the reason, and whether it comes from the specification.
#[verifier::ext_equal]
pub struct Failure {
    pub contract: Seq<char>,
    pub reason: Seq<char>,
    pub derived: bool,
}

/// Failures as mathematical values.
pub open spec fn failure_views(v: Seq<(String, String, bool)>) -> Seq<Failure> {
    v.map_values(|f: (String, String, bool)| Failure { contract: f.0@, reason: f.1@, derived: f.2 })
}

/// Whether a reason tells of a limit of the translation and not of a violation.
pub open spec fn gap(reason: Seq<char>) -> bool {
    text::holds(reason, "could not be parsed"@) || text::holds(
        reason,
        "Could not translate function body"@,
    ) || unnamed(reason) || text::holds(reason, "Translation error"@)
}

/// Whether a reason tells of a model that says nothing of the parameters.
pub open spec fn unnamed(reason: Seq<char>) -> bool {
    text::holds(reason, "counterexample model has no named variable assignments"@)
}

/// Whether a failure is a limit of the translation that is let pass: on a contract from the
/// specification any, on one that stands in the code only a model that says nothing.
pub open spec fn let_pass(f: Failure) -> bool {
    unnamed(f.reason) || (f.derived && gap(f.reason))
}

/// Whether there are failures and all are let pass.
pub open spec fn only_gaps(v: Seq<Failure>) -> bool {
    v.len() > 0 && forall|i: int| 0 <= i < v.len() ==> let_pass(#[trigger] v[i])
}

/// What failures that are all let pass come to.
pub open spec fn demoted(v: Seq<Failure>, verified: nat, total: nat) -> Option<Outcome> {
    if only_gaps(v) {
        Some(
            Outcome::Partial {
                verified,
                total,
                reason: Some(v[0].reason),
                partial_reason: Some(PartialReason::UnsupportedTranslation),
            },
        )
    } else {
        None
    }
}

fn is_gap(reason: &str) -> (r: bool)
    ensures
        r == gap(reason@),
{
    contains(reason, "could not be parsed") || contains(reason, "Could not translate function body")
        || is_unnamed(reason) || contains(reason, "Translation error")
}

fn is_unnamed(reason: &str) -> (r: bool)
    ensures
        r == unnamed(reason@),
{
    contains(reason, "counterexample model has no named variable assignments")
}

/// What failures come to that are all limits of the translation on contracts from the specification,
/// or models that say nothing: a partial result. A violation stays a failure, also on a contract from
/// the specification, and so does a contract in the code that could not be read.
pub fn demote_if_all_spec_derived(
    failed_contracts: &Vec<(String, String, bool)>,
    verified_count: usize,
    total: usize,
) -> (r: Option<VerificationResult>)
    ensures
        match r {
            Some(v) => demoted(
                failure_views(failed_contracts@),
                verified_count as nat,
                total as nat,
            ) == Some(v@),
            None => demoted(
                failure_views(failed_contracts@),
                verified_count as nat,
                total as nat,
            ) is None,
        },
{
    let ghost fv = failure_views(failed_contracts@);
    if failed_contracts.len() == 0 {
        return None;
    }
    let mut i: usize = 0;
    while i < failed_contracts.len()
        invariant
            i <= failed_contracts.len(),
            fv == failure_views(failed_contracts@),
            forall|j: int| 0 <= j < i ==> let_pass(#[trigger] fv[j]),
        decreases failed_contracts.len() - i,
    {
        proof {
            assert(fv[i as int].reason == failed_contracts@[i as int].1@);
            assert(fv[i as int].derived == failed_contracts@[i as int].2);
        }
        let reason = failed_contracts[i].1.as_str();
        if !(is_unnamed(reason) || (failed_contracts[i].2 && is_gap(reason))) {
            proof {
                assert(!let_pass(fv[i as int]));
            }
            return None;
        }
        i += 1;
    }
    Some(
        VerificationResult::Partial {
            verified: verified_count,
            total,
            reason: Some(failed_contracts[0].1.as_str().to_owned()),
            partial_reason: Some(PartialReason::UnsupportedTranslation),
        },
    )
}

/// A violation is never made a partial result: with one failure that is not a limit of the
/// translation nothing is demoted, whether the contracts come from the specification or not.
pub proof fn law_violation_is_not_demoted(v: Seq<Failure>, i: int, verified: nat, total: nat)
    requires
        0 <= i < v.len(),
        !gap(v[i].reason),
    ensures
        demoted(v, verified, total) is None,
{
    assert(!let_pass(v[i]));
}

/// A contract that stands in the code is demoted only for a model that says nothing: with any other
/// failure on one, whatever it tells of, nothing is demoted.
pub proof fn law_code_contract_is_not_demoted(v: Seq<Failure>, i: int, verified: nat, total: nat)
    requires
        0 <= i < v.len(),
        !v[i].derived,
        !unnamed(v[i].reason),
    ensures
        demoted(v, verified, total) is None,
{
    assert(!let_pass(v[i]));
}

/// Limits of the translation alone are a partial result: it counts what holds and gives the first
/// reason.
pub proof fn law_limits_are_demoted(v: Seq<Failure>, verified: nat, total: nat)
    requires
        v.len() > 0,
        forall|i: int|
            0 <= i < v.len() ==> (#[trigger] v[i]).derived && (text::holds(v[i].reason, "Translation error"@)
                || text::holds(v[i].reason, "could not be parsed"@) || text::holds(
                v[i].reason,
                "Could not translate function body"@,
            )),
    ensures
        demoted(v, verified, total) == Some(
            Outcome::Partial {
                verified,
                total,
                reason: Some(v[0].reason),
                partial_reason: Some(PartialReason::UnsupportedTranslation),
            },
        ),
{
    assert(only_gaps(v));
}

/// A failure that speaks of no parsing, no translation and no model without names is a failure:
/// with one nothing is demoted.
pub proof fn law_other_failures_are_not_demoted(v: Seq<Failure>, i: int, verified: nat, total: nat)
    requires
        0 <= i < v.len(),
        !text::holds(v[i].reason, "parsed"@),
        !text::holds(v[i].reason, "ranslat"@),
        !text::holds(v[i].reason, "no named variable"@),
    ensures
        demoted(v, verified, total) is None,
{
    let r = v[i].reason;
    reveal_strlit("parsed");
    reveal_strlit("ranslat");
    reveal_strlit("no named variable");
    reveal_strlit("could not be parsed");
    reveal_strlit("Could not translate function body");
    reveal_strlit("Translation error");
    reveal_strlit("counterexample model has no named variable assignments");
    lemma_holds_within(r, "could not be parsed"@, "parsed"@, 13);
    lemma_holds_within(r, "Could not translate function body"@, "ranslat"@, 11);
    lemma_holds_within(r, "Translation error"@, "ranslat"@, 1);
    lemma_holds_within(
        r,
        "counterexample model has no named variable assignments"@,
        "no named variable"@,
        25,
    );
    assert(!let_pass(v[i]));
}

proof fn lemma_holds_within(s: Seq<char>, p: Seq<char>, q: Seq<char>, at: int)
    requires
        0 <= at,
        at + q.len() <= p.len(),
        p.subrange(at, at + q.len()) =~= q,
    ensures
        text::holds(s, p) ==> text::holds(s, q),
{
    if text::holds(s, p) {
        let i = choose|i: int| text::occurs_at(s, p, i);
        assert(s.subrange(i, i + p.len()).subrange(at, at + q.len()) =~= s.subrange(
            i + at,
            i + at + q.len(),
        ));
        assert(text::occurs_at(s, q, i + at));
    }
}

// ---------------------------------------------------------------------------
// What holds without the solver
// ---------------------------------------------------------------------------
/// Whether an expression is the truth value `b`.
pub open spec fn truth(e: Expr, b: bool) -> bool {
    e == Expr::Lit(Lit::Bool(b))
}

fn is_truth(e: &Expr, b: bool) -> (r: bool)
    ensures
        r == truth(*e, b),
{
    match e {
        Expr::Lit(Lit::Bool(x)) => *x == b,
        _ => false,
    }
}

/// What is compared with the truth value `b`, where an expression is such a comparison.
pub open spec fn compared_with(e: Expr, b: bool) -> Option<Expr> {
    match e {
        Expr::Binary(BinOp::Eq, x, y) => if truth(*y, b) {
            Some(*x)
        } else if truth(*x, b) {
            Some(*y)
        } else {
            None
        },
        _ => None,
    }
}

fn compared<'a>(e: &'a Expr, b: bool) -> (r: Option<&'a Expr>)
    ensures
        match r {
            Some(x) => compared_with(*e, b) == Some(*x),
            None => compared_with(*e, b) is None,
        },
{
    match e {
        Expr::Binary(BinOp::Eq, x, y) => {
            if is_truth(y, b) {
                Some(&**x)
            } else if is_truth(x, b) {
                Some(&**y)
            } else {
                None
            }
        },
        _ => None,
    }
}

/// An expression without one pair of brackets around it.
pub open spec fn unbracketed(e: Expr) -> Expr {
    match e {
        Expr::Paren(x) => *x,
        _ => e,
    }
}

/// Whether the first expression compares with `b` what the second one compares with `!b`.
pub open spec fn opposite(x: Expr, y: Expr, b: bool) -> bool {
    compared_with(x, b) is Some && compared_with(y, !b) is Some && alike::alike(
        compared_with(x, b)->0,
        compared_with(y, !b)->0,
    )
}

/// Whether an expression is `X == true || X == false`, in one order or the other: true of every
/// truth value.
pub open spec fn exhaustion(e: Expr) -> bool {
    match unbracketed(e) {
        Expr::Binary(BinOp::Or, x, y) => opposite(*x, *y, true) || opposite(*x, *y, false),
        _ => false,
    }
}

fn are_opposite(x: &Expr, y: &Expr, b: bool) -> (r: bool)
    ensures
        r == opposite(*x, *y, b),
{
    match (compared(x, b), compared(y, !b)) {
        (Some(u), Some(v)) => are_alike(u, v),
        _ => false,
    }
}

/// Whether an expression is `X == true || X == false`, in one order or the other. One pair of
/// brackets around it does not matter.
pub fn is_bool_exhaustion_tautology(e: &Expr) -> (r: bool)
    ensures
        r == exhaustion(*e),
{
    let inner: &Expr = match e {
        Expr::Paren(x) => x,
        _ => e,
    };
    match inner {
        Expr::Binary(BinOp::Or, x, y) => are_opposite(x, y, true) || are_opposite(x, y, false),
        _ => false,
    }
}

/// The return type of a function. Of a result or an option it is the type of the value.
pub open spec fn return_type(f: FnItem) -> Option<Type> {
    match f.output {
        None => None,
        Some(t) => Some(
            match t {
                Type::Path(name, Some(args)) => if (name@ == "Result"@ || name@ == "Option"@)
                    && args@.len() > 0 {
                    match args@[0] {
                        TypeArg::Type(inner) => inner,
                        TypeArg::Other => t,
                    }
                } else {
                    t
                },
                _ => t,
            },
        ),
    }
}

/// The return type of a function. Of a result or an option it is the type of the value.
pub fn extract_return_type_from_sig(f: &FnItem) -> (r: Option<&Type>)
    ensures
        match r {
            Some(t) => return_type(*f) == Some(*t),
            None => return_type(*f) is None,
        },
{
    match &f.output {
        None => None,
        Some(t) => {
            if let Type::Path(name, Some(args)) = t {
                if (same(name.as_str(), "Result") || same(name.as_str(), "Option")) && args.len()
                    > 0 {
                    if let TypeArg::Type(inner) = &args[0] {
                        return Some(inner);
                    }
                }
            }
            Some(t)
        },
    }
}

/// The name that an expression is, where it is one.
pub open spec fn sole_name(e: Expr) -> Option<Seq<char>> {
    match e {
        Expr::Path(p) => if p.bare && p.segments@.len() == 1 {
            Some(p.segments@[0]@)
        } else {
            None
        },
        _ => None,
    }
}

/// The name that an expression says is not negative: `x` of `x >= 0` and `0 <= x`.
pub open spec fn said_non_negative(e: Expr) -> Option<Seq<char>> {
    match e {
        Expr::Binary(BinOp::Ge, x, y) => if static_checker::zero_literal(*y) {
            sole_name(*x)
        } else {
            None
        },
        Expr::Binary(BinOp::Le, x, y) => if static_checker::zero_literal(*x) {
            sole_name(*y)
        } else {
            None
        },
        _ => None,
    }
}

/// Whether a name stands for the result or a part of it.
pub open spec fn names_result(n: Seq<char>) -> bool {
    n == "result"@ || text::starts(n, "result_"@)
}

/// Whether an expression says of the result that it is not negative, and the return type tells as
/// much.
pub open spec fn non_negative_by_type(e: Expr, f: FnItem) -> bool {
    match (said_non_negative(e), return_type(f)) {
        (Some(n), Some(t)) => names_result(n) && z3_tables::type_contracts(t).contains(
            n + " >= 0"@,
        ),
        _ => false,
    }
}

fn name_alone(e: &Expr) -> (r: Option<&String>)
    ensures
        match r {
            Some(s) => sole_name(*e) == Some(s@),
            None => sole_name(*e) is None,
        },
{
    match e {
        Expr::Path(p) => {
            if p.bare && p.segments.len() == 1 {
                Some(&p.segments[0])
            } else {
                None
            }
        },
        _ => None,
    }
}

fn name_said_non_negative(e: &Expr) -> (r: Option<&String>)
    ensures
        match r {
            Some(s) => said_non_negative(*e) == Some(s@),
            None => said_non_negative(*e) is None,
        },
{
    match e {
        Expr::Binary(BinOp::Ge, x, y) => {
            if is_zero_literal(y) {
                name_alone(x)
            } else {
                None
            }
        },
        Expr::Binary(BinOp::Le, x, y) => {
            if is_zero_literal(x) {
                name_alone(y)
            } else {
                None
            }
        },
        _ => None,
    }
}

/// Whether an expression says of the result that it is not negative, and the return type tells as
/// much.
pub fn is_nonneg_tautology_for_return_type(e: &Expr, f: &FnItem) -> (r: bool)
    ensures
        r == non_negative_by_type(*e, *f),
{
    match (name_said_non_negative(e), extract_return_type_from_sig(f)) {
        (Some(n), Some(t)) => {
            if !same(n.as_str(), "result") && !starts_with(n.as_str(), "result_") {
                return false;
            }
            let known = crate::z3_tables::auto_type_contracts(t);
            let needle = cat(n.as_str(), " >= 0");
            crate::text::has_string(&known, needle.as_str())
        },
        _ => false,
    }
}

/// Whether a condition holds without the solver.
pub open spec fn settled(e: Expr, sig: Option<Rc<FnItem>>) -> bool {
    truth(e, true) || exhaustion(e) || (sig matches Some(f) && non_negative_by_type(e, *f))
}

/// Whether a condition holds without the solver: it is `true`, it holds of every truth value, or the
/// return type tells it.
pub fn check_contract_statically(e: &Expr, sig: &Option<Rc<FnItem>>) -> (r: bool)
    ensures
        r == settled(*e, *sig),
{
    if is_truth(e, true) || is_bool_exhaustion_tautology(e) {
        return true;
    }
    match sig {
        Some(f) => is_nonneg_tautology_for_return_type(e, f),
        None => false,
    }
}

/// A condition that counts as settled without the solver holds of all values that the function can
/// return.
pub proof fn law_settled_conditions_hold(e: Expr, sig: Option<Rc<FnItem>>, env: Values)
    requires
        settled(e, sig),
        sig matches Some(f) ==> values::returnable(env, *f),
    ensures
        values::value(e, env) matches Some(v) ==> v == Worth::Truth(true),
{
    if exhaustion(e) {
        lemma_exhaustion_holds(e, env);
    } else if !truth(e, true) {
        let f = *(sig->0);
        lemma_non_negative_by_type(e, f, env);
    }
}

proof fn lemma_compared(e: Expr, b: bool, env: Values)
    requires
        compared_with(e, b) is Some,
        values::value(e, env) is Some,
    ensures
        values::value(compared_with(e, b)->0, env) matches Some(Worth::Truth(c)) && values::value(
            e,
            env,
        ) == Some(Worth::Truth(c == b)),
{
    if let Expr::Binary(_, x, y) = e {
        assert(values::value(Expr::Lit(Lit::Bool(b)), env) == Some(Worth::Truth(b)));
    }
}

proof fn lemma_exhaustion_holds(e: Expr, env: Values)
    requires
        exhaustion(e),
    ensures
        values::value(e, env) matches Some(v) ==> v == Worth::Truth(true),
{
    let inner = unbracketed(e);
    assert(values::value(e, env) == values::value(inner, env));
    if values::value(inner, env) is Some {
        if let Expr::Binary(_, x, y) = inner {
            assert(values::value(*x, env) is Some && values::value(*y, env) is Some);
            let b = opposite(*x, *y, true);
            lemma_compared(*x, b, env);
            lemma_compared(*y, !b, env);
            values::law_alike_expressions_are_worth_the_same(
                compared_with(*x, b)->0,
                compared_with(*y, !b)->0,
                env,
            );
        }
    }
}

/// An expression that says of a name that it is not negative holds exactly where its value is not.
pub proof fn law_said_non_negative_is_meant(e: Expr, env: Values)
    requires
        said_non_negative(e) is Some,
    ensures
        values::value(e, env) matches Some(v) ==> (env(said_non_negative(e)->0) matches Some(
            Worth::Number(n),
        ) && v == Worth::Truth(n >= 0)),
{
    if let Expr::Binary(_, x, y) = e {
        lemma_zero(*x, env);
        lemma_zero(*y, env);
    }
}

proof fn lemma_zero(e: Expr, env: Values)
    ensures
        static_checker::zero_literal(e) ==> values::value(e, env) == Some(Worth::Number(0)),
{
    if static_checker::zero_literal(e) {
        if let Expr::Lit(Lit::Int(l)) = e {
            reveal_strlit("0");
            let s = l.digits@;
            assert(s =~= seq!['0']);
            assert(s.drop_last() =~= seq![]);
            assert(numbers::radix_value(s.drop_last(), 10) == Some(0nat));
            assert(numbers::digit_value(s.last()) == Some(0nat));
            assert(numbers::radix_value(s, 10) == Some(0nat));
        }
    }
}

proof fn lemma_slot_of_contract(n: Seq<char>, slot: Seq<char>, t: Type)
    requires
        z3_tables::slot_contract(slot, t) == Some(n + " >= 0"@),
    ensures
        n == slot,
        z3_tables::non_negative(t),
{
    reveal_strlit(" >= 0");
    reveal_strlit(" == false");
    let c = n + " >= 0"@;
    if z3_tables::bool_like(t) {
        let d = slot + " == true || "@ + slot + " == false"@;
        assert(c.last() == '0');
        assert(d.last() == 'e');
    } else {
        let d = slot + " >= 0"@;
        assert(c.len() == d.len());
        assert(n =~= c.take(n.len() as int));
        assert(slot =~= d.take(slot.len() as int));
    }
}

proof fn lemma_tuple_contract(elems: Seq<Type>, k: int, n: Seq<char>) -> (j: int)
    requires
        0 <= k <= elems.len(),
        z3_tables::tuple_contracts(elems, k).contains(n + " >= 0"@),
    ensures
        0 <= j < k,
        n == "result_"@ + text::decimal(j as nat),
        z3_tables::non_negative(elems[j]),
    decreases k,
{
    let c = n + " >= 0"@;
    let v = z3_tables::tuple_contracts(elems, k);
    let at = choose|i: int| 0 <= i < v.len() && v[i] == c;
    if k > 0 {
        let slot = "result_"@ + text::decimal((k - 1) as nat);
        let before = z3_tables::tuple_contracts(elems, k - 1);
        if z3_tables::slot_contract(slot, elems[k - 1]) == Some(c) {
            lemma_slot_of_contract(n, slot, elems[k - 1]);
            k - 1
        } else {
            assert(before.contains(c)) by {
                assert(at < before.len());
                assert(before[at] == v[at]);
            }
            lemma_tuple_contract(elems, k - 1, n)
        }
    } else {
        0
    }
}

proof fn lemma_non_negative_by_type(e: Expr, f: FnItem, env: Values)
    requires
        non_negative_by_type(e, f),
        values::returnable(env, f),
    ensures
        values::value(e, env) matches Some(v) ==> v == Worth::Truth(true),
{
    if values::value(e, env) is Some {
        law_said_non_negative_is_meant(e, env);
        let n = said_non_negative(e)->0;
        let t = return_type(f)->0;
        let x = env(n)->0->Number_0;
        match z3_tables::tuple_of(t) {
            Some(elems) => {
                let j = lemma_tuple_contract(elems, elems.len() as int, n);
                assert(env("result_"@ + text::decimal(j as nat)) is Some);
                values::law_non_negative_types_have_no_negative_values(elems[j], x);
            },
            None => {
                let v = z3_tables::type_contracts(t);
                let at = choose|i: int| 0 <= i < v.len() && v[i] == n + " >= 0"@;
                assert(v[at] == n + " >= 0"@);
                lemma_slot_of_contract(n, "result"@, t);
                values::law_non_negative_types_have_no_negative_values(t, x);
            },
        }
    }
}

// ---------------------------------------------------------------------------
// The contracts of a function
// ---------------------------------------------------------------------------
/// What the verification reads of a contract.
#[verifier::ext_equal]
pub struct Case {
    pub contract_type: ContractType,
    pub condition: Seq<char>,
    /// Whether the condition is an expression.
    pub parsed: bool,
    /// Whether it holds without the solver.
    pub settled: bool,
    /// Whether it comes from the specification.
    pub derived: bool,
}

/// What the verification reads of a contract.
pub open spec fn case_of(c: Contract, sig: Option<Rc<FnItem>>) -> Case {
    Case {
        contract_type: c.contract_type,
        condition: c.condition@,
        parsed: c.expr is Some,
        settled: c.expr matches Some(e) && settled(*e, sig),
        derived: c.is_spec_derived,
    }
}

/// What the verification reads of contracts.
pub open spec fn cases_of(v: Seq<Contract>, sig: Option<Rc<FnItem>>) -> Seq<Case> {
    v.map_values(|c: Contract| case_of(c, sig))
}

/// What the verification reads of a contract that the return type gives.
pub open spec fn type_case(condition: Seq<char>) -> Case {
    Case {
        contract_type: ContractType::Ensures,
        condition,
        parsed: true,
        settled: true,
        derived: true,
    }
}

/// What the verification reads of a function: its contracts, or where it has none those that the
/// return type gives.
pub open spec fn function_cases(f: FunctionToVerify) -> Seq<Case> {
    if f.contracts@.len() > 0 {
        cases_of(f.contracts@, f.function_sig)
    } else {
        match f.function_sig {
            Some(sig) => match return_type(*sig) {
                Some(t) => z3_tables::type_contracts(t).map_values(|c: Seq<char>| type_case(c)),
                None => seq![],
            },
            None => seq![],
        }
    }
}

fn path_expr(name: &str) -> (r: Box<Expr>)
    ensures
        sole_name(*r) == Some(name@),
        *r matches Expr::Path(p) && p.bare && text::views(p.segments@) == seq![name@],
{
    let mut segments: Vec<String> = Vec::new();
    segments.push(name.to_owned());
    proof {
        assert(text::views(segments@) =~= seq![name@]);
    }
    Box::new(Expr::Path(Path { segments, bare: true }))
}

fn truth_expr(b: bool) -> (r: Box<Expr>)
    ensures
        truth(*r, b),
{
    Box::new(Expr::Lit(Lit::Bool(b)))
}

fn exhaustion_expr(name: &str) -> (r: Rc<Expr>)
    ensures
        exhaustion(*r),
{
    let left = Box::new(Expr::Binary(BinOp::Eq, path_expr(name), truth_expr(true)));
    let right = Box::new(Expr::Binary(BinOp::Eq, path_expr(name), truth_expr(false)));
    proof {
        assert(opposite(*left, *right, true));
    }
    Rc::new(Expr::Binary(BinOp::Or, left, right))
}

fn non_negative_expr(name: &str) -> (r: Rc<Expr>)
    ensures
        said_non_negative(*r) == Some(name@),
{
    let zero = Box::new(
        Expr::Lit(
            Lit::Int(
                IntLit {
                    text: "0".to_owned(),
                    digits: "0".to_owned(),
                    complaint: "".to_owned(),
                },
            ),
        ),
    );
    Rc::new(Expr::Binary(BinOp::Ge, path_expr(name), zero))
}

/// Whether a contract is one that a type gives: its expression holds of every truth value, or says
/// what its text says.
spec fn by_type(c: Contract) -> bool {
    &&& c.contract_type == ContractType::Ensures
    &&& c.is_spec_derived
    &&& c.expr matches Some(e) && (exhaustion(*e) || (said_non_negative(*e) matches Some(n)
        && names_result(n) && c.condition@ == n + " >= 0"@))
}

fn slot_of_type(slot: &str, t: &Type) -> (r: Option<Contract>)
    requires
        names_result(slot@),
    ensures
        match r {
            Some(c) => z3_tables::slot_contract(slot@, *t) == Some(c.condition@) && by_type(c),
            None => z3_tables::slot_contract(slot@, *t) is None,
        },
{
    if returns_bool_like(t) {
        let front = cat3(slot, " == true || ", slot);
        Some(
            Contract {
                contract_type: ContractType::Ensures,
                condition: cat(front.as_str(), " == false"),
                expr: Some(exhaustion_expr(slot)),
                is_spec_derived: true,
            },
        )
    } else if is_unsigned_type(t) {
        Some(
            Contract {
                contract_type: ContractType::Ensures,
                condition: cat(slot, " >= 0"),
                expr: Some(non_negative_expr(slot)),
                is_spec_derived: true,
            },
        )
    } else {
        None
    }
}

/// The texts of contracts.
pub open spec fn condition_views(v: Seq<Contract>) -> Seq<Seq<char>> {
    v.map_values(|c: Contract| c.condition@)
}

#[verifier::loop_isolation(false)]
fn contracts_of_type(t: &Type) -> (r: Vec<Contract>)
    ensures
        condition_views(r@) == z3_tables::type_contracts(*t),
        forall|i: int| 0 <= i < r@.len() ==> by_type(#[trigger] r@[i]),
{
    let mut out: Vec<Contract> = Vec::new();
    match unwrap_to_tuple(t) {
        Some(elems) => {
            let mut i: usize = 0;
            proof {
                assert(condition_views(out@) =~= seq![]);
            }
            while i < elems.len()
                invariant
                    i <= elems.len(),
                    condition_views(out@) == z3_tables::tuple_contracts(elems@, i as int),
                    forall|k: int| 0 <= k < out@.len() ==> by_type(#[trigger] out@[k]),
                decreases elems.len() - i,
            {
                let ghost had = out@;
                let slot = numbered("result_", i);
                proof {
                    assert(slot@ == "result_"@ + text::decimal(i as nat));
                    assert(slot@.take("result_"@.len() as int) =~= "result_"@);
                }
                if let Some(c) = slot_of_type(slot.as_str(), &elems[i]) {
                    let ghost cv = c.condition@;
                    out.push(c);
                    proof {
                        assert(condition_views(out@) =~= condition_views(had).push(cv));
                    }
                }
                i += 1;
            }
        },
        None => {
            if let Some(c) = slot_of_type("result", t) {
                out.push(c);
            }
            proof {
                assert(condition_views(out@) =~= z3_tables::type_contracts(*t));
            }
        },
    }
    out
}

/// The contracts of a function that are to be verified: its own, or where it has none those that the
/// return type gives.
pub fn obligations(f: &FunctionToVerify) -> (r: Vec<Contract>)
    ensures
        cases_of(r@, f.function_sig) == function_cases(*f),
        f.contracts@.len() > 0 ==> attributes::contract_views(r@) == attributes::contract_views(
            f.contracts@,
        ),
{
    let mut out: Vec<Contract> = Vec::new();
    if f.contracts.len() > 0 {
        let mut i: usize = 0;
        while i < f.contracts.len()
            invariant
                i <= f.contracts.len(),
                out@.len() == i,
                forall|k: int| 0 <= k < i ==> (#[trigger] out@[k])@ == f.contracts@[k]@,
            decreases f.contracts.len() - i,
        {
            out.push(copy_contract(&f.contracts[i]));
            i += 1;
        }
        proof {
            assert(attributes::contract_views(out@) =~= attributes::contract_views(f.contracts@));
            assert forall|k: int| 0 <= k < out@.len() implies case_of(
                #[trigger] out@[k],
                f.function_sig,
            ) == case_of(f.contracts@[k], f.function_sig) by {
                assert(out@[k]@ == f.contracts@[k]@);
            }
            assert(cases_of(out@, f.function_sig) =~= cases_of(f.contracts@, f.function_sig));
        }
        return out;
    }
    if let Some(sig) = &f.function_sig {
        if let Some(t) = extract_return_type_from_sig(sig) {
            let given = contracts_of_type(t);
            proof {
                let want = z3_tables::type_contracts(*t).map_values(|c: Seq<char>| type_case(c));
                assert forall|k: int| 0 <= k < given@.len() implies cases_of(
                    given@,
                    f.function_sig,
                )[k] == want[k] by {
                    assert(by_type(given@[k]));
                    assert(condition_views(given@)[k] == given@[k].condition@);
                    assert(z3_tables::type_contracts(*t).contains(given@[k].condition@));
                }
                assert(condition_views(given@).len() == given@.len());
                assert(cases_of(given@, f.function_sig) =~= want);
            }
            return given;
        }
    }
    proof {
        assert(cases_of(out@, f.function_sig) =~= seq![]);
    }
    out
}

/// What is asked of the solver on a contract.
#[derive(Debug, Clone, Copy, PartialEq, Eq, Structural)]
pub enum SolverTask {
    /// Nothing.
    Nothing,
    /// Whether two runs agree.
    Determinism,
    /// Whether the contract holds.
    Contract,
}

/// What is asked of the solver on a contract: of a postcondition that says that two results are
/// equal whether two runs agree, and of another one that is an expression and does not hold without
/// the solver whether it holds.
pub open spec fn task_of(c: Case, signed: bool) -> SolverTask {
    if c.contract_type != ContractType::Ensures || chars::trimmed(c.condition).len() == 0 {
        SolverTask::Nothing
    } else if condition::result_equality(c.condition) {
        if signed {
            SolverTask::Determinism
        } else {
            SolverTask::Nothing
        }
    } else if c.parsed && !c.settled {
        SolverTask::Contract
    } else {
        SolverTask::Nothing
    }
}

fn is_blank(s: &str) -> (r: bool)
    ensures
        r == (chars::trimmed(s@).len() == 0),
{
    proof {
        reveal_strlit("");
    }
    let t = trim(s);
    let r = same(t.as_str(), "");
    proof {
        assert(t@.len() == 0 ==> t@ =~= ""@);
    }
    r
}

fn is_settled(c: &Contract, sig: &Option<Rc<FnItem>>) -> (r: bool)
    ensures
        r == case_of(*c, *sig).settled,
{
    match &c.expr {
        Some(e) => check_contract_statically(e, sig),
        None => false,
    }
}

/// What is asked of the solver on a contract.
pub fn solver_task(c: &Contract, sig: &Option<Rc<FnItem>>) -> (r: SolverTask)
    ensures
        r == task_of(case_of(*c, *sig), sig is Some),
{
    if c.contract_type != ContractType::Ensures || is_blank(c.condition.as_str()) {
        SolverTask::Nothing
    } else if is_result_equality(c.condition.as_str()) {
        if sig.is_some() {
            SolverTask::Determinism
        } else {
            SolverTask::Nothing
        }
    } else if c.expr.is_some() && !is_settled(c, sig) {
        SolverTask::Contract
    } else {
        SolverTask::Nothing
    }
}

// ---------------------------------------------------------------------------
// The verification of a function
// ---------------------------------------------------------------------------
/// What is known while the contracts of a function are gone through.
#[verifier::ext_equal]
pub struct Tally {
    /// How many contracts hold.
    pub verified: nat,
    /// Those that failed.
    pub failed: Seq<Failure>,
    /// Whether one needs the solver.
    pub pending: bool,
    /// Why a body could not be put to the solver, the first time.
    pub gap: Option<Seq<char>>,
    /// Whether a body was used.
    pub body: bool,
}

impl Tally {
    /// Nothing is known.
    pub open spec fn empty() -> Tally {
        Tally { verified: 0, failed: seq![], pending: false, gap: None, body: false }
    }

    /// One contract more holds.
    pub open spec fn verify(self) -> Tally {
        Tally { verified: self.verified + 1, ..self }
    }

    /// One contract more failed.
    pub open spec fn fail(self, contract: Seq<char>, reason: Seq<char>, derived: bool) -> Tally {
        Tally { failed: self.failed.push(Failure { contract, reason, derived }), ..self }
    }

    /// The solver is needed.
    pub open spec fn wait(self) -> Tally {
        Tally { pending: true, ..self }
    }
}

/// After a trusted statement: it counts as holding where it is an expression.
pub open spec fn after_axiom(t: Tally, c: Case) -> Tally {
    if c.contract_type != ContractType::Axiom {
        t
    } else if c.parsed {
        t.verify()
    } else {
        t.fail("Axiom"@, "Axiom condition could not be parsed"@, c.derived)
    }
}

/// After a precondition: it is what callers provide, and counts as holding where it is an
/// expression.
pub open spec fn after_requires(t: Tally, c: Case) -> Tally {
    if c.contract_type != ContractType::Requires {
        t
    } else if chars::trimmed(c.condition).len() == 0 {
        t.fail("Requires"@, "Empty contract condition"@, c.derived)
    } else if c.parsed {
        t.verify()
    } else {
        t.fail(
            "Requires"@,
            "Cannot verify: contract condition could not be parsed as expression"@,
            c.derived,
        )
    }
}

/// What the solver said of a contract: that it holds, and whether the body was used, or why it does
/// not.
pub type Report = Result<bool, String>;

/// What the solver said of a contract, as a mathematical value.
pub open spec fn report_view(r: Report) -> Result<bool, Seq<char>> {
    match r {
        Ok(b) => Ok(b),
        Err(m) => Err(m@),
    }
}

/// After a postcondition that says that two results are equal.
pub open spec fn after_determinism(
    t: Tally,
    c: Case,
    signed: bool,
    report: Option<Result<bool, Seq<char>>>,
) -> Tally {
    match report {
        None => t.fail(
            "Ensures"@,
            "Z3 required for determinism verification. Build blvm-spec-lock with --features z3."@,
            c.derived,
        ),
        Some(answer) => if !signed {
            t.wait().fail("Ensures"@, "Determinism requires function signature"@, c.derived)
        } else {
            match answer {
                Ok(_) => t.wait().verify(),
                Err(e) => if text::holds(e, "Could not translate body"@) {
                    if c.derived {
                        t.wait().verify()
                    } else {
                        Tally {
                            gap: if t.gap is Some {
                                t.gap
                            } else {
                                Some(e)
                            },
                            ..t.wait()
                        }
                    }
                } else {
                    t.wait().fail("Ensures"@, "Determinism: "@ + e, c.derived)
                },
            }
        },
    }
}

/// After a postcondition that the solver is asked.
pub open spec fn after_question(t: Tally, c: Case, report: Option<Result<bool, Seq<char>>>) -> Tally {
    match report {
        None => t.wait().fail(
            "Ensures"@,
            "Z3 required but not built. Build blvm-spec-lock with --features z3."@,
            c.derived,
        ),
        Some(Err(e)) => t.wait().fail("Ensures"@, "Z3: "@ + e, c.derived),
        Some(Ok(b)) => Tally { body: t.body || b, ..t.wait().verify() },
    }
}

/// After a postcondition.
pub open spec fn after_ensures(
    t: Tally,
    c: Case,
    signed: bool,
    report: Option<Result<bool, Seq<char>>>,
) -> Tally {
    if c.contract_type != ContractType::Ensures {
        t
    } else if chars::trimmed(c.condition).len() == 0 {
        t.fail("Ensures"@, "Empty contract condition"@, c.derived)
    } else if condition::result_equality(c.condition) {
        after_determinism(t, c, signed, report)
    } else if !c.parsed {
        t.wait().fail(
            "Ensures"@,
            "Cannot verify: contract condition could not be parsed"@,
            c.derived,
        )
    } else if c.settled {
        t.verify()
    } else {
        after_question(t, c, report)
    }
}

/// After the trusted statements among the first `n` contracts.
pub open spec fn axioms_done(cases: Seq<Case>, n: int) -> Tally
    decreases n,
{
    if n <= 0 || n > cases.len() {
        Tally::empty()
    } else {
        after_axiom(axioms_done(cases, n - 1), cases[n - 1])
    }
}

/// After all trusted statements and the preconditions among the first `n` contracts.
pub open spec fn requires_done(cases: Seq<Case>, n: int) -> Tally
    decreases n,
{
    if n <= 0 || n > cases.len() {
        axioms_done(cases, cases.len() as int)
    } else {
        after_requires(requires_done(cases, n - 1), cases[n - 1])
    }
}

/// What the solver said of the contract `i`, where the solver is there.
pub open spec fn report_at(reports: Option<Seq<Report>>, i: int) -> Option<Result<bool, Seq<char>>> {
    match reports {
        Some(v) => Some(report_view(v[i])),
        None => None,
    }
}

/// After all trusted statements and preconditions and the postconditions among the first `n`
/// contracts.
pub open spec fn ensures_done(
    cases: Seq<Case>,
    n: int,
    signed: bool,
    reports: Option<Seq<Report>>,
) -> Tally
    decreases n,
{
    if n <= 0 || n > cases.len() {
        requires_done(cases, cases.len() as int)
    } else {
        after_ensures(
            ensures_done(cases, n - 1, signed, reports),
            cases[n - 1],
            signed,
            report_at(reports, n - 1),
        )
    }
}

/// What contracts come to of which some failed.
pub open spec fn refused(t: Tally, total: nat) -> Outcome {
    match demoted(t.failed, t.verified, total) {
        Some(o) => o,
        None => failed(t.failed[0].contract, t.failed[0].reason, t.failed.len()),
    }
}

/// What contracts come to of which none failed.
pub open spec fn concluded(t: Tally, total: nat, built: bool) -> Outcome {
    if t.verified == total || !t.pending {
        Outcome::Passed { body_translated: t.body }
    } else {
        Outcome::Partial {
            verified: t.verified,
            total,
            reason: Some(
                "Z3 verification required but unavailable or incomplete ("@ + text::decimal(
                    t.verified,
                ) + " of "@ + text::decimal(total) + " verified). "@ + (match t.gap {
                    Some(e) => e,
                    None => "Build with --features z3 for full verification."@,
                }),
            ),
            partial_reason: Some(
                if !built {
                    PartialReason::MissingZ3Build
                } else if t.gap is Some {
                    PartialReason::UnsupportedTranslation
                } else {
                    PartialReason::IncompleteCoverage
                },
            ),
        }
    }
}

/// What the verification of contracts gives: trusted statements and preconditions first, then, where
/// none of these failed, the postconditions.
pub open spec fn cases_outcome(
    cases: Seq<Case>,
    signed: bool,
    reports: Option<Seq<Report>>,
) -> Outcome {
    let n = cases.len();
    let before = requires_done(cases, n as int);
    let after = ensures_done(cases, n as int, signed, reports);
    if before.failed.len() > 0 {
        refused(before, n)
    } else if after.failed.len() > 0 {
        refused(after, n)
    } else {
        concluded(after, n, reports is Some)
    }
}

/// What the verification of a function gives.
pub open spec fn function_outcome(f: FunctionToVerify, reports: Option<Seq<Report>>) -> Outcome {
    let cases = function_cases(f);
    if cases.len() == 0 {
        Outcome::NoContracts {
            section: match f.section {
                Some(s) => s@,
                None => "?"@,
            },
        }
    } else {
        cases_outcome(cases, f.function_sig is Some, reports)
    }
}

/// The running account of a verification.
struct Account {
    verified: usize,
    failed: Vec<(String, String, bool)>,
    pending: bool,
    gap: Option<String>,
    body: bool,
}

impl View for Account {
    type V = Tally;

    closed spec fn view(&self) -> Tally {
        Tally {
            verified: self.verified as nat,
            failed: failure_views(self.failed@),
            pending: self.pending,
            gap: patterns::group_view(self.gap),
            body: self.body,
        }
    }
}

impl Account {
    fn new() -> (r: Account)
        ensures
            r@ == Tally::empty(),
    {
        let r = Account {
            verified: 0,
            failed: Vec::new(),
            pending: false,
            gap: None,
            body: false,
        };
        proof {
            assert(failure_views(r.failed@) =~= seq![]);
        }
        r
    }

    fn verify(&mut self)
        requires
            old(self).verified < usize::MAX,
        ensures
            final(self)@ == old(self)@.verify(),
    {
        self.verified += 1;
    }

    fn fail(&mut self, contract: &str, reason: &str, derived: bool)
        ensures
            final(self)@ == old(self)@.fail(contract@, reason@, derived),
    {
        let ghost had = self.failed@;
        self.failed.push((contract.to_owned(), reason.to_owned(), derived));
        proof {
            assert(failure_views(self.failed@) =~= failure_views(had).push(
                Failure { contract: contract@, reason: reason@, derived },
            ));
        }
    }

    fn wait(&mut self)
        ensures
            final(self)@ == old(self)@.wait(),
    {
        self.pending = true;
    }

    fn trusted(&mut self, c: &Contract, Ghost(sig): Ghost<Option<Rc<FnItem>>>)
        requires
            old(self).verified < usize::MAX,
        ensures
            final(self)@ == after_axiom(old(self)@, case_of(*c, sig)),
    {
        if c.contract_type == ContractType::Axiom {
            if c.expr.is_some() {
                self.verify();
            } else {
                self.fail("Axiom", "Axiom condition could not be parsed", c.is_spec_derived);
            }
        }
    }

    fn precondition(&mut self, c: &Contract, Ghost(sig): Ghost<Option<Rc<FnItem>>>)
        requires
            c.contract_type == ContractType::Requires ==> old(self).verified < usize::MAX,
        ensures
            final(self)@ == after_requires(old(self)@, case_of(*c, sig)),
    {
        if c.contract_type == ContractType::Requires {
            if is_blank(c.condition.as_str()) {
                self.fail("Requires", "Empty contract condition", c.is_spec_derived);
            } else if c.expr.is_some() {
                self.verify();
            } else {
                self.fail(
                    "Requires",
                    "Cannot verify: contract condition could not be parsed as expression",
                    c.is_spec_derived,
                );
            }
        }
    }

    fn determinism(&mut self, derived: bool, signed: bool, report: Option<&Report>, Ghost(c): Ghost<Case>)
        requires
            old(self).verified < usize::MAX,
            c.derived == derived,
        ensures
            final(self)@ == after_determinism(
                old(self)@,
                c,
                signed,
                match report {
                    Some(r) => Some(report_view(*r)),
                    None => None,
                },
            ),
    {
        match report {
            None => {
                self.fail(
                    "Ensures",
                    "Z3 required for determinism verification. Build blvm-spec-lock with --features z3.",
                    derived,
                );
            },
            Some(answer) => {
                self.wait();
                if !signed {
                    self.fail("Ensures", "Determinism requires function signature", derived);
                    return;
                }
                match answer {
                    Ok(_) => {
                        self.verify();
                    },
                    Err(e) => {
                        if contains(e.as_str(), "Could not translate body") {
                            if derived {
                                self.verify();
                            } else if self.gap.is_none() {
                                self.gap = Some(e.as_str().to_owned());
                            }
                        } else {
                            let reason = cat("Determinism: ", e.as_str());
                            self.fail("Ensures", reason.as_str(), derived);
                        }
                    },
                }
            },
        }
    }

    fn question(&mut self, derived: bool, report: Option<&Report>, Ghost(c): Ghost<Case>)
        requires
            old(self).verified < usize::MAX,
            c.derived == derived,
        ensures
            final(self)@ == after_question(
                old(self)@,
                c,
                match report {
                    Some(r) => Some(report_view(*r)),
                    None => None,
                },
            ),
    {
        self.wait();
        match report {
            None => {
                self.fail(
                    "Ensures",
                    "Z3 required but not built. Build blvm-spec-lock with --features z3.",
                    derived,
                );
            },
            Some(Err(e)) => {
                let reason = cat("Z3: ", e.as_str());
                self.fail("Ensures", reason.as_str(), derived);
            },
            Some(Ok(b)) => {
                self.verify();
                if *b {
                    self.body = true;
                }
            },
        }
    }

    fn postcondition(&mut self, c: &Contract, sig: &Option<Rc<FnItem>>, report: Option<&Report>)
        requires
            c.contract_type == ContractType::Ensures ==> old(self).verified < usize::MAX,
        ensures
            final(self)@ == after_ensures(
                old(self)@,
                case_of(*c, *sig),
                sig is Some,
                match report {
                    Some(r) => Some(report_view(*r)),
                    None => None,
                },
            ),
    {
        if c.contract_type != ContractType::Ensures {
            return;
        }
        let derived = c.is_spec_derived;
        let ghost case = case_of(*c, *sig);
        if is_blank(c.condition.as_str()) {
            self.fail("Ensures", "Empty contract condition", derived);
        } else if is_result_equality(c.condition.as_str()) {
            self.determinism(derived, sig.is_some(), report, Ghost(case));
        } else if c.expr.is_none() {
            self.wait();
            self.fail("Ensures", "Cannot verify: contract condition could not be parsed", derived);
        } else if is_settled(c, sig) {
            self.verify();
        } else {
            self.question(derived, report, Ghost(case));
        }
    }

    fn refuse(&self, total: usize) -> (r: VerificationResult)
        requires
            self@.failed.len() > 0,
        ensures
            r@ == refused(self@, total as nat),
    {
        proof {
            assert(failure_views(self.failed@)[0].contract == self.failed@[0].0@);
            assert(failure_views(self.failed@)[0].reason == self.failed@[0].1@);
        }
        match demote_if_all_spec_derived(&self.failed, self.verified, total) {
            Some(r) => r,
            None => failed_verification(
                self.failed[0].0.as_str(),
                self.failed[0].1.as_str(),
                self.failed.len(),
            ),
        }
    }

    fn conclude(&self, total: usize, built: bool) -> (r: VerificationResult)
        ensures
            r@ == concluded(self@, total as nat, built),
    {
        if self.verified == total || !self.pending {
            return VerificationResult::Passed { body_translated: self.body };
        }
        let v = count_text(self.verified);
        let n = count_text(total);
        let front = cat3(
            "Z3 verification required but unavailable or incomplete (",
            v.as_str(),
            " of ",
        );
        let middle = cat3(front.as_str(), n.as_str(), " verified). ");
        let reason = match &self.gap {
            Some(e) => cat(middle.as_str(), e.as_str()),
            None => cat(middle.as_str(), "Build with --features z3 for full verification."),
        };
        VerificationResult::Partial {
            verified: self.verified,
            total,
            reason: Some(reason),
            partial_reason: Some(
                if !built {
                    PartialReason::MissingZ3Build
                } else if self.gap.is_some() {
                    PartialReason::UnsupportedTranslation
                } else {
                    PartialReason::IncompleteCoverage
                },
            ),
        }
    }
}

proof fn lemma_verified_bound(cases: Seq<Case>, n: int, signed: bool, reports: Option<Seq<Report>>)
    requires
        0 <= n <= cases.len(),
    ensures
        axioms_done(cases, n).verified <= of_kind(cases, n, ContractType::Axiom),
        requires_done(cases, n).verified <= of_kind(
            cases,
            cases.len() as int,
            ContractType::Axiom,
        ) + of_kind(cases, n, ContractType::Requires),
        ensures_done(cases, n, signed, reports).verified <= of_kind(
            cases,
            cases.len() as int,
            ContractType::Axiom,
        ) + of_kind(cases, cases.len() as int, ContractType::Requires) + of_kind(
            cases,
            n,
            ContractType::Ensures,
        ),
    decreases cases.len(), n,
{
    if n > 0 {
        lemma_verified_bound(cases, n - 1, signed, reports);
    } else if cases.len() > 0 {
        lemma_axioms_bound(cases, cases.len() as int);
        lemma_requires_bound(cases, cases.len() as int);
    }
}

proof fn lemma_axioms_bound(cases: Seq<Case>, n: int)
    requires
        0 <= n <= cases.len(),
    ensures
        axioms_done(cases, n).verified <= of_kind(cases, n, ContractType::Axiom),
    decreases n,
{
    if n > 0 {
        lemma_axioms_bound(cases, n - 1);
    }
}

proof fn lemma_requires_bound(cases: Seq<Case>, n: int)
    requires
        0 <= n <= cases.len(),
    ensures
        requires_done(cases, n).verified <= of_kind(
            cases,
            cases.len() as int,
            ContractType::Axiom,
        ) + of_kind(cases, n, ContractType::Requires),
    decreases n,
{
    if n > 0 {
        lemma_requires_bound(cases, n - 1);
    } else {
        lemma_axioms_bound(cases, cases.len() as int);
    }
}

/// How many of the first `n` contracts are of a kind.
pub open spec fn of_kind(cases: Seq<Case>, n: int, k: ContractType) -> nat
    decreases n,
{
    if n <= 0 || n > cases.len() {
        0
    } else {
        of_kind(cases, n - 1, k) + if cases[n - 1].contract_type == k {
            1nat
        } else {
            0nat
        }
    }
}

proof fn lemma_kinds_add_up(cases: Seq<Case>, n: int)
    requires
        0 <= n <= cases.len(),
    ensures
        of_kind(cases, n, ContractType::Axiom) + of_kind(cases, n, ContractType::Requires) + of_kind(
            cases,
            n,
            ContractType::Ensures,
        ) == n,
    decreases n,
{
    if n > 0 {
        lemma_kinds_add_up(cases, n - 1);
    }
}

/// Verifies a function by what the solver said of each of its obligations. `reports` is absent where
/// the solver is not there; what it holds at an obligation that nothing is asked on does not matter.
#[verifier::loop_isolation(false)]
pub fn verify_function(f: &FunctionToVerify, reports: Option<&Vec<Report>>) -> (r: VerificationResult)
    requires
        reports matches Some(v) ==> v@.len() == function_cases(*f).len(),
    ensures
        r@ == function_outcome(
            *f,
            match reports {
                Some(v) => Some(v@),
                None => None,
            },
        ),
{
    let contracts = obligations(f);
    let ghost cases = function_cases(*f);
    let ghost signed = f.function_sig is Some;
    let ghost said = match reports {
        Some(v) => Some(v@),
        None => None,
    };
    let n: usize = contracts.len();
    proof {
        assert(cases_of(contracts@, f.function_sig).len() == contracts@.len());
    }
    if n == 0 {
        let section = match &f.section {
            Some(s) => s.as_str().to_owned(),
            None => "?".to_owned(),
        };
        return VerificationResult::NoContracts { section };
    }
    let mut account = Account::new();
    let mut i: usize = 0;
    while i < n
        invariant
            i <= n,
            account@ == axioms_done(cases, i as int),
        decreases n - i,
    {
        proof {
            lemma_axioms_bound(cases, i as int);
            lemma_kinds_add_up(cases, i as int);
            assert(cases[i as int] == case_of(contracts@[i as int], f.function_sig));
        }
        account.trusted(&contracts[i], Ghost(f.function_sig));
        i += 1;
    }
    let mut i: usize = 0;
    while i < n
        invariant
            i <= n,
            account@ == requires_done(cases, i as int),
        decreases n - i,
    {
        proof {
            lemma_requires_bound(cases, i as int);
            lemma_kinds_add_up(cases, cases.len() as int);
            lemma_kind_grows(cases, i as int, cases.len() as int, ContractType::Requires);
            assert(cases[i as int] == case_of(contracts@[i as int], f.function_sig));
        }
        account.precondition(&contracts[i], Ghost(f.function_sig));
        i += 1;
    }
    if account.failed.len() > 0 {
        return account.refuse(n);
    }
    let mut i: usize = 0;
    while i < n
        invariant
            i <= n,
            account@ == ensures_done(cases, i as int, signed, said),
        decreases n - i,
    {
        proof {
            lemma_verified_bound(cases, i as int, signed, said);
            lemma_kinds_add_up(cases, cases.len() as int);
            lemma_kind_grows(cases, i as int, cases.len() as int, ContractType::Ensures);
            assert(cases[i as int] == case_of(contracts@[i as int], f.function_sig));
        }
        let report: Option<&Report> = match reports {
            Some(v) => Some(&v[i]),
            None => None,
        };
        account.postcondition(&contracts[i], &f.function_sig, report);
        i += 1;
    }
    if account.failed.len() > 0 {
        return account.refuse(n);
    }
    account.conclude(n, reports.is_some())
}

proof fn lemma_kind_grows(cases: Seq<Case>, a: int, b: int, k: ContractType)
    requires
        0 <= a <= b <= cases.len(),
    ensures
        of_kind(cases, a, k) <= of_kind(cases, b, k),
        a < b && cases[a].contract_type == k ==> of_kind(cases, a, k) < of_kind(cases, b, k),
    decreases b - a,
{
    if a < b {
        lemma_kind_grows(cases, a + 1, b, k);
    }
}

proof fn lemma_accounted(cases: Seq<Case>, n: int, signed: bool, reports: Option<Seq<Report>>)
    requires
        0 <= n <= cases.len(),
    ensures
        ({
            let t = ensures_done(cases, n, signed, reports);
            let seen = of_kind(cases, cases.len() as int, ContractType::Axiom) + of_kind(
                cases,
                cases.len() as int,
                ContractType::Requires,
            ) + of_kind(cases, n, ContractType::Ensures);
            &&& t.verified + t.failed.len() <= seen
            &&& t.gap is None ==> t.verified + t.failed.len() == seen
            &&& t.gap is Some ==> t.pending
            &&& t.gap is Some ==> t.verified + t.failed.len() < seen
        }),
    decreases n,
{
    if n > 0 {
        lemma_accounted(cases, n - 1, signed, reports);
    } else {
        lemma_requires_accounted(cases, cases.len() as int);
    }
}

proof fn lemma_axioms_accounted(cases: Seq<Case>, n: int)
    requires
        0 <= n <= cases.len(),
    ensures
        ({
            let t = axioms_done(cases, n);
            t.verified + t.failed.len() == of_kind(cases, n, ContractType::Axiom) && t.gap is None
        }),
    decreases n,
{
    if n > 0 {
        lemma_axioms_accounted(cases, n - 1);
    }
}

proof fn lemma_requires_accounted(cases: Seq<Case>, n: int)
    requires
        0 <= n <= cases.len(),
    ensures
        ({
            let t = requires_done(cases, n);
            t.verified + t.failed.len() == of_kind(
                cases,
                cases.len() as int,
                ContractType::Axiom,
            ) + of_kind(cases, n, ContractType::Requires) && t.gap is None
        }),
    decreases n,
{
    if n > 0 {
        lemma_requires_accounted(cases, n - 1);
    } else {
        lemma_axioms_accounted(cases, cases.len() as int);
    }
}

proof fn lemma_failures_stay(cases: Seq<Case>, n: int, signed: bool, reports: Option<Seq<Report>>)
    requires
        0 <= n <= cases.len(),
    ensures
        requires_done(cases, cases.len() as int).failed.len() <= ensures_done(
            cases,
            n,
            signed,
            reports,
        ).failed.len(),
    decreases n,
{
    if n > 0 {
        lemma_failures_stay(cases, n - 1, signed, reports);
    }
}

/// A function passes exactly where every one of its contracts holds.
pub proof fn law_passed_means_all_hold(
    cases: Seq<Case>,
    signed: bool,
    reports: Option<Seq<Report>>,
)
    ensures
        cases_outcome(cases, signed, reports) is Passed <==> ensures_done(
            cases,
            cases.len() as int,
            signed,
            reports,
        ).verified == cases.len(),
{
    let n = cases.len() as int;
    lemma_accounted(cases, n, signed, reports);
    lemma_requires_accounted(cases, n);
    lemma_kinds_add_up(cases, n);
    lemma_failures_stay(cases, n, signed, reports);
}

/// Whether a contract is upheld: a trusted statement or a precondition that can be read, and a
/// postcondition that is true of itself or that the solver confirms. That two runs agree is for the
/// solver alone; on a contract from the specification it is let pass where the body has no translation.
pub open spec fn upheld(c: Case, signed: bool, report: Option<Result<bool, Seq<char>>>) -> bool {
    match c.contract_type {
        ContractType::Axiom => c.parsed,
        ContractType::Requires => c.parsed && chars::trimmed(c.condition).len() > 0,
        ContractType::Ensures => {
            &&& chars::trimmed(c.condition).len() > 0
            &&& if condition::result_equality(c.condition) {
                signed && (report matches Some(Ok(_)) || (c.derived && (report matches Some(Err(e))
                    && text::holds(e, "Could not translate body"@))))
            } else {
                c.parsed && (c.settled || report matches Some(Ok(_)))
            }
        },
    }
}

/// Whether the solver confirms a contract by the body of the function.
pub open spec fn confirmed_by_body(c: Case, report: Option<Result<bool, Seq<char>>>) -> bool {
    &&& c.contract_type == ContractType::Ensures
    &&& !condition::result_equality(c.condition)
    &&& c.parsed
    &&& !c.settled
    &&& report == Some(Ok::<bool, Seq<char>>(true))
    &&& chars::trimmed(c.condition).len() > 0
}

spec fn upheld_of_kind(
    cases: Seq<Case>,
    n: int,
    k: ContractType,
    signed: bool,
    reports: Option<Seq<Report>>,
) -> nat
    decreases n,
{
    if n <= 0 || n > cases.len() {
        0
    } else {
        upheld_of_kind(cases, n - 1, k, signed, reports) + if cases[n - 1].contract_type == k && upheld(
            cases[n - 1],
            signed,
            report_at(reports, n - 1),
        ) {
            1nat
        } else {
            0nat
        }
    }
}

proof fn lemma_axioms_upheld(cases: Seq<Case>, n: int, signed: bool, reports: Option<Seq<Report>>)
    requires
        0 <= n <= cases.len(),
    ensures
        axioms_done(cases, n).verified == upheld_of_kind(cases, n, ContractType::Axiom, signed, reports),
        !axioms_done(cases, n).body,
    decreases n,
{
    if n > 0 {
        lemma_axioms_upheld(cases, n - 1, signed, reports);
    }
}

proof fn lemma_requires_upheld(cases: Seq<Case>, n: int, signed: bool, reports: Option<Seq<Report>>)
    requires
        0 <= n <= cases.len(),
    ensures
        requires_done(cases, n).verified == upheld_of_kind(
            cases,
            cases.len() as int,
            ContractType::Axiom,
            signed,
            reports,
        ) + upheld_of_kind(cases, n, ContractType::Requires, signed, reports),
        !requires_done(cases, n).body,
    decreases n,
{
    if n > 0 {
        lemma_requires_upheld(cases, n - 1, signed, reports);
    } else {
        lemma_axioms_upheld(cases, cases.len() as int, signed, reports);
    }
}

proof fn lemma_ensures_upheld(cases: Seq<Case>, n: int, signed: bool, reports: Option<Seq<Report>>)
    requires
        0 <= n <= cases.len(),
    ensures
        ensures_done(cases, n, signed, reports).verified == upheld_of_kind(
            cases,
            cases.len() as int,
            ContractType::Axiom,
            signed,
            reports,
        ) + upheld_of_kind(cases, cases.len() as int, ContractType::Requires, signed, reports)
            + upheld_of_kind(cases, n, ContractType::Ensures, signed, reports),
        ensures_done(cases, n, signed, reports).body <==> exists|i: int|
            0 <= i < n && confirmed_by_body(#[trigger] cases[i], report_at(reports, i)),
    decreases n,
{
    if n > 0 {
        lemma_ensures_upheld(cases, n - 1, signed, reports);
        let before = ensures_done(cases, n - 1, signed, reports).body;
        if before {
            let i = choose|i: int|
                0 <= i < n - 1 && confirmed_by_body(#[trigger] cases[i], report_at(reports, i));
            assert(confirmed_by_body(cases[i], report_at(reports, i)));
        }
        if confirmed_by_body(cases[n - 1], report_at(reports, n - 1)) {
            assert(ensures_done(cases, n, signed, reports).body);
        }
        if ensures_done(cases, n, signed, reports).body && !before {
            assert(confirmed_by_body(cases[n - 1], report_at(reports, n - 1)));
        }
    } else {
        lemma_requires_upheld(cases, cases.len() as int, signed, reports);
    }
}

proof fn lemma_all_of_kind_upheld(
    cases: Seq<Case>,
    n: int,
    k: ContractType,
    signed: bool,
    reports: Option<Seq<Report>>,
)
    requires
        0 <= n <= cases.len(),
    ensures
        upheld_of_kind(cases, n, k, signed, reports) <= of_kind(cases, n, k),
        upheld_of_kind(cases, n, k, signed, reports) == of_kind(cases, n, k) <==> forall|i: int|
            0 <= i < n && (#[trigger] cases[i]).contract_type == k ==> upheld(
                cases[i],
                signed,
                report_at(reports, i),
            ),
    decreases n,
{
    if n > 0 {
        lemma_all_of_kind_upheld(cases, n - 1, k, signed, reports);
    }
}

/// A function passes exactly where each of its contracts is upheld, and it passes by its body exactly
/// where the solver confirms one of them by the body.
pub proof fn law_passed_means_each_is_upheld(
    cases: Seq<Case>,
    signed: bool,
    reports: Option<Seq<Report>>,
)
    ensures
        cases_outcome(cases, signed, reports) is Passed <==> forall|i: int|
            0 <= i < cases.len() ==> upheld(#[trigger] cases[i], signed, report_at(reports, i)),
        cases_outcome(cases, signed, reports) matches Outcome::Passed { body_translated } ==> (
        body_translated <==> exists|i: int|
            0 <= i < cases.len() && confirmed_by_body(#[trigger] cases[i], report_at(reports, i))),
{
    let n = cases.len() as int;
    law_passed_means_all_hold(cases, signed, reports);
    lemma_ensures_upheld(cases, n, signed, reports);
    lemma_kinds_add_up(cases, n);
    lemma_all_of_kind_upheld(cases, n, ContractType::Axiom, signed, reports);
    lemma_all_of_kind_upheld(cases, n, ContractType::Requires, signed, reports);
    lemma_all_of_kind_upheld(cases, n, ContractType::Ensures, signed, reports);
}

/// Without the solver a function passes only where each of its contracts holds without it: trusted
/// statements and preconditions that are expressions, and postconditions that are settled.
pub proof fn law_passed_without_solver(cases: Seq<Case>, signed: bool, i: int)
    requires
        cases_outcome(cases, signed, None) is Passed,
        0 <= i < cases.len(),
    ensures
        cases[i].parsed,
        cases[i].contract_type == ContractType::Ensures ==> cases[i].settled,
{
    let n = cases.len() as int;
    lemma_accounted(cases, n, signed, None);
    lemma_failures_stay(cases, n, signed, None);
    lemma_no_failure_before(cases, n, signed, i);
    lemma_no_requires_failure(cases, n, i);
    lemma_no_trusted_failure(cases, n, i);
}

proof fn lemma_no_failure_before(cases: Seq<Case>, n: int, signed: bool, i: int)
    requires
        0 <= i < cases.len(),
        0 <= n <= cases.len(),
        ensures_done(cases, n, signed, None).failed.len() == 0,
    ensures
        requires_done(cases, cases.len() as int).failed.len() == 0,
        i < n && cases[i].contract_type == ContractType::Ensures ==> cases[i].parsed
            && cases[i].settled,
    decreases n,
{
    if n > 0 {
        lemma_no_failure_before(cases, n - 1, signed, i);
    }
}

proof fn lemma_no_requires_failure(cases: Seq<Case>, n: int, i: int)
    requires
        0 <= i < cases.len(),
        0 <= n <= cases.len(),
        requires_done(cases, n).failed.len() == 0,
    ensures
        axioms_done(cases, cases.len() as int).failed.len() == 0,
        i < n && cases[i].contract_type == ContractType::Requires ==> cases[i].parsed,
    decreases n,
{
    if n > 0 {
        lemma_no_requires_failure(cases, n - 1, i);
    }
}

proof fn lemma_no_trusted_failure(cases: Seq<Case>, n: int, i: int)
    requires
        0 <= i < cases.len(),
        0 <= n <= cases.len(),
        axioms_done(cases, n).failed.len() == 0,
    ensures
        i < n && cases[i].contract_type == ContractType::Axiom ==> cases[i].parsed,
    decreases n,
{
    if n > 0 {
        lemma_no_trusted_failure(cases, n - 1, i);
    }
}

// ---------------------------------------------------------------------------
// The solver
// ---------------------------------------------------------------------------
/// The time in milliseconds that the solver has: what is asked for in seconds, or a default.
pub fn solver_timeout(timeout_secs: u64, default_ms: u64) -> (r: u64)
    requires
        timeout_secs * 1000 <= u64::MAX,
    ensures
        r == if timeout_secs > 0 {
            timeout_secs * 1000
        } else {
            default_ms as int
        },
{
    if timeout_secs > 0 {
        timeout_secs * 1000
    } else {
        default_ms
    }
}

/// The conditions of a kind among the first `n` contracts, where they are expressions.
pub open spec fn conditions_of(v: Seq<Contract>, n: int, k: ContractType) -> Seq<
    (ContractType, Rc<Expr>),
>
    decreases n,
{
    if n <= 0 || n > v.len() {
        seq![]
    } else {
        match v[n - 1].expr {
            Some(e) => if v[n - 1].contract_type == k {
                conditions_of(v, n - 1, k).push((ContractType::Requires, e))
            } else {
                conditions_of(v, n - 1, k)
            },
            None => conditions_of(v, n - 1, k),
        }
    }
}

fn add_conditions(v: &Vec<Contract>, k: ContractType, out: &mut Vec<contracts::Contract>)
    ensures
        contracts::contract_views(final(out)@) == contracts::contract_views(old(out)@)
            + conditions_of(v@, v@.len() as int, k),
{
    let ghost had = contracts::contract_views(out@);
    let mut i: usize = 0;
    proof {
        assert(had + Seq::<(ContractType, Rc<Expr>)>::empty() =~= had);
    }
    while i < v.len()
        invariant
            i <= v.len(),
            contracts::contract_views(out@) == had + conditions_of(v@, i as int, k),
        decreases v.len() - i,
    {
        if v[i].contract_type == k {
            if let Some(e) = &v[i].expr {
                let ghost now = out@;
                out.push(
                    contracts::Contract {
                        contract_type: ContractType::Requires,
                        condition: e.clone(),
                        comment: None,
                    },
                );
                proof {
                    assert(contracts::contract_views(out@) =~= contracts::contract_views(now).push(
                        (ContractType::Requires, *e),
                    ));
                    assert(had + conditions_of(v@, i + 1, k) =~= (had + conditions_of(
                        v@,
                        i as int,
                        k,
                    )).push((ContractType::Requires, *e)));
                }
            }
        }
        i += 1;
    }
}

/// What the solver is told when it is asked on a postcondition: the preconditions, and behind them
/// the trusted statements.
pub fn assumptions(v: &Vec<Contract>) -> (r: Vec<contracts::Contract>)
    ensures
        contracts::contract_views(r@) == conditions_of(v@, v@.len() as int, ContractType::Requires)
            + conditions_of(v@, v@.len() as int, ContractType::Axiom),
{
    let mut out = preconditions(v);
    add_conditions(v, ContractType::Axiom, &mut out);
    out
}

/// What the solver is told when it is asked whether two runs agree: the preconditions.
pub fn preconditions(v: &Vec<Contract>) -> (r: Vec<contracts::Contract>)
    ensures
        contracts::contract_views(r@) == conditions_of(v@, v@.len() as int, ContractType::Requires),
{
    let mut out: Vec<contracts::Contract> = Vec::new();
    add_conditions(v, ContractType::Requires, &mut out);
    proof {
        let empty = Seq::<contracts::Contract>::empty();
        assert(contracts::contract_views(empty) =~= seq![]);
        let all = conditions_of(v@, v@.len() as int, ContractType::Requires);
        assert(Seq::<(ContractType, Rc<Expr>)>::empty() + all =~= all);
    }
    out
}

/// Whether `f` is what the solver can be told of the proven postcondition `p` of a callee: its
/// condition, with the constant for the value of the call in place of the word `result`, where that
/// can be read.
pub open spec fn is_fact_of(f: CalleeFact, p: CalleePostcond) -> bool {
    let s = z3_verifier::substituted(p.condition@, z3_verifier::call_result(p.function_name@));
    f.function_name@ == p.function_name@ && match f.condition {
        Some(e) => expression_read(s) == Some(expr_view(*e)),
        None => expression_read(s) is None,
    }
}

/// Whether facts are what the solver can be told of proven postconditions of callees, one by one.
pub open spec fn are_facts_of(fs: Seq<CalleeFact>, ps: Seq<CalleePostcond>) -> bool {
    fs.len() == ps.len() && forall|i: int| 0 <= i < fs.len() ==> is_fact_of(#[trigger] fs[i], ps[i])
}

/// What the solver can be told of a proven postcondition of a callee.
pub fn callee_fact(p: &CalleePostcond) -> (r: CalleeFact)
    ensures
        is_fact_of(r, *p),
{
    let name = call_result_name(p.function_name.as_str());
    let s = substitute_result_ident(p.condition.as_str(), name.as_str());
    CalleeFact {
        function_name: p.function_name.as_str().to_owned(),
        condition: read_expression(s.as_str()),
    }
}

/// What the solver can be told of proven postconditions of callees.
pub fn callee_facts(ps: &Vec<CalleePostcond>) -> (r: Vec<CalleeFact>)
    ensures
        are_facts_of(r@, ps@),
{
    let mut out: Vec<CalleeFact> = Vec::new();
    let mut i: usize = 0;
    while i < ps.len()
        invariant
            i <= ps@.len(),
            out@.len() == i,
            forall|k: int| 0 <= k < i ==> is_fact_of(#[trigger] out@[k], ps@[k]),
        decreases ps@.len() - i,
    {
        out.push(callee_fact(&ps[i]));
        i += 1;
    }
    out
}

/// A function, where it is there.
pub open spec fn item_of<'a>(sig: &'a Option<Rc<FnItem>>) -> Option<&'a FnItem> {
    match sig {
        Some(f) => Some(&*f),
        None => None,
    }
}

/// Whether `q` is the question on the condition `e`, or what is reported where it cannot be put: the
/// contracts `given` are taken for granted, and so are the facts on callees.
pub open spec fn is_question_on(
    q: Result<ContractQuery, Report>,
    e: Rc<Expr>,
    sig: &Option<Rc<FnItem>>,
    given: Seq<contracts::Contract>,
    facts: Seq<CalleeFact>,
) -> bool {
    let asked = contracts::Contract {
        contract_type: ContractType::Ensures,
        condition: e,
        comment: None,
    };
    match (q, z3_verifier::question(asked, item_of(sig), given, facts)) {
        (Ok(q), Ok(v)) => q@ == v,
        (Err(report), Err(m)) => report_view(report) == Err::<bool, Seq<char>>(
            "Z3 verification error: "@ + m,
        ),
        _ => false,
    }
}

/// The question on the contract `c` among the contracts of a function, or what is reported where it
/// cannot be put. Preconditions and trusted statements among the contracts are taken for granted, and
/// so are the proven postconditions of callees.
pub fn contract_question(
    c: &Contract,
    sig: &Option<Rc<FnItem>>,
    all: &Vec<Contract>,
    callees: &Vec<CalleePostcond>,
    timeout_ms: u64,
) -> (r: Result<ContractQuery, Report>)
    ensures
        match c.expr {
            None => r matches Err(report) && report_view(report) == Err::<bool, Seq<char>>(
                "Cannot verify: missing parsed expression"@,
            ),
            Some(e) => exists|given: Seq<contracts::Contract>, facts: Seq<CalleeFact>|
                {
                    &&& contracts::contract_views(given) == conditions_of(
                        all@,
                        all@.len() as int,
                        ContractType::Requires,
                    ) + conditions_of(all@, all@.len() as int, ContractType::Axiom)
                    &&& are_facts_of(facts, callees@)
                    &&& #[trigger] is_question_on(r, e, sig, given, facts)
                },
        },
{
    let condition = match &c.expr {
        Some(e) => e.clone(),
        None => {
            return Err(Err("Cannot verify: missing parsed expression".to_owned()));
        },
    };
    let contract = contracts::Contract {
        contract_type: ContractType::Ensures,
        condition,
        comment: None,
    };
    let given = assumptions(all);
    let facts = callee_facts(callees);
    let func: Option<&FnItem> = match sig {
        Some(f) => Some(f),
        None => None,
    };
    let verifier = Z3Verifier::new(timeout_ms);
    let r = match verifier.contract_query(&contract, func, &given, &facts) {
        Ok(q) => Ok(q),
        Err(known) => Err(report_contract(&known)),
    };
    proof {
        assert(func == item_of(sig));
        assert(is_question_on(r, c.expr->0, sig, given@, facts@));
    }
    r
}

/// The postconditions that others may rely on, of the first `n` contracts of a function.
pub open spec fn postconditions(f: FunctionToVerify, n: int) -> Seq<(Seq<char>, Seq<char>)>
    decreases n,
{
    if n <= 0 || n > f.contracts@.len() {
        seq![]
    } else if f.contracts@[n - 1].contract_type == ContractType::Ensures {
        postconditions(f, n - 1).push((f.function_name@, f.contracts@[n - 1].condition@))
    } else {
        postconditions(f, n - 1)
    }
}

/// Proven postconditions as mathematical values.
pub open spec fn postcond_views(v: Seq<CalleePostcond>) -> Seq<(Seq<char>, Seq<char>)> {
    v.map_values(|p: CalleePostcond| (p.function_name@, p.condition@))
}

/// The postconditions that others may rely on: all of a function that passed, and none of others.
pub fn proven_postconditions(f: &FunctionToVerify, result: &VerificationResult) -> (r: Vec<
    CalleePostcond,
>)
    ensures
        postcond_views(r@) == if result is Passed {
            postconditions(*f, f.contracts@.len() as int)
        } else {
            seq![]
        },
{
    let mut out: Vec<CalleePostcond> = Vec::new();
    proof {
        assert(postcond_views(out@) =~= seq![]);
    }
    if let VerificationResult::Passed { .. } = result {
        let mut i: usize = 0;
        while i < f.contracts.len()
            invariant
                i <= f.contracts@.len(),
                postcond_views(out@) == postconditions(*f, i as int),
            decreases f.contracts@.len() - i,
        {
            if f.contracts[i].contract_type == ContractType::Ensures {
                let ghost had = postcond_views(out@);
                out.push(
                    CalleePostcond {
                        function_name: f.function_name.as_str().to_owned(),
                        condition: f.contracts[i].condition.as_str().to_owned(),
                    },
                );
                proof {
                    assert(postcond_views(out@) =~= had.push(
                        (f.function_name@, f.contracts@[i as int].condition@),
                    ));
                }
            }
            i += 1;
        }
    }
    out
}

/// `s` in quotation marks, with escapes, as `Debug` writes it.
pub uninterp spec fn debug_quoted(s: Seq<char>) -> Seq<char>;

/// `format!` with `{:?}` of a `str`: the text in quotation marks with escapes, by the text alone.
#[verifier::external_body]
fn quoted(s: &str) -> (r: String)
    ensures
        r@ == debug_quoted(s@),
{
    format!("{s:?}")
}

/// The first `n` values of a counterexample, each as `"name": "value"`.
pub open spec fn shown_values(v: Seq<(String, String)>, n: int) -> Seq<Seq<char>>
    decreases n,
{
    if n <= 0 || n > v.len() {
        seq![]
    } else {
        shown_values(v, n - 1).push(
            debug_quoted(v[n - 1].0@) + ": "@ + debug_quoted(v[n - 1].1@),
        )
    }
}

/// A counterexample written out as a map.
pub open spec fn shown(c: Counterexample) -> Seq<char> {
    "{"@ + text::joined(shown_values(c.assignments@, c.assignments@.len() as int), ", "@) + "}"@
}

fn show(c: &Counterexample) -> (r: String)
    ensures
        r@ == shown(*c),
{
    let mut out: Vec<String> = Vec::new();
    let mut i: usize = 0;
    proof {
        assert(text::views(out@) =~= seq![]);
    }
    while i < c.assignments.len()
        invariant
            i <= c.assignments.len(),
            text::views(out@) == shown_values(c.assignments@, i as int),
        decreases c.assignments.len() - i,
    {
        let name = quoted(c.assignments[i].0.as_str());
        let value = quoted(c.assignments[i].1.as_str());
        let entry = cat3(name.as_str(), ": ", value.as_str());
        let ghost had = out@;
        let ghost ev = entry@;
        out.push(entry);
        proof {
            assert(text::views(out@) =~= text::views(had).push(ev));
        }
        i += 1;
    }
    let inner = crate::text::join(out.as_slice(), ", ");
    cat3("{", inner.as_str(), "}")
}

/// What the solver's ruling on a contract is reported as.
pub open spec fn contract_report(v: SolverResult) -> Result<bool, Seq<char>> {
    match v {
        SolverResult::Verified { body_translated } => Ok(body_translated),
        SolverResult::Failed { counterexample: Some(c) } => Err(
            "Contract violated. Counterexample: "@ + shown(c),
        ),
        SolverResult::Failed { counterexample: None } => Err(
            "Contract violated (no counterexample available)"@,
        ),
        SolverResult::Unknown { reason } => Err("Z3 verification unknown: "@ + reason@),
        SolverResult::Error { error } => Err("Z3 verification error: "@ + error@),
    }
}

/// What the solver's ruling on two runs is reported as.
pub open spec fn determinism_report(v: SolverResult) -> Result<bool, Seq<char>> {
    match v {
        SolverResult::Verified { body_translated } => Ok(body_translated),
        SolverResult::Failed { counterexample: Some(c) } => Err(
            "Non-deterministic. Counterexample: "@ + shown(c),
        ),
        SolverResult::Failed { counterexample: None } => Err(
            "Non-deterministic (counterexample not extracted)"@,
        ),
        SolverResult::Unknown { reason } => Err("Z3 unknown: "@ + reason@),
        SolverResult::Error { error } => Err("Z3 error: "@ + error@),
    }
}

/// What the solver's ruling on a contract is reported as.
pub fn report_contract(v: &SolverResult) -> (r: Report)
    ensures
        report_view(r) == contract_report(*v),
{
    match v {
        SolverResult::Verified { body_translated } => Ok(*body_translated),
        SolverResult::Failed { counterexample: Some(c) } => Err(
            cat("Contract violated. Counterexample: ", show(c).as_str()),
        ),
        SolverResult::Failed { counterexample: None } => Err(
            "Contract violated (no counterexample available)".to_owned(),
        ),
        SolverResult::Unknown { reason } => Err(cat("Z3 verification unknown: ", reason.as_str())),
        SolverResult::Error { error } => Err(cat("Z3 verification error: ", error.as_str())),
    }
}

/// What the solver's ruling on two runs is reported as.
pub fn report_determinism(v: &SolverResult) -> (r: Report)
    ensures
        report_view(r) == determinism_report(*v),
{
    match v {
        SolverResult::Verified { body_translated } => Ok(*body_translated),
        SolverResult::Failed { counterexample: Some(c) } => Err(
            cat("Non-deterministic. Counterexample: ", show(c).as_str()),
        ),
        SolverResult::Failed { counterexample: None } => Err(
            "Non-deterministic (counterexample not extracted)".to_owned(),
        ),
        SolverResult::Unknown { reason } => Err(cat("Z3 unknown: ", reason.as_str())),
        SolverResult::Error { error } => Err(cat("Z3 error: ", error.as_str())),
    }
}

/// A contract is reported to hold exactly where the solver's ruling is that it does, and the report
/// says of the body what the ruling says; so it is for two runs.
pub proof fn law_only_rulings_confirm(v: SolverResult)
    ensures
        contract_report(v) is Ok <==> v is Verified,
        determinism_report(v) is Ok <==> v is Verified,
        v matches SolverResult::Verified { body_translated } ==> contract_report(v) == Ok::<
            bool,
            Seq<char>,
        >(body_translated) && determinism_report(v) == Ok::<bool, Seq<char>>(body_translated),
{
}

/// What callers may rely on are the postconditions of a function and nothing else, under its name
/// and in their order.
pub proof fn law_callers_rely_on_postconditions(f: FunctionToVerify, n: int)
    requires
        0 <= n <= f.contracts@.len(),
    ensures
        postconditions(f, n) == f.contracts@.take(n).filter(
            |c: Contract| c.contract_type is Ensures,
        ).map_values(|c: Contract| (f.function_name@, c.condition@)),
    decreases n,
{
    reveal(Seq::filter);
    let keep = |c: Contract| c.contract_type is Ensures;
    let told = |c: Contract| (f.function_name@, c.condition@);
    if n > 0 {
        law_callers_rely_on_postconditions(f, n - 1);
        assert(f.contracts@.take(n).drop_last() =~= f.contracts@.take(n - 1));
        assert(f.contracts@.take(n).last() == f.contracts@[n - 1]);
        let done = f.contracts@.take(n - 1).filter(keep);
        assert(done.push(f.contracts@[n - 1]).map_values(told) =~= done.map_values(told).push(
            told(f.contracts@[n - 1]),
        ));
    } else {
        assert(f.contracts@.take(0) =~= seq![]);
        assert(Seq::<Contract>::empty().map_values(told) =~= seq![]);
    }
}

/// What is taken for granted of a kind are the conditions of the contracts of that kind that are
/// expressions.
pub proof fn law_conditions_are_those_of_the_kind(v: Seq<Contract>, n: int, k: ContractType)
    requires
        0 <= n <= v.len(),
    ensures
        conditions_of(v, n, k) == v.take(n).filter(
            |c: Contract| c.contract_type == k && c.expr is Some,
        ).map_values(|c: Contract| (ContractType::Requires, c.expr->0)),
    decreases n,
{
    reveal(Seq::filter);
    let keep = |c: Contract| c.contract_type == k && c.expr is Some;
    let told = |c: Contract| (ContractType::Requires, c.expr->0);
    if n > 0 {
        law_conditions_are_those_of_the_kind(v, n - 1, k);
        assert(v.take(n).drop_last() =~= v.take(n - 1));
        assert(v.take(n).last() == v[n - 1]);
        let done = v.take(n - 1).filter(keep);
        assert(done.push(v[n - 1]).map_values(told) =~= done.map_values(told).push(told(v[n - 1])));
    } else {
        assert(v.take(0) =~= seq![]);
        assert(Seq::<Contract>::empty().map_values(told) =~= seq![]);
    }
}

/// Whether a reason in small letters tells of a violation.
pub open spec fn tells_of_violation(r: Seq<char>) -> bool {
    text::holds(r, "counterexample"@) || text::holds(r, "contract violated"@) || text::holds(
        r,
        "non-deterministic"@,
    )
}

/// A reason with the words of a violation is one, whatever else it says; without them and without
/// words on parsing, one with the words of an undecided question is undecided, and one with the
/// words of an error of the solver is such an error.
pub proof fn law_words_tell_the_class(
    a: Seq<char>,
    words: Seq<char>,
    b: Seq<char>,
    contract: Seq<char>,
    reason: Seq<char>,
)
    ensures
        ({
            let r = a + words + b;
            let plain = !tells_of_violation(r) && !text::holds(r, "could not be parsed"@) && !text::holds(
                r,
                "could not parse"@,
            ) && !text::holds(r, "parsed"@) && !text::holds(reason, "parsed"@);
            &&& words == "counterexample"@ || words == "contract violated"@ || words
                == "non-deterministic"@ ==> kind_given(contract, reason, r) is Counterexample
            &&& plain && (words == "z3 unknown"@ || words == "z3 verification unknown"@) ==> kind_given(
                contract,
                reason,
                r,
            ) is SolverUnknown
            &&& plain && !text::holds(r, "unknown"@) && !text::holds(r, "determinism"@) && (words
                == "z3 error"@ || words == "z3 verification error"@) ==> kind_given(contract, reason, r)
                is SolverError
            &&& words == "timeout"@ || words == "timed out"@ || words == "time out"@ ==> unknown_given(r)
                is Z3Timeout
            &&& !text::holds(r, "time"@) ==> unknown_given(r) is Z3Unknown
        }),
{
    let r = a + words + b;
    let n = a.len() as int;
    assert(r.subrange(n, n + words.len()) =~= words);
    assert(text::occurs_at(r, words, n));
    reveal_strlit("parsed");
    reveal_strlit("cannot verify: contract condition could not be parsed");
    reveal_strlit("Cannot verify: contract condition could not be parsed as expression");
    reveal_strlit("unknown");
    reveal_strlit("z3 unknown");
    reveal_strlit("z3 verification unknown");
    reveal_strlit("time");
    reveal_strlit("timeout");
    reveal_strlit("timed out");
    reveal_strlit("time out");
    lemma_holds_within(r, "cannot verify: contract condition could not be parsed"@, "parsed"@, 47);
    lemma_holds_within(
        reason,
        "Cannot verify: contract condition could not be parsed as expression"@,
        "parsed"@,
        47,
    );
    lemma_holds_within(r, "z3 unknown"@, "unknown"@, 3);
    lemma_holds_within(r, "z3 verification unknown"@, "unknown"@, 16);
    lemma_holds_within(r, "timeout"@, "time"@, 0);
    lemma_holds_within(r, "timed out"@, "time"@, 0);
    lemma_holds_within(r, "time out"@, "time"@, 0);
}

} // verus!
