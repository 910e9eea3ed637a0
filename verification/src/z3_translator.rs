//! Translates Rust expressions and function bodies to terms of the solver.
//!
//! Integers and truth values are modelled; every other value is an integer of which nothing is
//! known but its name. A function body becomes a formula that ties `result` to the parameters.
use std::rc::Rc;
use vstd::arithmetic::power2;
use vstd::prelude::*;
use crate::ast::{Arm, BinOp, Block, Callee, Expr, FieldValue, FnItem, Lit, Member, Pat, Path, Stmt, Type, UnOp};
use crate::contracts::Contract;
use crate::numbers::{parse_i64, power_of_two};
use crate::term;
use crate::term::{
    all_term, binary_term, bool_term, both_term, call_term, equation_term, int_term, integer_term, ite_term,
    neg_term, not_term, truth_term, var_term, Form, Sort, Term, TermOp,
};
use crate::text;
use crate::text::{cat, cat3, count_text, integer_text, same};
use crate::vars;
use crate::vars::VarMap;
use crate::z3_rules;
use crate::z3_rules::Fault;
use crate::z3_tables;
use crate::z3_tables::{
    expr_to_var_hint, extract_int_literal, field_expr_to_var_name, is_unsigned_type,
    known_bool_returning_function, known_bool_uninterpreted_function, known_int_returning_function,
    known_struct_field_function, known_uninterpreted_function, last_segment, length_var_name, numbered,
    parse_let_option_result_pat, parse_lit_int, parse_none_err_arm, parse_some_ok_arm, path_to_string,
    pattern_ident, resolve_constant, returns_bool_like, unwrap_to_tuple,
};

verus! {

/// Why an expression cannot be given to the solver.
#[derive(Debug, Clone)]
pub enum TranslationError {
    UnsupportedExpression(String),
    UnsupportedLiteral(String),
    UnsupportedOperator(String),
    TypeError(String),
    ParseError(String),
}

impl View for TranslationError {
    type V = Fault;

    open spec fn view(&self) -> Fault {
        match self {
            TranslationError::UnsupportedExpression(s) => Fault::Expression(s@),
            TranslationError::UnsupportedLiteral(s) => Fault::Literal(s@),
            TranslationError::UnsupportedOperator(s) => Fault::Operator(s@),
            TranslationError::TypeError(s) => Fault::Type(s@),
            TranslationError::ParseError(s) => Fault::Parse(s@),
        }
    }
}

impl TranslationError {
    /// The message for a reader.
    pub fn message(&self) -> (r: String)
        ensures
            r@ == fault_message(self@),
    {
        match self {
            TranslationError::UnsupportedExpression(s) => cat("Unsupported expression: ", s.as_str()),
            TranslationError::UnsupportedLiteral(s) => cat("Unsupported literal: ", s.as_str()),
            TranslationError::UnsupportedOperator(s) => cat("Unsupported operator: ", s.as_str()),
            TranslationError::TypeError(s) => cat("Type error: ", s.as_str()),
            TranslationError::ParseError(s) => cat("Parse error: ", s.as_str()),
        }
    }
}

/// The message of a fault.
pub open spec fn fault_message(f: Fault) -> Seq<char> {
    match f {
        Fault::Expression(s) => "Unsupported expression: "@ + s,
        Fault::Literal(s) => "Unsupported literal: "@ + s,
        Fault::Operator(s) => "Unsupported operator: "@ + s,
        Fault::Type(s) => "Type error: "@ + s,
        Fault::Parse(s) => "Parse error: "@ + s,
    }
}

/// The value of a translation, as a mathematical value.
pub open spec fn seen(r: Result<Rc<Term>, TranslationError>) -> Result<Form, Fault> {
    match r {
        Ok(t) => Ok(t.form()),
        Err(e) => Err(e@),
    }
}

/// A formula that may be absent, as a mathematical value.
pub open spec fn seen_some(r: Option<Rc<Term>>) -> Option<Form> {
    match r {
        Some(t) => Some(t.form()),
        None => None,
    }
}

/// The formula of a translation, as a mathematical value.
pub open spec fn seen_formula(r: Result<Option<Rc<Term>>, TranslationError>) -> Result<
    Option<Form>,
    Fault,
> {
    match r {
        Ok(t) => Ok(seen_some(t)),
        Err(e) => Err(e@),
    }
}

fn expression_fault(s: &str) -> (r: TranslationError)
    ensures
        r@ == Fault::Expression(s@),
{
    TranslationError::UnsupportedExpression(s.to_owned())
}

fn type_fault(s: &str) -> (r: TranslationError)
    ensures
        r@ == Fault::Type(s@),
{
    TranslationError::TypeError(s.to_owned())
}

// ---------------------------------------------------------------------------
// Operators
// ---------------------------------------------------------------------------
fn arithmetic(op: TermOp, l: &Rc<Term>, r: &Rc<Term>) -> (out: Result<Rc<Term>, TranslationError>)
    ensures
        seen(out) == z3_rules::arithmetic(op, l.form(), r.form()),
{
    if l.sort() == Sort::Int && r.sort() == Sort::Int {
        Ok(binary_term(op, l, r))
    } else {
        Err(type_fault("Expected Int"))
    }
}

fn function_of_two(name: &str, l: &Rc<Term>, r: &Rc<Term>) -> (out: Result<
    Rc<Term>,
    TranslationError,
>)
    ensures
        seen(out) == z3_rules::function_of_two(name@, l.form(), r.form()),
{
    if l.sort() == Sort::Int && r.sort() == Sort::Int {
        let args: Vec<Rc<Term>> = vec![l.clone(), r.clone()];
        proof {
            assert(term::forms(args@) =~= seq![l.form(), r.form()]);
        }
        Ok(call_term(name, args, Sort::Int))
    } else {
        Err(type_fault("Expected Int"))
    }
}

fn mixed_equation(l: &Rc<Term>, r: &Rc<Term>) -> (out: Rc<Term>)
    ensures
        out.form() == z3_rules::mixed_equation(l.form(), r.form()),
{
    if l.sort() == r.sort() {
        binary_term(TermOp::Eq, l, r)
    } else {
        binary_term(TermOp::Eq, &integer_term(l), &integer_term(r))
    }
}

fn comparison(op: TermOp, l: &Rc<Term>, r: &Rc<Term>) -> (out: Rc<Term>)
    ensures
        out.form() == z3_rules::comparison(op, l.form(), r.form()),
{
    binary_term(op, &integer_term(l), &integer_term(r))
}

/// A binary operation on terms.
pub fn translate_binary_op(op: &BinOp, l: &Rc<Term>, r: &Rc<Term>) -> (out: Result<
    Rc<Term>,
    TranslationError,
>)
    ensures
        seen(out) == z3_rules::binary_op(*op, l.form(), r.form()),
{
    match op {
        BinOp::Plus => arithmetic(TermOp::Plus, l, r),
        BinOp::Minus => arithmetic(TermOp::Minus, l, r),
        BinOp::Times => arithmetic(TermOp::Times, l, r),
        BinOp::Div => arithmetic(TermOp::Div, l, r),
        BinOp::Rem => arithmetic(TermOp::Rem, l, r),
        BinOp::Shr => function_of_two("shr", l, r),
        BinOp::Shl => function_of_two("shl", l, r),
        BinOp::Eq => Ok(mixed_equation(l, r)),
        BinOp::Ne => Ok(not_term(&mixed_equation(l, r))),
        BinOp::Lt => Ok(comparison(TermOp::Lt, l, r)),
        BinOp::Le => Ok(comparison(TermOp::Le, l, r)),
        BinOp::Gt => Ok(comparison(TermOp::Gt, l, r)),
        BinOp::Ge => Ok(comparison(TermOp::Ge, l, r)),
        BinOp::And => if l.sort() == Sort::Bool && r.sort() == Sort::Bool {
            Ok(both_term(l, r))
        } else {
            Err(type_fault("Expected Bool"))
        },
        BinOp::Or => if l.sort() == Sort::Bool && r.sort() == Sort::Bool {
            Ok(binary_term(TermOp::Or, l, r))
        } else {
            Err(type_fault("Expected Bool"))
        },
        BinOp::BitAnd(s) => Err(TranslationError::UnsupportedOperator(s.clone())),
        BinOp::AddAssign(s) => Err(TranslationError::UnsupportedOperator(s.clone())),
        BinOp::SubAssign(s) => Err(TranslationError::UnsupportedOperator(s.clone())),
        BinOp::Other(s) => Err(TranslationError::UnsupportedOperator(s.clone())),
    }
}

/// A unary operation on a term.
pub fn translate_unary_op(op: &UnOp, a: &Rc<Term>) -> (out: Result<Rc<Term>, TranslationError>)
    ensures
        seen(out) == z3_rules::unary_op(*op, a.form()),
{
    match op {
        UnOp::Not => if a.sort() == Sort::Bool {
            Ok(not_term(a))
        } else {
            Err(type_fault("Expected Bool"))
        },
        UnOp::Neg => if a.sort() == Sort::Int {
            Ok(neg_term(a))
        } else {
            Err(type_fault("Expected Int"))
        },
        UnOp::Deref => Ok(a.clone()),
        UnOp::Other(s) => Err(
            TranslationError::UnsupportedExpression(cat("Unsupported unary op: ", s.as_str())),
        ),
    }
}

/// Whether `n` is a power of two.
pub fn is_power_of_two(n: i128) -> (r: bool)
    requires
        0 < n <= 0x8000_0000_0000_0000,
    ensures
        r == z3_rules::is_power_of_two(n as int),
{
    let mut k: u32 = 0;
    while k <= 63
        invariant
            k <= 64,
            0 < n <= 0x8000_0000_0000_0000,
            forall|j: nat| j < k ==> #[trigger] power2::pow2(j) != n,
        decreases 64 - k,
    {
        if power_of_two(k) == n as u128 {
            return true;
        }
        k += 1;
    }
    proof {
        power2::lemma2_to64_rest();
        assert forall|j: nat| #[trigger] power2::pow2(j) != n by {
            if j >= 64 {
                if j > 64 {
                    power2::lemma_pow2_strictly_increases(64, j);
                }
                assert(power2::pow2(64) == 0x1_0000_0000_0000_0000);
            }
        }
    }
    false
}

fn masked(a: &Rc<Term>, mask: Option<i64>) -> (r: Option<Rc<Term>>)
    ensures
        seen_some(r) == z3_rules::masked(a.form(), mask),
{
    match mask {
        Some(m) => {
            if m <= 0 {
                return None;
            }
            if is_power_of_two(m as i128) {
                let place = int_term(m as i128);
                let quotient = binary_term(TermOp::Div, a, &place);
                let bit = binary_term(TermOp::Rem, &quotient, &int_term(2));
                return Some(binary_term(TermOp::Times, &bit, &place));
            }
            let next: i128 = m as i128 + 1;
            if is_power_of_two(next) {
                return Some(binary_term(TermOp::Rem, a, &int_term(next)));
            }
            None
        },
        None => None,
    }
}

/// Two to the power `k`, exactly.
pub fn pow2_int(k: u32) -> (r: Rc<Term>)
    requires
        k < 64,
    ensures
        r.form() == Form::Int(power2::pow2(k as nat) as int),
{
    proof {
        power2::lemma2_to64_rest();
        power2::lemma_pow2_strictly_increases(k as nat, 64);
    }
    int_term(power_of_two(k) as i128)
}

fn in_word(k: Option<i64>) -> (r: Option<u32>)
    ensures
        match r {
            Some(n) => k == Some(n as i64) && n < 64,
            None => !(k matches Some(k) && 0 <= k < 64),
        },
{
    match k {
        Some(k) => if 0 <= k && k < 64 {
            Some(k as u32)
        } else {
            None
        },
        None => None,
    }
}

fn binary_with_literals(
    op: &BinOp,
    l: &Rc<Term>,
    r: &Rc<Term>,
    left: Option<i64>,
    right: Option<i64>,
) -> (out: Result<Rc<Term>, TranslationError>)
    ensures
        seen(out) == z3_rules::binary_with_literals(*op, l.form(), r.form(), left, right),
{
    match op {
        BinOp::Shr => {
            if let Some(k) = in_word(right) {
                return if l.sort() == Sort::Int {
                    Ok(binary_term(TermOp::Div, l, &pow2_int(k)))
                } else {
                    Err(type_fault("Expected Int"))
                };
            }
            translate_binary_op(op, l, r)
        },
        BinOp::Shl => {
            if let Some(k) = in_word(right) {
                return if l.sort() == Sort::Int {
                    Ok(binary_term(TermOp::Times, l, &pow2_int(k)))
                } else {
                    Err(type_fault("Expected Int"))
                };
            }
            translate_binary_op(op, l, r)
        },
        BinOp::BitAnd(_) => {
            if l.sort() != Sort::Int || r.sort() != Sort::Int {
                return Err(type_fault("Expected Int"));
            }
            if let Some(t) = masked(l, right) {
                return Ok(t);
            }
            if let Some(t) = masked(r, left) {
                return Ok(t);
            }
            function_of_two("bitand", l, r)
        },
        _ => translate_binary_op(op, l, r),
    }
}

// ---------------------------------------------------------------------------
// Small steps
// ---------------------------------------------------------------------------
fn int_entry(vars: &mut VarMap, name: &str) -> (r: Rc<Term>)
    ensures
        (Ok::<Form, Fault>(r.form()), final(vars)@) == z3_rules::int_entry(old(vars)@, name@),
{
    vars.entry(name, var_term(name, Sort::Int))
}

fn bool_entry(vars: &mut VarMap, name: &str) -> (r: Rc<Term>)
    ensures
        (Ok::<Form, Fault>(r.form()), final(vars)@) == z3_rules::bool_entry(old(vars)@, name@),
{
    vars.entry(name, var_term(name, Sort::Bool))
}

fn fresh(vars: &mut VarMap, prefix: &str) -> (r: Rc<Term>)
    ensures
        (Ok::<Form, Fault>(r.form()), final(vars)@) == z3_rules::fresh(old(vars)@, prefix@),
{
    let name = numbered(prefix, vars.len());
    int_entry(vars, name.as_str())
}

fn truth_entry(vars: &mut VarMap, name: &str, fault: &str) -> (r: Result<Rc<Term>, TranslationError>)
    ensures
        (seen(r), final(vars)@) == z3_rules::truth_entry(old(vars)@, name@, fault@),
{
    let t = vars.entry(name, var_term(name, Sort::Bool));
    if t.sort() == Sort::Bool {
        Ok(t)
    } else {
        Err(type_fault(fault))
    }
}

/// A literal.
pub fn translate_literal(l: &Lit) -> (r: Result<Rc<Term>, TranslationError>)
    ensures
        seen(r) == z3_rules::literal(*l),
{
    match l {
        Lit::Int(n) => match parse_lit_int(n) {
            Some(v) => Ok(int_term(v as i128)),
            None => Err(
                TranslationError::ParseError(cat("Cannot parse integer literal: ", n.text.as_str())),
            ),
        },
        Lit::Bool(b) => Ok(bool_term(*b)),
        Lit::Other(s) => Err(TranslationError::UnsupportedLiteral(s.clone())),
    }
}

fn path_term(p: &Path, vars: &mut VarMap) -> (r: Rc<Term>)
    ensures
        (Ok::<Form, Fault>(r.form()), final(vars)@) == z3_rules::path(*p, old(vars)@),
{
    let name = path_to_string(p);
    if let Some(v) = resolve_constant(name.as_str()) {
        return int_term(v as i128);
    }
    let last = last_segment(p);
    if same(last.as_str(), "Valid") || same(last.as_str(), "Accepted") {
        return bool_term(true);
    }
    if same(last.as_str(), "Invalid") || same(last.as_str(), "Rejected") {
        return bool_term(false);
    }
    int_entry(vars, name.as_str())
}

fn two_integers(l: &Rc<Term>, r: &Rc<Term>, left: &str, right: &str) -> (out: Option<
    TranslationError,
>)
    ensures
        match out {
            Some(e) => z3_rules::two_integers(l.form(), r.form(), left@, right@) == Some(e@),
            None => z3_rules::two_integers(l.form(), r.form(), left@, right@) is None,
        },
{
    if l.sort() != Sort::Int {
        Some(type_fault(left))
    } else if r.sort() != Sort::Int {
        Some(type_fault(right))
    } else {
        None
    }
}

fn ok_code(b: &Rc<Term>) -> (r: Rc<Term>)
    ensures
        r.form() == z3_rules::ok_code(b.form()),
{
    ite_term(b, &int_term(2), &int_term(1))
}

/// The early returns of a block, as mathematical values.
pub open spec fn seen_pairs(v: Seq<(Rc<Term>, Rc<Term>)>) -> Seq<(Form, Form)> {
    v.map_values(|p: (Rc<Term>, Rc<Term>)| (p.0.form(), p.1.form()))
}

/// The numbered arms of a match, as mathematical values.
pub open spec fn seen_arms(v: Seq<(i128, Rc<Term>)>) -> Seq<(int, Form)> {
    v.map_values(|p: (i128, Rc<Term>)| (p.0 as int, p.1.form()))
}

fn implications(early: &Vec<(Rc<Term>, Rc<Term>)>) -> (r: Vec<Rc<Term>>)
    ensures
        term::forms(r@) == z3_rules::implications(seen_pairs(early@)),
{
    let mut out: Vec<Rc<Term>> = Vec::new();
    let mut i: usize = 0;
    while i < early.len()
        invariant
            i <= early.len(),
            term::forms(out@) =~= z3_rules::implications(seen_pairs(early@)).take(i as int),
        decreases early.len() - i,
    {
        let t = binary_term(TermOp::Implies, &early[i].0, &early[i].1);
        let ghost had = out@;
        let ghost tv = t.form();
        out.push(t);
        i += 1;
        proof {
            let all = z3_rules::implications(seen_pairs(early@));
            assert(term::forms(out@) =~= term::forms(had).push(tv));
            assert(all.take(i as int) =~= all.take(i - 1).push(all[i - 1]));
        }
    }
    proof {
        assert(term::forms(out@) =~= z3_rules::implications(seen_pairs(early@)));
    }
    out
}

fn none_of(early: &Vec<(Rc<Term>, Rc<Term>)>) -> (r: Vec<Rc<Term>>)
    ensures
        term::forms(r@) == z3_rules::none_of(seen_pairs(early@)),
{
    let mut out: Vec<Rc<Term>> = Vec::new();
    let mut i: usize = 0;
    while i < early.len()
        invariant
            i <= early.len(),
            term::forms(out@) =~= z3_rules::none_of(seen_pairs(early@)).take(i as int),
        decreases early.len() - i,
    {
        let t = not_term(&early[i].0);
        let ghost had = out@;
        let ghost tv = t.form();
        out.push(t);
        i += 1;
        proof {
            let all = z3_rules::none_of(seen_pairs(early@));
            assert(term::forms(out@) =~= term::forms(had).push(tv));
            assert(all.take(i as int) =~= all.take(i - 1).push(all[i - 1]));
        }
    }
    proof {
        assert(term::forms(out@) =~= z3_rules::none_of(seen_pairs(early@)));
    }
    out
}

fn with_early(early: &Vec<(Rc<Term>, Rc<Term>)>, f: &Rc<Term>) -> (r: Rc<Term>)
    ensures
        r.form() == z3_rules::with_early(seen_pairs(early@), f.form()),
{
    if early.len() == 0 {
        return f.clone();
    }
    let mut all = implications(early);
    let ghost had = all@;
    let none = all_term(none_of(early));
    let t = binary_term(TermOp::Implies, &none, f);
    let ghost tv = t.form();
    all.push(t);
    proof {
        assert(term::forms(all@) =~= term::forms(had).push(tv));
    }
    all_term(all)
}

fn after_early(early: &Vec<(Rc<Term>, Rc<Term>)>, f: Option<Rc<Term>>) -> (r: Option<Rc<Term>>)
    ensures
        seen_some(r) == z3_rules::after_early(seen_pairs(early@), seen_some(f)),
{
    proof {
        assert(seen_pairs(early@).len() == early@.len());
    }
    match f {
        Some(f) => Some(with_early(early, &f)),
        None => if early.len() > 0 {
            Some(all_term(implications(early)))
        } else {
            None
        },
    }
}

fn with_guards(guards: &Vec<Rc<Term>>, f: Option<Rc<Term>>) -> (r: Option<Rc<Term>>)
    ensures
        seen_some(r) == z3_rules::with_guards(term::forms(guards@), seen_some(f)),
{
    if guards.len() == 0 {
        return f;
    }
    let ghost want = term::forms(guards@).map_values(|g: Form| term::negated(g));
    let mut out: Vec<Rc<Term>> = Vec::new();
    let mut i: usize = 0;
    while i < guards.len()
        invariant
            i <= guards.len(),
            want == term::forms(guards@).map_values(|g: Form| term::negated(g)),
            term::forms(out@) =~= want.take(i as int),
        decreases guards.len() - i,
    {
        let t = not_term(&guards[i]);
        let ghost had = out@;
        let ghost tv = t.form();
        out.push(t);
        i += 1;
        proof {
            let all = want;
            assert(term::forms(out@) =~= term::forms(had).push(tv));
            assert(all.take(i as int) =~= all.take(i - 1).push(all[i - 1]));
        }
    }
    proof {
        assert(term::forms(out@) =~= want);
    }
    let none = all_term(out);
    match f {
        Some(f) => Some(both_term(&none, &f)),
        None => Some(none),
    }
}

fn tower(
    scrutinee: &Rc<Term>,
    arms: &Vec<(i128, Rc<Term>)>,
    n: usize,
    last: &Rc<Term>,
    truth: bool,
) -> (r: Rc<Term>)
    requires
        n <= arms@.len(),
    ensures
        r.form() == (if truth {
            z3_rules::tower(
                scrutinee.form(),
                z3_rules::truth_arms(seen_arms(arms@.take(n as int))),
                0,
                term::as_truth(last.form()),
            )
        } else {
            z3_rules::tower(scrutinee.form(), seen_arms(arms@.take(n as int)), 0, last.form())
        }),
{
    let ghost read = if truth {
        z3_rules::truth_arms(seen_arms(arms@.take(n as int)))
    } else {
        seen_arms(arms@.take(n as int))
    };
    let mut acc = if truth {
        truth_term(last)
    } else {
        last.clone()
    };
    let ghost end = acc.form();
    let mut i: usize = n;
    while i > 0
        invariant
            i <= n <= arms@.len(),
            read == (if truth {
                z3_rules::truth_arms(seen_arms(arms@.take(n as int)))
            } else {
                seen_arms(arms@.take(n as int))
            }),
            acc.form() == z3_rules::tower(scrutinee.form(), read, i as int, end),
        decreases i,
    {
        i -= 1;
        let value = if truth {
            truth_term(&arms[i].1)
        } else {
            arms[i].1.clone()
        };
        let hit = binary_term(TermOp::Eq, scrutinee, &int_term(arms[i].0));
        proof {
            assert(read[i as int] == (arms@[i as int].0 as int, value.form()));
        }
        acc = ite_term(&hit, &value, &acc);
    }
    acc
}

fn tower_of(
    scrutinee: &Rc<Term>,
    arms: &Vec<(i128, Rc<Term>)>,
    default: &Option<Rc<Term>>,
    truth: bool,
) -> (r: Rc<Term>)
    requires
        arms@.len() > 0,
    ensures
        r.form() == z3_rules::tower_of(
            scrutinee.form(),
            seen_arms(arms@),
            seen_some(*default),
            truth,
        ),
{
    let n: usize = arms.len();
    match default {
        Some(d) => {
            proof {
                assert(arms@.take(n as int) =~= arms@);
            }
            tower(scrutinee, arms, n, d, truth)
        },
        None => {
            proof {
                assert(seen_arms(arms@.take(n - 1)) =~= seen_arms(arms@).drop_last());
            }
            tower(scrutinee, arms, n - 1, &arms[n - 1].1, truth)
        },
    }
}

/// Translates Rust code to terms of the solver.
#[derive(Debug)]
pub struct Z3Translator {
    /// The solver's budget in milliseconds; zero for none.
    pub timeout_ms: u64,
}

/// The exits of a block that were found so far.
struct ExitTerms {
    early: Vec<(Rc<Term>, Rc<Term>)>,
    guards: Vec<Rc<Term>>,
}

impl ExitTerms {
    spec fn seen(&self) -> z3_rules::Exits {
        z3_rules::Exits { early: seen_pairs(self.early@), guards: term::forms(self.guards@) }
    }
}

/// The arms of a match that were read.
enum ArmTerms {
    Read(Vec<(i128, Rc<Term>)>, Option<Rc<Term>>, bool),
    Stopped,
    Failed(TranslationError),
}

spec fn seen_arm_terms(a: ArmTerms) -> z3_rules::Arms {
    match a {
        ArmTerms::Read(v, d, t) => z3_rules::Arms::Read(seen_arms(v@), seen_some(d), t),
        ArmTerms::Stopped => z3_rules::Arms::Stopped,
        ArmTerms::Failed(e) => z3_rules::Arms::Failed(e@),
    }
}

/// What happens at a statement.
enum StmtStep {
    Found(Rc<Term>),
    Failed(TranslationError),
    Next,
}

spec fn seen_step(s: StmtStep, exits: z3_rules::Exits) -> z3_rules::StmtOutcome {
    match s {
        StmtStep::Found(t) => z3_rules::StmtOutcome::Found(t.form()),
        StmtStep::Failed(e) => z3_rules::StmtOutcome::Failed(e@),
        StmtStep::Next => z3_rules::StmtOutcome::Next(exits),
    }
}

fn is_call_of(e: &Expr, name: &str) -> (r: bool)
    ensures
        r == z3_rules::calls(*e, name@),
{
    match e {
        Expr::Call(Callee::Path(p), _) => same(last_segment(p).as_str(), name),
        _ => false,
    }
}

fn closure_param(e: &Expr) -> (r: Option<String>)
    ensures
        match r {
            Some(s) => z3_rules::closure_param(*e) == Some(s@),
            None => z3_rules::closure_param(*e) is None,
        },
{
    match e {
        Expr::Closure(inputs, _) => if inputs.len() == 1 {
            pattern_ident(&inputs[0])
        } else {
            None
        },
        _ => None,
    }
}

fn passes_through(m: &str) -> (r: bool)
    ensures
        r == z3_rules::passes_through(m@),
{
    same(m, "unwrap_or") || same(m, "unwrap_or_else") || same(m, "into") || same(m, "clone") || same(
        m,
        "serialize",
    ) || same(m, "as_ref") || same(m, "iter") || same(m, "into_iter") || same(m, "par_iter") || same(
        m,
        "step_by",
    ) || same(m, "enumerate")
}

fn mutates(m: &str) -> (r: bool)
    ensures
        r == z3_rules::mutates(m@),
{
    same(m, "clear") || same(m, "extend_from_slice") || same(m, "push") || same(m, "copy_from_slice")
}

fn value_suffix(m: &str) -> (r: Option<&'static str>)
    ensures
        match r {
            Some(s) => z3_rules::value_suffix(m@) == Some(s@),
            None => z3_rules::value_suffix(m@) is None,
        },
{
    if same(m, "borrow_mut") || same(m, "borrow") {
        Some("_borrow")
    } else if same(m, "collect") {
        Some("_collect")
    } else if same(m, "next") {
        Some("_next")
    } else if same(m, "sum") {
        Some("_sum")
    } else if same(m, "reduce") {
        Some("_reduce")
    } else {
        None
    }
}

fn binary_method(m: &str) -> (r: Option<(&'static str, &'static str, &'static str)>)
    ensures
        match r {
            Some((a, b, c)) => z3_rules::binary_method(m@) == Some((a@, b@, c@)),
            None => z3_rules::binary_method(m@) is None,
        },
{
    if same(m, "checked_add") || same(m, "checked_sub") || same(m, "checked_mul") {
        Some(("checked_add needs 1 arg", "checked_add: expected Int", "checked_add: expected Int"))
    } else if same(m, "min") || same(m, "max") {
        Some(("min/max needs 1 arg", "min/max: expected Int", "min/max: expected Int"))
    } else if same(m, "saturating_sub") {
        Some(
            (
                "saturating_sub needs 1 arg",
                "saturating_sub: expected Int",
                "saturating_sub: expected Int",
            ),
        )
    } else if same(m, "saturating_mul") {
        Some(
            (
                "saturating_mul needs 1 arg",
                "saturating_mul: expected Int",
                "saturating_mul: expected Int",
            ),
        )
    } else if same(m, "div_ceil") {
        Some(("div_ceil needs 1 arg", "div_ceil: expected Int lhs", "div_ceil: expected Int rhs"))
    } else {
        None
    }
}

fn binary_method_value(m: &str, l: &Rc<Term>, r: &Rc<Term>) -> (out: Rc<Term>)
    ensures
        out.form() == z3_rules::binary_method_value(m@, l.form(), r.form()),
{
    if same(m, "checked_add") {
        binary_term(TermOp::Plus, l, r)
    } else if same(m, "checked_sub") || same(m, "saturating_sub") {
        binary_term(TermOp::Minus, l, r)
    } else if same(m, "checked_mul") || same(m, "saturating_mul") {
        binary_term(TermOp::Times, l, r)
    } else if same(m, "min") {
        ite_term(&binary_term(TermOp::Lt, l, r), l, r)
    } else if same(m, "max") {
        ite_term(&binary_term(TermOp::Gt, l, r), l, r)
    } else {
        let sum = binary_term(TermOp::Plus, l, r);
        let numerator = binary_term(TermOp::Minus, &sum, &int_term(1));
        binary_term(TermOp::Div, &numerator, r)
    }
}

fn one_argument(name: &str, f: &Rc<Term>) -> (r: Rc<Term>)
    ensures
        r.form() == Form::Call(name@, seq![f.form()], Sort::Int),
{
    let args: Vec<Rc<Term>> = vec![f.clone()];
    proof {
        assert(term::forms(args@) =~= seq![f.form()]);
    }
    call_term(name, args, Sort::Int)
}

fn function_name(name: &str, open: bool, n: usize) -> (r: String)
    ensures
        r@ == (if open {
            name@ + "_"@ + text::decimal(n as nat)
        } else {
            name@
        }),
{
    if open {
        cat3(name, "_", count_text(n).as_str())
    } else {
        name.to_owned()
    }
}

fn branches(c: &Rc<Term>, then: Option<Rc<Term>>, other: Option<Rc<Term>>) -> (r: Option<Rc<Term>>)
    ensures
        seen_some(r) == z3_rules::branches(c.form(), seen_some(then), seen_some(other)),
{
    match (then, other) {
        (Some(t), Some(o)) => {
            let a = binary_term(TermOp::Implies, c, &t);
            let b = binary_term(TermOp::Implies, &not_term(c), &o);
            Some(both_term(&a, &b))
        },
        (Some(t), None) => Some(binary_term(TermOp::Implies, c, &t)),
        (None, Some(o)) => Some(binary_term(TermOp::Implies, &not_term(c), &o)),
        (None, None) => None,
    }
}

fn no_result() -> (r: TranslationError)
    ensures
        r@ == z3_rules::no_result(),
{
    expression_fault("No result variable")
}

fn is_error(e: &Expr) -> (r: bool)
    ensures
        r == z3_rules::is_error(*e),
{
    match e {
        Expr::Path(p) => same(last_segment(p).as_str(), "Err"),
        _ => is_call_of(e, "Err"),
    }
}

fn only_returns_error(block: &Block) -> (r: bool)
    ensures
        r == z3_rules::only_returns_error(*block),
{
    if block.stmts.len() != 1 {
        return false;
    }
    match &block.stmts[0] {
        Stmt::Semi(Expr::Return(Some(r), _)) => is_error(r),
        Stmt::Tail(Expr::Return(Some(r), _), _) => is_error(r),
        _ => false,
    }
}

fn arm_number(p: &Pat, literals: bool, place: usize) -> (r: Option<Result<i128, TranslationError>>)
    ensures
        match r {
            Some(Ok(n)) => z3_rules::arm_number(*p, literals, place as int) == Some(
                Ok::<int, Fault>(n as int),
            ),
            Some(Err(e)) => z3_rules::arm_number(*p, literals, place as int) == Some(
                Err::<int, Fault>(e@),
            ),
            None => z3_rules::arm_number(*p, literals, place as int) is None,
        },
{
    if literals {
        match p {
            Pat::Lit(Lit::Int(l)) => match parse_i64(l.digits.as_str(), 10) {
                Some(v) => Some(Ok(v as i128)),
                None => Some(Err(TranslationError::ParseError(l.complaint.clone()))),
            },
            _ => None,
        }
    } else {
        match p {
            Pat::Path(_) => Some(Ok(place as i128)),
            Pat::Struct => Some(Ok(place as i128)),
            Pat::TupleStruct(_, _) => Some(Ok(place as i128)),
            _ => None,
        }
    }
}

fn option_arms(v: &Vec<Arm>) -> (r: Option<(String, usize, usize)>)
    ensures
        match r {
            Some((x, s, n)) => z3_rules::option_arms(v@) == Some((x@, s as int, n as int)) && s
                < v@.len() && n < v@.len(),
            None => z3_rules::option_arms(v@) is None,
        },
{
    if v.len() != 2 || v[0].guard || v[1].guard {
        return None;
    }
    let none: usize = if parse_none_err_arm(&v[0]) {
        0
    } else if parse_none_err_arm(&v[1]) {
        1
    } else {
        return None;
    };
    if let Some(x) = parse_some_ok_arm(&v[0]) {
        return Some((x, 0, none));
    }
    match parse_some_ok_arm(&v[1]) {
        Some(x) => Some((x, 1, none)),
        None => None,
    }
}

fn unsupported_match() -> (r: TranslationError)
    ensures
        r@ == z3_rules::unsupported_match(),
{
    expression_fault(
        "Match: only Option/Result (2-arm), integer-literal, or enum-variant arms supported",
    )
}

impl Z3Translator {
    /// A translator for a solver with the given budget.
    pub fn new(timeout_ms: u64) -> (r: Self)
        ensures
            r.timeout_ms == timeout_ms,
    {
        Z3Translator { timeout_ms }
    }

    /// An expression as a term.
    #[verifier::rlimit(60)]
    pub fn translate_expr_with_vars(&self, e: &Expr, vars: &mut VarMap) -> (r: Result<
        Rc<Term>,
        TranslationError,
    >)
        ensures
            (seen(r), final(vars)@) == z3_rules::expr(*e, old(vars)@),
        decreases e, 2int, 0int,
    {
        match e {
            Expr::Lit(l) => translate_literal(l),
            Expr::Path(p) => Ok(path_term(p, vars)),
            Expr::Binary(op, l, r) => {
                let lf = match self.translate_expr_with_vars(l, vars) {
                    Ok(t) => t,
                    Err(x) => {
                        return Err(x);
                    },
                };
                let rf = match self.translate_expr_with_vars(r, vars) {
                    Ok(t) => t,
                    Err(x) => {
                        return Err(x);
                    },
                };
                let left = extract_int_literal(l);
                let right = extract_int_literal(r);
                binary_with_literals(op, &lf, &rf, left, right)
            },
            Expr::MethodCall(_, _, _) => self.translate_method_call(e, vars),
            Expr::Call(_, _) => self.translate_call(e, vars),
            Expr::Unary(op, a) => match self.translate_expr_with_vars(a, vars) {
                Ok(t) => translate_unary_op(op, &t),
                Err(x) => Err(x),
            },
            Expr::Paren(a) => self.translate_expr_with_vars(a, vars),
            Expr::Cast(a) => self.translate_expr_with_vars(a, vars),
            Expr::Reference(a) => self.translate_expr_with_vars(a, vars),
            Expr::Try(a) => self.translate_expr_with_vars(a, vars),
            Expr::Tuple(elems) => if elems.len() > 0 {
                self.translate_expr_with_vars(&elems[0], vars)
            } else {
                Ok(fresh(vars, "tuple_"))
            },
            Expr::Array(elems) => {
                if elems.len() == 1 {
                    if let Some(v) = extract_int_literal(&elems[0]) {
                        return Ok(int_term(v as i128));
                    }
                }
                Ok(fresh(vars, "array_"))
            },
            Expr::Repeat(a, n) => {
                let _ = self.translate_expr_with_vars(n, vars);
                if let Some(v) = extract_int_literal(a) {
                    if v == 0 {
                        return Ok(int_term(0));
                    }
                }
                Ok(fresh(vars, "repeat_"))
            },
            Expr::Range(start, end, _) => {
                if let Some(s) = start {
                    let _ = self.translate_expr_with_vars(s, vars);
                }
                if let Some(s) = end {
                    let _ = self.translate_expr_with_vars(s, vars);
                }
                Ok(fresh(vars, "range_"))
            },
            Expr::Field(base, m) => {
                let name = field_expr_to_var_name(base, m);
                Ok(int_entry(vars, name.as_str()))
            },
            Expr::Index(a, i) => {
                if let Err(x) = self.translate_expr_with_vars(a, vars) {
                    return Err(x);
                }
                if let Err(x) = self.translate_expr_with_vars(i, vars) {
                    return Err(x);
                }
                Ok(fresh(vars, "index_"))
            },
            Expr::Block(block) => {
                self.bind_locals(block, vars);
                self.tail_value(block, "Block expression: no final expression", vars)
            },
            Expr::Match(_, _) => self.translate_match(e, vars),
            Expr::ForLoop(a, body) => {
                let _ = self.translate_expr_with_vars(a, vars);
                let _ = self.translate_block_to_result_formula(body, vars);
                Ok(fresh(vars, "for_loop_"))
            },
            Expr::While(a, body) => {
                let _ = self.translate_expr_with_vars(a, vars);
                let _ = self.translate_block_to_result_formula(body, vars);
                Ok(fresh(vars, "while_loop_"))
            },
            Expr::Loop(body) => {
                let _ = self.translate_block_to_result_formula(body, vars);
                Ok(fresh(vars, "loop_"))
            },
            Expr::Closure(_, body) => {
                let _ = self.translate_expr_with_vars(body, vars);
                Ok(fresh(vars, "closure_"))
            },
            Expr::If(_, _, _) => self.translate_if_expr_to_dynamic(e, vars),
            Expr::Let(p, description, a) => {
                let l = match parse_let_option_result_pat(p) {
                    Some(l) => l,
                    None => {
                        return Err(
                            TranslationError::UnsupportedExpression(
                                cat(
                                    "Let: only Some(x), Ok(x), Err(e), Err(_), None patterns supported, got ",
                                    description.as_str(),
                                ),
                            ),
                        );
                    },
                };
                if let Err(x) = self.translate_expr_with_vars(a, vars) {
                    return Err(x);
                }
                let base = expr_to_var_hint(a);
                let name = cat3(base.as_str(), "_", l.suffix);
                let fault = cat(l.suffix, ": expected Bool");
                let c = match truth_entry(vars, name.as_str(), fault.as_str()) {
                    Ok(c) => c,
                    Err(x) => {
                        return Err(x);
                    },
                };
                if let Some(x) = &l.binds {
                    let _ = int_entry(vars, x.as_str());
                }
                if l.positive {
                    Ok(c)
                } else {
                    Ok(not_term(&c))
                }
            },
            Expr::Struct(fields) => match self.bind_fields(fields, vars) {
                Some(t) => Ok(t),
                None => Ok(fresh(vars, "struct_")),
            },
            Expr::Assign(_, _, description) => Err(expression_fault(description.as_str())),
            Expr::Return(_, description) => Err(expression_fault(description.as_str())),
            Expr::Other(description) => Err(expression_fault(description.as_str())),
        }
    }

    /// Binds what the `let` statements of a block bind.
    fn bind_locals(&self, block: &Block, vars: &mut VarMap)
        ensures
            final(vars)@ == z3_rules::locals(*block, 0, old(vars)@),
        decreases block, 1int, 0int,
    {
        let mut i: usize = 0;
        while i < block.stmts.len()
            invariant
                i <= block.stmts.len(),
                z3_rules::locals(*block, 0, old(vars)@) == z3_rules::locals(
                    *block,
                    i as int,
                    vars@,
                ),
            decreases block.stmts.len() - i,
        {
            match &block.stmts[i] {
                Stmt::Local(Pat::Ident(x), Some(init)) => {
                    if let Ok(t) = self.translate_expr_with_vars(init, vars) {
                        vars.insert(x.as_str(), t);
                    }
                },
                _ => {},
            }
            i += 1;
        }
    }

    /// The value of the last expression of a block.
    fn tail_value(&self, block: &Block, missing: &str, vars: &mut VarMap) -> (r: Result<
        Rc<Term>,
        TranslationError,
    >)
        ensures
            (seen(r), final(vars)@) == z3_rules::last_value(*block, missing@, old(vars)@),
            missing@ == "Block expression: no final expression"@ ==> (seen(r), final(vars)@)
                == z3_rules::tail_value(*block, old(vars)@),
        decreases block, 1int, 0int,
    {
        let n: usize = block.stmts.len();
        if n > 0 {
            match &block.stmts[n - 1] {
                Stmt::Tail(e, _) => self.translate_expr_with_vars(e, vars),
                _ => Err(expression_fault(missing)),
            }
        } else {
            Err(expression_fault(missing))
        }
    }

    /// Binds the named fields of a struct expression; the first value stands for the struct.
    fn bind_fields(&self, fields: &Vec<FieldValue>, vars: &mut VarMap) -> (r: Option<Rc<Term>>)
        ensures
            (seen_some(r), final(vars)@) == z3_rules::struct_fields(*fields, 0, None, old(vars)@),
        decreases fields, 1int, 0int,
    {
        let mut first: Option<Rc<Term>> = None;
        let mut i: usize = 0;
        while i < fields.len()
            invariant
                i <= fields.len(),
                z3_rules::struct_fields(*fields, 0, None, old(vars)@) == z3_rules::struct_fields(
                    *fields,
                    i as int,
                    seen_some(first),
                    vars@,
                ),
            decreases fields.len() - i,
        {
            match &fields[i].member {
                Member::Named(name) => {
                    if let Ok(t) = self.translate_expr_with_vars(&fields[i].expr, vars) {
                        let _ = vars.entry(name.as_str(), t.clone());
                        if first.is_none() {
                            first = Some(t);
                        }
                    }
                },
                Member::Unnamed(_) => {},
            }
            i += 1;
        }
        first
    }

    /// Binds what the arguments of a call bind.
    fn bind_arguments(&self, args: &Vec<Expr>, vars: &mut VarMap)
        ensures
            final(vars)@ == z3_rules::arguments_bound(*args, 0, old(vars)@),
        decreases args, 1int, 0int,
    {
        let mut i: usize = 0;
        while i < args.len()
            invariant
                i <= args.len(),
                z3_rules::arguments_bound(*args, 0, old(vars)@) == z3_rules::arguments_bound(
                    *args,
                    i as int,
                    vars@,
                ),
            decreases args.len() - i,
        {
            let _ = self.translate_expr_with_vars(&args[i], vars);
            i += 1;
        }
    }

    /// The arguments of a call as integers.
    fn translate_arguments(&self, args: &Vec<Expr>, vars: &mut VarMap) -> (r: Result<
        Vec<Rc<Term>>,
        TranslationError,
    >)
        ensures
            (match r {
                Ok(v) => Ok(term::forms(v@)),
                Err(e) => Err(e@),
            }, final(vars)@) == z3_rules::arguments(*args, 0, seq![], old(vars)@),
        decreases args, 1int, 0int,
    {
        let mut out: Vec<Rc<Term>> = Vec::new();
        let mut i: usize = 0;
        proof {
            assert(term::forms(out@) =~= seq![]);
        }
        while i < args.len()
            invariant
                i <= args.len(),
                z3_rules::arguments(*args, 0, seq![], old(vars)@) == z3_rules::arguments(
                    *args,
                    i as int,
                    term::forms(out@),
                    vars@,
                ),
            decreases args.len() - i,
        {
            match self.translate_expr_with_vars(&args[i], vars) {
                Ok(t) => {
                    let ghost had = out@;
                    let t = integer_term(&t);
                    let ghost tv = t.form();
                    out.push(t);
                    proof {
                        assert(term::forms(out@) =~= term::forms(had).push(tv));
                    }
                },
                Err(x) => {
                    return Err(x);
                },
            }
            i += 1;
        }
        Ok(out)
    }

    /// The value of a closure of one parameter.
    fn closure_value(&self, e: &Expr, prefix: &str, vars: &mut VarMap) -> (r: Result<
        Rc<Term>,
        TranslationError,
    >)
        requires
            z3_rules::closure_param(*e) is Some,
        ensures
            (seen(r), final(vars)@) == z3_rules::closure_value(*e, prefix@, old(vars)@),
        decreases e, 1int, 0int,
    {
        match (closure_param(e), e) {
            (Some(x), Expr::Closure(_, body)) => {
                let before = vars.get(x.as_str());
                let name = cat(prefix, x.as_str());
                vars.insert(x.as_str(), var_term(name.as_str(), Sort::Int));
                let r = self.translate_expr_with_vars(body, vars);
                vars.restore(x.as_str(), before);
                r
            },
            _ => Err(expression_fault("")),
        }
    }

    /// What an option or a result holds.
    fn unwrapped(&self, receiver: &Expr, base: &str, vars: &mut VarMap) -> (r: Result<
        Rc<Term>,
        TranslationError,
    >)
        ensures
            (seen(r), final(vars)@) == z3_rules::unwrapped(*receiver, base@, old(vars)@),
        decreases receiver, 3int, 0int,
    {
        if let Expr::Call(Callee::Path(p), args) = receiver {
            let last = last_segment(p);
            if (same(last.as_str(), "Some") || same(last.as_str(), "Ok")) && args.len() == 1 {
                return self.translate_expr_with_vars(&args[0], vars);
            }
        }
        let _ = self.translate_expr_with_vars(receiver, vars);
        Ok(int_entry(vars, cat(base, "_unwrap").as_str()))
    }

    /// Whether `x` is in a range or another collection.
    fn contained(&self, receiver: &Expr, base: &str, x: &Rc<Term>, vars: &mut VarMap) -> (r: Result<
        Rc<Term>,
        TranslationError,
    >)
        ensures
            (seen(r), final(vars)@) == z3_rules::contained(
                *receiver,
                base@,
                x.form(),
                old(vars)@,
            ),
        decreases receiver, 3int, 0int,
    {
        if let Expr::Range(start, end, closed) = receiver {
            let lo = match start {
                Some(s) => match self.translate_expr_with_vars(s, vars) {
                    Ok(t) => {
                        if t.sort() != Sort::Int {
                            return Err(type_fault("contains: range start must be Int"));
                        }
                        t
                    },
                    Err(f) => {
                        return Err(f);
                    },
                },
                None => int_term(-4611686018427387904),
            };
            let hi = match end {
                Some(s) => match self.translate_expr_with_vars(s, vars) {
                    Ok(t) => {
                        if t.sort() != Sort::Int {
                            return Err(type_fault("contains: range end must be Int"));
                        }
                        if *closed {
                            t
                        } else {
                            binary_term(TermOp::Minus, &t, &int_term(1))
                        }
                    },
                    Err(f) => {
                        return Err(f);
                    },
                },
                None => int_term(4611686018427387903),
            };
            let above = binary_term(TermOp::Le, &lo, x);
            let below = binary_term(TermOp::Le, x, &hi);
            return Ok(both_term(&above, &below));
        }
        let _ = self.translate_expr_with_vars(receiver, vars);
        Ok(bool_entry(vars, cat(base, "_contains").as_str()))
    }

    /// A method call.
    #[verifier::rlimit(80)]
    fn translate_method_call(&self, e: &Expr, vars: &mut VarMap) -> (r: Result<
        Rc<Term>,
        TranslationError,
    >)
        requires
            e is MethodCall,
        ensures
            (seen(r), final(vars)@) == z3_rules::method_call(*e, old(vars)@),
        decreases e, 1int, 2int,
    {
        if let Expr::MethodCall(receiver, name, args) = e {
            let m = name.as_str();
            let base = expr_to_var_hint(receiver);
            if let Some((missing, left, right)) = binary_method(m) {
                let l = match self.translate_expr_with_vars(receiver, vars) {
                    Ok(t) => t,
                    Err(x) => {
                        return Err(x);
                    },
                };
                if args.len() == 0 {
                    return Err(expression_fault(missing));
                }
                let r = match self.translate_expr_with_vars(&args[0], vars) {
                    Ok(t) => t,
                    Err(x) => {
                        return Err(x);
                    },
                };
                return match two_integers(&l, &r, left, right) {
                    Some(x) => Err(x),
                    None => Ok(binary_method_value(m, &l, &r)),
                };
            }
            if passes_through(m) {
                return self.translate_expr_with_vars(receiver, vars);
            }
            if same(m, "with") {
                if args.len() > 0 && closure_param(&args[0]).is_some() {
                    return self.closure_value(&args[0], "with_", vars);
                }
                let _ = self.translate_expr_with_vars(receiver, vars);
                return Ok(int_entry(vars, cat(base.as_str(), "_with_result").as_str()));
            }
            if mutates(m) {
                let _ = self.translate_expr_with_vars(receiver, vars);
                self.bind_arguments(args, vars);
                let after = cat3(base.as_str(), "_after_", m);
                let t = int_entry(vars, after.as_str());
                if let Expr::Path(p) = &**receiver {
                    vars.insert(path_to_string(p).as_str(), t.clone());
                }
                return Ok(t);
            }
            return self.translate_value_method(e, base.as_str(), vars);
        }
        Err(expression_fault(""))
    }

    /// A method call for its value.
    #[verifier::rlimit(60)]
    fn translate_value_method(&self, e: &Expr, base: &str, vars: &mut VarMap) -> (r: Result<
        Rc<Term>,
        TranslationError,
    >)
        requires
            e is MethodCall,
            base@ == z3_tables::hint(*e->MethodCall_0),
        ensures
            (seen(r), final(vars)@) == z3_rules::value_method(*e, old(vars)@),
        decreases e, 1int, 1int,
    {
        if let Expr::MethodCall(receiver, name, args) = e {
            let m = name.as_str();
            if same(m, "digest") || same(m, "finalize") {
                if args.len() > 0 {
                    return match self.translate_expr_with_vars(&args[0], vars) {
                        Ok(t) => if t.sort() == Sort::Int {
                            Ok(one_argument("sha256_digest", &t))
                        } else {
                            Err(type_fault("digest arg must be Int"))
                        },
                        Err(x) => Err(x),
                    };
                }
                let _ = self.translate_expr_with_vars(receiver, vars);
                return Ok(int_entry(vars, cat(base, "_digest").as_str()));
            }
            if same(m, "hash256") || same(m, "hash") {
                if args.len() == 0 {
                    return Err(expression_fault("hash256/hash needs 1 arg"));
                }
                return match self.translate_expr_with_vars(&args[0], vars) {
                    Ok(t) => if t.sort() == Sort::Int {
                        Ok(one_argument("hash256", &t))
                    } else {
                        Err(type_fault("hash arg must be Int"))
                    },
                    Err(x) => Err(x),
                };
            }
            if same(m, "map") {
                if args.len() > 0 && closure_param(&args[0]).is_some() {
                    if let Err(x) = self.translate_expr_with_vars(receiver, vars) {
                        return Err(x);
                    }
                    if let Ok(t) = self.closure_value(&args[0], "map_", vars) {
                        return Ok(t);
                    }
                }
                let _ = self.translate_expr_with_vars(receiver, vars);
                return Ok(int_entry(vars, cat(base, "_map").as_str()));
            }
            if let Some(suffix) = value_suffix(m) {
                let _ = self.translate_expr_with_vars(receiver, vars);
                return Ok(int_entry(vars, cat(base, suffix).as_str()));
            }
            if same(m, "len") {
                let _ = self.translate_expr_with_vars(receiver, vars);
                return Ok(int_entry(vars, length_var_name(base).as_str()));
            }
            if same(m, "fold") {
                let _ = self.translate_expr_with_vars(receiver, vars);
                if args.len() > 0 {
                    let _ = self.translate_expr_with_vars(&args[0], vars);
                }
                return Ok(int_entry(vars, cat(base, "_fold").as_str()));
            }
            if same(m, "to_le_bytes") {
                return match self.translate_expr_with_vars(receiver, vars) {
                    Ok(t) => if t.sort() == Sort::Int {
                        Ok(one_argument("to_le_bytes", &t))
                    } else {
                        Err(type_fault("to_le_bytes: expected Int"))
                    },
                    Err(x) => Err(x),
                };
            }
            return self.translate_test_method(e, base, vars);
        }
        Err(expression_fault(""))
    }

    /// A method call that tests its receiver or opens it.
    #[verifier::rlimit(60)]
    fn translate_test_method(&self, e: &Expr, base: &str, vars: &mut VarMap) -> (r: Result<
        Rc<Term>,
        TranslationError,
    >)
        requires
            e is MethodCall,
            base@ == z3_tables::hint(*e->MethodCall_0),
        ensures
            (seen(r), final(vars)@) == z3_rules::test_method(*e, old(vars)@),
        decreases e, 1int, 0int,
    {
        if let Expr::MethodCall(receiver, name, args) = e {
            let m = name.as_str();
            if same(m, "is_some") || same(m, "is_none") {
                let _ = self.translate_expr_with_vars(receiver, vars);
                let slot = cat(base, "_is_some");
                return match truth_entry(vars, slot.as_str(), "is_some: expected Bool") {
                    Ok(t) => if same(m, "is_none") {
                        Ok(not_term(&t))
                    } else {
                        Ok(t)
                    },
                    Err(x) => Err(x),
                };
            }
            if same(m, "is_ok") || same(m, "is_err") {
                let _ = self.translate_expr_with_vars(receiver, vars);
                let slot = cat(base, "_is_ok");
                return match truth_entry(vars, slot.as_str(), "is_ok: expected Bool") {
                    Ok(t) => if same(m, "is_err") {
                        Ok(not_term(&t))
                    } else {
                        Ok(t)
                    },
                    Err(x) => Err(x),
                };
            }
            if same(m, "unwrap") {
                if args.len() > 0 {
                    return Err(expression_fault("unwrap with args not supported"));
                }
                return self.unwrapped(receiver, base, vars);
            }
            if same(m, "is_empty") {
                let _ = self.translate_expr_with_vars(receiver, vars);
                let t = int_entry(vars, length_var_name(base).as_str());
                return if t.sort() == Sort::Int {
                    Ok(binary_term(TermOp::Eq, &t, &int_term(0)))
                } else {
                    Err(type_fault("is_empty: len must be Int"))
                };
            }
            if same(m, "all") {
                let _ = self.translate_expr_with_vars(receiver, vars);
                return Ok(bool_entry(vars, cat(base, "_all").as_str()));
            }
            if same(m, "contains") {
                if args.len() == 0 {
                    return Err(expression_fault("contains needs 1 arg"));
                }
                return match self.translate_expr_with_vars(&args[0], vars) {
                    Ok(x) => if x.sort() != Sort::Int {
                        Err(type_fault("contains: arg must be Int"))
                    } else {
                        self.contained(receiver, base, &x, vars)
                    },
                    Err(x) => Err(x),
                };
            }
            return Err(TranslationError::UnsupportedExpression(cat("Method call: ", m)));
        }
        Err(expression_fault(""))
    }

    /// A call of an uninterpreted function.
    fn translate_known_call(
        &self,
        e: &Expr,
        base: &str,
        name: &str,
        arity: Option<usize>,
        sort: Sort,
        vars: &mut VarMap,
    ) -> (r: Result<Rc<Term>, TranslationError>)
        requires
            e is Call,
        ensures
            (seen(r), final(vars)@) == z3_rules::known_call(
                *e,
                base@,
                name@,
                match arity {
                    Some(n) => Some(n as nat),
                    None => None,
                },
                sort,
                old(vars)@,
            ),
        decreases e, 0int, 0int,
    {
        if let Expr::Call(_, args) = e {
            let fs = match self.translate_arguments(args, vars) {
                Ok(fs) => fs,
                Err(x) => {
                    return Err(x);
                },
            };
            let n: usize = fs.len();
            proof {
                assert(term::forms(fs@).len() == n);
            }
            if let Some(expected) = arity {
                if n != expected {
                    let front = cat3(base, " expects ", count_text(expected).as_str());
                    let message = cat3(front.as_str(), " args, got ", count_text(n).as_str());
                    return Err(TranslationError::UnsupportedExpression(message));
                }
            }
            let plain = function_name(name, arity.is_none(), n);
            return if sort == Sort::Bool {
                Ok(call_term(cat(plain.as_str(), "_b").as_str(), fs, sort))
            } else {
                Ok(call_term(plain.as_str(), fs, sort))
            };
        }
        Err(expression_fault(""))
    }

    /// A call.
    #[verifier::rlimit(60)]
    fn translate_call(&self, e: &Expr, vars: &mut VarMap) -> (r: Result<Rc<Term>, TranslationError>)
        requires
            e is Call,
        ensures
            (seen(r), final(vars)@) == z3_rules::call(*e, old(vars)@),
        decreases e, 1int, 0int,
    {
        match e {
            Expr::Call(Callee::Other(description), _) => Err(
                TranslationError::UnsupportedExpression(cat("Call func: ", description.as_str())),
            ),
            Expr::Call(Callee::Path(p), args) => {
                let last = last_segment(p);
                let base = last.as_str();
                if same(base, "result") {
                    return Ok(int_entry(vars, "result"));
                }
                if (same(base, "Ok") || same(base, "Some")) && args.len() == 1 {
                    return self.translate_expr_with_vars(&args[0], vars);
                }
                if same(base, "new") || same(base, "default") {
                    self.bind_arguments(args, vars);
                    return Ok(int_entry(vars, cat(base, "_result").as_str()));
                }
                if same(base, "Err") && args.len() <= 1 {
                    return Ok(int_term(0));
                }
                if same(base, "Invalid") || same(base, "Rejected") {
                    self.bind_arguments(args, vars);
                    return Ok(bool_term(false));
                }
                if let Some((name, arity)) = known_bool_uninterpreted_function(base) {
                    return self.translate_known_call(e, base, name, arity, Sort::Bool, vars);
                }
                if let Some((name, arity)) = known_uninterpreted_function(base) {
                    return self.translate_known_call(e, base, name, arity, Sort::Int, vars);
                }
                if let Some(name) = known_int_returning_function(base) {
                    self.bind_arguments(args, vars);
                    return Ok(int_entry(vars, name.as_str()));
                }
                if let Some(name) = known_bool_returning_function(base) {
                    self.bind_arguments(args, vars);
                    return Ok(bool_entry(vars, name.as_str()));
                }
                if let Some(fields) = known_struct_field_function(base) {
                    self.bind_arguments(args, vars);
                    let front = cat3("call_", base, "_");
                    let field = cat(front.as_str(), fields[0].0);
                    let _ = vars.entry(field.as_str(), int_term(fields[0].1 as i128));
                    return Ok(int_entry(vars, cat3("call_", base, "_struct").as_str()));
                }
                match self.translate_arguments(args, vars) {
                    Ok(fs) => {
                        let n: usize = fs.len();
                        proof {
                            assert(term::forms(fs@).len() == n);
                        }
                        let front = cat3("call_", base, "_");
                        let name = cat(front.as_str(), count_text(n).as_str());
                        Ok(call_term(name.as_str(), fs, Sort::Int))
                    },
                    Err(x) => Err(x),
                }
            },
            _ => Err(expression_fault("")),
        }
    }

    /// The arms of a match, by literals or by variants.
    #[verifier::rlimit(40)]
    fn translate_arms(&self, v: &Vec<Arm>, literals: bool, vars: &mut VarMap) -> (r: ArmTerms)
        ensures
            (seen_arm_terms(r), final(vars)@) == z3_rules::arms(
                *v,
                0,
                literals,
                seq![],
                None,
                false,
                old(vars)@,
            ),
            r matches ArmTerms::Read(a, _, _) ==> a@.len() <= v@.len(),
        decreases v, 1int, 0int,
    {
        let mut read: Vec<(i128, Rc<Term>)> = Vec::new();
        let mut default: Option<Rc<Term>> = None;
        let mut truth = false;
        let mut i: usize = 0;
        proof {
            assert(seen_arms(read@) =~= seq![]);
        }
        while i < v.len()
            invariant
                i <= v.len(),
                read@.len() <= i,
                z3_rules::arms(*v, 0, literals, seq![], None, false, old(vars)@) == z3_rules::arms(
                    *v,
                    i as int,
                    literals,
                    seen_arms(read@),
                    seen_some(default),
                    truth,
                    vars@,
                ),
            decreases v.len() - i,
        {
            if v[i].guard {
                return ArmTerms::Stopped;
            }
            let t = match self.translate_expr_with_vars(&v[i].body, vars) {
                Ok(t) => t,
                Err(_) => {
                    return ArmTerms::Stopped;
                },
            };
            if t.sort() == Sort::Bool {
                truth = true;
            }
            let ghost had = read@;
            let ghost tv = t.form();
            match arm_number(&v[i].pat, literals, read.len()) {
                Some(Ok(n)) => {
                    read.push((n, t));
                    proof {
                        assert(seen_arms(read@) =~= seen_arms(had).push((n as int, tv)));
                    }
                },
                Some(Err(x)) => {
                    return ArmTerms::Failed(x);
                },
                None => match &v[i].pat {
                    Pat::Wild => {
                        default = Some(t);
                    },
                    Pat::Ident(_) => {
                        default = Some(t);
                    },
                    _ => {
                        return ArmTerms::Stopped;
                    },
                },
            }
            i += 1;
        }
        ArmTerms::Read(read, default, truth)
    }

    /// A match of an option or a result.
    fn translate_option_match(
        &self,
        v: &Vec<Arm>,
        base: &str,
        x: &str,
        some: usize,
        none: usize,
        vars: &mut VarMap,
    ) -> (r: Result<Rc<Term>, TranslationError>)
        requires
            some < v@.len(),
            none < v@.len(),
        ensures
            (seen(r), final(vars)@) == z3_rules::option_match(
                *v,
                base@,
                x@,
                some as int,
                none as int,
                old(vars)@,
            ),
        decreases v, 1int, 0int,
    {
        let _ = int_entry(vars, x);
        let then = match self.translate_expr_with_vars(&v[some].body, vars) {
            Ok(t) => t,
            Err(f) => {
                return Err(f);
            },
        };
        let other = match self.translate_expr_with_vars(&v[none].body, vars) {
            Ok(t) => t,
            Err(f) => {
                return Err(f);
            },
        };
        let slot = cat(base, "_is_some");
        let c = match truth_entry(vars, slot.as_str(), "is_some: expected Bool") {
            Ok(t) => t,
            Err(f) => {
                return Err(f);
            },
        };
        match two_integers(&then, &other, "match body: expected Int", "match default: expected Int") {
            Some(f) => Err(f),
            None => Ok(ite_term(&c, &then, &other)),
        }
    }

    /// A match of variants.
    fn translate_variant_match(&self, v: &Vec<Arm>, scrutinee: &Rc<Term>, vars: &mut VarMap) -> (r:
        Result<Rc<Term>, TranslationError>)
        ensures
            (seen(r), final(vars)@) == z3_rules::variant_match(
                *v,
                scrutinee.form(),
                old(vars)@,
            ),
        decreases v, 2int, 0int,
    {
        match self.translate_arms(v, false, vars) {
            ArmTerms::Read(read, default, truth) => {
                proof {
                    assert(seen_arms(read@).len() == read@.len());
                }
                if read.len() == 0 {
                    return Err(unsupported_match());
                }
                if scrutinee.sort() != Sort::Int {
                    return Err(expression_fault("Match: enum scrutinee is not Int"));
                }
                Ok(tower_of(scrutinee, &read, &default, truth))
            },
            ArmTerms::Failed(x) => Err(x),
            ArmTerms::Stopped => Err(unsupported_match()),
        }
    }

    /// A match.
    fn translate_match(&self, e: &Expr, vars: &mut VarMap) -> (r: Result<Rc<Term>, TranslationError>)
        requires
            e is Match,
        ensures
            (seen(r), final(vars)@) == z3_rules::match_expr(*e, old(vars)@),
        decreases e, 1int, 0int,
    {
        if let Expr::Match(a, v) = e {
            let scrutinee = match self.translate_expr_with_vars(a, vars) {
                Ok(t) => t,
                Err(x) => {
                    return Err(x);
                },
            };
            let base = expr_to_var_hint(a);
            if let Some((x, some, none)) = option_arms(v) {
                return self.translate_option_match(v, base.as_str(), x.as_str(), some, none, vars);
            }
            if scrutinee.sort() == Sort::Int {
                match self.translate_arms(v, true, vars) {
                    ArmTerms::Failed(x) => {
                        return Err(x);
                    },
                    ArmTerms::Read(read, default, truth) => {
                        proof {
                            assert(seen_arms(read@).len() == read@.len());
                        }
                        if read.len() > 0 {
                            return Ok(tower_of(&scrutinee, &read, &default, truth));
                        }
                    },
                    ArmTerms::Stopped => {},
                }
            }
            return self.translate_variant_match(v, &scrutinee, vars);
        }
        Err(expression_fault(""))
    }

    /// The value of a conditional expression.
    fn translate_if_expr_to_dynamic(&self, e: &Expr, vars: &mut VarMap) -> (r: Result<
        Rc<Term>,
        TranslationError,
    >)
        requires
            e is If,
        ensures
            (seen(r), final(vars)@) == z3_rules::if_value(*e, old(vars)@),
        decreases e, 1int, 0int,
    {
        if let Expr::If(cond, then, other) = e {
            let c = match self.translate_expr_with_vars(cond, vars) {
                Ok(t) => t,
                Err(x) => {
                    return Err(x);
                },
            };
            if c.sort() != Sort::Bool {
                return Err(type_fault("If condition must be boolean"));
            }
            let t = match self.tail_value(
                then,
                "If then branch: expected single expression",
                vars,
            ) {
                Ok(t) => t,
                Err(x) => {
                    return Err(x);
                },
            };
            let second = match other {
                None => Err(expression_fault("If without else not supported as expression")),
                Some(o) => match &**o {
                    Expr::Block(block) => self.tail_value(
                        block,
                        "If else block: expected single expression",
                        vars,
                    ),
                    Expr::If(_, _, _) => self.translate_if_expr_to_dynamic(o, vars),
                    _ => self.translate_expr_with_vars(o, vars),
                },
            };
            return match second {
                Ok(o) => if t.sort() == o.sort() {
                    Ok(ite_term(&c, &t, &o))
                } else {
                    Err(type_fault("If branches must both be Int or both Bool"))
                },
                Err(x) => Err(x),
            };
        }
        Err(expression_fault(""))
    }

    /// What the result is by `Ok(x)`, where the result is an integer.
    fn ok_equation(&self, r: &Expr, vars: &mut VarMap) -> (out: Result<
        Option<Rc<Term>>,
        TranslationError,
    >)
        ensures
            (seen_formula(out), final(vars)@) == z3_rules::ok_equation(*r, old(vars)@),
        decreases r, 3int, 0int,
    {
        if let Expr::Call(Callee::Path(p), args) = r {
            if same(last_segment(p).as_str(), "Ok") && args.len() == 1 {
                let f = match self.translate_expr_with_vars(&args[0], vars) {
                    Ok(t) => t,
                    Err(x) => {
                        return Err(x);
                    },
                };
                if let Some(result) = vars.get("result") {
                    if result.sort() != Sort::Int {
                        return Ok(None);
                    }
                    if f.sort() == Sort::Bool {
                        return Ok(Some(binary_term(TermOp::Eq, &result, &ok_code(&f))));
                    }
                    return Ok(Some(binary_term(TermOp::Eq, &result, &f)));
                }
            }
        }
        Ok(None)
    }

    /// What the result is by the value of `r`.
    fn result_equation(&self, r: &Expr, vars: &mut VarMap) -> (out: Result<
        Option<Rc<Term>>,
        TranslationError,
    >)
        ensures
            (seen_formula(out), final(vars)@) == z3_rules::result_equation(*r, old(vars)@),
        decreases r, 3int, 0int,
    {
        match self.translate_expr_with_vars(r, vars) {
            Err(_) => Ok(None),
            Ok(f) => match vars.get("result") {
                None => Err(no_result()),
                Some(result) => Ok(equation_term(&result, &f)),
            },
        }
    }

    /// What the result is by a return of `r`; nothing for an error.
    fn returned_value(&self, r: &Expr, vars: &mut VarMap) -> (out: Result<
        Option<Rc<Term>>,
        TranslationError,
    >)
        ensures
            (seen_formula(out), final(vars)@) == z3_rules::returned_value(*r, old(vars)@),
        decreases r, 4int, 0int,
    {
        match self.ok_equation(r, vars) {
            Err(x) => Err(x),
            Ok(Some(f)) => Ok(Some(f)),
            Ok(None) => if is_error(r) {
                Ok(None)
            } else {
                self.result_equation(r, vars)
            },
        }
    }

    /// What the result is by the first return statement of a branch that can be read.
    fn returned(&self, block: &Block, vars: &mut VarMap) -> (out: Result<
        Option<Rc<Term>>,
        TranslationError,
    >)
        ensures
            (seen_formula(out), final(vars)@) == z3_rules::returned(*block, 0, old(vars)@),
        decreases block, 1int, 0int,
    {
        let mut i: usize = 0;
        while i < block.stmts.len()
            invariant
                i <= block.stmts.len(),
                z3_rules::returned(*block, 0, old(vars)@) == z3_rules::returned(
                    *block,
                    i as int,
                    vars@,
                ),
            decreases block.stmts.len() - i,
        {
            match &block.stmts[i] {
                Stmt::Semi(Expr::Return(Some(r), _)) => match self.returned_value(r, vars) {
                    Ok(None) => {},
                    out => {
                        return out;
                    },
                },
                Stmt::Tail(Expr::Return(Some(r), _), _) => match self.returned_value(r, vars) {
                    Ok(None) => {},
                    out => {
                        return out;
                    },
                },
                _ => {},
            }
            i += 1;
        }
        Ok(None)
    }

    /// A conditional with a return in its branch: the condition and what the result then is.
    fn translate_if_with_early_return(&self, e: &Expr, vars: &mut VarMap) -> (out: Result<
        Option<(Rc<Term>, Rc<Term>)>,
        TranslationError,
    >)
        ensures
            (match out {
                Ok(Some((c, f))) => Ok(Some((c.form(), f.form()))),
                Ok(None) => Ok(None),
                Err(x) => Err(x@),
            }, final(vars)@) == z3_rules::early_return(*e, old(vars)@),
        decreases e, 3int, 0int,
    {
        if let Expr::If(cond, then, _) = e {
            let c = match self.translate_expr_with_vars(cond, vars) {
                Ok(t) => t,
                Err(x) => {
                    return Err(x);
                },
            };
            if c.sort() != Sort::Bool {
                return Ok(None);
            }
            return match self.returned(then, vars) {
                Err(x) => Err(x),
                Ok(Some(f)) => Ok(Some((c, f))),
                Ok(None) => Ok(None),
            };
        }
        Ok(None)
    }

    /// A conditional that only returns an error: its condition.
    fn translate_if_with_err_return(&self, e: &Expr, vars: &mut VarMap) -> (out: Option<Rc<Term>>)
        ensures
            (seen_some(out), final(vars)@) == z3_rules::error_guard(*e, old(vars)@),
        decreases e, 3int, 0int,
    {
        if let Expr::If(cond, then, None) = e {
            return match self.translate_expr_with_vars(cond, vars) {
                Err(_) => None,
                Ok(c) => if c.sort() == Sort::Bool && only_returns_error(then) {
                    Some(c)
                } else {
                    None
                },
            };
        }
        None
    }

    /// The exits of a block after a conditional.
    fn add_exit(&self, e: &Expr, exits: &mut ExitTerms, vars: &mut VarMap) -> (out: Option<
        TranslationError,
    >)
        ensures
            (match out {
                Some(x) => Err(x@),
                None => Ok(final(exits).seen()),
            }, final(vars)@) == z3_rules::conditional_exit(*e, old(exits).seen(), old(vars)@),
        decreases e, 4int, 0int,
    {
        match self.translate_if_with_early_return(e, vars) {
            Err(x) => Some(x),
            Ok(Some((c, f))) => {
                let ghost had = exits.early@;
                let ghost pair = (c.form(), f.form());
                exits.early.push((c, f));
                proof {
                    assert(seen_pairs(exits.early@) =~= seen_pairs(had).push(pair));
                }
                None
            },
            Ok(None) => {
                if let Some(c) = self.translate_if_with_err_return(e, vars) {
                    let ghost had = exits.guards@;
                    let ghost cv = c.form();
                    exits.guards.push(c);
                    proof {
                        assert(term::forms(exits.guards@) =~= term::forms(had).push(cv));
                    }
                }
                None
            },
        }
    }

    /// Adds to or takes from a name.
    fn accumulate(&self, op: TermOp, name: &str, right: &Expr, vars: &mut VarMap)
        requires
            op == TermOp::Plus || op == TermOp::Minus,
        ensures
            final(vars)@ == z3_rules::accumulated(op, name@, *right, old(vars)@),
        decreases right, 3int, 0int,
    {
        let l = match vars.get(name) {
            Some(t) => t,
            None => var_term(name, Sort::Int),
        };
        if let Ok(r) = self.translate_expr_with_vars(right, vars) {
            if l.sort() == Sort::Int && r.sort() == Sort::Int {
                vars.insert(name, binary_term(op, &l, &r));
            }
        }
    }

    /// An assignment.
    fn assign(&self, e: &Expr, vars: &mut VarMap)
        ensures
            final(vars)@ == z3_rules::assigned(*e, old(vars)@),
        decreases e, 3int, 0int,
    {
        match e {
            Expr::Assign(left, right, _) => match &**left {
                Expr::Path(p) => {
                    if let Ok(t) = self.translate_expr_with_vars(right, vars) {
                        vars.insert(path_to_string(p).as_str(), t);
                    }
                },
                Expr::Index(a, i) => {
                    let _ = self.translate_expr_with_vars(a, vars);
                    let _ = self.translate_expr_with_vars(i, vars);
                    if let Ok(t) = self.translate_expr_with_vars(right, vars) {
                        let base = expr_to_var_hint(a);
                        let k: i64 = match extract_int_literal(i) {
                            Some(k) => k,
                            None => 0,
                        };
                        let name = cat3(base.as_str(), "_after_", integer_text(k).as_str());
                        vars.insert(name.as_str(), t.clone());
                        if let Expr::Path(p) = &**a {
                            vars.insert(path_to_string(p).as_str(), t);
                        }
                    }
                },
                _ => {},
            },
            Expr::Binary(BinOp::AddAssign(_), left, right) => {
                if let Expr::Path(p) = &**left {
                    self.accumulate(TermOp::Plus, path_to_string(p).as_str(), right, vars);
                }
            },
            Expr::Binary(BinOp::SubAssign(_), left, right) => {
                if let Expr::Path(p) = &**left {
                    self.accumulate(TermOp::Minus, path_to_string(p).as_str(), right, vars);
                }
            },
            _ => {},
        }
    }

    /// A statement that neither returns nor branches.
    fn run_effect(&self, e: &Expr, vars: &mut VarMap)
        ensures
            final(vars)@ == z3_rules::effect(*e, old(vars)@),
        decreases e, 4int, 0int,
    {
        match e {
            Expr::ForLoop(a, body) => {
                let _ = self.translate_expr_with_vars(a, vars);
                let _ = self.translate_block_to_result_formula(body, vars);
            },
            Expr::While(a, body) => {
                let _ = self.translate_expr_with_vars(a, vars);
                let _ = self.translate_block_to_result_formula(body, vars);
            },
            Expr::Loop(body) => {
                let _ = self.translate_block_to_result_formula(body, vars);
            },
            _ => {
                self.assign(e, vars);
            },
        }
    }

    /// The equations of the result's fields with those of a struct expression.
    fn field_equations(&self, fields: &Vec<FieldValue>, vars: &mut VarMap) -> (r: Vec<Rc<Term>>)
        ensures
            (term::forms(r@), final(vars)@) == z3_rules::field_equations(
                *fields,
                0,
                seq![],
                old(vars)@,
            ),
        decreases fields, 1int, 0int,
    {
        let mut out: Vec<Rc<Term>> = Vec::new();
        let mut i: usize = 0;
        proof {
            assert(term::forms(out@) =~= seq![]);
        }
        while i < fields.len()
            invariant
                i <= fields.len(),
                z3_rules::field_equations(*fields, 0, seq![], old(vars)@)
                    == z3_rules::field_equations(*fields, i as int, term::forms(out@), vars@),
            decreases fields.len() - i,
        {
            if let Member::Named(name) = &fields[i].member {
                if let Ok(f) = self.translate_expr_with_vars(&fields[i].expr, vars) {
                    if f.sort() == Sort::Int {
                        let slot = cat("result_", name.as_str());
                        let s = vars.entry(slot.as_str(), var_term(slot.as_str(), Sort::Int));
                        if s.sort() == Sort::Int {
                            let ghost had = out@;
                            let eq = binary_term(TermOp::Eq, &s, &f);
                            let ghost eqv = eq.form();
                            out.push(eq);
                            proof {
                                assert(term::forms(out@) =~= term::forms(had).push(eqv));
                            }
                        }
                    }
                }
            }
            i += 1;
        }
        out
    }

    /// The formula of a struct expression in return position.
    fn struct_formula(&self, e: &Expr, early: &Vec<(Rc<Term>, Rc<Term>)>, vars: &mut VarMap) -> (r:
        Option<Rc<Term>>)
        ensures
            (seen_some(r), final(vars)@) == z3_rules::struct_formula(
                *e,
                seen_pairs(early@),
                old(vars)@,
            ),
        decreases e, 3int, 0int,
    {
        if let Expr::Struct(fields) = e {
            let eqs = self.field_equations(fields, vars);
            proof {
                assert(term::forms(eqs@).len() == eqs@.len());
            }
            if eqs.len() > 0 {
                return Some(with_early(early, &all_term(eqs)));
            }
        }
        None
    }

    /// The equation of the result before the block with the value of `e`.
    fn slot_equation(&self, slot: &Option<Rc<Term>>, e: &Expr, vars: &mut VarMap) -> (r: Result<
        Option<Rc<Term>>,
        TranslationError,
    >)
        ensures
            (seen_formula(r), final(vars)@) == z3_rules::slot_equation(
                seen_some(*slot),
                *e,
                old(vars)@,
            ),
        decreases e, 3int, 0int,
    {
        match self.translate_expr_with_vars(e, vars) {
            Err(_) => Ok(None),
            Ok(f) => match slot {
                None => Err(no_result()),
                Some(s) => Ok(equation_term(s, &f)),
            },
        }
    }

    /// One statement of a block.
    #[verifier::rlimit(40)]
    fn run_statement(
        &self,
        block: &Block,
        i: usize,
        slot: &Option<Rc<Term>>,
        exits: &mut ExitTerms,
        vars: &mut VarMap,
    ) -> (r: StmtStep)
        requires
            i < block.stmts@.len(),
        ensures
            (seen_step(r, final(exits).seen()), final(vars)@) == z3_rules::statement(
                *block,
                i as int,
                seen_some(*slot),
                old(exits).seen(),
                old(vars)@,
            ),
        decreases block, 1int, 0int,
    {
        match &block.stmts[i] {
            Stmt::Local(Pat::Ident(x), Some(init)) => {
                if let Ok(t) = self.translate_expr_with_vars(init, vars) {
                    vars.insert(x.as_str(), t);
                }
                StmtStep::Next
            },
            Stmt::Semi(e) => match e {
                Expr::If(_, _, _) => match self.add_exit(e, exits, vars) {
                    Some(x) => StmtStep::Failed(x),
                    None => StmtStep::Next,
                },
                Expr::Return(Some(r), _) => match self.slot_equation(slot, r, vars) {
                    Err(x) => StmtStep::Failed(x),
                    Ok(Some(f)) => StmtStep::Found(with_early(&exits.early, &f)),
                    Ok(None) => StmtStep::Next,
                },
                _ => {
                    self.run_effect(e, vars);
                    StmtStep::Next
                },
            },
            Stmt::Tail(e, is_last) => {
                if !*is_last {
                    if let Expr::If(_, _, _) = e {
                        if let Some(x) = self.add_exit(e, exits, vars) {
                            return StmtStep::Failed(x);
                        }
                    }
                }
                if let Some(f) = self.struct_formula(e, &exits.early, vars) {
                    return StmtStep::Found(f);
                }
                if *is_last {
                    return StmtStep::Next;
                }
                match self.slot_equation(slot, e, vars) {
                    Err(x) => StmtStep::Failed(x),
                    Ok(Some(f)) => StmtStep::Found(with_early(&exits.early, &f)),
                    Ok(None) => StmtStep::Next,
                }
            },
            _ => StmtStep::Next,
        }
    }

    /// The formula of a block: what the result is by it.
    pub fn translate_block_to_result_formula(&self, block: &Block, vars: &mut VarMap) -> (r: Result<
        Option<Rc<Term>>,
        TranslationError,
    >)
        ensures
            (seen_formula(r), final(vars)@) == z3_rules::block_formula(*block, old(vars)@),
        decreases block, 2int, 0int,
    {
        let slot = vars.get("result");
        let mut exits = ExitTerms { early: Vec::new(), guards: Vec::new() };
        proof {
            assert(seen_pairs(exits.early@) =~= seq![]);
            assert(term::forms(exits.guards@) =~= seq![]);
        }
        let mut i: usize = 0;
        while i < block.stmts.len()
            invariant
                i <= block.stmts.len(),
                z3_rules::block_formula(*block, old(vars)@) == z3_rules::statements(
                    *block,
                    i as int,
                    seen_some(slot),
                    exits.seen(),
                    vars@,
                ),
            decreases block.stmts.len() - i,
        {
            match self.run_statement(block, i, &slot, &mut exits, vars) {
                StmtStep::Found(f) => {
                    return Ok(Some(f));
                },
                StmtStep::Failed(x) => {
                    return Err(x);
                },
                StmtStep::Next => {},
            }
            i += 1;
        }
        self.closing_formula(block, &slot, &exits, vars)
    }

    /// The formula of a block that was read to its end.
    fn closing_formula(
        &self,
        block: &Block,
        slot: &Option<Rc<Term>>,
        exits: &ExitTerms,
        vars: &mut VarMap,
    ) -> (r: Result<Option<Rc<Term>>, TranslationError>)
        ensures
            (seen_formula(r), final(vars)@) == z3_rules::closing_formula(
                *block,
                seen_some(*slot),
                exits.seen(),
                old(vars)@,
            ),
        decreases block, 1int, 0int,
    {
        let n: usize = block.stmts.len();
        let last = if n > 0 {
            match &block.stmts[n - 1] {
                Stmt::Tail(e, _) => match e {
                    Expr::Return(_, _) => self.final_return(e, slot, vars),
                    Expr::If(_, _, _) => self.final_return(e, slot, vars),
                    Expr::Call(_, _) => self.final_return(e, slot, vars),
                    _ => match self.translate_expr_with_vars(e, vars) {
                        Err(_) => Ok(None),
                        Ok(f) => match slot {
                            Some(s) => Ok(equation_term(s, &f)),
                            None => Ok(None),
                        },
                    },
                },
                _ => Ok(None),
            }
        } else {
            Ok(None)
        };
        match last {
            Err(x) => Err(x),
            Ok(f) => Ok(with_guards(&exits.guards, after_early(&exits.early, f))),
        }
    }

    /// The formula of the last expression of a block.
    fn final_return(&self, e: &Expr, slot: &Option<Rc<Term>>, vars: &mut VarMap) -> (r: Result<
        Option<Rc<Term>>,
        TranslationError,
    >)
        ensures
            (seen_formula(r), final(vars)@) == z3_rules::final_return(
                *e,
                seen_some(*slot),
                old(vars)@,
            ),
        decreases e, 6int, 0int,
    {
        let before = vars.get("result");
        if let Some(s) = slot {
            vars.insert("result", s.clone());
        }
        match self.translate_return_expr(e, vars) {
            Err(x) => Err(x),
            Ok(f) => {
                vars.restore("result", before);
                Ok(f)
            },
        }
    }

    /// The equations of the parts of the result with the elements of a tuple.
    fn tuple_equations(&self, elems: &Vec<Expr>, vars: &mut VarMap) -> (r: Vec<Rc<Term>>)
        ensures
            (term::forms(r@), final(vars)@) == z3_rules::tuple_equations(
                *elems,
                0,
                seq![],
                old(vars)@,
            ),
        decreases elems, 1int, 0int,
    {
        let mut out: Vec<Rc<Term>> = Vec::new();
        let mut i: usize = 0;
        proof {
            assert(term::forms(out@) =~= seq![]);
        }
        while i < elems.len()
            invariant
                i <= elems.len(),
                z3_rules::tuple_equations(*elems, 0, seq![], old(vars)@)
                    == z3_rules::tuple_equations(*elems, i as int, term::forms(out@), vars@),
            decreases elems.len() - i,
        {
            if let Ok(f) = self.translate_expr_with_vars(&elems[i], vars) {
                let slot = numbered("result_", i);
                if let Some(s) = vars.get(slot.as_str()) {
                    if let Some(eq) = equation_term(&s, &f) {
                        let ghost had = out@;
                        let ghost eqv = eq.form();
                        out.push(eq);
                        proof {
                            assert(term::forms(out@) =~= term::forms(had).push(eqv));
                        }
                    }
                }
            }
            i += 1;
        }
        out
    }

    /// What the result is by `Ok(b)` of a truth value, where the result is an integer.
    fn ok_truth_equation(&self, r: &Expr, vars: &mut VarMap) -> (out: Result<
        Option<Rc<Term>>,
        TranslationError,
    >)
        ensures
            (seen_formula(out), final(vars)@) == z3_rules::ok_truth_equation(*r, old(vars)@),
        decreases r, 3int, 0int,
    {
        if let Expr::Call(Callee::Path(p), args) = r {
            if same(last_segment(p).as_str(), "Ok") && args.len() == 1 {
                let f = match self.translate_expr_with_vars(&args[0], vars) {
                    Ok(t) => t,
                    Err(x) => {
                        return Err(x);
                    },
                };
                if let Some(result) = vars.get("result") {
                    if result.sort() == Sort::Int && f.sort() == Sort::Bool {
                        return Ok(Some(binary_term(TermOp::Eq, &result, &ok_code(&f))));
                    }
                }
            }
        }
        Ok(None)
    }

    /// What the result is by `Ok(x)` at the end of a block.
    fn ok_call_formula(&self, e: &Expr, vars: &mut VarMap) -> (out: Result<
        Option<Rc<Term>>,
        TranslationError,
    >)
        ensures
            (seen_formula(out), final(vars)@) == z3_rules::ok_call_formula(*e, old(vars)@),
        decreases e, 3int, 0int,
    {
        if let Expr::Call(Callee::Path(p), args) = e {
            if same(last_segment(p).as_str(), "Ok") && args.len() == 1 {
                if let Expr::Tuple(elems) = &args[0] {
                    let eqs = self.tuple_equations(elems, vars);
                    proof {
                        assert(term::forms(eqs@).len() == eqs@.len());
                    }
                    if eqs.len() > 0 {
                        return Ok(Some(all_term(eqs)));
                    }
                }
                let f = match self.translate_expr_with_vars(&args[0], vars) {
                    Ok(t) => t,
                    Err(x) => {
                        return Err(x);
                    },
                };
                if let Some(result) = vars.get("result") {
                    if result.sort() == Sort::Int && f.sort() == Sort::Bool {
                        return Ok(Some(binary_term(TermOp::Eq, &result, &ok_code(&f))));
                    }
                    return Ok(equation_term(&result, &f));
                }
            }
        }
        Ok(None)
    }

    /// The formula of an expression in return position.
    #[verifier::rlimit(60)]
    #[verifier::spinoff_prover]
    pub fn translate_return_expr(&self, e: &Expr, vars: &mut VarMap) -> (r: Result<
        Option<Rc<Term>>,
        TranslationError,
    >)
        ensures
            (seen_formula(r), final(vars)@) == z3_rules::return_formula(*e, old(vars)@),
        decreases e, 5int, 0int,
    {
        match e {
            Expr::Return(None, _) => Ok(None),
            Expr::Return(Some(r), _) => match self.ok_truth_equation(r, vars) {
                Err(x) => Err(x),
                Ok(Some(f)) => Ok(Some(f)),
                Ok(None) => match self.translate_expr_with_vars(r, vars) {
                    Err(x) => Err(x),
                    Ok(f) => match vars.get("result") {
                        None => Err(no_result()),
                        Some(result) => Ok(equation_term(&result, &f)),
                    },
                },
            },
            Expr::If(_, _, _) => self.translate_if_to_formula(e, vars),
            Expr::Call(_, _) => match self.ok_call_formula(e, vars) {
                Err(x) => Err(x),
                Ok(Some(f)) => Ok(Some(f)),
                Ok(None) => self.result_equation(e, vars),
            },
            _ => self.result_equation(e, vars),
        }
    }

    /// The formula of a conditional in return position.
    fn translate_if_to_formula(&self, e: &Expr, vars: &mut VarMap) -> (r: Result<
        Option<Rc<Term>>,
        TranslationError,
    >)
        requires
            e is If,
        ensures
            (seen_formula(r), final(vars)@) == z3_rules::if_formula(*e, old(vars)@),
        decreases e, 4int, 0int,
    {
        if let Expr::If(cond, then, other) = e {
            let c = match self.translate_expr_with_vars(cond, vars) {
                Ok(t) => t,
                Err(x) => {
                    return Err(x);
                },
            };
            if c.sort() != Sort::Bool {
                return Err(type_fault("If condition must be boolean"));
            }
            let t = match self.translate_block_to_result_formula(then, vars) {
                Ok(t) => t,
                Err(x) => {
                    return Err(x);
                },
            };
            let second = match other {
                None => Ok(None),
                Some(o) => match &**o {
                    Expr::Block(block) => self.translate_block_to_result_formula(block, vars),
                    Expr::If(_, _, _) => self.translate_if_to_formula(o, vars),
                    _ => match self.translate_expr_with_vars(o, vars) {
                        Err(x) => Err(x),
                        Ok(f) => match vars.get("result") {
                            None => Err(no_result()),
                            Some(result) => Ok(equation_term(&result, &f)),
                        },
                    },
                },
            };
            return match second {
                Err(x) => Err(x),
                Ok(o) => Ok(branches(&c, t, o)),
            };
        }
        Ok(None)
    }

    /// An expression as a term, with nothing bound before.
    pub fn translate_expr(&self, e: &Expr) -> (r: Result<Rc<Term>, TranslationError>)
        ensures
            seen(r) == z3_rules::expr(*e, seq![]).0,
    {
        let mut vars = VarMap::new();
        self.translate_expr_with_vars(e, &mut vars)
    }

    /// The condition of a contract as a term, with nothing known of types.
    pub fn translate_contract(&self, contract: &Contract) -> (r: Result<Rc<Term>, TranslationError>)
        ensures
            seen(r) == z3_rules::expr(*contract.condition, seq![]).0,
    {
        let params: Vec<(String, Type)> = Vec::new();
        match self.translate_contract_with_types(contract, &params, None) {
            Ok((t, _)) => Ok(t),
            Err(x) => Err(x),
        }
    }

    /// The condition of a contract as a term, and what the types of the function say.
    pub fn translate_contract_with_types(
        &self,
        contract: &Contract,
        params: &Vec<(String, Type)>,
        output: Option<&Type>,
    ) -> (r: Result<(Rc<Term>, Vec<Rc<Term>>), TranslationError>)
        ensures
            (match r {
                Ok((t, _)) => Ok(t.form()),
                Err(e) => Err(e@),
            }) == z3_rules::expr(
                *contract.condition,
                z3_rules::shared_bindings(params@, type_seen(output)),
            ).0,
            r is Ok ==> term::forms(r->Ok_0.1@) == z3_rules::shared_constraints(
                params@,
                type_seen(output),
            ),
    {
        let (mut vars, constraints) = self.build_shared_vars(params, output);
        match self.translate_expr_with_vars(&contract.condition, &mut vars) {
            Ok(t) => Ok((t, constraints)),
            Err(x) => Err(x),
        }
    }

    /// The condition of a contract as a term, by bindings that are shared with other translations.
    pub fn translate_contract_with_shared_vars(&self, contract: &Contract, vars: &mut VarMap) -> (r:
        Result<Rc<Term>, TranslationError>)
        ensures
            (seen(r), final(vars)@) == z3_rules::expr(*contract.condition, old(vars)@),
    {
        self.translate_expr_with_vars(&contract.condition, vars)
    }

    /// What is bound before a function is read, and what its types say.
    pub fn build_shared_vars(&self, params: &Vec<(String, Type)>, output: Option<&Type>) -> (r: (
        VarMap,
        Vec<Rc<Term>>,
    ))
        ensures
            r.0@ == z3_rules::shared_bindings(params@, type_seen(output)),
            term::forms(r.1@) == z3_rules::shared_constraints(params@, type_seen(output)),
    {
        let mut vars = VarMap::new();
        let mut constraints: Vec<Rc<Term>> = Vec::new();
        let mut i: usize = 0;
        proof {
            assert(term::forms(constraints@) =~= seq![]);
        }
        while i < params.len()
            invariant
                i <= params.len(),
                vars@ == z3_rules::parameters(params@, i as int),
                term::forms(constraints@) == z3_rules::parameter_constraints(params@, i as int),
            decreases params.len() - i,
        {
            let name = params[i].0.as_str();
            let t = var_term(name, Sort::Int);
            vars.insert(name, t.clone());
            if is_unsigned_type(&params[i].1) {
                push_not_negative(&mut constraints, &t);
            }
            i += 1;
        }
        if let Some(ty) = output {
            match unwrap_to_tuple(ty) {
                Some(elems) => {
                    let ghost b = vars@;
                    let ghost c = term::forms(constraints@);
                    let mut k: usize = 0;
                    proof {
                        assert(c + Seq::<Form>::empty() =~= c);
                    }
                    while k < elems.len()
                        invariant
                            k <= elems.len(),
                            vars@ == z3_rules::parts_bound(elems@, k as int, b),
                            term::forms(constraints@) == c + z3_rules::part_constraints(
                                elems@,
                                k as int,
                            ),
                        decreases elems.len() - k,
                    {
                        let slot = numbered("result_", k);
                        let ghost done = z3_rules::part_constraints(elems@, k as int);
                        bind_typed(&mut vars, &mut constraints, slot.as_str(), &elems[k]);
                        proof {
                            let more = z3_rules::typed_constraint(slot@, elems@[k as int]);
                            assert((c + done) + more =~= c + (done + more));
                        }
                        k += 1;
                    }
                    vars.insert("result", var_term("result", Sort::Int));
                },
                None => {
                    bind_typed(&mut vars, &mut constraints, "result", ty);
                },
            }
        }
        (vars, constraints)
    }

    /// The formula of a function body: what the result is by it.
    pub fn translate_function_body(&self, func: &FnItem, vars: &mut VarMap) -> (r: Result<
        Option<Rc<Term>>,
        TranslationError,
    >)
        ensures
            (seen_formula(r), final(vars)@) == z3_rules::block_formula(func.body, old(vars)@),
    {
        self.translate_block_to_result_formula(&func.body, vars)
    }
}

/// A type that may be absent, as a value.
pub open spec fn type_seen(t: Option<&Type>) -> Option<Type> {
    match t {
        Some(u) => Some(*u),
        None => None,
    }
}

fn push_not_negative(constraints: &mut Vec<Rc<Term>>, t: &Rc<Term>)
    ensures
        term::forms(final(constraints)@) == term::forms(old(constraints)@).push(
            z3_rules::not_negative(t.form()),
        ),
{
    let ghost had = constraints@;
    let c = binary_term(TermOp::Ge, t, &int_term(0));
    let ghost cv = c.form();
    constraints.push(c);
    proof {
        assert(term::forms(constraints@) =~= term::forms(had).push(cv));
    }
}

fn bind_typed(vars: &mut VarMap, constraints: &mut Vec<Rc<Term>>, name: &str, t: &Type)
    ensures
        final(vars)@ == vars::bind(old(vars)@, name@, z3_rules::typed_var(name@, *t)),
        term::forms(final(constraints)@) == term::forms(old(constraints)@)
            + z3_rules::typed_constraint(name@, *t),
{
    let ghost had = term::forms(constraints@);
    if returns_bool_like(t) {
        vars.insert(name, var_term(name, Sort::Bool));
    } else {
        let v = var_term(name, Sort::Int);
        vars.insert(name, v.clone());
        if is_unsigned_type(t) {
            push_not_negative(constraints, &v);
        }
    }
    proof {
        assert(term::forms(constraints@) =~= had + z3_rules::typed_constraint(name@, *t));
    }
}

} // verus!
