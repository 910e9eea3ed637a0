//! What the solver is asked about a contract, and what its answer means.
//!
//! For a postcondition the question is whether preconditions and body can hold while the
//! postcondition does not. The questions are lists of terms; the caller puts them to the solver,
//! hands back how the solver writes a body out, and its answer.
use std::rc::Rc;
use vstd::arithmetic::power2;
use vstd::prelude::*;
use crate::ast::{Expr, FnItem, Type};
use crate::chars;
use crate::chars::{split_whitespace, trim, trim_end_of, trim_start_of, CharClass};
use crate::contracts::{Contract, ContractType};
use crate::numbers;
use crate::numbers::parse_i64;
use crate::term;
use crate::term::{
    all_term, binary_term, both_term, call_term, int_term, not_term, var_term, Form, Sort, Term,
    TermOp,
};
use crate::text;
use crate::text::{
    cat, cat3, contains, ends_with, find_str, from_range, is_at, same, starts_with, to_chars,
};
use crate::vars;
use crate::vars::{Bindings, VarMap};
use crate::z3_rules;
use crate::z3_tables;
use crate::z3_tables::{returns_bool_like, returns_result_or_option_result};
use crate::z3_translator;
use crate::z3_translator::{pow2_int, Z3Translator};

verus! {

/// What the solver's answer to a contract means.
#[derive(Debug, Clone)]
pub enum VerificationResult {
    /// The property holds. `body_translated` tells whether the body of the function took part in
    /// the proof.
    Verified { body_translated: bool },
    /// The property fails.
    Failed { counterexample: Option<Counterexample> },
    /// The solver could not tell, or what it found does not count.
    Unknown { reason: String },
    /// The question could not be put.
    Error { error: String },
}

/// Values of constants under which a property fails.
#[derive(Debug, Clone)]
pub struct Counterexample {
    /// The constants by their names, with their values.
    pub assignments: Vec<(String, String)>,
}

/// What the solver answers.
#[derive(Debug)]
pub enum SolverAnswer {
    Unsat,
    /// The terms can hold together; by the values of a model, where there is one.
    Sat(Option<Counterexample>),
    Unknown,
}

/// The values of a counterexample as mathematical values.
pub open spec fn values_of(c: Option<Counterexample>) -> Option<Seq<(Seq<char>, Seq<char>)>> {
    match c {
        Some(ce) => Some(ce.assignments@.map_values(|a: (String, String)| (a.0@, a.1@))),
        None => None,
    }
}

/// A result as a mathematical value.
pub enum Ruling {
    Verified(bool),
    Failed(Option<Seq<(Seq<char>, Seq<char>)>>),
    Unknown(Seq<char>),
    Error(Seq<char>),
}

impl View for VerificationResult {
    type V = Ruling;

    open spec fn view(&self) -> Ruling {
        match self {
            VerificationResult::Verified { body_translated } => Ruling::Verified(*body_translated),
            VerificationResult::Failed { counterexample } => Ruling::Failed(
                values_of(*counterexample),
            ),
            VerificationResult::Unknown { reason } => Ruling::Unknown(reason@),
            VerificationResult::Error { error } => Ruling::Error(error@),
        }
    }
}

// ---------------------------------------------------------------------------
// Bodies that say nothing
// ---------------------------------------------------------------------------
/// What stands between `(= ` and the closing bracket.
pub open spec fn equation_inner(s: Seq<char>) -> Option<Seq<char>> {
    if text::starts(s, "(= "@) && text::ends(s, ")"@) && s.len() >= 4 {
        Some(s.subrange(3, s.len() - 1))
    } else {
        None
    }
}

/// The two sides of an equation, parted at the first blank; the right one trimmed.
pub open spec fn sides(inner: Seq<char>) -> Option<(Seq<char>, Seq<char>)> {
    match text::find(inner, " "@) {
        Some(at) => Some((inner.take(at), chars::trimmed(inner.skip(at + 1)))),
        None => None,
    }
}

/// The operations of the solver's own language.
pub open spec fn builtin(name: Seq<char>) -> bool {
    ||| name == "+"@ || name == "-"@ || name == "*"@ || name == "/"@ || name == "div"@
    ||| name == "mod"@ || name == "rem"@ || name == ">="@ || name == "<="@ || name == ">"@
    ||| name == "<"@ || name == "="@ || name == "not"@ || name == "and"@ || name == "or"@
    ||| name == "ite"@ || name == "=>"@ || name == "bvshr"@ || name == "bvshl"@
    ||| name == "bvand"@ || name == "bvor"@ || name == "bvnot"@ || name == "let"@
    ||| name == "forall"@ || name == "exists"@
}

/// The name of the function that a term in brackets applies: what stands before the first blank or
/// closing bracket.
pub open spec fn applied(value: Seq<char>) -> Option<Seq<char>> {
    if text::starts(value, "("@) && text::ends(value, ")"@) && value.len() >= 2 {
        Some(text::before(text::before(value.subrange(1, value.len() - 1), " "@), ")"@))
    } else {
        None
    }
}

/// Whether an operation with a meaning of its own stands in `s`.
pub open spec fn has_operation(s: Seq<char>) -> bool {
    ||| text::holds(s, "(+ "@) || text::holds(s, "(- "@) || text::holds(s, "(* "@)
    ||| text::holds(s, "(/ "@) || text::holds(s, " div "@) || text::holds(s, " mod "@)
    ||| text::holds(s, "(div "@) || text::holds(s, "(rem "@) || text::holds(s, "bvshr"@)
    ||| text::holds(s, "bvshl"@) || text::holds(s, "(>= "@) || text::holds(s, "(<= "@)
    ||| text::holds(s, "(> "@) || text::holds(s, "(< "@) || text::holds(s, "(and "@)
    ||| text::holds(s, "(or "@) || text::holds(s, "(not "@) || text::holds(s, "(ite "@)
}

/// A word without brackets around it.
pub open spec fn unbracketed(w: Seq<char>) -> Seq<char> {
    chars::cut_end(chars::cut_start(w, CharClass::Bracket), CharClass::Bracket)
}

/// Whether a word is a number beyond one and minus one.
pub open spec fn large_number(w: Seq<char>) -> bool {
    numbers::i64_value(unbracketed(w), 10) matches Some(n) && (n > 1 || n < -1)
}

/// Whether a number beyond one and minus one stands in `s`.
pub open spec fn has_large_number(s: Seq<char>) -> bool {
    exists|i: int| 0 <= i < chars::words(s).len() && large_number(#[trigger] chars::words(s)[i])
}

/// Whether the value of an equation is a literal or a comparison.
pub open spec fn decided_value(v: Seq<char>) -> bool {
    ||| v == "true"@ || v == "false"@ || numbers::i64_value(v, 10) is Some
    ||| text::starts(v, "(= "@) || text::starts(v, "(>= "@) || text::starts(v, "(<= "@)
    ||| text::starts(v, "(> "@) || text::starts(v, "(< "@) || text::starts(v, "(not "@)
}

/// Whether a formula, as the solver writes it, says nothing on the body that it stands for: it is
/// empty or a tautology, it only names an uninterpreted function, or nothing with a meaning of its
/// own stands in it.
pub open spec fn says_nothing(formula: Seq<char>) -> bool {
    let s = chars::trimmed(formula);
    let parts = match equation_inner(s) {
        Some(inner) => sides(inner),
        None => None,
    };
    if s.len() == 0 || s == "true"@ || s == "(= result result)"@ {
        true
    } else if parts matches Some((l, r)) && l == r {
        true
    } else if parts matches Some((_, r)) && (applied(r) matches Some(f) && !builtin(f)) {
        true
    } else if has_operation(s) || has_large_number(s) {
        false
    } else if parts matches Some((_, r)) && decided_value(r) {
        false
    } else {
        true
    }
}

fn inner_of_equation(s: &str) -> (r: Option<String>)
    ensures
        match r {
            Some(t) => equation_inner(s@) == Some(t@),
            None => equation_inner(s@) is None,
        },
{
    let v = to_chars(s);
    if starts_with(s, "(= ") && ends_with(s, ")") && v.len() >= 4 {
        Some(from_range(v.as_slice(), 3, v.len() - 1))
    } else {
        None
    }
}

fn sides_of(inner: &str) -> (r: Option<(String, String)>)
    ensures
        match r {
            Some((a, b)) => sides(inner@) == Some((a@, b@)),
            None => sides(inner@) is None,
        },
{
    proof {
        reveal_strlit(" ");
    }
    match find_str(inner, " ") {
        Some(at) => {
            let v = to_chars(inner);
            let left = from_range(v.as_slice(), 0, at);
            let right = from_range(v.as_slice(), at + 1, v.len());
            proof {
                assert(inner@.subrange(0, at as int) =~= inner@.take(at as int));
                assert(inner@.subrange(at + 1, inner@.len() as int) =~= inner@.skip(at + 1));
            }
            Some((left, trim(right.as_str())))
        },
        None => None,
    }
}

fn is_builtin(n: &str) -> (r: bool)
    ensures
        r == builtin(n@),
{
    same(n, "+") || same(n, "-") || same(n, "*") || same(n, "/") || same(n, "div") || same(n, "mod")
        || same(n, "rem") || same(n, ">=") || same(n, "<=") || same(n, ">") || same(n, "<") || same(
        n,
        "=",
    ) || same(n, "not") || same(n, "and") || same(n, "or") || same(n, "ite") || same(n, "=>")
        || same(n, "bvshr") || same(n, "bvshl") || same(n, "bvand") || same(n, "bvor") || same(
        n,
        "bvnot",
    ) || same(n, "let") || same(n, "forall") || same(n, "exists")
}

fn applied_name(value: &str) -> (r: Option<String>)
    ensures
        match r {
            Some(t) => applied(value@) == Some(t@),
            None => applied(value@) is None,
        },
{
    let v = to_chars(value);
    if starts_with(value, "(") && ends_with(value, ")") && v.len() >= 2 {
        let inner = from_range(v.as_slice(), 1, v.len() - 1);
        let name = crate::text::before_str(inner.as_str(), " ");
        Some(crate::text::before_str(name.as_str(), ")"))
    } else {
        None
    }
}

fn names_operation(s: &str) -> (r: bool)
    ensures
        r == has_operation(s@),
{
    contains(s, "(+ ") || contains(s, "(- ") || contains(s, "(* ") || contains(s, "(/ ")
        || contains(s, " div ") || contains(s, " mod ") || contains(s, "(div ") || contains(
        s,
        "(rem ",
    ) || contains(s, "bvshr") || contains(s, "bvshl") || contains(s, "(>= ") || contains(s, "(<= ")
        || contains(s, "(> ") || contains(s, "(< ") || contains(s, "(and ") || contains(s, "(or ")
        || contains(s, "(not ") || contains(s, "(ite ")
}

fn names_large_number(s: &str) -> (r: bool)
    ensures
        r == has_large_number(s@),
{
    let ws = split_whitespace(s);
    let mut i: usize = 0;
    while i < ws.len()
        invariant
            i <= ws.len(),
            text::views(ws@) == chars::words(s@),
            forall|j: int| 0 <= j < i ==> !large_number(#[trigger] chars::words(s@)[j]),
        decreases ws.len() - i,
    {
        let w = trim_start_of(ws[i].as_str(), CharClass::Bracket);
        let w = trim_end_of(w.as_str(), CharClass::Bracket);
        proof {
            assert(chars::words(s@)[i as int] == ws@[i as int]@);
        }
        if let Some(n) = parse_i64(w.as_str(), 10) {
            if n > 1 || n < -1 {
                return true;
            }
        }
        i += 1;
    }
    false
}

fn is_decided_value(v: &str) -> (r: bool)
    ensures
        r == decided_value(v@),
{
    same(v, "true") || same(v, "false") || parse_i64(v, 10).is_some() || starts_with(v, "(= ")
        || starts_with(v, "(>= ") || starts_with(v, "(<= ") || starts_with(v, "(> ") || starts_with(
        v,
        "(< ",
    ) || starts_with(v, "(not ")
}

/// Whether a formula, as the solver writes it, says nothing on the body that it stands for.
pub fn is_formula_body_vacuous(formula: &str) -> (r: bool)
    ensures
        r == says_nothing(formula@),
{
    let t = trim(formula);
    let s = t.as_str();
    if s.is_empty() || same(s, "true") || same(s, "(= result result)") {
        return true;
    }
    let parts = match inner_of_equation(s) {
        Some(inner) => sides_of(inner.as_str()),
        None => None,
    };
    if let Some((l, r)) = &parts {
        if same(l.as_str(), r.as_str()) {
            return true;
        }
        if let Some(f) = applied_name(r.as_str()) {
            if !is_builtin(f.as_str()) {
                return true;
            }
        }
    }
    if names_operation(s) || names_large_number(s) {
        return false;
    }
    if let Some((_, r)) = &parts {
        if is_decided_value(r.as_str()) {
            return false;
        }
    }
    true
}

/// Whether a formula, as the solver writes it, is an evident tautology.
pub open spec fn tautology(formula: Seq<char>) -> bool {
    let s = chars::trimmed(formula);
    ||| s.len() == 0 || s == "true"@
    ||| text::holds(s, "(= result result)"@)
    ||| text::holds(s, "(= r1_result r1_result)"@)
    ||| text::holds(s, "(= r2_result r2_result)"@)
}

/// Whether a formula, as the solver writes it, is an evident tautology.
pub fn is_tautology(formula: &str) -> (r: bool)
    ensures
        r == tautology(formula@),
{
    let t = trim(formula);
    let s = t.as_str();
    s.is_empty() || same(s, "true") || contains(s, "(= result result)") || contains(
        s,
        "(= r1_result r1_result)",
    ) || contains(s, "(= r2_result r2_result)")
}

// ---------------------------------------------------------------------------
// Postconditions of callees
// ---------------------------------------------------------------------------
/// A character of an identifier.
pub open spec fn ident_char(c: char) -> bool {
    chars::ascii_letter(c) || chars::ascii_digit(c) || c == '_'
}

/// Whether the word `result` stands at `i`, with no character of an identifier beside it.
pub open spec fn result_word_at(s: Seq<char>, i: int) -> bool {
    &&& text::occurs_at(s, "result"@, i)
    &&& i + 6 <= s.len()
    &&& i == 0 || !ident_char(s[i - 1])
    &&& i + 6 >= s.len() || !ident_char(s[i + 6])
}

/// `s` from `i` on with every word `result` replaced.
pub open spec fn substituted_from(s: Seq<char>, i: int, with: Seq<char>) -> Seq<char>
    decreases s.len() - i,
{
    if i < 0 || i >= s.len() {
        seq![]
    } else if result_word_at(s, i) {
        with + substituted_from(s, i + 6, with)
    } else {
        seq![s[i]] + substituted_from(s, i + 1, with)
    }
}

/// `s` with every word `result` replaced; longer identifiers stay.
pub open spec fn substituted(s: Seq<char>, with: Seq<char>) -> Seq<char> {
    substituted_from(s, 0, with)
}

/// Whether `c` is a character of an identifier.
pub fn is_ident_char(c: char) -> (r: bool)
    ensures
        r == ident_char(c),
{
    ('a' <= c && c <= 'z') || ('A' <= c && c <= 'Z') || ('0' <= c && c <= '9') || c == '_'
}

/// `condition` with every word `result` replaced; longer identifiers stay.
pub fn substitute_result_ident(condition: &str, replacement: &str) -> (r: String)
    ensures
        r@ == substituted(condition@, replacement@),
{
    let v = to_chars(condition);
    let target = to_chars("result");
    let mut out = String::new();
    let mut i: usize = 0;
    proof {
        reveal_strlit("result");
        assert(out@ + substituted(v@, replacement@) =~= substituted(v@, replacement@));
    }
    while i < v.len()
        invariant
            i <= v.len(),
            v@ == condition@,
            target@ == "result"@,
            "result"@.len() == 6,
            substituted(v@, replacement@) == out@ + substituted_from(v@, i as int, replacement@),
        decreases v.len() - i,
    {
        let ghost had = out@;
        let ghost rest = substituted_from(v@, i as int, replacement@);
        if is_at(v.as_slice(), target.as_slice(), i) && (i == 0 || !is_ident_char(v[i - 1])) && (i
            + 6 >= v.len() || !is_ident_char(v[i + 6])) {
            out.append(replacement);
            proof {
                let next = substituted_from(v@, i + 6, replacement@);
                assert(rest == replacement@ + next);
                assert(had + (replacement@ + next) =~= out@ + next);
            }
            i += 6;
        } else {
            out.push(v[i]);
            proof {
                let next = substituted_from(v@, i + 1, replacement@);
                assert(rest == seq![v@[i as int]] + next);
                assert(had + (seq![v@[i as int]] + next) =~= out@ + next);
            }
            i += 1;
        }
    }
    proof {
        assert(out@ + Seq::<char>::empty() =~= out@);
    }
    out
}

/// A text in which the word `result` does not stand is left as it is.
pub proof fn law_substitution_without_result(s: Seq<char>, with: Seq<char>, i: int)
    requires
        0 <= i <= s.len(),
        forall|k: int| i <= k < s.len() ==> !result_word_at(s, k),
    ensures
        substituted_from(s, i, with) == s.skip(i),
    decreases s.len() - i,
{
    if i < s.len() {
        law_substitution_without_result(s, with, i + 1);
        assert(seq![s[i]] + s.skip(i + 1) =~= s.skip(i));
    } else {
        assert(s.skip(i) =~= seq![]);
    }
}

// ---------------------------------------------------------------------------
// Shifts
// ---------------------------------------------------------------------------
/// The shift `name` of two integers.
pub open spec fn shift(name: Seq<char>, a: Form, b: Form) -> Form {
    Form::Call(name, seq![a, b], Sort::Int)
}

/// A statement on all values of the named constants.
pub open spec fn for_all(names: Seq<Seq<char>>, f: Form) -> Form {
    Form::ForAll(names, Box::new(f))
}

/// The first quantified constant of the statements on shifts.
pub open spec fn shifted_var() -> Form {
    term::int_var("axiom_a"@)
}

/// The second quantified constant of the statements on shifts.
pub open spec fn amount_var() -> Form {
    term::int_var("axiom_b"@)
}

/// Both are not negative.
pub open spec fn shift_premise() -> Form {
    Form::All(
        seq![
            z3_rules::not_negative(shifted_var()),
            z3_rules::not_negative(amount_var()),
        ],
    )
}

/// What holds of shifts by any amount.
pub open spec fn shift_rules() -> Seq<Form> {
    let a = shifted_var();
    let b = amount_var();
    let both = seq!["axiom_a"@, "axiom_b"@];
    let one = seq!["axiom_a"@];
    seq![
        for_all(
            both,
            term::binary(
                TermOp::Implies,
                shift_premise(),
                z3_rules::not_negative(shift("shr"@, a, b)),
            ),
        ),
        for_all(
            both,
            term::binary(
                TermOp::Implies,
                shift_premise(),
                term::binary(TermOp::Le, shift("shr"@, a, b), a),
            ),
        ),
        for_all(one, term::binary(TermOp::Eq, shift("shr"@, a, Form::Int(0)), a)),
        for_all(
            both,
            term::binary(
                TermOp::Implies,
                shift_premise(),
                term::binary(TermOp::Ge, shift("shl"@, a, b), a),
            ),
        ),
        for_all(one, term::binary(TermOp::Eq, shift("shl"@, a, Form::Int(0)), a)),
    ]
}

/// A shift to the right by `k` is a division.
pub open spec fn shift_by(k: int) -> Form {
    let a = shifted_var();
    for_all(
        seq!["axiom_a"@],
        term::binary(
            TermOp::Eq,
            shift("shr"@, a, Form::Int(k)),
            term::binary(TermOp::Div, a, Form::Int(power2::pow2(k as nat) as int)),
        ),
    )
}

/// A shift of a word to the right by sixty-four or more gives zero.
pub open spec fn shift_out() -> Form {
    let a = shifted_var();
    let b = amount_var();
    for_all(
        seq!["axiom_a"@, "axiom_b"@],
        term::binary(
            TermOp::Implies,
            Form::All(
                seq![
                    z3_rules::not_negative(a),
                    term::binary(TermOp::Le, a, Form::Int(i64::MAX as int)),
                    term::binary(TermOp::Ge, b, Form::Int(64)),
                ],
            ),
            term::binary(TermOp::Eq, shift("shr"@, a, b), Form::Int(0)),
        ),
    )
}

/// What the solver is told of shifts.
pub open spec fn shift_statements() -> Seq<Form> {
    shift_rules() + Seq::new(64, |k: int| shift_by(k)) + seq![shift_out()]
}

fn shift_term(name: &str, a: &Rc<Term>, b: &Rc<Term>) -> (r: Rc<Term>)
    ensures
        r.form() == shift(name@, a.form(), b.form()),
{
    let args: Vec<Rc<Term>> = vec![a.clone(), b.clone()];
    proof {
        assert(term::forms(args@) =~= seq![a.form(), b.form()]);
    }
    call_term(name, args, Sort::Int)
}

fn for_all_one(f: Rc<Term>) -> (r: Rc<Term>)
    ensures
        r.form() == for_all(seq!["axiom_a"@], f.form()),
{
    let names: Vec<String> = vec!["axiom_a".to_owned()];
    proof {
        assert(text::views(names@) =~= seq!["axiom_a"@]);
    }
    Rc::new(Term::ForAll(names, f))
}

fn for_all_both(f: Rc<Term>) -> (r: Rc<Term>)
    ensures
        r.form() == for_all(seq!["axiom_a"@, "axiom_b"@], f.form()),
{
    let names: Vec<String> = vec!["axiom_a".to_owned(), "axiom_b".to_owned()];
    proof {
        assert(text::views(names@) =~= seq!["axiom_a"@, "axiom_b"@]);
    }
    Rc::new(Term::ForAll(names, f))
}

fn push_term(v: &mut Vec<Rc<Term>>, t: Rc<Term>)
    ensures
        term::forms(final(v)@) == term::forms(old(v)@).push(t.form()),
{
    let ghost had = v@;
    let ghost tv = t.form();
    v.push(t);
    proof {
        assert(term::forms(v@) =~= term::forms(had).push(tv));
    }
}

fn shift_rule_terms() -> (r: Vec<Rc<Term>>)
    ensures
        term::forms(r@) == shift_rules(),
{
    let a = var_term("axiom_a", Sort::Int);
    let b = var_term("axiom_b", Sort::Int);
    let zero = int_term(0);
    let premise = both_term(
        &binary_term(TermOp::Ge, &a, &zero),
        &binary_term(TermOp::Ge, &b, &zero),
    );
    let shr = shift_term("shr", &a, &b);
    let shl = shift_term("shl", &a, &b);
    let r1 = binary_term(TermOp::Implies, &premise, &binary_term(TermOp::Ge, &shr, &zero));
    let r2 = binary_term(TermOp::Implies, &premise, &binary_term(TermOp::Le, &shr, &a));
    let r3 = binary_term(TermOp::Eq, &shift_term("shr", &a, &zero), &a);
    let r4 = binary_term(TermOp::Implies, &premise, &binary_term(TermOp::Ge, &shl, &a));
    let r5 = binary_term(TermOp::Eq, &shift_term("shl", &a, &zero), &a);
    let v: Vec<Rc<Term>> = vec![
        for_all_both(r1),
        for_all_both(r2),
        for_all_one(r3),
        for_all_both(r4),
        for_all_one(r5),
    ];
    proof {
        assert(term::forms(v@) =~= shift_rules());
    }
    v
}

fn shift_out_term() -> (r: Rc<Term>)
    ensures
        r.form() == shift_out(),
{
    let a = var_term("axiom_a", Sort::Int);
    let b = var_term("axiom_b", Sort::Int);
    let zero = int_term(0);
    let premise: Vec<Rc<Term>> = vec![
        binary_term(TermOp::Ge, &a, &zero),
        binary_term(TermOp::Le, &a, &int_term(9223372036854775807)),
        binary_term(TermOp::Ge, &b, &int_term(64)),
    ];
    proof {
        assert(term::forms(premise@) =~= seq![
            z3_rules::not_negative(shifted_var()),
            term::binary(TermOp::Le, shifted_var(), Form::Int(i64::MAX as int)),
            term::binary(TermOp::Ge, amount_var(), Form::Int(64)),
        ]);
    }
    let conclusion = binary_term(TermOp::Eq, &shift_term("shr", &a, &b), &zero);
    for_all_both(binary_term(TermOp::Implies, &all_term(premise), &conclusion))
}

/// Tells the solver what holds of shifts.
pub fn add_shift_axioms(assertions: &mut Vec<Rc<Term>>)
    ensures
        term::forms(final(assertions)@) == term::forms(old(assertions)@) + shift_statements(),
{
    let ghost had = term::forms(assertions@);
    let mut rules = shift_rule_terms();
    let ghost rules_seen = rules@;
    assertions.append(&mut rules);
    proof {
        assert(term::forms(assertions@) =~= had + shift_rules());
    }
    let ghost each = Seq::new(64, |k: int| shift_by(k));
    let mut k: u32 = 0;
    proof {
        assert(had + shift_rules() + each.take(0) =~= had + shift_rules());
    }
    while k < 64
        invariant
            k <= 64,
            each == Seq::new(64, |k: int| shift_by(k)),
            term::forms(assertions@) == had + shift_rules() + each.take(k as int),
        decreases 64 - k,
    {
        let a = var_term("axiom_a", Sort::Int);
        let left = shift_term("shr", &a, &int_term(k as i128));
        let right = binary_term(TermOp::Div, &a, &pow2_int(k));
        push_term(assertions, for_all_one(binary_term(TermOp::Eq, &left, &right)));
        k += 1;
        proof {
            assert(each.take(k as int) =~= each.take(k - 1).push(each[k - 1]));
            assert((had + shift_rules() + each.take(k - 1)).push(each[k - 1]) =~= had
                + shift_rules() + each.take(k as int));
        }
    }
    push_term(assertions, shift_out_term());
    proof {
        assert(each.take(64) =~= each);
        assert((had + shift_rules() + each).push(shift_out()) =~= had + shift_statements());
    }
}

// ---------------------------------------------------------------------------
// Questions on a contract
// ---------------------------------------------------------------------------
/// A proven postcondition of a function that the body may call: the name of the function, and the
/// condition in which the word `result` is replaced by the constant for its value, where that can
/// be read.
#[derive(Debug)]
pub struct CalleeFact {
    pub function_name: String,
    pub condition: Option<Rc<Expr>>,
}

/// The constant for the value of a call of `name`.
pub open spec fn call_result(name: Seq<char>) -> Seq<char> {
    "call_"@ + name + "_result"@
}

/// The constant for the value of a call of `name`.
pub fn call_result_name(name: &str) -> (r: String)
    ensures
        r@ == call_result(name@),
{
    cat3("call_", name, "_result")
}

/// The question that is put to the solver on a contract.
#[derive(Debug)]
pub struct ContractQuery {
    /// What is asserted, in order; the last is that the contract does not hold.
    pub assertions: Vec<Rc<Term>>,
    /// The formula of the body, where there is one.
    pub body: Option<Rc<Term>>,
    /// Whether a postcondition of a callee was asserted.
    pub callee_facts_used: bool,
    /// The names of the parameters.
    pub params: Vec<String>,
}

/// A question as a mathematical value.
pub struct QueryView {
    pub assertions: Seq<Form>,
    pub body: Option<Form>,
    pub callee_facts_used: bool,
    pub params: Seq<Seq<char>>,
}

impl View for ContractQuery {
    type V = QueryView;

    open spec fn view(&self) -> QueryView {
        QueryView {
            assertions: term::forms(self.assertions@),
            body: z3_translator::seen_some(self.body),
            callee_facts_used: self.callee_facts_used,
            params: text::views(self.params@),
        }
    }
}

/// The parameters and the return type of a function that may be absent.
pub open spec fn signature(func: Option<&FnItem>) -> (Seq<(String, Type)>, Option<Type>) {
    match func {
        Some(f) => (f.params@, f.output),
        None => (seq![], None),
    }
}

/// The first `n` conditions that can be read as truth values, behind those in `done`.
pub open spec fn conditions(v: Seq<Contract>, n: int, b: Bindings) -> (Seq<Form>, Bindings)
    decreases n,
{
    if n <= 0 || n > v.len() {
        (seq![], b)
    } else {
        let (done, b) = conditions(v, n - 1, b);
        match z3_rules::expr(*v[n - 1].condition, b) {
            (Ok(f), b) => if f.sort() == Sort::Bool {
                (done.push(f), b)
            } else {
                (done, b)
            },
            (Err(_), b) => (done, b),
        }
    }
}

/// Whether a constant stands for a length or for the value of a loop.
pub open spec fn counts(name: Seq<char>) -> bool {
    text::ends(name, "_len"@) || name == "len_result"@ || text::starts(name, "for_loop_"@)
}

/// Lengths and values of loops are not negative: of the first `n` names.
pub open spec fn count_constraints(b: Bindings, n: int) -> Seq<Form>
    decreases n,
{
    if n <= 0 || n > b.len() {
        seq![]
    } else {
        let done = count_constraints(b, n - 1);
        if counts(b[n - 1].0) && b[n - 1].1.sort() == Sort::Int {
            done.push(z3_rules::not_negative(b[n - 1].1))
        } else {
            done
        }
    }
}

/// The postconditions of callees, of the first `n`, whose value the body speaks of.
pub open spec fn callee_conditions(v: Seq<CalleeFact>, n: int, b: Bindings) -> (
    Seq<Form>,
    Bindings,
)
    decreases n,
{
    if n <= 0 || n > v.len() {
        (seq![], b)
    } else {
        let (done, b) = callee_conditions(v, n - 1, b);
        match v[n - 1].condition {
            Some(c) if vars::bound(b, call_result(v[n - 1].function_name@)) is Some => {
                match z3_rules::expr(*c, b) {
                    (Ok(f), b) => if f.sort() == Sort::Bool {
                        (done.push(f), b)
                    } else {
                        (done, b)
                    },
                    (Err(_), b) => (done, b),
                }
            },
            _ => (done, b),
        }
    }
}

/// Whether a constant stands for the length of a script.
pub open spec fn script_length(name: Seq<char>) -> bool {
    text::ends(name, "script_pubkey_len"@) || name == "script_len"@
}

/// Whether a constant stands for the bit of a deployment that a callee returns.
pub open spec fn callee_bit(name: Seq<char>) -> bool {
    text::ends(name, "_bit"@) && text::starts(name, "call_"@)
}

/// The first name from `i` on that stands for the length of a script, with its term.
pub open spec fn first_script_length(b: Bindings, i: int) -> Option<Form>
    decreases b.len() - i,
{
    if i < 0 || i >= b.len() {
        None
    } else if script_length(b[i].0) {
        vars::bound(b, b[i].0)
    } else {
        first_script_length(b, i + 1)
    }
}

/// A script that is valid Taproot has thirty-four bytes.
pub open spec fn taproot_fact(b: Bindings) -> Seq<Form> {
    match (vars::bound(b, "call_validate_taproot_script_result"@), first_script_length(b, 0)) {
        (Some(valid), Some(length)) => if valid.sort() == Sort::Bool && length.sort() == Sort::Int {
            seq![
                term::binary(
                    TermOp::Implies,
                    valid,
                    term::binary(TermOp::Eq, length, Form::Int(34)),
                ),
            ]
        } else {
            seq![]
        },
        _ => seq![],
    }
}

/// The bit of a deployment is fifteen where the body calls one that returns it.
pub open spec fn deployment_fact(b: Bindings) -> Seq<Form> {
    match vars::bound(b, "result_bit"@) {
        Some(bit) => if bit.sort() == Sort::Int && (exists|i: int|
            0 <= i < b.len() && callee_bit((#[trigger] b[i]).0)) {
            seq![term::binary(TermOp::Eq, bit, Form::Int(15))]
        } else {
            seq![]
        },
        None => seq![],
    }
}

/// What a body adds to the question: its formula, then the facts on the constants that it speaks
/// of. Nothing where the body has no formula.
pub open spec fn body_assertions(func: FnItem, facts: Seq<CalleeFact>, b: Bindings) -> (
    Seq<Form>,
    Option<Form>,
    bool,
) {
    match z3_rules::block_formula(func.body, b) {
        (Ok(Some(f)), b) => {
            let (callee, c) = callee_conditions(facts, facts.len() as int, b);
            (
                seq![f] + count_constraints(b, b.len() as int) + callee + taproot_fact(c)
                    + deployment_fact(c),
                Some(f),
                callee.len() > 0,
            )
        },
        _ => (seq![], None, false),
    }
}

/// The question on a contract, or why it cannot be put.
pub open spec fn question(
    contract: Contract,
    func: Option<&FnItem>,
    requires_contracts: Seq<Contract>,
    facts: Seq<CalleeFact>,
) -> Result<QueryView, Seq<char>> {
    let (params, output) = signature(func);
    let types = z3_rules::shared_constraints(params, output);
    let names = params.map_values(|p: (String, Type)| p.0@);
    match z3_rules::expr(*contract.condition, z3_rules::shared_bindings(params, output)) {
        (Err(f), _) => Err("Translation error: "@ + z3_translator::fault_message(f)),
        (Ok(c), b) => if c.sort() != Sort::Bool {
            Err("Contract expression must be boolean"@)
        } else if contract.contract_type != ContractType::Ensures {
            Ok(
                QueryView {
                    assertions: types.push(term::negated(c)),
                    body: None,
                    callee_facts_used: false,
                    params: names,
                },
            )
        } else {
            let (pre, b) = conditions(requires_contracts, requires_contracts.len() as int, b);
            let (shifts, added, body, used) = match func {
                Some(f) => {
                    let (added, body, used) = body_assertions(*f, facts, b);
                    (shift_statements(), added, body, used)
                },
                None => (seq![], seq![], None, false),
            };
            Ok(
                QueryView {
                    assertions: (types + pre + shifts + added).push(term::negated(c)),
                    body: body,
                    callee_facts_used: used,
                    params: names,
                },
            )
        },
    }
}

fn param_names(params: &Vec<(String, Type)>) -> (r: Vec<String>)
    ensures
        text::views(r@) == params@.map_values(|p: (String, Type)| p.0@),
{
    let ghost want = params@.map_values(|p: (String, Type)| p.0@);
    let mut out: Vec<String> = Vec::new();
    let mut i: usize = 0;
    proof {
        assert(text::views(out@) =~= want.take(0));
    }
    while i < params.len()
        invariant
            i <= params.len(),
            want == params@.map_values(|p: (String, Type)| p.0@),
            text::views(out@) == want.take(i as int),
        decreases params.len() - i,
    {
        let ghost had = out@;
        out.push(params[i].0.clone());
        i += 1;
        proof {
            assert(text::views(out@) =~= text::views(had).push(want[i - 1]));
            assert(want.take(i as int) =~= want.take(i - 1).push(want[i - 1]));
        }
    }
    proof {
        assert(want.take(params@.len() as int) =~= want);
    }
    out
}

/// Asks the solver about contracts.
#[derive(Debug)]
pub struct Z3Verifier {
    pub translator: Z3Translator,
}

impl Z3Verifier {
    /// A verifier for a solver with the given budget in milliseconds.
    pub fn new(timeout_ms: u64) -> (r: Self)
        ensures
            r.translator.timeout_ms == timeout_ms,
    {
        Z3Verifier { translator: Z3Translator::new(timeout_ms) }
    }

    /// Asserts the conditions that can be read as truth values.
    fn assert_conditions(
        &self,
        v: &Vec<Contract>,
        assertions: &mut Vec<Rc<Term>>,
        vars: &mut VarMap,
    )
        ensures
            ({
                let (done, b) = conditions(v@, v@.len() as int, old(vars)@);
                &&& final(vars)@ == b
                &&& term::forms(final(assertions)@) == term::forms(old(assertions)@) + done
            }),
    {
        let ghost had = term::forms(assertions@);
        let mut i: usize = 0;
        proof {
            assert(had + Seq::<Form>::empty() =~= had);
        }
        while i < v.len()
            invariant
                i <= v.len(),
                ({
                    let (done, b) = conditions(v@, i as int, old(vars)@);
                    &&& vars@ == b
                    &&& term::forms(assertions@) == had + done
                }),
            decreases v.len() - i,
        {
            let ghost (done, b) = conditions(v@, i as int, old(vars)@);
            if let Ok(t) = self.translator.translate_contract_with_shared_vars(&v[i], vars) {
                if t.sort() == Sort::Bool {
                    proof {
                        assert((had + done).push(t.form()) =~= had + done.push(t.form()));
                    }
                    push_term(assertions, t);
                }
            }
            i += 1;
        }
    }

    /// Asserts that lengths and values of loops are not negative.
    fn assert_counts(&self, assertions: &mut Vec<Rc<Term>>, vars: &VarMap)
        ensures
            term::forms(final(assertions)@) == term::forms(old(assertions)@) + count_constraints(
                vars@,
                vars@.len() as int,
            ),
    {
        let ghost had = term::forms(assertions@);
        let mut i: usize = 0;
        proof {
            assert(had + Seq::<Form>::empty() =~= had);
        }
        while i < vars.entries.len()
            invariant
                i <= vars.entries.len(),
                term::forms(assertions@) == had + count_constraints(vars@, i as int),
            decreases vars.entries.len() - i,
        {
            let ghost done = count_constraints(vars@, i as int);
            let name = vars.entries[i].0.as_str();
            let t = vars.entries[i].1.clone();
            proof {
                assert(vars@[i as int] == (name@, t.form()));
            }
            if (ends_with(name, "_len") || same(name, "len_result") || starts_with(
                name,
                "for_loop_",
            )) && t.sort() == Sort::Int {
                let c = binary_term(TermOp::Ge, &t, &int_term(0));
                proof {
                    assert((had + done).push(c.form()) =~= had + done.push(c.form()));
                }
                push_term(assertions, c);
            }
            i += 1;
        }
    }

    /// Asserts the postconditions of callees whose value the body speaks of.
    fn assert_callee_facts(
        &self,
        v: &Vec<CalleeFact>,
        assertions: &mut Vec<Rc<Term>>,
        vars: &mut VarMap,
    ) -> (used: bool)
        ensures
            ({
                let (done, b) = callee_conditions(v@, v@.len() as int, old(vars)@);
                &&& final(vars)@ == b
                &&& term::forms(final(assertions)@) == term::forms(old(assertions)@) + done
                &&& used == (done.len() > 0)
            }),
    {
        let ghost had = term::forms(assertions@);
        let mut used = false;
        let mut i: usize = 0;
        proof {
            assert(had + Seq::<Form>::empty() =~= had);
        }
        while i < v.len()
            invariant
                i <= v.len(),
                ({
                    let (done, b) = callee_conditions(v@, i as int, old(vars)@);
                    &&& vars@ == b
                    &&& term::forms(assertions@) == had + done
                    &&& used == (done.len() > 0)
                }),
            decreases v.len() - i,
        {
            let ghost (done, b) = callee_conditions(v@, i as int, old(vars)@);
            let name = call_result_name(v[i].function_name.as_str());
            let known = vars.get(name.as_str()).is_some();
            if let Some(c) = &v[i].condition {
                if known {
                    if let Ok(t) = self.translator.translate_expr_with_vars(c, vars) {
                        if t.sort() == Sort::Bool {
                            proof {
                                assert((had + done).push(t.form()) =~= had + done.push(t.form()));
                            }
                            push_term(assertions, t);
                            used = true;
                        }
                    }
                }
            }
            i += 1;
        }
        used
    }

    /// Asserts that a script that is valid Taproot has thirty-four bytes.
    fn assert_taproot_fact(&self, assertions: &mut Vec<Rc<Term>>, vars: &VarMap)
        ensures
            term::forms(final(assertions)@) == term::forms(old(assertions)@) + taproot_fact(vars@),
    {
        let ghost had = term::forms(assertions@);
        let mut length: Option<Rc<Term>> = None;
        let mut i: usize = 0;
        while i < vars.entries.len()
            invariant_except_break
                i <= vars.entries.len(),
                length is None,
                first_script_length(vars@, 0) == first_script_length(vars@, i as int),
            ensures
                z3_translator::seen_some(length) == first_script_length(vars@, 0),
            decreases vars.entries.len() - i,
        {
            let name = vars.entries[i].0.as_str();
            proof {
                assert(vars@[i as int].0 == name@);
            }
            if ends_with(name, "script_pubkey_len") || same(name, "script_len") {
                length = vars.get(name);
                break;
            }
            i += 1;
        }
        let valid = vars.get("call_validate_taproot_script_result");
        match (valid, length) {
            (Some(v), Some(l)) => {
                if v.sort() == Sort::Bool && l.sort() == Sort::Int {
                    let eq = binary_term(TermOp::Eq, &l, &int_term(34));
                    let fact = binary_term(TermOp::Implies, &v, &eq);
                    push_term(assertions, fact);
                }
            },
            _ => {},
        }
        proof {
            assert(term::forms(assertions@) =~= had + taproot_fact(vars@));
        }
    }

    /// Asserts that the bit of a deployment is fifteen where the body calls one that returns it.
    fn assert_deployment_fact(&self, assertions: &mut Vec<Rc<Term>>, vars: &VarMap)
        ensures
            term::forms(final(assertions)@) == term::forms(old(assertions)@) + deployment_fact(
                vars@,
            ),
    {
        let ghost had = term::forms(assertions@);
        let mut found = false;
        let mut i: usize = 0;
        while i < vars.entries.len()
            invariant
                i <= vars.entries.len(),
                found == exists|j: int| 0 <= j < i && callee_bit((#[trigger] vars@[j]).0),
            decreases vars.entries.len() - i,
        {
            let name = vars.entries[i].0.as_str();
            proof {
                assert(vars@[i as int].0 == name@);
            }
            if ends_with(name, "_bit") && starts_with(name, "call_") {
                found = true;
            }
            i += 1;
        }
        if let Some(bit) = vars.get("result_bit") {
            if bit.sort() == Sort::Int && found {
                push_term(assertions, binary_term(TermOp::Eq, &bit, &int_term(15)));
            }
        }
        proof {
            assert(term::forms(assertions@) =~= had + deployment_fact(vars@));
        }
    }

    /// The question on a contract, or why it cannot be put.
    #[verifier::rlimit(60)]
    #[verifier::spinoff_prover]
    pub fn contract_query(
        &self,
        contract: &Contract,
        func: Option<&FnItem>,
        requires_contracts: &Vec<Contract>,
        facts: &Vec<CalleeFact>,
    ) -> (r: Result<ContractQuery, VerificationResult>)
        ensures
            match (r, question(*contract, func, requires_contracts@, facts@)) {
                (Ok(q), Ok(v)) => q@ == v,
                (Err(e), Err(m)) => e@ == Ruling::Error(m),
                _ => false,
            },
    {
        let none: Vec<(String, Type)> = Vec::new();
        let (params, output): (&Vec<(String, Type)>, Option<&Type>) = match func {
            Some(f) => (&f.params, f.output.as_ref()),
            None => (&none, None),
        };
        proof {
            assert(z3_translator::type_seen(output) == signature(func).1);
            assert(params@ =~= signature(func).0);
        }
        let names = param_names(params);
        let (mut vars, mut assertions) = self.translator.build_shared_vars(params, output);
        let c = match self.translator.translate_contract_with_shared_vars(contract, &mut vars) {
            Ok(c) => c,
            Err(x) => {
                return Err(
                    VerificationResult::Error {
                        error: cat("Translation error: ", x.message().as_str()),
                    },
                );
            },
        };
        if c.sort() != Sort::Bool {
            return Err(
                VerificationResult::Error { error: "Contract expression must be boolean".to_owned() },
            );
        }
        let mut body: Option<Rc<Term>> = None;
        let mut used = false;
        let ghost types = term::forms(assertions@);
        if contract.contract_type == ContractType::Ensures {
            let ghost b0 = vars@;
            self.assert_conditions(requires_contracts, &mut assertions, &mut vars);
            let ghost (pre, b1) = conditions(
                requires_contracts@,
                requires_contracts@.len() as int,
                b0,
            );
            if let Some(f) = func {
                add_shift_axioms(&mut assertions);
                let ghost before = term::forms(assertions@);
                if let Ok(Some(formula)) = self.translator.translate_function_body(f, &mut vars) {
                    push_term(&mut assertions, formula.clone());
                    self.assert_counts(&mut assertions, &vars);
                    let ghost b2 = vars@;
                    used = self.assert_callee_facts(facts, &mut assertions, &mut vars);
                    self.assert_taproot_fact(&mut assertions, &vars);
                    self.assert_deployment_fact(&mut assertions, &vars);
                    proof {
                        let (callee, c3) = callee_conditions(facts@, facts@.len() as int, b2);
                        let ff = formula.form();
                        assert(before.push(ff) + count_constraints(b2, b2.len() as int) + callee
                            + taproot_fact(c3) + deployment_fact(c3) =~= before + (seq![ff]
                            + count_constraints(b2, b2.len() as int) + callee + taproot_fact(c3)
                            + deployment_fact(c3)));
                    }
                    body = Some(formula);
                } else {
                    proof {
                        assert(before + Seq::<Form>::empty() =~= before);
                    }
                }
            } else {
                proof {
                    assert(types + pre + Seq::<Form>::empty() + Seq::<Form>::empty() =~= types
                        + pre);
                }
            }
        }
        push_term(&mut assertions, not_term(&c));
        Ok(ContractQuery { assertions, body, callee_facts_used: used, params: names })
    }
}

// ---------------------------------------------------------------------------
// Answers on a contract
// ---------------------------------------------------------------------------
/// A name without the mark of one of two runs.
pub open spec fn unmarked(name: Seq<char>) -> Seq<char> {
    if text::starts(name, "r1_"@) || text::starts(name, "r2_"@) {
        name.skip(3)
    } else {
        name
    }
}

/// Whether a name is that of a parameter or of the result.
pub open spec fn known_name(name: Seq<char>, params: Seq<Seq<char>>) -> bool {
    params.contains(unmarked(name)) || unmarked(name) == "result"@
}

/// Whether values count against a function: there are some, and they speak of parameters and the
/// result alone.
pub open spec fn genuine(c: Option<Counterexample>, params: Seq<Seq<char>>) -> bool {
    match c {
        None => false,
        Some(ce) => ce.assignments@.len() > 0 && forall|i: int|
            0 <= i < ce.assignments@.len() ==> known_name(
                (#[trigger] ce.assignments@[i]).0@,
                params,
            ),
    }
}

/// Whether the body of the function counts: it was read, and either says something or a callee's
/// postcondition was used.
pub open spec fn body_counts(q: QueryView, body_text: Seq<char>) -> bool {
    q.body is Some && (!says_nothing(body_text) || q.callee_facts_used)
}

/// The reason where the body does not count.
pub open spec fn body_missing() -> Seq<char> {
    "Could not translate function body to Z3 constraints; SAT result without body constraints is not meaningful"@
}

/// The reason where values do not count.
pub open spec fn no_witness() -> Seq<char> {
    "Z3 found SAT but counterexample model has no named variable assignments (incomplete translator); result is not a concrete witness against the implementation"@
}

/// The reason where the solver could not tell.
pub open spec fn solver_gave_up() -> Seq<char> {
    "Z3 solver returned Unknown (timeout or complexity). Try --timeout 30."@
}

/// What an answer to the question on a contract means.
pub open spec fn ruling(q: QueryView, body_text: Seq<char>, answer: SolverAnswer) -> Ruling {
    match answer {
        SolverAnswer::Unsat => Ruling::Verified(body_counts(q, body_text)),
        SolverAnswer::Sat(c) => if !body_counts(q, body_text) {
            Ruling::Unknown(body_missing())
        } else if !genuine(c, q.params) {
            Ruling::Unknown(no_witness())
        } else {
            Ruling::Failed(values_of(c))
        },
        SolverAnswer::Unknown => Ruling::Unknown(solver_gave_up()),
    }
}

fn is_known_name(name: &str, params: &Vec<String>) -> (r: bool)
    ensures
        r == known_name(name@, text::views(params@)),
{
    proof {
        reveal_strlit("r1_");
        reveal_strlit("r2_");
    }
    let bare = if starts_with(name, "r1_") || starts_with(name, "r2_") {
        let v = to_chars(name);
        proof {
            assert(name@.subrange(3, name@.len() as int) =~= name@.skip(3));
        }
        from_range(v.as_slice(), 3, v.len())
    } else {
        name.to_owned()
    };
    if same(bare.as_str(), "result") {
        return true;
    }
    crate::text::has_string(params, bare.as_str())
}

#[verifier::loop_isolation(false)]
fn is_genuine(c: &Option<Counterexample>, params: &Vec<String>) -> (r: bool)
    ensures
        r == genuine(*c, text::views(params@)),
{
    match c {
        None => false,
        Some(ce) => {
            if ce.assignments.len() == 0 {
                return false;
            }
            let mut i: usize = 0;
            while i < ce.assignments.len()
                invariant
                    i <= ce.assignments.len(),
                    forall|j: int|
                        0 <= j < i ==> known_name(
                            (#[trigger] ce.assignments@[j]).0@,
                            text::views(params@),
                        ),
                decreases ce.assignments.len() - i,
            {
                if !is_known_name(ce.assignments[i].0.as_str(), params) {
                    assert(!known_name(ce.assignments@[i as int].0@, text::views(params@)));
                    return false;
                }
                i += 1;
            }
            true
        },
    }
}

/// What an answer to the question on a contract means. `body_text` is how the solver writes out the
/// formula of the body.
pub fn contract_verdict(query: &ContractQuery, body_text: &str, answer: SolverAnswer) -> (r:
    VerificationResult)
    ensures
        r@ == ruling(query@, body_text@, answer),
{
    let body_translated = query.body.is_some() && (!is_formula_body_vacuous(body_text)
        || query.callee_facts_used);
    match answer {
        SolverAnswer::Unsat => VerificationResult::Verified { body_translated },
        SolverAnswer::Sat(counterexample) => {
            if !body_translated {
                return VerificationResult::Unknown {
                    reason:
                        "Could not translate function body to Z3 constraints; SAT result without body constraints is not meaningful".to_owned(),
                };
            }
            if !is_genuine(&counterexample, &query.params) {
                return VerificationResult::Unknown {
                    reason:
                        "Z3 found SAT but counterexample model has no named variable assignments (incomplete translator); result is not a concrete witness against the implementation".to_owned(),
                };
            }
            VerificationResult::Failed { counterexample }
        },
        SolverAnswer::Unknown => VerificationResult::Unknown {
            reason: "Z3 solver returned Unknown (timeout or complexity). Try --timeout 30.".to_owned(),
        },
    }
}

/// A property that is reported as failed comes with values, and these speak of parameters and the
/// result alone.
pub proof fn law_failure_has_witness(q: QueryView, body_text: Seq<char>, answer: SolverAnswer)
    ensures
        ruling(q, body_text, answer) is Failed ==> (answer matches SolverAnswer::Sat(c) && genuine(
            c,
            q.params,
        ) && body_counts(q, body_text)),
{
}

/// Only an answer that nothing satisfies the question verifies a contract.
pub proof fn law_verified_is_unsat(q: QueryView, body_text: Seq<char>, answer: SolverAnswer)
    ensures
        ruling(q, body_text, answer) is Verified <==> answer is Unsat,
{
}

// ---------------------------------------------------------------------------
// Formulas by themselves
// ---------------------------------------------------------------------------
/// The question whether a postcondition can hold at all, or why it cannot be put.
pub open spec fn smoke_question(contract: Contract) -> Result<Seq<Form>, Seq<char>> {
    if contract.contract_type != ContractType::Ensures {
        Err("check_ensures_formula_sat_smoke expects an Ensures contract"@)
    } else {
        match z3_rules::expr(*contract.condition, seq![]).0 {
            Err(f) => Err("Translation error: "@ + z3_translator::fault_message(f)),
            Ok(f) => if f.sort() != Sort::Bool {
                Err("Formula must translate to a boolean Z3 expression"@)
            } else {
                Ok(shift_statements().push(f))
            },
        }
    }
}

/// What an answer to that question means.
pub open spec fn smoke_ruling(answer: SolverAnswer) -> Ruling {
    match answer {
        SolverAnswer::Sat(_) => Ruling::Verified(false),
        SolverAnswer::Unsat => Ruling::Failed(None),
        SolverAnswer::Unknown => Ruling::Unknown("Z3 Unknown (formula satisfiability smoke)"@),
    }
}

/// What an answer to the question whether a postcondition can hold at all means.
pub fn smoke_verdict(answer: &SolverAnswer) -> (r: VerificationResult)
    ensures
        r@ == smoke_ruling(*answer),
{
    match answer {
        SolverAnswer::Sat(_) => VerificationResult::Verified { body_translated: false },
        SolverAnswer::Unsat => VerificationResult::Failed { counterexample: None },
        SolverAnswer::Unknown => VerificationResult::Unknown {
            reason: "Z3 Unknown (formula satisfiability smoke)".to_owned(),
        },
    }
}

// ---------------------------------------------------------------------------
// Determinism
// ---------------------------------------------------------------------------
/// The question whether two runs on equal inputs can differ.
#[derive(Debug)]
pub struct DeterminismQuery {
    /// What is asserted, in order.
    pub assertions: Vec<Rc<Term>>,
    /// The formula of the body in the first run.
    pub first: Rc<Term>,
    /// The formula of the body in the second run.
    pub second: Rc<Term>,
}

/// The parameters of a run, of the first `n`.
pub open spec fn run_parameters(params: Seq<(String, Type)>, n: int, mark: Seq<char>) -> Bindings
    decreases n,
{
    if n <= 0 || n > params.len() {
        seq![]
    } else {
        let name = params[n - 1].0@;
        vars::bind(run_parameters(params, n - 1, mark), name, term::int_var(mark + name))
    }
}

/// Whether the result of a function is encoded by an integer, though it is a truth value inside.
pub open spec fn encoded_result(func: FnItem) -> bool {
    &&& func.output matches Some(t) && z3_tables::result_like(t)
    &&& {
        ||| func.name@ == "verify_script_with_context_full"@
        ||| func.name@ == "verify_script_with_context"@
        ||| func.name@ == "try_verify_p2pk_fast_path"@
    }
}

/// The result of a run.
pub open spec fn run_result(func: FnItem, mark: Seq<char>) -> Form {
    if !encoded_result(func) && (func.output matches Some(t) && z3_tables::bool_like(t)) {
        term::bool_var(mark + "result"@)
    } else {
        term::int_var(mark + "result"@)
    }
}

/// What is bound before a run.
pub open spec fn run_bindings(func: FnItem, mark: Seq<char>) -> Bindings {
    vars::bind(
        run_parameters(func.params@, func.params@.len() as int, mark),
        "result"@,
        run_result(func, mark),
    )
}

/// The preconditions in both runs, of the first `n`.
pub open spec fn run_conditions(v: Seq<Contract>, n: int, b1: Bindings, b2: Bindings) -> (
    Seq<Form>,
    Bindings,
    Bindings,
)
    decreases n,
{
    if n <= 0 || n > v.len() {
        (seq![], b1, b2)
    } else {
        let (done, b1, b2) = run_conditions(v, n - 1, b1, b2);
        let (one, b1) = readable(*v[n - 1].condition, b1);
        let (two, b2) = readable(*v[n - 1].condition, b2);
        (done + one + two, b1, b2)
    }
}

/// A condition, where it can be read as a truth value.
pub open spec fn readable(e: Expr, b: Bindings) -> (Seq<Form>, Bindings) {
    match z3_rules::expr(e, b) {
        (Ok(f), b) => if f.sort() == Sort::Bool {
            (seq![f], b)
        } else {
            (seq![], b)
        },
        (Err(_), b) => (seq![], b),
    }
}

/// The inputs of both runs are equal, of the first `n`.
pub open spec fn equal_inputs(params: Seq<(String, Type)>, n: int) -> Seq<Form>
    decreases n,
{
    if n <= 0 || n > params.len() {
        seq![]
    } else {
        let name = params[n - 1].0@;
        equal_inputs(params, n - 1).push(
            term::binary(TermOp::Eq, term::int_var("r1_"@ + name), term::int_var("r2_"@ + name)),
        )
    }
}

/// Inputs are equal and results are not.
pub open spec fn runs_differ(func: FnItem) -> Form {
    Form::All(
        seq![
            Form::All(equal_inputs(func.params@, func.params@.len() as int)),
            term::negated(
                term::binary(TermOp::Eq, run_result(func, "r1_"@), run_result(func, "r2_"@)),
            ),
        ],
    )
}

/// The formula of the body in a run, or why there is none.
pub open spec fn run_formula(func: FnItem, run: Seq<char>, b: Bindings) -> (
    Result<Form, Seq<char>>,
    Bindings,
) {
    match z3_rules::block_formula(func.body, b) {
        (Ok(Some(f)), b) => (Ok(f), b),
        (Ok(None), b) => (
            Err("Could not translate body for run "@ + run + " (no formula)"@),
            b,
        ),
        (Err(f), b) => (
            Err(
                "Could not translate body for run "@ + run + ": "@ + z3_translator::fault_message(
                    f,
                ),
            ),
            b,
        ),
    }
}

/// The question whether two runs on equal inputs can differ, or what is known without it.
pub open spec fn determinism_question(func: FnItem, requires_contracts: Seq<Contract>) -> Result<
    (Seq<Form>, Form, Form),
    Ruling,
> {
    if func.params@.len() == 0 {
        Err(Ruling::Verified(false))
    } else {
        match run_formula(func, "1"@, run_bindings(func, "r1_"@)) {
            (Err(m), _) => Err(Ruling::Error(m)),
            (Ok(f1), b1) => match run_formula(func, "2"@, run_bindings(func, "r2_"@)) {
                (Err(m), _) => Err(Ruling::Error(m)),
                (Ok(f2), b2) => Ok(
                    (
                        (shift_statements() + seq![f1, f2] + run_conditions(
                            requires_contracts,
                            requires_contracts.len() as int,
                            b1,
                            b2,
                        ).0).push(runs_differ(func)),
                        f1,
                        f2,
                    ),
                ),
            },
        }
    }
}

/// What an answer to that question means.
pub open spec fn determinism_ruling(
    first: Seq<char>,
    second: Seq<char>,
    answer: SolverAnswer,
) -> Ruling {
    if tautology(first) || tautology(second) {
        Ruling::Unknown(
            "Could not translate function body to Z3 constraints; determinism check without body constraints is not meaningful"@,
        )
    } else {
        match answer {
            SolverAnswer::Unsat => Ruling::Verified(true),
            SolverAnswer::Sat(c) => if says_nothing(first) && says_nothing(second) {
                Ruling::Unknown(
                    "Could not translate function body to Z3 constraints; determinism SAT with untranslated bodies is not a concrete witness against the implementation"@,
                )
            } else if c matches Some(ce) && ce.assignments@.len() > 0 {
                Ruling::Failed(values_of(c))
            } else {
                Ruling::Unknown(no_witness())
            },
            SolverAnswer::Unknown => Ruling::Unknown(
                "Z3 returned Unknown (determinism check). Try --timeout 30."@,
            ),
        }
    }
}

/// What an answer to the question on determinism means. `first` and `second` are how the solver
/// writes out the formulas of the two runs.
pub fn determinism_verdict(first: &str, second: &str, answer: SolverAnswer) -> (r:
    VerificationResult)
    ensures
        r@ == determinism_ruling(first@, second@, answer),
{
    if is_tautology(first) || is_tautology(second) {
        return VerificationResult::Unknown {
            reason:
                "Could not translate function body to Z3 constraints; determinism check without body constraints is not meaningful".to_owned(),
        };
    }
    match answer {
        SolverAnswer::Unsat => VerificationResult::Verified { body_translated: true },
        SolverAnswer::Sat(counterexample) => {
            if is_formula_body_vacuous(first) && is_formula_body_vacuous(second) {
                return VerificationResult::Unknown {
                    reason:
                        "Could not translate function body to Z3 constraints; determinism SAT with untranslated bodies is not a concrete witness against the implementation".to_owned(),
                };
            }
            let witness = match &counterexample {
                Some(ce) => ce.assignments.len() > 0,
                None => false,
            };
            if !witness {
                return VerificationResult::Unknown {
                    reason:
                        "Z3 found SAT but counterexample model has no named variable assignments (incomplete translator); result is not a concrete witness against the implementation".to_owned(),
                };
            }
            VerificationResult::Failed { counterexample }
        },
        SolverAnswer::Unknown => VerificationResult::Unknown {
            reason: "Z3 returned Unknown (determinism check). Try --timeout 30.".to_owned(),
        },
    }
}

impl Z3Verifier {
    /// The question whether a postcondition can hold at all, or why it cannot be put.
    pub fn smoke_query(&self, contract: &Contract) -> (r: Result<Vec<Rc<Term>>, VerificationResult>)
        ensures
            match (r, smoke_question(*contract)) {
                (Ok(v), Ok(s)) => term::forms(v@) == s,
                (Err(e), Err(m)) => e@ == Ruling::Error(m),
                _ => false,
            },
    {
        if contract.contract_type != ContractType::Ensures {
            return Err(
                VerificationResult::Error {
                    error: "check_ensures_formula_sat_smoke expects an Ensures contract".to_owned(),
                },
            );
        }
        match self.translator.translate_contract(contract) {
            Err(x) => Err(
                VerificationResult::Error {
                    error: cat("Translation error: ", x.message().as_str()),
                },
            ),
            Ok(f) => {
                if f.sort() != Sort::Bool {
                    return Err(
                        VerificationResult::Error {
                            error: "Formula must translate to a boolean Z3 expression".to_owned(),
                        },
                    );
                }
                let mut v: Vec<Rc<Term>> = Vec::new();
                add_shift_axioms(&mut v);
                proof {
                    assert(term::forms(v@) =~= shift_statements());
                }
                push_term(&mut v, f);
                Ok(v)
            },
        }
    }

    /// What is bound before a run.
    fn run_vars(&self, func: &FnItem, mark: &str) -> (r: VarMap)
        ensures
            r@ == run_bindings(*func, mark@),
    {
        let mut vars = VarMap::new();
        let mut i: usize = 0;
        while i < func.params.len()
            invariant
                i <= func.params.len(),
                vars@ == run_parameters(func.params@, i as int, mark@),
            decreases func.params.len() - i,
        {
            let name = func.params[i].0.as_str();
            vars.insert(name, var_term(cat(mark, name).as_str(), Sort::Int));
            i += 1;
        }
        vars.insert("result", self.result_term(func, mark));
        vars
    }

    /// The result of a run.
    fn result_term(&self, func: &FnItem, mark: &str) -> (r: Rc<Term>)
        ensures
            r.form() == run_result(*func, mark@),
    {
        let name = cat(mark, "result");
        let n = func.name.as_str();
        let truth = match &func.output {
            Some(t) => returns_bool_like(t) && !(returns_result_or_option_result(t) && (same(
                n,
                "verify_script_with_context_full",
            ) || same(n, "verify_script_with_context") || same(n, "try_verify_p2pk_fast_path"))),
            None => false,
        };
        if truth {
            var_term(name.as_str(), Sort::Bool)
        } else {
            var_term(name.as_str(), Sort::Int)
        }
    }

    /// The formula of the body in a run.
    fn run_formula(&self, func: &FnItem, run: &str, vars: &mut VarMap) -> (r: Result<
        Rc<Term>,
        String,
    >)
        ensures
            (match r {
                Ok(t) => Ok(t.form()),
                Err(m) => Err(m@),
            }, final(vars)@) == run_formula(*func, run@, old(vars)@),
    {
        match self.translator.translate_function_body(func, vars) {
            Ok(Some(f)) => Ok(f),
            Ok(None) => Err(cat3("Could not translate body for run ", run, " (no formula)")),
            Err(x) => {
                let front = cat3("Could not translate body for run ", run, ": ");
                Err(cat(front.as_str(), x.message().as_str()))
            },
        }
    }

    fn assert_readable(&self, e: &Expr, assertions: &mut Vec<Rc<Term>>, vars: &mut VarMap)
        ensures
            final(vars)@ == readable(*e, old(vars)@).1,
            term::forms(final(assertions)@) == term::forms(old(assertions)@) + readable(
                *e,
                old(vars)@,
            ).0,
    {
        let ghost had = term::forms(assertions@);
        let ghost b = vars@;
        if let Ok(t) = self.translator.translate_expr_with_vars(e, vars) {
            if t.sort() == Sort::Bool {
                push_term(assertions, t);
            }
        }
        proof {
            assert(term::forms(assertions@) =~= had + readable(*e, b).0);
        }
    }

    /// The question whether two runs on equal inputs can differ, or what is known without it.
    pub fn determinism_query(&self, func: &FnItem, requires_contracts: &Vec<Contract>) -> (r: Result<
        DeterminismQuery,
        VerificationResult,
    >)
        ensures
            match (r, determinism_question(*func, requires_contracts@)) {
                (Ok(q), Ok((a, f1, f2))) => term::forms(q.assertions@) == a && q.first.form() == f1
                    && q.second.form() == f2,
                (Err(e), Err(v)) => e@ == v,
                _ => false,
            },
    {
        if func.params.len() == 0 {
            return Err(VerificationResult::Verified { body_translated: false });
        }
        let mut vars1 = self.run_vars(func, "r1_");
        let mut vars2 = self.run_vars(func, "r2_");
        let first = match self.run_formula(func, "1", &mut vars1) {
            Ok(f) => f,
            Err(error) => {
                return Err(VerificationResult::Error { error });
            },
        };
        let second = match self.run_formula(func, "2", &mut vars2) {
            Ok(f) => f,
            Err(error) => {
                return Err(VerificationResult::Error { error });
            },
        };
        let ghost b1 = vars1@;
        let ghost b2 = vars2@;
        let mut assertions: Vec<Rc<Term>> = Vec::new();
        add_shift_axioms(&mut assertions);
        push_term(&mut assertions, first.clone());
        push_term(&mut assertions, second.clone());
        let ghost had = shift_statements() + seq![first.form(), second.form()];
        let mut i: usize = 0;
        proof {
            assert(term::forms(assertions@) =~= had);
            assert(had + Seq::<Form>::empty() =~= had);
        }
        while i < requires_contracts.len()
            invariant
                i <= requires_contracts.len(),
                ({
                    let (done, c1, c2) = run_conditions(requires_contracts@, i as int, b1, b2);
                    &&& vars1@ == c1
                    &&& vars2@ == c2
                    &&& term::forms(assertions@) == had + done
                }),
            decreases requires_contracts.len() - i,
        {
            let ghost (done, c1, c2) = run_conditions(requires_contracts@, i as int, b1, b2);
            let e: &Expr = &requires_contracts[i].condition;
            self.assert_readable(e, &mut assertions, &mut vars1);
            self.assert_readable(e, &mut assertions, &mut vars2);
            proof {
                let one = readable(*e, c1).0;
                let two = readable(*e, c2).0;
                assert(had + done + one + two =~= had + (done + one + two));
            }
            i += 1;
        }
        let mut equal: Vec<Rc<Term>> = Vec::new();
        let mut k: usize = 0;
        proof {
            assert(term::forms(equal@) =~= seq![]);
        }
        while k < func.params.len()
            invariant
                k <= func.params.len(),
                term::forms(equal@) == equal_inputs(func.params@, k as int),
            decreases func.params.len() - k,
        {
            let name = func.params[k].0.as_str();
            let x1 = var_term(cat("r1_", name).as_str(), Sort::Int);
            let x2 = var_term(cat("r2_", name).as_str(), Sort::Int);
            push_term(&mut equal, binary_term(TermOp::Eq, &x1, &x2));
            k += 1;
        }
        let r1 = self.result_term(func, "r1_");
        let r2 = self.result_term(func, "r2_");
        let differ = not_term(&binary_term(TermOp::Eq, &r1, &r2));
        push_term(&mut assertions, both_term(&all_term(equal), &differ));
        Ok(DeterminismQuery { assertions, first, second })
    }
}

// ---------------------------------------------------------------------------
// What rulings mean
// ---------------------------------------------------------------------------
/// Values that speak of parameters and the result alone are a failure where the body counts, and the
/// failure shows these values. An answer that is none leaves the contract open.
pub proof fn law_witness_is_failure(
    q: QueryView,
    body_text: Seq<char>,
    c: Counterexample,
    answer: SolverAnswer,
)
    requires
        q.body is Some,
        q.callee_facts_used || !says_nothing(body_text),
        c.assignments@.len() > 0,
        forall|i: int|
            0 <= i < c.assignments@.len() ==> {
                let name = (#[trigger] c.assignments@[i]).0@;
                name == "result"@ || (q.params.contains(name) && !text::starts(name, "r1_"@)
                    && !text::starts(name, "r2_"@))
            },
    ensures
        ruling(q, body_text, SolverAnswer::Sat(Some(c))) == Ruling::Failed(values_of(Some(c))),
        ruling(q, body_text, SolverAnswer::Unknown) is Unknown,
{
    lemma_result_is_unmarked();
    assert forall|i: int| 0 <= i < c.assignments@.len() implies known_name(
        (#[trigger] c.assignments@[i]).0@,
        q.params,
    ) by {}
}

proof fn lemma_result_is_unmarked()
    ensures
        unmarked("result"@) == "result"@,
{
    reveal_strlit("result");
    reveal_strlit("r1_");
    reveal_strlit("r2_");
    assert("result"@[1] == 'e');
    if text::starts("result"@, "r1_"@) {
        assert("result"@.take(3)[1] == "result"@[1]);
    }
    if text::starts("result"@, "r2_"@) {
        assert("result"@.take(3)[1] == "result"@[1]);
    }
}

/// The name of a parameter is known with the mark of either run, and one value of a name that is
/// neither a parameter nor the result makes values no witness.
pub proof fn law_marked_names_are_known(
    name: Seq<char>,
    params: Seq<Seq<char>>,
    c: Counterexample,
    i: int,
)
    ensures
        params.contains(name) || name == "result"@ ==> known_name("r1_"@ + name, params) && known_name(
            "r2_"@ + name,
            params,
        ),
        0 <= i < c.assignments@.len() && c.assignments@[i].0@ == "r1_"@ + name && !params.contains(name)
            && name != "result"@ ==> !genuine(Some(c), params),
{
    reveal_strlit("r1_");
    reveal_strlit("r2_");
    assert(("r1_"@ + name).take(3) =~= "r1_"@);
    assert(("r2_"@ + name).take(3) =~= "r2_"@);
    assert(("r1_"@ + name).skip(3) =~= name);
    assert(("r2_"@ + name).skip(3) =~= name);
    if 0 <= i < c.assignments@.len() && c.assignments@[i].0@ == "r1_"@ + name && !params.contains(name)
        && name != "result"@ {
        assert(!known_name(c.assignments@[i].0@, params));
    }
}

/// A formula can hold exactly where the solver finds values for it.
pub proof fn law_smoke_is_satisfiability(answer: SolverAnswer)
    ensures
        smoke_ruling(answer) is Verified <==> answer is Sat,
        smoke_ruling(answer) is Failed <==> answer is Unsat,
{
}

/// Two runs are said to agree only where no values tell them apart, and to differ only where some
/// do; and neither is said of a body that has an evident tautology for its formula.
pub proof fn law_determinism_follows_the_answer(
    first: Seq<char>,
    second: Seq<char>,
    answer: SolverAnswer,
)
    ensures
        determinism_ruling(first, second, answer) is Verified <==> answer is Unsat && !tautology(first)
            && !tautology(second),
        determinism_ruling(first, second, answer) matches Ruling::Failed(v) ==> (answer matches
            SolverAnswer::Sat(Some(c)) && c.assignments@.len() > 0 && v == values_of(Some(c))),
        (answer matches SolverAnswer::Sat(Some(c)) && c.assignments@.len() > 0) && !tautology(first)
            && !tautology(second) && !says_nothing(first) ==> determinism_ruling(first, second, answer)
            is Failed,
{
}

proof fn lemma_no_result_word(s: Seq<char>, with: Seq<char>, i: int)
    requires
        0 <= i <= s.len(),
        forall|j: int| i <= j < s.len() ==> s[j] != 'r' || !result_word_at(s, j),
    ensures
        substituted_from(s, i, with) == s.skip(i),
    decreases s.len() - i,
{
    reveal_strlit("result");
    if i < s.len() {
        if result_word_at(s, i) {
            assert(s.subrange(i, i + 6)[0] == s[i]);
            assert("result"@[0] == 'r');
        }
        lemma_no_result_word(s, with, i + 1);
        assert(s.skip(i) =~= seq![s[i]] + s.skip(i + 1));
    } else {
        assert(s.skip(i) =~= seq![]);
    }
}

proof fn lemma_word_behind(a: Seq<char>, b: Seq<char>, with: Seq<char>, i: int)
    requires
        0 <= i <= a.len(),
        forall|j: int| 0 <= j < a.len() ==> a[j] != 'r',
        forall|j: int| 0 <= j < b.len() ==> b[j] != 'r',
        a.len() > 0 ==> !ident_char(a.last()),
        b.len() > 0 ==> !ident_char(b[0]),
    ensures
        substituted_from(a + "result"@ + b, i, with) == a.skip(i) + with + b,
    decreases a.len() - i,
{
    reveal_strlit("result");
    let s = a + "result"@ + b;
    let n = a.len() as int;
    if i < n {
        if result_word_at(s, i) {
            assert(s.subrange(i, i + 6)[0] == s[i]);
            assert("result"@[0] == 'r');
            assert(s[i] == a[i]);
        }
        lemma_word_behind(a, b, with, i + 1);
        assert(s[i] == a[i]);
        assert(a.skip(i) + with + b =~= seq![s[i]] + (a.skip(i + 1) + with + b));
    } else {
        assert(s.subrange(n, n + 6) =~= "result"@);
        assert(text::occurs_at(s, "result"@, n));
        if n > 0 {
            assert(s[n - 1] == a.last());
        }
        if b.len() > 0 {
            assert(s[n + 6] == b[0]);
        }
        assert(result_word_at(s, n));
        assert forall|j: int| n + 6 <= j < s.len() implies s[j] != 'r' || !result_word_at(s, j) by {
            assert(s[j] == b[j - n - 6]);
        }
        lemma_no_result_word(s, with, n + 6);
        assert(s.skip(n + 6) =~= b);
        assert(a.skip(n) + with + b =~= with + b);
    }
}

/// The word `result` in the postcondition of a callee becomes the name of the callee's value, and what
/// stands around it stays.
pub proof fn law_result_is_substituted(a: Seq<char>, b: Seq<char>, with: Seq<char>)
    requires
        forall|j: int| 0 <= j < a.len() ==> a[j] != 'r',
        forall|j: int| 0 <= j < b.len() ==> b[j] != 'r',
        a.len() > 0 ==> !ident_char(a.last()),
        b.len() > 0 ==> !ident_char(b[0]),
    ensures
        substituted(a + "result"@ + b, with) == a + with + b,
{
    lemma_word_behind(a, b, with, 0);
    assert(a.skip(0) =~= a);
}

/// A longer name that begins or ends with `result` stays.
pub proof fn law_longer_names_stay(a: Seq<char>, b: Seq<char>, with: Seq<char>)
    requires
        forall|j: int| 0 <= j < a.len() ==> a[j] != 'r',
        forall|j: int| 0 <= j < b.len() ==> b[j] != 'r',
        (a.len() > 0 && (chars::ascii_letter(a.last()) || chars::ascii_digit(a.last()) || a.last() == '_'))
            || (b.len() > 0 && (chars::ascii_letter(b[0]) || chars::ascii_digit(b[0]) || b[0] == '_')),
    ensures
        substituted(a + "result"@ + b, with) == a + "result"@ + b,
{
    reveal_strlit("result");
    let s = a + "result"@ + b;
    let n = a.len() as int;
    assert("result"@[1] == 'e' && "result"@[2] == 's' && "result"@[3] == 'u' && "result"@[4] == 'l'
        && "result"@[5] == 't');
    assert forall|j: int| 0 <= j < s.len() implies s[j] != 'r' || !result_word_at(s, j) by {
        if j < n {
            assert(s[j] == a[j]);
        } else if j >= n + 6 {
            assert(s[j] == b[j - n - 6]);
        } else if j == n {
            if n > 0 {
                assert(s[n - 1] == a.last());
            }
            if b.len() > 0 {
                assert(s[n + 6] == b[0]);
            }
        } else {
            assert(s[j] == "result"@[j - n]);
        }
    }
    lemma_no_result_word(s, with, 0);
    assert(s.skip(0) =~= s);
}

} // verus!
