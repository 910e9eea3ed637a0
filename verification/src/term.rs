//! Terms of the solver: integers and truth values over named constants and functions.
use std::rc::Rc;
use vstd::prelude::*;
use crate::text;

verus! {

/// The two sorts of terms.
#[derive(Debug, Clone, Copy, PartialEq, Eq, Structural)]
pub enum Sort {
    Int,
    Bool,
}

/// The binary operations of the solver.
#[derive(Debug, Clone, Copy, PartialEq, Eq, Structural)]
pub enum TermOp {
    Plus,
    Minus,
    Times,
    Div,
    Rem,
    Eq,
    Lt,
    Le,
    Gt,
    Ge,
    Or,
    Implies,
}

/// A term.
#[derive(Debug)]
pub enum Term {
    Int(i128),
    Bool(bool),
    /// A named constant.
    Var(String, Sort),
    /// An uninterpreted function of integers, applied.
    Call(String, Vec<Rc<Term>>, Sort),
    Binary(TermOp, Rc<Term>, Rc<Term>),
    Not(Rc<Term>),
    Neg(Rc<Term>),
    /// A conjunction of any number of terms.
    All(Vec<Rc<Term>>),
    Ite(Rc<Term>, Rc<Term>, Rc<Term>),
    /// A statement on all integers in place of the named constants.
    ForAll(Vec<String>, Rc<Term>),
}

/// A term as a mathematical value.
pub enum Form {
    Int(int),
    Bool(bool),
    Var(Seq<char>, Sort),
    Call(Seq<char>, Seq<Form>, Sort),
    Binary(TermOp, Box<Form>, Box<Form>),
    Not(Box<Form>),
    Neg(Box<Form>),
    All(Seq<Form>),
    Ite(Box<Form>, Box<Form>, Box<Form>),
    ForAll(Seq<Seq<char>>, Box<Form>),
}

impl Term {
    /// The mathematical value of a term.
    pub open spec fn form(&self) -> Form
        decreases self,
    {
        match self {
            Term::Int(n) => Form::Int(*n as int),
            Term::Bool(b) => Form::Bool(*b),
            Term::Var(name, sort) => Form::Var(name@, *sort),
            Term::Call(name, args, sort) => Form::Call(
                name@,
                Seq::new(
                    args@.len(),
                    |i: int|
                        if 0 <= i < args@.len() {
                            args@[i].form()
                        } else {
                            arbitrary()
                        },
                ),
                *sort,
            ),
            Term::Binary(op, a, b) => Form::Binary(*op, Box::new(a.form()), Box::new(b.form())),
            Term::Not(a) => Form::Not(Box::new(a.form())),
            Term::Neg(a) => Form::Neg(Box::new(a.form())),
            Term::All(args) => Form::All(
                Seq::new(
                    args@.len(),
                    |i: int|
                        if 0 <= i < args@.len() {
                            args@[i].form()
                        } else {
                            arbitrary()
                        },
                ),
            ),
            Term::Ite(c, a, b) => Form::Ite(
                Box::new(c.form()),
                Box::new(a.form()),
                Box::new(b.form()),
            ),
            Term::ForAll(names, a) => Form::ForAll(text::views(names@), Box::new(a.form())),
        }
    }

    /// The sort of a term.
    pub fn sort(&self) -> (r: Sort)
        ensures
            r == self.form().sort(),
        decreases self,
    {
        match self {
            Term::Int(_) => Sort::Int,
            Term::Bool(_) => Sort::Bool,
            Term::Var(_, sort) => *sort,
            Term::Call(_, _, sort) => *sort,
            Term::Binary(op, _, _) => match op {
                TermOp::Plus => Sort::Int,
                TermOp::Minus => Sort::Int,
                TermOp::Times => Sort::Int,
                TermOp::Div => Sort::Int,
                TermOp::Rem => Sort::Int,
                _ => Sort::Bool,
            },
            Term::Not(_) => Sort::Bool,
            Term::Neg(_) => Sort::Int,
            Term::All(_) => Sort::Bool,
            Term::Ite(_, a, _) => a.sort(),
            Term::ForAll(_, _) => Sort::Bool,
        }
    }
}

impl Form {
    /// The sort of a term.
    pub open spec fn sort(self) -> Sort
        decreases self,
    {
        match self {
            Form::Int(_) => Sort::Int,
            Form::Bool(_) => Sort::Bool,
            Form::Var(_, sort) => sort,
            Form::Call(_, _, sort) => sort,
            Form::Binary(op, _, _) => match op {
                TermOp::Plus => Sort::Int,
                TermOp::Minus => Sort::Int,
                TermOp::Times => Sort::Int,
                TermOp::Div => Sort::Int,
                TermOp::Rem => Sort::Int,
                _ => Sort::Bool,
            },
            Form::Not(_) => Sort::Bool,
            Form::Neg(_) => Sort::Int,
            Form::All(_) => Sort::Bool,
            Form::Ite(_, a, _) => a.sort(),
            Form::ForAll(_, _) => Sort::Bool,
        }
    }
}

/// Whether a binary operation fits the sorts of its operands.
pub open spec fn operands_fit(op: TermOp, a: Sort, b: Sort) -> bool {
    match op {
        TermOp::Eq => a == b,
        TermOp::Or => a == Sort::Bool && b == Sort::Bool,
        TermOp::Implies => a == Sort::Bool && b == Sort::Bool,
        _ => a == Sort::Int && b == Sort::Int,
    }
}

/// Whether every operation in a term stands on operands of the sorts that it takes.
pub open spec fn well_sorted(f: Form) -> bool
    decreases f,
{
    match f {
        Form::Int(_) => true,
        Form::Bool(_) => true,
        Form::Var(_, _) => true,
        Form::Call(_, args, _) => forall|i: int|
            0 <= i < args.len() ==> well_sorted(#[trigger] args[i]) && args[i].sort() == Sort::Int,
        Form::Binary(op, a, b) => well_sorted(*a) && well_sorted(*b) && operands_fit(
            op,
            a.sort(),
            b.sort(),
        ),
        Form::Not(a) => well_sorted(*a) && a.sort() == Sort::Bool,
        Form::Neg(a) => well_sorted(*a) && a.sort() == Sort::Int,
        Form::All(args) => forall|i: int|
            0 <= i < args.len() ==> well_sorted(#[trigger] args[i]) && args[i].sort() == Sort::Bool,
        Form::Ite(c, a, b) => well_sorted(*c) && c.sort() == Sort::Bool && well_sorted(*a)
            && well_sorted(*b) && a.sort() == b.sort(),
        Form::ForAll(_, a) => well_sorted(*a) && a.sort() == Sort::Bool,
    }
}

/// The mathematical values of a list of terms.
pub open spec fn forms(ts: Seq<Rc<Term>>) -> Seq<Form> {
    ts.map_values(|t: Rc<Term>| t.form())
}

/// A binary operation.
pub open spec fn binary(op: TermOp, a: Form, b: Form) -> Form {
    Form::Binary(op, Box::new(a), Box::new(b))
}

/// A negation.
pub open spec fn negated(a: Form) -> Form {
    Form::Not(Box::new(a))
}

/// A choice.
pub open spec fn choice(c: Form, a: Form, b: Form) -> Form {
    Form::Ite(Box::new(c), Box::new(a), Box::new(b))
}

/// An integer constant by its name.
pub open spec fn int_var(name: Seq<char>) -> Form {
    Form::Var(name, Sort::Int)
}

/// A truth constant by its name.
pub open spec fn bool_var(name: Seq<char>) -> Form {
    Form::Var(name, Sort::Bool)
}

/// A term as an integer: a truth value is one or zero.
pub open spec fn as_integer(a: Form) -> Form {
    if a.sort() == Sort::Bool {
        choice(a, Form::Int(1), Form::Int(0))
    } else {
        a
    }
}

/// A term as a truth value: an integer is true unless zero.
pub open spec fn as_truth(a: Form) -> Form {
    if a.sort() == Sort::Bool {
        a
    } else {
        negated(binary(TermOp::Eq, a, Form::Int(0)))
    }
}

/// The equation of two terms of the same sort.
pub open spec fn equation(a: Form, b: Form) -> Option<Form> {
    if a.sort() == b.sort() {
        Some(binary(TermOp::Eq, a, b))
    } else {
        None
    }
}

/// An integer.
pub fn int_term(n: i128) -> (r: Rc<Term>)
    ensures
        r.form() == Form::Int(n as int),
{
    Rc::new(Term::Int(n))
}

/// A truth value.
pub fn bool_term(b: bool) -> (r: Rc<Term>)
    ensures
        r.form() == Form::Bool(b),
{
    Rc::new(Term::Bool(b))
}

/// A constant by its name.
pub fn var_term(name: &str, sort: Sort) -> (r: Rc<Term>)
    ensures
        r.form() == Form::Var(name@, sort),
{
    Rc::new(Term::Var(name.to_owned(), sort))
}

/// An uninterpreted function, applied.
pub fn call_term(name: &str, args: Vec<Rc<Term>>, sort: Sort) -> (r: Rc<Term>)
    ensures
        r.form() == Form::Call(name@, forms(args@), sort),
{
    let r = Rc::new(Term::Call(name.to_owned(), args, sort));
    proof {
        assert(r.form()->Call_1 =~= forms(args@));
    }
    r
}

/// A binary operation.
pub fn binary_term(op: TermOp, a: &Rc<Term>, b: &Rc<Term>) -> (r: Rc<Term>)
    ensures
        r.form() == binary(op, a.form(), b.form()),
{
    Rc::new(Term::Binary(op, a.clone(), b.clone()))
}

/// A negation.
pub fn not_term(a: &Rc<Term>) -> (r: Rc<Term>)
    ensures
        r.form() == negated(a.form()),
{
    Rc::new(Term::Not(a.clone()))
}

/// A change of sign.
pub fn neg_term(a: &Rc<Term>) -> (r: Rc<Term>)
    ensures
        r.form() == Form::Neg(Box::new(a.form())),
{
    Rc::new(Term::Neg(a.clone()))
}

/// A choice.
pub fn ite_term(c: &Rc<Term>, a: &Rc<Term>, b: &Rc<Term>) -> (r: Rc<Term>)
    ensures
        r.form() == choice(c.form(), a.form(), b.form()),
{
    Rc::new(Term::Ite(c.clone(), a.clone(), b.clone()))
}

/// A conjunction.
pub fn all_term(args: Vec<Rc<Term>>) -> (r: Rc<Term>)
    ensures
        r.form() == Form::All(forms(args@)),
{
    let r = Rc::new(Term::All(args));
    proof {
        assert(r.form()->All_0 =~= forms(args@));
    }
    r
}

/// A conjunction of two.
pub fn both_term(a: &Rc<Term>, b: &Rc<Term>) -> (r: Rc<Term>)
    ensures
        r.form() == Form::All(seq![a.form(), b.form()]),
{
    let v: Vec<Rc<Term>> = vec![a.clone(), b.clone()];
    proof {
        assert(forms(v@) =~= seq![a.form(), b.form()]);
    }
    all_term(v)
}

/// A term as an integer.
pub fn integer_term(a: &Rc<Term>) -> (r: Rc<Term>)
    ensures
        r.form() == as_integer(a.form()),
{
    if a.sort() == Sort::Bool {
        ite_term(a, &int_term(1), &int_term(0))
    } else {
        a.clone()
    }
}

/// A term as a truth value.
pub fn truth_term(a: &Rc<Term>) -> (r: Rc<Term>)
    ensures
        r.form() == as_truth(a.form()),
{
    if a.sort() == Sort::Bool {
        a.clone()
    } else {
        not_term(&binary_term(TermOp::Eq, a, &int_term(0)))
    }
}

/// The equation of two terms of the same sort.
pub fn equation_term(a: &Rc<Term>, b: &Rc<Term>) -> (r: Option<Rc<Term>>)
    ensures
        match r {
            Some(e) => equation(a.form(), b.form()) == Some(e.form()),
            None => equation(a.form(), b.form()) is None,
        },
{
    if a.sort() == b.sort() {
        Some(binary_term(TermOp::Eq, a, b))
    } else {
        None
    }
}

} // verus!
