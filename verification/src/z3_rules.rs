//! The meaning of Rust code to the solver, as rules.
//!
//! Each rule takes an expression or a block and what names are bound to, and gives a term or a
//! fault together with the bindings that hold afterwards: a rule may bind further names also where
//! it ends in a fault.
use vstd::arithmetic::power2;
use vstd::prelude::*;
use crate::ast::{Arm, BinOp, Block, Callee, Expr, FieldValue, Lit, Member, Pat, Path, Stmt, Type, UnOp};
use crate::numbers;
use crate::term;
use crate::term::{Form, Sort, TermOp};
use crate::text;
use crate::vars;
use crate::vars::Bindings;
use crate::z3_tables;

verus! {

/// Why an expression cannot be given to the solver.
pub enum Fault {
    Expression(Seq<char>),
    Literal(Seq<char>),
    Operator(Seq<char>),
    Type(Seq<char>),
    Parse(Seq<char>),
}

/// A term or a fault, and the bindings afterwards.
pub type Outcome = (Result<Form, Fault>, Bindings);

/// A formula, none, or a fault, and the bindings afterwards.
pub type FormulaOutcome = (Result<Option<Form>, Fault>, Bindings);

// ---------------------------------------------------------------------------
// Operators
// ---------------------------------------------------------------------------
/// An arithmetic operation on integers.
pub open spec fn arithmetic(op: TermOp, l: Form, r: Form) -> Result<Form, Fault> {
    if l.sort() == Sort::Int && r.sort() == Sort::Int {
        Ok(term::binary(op, l, r))
    } else {
        Err(Fault::Type("Expected Int"@))
    }
}

/// An uninterpreted function of two integers.
pub open spec fn function_of_two(name: Seq<char>, l: Form, r: Form) -> Result<Form, Fault> {
    if l.sort() == Sort::Int && r.sort() == Sort::Int {
        Ok(Form::Call(name, seq![l, r], Sort::Int))
    } else {
        Err(Fault::Type("Expected Int"@))
    }
}

/// The equation of two terms; of a truth value and an integer, as integers.
pub open spec fn mixed_equation(l: Form, r: Form) -> Form {
    if l.sort() == r.sort() {
        term::binary(TermOp::Eq, l, r)
    } else {
        term::binary(TermOp::Eq, term::as_integer(l), term::as_integer(r))
    }
}

/// A comparison, of truth values as integers.
pub open spec fn comparison(op: TermOp, l: Form, r: Form) -> Form {
    term::binary(op, term::as_integer(l), term::as_integer(r))
}

/// A connective of two truth values.
pub open spec fn both_true(l: Form, r: Form) -> bool {
    l.sort() == Sort::Bool && r.sort() == Sort::Bool
}

/// A binary operation on terms.
pub open spec fn binary_op(op: BinOp, l: Form, r: Form) -> Result<Form, Fault> {
    match op {
        BinOp::Plus => arithmetic(TermOp::Plus, l, r),
        BinOp::Minus => arithmetic(TermOp::Minus, l, r),
        BinOp::Times => arithmetic(TermOp::Times, l, r),
        BinOp::Div => arithmetic(TermOp::Div, l, r),
        BinOp::Rem => arithmetic(TermOp::Rem, l, r),
        BinOp::Shr => function_of_two("shr"@, l, r),
        BinOp::Shl => function_of_two("shl"@, l, r),
        BinOp::Eq => Ok(mixed_equation(l, r)),
        BinOp::Ne => Ok(term::negated(mixed_equation(l, r))),
        BinOp::Lt => Ok(comparison(TermOp::Lt, l, r)),
        BinOp::Le => Ok(comparison(TermOp::Le, l, r)),
        BinOp::Gt => Ok(comparison(TermOp::Gt, l, r)),
        BinOp::Ge => Ok(comparison(TermOp::Ge, l, r)),
        BinOp::And => if both_true(l, r) {
            Ok(Form::All(seq![l, r]))
        } else {
            Err(Fault::Type("Expected Bool"@))
        },
        BinOp::Or => if both_true(l, r) {
            Ok(term::binary(TermOp::Or, l, r))
        } else {
            Err(Fault::Type("Expected Bool"@))
        },
        BinOp::BitAnd(s) => Err(Fault::Operator(s@)),
        BinOp::AddAssign(s) => Err(Fault::Operator(s@)),
        BinOp::SubAssign(s) => Err(Fault::Operator(s@)),
        BinOp::Other(s) => Err(Fault::Operator(s@)),
    }
}

/// A unary operation on a term.
pub open spec fn unary_op(op: UnOp, a: Form) -> Result<Form, Fault> {
    match op {
        UnOp::Not => if a.sort() == Sort::Bool {
            Ok(term::negated(a))
        } else {
            Err(Fault::Type("Expected Bool"@))
        },
        UnOp::Neg => if a.sort() == Sort::Int {
            Ok(Form::Neg(Box::new(a)))
        } else {
            Err(Fault::Type("Expected Int"@))
        },
        UnOp::Deref => Ok(a),
        UnOp::Other(s) => Err(Fault::Expression("Unsupported unary op: "@ + s@)),
    }
}

/// `n` is a power of two.
pub open spec fn is_power_of_two(n: int) -> bool {
    exists|k: nat| #[trigger] power2::pow2(k) == n
}

/// `a & mask` by division: a single bit is taken out of its place, and the lower bits are a
/// remainder. Nothing for other masks.
pub open spec fn masked(a: Form, mask: Option<i64>) -> Option<Form> {
    match mask {
        Some(m) => if m > 0 && is_power_of_two(m as int) {
            let place = Form::Int(m as int);
            Some(
                term::binary(
                    TermOp::Times,
                    term::binary(TermOp::Rem, term::binary(TermOp::Div, a, place), Form::Int(2)),
                    place,
                ),
            )
        } else if m > 0 && is_power_of_two(m + 1) {
            Some(term::binary(TermOp::Rem, a, Form::Int(m + 1)))
        } else {
            None
        },
        None => None,
    }
}

/// `l & r`, where the literals among the operands are known.
pub open spec fn bit_and(l: Form, r: Form, left: Option<i64>, right: Option<i64>) -> Result<
    Form,
    Fault,
> {
    if l.sort() != Sort::Int || r.sort() != Sort::Int {
        Err(Fault::Type("Expected Int"@))
    } else {
        match masked(l, right) {
            Some(f) => Ok(f),
            None => match masked(r, left) {
                Some(f) => Ok(f),
                None => function_of_two("bitand"@, l, r),
            },
        }
    }
}

/// `l >> k` and `l << k` for a literal `k`: a division and a product.
pub open spec fn shifted(op: TermOp, l: Form, k: i64) -> Result<Form, Fault> {
    if l.sort() == Sort::Int {
        Ok(term::binary(op, l, Form::Int(power2::pow2(k as nat) as int)))
    } else {
        Err(Fault::Type("Expected Int"@))
    }
}

/// A binary operation on terms, where the literals among the operands are known.
pub open spec fn binary_with_literals(
    op: BinOp,
    l: Form,
    r: Form,
    left: Option<i64>,
    right: Option<i64>,
) -> Result<Form, Fault> {
    if op is Shr && (right matches Some(k) && 0 <= k < 64) {
        shifted(TermOp::Div, l, right->0)
    } else if op is Shl && (right matches Some(k) && 0 <= k < 64) {
        shifted(TermOp::Times, l, right->0)
    } else if op is BitAnd {
        bit_and(l, r, left, right)
    } else {
        binary_op(op, l, r)
    }
}

// ---------------------------------------------------------------------------
// Small steps
// ---------------------------------------------------------------------------
/// The integer constant `name`, bound if it was not.
pub open spec fn int_entry(b: Bindings, name: Seq<char>) -> Outcome {
    let (f, b) = vars::entry(b, name, term::int_var(name));
    (Ok(f), b)
}

/// The truth constant `name`, bound if it was not.
pub open spec fn bool_entry(b: Bindings, name: Seq<char>) -> Outcome {
    let (f, b) = vars::entry(b, name, term::bool_var(name));
    (Ok(f), b)
}

/// An integer constant with a name that counts the bindings.
pub open spec fn fresh(b: Bindings, prefix: Seq<char>) -> Outcome {
    int_entry(b, prefix + text::decimal(b.len()))
}

/// The truth constant `name`, which must not be bound to an integer.
pub open spec fn truth_entry(b: Bindings, name: Seq<char>, fault: Seq<char>) -> Outcome {
    let (f, b) = vars::entry(b, name, term::bool_var(name));
    if f.sort() == Sort::Bool {
        (Ok(f), b)
    } else {
        (Err(Fault::Type(fault)), b)
    }
}

/// A literal.
pub open spec fn literal(l: Lit) -> Result<Form, Fault> {
    match l {
        Lit::Int(n) => match z3_tables::lit_value(n) {
            Some(v) => Ok(Form::Int(v as int)),
            None => Err(Fault::Parse("Cannot parse integer literal: "@ + n.text@)),
        },
        Lit::Bool(b) => Ok(Form::Bool(b)),
        Lit::Other(s) => Err(Fault::Literal(s@)),
    }
}

/// A path: a consensus constant, a variant that stands for a truth value, or a name.
pub open spec fn path(p: Path, b: Bindings) -> Outcome {
    let name = z3_tables::path_name(p);
    let last = z3_tables::path_last(p);
    match z3_tables::constant_value(name) {
        Some(v) => (Ok(Form::Int(v as int)), b),
        None => if last == "Valid"@ || last == "Accepted"@ {
            (Ok(Form::Bool(true)), b)
        } else if last == "Invalid"@ || last == "Rejected"@ {
            (Ok(Form::Bool(false)), b)
        } else {
            int_entry(b, name)
        },
    }
}

/// Two integers, with the fault for each that is none.
pub open spec fn two_integers(l: Form, r: Form, left: Seq<char>, right: Seq<char>) -> Option<
    Fault,
> {
    if l.sort() != Sort::Int {
        Some(Fault::Type(left))
    } else if r.sort() != Sort::Int {
        Some(Fault::Type(right))
    } else {
        None
    }
}

/// `Ok(b)` of a truth value as an integer: two for true, one for false.
pub open spec fn ok_code(b: Form) -> Form {
    term::choice(b, Form::Int(2), Form::Int(1))
}

/// The formula under the condition that no early return was taken, and those of the early ones.
pub open spec fn with_early(early: Seq<(Form, Form)>, f: Form) -> Form {
    if early.len() == 0 {
        f
    } else {
        Form::All(
            implications(early).push(
                term::binary(TermOp::Implies, Form::All(none_of(early)), f),
            ),
        )
    }
}

/// For each early return: its condition implies its formula.
pub open spec fn implications(early: Seq<(Form, Form)>) -> Seq<Form> {
    early.map_values(|e: (Form, Form)| term::binary(TermOp::Implies, e.0, e.1))
}

/// For each early return: its condition does not hold.
pub open spec fn none_of(early: Seq<(Form, Form)>) -> Seq<Form> {
    early.map_values(|e: (Form, Form)| term::negated(e.0))
}

/// None of the conditions holds.
pub open spec fn none_hold(guards: Seq<Form>) -> Form {
    Form::All(guards.map_values(|g: Form| term::negated(g)))
}

/// A formula under the condition that none of the guards fires.
pub open spec fn with_guards(guards: Seq<Form>, f: Option<Form>) -> Option<Form> {
    if guards.len() == 0 {
        f
    } else {
        match f {
            Some(f) => Some(Form::All(seq![none_hold(guards), f])),
            None => Some(none_hold(guards)),
        }
    }
}

/// A tower of choices over the arms from `i` on, with `last` at its end.
pub open spec fn tower(scrutinee: Form, arms: Seq<(int, Form)>, i: int, last: Form) -> Form
    decreases arms.len() - i,
{
    if i < 0 || i >= arms.len() {
        last
    } else {
        term::choice(
            term::binary(TermOp::Eq, scrutinee, Form::Int(arms[i].0)),
            arms[i].1,
            tower(scrutinee, arms, i + 1, last),
        )
    }
}

/// The arms as truth values.
pub open spec fn truth_arms(arms: Seq<(int, Form)>) -> Seq<(int, Form)> {
    arms.map_values(|a: (int, Form)| (a.0, term::as_truth(a.1)))
}

/// The arms of a match, or why they are not read.
pub enum Arms {
    /// The numbered arms, the default, and whether one of them is a truth value.
    Read(Seq<(int, Form)>, Option<Form>, bool),
    /// An arm is not of the kind that is looked for.
    Stopped,
    Failed(Fault),
}

/// A match as a tower of choices. Without a default the last arm takes its place.
pub open spec fn tower_of(
    scrutinee: Form,
    arms: Seq<(int, Form)>,
    default: Option<Form>,
    truth: bool,
) -> Form {
    let (arms, last) = match default {
        Some(d) => (arms, d),
        None => (arms.drop_last(), arms.last().1),
    };
    if truth {
        tower(scrutinee, truth_arms(arms), 0, term::as_truth(last))
    } else {
        tower(scrutinee, arms, 0, last)
    }
}

/// Whether `e` is a call of a path that ends in `name`.
pub open spec fn calls(e: Expr, name: Seq<char>) -> bool {
    e matches Expr::Call(Callee::Path(p), _) && z3_tables::path_last(p) == name
}

/// The name that the only parameter of a closure binds, if `e` is such a closure.
pub open spec fn closure_param(e: Expr) -> Option<Seq<char>> {
    match e {
        Expr::Closure(inputs, _) => if inputs@.len() == 1 {
            z3_tables::pat_ident(inputs@[0])
        } else {
            None
        },
        _ => None,
    }
}

/// Whether a method hands its receiver on.
pub open spec fn passes_through(m: Seq<char>) -> bool {
    m == "unwrap_or"@ || m == "unwrap_or_else"@ || m == "into"@ || m == "clone"@ || m
        == "serialize"@ || m == "as_ref"@ || m == "iter"@ || m == "into_iter"@ || m == "par_iter"@
        || m == "step_by"@ || m == "enumerate"@
}

/// Whether a method changes its receiver.
pub open spec fn mutates(m: Seq<char>) -> bool {
    m == "clear"@ || m == "extend_from_slice"@ || m == "push"@ || m == "copy_from_slice"@
}

/// The suffix of the integer constant for the value of a method whose arguments do not count.
pub open spec fn value_suffix(m: Seq<char>) -> Option<Seq<char>> {
    if m == "borrow_mut"@ || m == "borrow"@ {
        Some("_borrow"@)
    } else if m == "collect"@ {
        Some("_collect"@)
    } else if m == "next"@ {
        Some("_next"@)
    } else if m == "sum"@ {
        Some("_sum"@)
    } else if m == "reduce"@ {
        Some("_reduce"@)
    } else {
        None
    }
}

/// The methods of two integers, with the fault for a missing argument and for each side.
pub open spec fn binary_method(m: Seq<char>) -> Option<(Seq<char>, Seq<char>, Seq<char>)> {
    if m == "checked_add"@ || m == "checked_sub"@ || m == "checked_mul"@ {
        Some(("checked_add needs 1 arg"@, "checked_add: expected Int"@, "checked_add: expected Int"@))
    } else if m == "min"@ || m == "max"@ {
        Some(("min/max needs 1 arg"@, "min/max: expected Int"@, "min/max: expected Int"@))
    } else if m == "saturating_sub"@ {
        Some(
            (
                "saturating_sub needs 1 arg"@,
                "saturating_sub: expected Int"@,
                "saturating_sub: expected Int"@,
            ),
        )
    } else if m == "saturating_mul"@ {
        Some(
            (
                "saturating_mul needs 1 arg"@,
                "saturating_mul: expected Int"@,
                "saturating_mul: expected Int"@,
            ),
        )
    } else if m == "div_ceil"@ {
        Some(("div_ceil needs 1 arg"@, "div_ceil: expected Int lhs"@, "div_ceil: expected Int rhs"@))
    } else {
        None
    }
}

/// What a method of two integers gives.
pub open spec fn binary_method_value(m: Seq<char>, l: Form, r: Form) -> Form {
    if m == "checked_add"@ {
        term::binary(TermOp::Plus, l, r)
    } else if m == "checked_sub"@ || m == "saturating_sub"@ {
        term::binary(TermOp::Minus, l, r)
    } else if m == "checked_mul"@ || m == "saturating_mul"@ {
        term::binary(TermOp::Times, l, r)
    } else if m == "min"@ {
        term::choice(term::binary(TermOp::Lt, l, r), l, r)
    } else if m == "max"@ {
        term::choice(term::binary(TermOp::Gt, l, r), l, r)
    } else {
        term::binary(
            TermOp::Div,
            term::binary(TermOp::Minus, term::binary(TermOp::Plus, l, r), Form::Int(1)),
            r,
        )
    }
}

/// The name of an uninterpreted function applied to `n` arguments.
pub open spec fn function_name(name: Seq<char>, arity: Option<nat>, n: nat) -> Seq<char> {
    match arity {
        Some(_) => name,
        None => name + "_"@ + text::decimal(n),
    }
}

// ---------------------------------------------------------------------------
// Expressions
// ---------------------------------------------------------------------------
/// An expression.
pub open spec fn expr(e: Expr, b: Bindings) -> Outcome
    decreases e, 2int, 0int,
{
    match e {
        Expr::Lit(l) => (literal(l), b),
        Expr::Path(p) => path(p, b),
        Expr::Binary(op, l, r) => match expr(*l, b) {
            (Err(f), b) => (Err(f), b),
            (Ok(lf), b) => match expr(*r, b) {
                (Err(f), b) => (Err(f), b),
                (Ok(rf), b) => (
                    binary_with_literals(
                        op,
                        lf,
                        rf,
                        z3_tables::literal_of(*l),
                        z3_tables::literal_of(*r),
                    ),
                    b,
                ),
            },
        },
        Expr::MethodCall(_, _, _) => method_call(e, b),
        Expr::Call(_, _) => call(e, b),
        Expr::Unary(op, a) => match expr(*a, b) {
            (Err(f), b) => (Err(f), b),
            (Ok(af), b) => (unary_op(op, af), b),
        },
        Expr::Paren(a) => expr(*a, b),
        Expr::Cast(a) => expr(*a, b),
        Expr::Reference(a) => expr(*a, b),
        Expr::Try(a) => expr(*a, b),
        Expr::Tuple(elems) => if elems@.len() > 0 {
            expr(elems@[0], b)
        } else {
            fresh(b, "tuple_"@)
        },
        Expr::Array(elems) => if elems@.len() == 1 && z3_tables::literal_of(elems@[0]) is Some {
            (Ok(Form::Int(z3_tables::literal_of(elems@[0])->0 as int)), b)
        } else {
            fresh(b, "array_"@)
        },
        Expr::Repeat(a, n) => {
            let b = expr(*n, b).1;
            if z3_tables::literal_of(*a) == Some(0i64) {
                (Ok(Form::Int(0)), b)
            } else {
                fresh(b, "repeat_"@)
            }
        },
        Expr::Range(start, end, _) => {
            let b = match start {
                Some(s) => expr(*s, b).1,
                None => b,
            };
            let b = match end {
                Some(s) => expr(*s, b).1,
                None => b,
            };
            fresh(b, "range_"@)
        },
        Expr::Field(base, m) => int_entry(b, z3_tables::field_name(*base, m)),
        Expr::Index(a, i) => match expr(*a, b) {
            (Err(f), b) => (Err(f), b),
            (Ok(_), b) => match expr(*i, b) {
                (Err(f), b) => (Err(f), b),
                (Ok(_), b) => fresh(b, "index_"@),
            },
        },
        Expr::Block(block) => tail_value(block, locals(block, 0, b)),
        Expr::Match(_, _) => match_expr(e, b),
        Expr::ForLoop(a, body) => {
            let b = expr(*a, b).1;
            fresh(block_formula(body, b).1, "for_loop_"@)
        },
        Expr::While(a, body) => {
            let b = expr(*a, b).1;
            fresh(block_formula(body, b).1, "while_loop_"@)
        },
        Expr::Loop(body) => fresh(block_formula(body, b).1, "loop_"@),
        Expr::Closure(_, body) => fresh(expr(*body, b).1, "closure_"@),
        Expr::If(_, _, _) => if_value(e, b),
        Expr::Let(p, description, a) => match z3_tables::let_pattern(p) {
            None => (
                Err(
                    Fault::Expression(
                        "Let: only Some(x), Ok(x), Err(e), Err(_), None patterns supported, got "@
                            + description@,
                    ),
                ),
                b,
            ),
            Some((binds, suffix, positive)) => match expr(*a, b) {
                (Err(f), b) => (Err(f), b),
                (Ok(_), b) => match truth_entry(
                    b,
                    z3_tables::hint(*a) + "_"@ + suffix,
                    suffix + ": expected Bool"@,
                ) {
                    (Err(f), b) => (Err(f), b),
                    (Ok(c), b) => (
                        Ok(
                            if positive {
                                c
                            } else {
                                term::negated(c)
                            },
                        ),
                        match binds {
                            Some(x) => int_entry(b, x).1,
                            None => b,
                        },
                    ),
                },
            },
        },
        Expr::Struct(fields) => match struct_fields(fields, 0, None, b) {
            (Some(f), b) => (Ok(f), b),
            (None, b) => fresh(b, "struct_"@),
        },
        Expr::Assign(_, _, description) => (Err(Fault::Expression(description@)), b),
        Expr::Return(_, description) => (Err(Fault::Expression(description@)), b),
        Expr::Other(description) => (Err(Fault::Expression(description@)), b),
    }
}

/// The bindings after the `let` statements of a block from `i` on.
pub open spec fn locals(block: Block, i: int, b: Bindings) -> Bindings
    decreases block, 0int, block.stmts@.len() - i,
{
    if i < 0 || i >= block.stmts@.len() {
        b
    } else {
        locals(
            block,
            i + 1,
            match block.stmts@[i] {
                Stmt::Local(Pat::Ident(x), Some(init)) => match expr(init, b) {
                    (Ok(f), b) => vars::bind(b, x@, f),
                    (Err(_), b) => b,
                },
                _ => b,
            },
        )
    }
}

/// The value of the last expression of a block.
pub open spec fn tail_value(block: Block, b: Bindings) -> Outcome
    decreases block, 0int, 0int,
{
    if block.stmts@.len() > 0 {
        match block.stmts@[block.stmts@.len() - 1] {
            Stmt::Tail(e, _) => expr(e, b),
            _ => (Err(Fault::Expression("Block expression: no final expression"@)), b),
        }
    } else {
        (Err(Fault::Expression("Block expression: no final expression"@)), b)
    }
}

/// The fields of a struct expression from `i` on: each named field is bound under its name, and the
/// first value stands for the struct.
pub open spec fn struct_fields(
    fields: Vec<FieldValue>,
    i: int,
    first: Option<Form>,
    b: Bindings,
) -> (Option<Form>, Bindings)
    decreases fields, 0int, fields@.len() - i,
{
    if i < 0 || i >= fields@.len() {
        (first, b)
    } else {
        match fields@[i].member {
            Member::Named(name) => match expr(fields@[i].expr, b) {
                (Ok(f), b) => struct_fields(
                    fields,
                    i + 1,
                    match first {
                        Some(g) => Some(g),
                        None => Some(f),
                    },
                    vars::entry(b, name@, f).1,
                ),
                (Err(_), b) => struct_fields(fields, i + 1, first, b),
            },
            Member::Unnamed(_) => struct_fields(fields, i + 1, first, b),
        }
    }
}

/// The bindings after the arguments from `i` on, of which the values do not count.
pub open spec fn arguments_bound(args: Vec<Expr>, i: int, b: Bindings) -> Bindings
    decreases args, 0int, args@.len() - i,
{
    if i < 0 || i >= args@.len() {
        b
    } else {
        arguments_bound(args, i + 1, expr(args@[i], b).1)
    }
}

/// The arguments from `i` on as integers, behind those in `done`.
pub open spec fn arguments(args: Vec<Expr>, i: int, done: Seq<Form>, b: Bindings) -> (
    Result<Seq<Form>, Fault>,
    Bindings,
)
    decreases args, 0int, args@.len() - i,
{
    if i < 0 || i >= args@.len() {
        (Ok(done), b)
    } else {
        match expr(args@[i], b) {
            (Err(f), b) => (Err(f), b),
            (Ok(f), b) => arguments(args, i + 1, done.push(term::as_integer(f)), b),
        }
    }
}

/// A method call.
pub open spec fn method_call(e: Expr, b: Bindings) -> Outcome
    decreases e, 1int, 2int,
{
    match e {
        Expr::MethodCall(receiver, name, args) => {
            let m = name@;
            let base = z3_tables::hint(*receiver);
            if binary_method(m) is Some {
                let (missing, left, right) = binary_method(m)->0;
                match expr(*receiver, b) {
                    (Err(f), b) => (Err(f), b),
                    (Ok(l), b) => if args@.len() == 0 {
                        (Err(Fault::Expression(missing)), b)
                    } else {
                        match expr(args@[0], b) {
                            (Err(f), b) => (Err(f), b),
                            (Ok(r), b) => match two_integers(l, r, left, right) {
                                Some(f) => (Err(f), b),
                                None => (Ok(binary_method_value(m, l, r)), b),
                            },
                        }
                    },
                }
            } else if passes_through(m) {
                expr(*receiver, b)
            } else if m == "with"@ {
                if args@.len() > 0 && closure_param(args@[0]) is Some {
                    closure_value(args@[0], "with_"@, b)
                } else {
                    int_entry(expr(*receiver, b).1, base + "_with_result"@)
                }
            } else if mutates(m) {
                let b = arguments_bound(args, 0, expr(*receiver, b).1);
                match int_entry(b, base + "_after_"@ + m) {
                    (Ok(f), b) => (
                        Ok(f),
                        match *receiver {
                            Expr::Path(p) => vars::bind(b, z3_tables::path_name(p), f),
                            _ => b,
                        },
                    ),
                    (Err(f), b) => (Err(f), b),
                }
            } else {
                value_method(e, b)
            }
        },
        _ => (Err(Fault::Expression(seq![])), b),
    }
}

/// A method call for its value.
pub open spec fn value_method(e: Expr, b: Bindings) -> Outcome
    decreases e, 1int, 1int,
{
    match e {
        Expr::MethodCall(receiver, name, args) => {
            let m = name@;
            let base = z3_tables::hint(*receiver);
            if m == "digest"@ || m == "finalize"@ {
                if args@.len() > 0 {
                    match expr(args@[0], b) {
                        (Err(f), b) => (Err(f), b),
                        (Ok(f), b) => if f.sort() == Sort::Int {
                            (Ok(Form::Call("sha256_digest"@, seq![f], Sort::Int)), b)
                        } else {
                            (Err(Fault::Type("digest arg must be Int"@)), b)
                        },
                    }
                } else {
                    int_entry(expr(*receiver, b).1, base + "_digest"@)
                }
            } else if m == "hash256"@ || m == "hash"@ {
                if args@.len() > 0 {
                    match expr(args@[0], b) {
                        (Err(f), b) => (Err(f), b),
                        (Ok(f), b) => if f.sort() == Sort::Int {
                            (Ok(Form::Call("hash256"@, seq![f], Sort::Int)), b)
                        } else {
                            (Err(Fault::Type("hash arg must be Int"@)), b)
                        },
                    }
                } else {
                    (Err(Fault::Expression("hash256/hash needs 1 arg"@)), b)
                }
            } else if m == "map"@ {
                if args@.len() > 0 && closure_param(args@[0]) is Some {
                    match expr(*receiver, b) {
                        (Err(f), b) => (Err(f), b),
                        (Ok(_), b) => match closure_value(args@[0], "map_"@, b) {
                            (Ok(f), b) => (Ok(f), b),
                            (Err(_), b) => int_entry(expr(*receiver, b).1, base + "_map"@),
                        },
                    }
                } else {
                    int_entry(expr(*receiver, b).1, base + "_map"@)
                }
            } else if value_suffix(m) is Some {
                int_entry(expr(*receiver, b).1, base + value_suffix(m)->0)
            } else if m == "len"@ {
                int_entry(expr(*receiver, b).1, z3_tables::length_name(base))
            } else if m == "fold"@ {
                let b = expr(*receiver, b).1;
                let b = if args@.len() > 0 {
                    expr(args@[0], b).1
                } else {
                    b
                };
                int_entry(b, base + "_fold"@)
            } else if m == "to_le_bytes"@ {
                match expr(*receiver, b) {
                    (Err(f), b) => (Err(f), b),
                    (Ok(f), b) => if f.sort() == Sort::Int {
                        (Ok(Form::Call("to_le_bytes"@, seq![f], Sort::Int)), b)
                    } else {
                        (Err(Fault::Type("to_le_bytes: expected Int"@)), b)
                    },
                }
            } else {
                test_method(e, b)
            }
        },
        _ => (Err(Fault::Expression(seq![])), b),
    }
}

/// A method call that tests its receiver or opens it.
pub open spec fn test_method(e: Expr, b: Bindings) -> Outcome
    decreases e, 1int, 0int,
{
    match e {
        Expr::MethodCall(receiver, name, args) => {
            let m = name@;
            let base = z3_tables::hint(*receiver);
            if m == "is_some"@ || m == "is_none"@ {
                match truth_entry(
                    expr(*receiver, b).1,
                    base + "_is_some"@,
                    "is_some: expected Bool"@,
                ) {
                    (Err(f), b) => (Err(f), b),
                    (Ok(f), b) => (
                        Ok(
                            if m == "is_none"@ {
                                term::negated(f)
                            } else {
                                f
                            },
                        ),
                        b,
                    ),
                }
            } else if m == "is_ok"@ || m == "is_err"@ {
                match truth_entry(
                    expr(*receiver, b).1,
                    base + "_is_ok"@,
                    "is_ok: expected Bool"@,
                ) {
                    (Err(f), b) => (Err(f), b),
                    (Ok(f), b) => (
                        Ok(
                            if m == "is_err"@ {
                                term::negated(f)
                            } else {
                                f
                            },
                        ),
                        b,
                    ),
                }
            } else if m == "unwrap"@ {
                if args@.len() > 0 {
                    (Err(Fault::Expression("unwrap with args not supported"@)), b)
                } else {
                    unwrapped(*receiver, base, b)
                }
            } else if m == "is_empty"@ {
                match int_entry(expr(*receiver, b).1, z3_tables::length_name(base)) {
                    (Err(f), b) => (Err(f), b),
                    (Ok(f), b) => if f.sort() == Sort::Int {
                        (Ok(term::binary(TermOp::Eq, f, Form::Int(0))), b)
                    } else {
                        (Err(Fault::Type("is_empty: len must be Int"@)), b)
                    },
                }
            } else if m == "all"@ {
                bool_entry(expr(*receiver, b).1, base + "_all"@)
            } else if m == "contains"@ {
                if args@.len() == 0 {
                    (Err(Fault::Expression("contains needs 1 arg"@)), b)
                } else {
                    match expr(args@[0], b) {
                        (Err(f), b) => (Err(f), b),
                        (Ok(x), b) => if x.sort() != Sort::Int {
                            (Err(Fault::Type("contains: arg must be Int"@)), b)
                        } else {
                            contained(*receiver, base, x, b)
                        },
                    }
                }
            } else {
                (Err(Fault::Expression("Method call: "@ + m)), b)
            }
        },
        _ => (Err(Fault::Expression(seq![])), b),
    }
}

/// The value of a closure of one parameter, which is bound to a constant of its own meanwhile.
pub open spec fn closure_value(e: Expr, prefix: Seq<char>, b: Bindings) -> Outcome
    decreases e, 1int, 0int,
{
    match e {
        Expr::Closure(_, body) => {
            let x = closure_param(e)->0;
            let before = vars::bound(b, x);
            let (r, b) = expr(*body, vars::bind(b, x, term::int_var(prefix + x)));
            (r, vars::rebind(b, x, before))
        },
        _ => (Err(Fault::Expression(seq![])), b),
    }
}

/// What an option or a result holds: of `Some(x)` and `Ok(x)`, `x`.
pub open spec fn unwrapped(receiver: Expr, base: Seq<char>, b: Bindings) -> Outcome
    decreases receiver, 3int, 0int,
{
    match receiver {
        Expr::Call(Callee::Path(p), args) => if (z3_tables::path_last(p) == "Some"@
            || z3_tables::path_last(p) == "Ok"@) && args@.len() == 1 {
            expr(args@[0], b)
        } else {
            int_entry(expr(receiver, b).1, base + "_unwrap"@)
        },
        _ => int_entry(expr(receiver, b).1, base + "_unwrap"@),
    }
}

/// Whether `x` is in a range; of other collections an unknown truth value.
pub open spec fn contained(receiver: Expr, base: Seq<char>, x: Form, b: Bindings) -> Outcome
    decreases receiver, 3int, 0int,
{
    match receiver {
        Expr::Range(start, end, closed) => {
            let low = match start {
                Some(s) => match expr(*s, b) {
                    (Ok(f), b) => if f.sort() == Sort::Int {
                        (Ok(f), b)
                    } else {
                        (Err(Fault::Type("contains: range start must be Int"@)), b)
                    },
                    (Err(f), b) => (Err(f), b),
                },
                None => (Ok(Form::Int(-4611686018427387904)), b),
            };
            match low {
                (Err(f), b) => (Err(f), b),
                (Ok(lo), b) => {
                    let high = match end {
                        Some(s) => match expr(*s, b) {
                            (Ok(f), b) => if f.sort() != Sort::Int {
                                (Err(Fault::Type("contains: range end must be Int"@)), b)
                            } else if closed {
                                (Ok(f), b)
                            } else {
                                (Ok(term::binary(TermOp::Minus, f, Form::Int(1))), b)
                            },
                            (Err(f), b) => (Err(f), b),
                        },
                        None => (Ok(Form::Int(4611686018427387903)), b),
                    };
                    match high {
                        (Err(f), b) => (Err(f), b),
                        (Ok(hi), b) => (
                            Ok(
                                Form::All(
                                    seq![
                                        term::binary(TermOp::Le, lo, x),
                                        term::binary(TermOp::Le, x, hi),
                                    ],
                                ),
                            ),
                            b,
                        ),
                    }
                },
            }
        },
        _ => bool_entry(expr(receiver, b).1, base + "_contains"@),
    }
}

/// A call of an uninterpreted function with the given name and number of arguments.
pub open spec fn known_call(
    e: Expr,
    base: Seq<char>,
    name: Seq<char>,
    arity: Option<nat>,
    sort: Sort,
    b: Bindings,
) -> Outcome
    decreases e, 0int, 0int,
{
    match e {
        Expr::Call(_, args) => match arguments(args, 0, seq![], b) {
            (Err(f), b) => (Err(f), b),
            (Ok(fs), b) => if arity matches Some(n) && fs.len() != n {
                (
                    Err(
                        Fault::Expression(
                            base + " expects "@ + text::decimal(arity->0) + " args, got "@
                                + text::decimal(fs.len()),
                        ),
                    ),
                    b,
                )
            } else {
                (
                    Ok(
                        Form::Call(
                            if sort == Sort::Bool {
                                function_name(name, arity, fs.len()) + "_b"@
                            } else {
                                function_name(name, arity, fs.len())
                            },
                            fs,
                            sort,
                        ),
                    ),
                    b,
                )
            },
        },
        _ => (Err(Fault::Expression(seq![])), b),
    }
}

/// A call.
pub open spec fn call(e: Expr, b: Bindings) -> Outcome
    decreases e, 1int, 0int,
{
    match e {
        Expr::Call(Callee::Other(description), _) => (
            Err(Fault::Expression("Call func: "@ + description@)),
            b,
        ),
        Expr::Call(Callee::Path(p), args) => {
            let base = z3_tables::path_last(p);
            if base == "result"@ {
                int_entry(b, "result"@)
            } else if (base == "Ok"@ || base == "Some"@) && args@.len() == 1 {
                expr(args@[0], b)
            } else if base == "new"@ || base == "default"@ {
                int_entry(arguments_bound(args, 0, b), base + "_result"@)
            } else if base == "Err"@ && args@.len() <= 1 {
                (Ok(Form::Int(0)), b)
            } else if base == "Invalid"@ || base == "Rejected"@ {
                (Ok(Form::Bool(false)), arguments_bound(args, 0, b))
            } else if z3_tables::known_bool(base) is Some {
                let (name, arity) = z3_tables::known_bool(base)->0;
                known_call(e, base, name, arity, Sort::Bool, b)
            } else if z3_tables::known_int(base) is Some {
                let (name, arity) = z3_tables::known_int(base)->0;
                known_call(e, base, name, arity, Sort::Int, b)
            } else if z3_tables::known_int_result(base) is Some {
                int_entry(arguments_bound(args, 0, b), z3_tables::known_int_result(base)->0)
            } else if z3_tables::known_bool_result(base) is Some {
                bool_entry(arguments_bound(args, 0, b), z3_tables::known_bool_result(base)->0)
            } else if z3_tables::known_deployment(base) {
                let b = arguments_bound(args, 0, b);
                let b = vars::entry(b, "call_"@ + base + "_"@ + "bit"@, Form::Int(15)).1;
                int_entry(b, "call_"@ + base + "_struct"@)
            } else {
                match arguments(args, 0, seq![], b) {
                    (Err(f), b) => (Err(f), b),
                    (Ok(fs), b) => (
                        Ok(
                            Form::Call(
                                "call_"@ + base + "_"@ + text::decimal(fs.len()),
                                fs,
                                Sort::Int,
                            ),
                        ),
                        b,
                    ),
                }
            }
        },
        _ => (Err(Fault::Expression(seq![])), b),
    }
}

// ---------------------------------------------------------------------------
// Matches
// ---------------------------------------------------------------------------
/// The number by which an arm is told apart: its literal, or its place among the variants. Nothing
/// for an arm that is not of the kind.
pub open spec fn arm_number(p: Pat, literals: bool, place: int) -> Option<Result<int, Fault>> {
    if literals {
        match p {
            Pat::Lit(Lit::Int(l)) => match numbers::i64_value(l.digits@, 10) {
                Some(v) => Some(Ok(v as int)),
                None => Some(Err(Fault::Parse(l.complaint@))),
            },
            _ => None,
        }
    } else if p is Path || p is Struct || p is TupleStruct {
        Some(Ok(place))
    } else {
        None
    }
}

/// The arms from `i` on, behind those that were read.
pub open spec fn arms(
    v: Vec<Arm>,
    i: int,
    literals: bool,
    read: Seq<(int, Form)>,
    default: Option<Form>,
    truth: bool,
    b: Bindings,
) -> (Arms, Bindings)
    decreases v, 0int, v@.len() - i,
{
    if i < 0 || i >= v@.len() {
        (Arms::Read(read, default, truth), b)
    } else if v@[i].guard {
        (Arms::Stopped, b)
    } else {
        match expr(v@[i].body, b) {
            (Err(_), b) => (Arms::Stopped, b),
            (Ok(f), b) => {
                let truth = truth || f.sort() == Sort::Bool;
                match arm_number(v@[i].pat, literals, read.len() as int) {
                    Some(Ok(n)) => arms(v, i + 1, literals, read.push((n, f)), default, truth, b),
                    Some(Err(fault)) => (Arms::Failed(fault), b),
                    None => if v@[i].pat is Wild || v@[i].pat is Ident {
                        arms(v, i + 1, literals, read, Some(f), truth, b)
                    } else {
                        (Arms::Stopped, b)
                    },
                }
            },
        }
    }
}

/// Which of the two arms of a match without guards is `Some(x)` or `Ok(x)`, and which is `None` or
/// `Err(..)`.
pub open spec fn option_arms(v: Seq<Arm>) -> Option<(Seq<char>, int, int)> {
    if v.len() != 2 || v[0].guard || v[1].guard {
        None
    } else {
        let some = if z3_tables::some_ok_arm(v[0]) is Some {
            0int
        } else {
            1int
        };
        let none = if z3_tables::none_err_arm(v[0]) {
            0int
        } else {
            1int
        };
        if z3_tables::some_ok_arm(v[some]) is Some && z3_tables::none_err_arm(v[none]) {
            Some((z3_tables::some_ok_arm(v[some])->0, some, none))
        } else {
            None
        }
    }
}

/// A match of an option or a result: a choice between its two arms.
pub open spec fn option_match(
    v: Vec<Arm>,
    base: Seq<char>,
    x: Seq<char>,
    some: int,
    none: int,
    b: Bindings,
) -> Outcome
    decreases v, 0int, 0int,
{
    if 0 <= some < v@.len() && 0 <= none < v@.len() {
        match expr(v@[some].body, int_entry(b, x).1) {
            (Err(f), b) => (Err(f), b),
            (Ok(then), b) => match expr(v@[none].body, b) {
                (Err(f), b) => (Err(f), b),
                (Ok(other), b) => match truth_entry(
                    b,
                    base + "_is_some"@,
                    "is_some: expected Bool"@,
                ) {
                    (Err(f), b) => (Err(f), b),
                    (Ok(c), b) => match two_integers(
                        then,
                        other,
                        "match body: expected Int"@,
                        "match default: expected Int"@,
                    ) {
                        Some(f) => (Err(f), b),
                        None => (Ok(term::choice(c, then, other)), b),
                    },
                },
            },
        }
    } else {
        (Err(Fault::Expression(seq![])), b)
    }
}

/// A match of variants: a tower of choices by their places.
pub open spec fn variant_match(v: Vec<Arm>, scrutinee: Form, b: Bindings) -> Outcome
    decreases v, 1int, 0int,
{
    match arms(v, 0, false, seq![], None, false, b) {
        (Arms::Read(read, default, truth), b) => if read.len() == 0 {
            (Err(unsupported_match()), b)
        } else if scrutinee.sort() != Sort::Int {
            (Err(Fault::Expression("Match: enum scrutinee is not Int"@)), b)
        } else {
            (Ok(tower_of(scrutinee, read, default, truth)), b)
        },
        (Arms::Failed(f), b) => (Err(f), b),
        (Arms::Stopped, b) => (Err(unsupported_match()), b),
    }
}

/// The fault of a match that no rule fits.
pub open spec fn unsupported_match() -> Fault {
    Fault::Expression(
        "Match: only Option/Result (2-arm), integer-literal, or enum-variant arms supported"@,
    )
}

/// A match.
pub open spec fn match_expr(e: Expr, b: Bindings) -> Outcome
    decreases e, 1int, 0int,
{
    match e {
        Expr::Match(a, v) => match expr(*a, b) {
            (Err(f), b) => (Err(f), b),
            (Ok(scrutinee), b) => match option_arms(v@) {
                Some((x, some, none)) => option_match(v, z3_tables::hint(*a), x, some, none, b),
                None => if scrutinee.sort() == Sort::Int {
                    match arms(v, 0, true, seq![], None, false, b) {
                        (Arms::Failed(f), b) => (Err(f), b),
                        (Arms::Read(read, default, truth), b) => if read.len() > 0 {
                            (Ok(tower_of(scrutinee, read, default, truth)), b)
                        } else {
                            variant_match(v, scrutinee, b)
                        },
                        (Arms::Stopped, b) => variant_match(v, scrutinee, b),
                    }
                } else {
                    variant_match(v, scrutinee, b)
                },
            },
        },
        _ => (Err(Fault::Expression(seq![])), b),
    }
}

// ---------------------------------------------------------------------------
// Conditionals
// ---------------------------------------------------------------------------
/// The value of a conditional expression.
pub open spec fn if_value(e: Expr, b: Bindings) -> Outcome
    decreases e, 1int, 0int,
{
    match e {
        Expr::If(cond, then, other) => match expr(*cond, b) {
            (Err(f), b) => (Err(f), b),
            (Ok(c), b) => if c.sort() != Sort::Bool {
                (Err(Fault::Type("If condition must be boolean"@)), b)
            } else {
                match last_value(then, "If then branch: expected single expression"@, b) {
                    (Err(f), b) => (Err(f), b),
                    (Ok(t), b) => {
                        let second = match other {
                            None => (
                                Err(
                                    Fault::Expression("If without else not supported as expression"@),
                                ),
                                b,
                            ),
                            Some(o) => match *o {
                                Expr::Block(block) => last_value(
                                    block,
                                    "If else block: expected single expression"@,
                                    b,
                                ),
                                Expr::If(_, _, _) => if_value(*o, b),
                                _ => expr(*o, b),
                            },
                        };
                        match second {
                            (Err(f), b) => (Err(f), b),
                            (Ok(o), b) => if t.sort() == o.sort() {
                                (Ok(term::choice(c, t, o)), b)
                            } else {
                                (
                                    Err(
                                        Fault::Type("If branches must both be Int or both Bool"@),
                                    ),
                                    b,
                                )
                            },
                        }
                    },
                }
            },
        },
        _ => (Err(Fault::Expression(seq![])), b),
    }
}

/// The value of the last expression of a branch.
pub open spec fn last_value(block: Block, missing: Seq<char>, b: Bindings) -> Outcome
    decreases block, 0int, 0int,
{
    if block.stmts@.len() > 0 {
        match block.stmts@[block.stmts@.len() - 1] {
            Stmt::Tail(e, _) => expr(e, b),
            _ => (Err(Fault::Expression(missing)), b),
        }
    } else {
        (Err(Fault::Expression(missing)), b)
    }
}

// ---------------------------------------------------------------------------
// Blocks
// ---------------------------------------------------------------------------
/// What a block says so far: the early returns with their conditions, and the conditions under
/// which an error is returned.
pub struct Exits {
    pub early: Seq<(Form, Form)>,
    pub guards: Seq<Form>,
}

/// The fault of a function without a result to speak of.
pub open spec fn no_result() -> Fault {
    Fault::Expression("No result variable"@)
}

/// A conditional with a return in its branch: the condition and what the result then is.
pub open spec fn early_return(e: Expr, b: Bindings) -> (
    Result<Option<(Form, Form)>, Fault>,
    Bindings,
)
    decreases e, 3int, 0int,
{
    match e {
        Expr::If(cond, then, _) => match expr(*cond, b) {
            (Err(f), b) => (Err(f), b),
            (Ok(c), b) => if c.sort() != Sort::Bool {
                (Ok(None), b)
            } else {
                match returned(then, 0, b) {
                    (Err(f), b) => (Err(f), b),
                    (Ok(Some(f)), b) => (Ok(Some((c, f))), b),
                    (Ok(None), b) => (Ok(None), b),
                }
            },
        },
        _ => (Ok(None), b),
    }
}

/// What the result is by the first return statement of a branch from `i` on that can be read.
pub open spec fn returned(block: Block, i: int, b: Bindings) -> FormulaOutcome
    decreases block, 0int, block.stmts@.len() - i,
{
    if i < 0 || i >= block.stmts@.len() {
        (Ok(None), b)
    } else {
        match block.stmts@[i] {
            Stmt::Semi(Expr::Return(Some(r), _)) => match returned_value(*r, b) {
                (Ok(None), b) => returned(block, i + 1, b),
                outcome => outcome,
            },
            Stmt::Tail(Expr::Return(Some(r), _), _) => match returned_value(*r, b) {
                (Ok(None), b) => returned(block, i + 1, b),
                outcome => outcome,
            },
            _ => returned(block, i + 1, b),
        }
    }
}

/// What the result is by a return of `r`; nothing for an error.
pub open spec fn returned_value(r: Expr, b: Bindings) -> FormulaOutcome
    decreases r, 4int, 0int,
{
    match ok_equation(r, b) {
        (Err(f), b) => (Err(f), b),
        (Ok(Some(f)), b) => (Ok(Some(f)), b),
        (Ok(None), b) => if is_error(r) {
            (Ok(None), b)
        } else {
            result_equation(r, b)
        },
    }
}

/// What the result is by `Ok(x)`, where the result is an integer.
pub open spec fn ok_equation(r: Expr, b: Bindings) -> FormulaOutcome
    decreases r, 3int, 0int,
{
    match r {
        Expr::Call(Callee::Path(p), args) => if z3_tables::path_last(p) == "Ok"@ && args@.len() == 1 {
            match expr(args@[0], b) {
                (Err(f), b) => (Err(f), b),
                (Ok(f), b) => match vars::bound(b, "result"@) {
                    Some(result) => if result.sort() != Sort::Int {
                        (Ok(None), b)
                    } else if f.sort() == Sort::Bool {
                        (Ok(Some(term::binary(TermOp::Eq, result, ok_code(f)))), b)
                    } else {
                        (Ok(Some(term::binary(TermOp::Eq, result, f))), b)
                    },
                    None => (Ok(None), b),
                },
            }
        } else {
            (Ok(None), b)
        },
        _ => (Ok(None), b),
    }
}

/// What the result is by the value of `r`; nothing where that cannot be read or is of another sort.
pub open spec fn result_equation(r: Expr, b: Bindings) -> FormulaOutcome
    decreases r, 3int, 0int,
{
    match expr(r, b) {
        (Err(_), b) => (Ok(None), b),
        (Ok(f), b) => match vars::bound(b, "result"@) {
            None => (Err(no_result()), b),
            Some(result) => (Ok(term::equation(result, f)), b),
        },
    }
}

/// A conditional that only returns an error: its condition.
pub open spec fn error_guard(e: Expr, b: Bindings) -> (Option<Form>, Bindings)
    decreases e, 3int, 0int,
{
    match e {
        Expr::If(cond, then, None) => match expr(*cond, b) {
            (Err(_), b) => (None, b),
            (Ok(c), b) => if c.sort() == Sort::Bool && only_returns_error(then) {
                (Some(c), b)
            } else {
                (None, b)
            },
        },
        _ => (None, b),
    }
}

/// Whether an expression is an error: `Err(..)`, or `Err` alone.
pub open spec fn is_error(e: Expr) -> bool {
    calls(e, "Err"@) || (e matches Expr::Path(p) && z3_tables::path_last(p) == "Err"@)
}

/// Whether a branch is one return of an error.
pub open spec fn only_returns_error(block: Block) -> bool {
    block.stmts@.len() == 1 && match block.stmts@[0] {
        Stmt::Semi(Expr::Return(Some(r), _)) => is_error(*r),
        Stmt::Tail(Expr::Return(Some(r), _), _) => is_error(*r),
        _ => false,
    }
}

/// The exits of a block after a conditional.
pub open spec fn conditional_exit(e: Expr, exits: Exits, b: Bindings) -> (
    Result<Exits, Fault>,
    Bindings,
)
    decreases e, 4int, 0int,
{
    match early_return(e, b) {
        (Err(f), b) => (Err(f), b),
        (Ok(Some(exit)), b) => (
            Ok(Exits { early: exits.early.push(exit), guards: exits.guards }),
            b,
        ),
        (Ok(None), b) => match error_guard(e, b) {
            (Some(c), b) => (Ok(Exits { early: exits.early, guards: exits.guards.push(c) }), b),
            (None, b) => (Ok(exits), b),
        },
    }
}

/// The bindings after an assignment.
pub open spec fn assigned(e: Expr, b: Bindings) -> Bindings
    decreases e, 3int, 0int,
{
    match e {
        Expr::Assign(left, right, _) => match *left {
            Expr::Path(p) => match expr(*right, b) {
                (Ok(f), b) => vars::bind(b, z3_tables::path_name(p), f),
                (Err(_), b) => b,
            },
            Expr::Index(a, i) => {
                let b = expr(*a, b).1;
                let b = expr(*i, b).1;
                match expr(*right, b) {
                    (Ok(f), b) => {
                        let k = match z3_tables::literal_of(*i) {
                            Some(k) => k as int,
                            None => 0,
                        };
                        let b = vars::bind(
                            b,
                            z3_tables::hint(*a) + "_after_"@ + text::decimal_int(k),
                            f,
                        );
                        match *a {
                            Expr::Path(p) => vars::bind(b, z3_tables::path_name(p), f),
                            _ => b,
                        }
                    },
                    (Err(_), b) => b,
                }
            },
            _ => b,
        },
        Expr::Binary(BinOp::AddAssign(_), left, right) => match *left {
            Expr::Path(p) => accumulated(TermOp::Plus, z3_tables::path_name(p), *right, b),
            _ => b,
        },
        Expr::Binary(BinOp::SubAssign(_), left, right) => match *left {
            Expr::Path(p) => accumulated(TermOp::Minus, z3_tables::path_name(p), *right, b),
            _ => b,
        },
        _ => b,
    }
}

/// The bindings after something was added to or taken from a name.
pub open spec fn accumulated(op: TermOp, name: Seq<char>, right: Expr, b: Bindings) -> Bindings
    decreases right, 3int, 0int,
{
    let l = match vars::bound(b, name) {
        Some(f) => f,
        None => term::int_var(name),
    };
    match expr(right, b) {
        (Ok(r), b) => if l.sort() == Sort::Int && r.sort() == Sort::Int {
            vars::bind(b, name, term::binary(op, l, r))
        } else {
            b
        },
        (Err(_), b) => b,
    }
}

/// The bindings after a statement that neither returns nor branches.
pub open spec fn effect(e: Expr, b: Bindings) -> Bindings
    decreases e, 4int, 0int,
{
    match e {
        Expr::ForLoop(a, body) => block_formula(body, expr(*a, b).1).1,
        Expr::While(a, body) => block_formula(body, expr(*a, b).1).1,
        Expr::Loop(body) => block_formula(body, b).1,
        _ => assigned(e, b),
    }
}

/// The equations of the result's fields with those of a struct expression, from `i` on.
pub open spec fn field_equations(fields: Vec<FieldValue>, i: int, done: Seq<Form>, b: Bindings) -> (
    Seq<Form>,
    Bindings,
)
    decreases fields, 0int, fields@.len() - i,
{
    if i < 0 || i >= fields@.len() {
        (done, b)
    } else {
        match fields@[i].member {
            Member::Named(name) => match expr(fields@[i].expr, b) {
                (Ok(f), b) => if f.sort() == Sort::Int {
                    let slot = "result_"@ + name@;
                    let (s, b) = vars::entry(b, slot, term::int_var(slot));
                    field_equations(
                        fields,
                        i + 1,
                        if s.sort() == Sort::Int {
                            done.push(term::binary(TermOp::Eq, s, f))
                        } else {
                            done
                        },
                        b,
                    )
                } else {
                    field_equations(fields, i + 1, done, b)
                },
                (Err(_), b) => field_equations(fields, i + 1, done, b),
            },
            Member::Unnamed(_) => field_equations(fields, i + 1, done, b),
        }
    }
}

/// The formula of a struct expression in return position, if any of its fields can be read.
pub open spec fn struct_formula(e: Expr, early: Seq<(Form, Form)>, b: Bindings) -> (
    Option<Form>,
    Bindings,
)
    decreases e, 3int, 0int,
{
    match e {
        Expr::Struct(fields) => match field_equations(fields, 0, seq![], b) {
            (eqs, b) => if eqs.len() > 0 {
                (Some(with_early(early, Form::All(eqs))), b)
            } else {
                (None, b)
            },
        },
        _ => (None, b),
    }
}

/// The equation of `slot`, the result before the block, with the value of `e`.
pub open spec fn slot_equation(slot: Option<Form>, e: Expr, b: Bindings) -> FormulaOutcome
    decreases e, 3int, 0int,
{
    match expr(e, b) {
        (Err(_), b) => (Ok(None), b),
        (Ok(f), b) => match slot {
            None => (Err(no_result()), b),
            Some(s) => (Ok(term::equation(s, f)), b),
        },
    }
}

/// What happens at a statement: the formula of the block is found, reading ends in a fault, or it
/// goes on.
pub enum StmtOutcome {
    Found(Form),
    Failed(Fault),
    Next(Exits),
}

/// The statement `i` of a block.
pub open spec fn statement(
    block: Block,
    i: int,
    slot: Option<Form>,
    exits: Exits,
    b: Bindings,
) -> (StmtOutcome, Bindings)
    decreases block, 0int, 0int,
{
    if i < 0 || i >= block.stmts@.len() {
        (StmtOutcome::Next(exits), b)
    } else {
        match block.stmts@[i] {
            Stmt::Local(Pat::Ident(x), Some(init)) => match expr(init, b) {
                (Ok(f), b) => (StmtOutcome::Next(exits), vars::bind(b, x@, f)),
                (Err(_), b) => (StmtOutcome::Next(exits), b),
            },
            Stmt::Semi(e) => match e {
                Expr::If(_, _, _) => match conditional_exit(e, exits, b) {
                    (Err(f), b) => (StmtOutcome::Failed(f), b),
                    (Ok(exits), b) => (StmtOutcome::Next(exits), b),
                },
                Expr::Return(Some(r), _) => match slot_equation(slot, *r, b) {
                    (Err(f), b) => (StmtOutcome::Failed(f), b),
                    (Ok(Some(f)), b) => (StmtOutcome::Found(with_early(exits.early, f)), b),
                    (Ok(None), b) => (StmtOutcome::Next(exits), b),
                },
                _ => (StmtOutcome::Next(exits), effect(e, b)),
            },
            Stmt::Tail(e, is_last) => {
                let branched = if !is_last && e is If {
                    conditional_exit(e, exits, b)
                } else {
                    (Ok(exits), b)
                };
                match branched {
                    (Err(f), b) => (StmtOutcome::Failed(f), b),
                    (Ok(exits), b) => match struct_formula(e, exits.early, b) {
                        (Some(f), b) => (StmtOutcome::Found(f), b),
                        (None, b) => if is_last {
                            (StmtOutcome::Next(exits), b)
                        } else {
                            match slot_equation(slot, e, b) {
                                (Err(f), b) => (StmtOutcome::Failed(f), b),
                                (Ok(Some(f)), b) => (
                                    StmtOutcome::Found(with_early(exits.early, f)),
                                    b,
                                ),
                                (Ok(None), b) => (StmtOutcome::Next(exits), b),
                            }
                        },
                    },
                }
            },
            _ => (StmtOutcome::Next(exits), b),
        }
    }
}

/// The statements of a block from `i` on.
pub open spec fn statements(
    block: Block,
    i: int,
    slot: Option<Form>,
    exits: Exits,
    b: Bindings,
) -> FormulaOutcome
    decreases block, 1int, block.stmts@.len() - i,
{
    if i < 0 || i >= block.stmts@.len() {
        closing_formula(block, slot, exits, b)
    } else {
        match statement(block, i, slot, exits, b) {
            (StmtOutcome::Found(f), b) => (Ok(Some(f)), b),
            (StmtOutcome::Failed(f), b) => (Err(f), b),
            (StmtOutcome::Next(exits), b) => statements(block, i + 1, slot, exits, b),
        }
    }
}

/// The formula of a block that was read to its end.
pub open spec fn closing_formula(block: Block, slot: Option<Form>, exits: Exits, b: Bindings) -> FormulaOutcome
    decreases block, 0int, 0int,
{
    let last = if block.stmts@.len() > 0 {
        match block.stmts@[block.stmts@.len() - 1] {
            Stmt::Tail(e, _) => match e {
                Expr::Return(_, _) => final_return(e, slot, b),
                Expr::If(_, _, _) => final_return(e, slot, b),
                Expr::Call(_, _) => final_return(e, slot, b),
                _ => match expr(e, b) {
                    (Err(_), b) => (Ok(None), b),
                    (Ok(f), b) => (
                        Ok(
                            match slot {
                                Some(s) => term::equation(s, f),
                                None => None,
                            },
                        ),
                        b,
                    ),
                },
            },
            _ => (Ok(None), b),
        }
    } else {
        (Ok(None), b)
    };
    match last {
        (Err(f), b) => (Err(f), b),
        (Ok(f), b) => (Ok(with_guards(exits.guards, after_early(exits.early, f))), b),
    }
}

/// The formula of a block with early returns. `f` is that of its last expression, if there is one.
pub open spec fn after_early(early: Seq<(Form, Form)>, f: Option<Form>) -> Option<Form> {
    match f {
        Some(f) => Some(with_early(early, f)),
        None => only_early(early),
    }
}

/// The formula of a block that has nothing but early returns.
pub open spec fn only_early(early: Seq<(Form, Form)>) -> Option<Form> {
    if early.len() > 0 {
        Some(Form::All(implications(early)))
    } else {
        None
    }
}

/// The formula of the last expression of a block, read with the result as it was before the block.
pub open spec fn final_return(e: Expr, slot: Option<Form>, b: Bindings) -> FormulaOutcome
    decreases e, 6int, 0int,
{
    let before = vars::bound(b, "result"@);
    let b = match slot {
        Some(s) => vars::bind(b, "result"@, s),
        None => b,
    };
    match return_formula(e, b) {
        (Err(f), b) => (Err(f), b),
        (Ok(f), b) => (Ok(f), vars::rebind(b, "result"@, before)),
    }
}

/// The formula of a block: what the result is by it.
pub open spec fn block_formula(block: Block, b: Bindings) -> FormulaOutcome
    decreases block, 2int, 0int,
{
    statements(
        block,
        0,
        vars::bound(b, "result"@),
        Exits { early: seq![], guards: seq![] },
        b,
    )
}

/// The equations of the parts of the result with the elements of a tuple, from `i` on.
pub open spec fn tuple_equations(elems: Vec<Expr>, i: int, done: Seq<Form>, b: Bindings) -> (
    Seq<Form>,
    Bindings,
)
    decreases elems, 0int, elems@.len() - i,
{
    if i < 0 || i >= elems@.len() {
        (done, b)
    } else {
        match expr(elems@[i], b) {
            (Err(_), b) => tuple_equations(elems, i + 1, done, b),
            (Ok(f), b) => tuple_equations(
                elems,
                i + 1,
                match vars::bound(b, "result_"@ + text::decimal(i as nat)) {
                    Some(s) => match term::equation(s, f) {
                        Some(eq) => done.push(eq),
                        None => done,
                    },
                    None => done,
                },
                b,
            ),
        }
    }
}

/// The formula of an expression in return position.
pub open spec fn return_formula(e: Expr, b: Bindings) -> FormulaOutcome
    decreases e, 5int, 0int,
{
    match e {
        Expr::Return(None, _) => (Ok(None), b),
        Expr::Return(Some(r), _) => match ok_truth_equation(*r, b) {
            (Err(f), b) => (Err(f), b),
            (Ok(Some(f)), b) => (Ok(Some(f)), b),
            (Ok(None), b) => match expr(*r, b) {
                (Err(f), b) => (Err(f), b),
                (Ok(f), b) => match vars::bound(b, "result"@) {
                    None => (Err(no_result()), b),
                    Some(result) => (Ok(term::equation(result, f)), b),
                },
            },
        },
        Expr::If(_, _, _) => if_formula(e, b),
        Expr::Call(_, _) => match ok_call_formula(e, b) {
            (Err(f), b) => (Err(f), b),
            (Ok(Some(f)), b) => (Ok(Some(f)), b),
            (Ok(None), b) => result_equation(e, b),
        },
        _ => result_equation(e, b),
    }
}

/// What the result is by `Ok(b)` of a truth value, where the result is an integer.
pub open spec fn ok_truth_equation(r: Expr, b: Bindings) -> FormulaOutcome
    decreases r, 3int, 0int,
{
    match r {
        Expr::Call(Callee::Path(p), args) => if z3_tables::path_last(p) == "Ok"@ && args@.len() == 1 {
            match expr(args@[0], b) {
                (Err(f), b) => (Err(f), b),
                (Ok(f), b) => match vars::bound(b, "result"@) {
                    Some(result) => if result.sort() == Sort::Int && f.sort() == Sort::Bool {
                        (Ok(Some(term::binary(TermOp::Eq, result, ok_code(f)))), b)
                    } else {
                        (Ok(None), b)
                    },
                    None => (Ok(None), b),
                },
            }
        } else {
            (Ok(None), b)
        },
        _ => (Ok(None), b),
    }
}

/// What the result is by `Ok(x)` at the end of a block: of a tuple part by part, of a truth value
/// by its code where the result is an integer, and otherwise by equation.
pub open spec fn ok_call_formula(e: Expr, b: Bindings) -> FormulaOutcome
    decreases e, 3int, 0int,
{
    match e {
        Expr::Call(Callee::Path(p), args) => if z3_tables::path_last(p) == "Ok"@ && args@.len() == 1 {
            let parts = match args@[0] {
                Expr::Tuple(elems) => tuple_equations(elems, 0, seq![], b),
                _ => (seq![], b),
            };
            match parts {
                (eqs, b) => if eqs.len() > 0 {
                    (Ok(Some(Form::All(eqs))), b)
                } else {
                    match expr(args@[0], b) {
                        (Err(f), b) => (Err(f), b),
                        (Ok(f), b) => match vars::bound(b, "result"@) {
                            None => (Ok(None), b),
                            Some(result) => if result.sort() == Sort::Int && f.sort() == Sort::Bool {
                                (Ok(Some(term::binary(TermOp::Eq, result, ok_code(f)))), b)
                            } else {
                                (Ok(term::equation(result, f)), b)
                            },
                        },
                    }
                },
            }
        } else {
            (Ok(None), b)
        },
        _ => (Ok(None), b),
    }
}

/// The formulas of the two branches of a conditional, each under its condition.
pub open spec fn branches(c: Form, then: Option<Form>, other: Option<Form>) -> Option<Form> {
    match (then, other) {
        (Some(t), Some(o)) => Some(
            Form::All(
                seq![
                    term::binary(TermOp::Implies, c, t),
                    term::binary(TermOp::Implies, term::negated(c), o),
                ],
            ),
        ),
        (Some(t), None) => Some(term::binary(TermOp::Implies, c, t)),
        (None, Some(o)) => Some(term::binary(TermOp::Implies, term::negated(c), o)),
        (None, None) => None,
    }
}

/// The formula of a conditional in return position.
pub open spec fn if_formula(e: Expr, b: Bindings) -> FormulaOutcome
    decreases e, 4int, 0int,
{
    match e {
        Expr::If(cond, then, other) => match expr(*cond, b) {
            (Err(f), b) => (Err(f), b),
            (Ok(c), b) => if c.sort() != Sort::Bool {
                (Err(Fault::Type("If condition must be boolean"@)), b)
            } else {
                match block_formula(then, b) {
                    (Err(f), b) => (Err(f), b),
                    (Ok(t), b) => {
                        let second = match other {
                            None => (Ok(None), b),
                            Some(o) => match *o {
                                Expr::Block(block) => block_formula(block, b),
                                Expr::If(_, _, _) => if_formula(*o, b),
                                _ => match expr(*o, b) {
                                    (Err(f), b) => (Err(f), b),
                                    (Ok(f), b) => match vars::bound(b, "result"@) {
                                        None => (Err(no_result()), b),
                                        Some(result) => (Ok(term::equation(result, f)), b),
                                    },
                                },
                            },
                        };
                        match second {
                            (Err(f), b) => (Err(f), b),
                            (Ok(o), b) => (Ok(branches(c, t, o)), b),
                        }
                    },
                }
            },
        },
        _ => (Ok(None), b),
    }
}

// ---------------------------------------------------------------------------
// Functions
// ---------------------------------------------------------------------------
/// What is bound before a function is read: each parameter an integer, and the result by the return
/// type. Of a tuple its parts are bound too.
pub open spec fn parameters(params: Seq<(String, Type)>, n: int) -> Bindings
    decreases n,
{
    if n <= 0 || n > params.len() {
        seq![]
    } else {
        let name = params[n - 1].0@;
        vars::bind(parameters(params, n - 1), name, term::int_var(name))
    }
}

/// A constant is not negative.
pub open spec fn not_negative(f: Form) -> Form {
    term::binary(TermOp::Ge, f, Form::Int(0))
}

/// What the types of the first `n` parameters say.
pub open spec fn parameter_constraints(params: Seq<(String, Type)>, n: int) -> Seq<Form>
    decreases n,
{
    if n <= 0 || n > params.len() {
        seq![]
    } else {
        let done = parameter_constraints(params, n - 1);
        if z3_tables::non_negative(params[n - 1].1) {
            done.push(not_negative(term::int_var(params[n - 1].0@)))
        } else {
            done
        }
    }
}

/// A constant for a value of type `t`.
pub open spec fn typed_var(name: Seq<char>, t: Type) -> Form {
    if z3_tables::bool_like(t) {
        term::bool_var(name)
    } else {
        term::int_var(name)
    }
}

/// What the type of a constant says.
pub open spec fn typed_constraint(name: Seq<char>, t: Type) -> Seq<Form> {
    if !z3_tables::bool_like(t) && z3_tables::non_negative(t) {
        seq![not_negative(term::int_var(name))]
    } else {
        seq![]
    }
}

/// The name of a part of the result.
pub open spec fn part_name(i: int) -> Seq<char> {
    "result_"@ + text::decimal(i as nat)
}

/// The bindings with the first `n` parts of the result.
pub open spec fn parts_bound(elems: Seq<Type>, n: int, b: Bindings) -> Bindings
    decreases n,
{
    if n <= 0 || n > elems.len() {
        b
    } else {
        vars::bind(
            parts_bound(elems, n - 1, b),
            part_name(n - 1),
            typed_var(part_name(n - 1), elems[n - 1]),
        )
    }
}

/// What the types of the first `n` parts of the result say.
pub open spec fn part_constraints(elems: Seq<Type>, n: int) -> Seq<Form>
    decreases n,
{
    if n <= 0 || n > elems.len() {
        seq![]
    } else {
        part_constraints(elems, n - 1) + typed_constraint(part_name(n - 1), elems[n - 1])
    }
}

/// What is bound before a function with the given parameters and return type is read.
pub open spec fn shared_bindings(params: Seq<(String, Type)>, output: Option<Type>) -> Bindings {
    let b = parameters(params, params.len() as int);
    match output {
        None => b,
        Some(t) => match z3_tables::tuple_of(t) {
            Some(elems) => vars::bind(
                parts_bound(elems, elems.len() as int, b),
                "result"@,
                term::int_var("result"@),
            ),
            None => vars::bind(b, "result"@, typed_var("result"@, t)),
        },
    }
}

/// What the types of a function say.
pub open spec fn shared_constraints(params: Seq<(String, Type)>, output: Option<Type>) -> Seq<
    Form,
> {
    let c = parameter_constraints(params, params.len() as int);
    match output {
        None => c,
        Some(t) => match z3_tables::tuple_of(t) {
            Some(elems) => c + part_constraints(elems, elems.len() as int),
            None => c + typed_constraint("result"@, t),
        },
    }
}

} // verus!
