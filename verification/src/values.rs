//! What Rust expressions and bodies of functions are worth, and that the solver is told so.
//!
//! Integers are mathematical ones. An expression whose value does not follow from the values of its
//! names alone has none here.
use vstd::arithmetic::div_mod;
use vstd::prelude::*;
use crate::alike;
use crate::ast::{
    Arm, BinOp, Block, Callee, Expr, FnItem, Lit, Pat, Stmt, Type, TypeArg, UnOp,
};
use crate::contracts::{Contract, ContractType};
use crate::meaning;
use crate::meaning::Model;
use crate::numbers;
use crate::term;
use crate::term::{Form, Sort, TermOp};
use crate::text;
use crate::vars;
use crate::vars::Bindings;
use crate::z3_rules;
use crate::z3_rules::{Exits, StmtOutcome};
use crate::z3_tables;
use crate::z3_verifier;
use crate::z3_verifier::{CalleeFact, QueryView};

verus! {

/// A value.
pub enum Worth {
    Number(int),
    Truth(bool),
}

/// The values of names.
pub type Values = spec_fn(Seq<char>) -> Option<Worth>;

/// What an operator gives on two values. A quotient has a value where its operands are not negative.
pub open spec fn operated(op: BinOp, x: Worth, y: Worth) -> Option<Worth> {
    match (x, y) {
        (Worth::Number(a), Worth::Number(b)) => match op {
            BinOp::Plus => Some(Worth::Number(a + b)),
            BinOp::Minus => Some(Worth::Number(a - b)),
            BinOp::Times => Some(Worth::Number(a * b)),
            BinOp::Div => if a >= 0 && b > 0 {
                Some(Worth::Number(a / b))
            } else {
                None
            },
            BinOp::Rem => if a >= 0 && b > 0 {
                Some(Worth::Number(a % b))
            } else {
                None
            },
            BinOp::Eq => Some(Worth::Truth(a == b)),
            BinOp::Ne => Some(Worth::Truth(a != b)),
            BinOp::Lt => Some(Worth::Truth(a < b)),
            BinOp::Le => Some(Worth::Truth(a <= b)),
            BinOp::Gt => Some(Worth::Truth(a > b)),
            BinOp::Ge => Some(Worth::Truth(a >= b)),
            _ => None,
        },
        (Worth::Truth(a), Worth::Truth(b)) => match op {
            BinOp::Eq => Some(Worth::Truth(a == b)),
            BinOp::Ne => Some(Worth::Truth(a != b)),
            BinOp::And => Some(Worth::Truth(a && b)),
            BinOp::Or => Some(Worth::Truth(a || b)),
            _ => None,
        },
        _ => None,
    }
}

/// What an operator gives on one value.
pub open spec fn operated_once(op: UnOp, x: Worth) -> Option<Worth> {
    match (op, x) {
        (UnOp::Not, Worth::Truth(a)) => Some(Worth::Truth(!a)),
        (UnOp::Neg, Worth::Number(a)) => Some(Worth::Number(-a)),
        (UnOp::Deref, _) => Some(x),
        _ => None,
    }
}

/// What a method gives on its receiver and its argument, where it neither fails nor saturates.
pub open spec fn called(name: Seq<char>, x: Worth, y: Worth) -> Option<Worth> {
    match (x, y) {
        (Worth::Number(a), Worth::Number(b)) => if name == "min"@ {
            Some(
                Worth::Number(
                    if a <= b {
                        a
                    } else {
                        b
                    },
                ),
            )
        } else if name == "max"@ {
            Some(
                Worth::Number(
                    if a <= b {
                        b
                    } else {
                        a
                    },
                ),
            )
        } else if name == "checked_add"@ {
            Some(Worth::Number(a + b))
        } else if name == "checked_sub"@ || (name == "saturating_sub"@ && a >= b) {
            Some(Worth::Number(a - b))
        } else if name == "checked_mul"@ || name == "saturating_mul"@ {
            Some(Worth::Number(a * b))
        } else if name == "div_ceil"@ && a >= 0 && b > 0 {
            Some(
                Worth::Number(
                    if a % b == 0 {
                        a / b
                    } else {
                        a / b + 1
                    },
                ),
            )
        } else {
            None
        },
        _ => None,
    }
}

/// The values of two branches of which one is taken; they are of one kind.
pub open spec fn chosen(c: Worth, x: Worth, y: Worth) -> Option<Worth> {
    match c {
        Worth::Truth(b) => if (x is Truth) == (y is Truth) {
            Some(
                if b {
                    x
                } else {
                    y
                },
            )
        } else {
            None
        },
        _ => None,
    }
}

/// The value of an expression.
pub open spec fn value(e: Expr, env: Values) -> Option<Worth>
    decreases e, 1int,
{
    match e {
        Expr::Lit(Lit::Int(l)) => match numbers::radix_value(l.digits@, 10) {
            Some(n) => if l.digits@.len() > 0 && n <= i64::MAX {
                Some(Worth::Number(n as int))
            } else {
                None
            },
            None => None,
        },
        Expr::Lit(Lit::Bool(b)) => Some(Worth::Truth(b)),
        Expr::Path(p) => if p.bare && p.segments@.len() == 1 {
            env(p.segments@[0]@)
        } else {
            None
        },
        Expr::Paren(a) => value(*a, env),
        Expr::Reference(a) => value(*a, env),
        Expr::Unary(op, a) => match value(*a, env) {
            Some(x) => operated_once(op, x),
            None => None,
        },
        Expr::Binary(op, a, b) => match (value(*a, env), value(*b, env)) {
            (Some(x), Some(y)) => operated(op, x, y),
            _ => None,
        },
        Expr::MethodCall(a, name, args) => if args@.len() == 1 {
            match (value(*a, env), value(args@[0], env)) {
                (Some(x), Some(y)) => called(name@, x, y),
                _ => None,
            }
        } else {
            None
        },
        Expr::If(c, then, Some(other)) => match (
            value(*c, env),
            branch_value(then, env),
            match *other {
                Expr::Block(block) => branch_value(block, env),
                _ => value(*other, env),
            },
        ) {
            (Some(c), Some(x), Some(y)) => chosen(c, x, y),
            _ => None,
        },
        _ => None,
    }
}

/// The value of a block that is one expression.
pub open spec fn branch_value(block: Block, env: Values) -> Option<Worth>
    decreases block, 0int,
{
    if block.stmts@.len() == 1 {
        match block.stmts@[0] {
            Stmt::Tail(e, _) => value(e, env),
            _ => None,
        }
    } else {
        None
    }
}

// ---------------------------------------------------------------------------
// Types
// ---------------------------------------------------------------------------
/// Whether a value is one of a type. Of a `Result` or an `Option` it is the value that is held. Values
/// of types that are neither truth values nor signed integers are not negative.
pub open spec fn of_type(t: Type, x: Worth) -> bool
    decreases t,
{
    match t {
        Type::Path(name, args) => if name@ == "i8"@ || name@ == "i16"@ || name@ == "i32"@ || name@
            == "i64"@ || name@ == "i128"@ || name@ == "isize"@ || name@ == "Integer"@ {
            x is Number
        } else if name@ == "bool"@ {
            x is Truth
        } else if name@ == "Result"@ || name@ == "Option"@ {
            match args {
                Some(v) => if v@.len() > 0 {
                    match v@[0] {
                        TypeArg::Type(u) => of_type(u, x),
                        TypeArg::Other => true,
                    }
                } else {
                    true
                },
                None => true,
            }
        } else {
            x matches Worth::Number(n) ==> n >= 0
        },
        Type::Reference(u) => of_type(*u, x),
        Type::Ptr(u) => of_type(*u, x),
        Type::Tuple(_) => true,
        Type::EmptyPath => true,
        _ => x matches Worth::Number(n) ==> n >= 0,
    }
}

/// A type counts as one without negative values only where it has none.
pub proof fn law_non_negative_types_have_no_negative_values(t: Type, n: int)
    requires
        z3_tables::non_negative(t),
        of_type(t, Worth::Number(n)),
    ensures
        n >= 0,
    decreases t,
{
    match t {
        Type::Path(name, args) => {
            if z3_tables::wraps(name@) {
                lemma_wrapping_names(name@);
                if let Some(v) = args {
                    if let TypeArg::Type(u) = v@[0] {
                        law_non_negative_types_have_no_negative_values(u, n);
                    }
                }
            }
        },
        Type::Reference(u) => {
            law_non_negative_types_have_no_negative_values(*u, n);
        },
        Type::Ptr(u) => {
            law_non_negative_types_have_no_negative_values(*u, n);
        },
        _ => {},
    }
}

proof fn lemma_wrapping_names(name: Seq<char>)
    requires
        name == "Result"@ || name == "Option"@,
    ensures
        !z3_tables::unsigned_name(name),
        name != "bool"@,
{
    reveal_strlit("Result");
    reveal_strlit("Option");
    reveal_strlit("bool");
    reveal_strlit("u8");
    reveal_strlit("u16");
    reveal_strlit("u32");
    reveal_strlit("u64");
    reveal_strlit("u128");
    reveal_strlit("usize");
    reveal_strlit("Natural");
    assert("Result"@.len() == 6 && "Option"@.len() == 6);
    assert("bool"@.len() == 4 && "u8"@.len() == 2 && "u16"@.len() == 3 && "u32"@.len() == 3);
    assert("u64"@.len() == 3 && "u128"@.len() == 4 && "usize"@.len() == 5 && "Natural"@.len() == 7);
}

/// The values that a function can return: the result is of the return type, and of a tuple each part.
pub open spec fn returnable(env: Values, f: FnItem) -> bool {
    match f.output {
        Some(t) => {
            let held = match t {
                Type::Path(name, Some(args)) => if (name@ == "Result"@ || name@ == "Option"@)
                    && args@.len() > 0 {
                    match args@[0] {
                        TypeArg::Type(u) => u,
                        TypeArg::Other => t,
                    }
                } else {
                    t
                },
                _ => t,
            };
            match z3_tables::tuple_of(held) {
                Some(elems) => forall|i: int|
                    0 <= i < elems.len() ==> (env("result_"@ + #[trigger] text::decimal(i as nat)) matches
                        Some(x) ==> of_type(elems[i], x)),
                None => env("result"@) matches Some(x) ==> of_type(held, x),
            }
        },
        None => true,
    }
}

// ---------------------------------------------------------------------------
// Terms
// ---------------------------------------------------------------------------
/// The value of a term in a model.
pub open spec fn worth(f: Form, m: Model) -> Worth {
    if f.sort() == Sort::Bool {
        Worth::Truth(meaning::truth(f, m))
    } else {
        Worth::Number(meaning::number(f, m))
    }
}

/// A value as an integer: a truth value is one or zero.
pub open spec fn count(x: Worth) -> int {
    match x {
        Worth::Number(n) => n,
        Worth::Truth(b) => if b {
            1
        } else {
            0
        },
    }
}

proof fn lemma_conjunction(l: Form, r: Form, m: Model)
    ensures
        meaning::truth(Form::All(seq![l, r]), m) <==> meaning::truth(l, m) && meaning::truth(r, m),
{
    let v = seq![l, r];
    let o = Form::All(v);
    assert(o->All_0 == v);
    if meaning::truth(o, m) {
        assert(meaning::truth(o->All_0[0], m));
        assert(meaning::truth(o->All_0[1], m));
    }
}

/// The term of a binary operation is worth in every model what the operator of Rust gives on the
/// values of the operands.
pub proof fn law_binary_operators_mean_what_they_say(op: BinOp, l: Form, r: Form, m: Model)
    ensures
        operated(op, worth(l, m), worth(r, m)) matches Some(v) ==> (z3_rules::binary_op(
            op,
            l,
            r,
        ) matches Ok(f) && worth(f, m) == v),
{
    if operated(op, worth(l, m), worth(r, m)) is Some {
        lemma_conjunction(l, r, m);
        let e = z3_rules::mixed_equation(l, r);
        assert(meaning::truth(term::negated(e), m) == !meaning::truth(e, m));
    }
}

/// A comparison of terms of any sorts goes by their values as integers.
pub proof fn law_comparisons_count_truth_as_one(l: Form, r: Form, m: Model)
    ensures
        z3_rules::binary_op(BinOp::Eq, l, r) matches Ok(f) && worth(f, m) == Worth::Truth(
            count(worth(l, m)) == count(worth(r, m)),
        ),
        z3_rules::binary_op(BinOp::Ne, l, r) matches Ok(f) && worth(f, m) == Worth::Truth(
            count(worth(l, m)) != count(worth(r, m)),
        ),
        z3_rules::binary_op(BinOp::Lt, l, r) matches Ok(f) && worth(f, m) == Worth::Truth(
            count(worth(l, m)) < count(worth(r, m)),
        ),
        z3_rules::binary_op(BinOp::Le, l, r) matches Ok(f) && worth(f, m) == Worth::Truth(
            count(worth(l, m)) <= count(worth(r, m)),
        ),
        z3_rules::binary_op(BinOp::Gt, l, r) matches Ok(f) && worth(f, m) == Worth::Truth(
            count(worth(l, m)) > count(worth(r, m)),
        ),
        z3_rules::binary_op(BinOp::Ge, l, r) matches Ok(f) && worth(f, m) == Worth::Truth(
            count(worth(l, m)) >= count(worth(r, m)),
        ),
{
    if l.sort() == Sort::Bool {
        meaning::law_truth_as_integer(l, m);
    }
    if r.sort() == Sort::Bool {
        meaning::law_truth_as_integer(r, m);
    }
    let e = z3_rules::mixed_equation(l, r);
    assert(meaning::truth(term::negated(e), m) == !meaning::truth(e, m));
    assert(Form::Int(1).sort() == Sort::Int);
    assert(term::as_integer(l).sort() == Sort::Int && term::as_integer(r).sort() == Sort::Int);
}

/// The term of a unary operation is worth in every model what the operator of Rust gives on the value
/// of the operand.
pub proof fn law_unary_operators_mean_what_they_say(op: UnOp, a: Form, m: Model)
    ensures
        operated_once(op, worth(a, m)) matches Some(v) ==> (z3_rules::unary_op(op, a) matches Ok(f)
            && worth(f, m) == v),
{
}

/// A method of two integers is worth in every model what the method of Rust gives on their values.
pub proof fn law_methods_mean_what_they_say(name: Seq<char>, l: Form, r: Form, m: Model)
    ensures
        called(name, worth(l, m), worth(r, m)) matches Some(v) ==> z3_rules::binary_method(
            name,
        ) is Some && l.sort() == Sort::Int && r.sort() == Sort::Int && worth(
            z3_rules::binary_method_value(name, l, r),
            m,
        ) == v,
{
    if called(name, worth(l, m), worth(r, m)) is Some {
        let a = meaning::number(l, m);
        let b = meaning::number(r, m);
        lemma_method_names();
        let sum = term::binary(TermOp::Plus, l, r);
        let less = term::binary(TermOp::Minus, sum, Form::Int(1));
        assert(meaning::number(Form::Int(1), m) == 1);
        assert(meaning::number(sum, m) == a + b);
        assert(meaning::number(less, m) == a + b - 1);
        assert(meaning::truth(term::binary(TermOp::Lt, l, r), m) == (a < b));
        assert(meaning::truth(term::binary(TermOp::Gt, l, r), m) == (a > b));
        if name == "div_ceil"@ {
            lemma_ceiling(a, b);
        }
    }
}

proof fn lemma_ceiling(a: int, b: int)
    requires
        a >= 0,
        b > 0,
    ensures
        (a + b - 1) / b == if a % b == 0 {
            a / b
        } else {
            a / b + 1
        },
{
    div_mod::lemma_fundamental_div_mod(a, b);
    div_mod::lemma_mod_bound(a, b);
    let q = a / b;
    let k = a % b;
    if k == 0 {
        assert(a + b - 1 == q * b + (b - 1)) by (nonlinear_arith)
            requires
                a == b * q + k,
                k == 0,
        ;
        div_mod::lemma_fundamental_div_mod_converse(a + b - 1, b, q, b - 1);
    } else {
        assert(a + b - 1 == (q + 1) * b + (k - 1)) by (nonlinear_arith)
            requires
                a == b * q + k,
        ;
        div_mod::lemma_fundamental_div_mod_converse(a + b - 1, b, q + 1, k - 1);
    }
}

proof fn lemma_method_names()
    ensures
        "min"@ != "max"@,
        "min"@.len() == 3,
        "max"@.len() == 3,
        "checked_add"@.len() == 11,
        "checked_sub"@.len() == 11,
        "checked_mul"@.len() == 11,
        "saturating_sub"@.len() == 14,
        "saturating_mul"@.len() == 14,
        "div_ceil"@.len() == 8,
        "checked_add"@ != "checked_sub"@,
        "checked_add"@ != "checked_mul"@,
        "checked_sub"@ != "checked_mul"@,
        "saturating_sub"@ != "saturating_mul"@,
{
    reveal_strlit("min");
    reveal_strlit("max");
    reveal_strlit("checked_add");
    reveal_strlit("checked_sub");
    reveal_strlit("checked_mul");
    reveal_strlit("saturating_sub");
    reveal_strlit("saturating_mul");
    reveal_strlit("div_ceil");
    assert("min"@[1] != "max"@[1]);
    assert("checked_add"@[8] != "checked_sub"@[8]);
    assert("checked_add"@[8] != "checked_mul"@[8]);
    assert("checked_sub"@[8] != "checked_mul"@[8]);
    assert("saturating_sub"@[11] != "saturating_mul"@[11]);
}

// ---------------------------------------------------------------------------
// Expressions
// ---------------------------------------------------------------------------
/// A name that stands for a value of its own: neither a constant of the protocol nor a variant.
pub open spec fn free_name(x: Seq<char>) -> bool {
    z3_tables::constant_value(x) is None && x != "Valid"@ && x != "Accepted"@ && x != "Invalid"@
        && x != "Rejected"@ && x != "Err"@
}

/// In the model, names are bound to their values, and a name without a binding is the integer
/// constant of that name.
pub open spec fn represents(b: Bindings, m: Model, env: Values) -> bool {
    forall|x: Seq<char>|
        #![trigger env(x)]
        env(x) matches Some(v) ==> free_name(x) && v == match vars::bound(b, x) {
            Some(f) => worth(f, m),
            None => Worth::Number((m.numbers)(x)),
        }
}

/// Names that are bound stay bound as they were.
pub open spec fn keeps(b: Bindings, c: Bindings) -> bool {
    forall|x: Seq<char>|
        #![trigger vars::bound(c, x)]
        vars::bound(b, x) is Some ==> vars::bound(c, x) == vars::bound(b, x)
}

proof fn lemma_bound_again(b: Bindings, name: Seq<char>, f: Form)
    ensures
        vars::bound(vars::bind(b, name, f), name) == Some(f),
{
    assert(name.push(' ').len() != name.len());
    vars::law_bind_then_bound(b, name, name.push(' '), f);
}

proof fn lemma_entry(b: Bindings, name: Seq<char>, m: Model, env: Values)
    requires
        represents(b, m, env),
    ensures
        represents(z3_rules::int_entry(b, name).1, m, env),
        keeps(b, z3_rules::int_entry(b, name).1),
        env(name) matches Some(v) ==> (z3_rules::int_entry(b, name).0 matches Ok(f) && worth(f, m)
            == v),
{
    let c = z3_rules::int_entry(b, name).1;
    assert forall|x: Seq<char>| #![trigger env(x)] env(x) is Some implies free_name(x) && env(x)->0
        == match vars::bound(c, x) {
        Some(f) => worth(f, m),
        None => Worth::Number((m.numbers)(x)),
    } by {
        if vars::bound(b, name) is None {
            if x != name {
                vars::law_bind_then_bound(b, name, x, term::int_var(name));
            } else {
                lemma_bound_again(b, name, term::int_var(name));
            }
        }
    }
    assert forall|x: Seq<char>|
        #![trigger vars::bound(c, x)]
        vars::bound(b, x) is Some implies vars::bound(c, x) == vars::bound(b, x) by {
        if vars::bound(b, name) is None {
            vars::law_bind_then_bound(b, name, x, term::int_var(name));
        }
    }
    assert(meaning::number(term::int_var(name), m) == (m.numbers)(name));
}

proof fn lemma_digits(s: Seq<char>)
    requires
        s.len() > 0,
        numbers::radix_value(s, 10) is Some,
    ensures
        s[0] != '+' && s[0] != '-',
    decreases s.len(),
{
    if s.len() > 1 {
        lemma_digits(s.drop_last());
        assert(s.drop_last()[0] == s[0]);
    }
}

/// What the solver is told of an expression is worth, in every model in which the names are bound to
/// their values, what the expression is worth in Rust.
pub proof fn law_translation_keeps_values(e: Expr, b: Bindings, m: Model, env: Values)
    requires
        represents(b, m, env),
        value(e, env) is Some,
    ensures
        z3_rules::expr(e, b).0 matches Ok(f) && worth(f, m) == value(e, env)->0,
        represents(z3_rules::expr(e, b).1, m, env),
        keeps(b, z3_rules::expr(e, b).1),
    decreases e, 1int,
{
    match e {
        Expr::Lit(Lit::Int(l)) => {
            lemma_digits(l.digits@);
            assert(numbers::signed_value(l.digits@, 10) is Some);
            assert(z3_tables::lit_value(l) is Some);
        },
        Expr::Path(p) => {
            let x = p.segments@[0]@;
            let names = text::views(p.segments@);
            assert(names.len() == 1 && names[0] == x);
            assert(z3_tables::path_name(p) == x);
            assert(z3_tables::path_last(p) == x);
            assert(env(x) is Some);
            lemma_entry(b, x, m, env);
        },
        Expr::Paren(a) => {
            law_translation_keeps_values(*a, b, m, env);
        },
        Expr::Reference(a) => {
            law_translation_keeps_values(*a, b, m, env);
        },
        Expr::Unary(op, a) => {
            law_translation_keeps_values(*a, b, m, env);
            if let (Ok(f), _) = z3_rules::expr(*a, b) {
                law_unary_operators_mean_what_they_say(op, f, m);
            }
        },
        Expr::Binary(op, l, r) => {
            law_translation_keeps_values(*l, b, m, env);
            let c = z3_rules::expr(*l, b).1;
            law_translation_keeps_values(*r, c, m, env);
            if let (Ok(lf), _) = z3_rules::expr(*l, b) {
                if let (Ok(rf), _) = z3_rules::expr(*r, c) {
                    law_binary_operators_mean_what_they_say(op, lf, rf, m);
                }
            }
        },
        Expr::MethodCall(a, name, args) => {
            law_translation_keeps_values(*a, b, m, env);
            let c = z3_rules::expr(*a, b).1;
            law_translation_keeps_values(args@[0], c, m, env);
            if let (Ok(lf), _) = z3_rules::expr(*a, b) {
                if let (Ok(rf), d) = z3_rules::expr(args@[0], c) {
                    law_methods_mean_what_they_say(name@, lf, rf, m);
                    assert(z3_rules::method_call(e, b) == (
                        Ok::<Form, z3_rules::Fault>(z3_rules::binary_method_value(name@, lf, rf)),
                        d,
                    ));
                }
            }
        },
        Expr::If(cond, then, Some(other)) => {
            lemma_conditional(e, b, m, env);
        },
        _ => {},
    }
}

proof fn lemma_branch(block: Block, missing: Seq<char>, b: Bindings, m: Model, env: Values)
    requires
        represents(b, m, env),
        branch_value(block, env) is Some,
    ensures
        z3_rules::last_value(block, missing, b).0 matches Ok(f) && worth(f, m) == branch_value(
            block,
            env,
        )->0,
        represents(z3_rules::last_value(block, missing, b).1, m, env),
        keeps(b, z3_rules::last_value(block, missing, b).1),
    decreases block, 0int,
{
    if let Stmt::Tail(e, _) = block.stmts@[0] {
        law_translation_keeps_values(e, b, m, env);
    }
}

proof fn lemma_conditional(e: Expr, b: Bindings, m: Model, env: Values)
    requires
        represents(b, m, env),
        e is If,
        value(e, env) is Some,
    ensures
        z3_rules::if_value(e, b).0 matches Ok(f) && worth(f, m) == value(e, env)->0,
        represents(z3_rules::if_value(e, b).1, m, env),
        keeps(b, z3_rules::if_value(e, b).1),
    decreases e, 0int,
{
    if let Expr::If(cond, then, Some(other)) = e {
        law_translation_keeps_values(*cond, b, m, env);
        let c = z3_rules::expr(*cond, b).1;
        lemma_branch(then, "If then branch: expected single expression"@, c, m, env);
        let d = z3_rules::last_value(then, "If then branch: expected single expression"@, c).1;
        match *other {
            Expr::Block(block) => {
                lemma_branch(block, "If else block: expected single expression"@, d, m, env);
            },
            Expr::If(_, _, _) => {
                lemma_conditional(*other, d, m, env);
            },
            _ => {
                law_translation_keeps_values(*other, d, m, env);
            },
        }
    }
}

// ---------------------------------------------------------------------------
// Bodies
// ---------------------------------------------------------------------------
/// The values of names, with another one for `x`.
pub open spec fn with(env: Values, x: Seq<char>, v: Worth) -> Values {
    |y: Seq<char>|
        if y == x {
            Some(v)
        } else {
            env(y)
        }
}

/// What a branch returns that is one return of a value.
pub open spec fn returned(block: Block, env: Values) -> Option<Worth> {
    if block.stmts@.len() == 1 {
        match block.stmts@[0] {
            Stmt::Semi(Expr::Return(Some(r), _)) => value(*r, env),
            Stmt::Tail(Expr::Return(Some(r), _), _) => value(*r, env),
            _ => None,
        }
    } else {
        None
    }
}

/// Whether a branch is one return of `Err(..)`.
pub open spec fn fails(block: Block) -> bool {
    block.stmts@.len() == 1 && (block.stmts@[0] matches Stmt::Semi(Expr::Return(Some(r), _)) && (
    *r matches Expr::Call(Callee::Path(p), _) && p.segments@.len() > 0 && p.segments@.last()@
        == "Err"@))
}

/// What a body gives whose last expression has the value `v`, where `taken` is what an earlier return
/// gave.
pub open spec fn ended(taken: Option<Worth>, v: Worth) -> Worth {
    match taken {
        Some(w) => w,
        None => v,
    }
}

/// Running the statements of a body from `i` on: bindings of names, returns under a condition, and a
/// last expression. `taken` is what an earlier return gave, and `failed` whether an error was
/// returned. The outcome is the value, or nothing where an error was returned. Bodies of other forms
/// have no outcome here, and neither have those where the conditions of two returns of a value hold,
/// or where an error is returned behind one.
pub open spec fn run(
    block: Block,
    i: int,
    env: Values,
    taken: Option<Worth>,
    failed: bool,
    truth: bool,
) -> Option<Option<Worth>>
    decreases block.stmts@.len() - i,
{
    if i < 0 || i >= block.stmts@.len() {
        None
    } else {
        match block.stmts@[i] {
            Stmt::Local(Pat::Ident(x), Some(init)) => match value(init, env) {
                Some(v) => if free_name(x@) && x@ != "result"@ {
                    run(block, i + 1, with(env, x@, v), taken, failed, truth)
                } else {
                    None
                },
                None => None,
            },
            Stmt::Semi(Expr::If(c, then, None)) => if fails(then) {
                match value(*c, env) {
                    Some(Worth::Truth(c)) => if c && taken is Some {
                        None
                    } else {
                        run(block, i + 1, env, taken, failed || c, truth)
                    },
                    _ => None,
                }
            } else {
                match (value(*c, env), returned(then, env)) {
                    (Some(Worth::Truth(c)), Some(v)) => if (c && taken is Some) || (v is Truth)
                        != truth {
                        None
                    } else {
                        run(
                            block,
                            i + 1,
                            env,
                            if c {
                                Some(v)
                            } else {
                                taken
                            },
                            failed,
                            truth,
                        )
                    },
                    _ => None,
                }
            },
            Stmt::Tail(e, true) => if i + 1 == block.stmts@.len() && !(e is If) {
                match value(e, env) {
                    Some(v) => if (v is Truth) == truth {
                        Some(
                            if failed {
                                None
                            } else {
                                Some(ended(taken, v))
                            },
                        )
                    } else {
                        None
                    },
                    None => None,
                }
            } else {
                None
            },
            _ => None,
        }
    }
}

/// Whether one of the conditions under which a value is returned early holds.
spec fn some_early(early: Seq<(Form, Form)>, m: Model) -> bool {
    exists|j: int| 0 <= j < early.len() && meaning::truth((#[trigger] early[j]).0, m)
}

/// Whether each early return whose condition holds gives `v` as the result `s`.
spec fn early_give(early: Seq<(Form, Form)>, s: Form, m: Model, v: Worth) -> bool {
    forall|j: int|
        0 <= j < early.len() && meaning::truth((#[trigger] early[j]).0, m) ==> (meaning::truth(
            early[j].1,
            m,
        ) <==> worth(s, m) == v)
}

/// Whether one of the conditions under which an error is returned holds.
spec fn some_guard(guards: Seq<Form>, m: Model) -> bool {
    exists|j: int| 0 <= j < guards.len() && meaning::truth(#[trigger] guards[j], m)
}

/// What the exits of a body say in a model, where the result is `s`: which return was taken, and
/// whether an error was returned.
spec fn tells(exits: Exits, s: Form, m: Model, taken: Option<Worth>, failed: bool) -> bool {
    &&& failed == some_guard(exits.guards, m)
    &&& taken is Some == some_early(exits.early, m)
    &&& taken matches Some(v) ==> early_give(exits.early, s, m, v)
}

proof fn lemma_more_early(
    early: Seq<(Form, Form)>,
    c: Form,
    f: Form,
    s: Form,
    m: Model,
    taken: Option<Worth>,
    v: Worth,
)
    requires
        taken is Some == some_early(early, m),
        taken matches Some(v) ==> early_give(early, s, m, v),
        meaning::truth(c, m) ==> taken is None,
        meaning::truth(f, m) <==> worth(s, m) == v,
    ensures
        ({
            let now = early.push((c, f));
            let taken = if meaning::truth(c, m) {
                Some(v)
            } else {
                taken
            };
            &&& taken is Some == some_early(now, m)
            &&& taken matches Some(v) ==> early_give(now, s, m, v)
        }),
{
    let now = early.push((c, f));
    let n = early.len() as int;
    assert(now[n] == (c, f));
    if some_early(early, m) {
        let j = choose|j: int| 0 <= j < early.len() && meaning::truth((#[trigger] early[j]).0, m);
        assert(now[j] == early[j]);
        assert(meaning::truth(now[j].0, m));
    }
    if meaning::truth(c, m) {
        assert(meaning::truth(now[n].0, m));
    }
    assert forall|j: int| 0 <= j < n implies #[trigger] now[j] == early[j] by {}
    if some_early(now, m) && !meaning::truth(c, m) {
        let j = choose|j: int| 0 <= j < now.len() && meaning::truth((#[trigger] now[j]).0, m);
        assert(j < n);
        assert(meaning::truth(early[j].0, m));
    }
}

proof fn lemma_more_guards(guards: Seq<Form>, c: Form, m: Model)
    ensures
        some_guard(guards.push(c), m) == (some_guard(guards, m) || meaning::truth(c, m)),
{
    let now = guards.push(c);
    let n = guards.len() as int;
    assert(now[n] == c);
    if some_guard(guards, m) {
        let j = choose|j: int| 0 <= j < guards.len() && meaning::truth(#[trigger] guards[j], m);
        assert(now[j] == guards[j]);
        assert(meaning::truth(now[j], m));
    }
    if meaning::truth(c, m) {
        assert(meaning::truth(now[n], m));
    }
    if some_guard(now, m) && !meaning::truth(c, m) {
        let j = choose|j: int| 0 <= j < now.len() && meaning::truth(#[trigger] now[j], m);
        assert(j < n);
        assert(meaning::truth(guards[j], m));
    }
}

proof fn lemma_equation(s: Form, f: Form, m: Model)
    requires
        s.sort() == f.sort(),
    ensures
        term::equation(s, f) matches Some(g) && (meaning::truth(g, m) <==> worth(s, m) == worth(
            f,
            m,
        )),
{
}

/// The expression that a branch returns which is one return.
spec fn returned_expr(block: Block) -> Expr {
    match block.stmts@[0] {
        Stmt::Semi(Expr::Return(Some(r), _)) => *r,
        Stmt::Tail(Expr::Return(Some(r), _), _) => *r,
        _ => arbitrary(),
    }
}

proof fn lemma_sole_return(block: Block, b: Bindings)
    requires
        block.stmts@.len() == 1,
        block.stmts@[0] matches Stmt::Semi(Expr::Return(Some(_), _)) || block.stmts@[0] matches
            Stmt::Tail(Expr::Return(Some(_), _), _),
    ensures
        z3_rules::returned(block, 0, b) == z3_rules::returned_value(returned_expr(block), b),
{
    let c = z3_rules::returned_value(returned_expr(block), b).1;
    assert(z3_rules::returned(block, 1, c) == (Ok::<Option<Form>, z3_rules::Fault>(None), c));
}

proof fn lemma_value_returned(r: Expr, b: Bindings)
    requires
        !(r is Call),
        !z3_rules::is_error(r),
    ensures
        z3_rules::returned_value(r, b) == z3_rules::result_equation(r, b),
{
    assert(z3_rules::ok_equation(r, b) == (Ok::<Option<Form>, z3_rules::Fault>(None), b));
}

proof fn lemma_result_equation(r: Expr, b: Bindings, s: Form)
    requires
        z3_rules::expr(r, b).0 is Ok,
        vars::bound(z3_rules::expr(r, b).1, "result"@) == Some(s),
    ensures
        z3_rules::result_equation(r, b) == (
            Ok::<Option<Form>, z3_rules::Fault>(term::equation(s, z3_rules::expr(r, b).0->Ok_0)),
            z3_rules::expr(r, b).1,
        ),
{
}

proof fn lemma_returned(block: Block, b: Bindings, m: Model, env: Values, s: Form)
    requires
        represents(b, m, env),
        vars::bound(b, "result"@) == Some(s),
        returned(block, env) matches Some(v) && (v is Truth) == (s.sort() == Sort::Bool),
    ensures
        z3_rules::returned(block, 0, b).0 matches Ok(Some(f)) && (meaning::truth(f, m) <==> worth(
            s,
            m,
        ) == returned(block, env)->0),
        represents(z3_rules::returned(block, 0, b).1, m, env),
        keeps(b, z3_rules::returned(block, 0, b).1),
{
    let r = returned_expr(block);
    assert(value(r, env) == returned(block, env));
    lemma_sole_return(block, b);
    law_translation_keeps_values(r, b, m, env);
    let c = z3_rules::expr(r, b).1;
    let f = z3_rules::expr(r, b).0->Ok_0;
    assert(vars::bound(c, "result"@) == Some(s));
    assert(!z3_rules::is_error(r)) by {
        if let Expr::Path(p) = r {
            assert(env(p.segments@[0]@) is Some);
        }
    }
    lemma_value_returned(r, b);
    lemma_result_equation(r, b, s);
    lemma_equation(s, f, m);
}

proof fn lemma_error_returned(r: Expr, b: Bindings)
    requires
        r matches Expr::Call(Callee::Path(p), _) && z3_tables::path_last(p) == "Err"@,
    ensures
        z3_rules::returned_value(r, b) == (Ok::<Option<Form>, z3_rules::Fault>(None), b),
{
    reveal_strlit("Err");
    reveal_strlit("Ok");
    assert("Err"@.len() == 3 && "Ok"@.len() == 2);
    assert(z3_rules::ok_equation(r, b) == (Ok::<Option<Form>, z3_rules::Fault>(None), b));
}

proof fn lemma_no_value_returned(block: Block, b: Bindings)
    requires
        fails(block),
    ensures
        z3_rules::returned(block, 0, b) == (Ok::<Option<Form>, z3_rules::Fault>(None), b),
        z3_rules::only_returns_error(block),
{
    lemma_sole_return(block, b);
    lemma_error_returned(returned_expr(block), b);
}

proof fn lemma_exit_of_value(cond: Box<Expr>, then: Block, exits: Exits, b: Bindings, g: Form, f: Form)
    requires
        z3_rules::expr(*cond, b).0 == Ok::<Form, z3_rules::Fault>(g),
        g.sort() == Sort::Bool,
        z3_rules::returned(then, 0, z3_rules::expr(*cond, b).1).0 == Ok::<
            Option<Form>,
            z3_rules::Fault,
        >(Some(f)),
    ensures
        z3_rules::conditional_exit(Expr::If(cond, then, None), exits, b) == (
            Ok::<Exits, z3_rules::Fault>(
                Exits { early: exits.early.push((g, f)), guards: exits.guards },
            ),
            z3_rules::returned(then, 0, z3_rules::expr(*cond, b).1).1,
        ),
{
    let e = Expr::If(cond, then, None);
    assert(z3_rules::early_return(e, b) == (
        Ok::<Option<(Form, Form)>, z3_rules::Fault>(Some((g, f))),
        z3_rules::returned(then, 0, z3_rules::expr(*cond, b).1).1,
    ));
}

proof fn lemma_exit_of_error(cond: Box<Expr>, then: Block, exits: Exits, b: Bindings, h: Form)
    requires
        fails(then),
        z3_rules::expr(*cond, b).0 matches Ok(g) && g.sort() == Sort::Bool,
        z3_rules::expr(*cond, z3_rules::expr(*cond, b).1).0 == Ok::<Form, z3_rules::Fault>(h),
        h.sort() == Sort::Bool,
    ensures
        z3_rules::conditional_exit(Expr::If(cond, then, None), exits, b) == (
            Ok::<Exits, z3_rules::Fault>(
                Exits { early: exits.early, guards: exits.guards.push(h) },
            ),
            z3_rules::expr(*cond, z3_rules::expr(*cond, b).1).1,
        ),
{
    let e = Expr::If(cond, then, None);
    let c = z3_rules::expr(*cond, b).1;
    lemma_no_value_returned(then, c);
    assert(z3_rules::early_return(e, b) == (
        Ok::<Option<(Form, Form)>, z3_rules::Fault>(None),
        c,
    ));
    assert(z3_rules::error_guard(e, c) == (Some(h), z3_rules::expr(*cond, c).1));
}

proof fn lemma_step_of_exit(block: Block, i: int, slot: Option<Form>, exits: Exits, b: Bindings)
    requires
        0 <= i < block.stmts@.len(),
        block.stmts@[i] matches Stmt::Semi(e) && e is If,
        z3_rules::conditional_exit(block.stmts@[i]->Semi_0, exits, b).0 is Ok,
    ensures
        z3_rules::statements(block, i, slot, exits, b) == z3_rules::statements(
            block,
            i + 1,
            slot,
            z3_rules::conditional_exit(block.stmts@[i]->Semi_0, exits, b).0->Ok_0,
            z3_rules::conditional_exit(block.stmts@[i]->Semi_0, exits, b).1,
        ),
{
    let (r, c) = z3_rules::conditional_exit(block.stmts@[i]->Semi_0, exits, b);
    assert(z3_rules::statement(block, i, slot, exits, b) == (StmtOutcome::Next(r->Ok_0), c));
}

proof fn lemma_step_of_local(block: Block, i: int, slot: Option<Form>, exits: Exits, b: Bindings)
    requires
        0 <= i < block.stmts@.len(),
        block.stmts@[i] matches Stmt::Local(Pat::Ident(_), Some(init)) && z3_rules::expr(
            init,
            b,
        ).0 is Ok,
    ensures
        block.stmts@[i] matches Stmt::Local(Pat::Ident(x), Some(init)) && z3_rules::statements(
            block,
            i,
            slot,
            exits,
            b,
        ) == z3_rules::statements(
            block,
            i + 1,
            slot,
            exits,
            vars::bind(z3_rules::expr(init, b).1, x@, z3_rules::expr(init, b).0->Ok_0),
        ),
{
    if let Stmt::Local(Pat::Ident(x), Some(init)) = block.stmts@[i] {
        let c = vars::bind(z3_rules::expr(init, b).1, x@, z3_rules::expr(init, b).0->Ok_0);
        assert(z3_rules::statement(block, i, slot, exits, b) == (StmtOutcome::Next(exits), c));
    }
}

proof fn lemma_end(block: Block, s: Form, exits: Exits, b: Bindings)
    requires
        block.stmts@.len() > 0,
        block.stmts@.last() matches Stmt::Tail(e, true) && !(e is If) && !(e is Return) && !(
        e is Call) && !(e is Struct) && z3_rules::expr(e, b).0 is Ok,
    ensures
        block.stmts@.last() matches Stmt::Tail(e, true) && z3_rules::statements(
            block,
            block.stmts@.len() - 1,
            Some(s),
            exits,
            b,
        ).0 == Ok::<Option<Form>, z3_rules::Fault>(
            z3_rules::with_guards(
                exits.guards,
                z3_rules::after_early(
                    exits.early,
                    term::equation(s, z3_rules::expr(e, b).0->Ok_0),
                ),
            ),
        ),
{
    let i = block.stmts@.len() - 1;
    if let Stmt::Tail(e, true) = block.stmts@[i] {
        assert(z3_rules::struct_formula(e, exits.early, b) == (None::<Form>, b));
        assert(z3_rules::statement(block, i, Some(s), exits, b) == (StmtOutcome::Next(exits), b));
        assert(z3_rules::statements(block, i + 1, Some(s), exits, b) == z3_rules::closing_formula(
            block,
            Some(s),
            exits,
            b,
        ));
        assert(z3_rules::closing_formula(block, Some(s), exits, b).0 == Ok::<
            Option<Form>,
            z3_rules::Fault,
        >(
            z3_rules::with_guards(
                exits.guards,
                z3_rules::after_early(
                    exits.early,
                    term::equation(s, z3_rules::expr(e, b).0->Ok_0),
                ),
            ),
        ));
    }
}

proof fn lemma_bind(b: Bindings, x: Seq<char>, f: Form, m: Model, env: Values)
    requires
        represents(b, m, env),
        free_name(x),
    ensures
        represents(vars::bind(b, x, f), m, with(env, x, worth(f, m))),
{
    let c = vars::bind(b, x, f);
    let now = with(env, x, worth(f, m));
    assert forall|y: Seq<char>| #![trigger now(y)] now(y) is Some implies free_name(y) && now(y)->0
        == match vars::bound(c, y) {
        Some(g) => worth(g, m),
        None => Worth::Number((m.numbers)(y)),
    } by {
        if y == x {
            lemma_bound_again(b, x, f);
        } else {
            vars::law_bind_then_bound(b, x, y, f);
            assert(env(y) is Some);
        }
    }
}

#[verifier::rlimit(40)]
proof fn lemma_run(
    block: Block,
    i: int,
    b: Bindings,
    m: Model,
    env: Values,
    s: Form,
    exits: Exits,
    taken: Option<Worth>,
    failed: bool,
)
    requires
        represents(b, m, env),
        vars::bound(b, "result"@) == Some(s),
        tells(exits, s, m, taken, failed),
        run(block, i, env, taken, failed, s.sort() == Sort::Bool) is Some,
    ensures
        z3_rules::statements(block, i, Some(s), exits, b).0 matches Ok(Some(f)) && (meaning::truth(
            f,
            m,
        ) <==> run(block, i, env, taken, failed, s.sort() == Sort::Bool)->0 == Some(worth(s, m))),
    decreases block.stmts@.len() - i,
{
    match block.stmts@[i] {
        Stmt::Local(Pat::Ident(x), Some(init)) => {
            law_translation_keeps_values(init, b, m, env);
            let (r, c) = z3_rules::expr(init, b);
            let f = r->Ok_0;
            let d = vars::bind(c, x@, f);
            assert(vars::bound(c, "result"@) == Some(s));
            lemma_bind(c, x@, f, m, env);
            vars::law_bind_then_bound(c, x@, "result"@, f);
            lemma_step_of_local(block, i, Some(s), exits, b);
            lemma_run(block, i + 1, d, m, with(env, x@, worth(f, m)), s, exits, taken, failed);
        },
        Stmt::Semi(Expr::If(cond, then, None)) => {
            law_translation_keeps_values(*cond, b, m, env);
            let (r, c) = z3_rules::expr(*cond, b);
            let g = r->Ok_0;
            assert(vars::bound(c, "result"@) == Some(s));
            if fails(then) {
                law_translation_keeps_values(*cond, c, m, env);
                let (r, d) = z3_rules::expr(*cond, c);
                let h = r->Ok_0;
                let more = Exits { early: exits.early, guards: exits.guards.push(h) };
                assert(vars::bound(d, "result"@) == Some(s));
                lemma_more_guards(exits.guards, h, m);
                lemma_exit_of_error(cond, then, exits, b, h);
                lemma_step_of_exit(block, i, Some(s), exits, b);
                lemma_run(
                    block,
                    i + 1,
                    d,
                    m,
                    env,
                    s,
                    more,
                    taken,
                    failed || meaning::truth(h, m),
                );
            } else {
                lemma_returned(then, c, m, env, s);
                let (r, d) = z3_rules::returned(then, 0, c);
                let f = r->Ok_0->Some_0;
                let v = returned(then, env)->0;
                let more = Exits { early: exits.early.push((g, f)), guards: exits.guards };
                assert(vars::bound(d, "result"@) == Some(s));
                lemma_more_early(exits.early, g, f, s, m, taken, v);
                lemma_exit_of_value(cond, then, exits, b, g, f);
                lemma_step_of_exit(block, i, Some(s), exits, b);
                lemma_run(
                    block,
                    i + 1,
                    d,
                    m,
                    env,
                    s,
                    more,
                    if meaning::truth(g, m) {
                        Some(v)
                    } else {
                        taken
                    },
                    failed,
                );
            }
        },
        Stmt::Tail(e, _) => {
            law_translation_keeps_values(e, b, m, env);
            let f = z3_rules::expr(e, b).0->Ok_0;
            lemma_equation(s, f, m);
            lemma_end(block, s, exits, b);
            meaning::law_block_end(exits.guards, exits.early, term::equation(s, f)->0, m);
            lemma_exits_end(exits, s, m, taken, failed, worth(f, m));
        },
        _ => {},
    }
}

proof fn lemma_exits_end(
    exits: Exits,
    s: Form,
    m: Model,
    taken: Option<Worth>,
    failed: bool,
    v: Worth,
)
    requires
        tells(exits, s, m, taken, failed),
    ensures
        (!failed && worth(s, m) == ended(taken, v)) <==> ((forall|i: int|
            0 <= i < exits.guards.len() ==> !meaning::truth(#[trigger] exits.guards[i], m)) && (
        forall|i: int|
            0 <= i < exits.early.len() && meaning::truth((#[trigger] exits.early[i]).0, m)
                ==> meaning::truth(exits.early[i].1, m)) && ((forall|i: int|
            0 <= i < exits.early.len() ==> !meaning::truth((#[trigger] exits.early[i]).0, m))
            ==> worth(s, m) == v)),
{
    if taken is Some {
        let j = choose|j: int|
            0 <= j < exits.early.len() && meaning::truth((#[trigger] exits.early[j]).0, m);
        assert(meaning::truth(exits.early[j].0, m));
    }
}

/// What the solver is told of a body holds, in every model in which the names are bound to their
/// values, exactly where the result is what the body gives in Rust; and nowhere, where it returns an
/// error.
pub proof fn law_body_gives_the_result(block: Block, b: Bindings, m: Model, env: Values, s: Form)
    requires
        represents(b, m, env),
        vars::bound(b, "result"@) == Some(s),
        run(block, 0, env, None, false, s.sort() == Sort::Bool) is Some,
    ensures
        z3_rules::block_formula(block, b).0 matches Ok(Some(f)) && (meaning::truth(f, m) <==> run(
            block,
            0,
            env,
            None,
            false,
            s.sort() == Sort::Bool,
        )->0 == Some(worth(s, m))),
{
    lemma_run(
        block,
        0,
        b,
        m,
        env,
        s,
        Exits { early: seq![], guards: seq![] },
        None,
        false,
    );
}

/// Expressions that say the same have one value.
pub proof fn law_alike_expressions_are_worth_the_same(a: Expr, b: Expr, env: Values)
    requires
        alike::alike(a, b),
    ensures
        value(a, env) == value(b, env),
    decreases a,
{
    match (a, b) {
        (Expr::Path(x), Expr::Path(y)) => {
            let v = text::views(x.segments@);
            let w = text::views(y.segments@);
            assert(v.len() == x.segments@.len() && w.len() == y.segments@.len());
            if x.segments@.len() == 1 {
                assert(v[0] == x.segments@[0]@ && w[0] == y.segments@[0]@);
            }
        },
        (Expr::Binary(_, x, y), Expr::Binary(_, z, w)) => {
            law_alike_expressions_are_worth_the_same(*x, *z, env);
            law_alike_expressions_are_worth_the_same(*y, *w, env);
        },
        (Expr::MethodCall(x, _, v), Expr::MethodCall(y, _, w)) => {
            law_alike_expressions_are_worth_the_same(*x, *y, env);
            assert(alike::all_alike(v, w, v@.len() as int));
            if v@.len() == 1 {
                law_alike_expressions_are_worth_the_same(v@[0], w@[0], env);
            }
        },
        (Expr::Unary(_, x), Expr::Unary(_, y)) => {
            law_alike_expressions_are_worth_the_same(*x, *y, env);
        },
        (Expr::Paren(x), Expr::Paren(y)) => {
            law_alike_expressions_are_worth_the_same(*x, *y, env);
        },
        (Expr::Reference(x), Expr::Reference(y)) => {
            law_alike_expressions_are_worth_the_same(*x, *y, env);
        },
        _ => {},
    }
}

// ---------------------------------------------------------------------------
// What the types say
// ---------------------------------------------------------------------------
proof fn lemma_parameters_leave_every_value(params: Seq<(String, Type)>, n: int, m: Model)
    requires
        0 <= n <= params.len(),
        forall|i: int|
            0 <= i < params.len() ==> of_type(
                (#[trigger] params[i]).1,
                Worth::Number((m.numbers)(params[i].0@)),
            ),
    ensures
        meaning::all_hold(z3_rules::parameter_constraints(params, n), m),
    decreases n,
{
    if n > 0 {
        lemma_parameters_leave_every_value(params, n - 1, m);
        let done = z3_rules::parameter_constraints(params, n - 1);
        let v = z3_rules::parameter_constraints(params, n);
        let name = params[n - 1].0@;
        if z3_tables::non_negative(params[n - 1].1) {
            law_non_negative_types_have_no_negative_values(params[n - 1].1, (m.numbers)(name));
            lemma_not_negative(name, m);
        }
        assert forall|i: int| 0 <= i < v.len() implies meaning::truth(#[trigger] v[i], m) by {
            if i < done.len() {
                assert(v[i] == done[i]);
            }
        }
    }
}

proof fn lemma_not_negative(name: Seq<char>, m: Model)
    ensures
        meaning::truth(z3_rules::not_negative(term::int_var(name)), m) <==> (m.numbers)(name) >= 0,
{
    assert(meaning::number(term::int_var(name), m) == (m.numbers)(name));
    assert(meaning::number(Form::Int(0), m) == 0);
}

proof fn lemma_parts_leave_every_value(elems: Seq<Type>, n: int, m: Model)
    requires
        0 <= n <= elems.len(),
        forall|i: int|
            0 <= i < elems.len() ==> of_type(
                #[trigger] elems[i],
                Worth::Number((m.numbers)("result_"@ + text::decimal(i as nat))),
            ) || z3_tables::bool_like(elems[i]),
    ensures
        meaning::all_hold(z3_rules::part_constraints(elems, n), m),
    decreases n,
{
    if n > 0 {
        lemma_parts_leave_every_value(elems, n - 1, m);
        let name = "result_"@ + text::decimal((n - 1) as nat);
        let t = elems[n - 1];
        let done = z3_rules::part_constraints(elems, n - 1);
        let v = z3_rules::part_constraints(elems, n);
        if !z3_tables::bool_like(t) && z3_tables::non_negative(t) {
            law_non_negative_types_have_no_negative_values(t, (m.numbers)(name));
            lemma_not_negative(name, m);
        }
        assert forall|i: int| 0 <= i < v.len() implies meaning::truth(#[trigger] v[i], m) by {
            if i < done.len() {
                assert(v[i] == done[i]);
            }
        }
    }
}

/// What the solver is told of the types of a function leaves every value that the types allow: no
/// input and no result is shut out.
pub proof fn law_types_leave_every_value(
    params: Seq<(String, Type)>,
    output: Option<Type>,
    m: Model,
)
    requires
        forall|i: int|
            0 <= i < params.len() ==> of_type(
                (#[trigger] params[i]).1,
                Worth::Number((m.numbers)(params[i].0@)),
            ),
        output matches Some(t) ==> match z3_tables::tuple_of(t) {
            Some(elems) => forall|i: int|
                0 <= i < elems.len() ==> of_type(
                    #[trigger] elems[i],
                    Worth::Number((m.numbers)("result_"@ + text::decimal(i as nat))),
                ) || z3_tables::bool_like(elems[i]),
            None => of_type(t, Worth::Number((m.numbers)("result"@))) || z3_tables::bool_like(t),
        },
    ensures
        meaning::all_hold(z3_rules::shared_constraints(params, output), m),
{
    let n = params.len() as int;
    lemma_parameters_leave_every_value(params, n, m);
    let c = z3_rules::parameter_constraints(params, n);
    let v = z3_rules::shared_constraints(params, output);
    if let Some(t) = output {
        let more = match z3_tables::tuple_of(t) {
            Some(elems) => z3_rules::part_constraints(elems, elems.len() as int),
            None => z3_rules::typed_constraint("result"@, t),
        };
        match z3_tables::tuple_of(t) {
            Some(elems) => {
                lemma_parts_leave_every_value(elems, elems.len() as int, m);
            },
            None => {
                if !z3_tables::bool_like(t) && z3_tables::non_negative(t) {
                    law_non_negative_types_have_no_negative_values(t, (m.numbers)("result"@));
                    lemma_not_negative("result"@, m);
                }
            },
        }
        assert(v == c + more);
        assert forall|i: int| 0 <= i < v.len() implies meaning::truth(#[trigger] v[i], m) by {
            if i < c.len() {
                assert(v[i] == c[i]);
            } else {
                assert(v[i] == more[i - c.len()]);
            }
        }
    }
}

/// The type of the whole numbers that are not negative.
pub open spec fn unsigned(t: Type) -> bool {
    t matches Type::Path(name, _) && (name@ == "u8"@ || name@ == "u16"@ || name@ == "u32"@ || name@
        == "u64"@ || name@ == "u128"@ || name@ == "usize"@)
}

proof fn lemma_unsigned_names(name: Seq<char>)
    requires
        name == "u8"@ || name == "u16"@ || name == "u32"@ || name == "u64"@ || name == "u128"@ || name
            == "usize"@,
    ensures
        !z3_tables::signed_name(name),
        !z3_tables::wraps(name),
        name != "bool"@,
        name != "ValidationResult"@,
        name != "MempoolResult"@,
{
    reveal_strlit("u8");
    reveal_strlit("u16");
    reveal_strlit("u32");
    reveal_strlit("u64");
    reveal_strlit("u128");
    reveal_strlit("usize");
    reveal_strlit("i8");
    reveal_strlit("i16");
    reveal_strlit("i32");
    reveal_strlit("i64");
    reveal_strlit("i128");
    reveal_strlit("isize");
    reveal_strlit("Integer");
    reveal_strlit("Result");
    reveal_strlit("Option");
    reveal_strlit("bool");
    reveal_strlit("ValidationResult");
    reveal_strlit("MempoolResult");
    assert(name[0] == 'u');
    assert("i8"@[0] == 'i' && "i16"@[0] == 'i' && "i32"@[0] == 'i' && "i64"@[0] == 'i' && "i128"@[0] == 'i');
    assert("isize"@[0] == 'i' && "Integer"@[0] == 'I' && "Result"@[0] == 'R' && "Option"@[0] == 'O');
    assert("bool"@[0] == 'b' && "ValidationResult"@[0] == 'V' && "MempoolResult"@[0] == 'M');
}

proof fn lemma_unsigned_parameter_is_told(params: Seq<(String, Type)>, n: int, i: int, m: Model)
    requires
        0 <= i < n <= params.len(),
        unsigned(params[i].1),
        meaning::all_hold(z3_rules::parameter_constraints(params, n), m),
    ensures
        (m.numbers)(params[i].0@) >= 0,
    decreases n,
{
    let done = z3_rules::parameter_constraints(params, n - 1);
    let v = z3_rules::parameter_constraints(params, n);
    if i == n - 1 {
        if let Type::Path(name, _) = params[i].1 {
            lemma_unsigned_names(name@);
        }
        assert(v.last() == z3_rules::not_negative(term::int_var(params[i].0@)));
        assert(meaning::truth(v[v.len() - 1], m));
        lemma_not_negative(params[i].0@, m);
    } else {
        assert forall|j: int| 0 <= j < done.len() implies meaning::truth(#[trigger] done[j], m) by {
            assert(v[j] == done[j]);
        }
        lemma_unsigned_parameter_is_told(params, n - 1, i, m);
    }
}

/// The solver is told that a parameter of an unsigned type is not negative, and that a result of
/// one is not.
pub proof fn law_unsigned_values_are_told(
    params: Seq<(String, Type)>,
    output: Option<Type>,
    m: Model,
)
    requires
        meaning::all_hold(z3_rules::shared_constraints(params, output), m),
    ensures
        forall|i: int|
            0 <= i < params.len() && unsigned((#[trigger] params[i]).1) ==> (m.numbers)(params[i].0@)
                >= 0,
        output matches Some(t) ==> (unsigned(t) ==> (m.numbers)("result"@) >= 0),
{
    let n = params.len() as int;
    let c = z3_rules::parameter_constraints(params, n);
    let v = z3_rules::shared_constraints(params, output);
    assert forall|j: int| 0 <= j < c.len() implies meaning::truth(#[trigger] c[j], m) by {
        assert(v[j] == c[j]);
    }
    assert forall|i: int| 0 <= i < params.len() && unsigned((#[trigger] params[i]).1) implies (
    m.numbers)(params[i].0@) >= 0 by {
        lemma_unsigned_parameter_is_told(params, n, i, m);
    }
    if let Some(t) = output {
        if unsigned(t) {
            if let Type::Path(name, _) = t {
                lemma_unsigned_names(name@);
            }
            assert(v.last() == z3_rules::not_negative(term::int_var("result"@)));
            assert(meaning::truth(v[v.len() - 1], m));
            lemma_not_negative("result"@, m);
        }
    }
}

// ---------------------------------------------------------------------------
// Questions
// ---------------------------------------------------------------------------
proof fn lemma_conditions_are_assumed(v: Seq<Contract>, n: int, b: Bindings, m: Model, env: Values)
    requires
        0 <= n <= v.len(),
        represents(b, m, env),
        forall|i: int| 0 <= i < v.len() ==> value(*(#[trigger] v[i]).condition, env) matches Some(
            Worth::Truth(_),
        ),
    ensures
        represents(z3_verifier::conditions(v, n, b).1, m, env),
        keeps(b, z3_verifier::conditions(v, n, b).1),
        meaning::all_hold(z3_verifier::conditions(v, n, b).0, m) <==> forall|i: int|
            0 <= i < n ==> value(*(#[trigger] v[i]).condition, env) == Some(Worth::Truth(true)),
    decreases n,
{
    if n > 0 {
        lemma_conditions_are_assumed(v, n - 1, b, m, env);
        let (done, c) = z3_verifier::conditions(v, n - 1, b);
        let all = z3_verifier::conditions(v, n, b).0;
        let e = *v[n - 1].condition;
        law_translation_keeps_values(e, c, m, env);
        let f = z3_rules::expr(e, c).0->Ok_0;
        assert(worth(f, m) is Truth);
        assert(all == done.push(f));
        assert forall|x: Seq<char>|
            #![trigger vars::bound(z3_verifier::conditions(v, n, b).1, x)]
            vars::bound(b, x) is Some implies vars::bound(z3_verifier::conditions(v, n, b).1, x)
            == vars::bound(b, x) by {
            assert(vars::bound(c, x) == vars::bound(b, x));
        }
        if meaning::all_hold(all, m) {
            assert forall|i: int| 0 <= i < done.len() implies meaning::truth(#[trigger] done[i], m) by {
                assert(all[i] == done[i]);
            }
            assert(meaning::truth(all[all.len() - 1], m));
        }
        if meaning::all_hold(done, m) && meaning::truth(f, m) {
            assert forall|i: int| 0 <= i < all.len() implies meaning::truth(#[trigger] all[i], m) by {
                if i < done.len() {
                    assert(all[i] == done[i]);
                }
            }
        }
    }
}

spec fn stated_by(contract: Contract) -> Expr {
    *contract.condition
}

/// A model of the question on a postcondition is a run of the function that breaks it: the
/// preconditions hold, the body returns the result, and the postcondition is false.
pub proof fn law_models_are_failing_runs(
    contract: Contract,
    func: FnItem,
    requires_contracts: Seq<Contract>,
    facts: Seq<CalleeFact>,
    q: QueryView,
    m: Model,
    env: Values,
    s: Form,
)
    requires
        contract.contract_type == ContractType::Ensures,
        z3_verifier::question(contract, Some(&func), requires_contracts, facts) == Ok::<
            QueryView,
            Seq<char>,
        >(q),
        represents(z3_rules::shared_bindings(func.params@, func.output), m, env),
        vars::bound(z3_rules::shared_bindings(func.params@, func.output), "result"@) == Some(s),
        value(*contract.condition, env) is Some,
        forall|i: int|
            0 <= i < requires_contracts.len() ==> value(
                *(#[trigger] requires_contracts[i]).condition,
                env,
            ) matches Some(Worth::Truth(_)),
        run(func.body, 0, env, None, false, s.sort() == Sort::Bool) is Some,
        meaning::all_hold(q.assertions, m),
    ensures
        value(*contract.condition, env) == Some(Worth::Truth(false)),
        forall|i: int|
            0 <= i < requires_contracts.len() ==> value(
                *(#[trigger] requires_contracts[i]).condition,
                env,
            ) == Some(Worth::Truth(true)),
        run(func.body, 0, env, None, false, s.sort() == Sort::Bool)->0 == Some(worth(s, m)),
        meaning::all_hold(z3_rules::shared_constraints(func.params@, func.output), m),
{
    let b0 = z3_rules::shared_bindings(func.params@, func.output);
    let types = z3_rules::shared_constraints(func.params@, func.output);
    let e = stated_by(contract);
    law_translation_keeps_values(e, b0, m, env);
    let (r, b1) = z3_rules::expr(e, b0);
    let c = r->Ok_0;
    let k = requires_contracts.len() as int;
    lemma_conditions_are_assumed(requires_contracts, k, b1, m, env);
    let (pre, b2) = z3_verifier::conditions(requires_contracts, k, b1);
    assert(vars::bound(b1, "result"@) == Some(s));
    assert(vars::bound(b2, "result"@) == Some(s));
    law_body_gives_the_result(func.body, b2, m, env, s);
    let shifts = z3_verifier::shift_statements();
    let added = z3_verifier::body_assertions(func, facts, b2).0;
    let body = z3_rules::block_formula(func.body, b2).0->Ok_0->0;
    assert(added[0] == body);
    let v = (types + pre + shifts + added).push(term::negated(c));
    assert(q.assertions == v);
    let n1 = types.len() as int;
    let n2 = n1 + pre.len();
    let n3 = n2 + shifts.len();
    assert forall|i: int| 0 <= i < types.len() implies meaning::truth(#[trigger] types[i], m) by {
        assert(v[i] == types[i]);
    }
    assert forall|i: int| 0 <= i < pre.len() implies meaning::truth(#[trigger] pre[i], m) by {
        assert(v[n1 + i] == pre[i]);
    }
    assert(v[n3] == body);
    assert(v[v.len() - 1] == term::negated(c));
    assert(meaning::truth(v[v.len() - 1], m));
    assert(meaning::truth(term::negated(c), m) == !meaning::truth(c, m));
}

// ---------------------------------------------------------------------------
// Tests and matches
// ---------------------------------------------------------------------------
/// Two calls of methods on one receiver.
pub open spec fn same_receiver(x: Expr, y: Expr) -> bool {
    x matches Expr::MethodCall(r, _, _) && (y matches Expr::MethodCall(s, _, _) && r == s)
}

/// The name of the method that is called.
pub open spec fn method_name(x: Expr) -> Seq<char> {
    match x {
        Expr::MethodCall(_, name, _) => name@,
        _ => seq![],
    }
}

proof fn lemma_negated(f: Form, m: Model)
    ensures
        meaning::truth(term::negated(f), m) == !meaning::truth(f, m),
{
}

proof fn lemma_test_names()
    ensures
        "is_some"@ != "is_none"@,
        "is_ok"@ != "is_err"@,
        "is_ok"@ != "is_some"@,
        "is_ok"@ != "is_none"@,
        "is_err"@ != "is_some"@,
        "is_err"@ != "is_none"@,
        "is_empty"@ != "is_some"@,
        "is_empty"@ != "is_none"@,
        "is_empty"@ != "is_ok"@,
        "is_empty"@ != "is_err"@,
        "is_empty"@ != "unwrap"@,
{
    reveal_strlit("is_some");
    reveal_strlit("is_none");
    reveal_strlit("is_ok");
    reveal_strlit("is_err");
    reveal_strlit("is_empty");
    reveal_strlit("unwrap");
    assert("is_some"@[3] == 's' && "is_none"@[3] == 'n');
    assert("is_ok"@.len() == 5 && "is_err"@.len() == 6 && "is_some"@.len() == 7 && "is_none"@.len() == 7);
    assert("is_empty"@.len() == 8 && "unwrap"@.len() == 6);
}

/// A value that is there is not missing, and a success is no failure: of one receiver `is_none` is
/// the opposite of `is_some`, and `is_err` that of `is_ok`, and each is read exactly where the
/// other one is.
pub proof fn law_opposite_tests_differ(x: Expr, y: Expr, b: Bindings, m: Model)
    requires
        same_receiver(x, y),
        (method_name(x) == "is_some"@ && method_name(y) == "is_none"@) || (method_name(x) == "is_ok"@
            && method_name(y) == "is_err"@),
    ensures
        z3_rules::test_method(x, b).0 is Ok <==> z3_rules::test_method(y, b).0 is Ok,
        z3_rules::test_method(x, b).0 matches Ok(f) ==> (z3_rules::test_method(y, b).0 matches Ok(g)
            && meaning::truth(g, m) == !meaning::truth(f, m)),
        z3_rules::test_method(x, b).1 == z3_rules::test_method(y, b).1,
{
    lemma_test_names();
    if let Ok(f) = z3_rules::test_method(x, b).0 {
        lemma_negated(f, m);
    }
}

/// A collection is empty exactly where its length is zero.
pub proof fn law_empty_means_no_length(x: Expr, b: Bindings, m: Model)
    requires
        method_name(x) == "is_empty"@,
        x is MethodCall,
    ensures
        ({
            let receiver = x->MethodCall_0;
            let length = z3_rules::int_entry(
                z3_rules::expr(*receiver, b).1,
                z3_tables::length_name(z3_tables::hint(*receiver)),
            ).0->Ok_0;
            z3_rules::test_method(x, b).0 matches Ok(f) ==> (meaning::truth(f, m)
                <==> meaning::number(length, m) == 0)
        }),
{
    lemma_test_names();
    assert(meaning::number(Form::Int(0), m) == 0);
    assert(Form::Int(0).sort() == Sort::Int);
}

proof fn lemma_both(f: Form, g: Form, m: Model)
    ensures
        meaning::truth(Form::All(seq![f, g]), m) <==> meaning::truth(f, m) && meaning::truth(g, m),
{
    let v = seq![f, g];
    let o = Form::All(v);
    assert(o->All_0 == v);
    if meaning::truth(o, m) {
        assert(meaning::truth(o->All_0[0], m));
        assert(meaning::truth(o->All_0[1], m));
    }
}

/// A number is in a range exactly where it is not below its start, and not beyond its end or,
/// where the end does not belong to it, below its end.
pub proof fn law_range_holds_what_lies_between(
    receiver: Expr,
    low: Expr,
    high: Expr,
    closed: bool,
    base: Seq<char>,
    x: Form,
    b: Bindings,
    m: Model,
    env: Values,
    l: int,
    h: int,
)
    requires
        receiver matches Expr::Range(Some(s), Some(t), c) && *s == low && *t == high && c == closed,
        represents(b, m, env),
        value(low, env) == Some(Worth::Number(l)),
        value(high, env) == Some(Worth::Number(h)),
        x.sort() == Sort::Int,
    ensures
        z3_rules::contained(receiver, base, x, b).0 matches Ok(f) && (meaning::truth(f, m) <==> l
            <= meaning::number(x, m) && if closed {
            meaning::number(x, m) <= h
        } else {
            meaning::number(x, m) < h
        }),
{
    law_translation_keeps_values(low, b, m, env);
    let (lo, b1) = z3_rules::expr(low, b);
    law_translation_keeps_values(high, b1, m, env);
    let lo = lo->Ok_0;
    let hi = z3_rules::expr(high, b1).0->Ok_0;
    assert(meaning::number(lo, m) == l && meaning::number(hi, m) == h);
    let end = if closed {
        hi
    } else {
        term::binary(TermOp::Minus, hi, Form::Int(1))
    };
    assert(meaning::number(Form::Int(1), m) == 1);
    assert(meaning::number(end, m) == if closed {
        h
    } else {
        h - 1
    });
    let f = term::binary(TermOp::Le, lo, x);
    let g = term::binary(TermOp::Le, x, end);
    assert(meaning::truth(f, m) <==> meaning::number(lo, m) <= meaning::number(x, m));
    assert(meaning::truth(g, m) <==> meaning::number(x, m) <= meaning::number(end, m));
    lemma_both(f, g, m);
}

/// A match of an option or a result takes the arm for the value where there is one, and the other
/// arm where there is none.
pub proof fn law_match_takes_its_arm(
    v: Vec<Arm>,
    base: Seq<char>,
    x: Seq<char>,
    some: int,
    none: int,
    b: Bindings,
    m: Model,
    env: Values,
    p: int,
    q: int,
)
    requires
        0 <= some < v@.len(),
        0 <= none < v@.len(),
        represents(b, m, env),
        value(v@[some].body, env) == Some(Worth::Number(p)),
        value(v@[none].body, env) == Some(Worth::Number(q)),
        vars::bound(
            z3_rules::expr(
                v@[none].body,
                z3_rules::expr(v@[some].body, z3_rules::int_entry(b, x).1).1,
            ).1,
            base + "_is_some"@,
        ) is None,
    ensures
        z3_rules::option_match(v, base, x, some, none, b).0 matches Ok(f) && meaning::number(f, m) == if (
        m.truths)(base + "_is_some"@) {
            p
        } else {
            q
        },
{
    lemma_entry(b, x, m, env);
    let b1 = z3_rules::int_entry(b, x).1;
    law_translation_keeps_values(v@[some].body, b1, m, env);
    let b2 = z3_rules::expr(v@[some].body, b1).1;
    law_translation_keeps_values(v@[none].body, b2, m, env);
    let t = z3_rules::expr(v@[some].body, b1).0->Ok_0;
    let o = z3_rules::expr(v@[none].body, b2).0->Ok_0;
    assert(meaning::number(t, m) == p && meaning::number(o, m) == q);
    let c = term::bool_var(base + "_is_some"@);
    assert(meaning::truth(c, m) == (m.truths)(base + "_is_some"@));
    assert(meaning::number(term::choice(c, t, o), m) == if meaning::truth(c, m) {
        meaning::number(t, m)
    } else {
        meaning::number(o, m)
    });
}

/// The two arms of a match of an option or a result are told apart by their patterns, in one order
/// or the other: `Some(x)` or `Ok(x)`, which binds the name, and `None` or `Err(..)`.
pub proof fn law_arms_are_told_apart(v: Seq<Arm>)
    ensures
        z3_rules::option_arms(v) matches Some((x, some, none)) ==> {
            &&& v.len() == 2
            &&& some != none
            &&& 0 <= some < 2 && 0 <= none < 2
            &&& v[some].pat matches Pat::TupleStruct(path, elems) && (z3_tables::path_last(path) == "Some"@
                || z3_tables::path_last(path) == "Ok"@) && (elems@.len() == 1 && (
            elems@[0] matches Pat::Ident(s) && s@ == x))
            &&& match v[none].pat {
                Pat::TupleStruct(path, _) => z3_tables::path_last(path) == "Err"@,
                Pat::Ident(s) => s@ == "None"@,
                Pat::Path(path) => z3_tables::path_last(path) == "None"@,
                _ => false,
            }
        },
{
    reveal_strlit("Some");
    reveal_strlit("Ok");
    reveal_strlit("Err");
    assert("Some"@.len() == 4 && "Ok"@.len() == 2 && "Err"@.len() == 3);
}

// ---------------------------------------------------------------------------
// Assignments
// ---------------------------------------------------------------------------
/// The name that is assigned to and what stands on the right.
pub open spec fn assigns(e: Expr, x: Seq<char>, right: Expr) -> bool {
    match e {
        Expr::Assign(left, r, _) => *left is Path && z3_tables::path_name(left->Path_0) == x && *r == right,
        Expr::Binary(BinOp::AddAssign(_), left, r) => *left is Path && z3_tables::path_name(left->Path_0)
            == x && *r == right,
        Expr::Binary(BinOp::SubAssign(_), left, r) => *left is Path && z3_tables::path_name(left->Path_0)
            == x && *r == right,
        _ => false,
    }
}

/// After an assignment the name has the value of the right side; after an addition or a subtraction
/// it has the sum or the difference of its value and that of the right side. Other names keep
/// theirs.
pub proof fn law_assignments_change_the_name(
    e: Expr,
    x: Seq<char>,
    right: Expr,
    b: Bindings,
    m: Model,
    env: Values,
    a: int,
    c: int,
)
    requires
        assigns(e, x, right),
        represents(b, m, env),
        env(x) == Some(Worth::Number(a)),
        value(right, env) == Some(Worth::Number(c)),
    ensures
        e is Assign ==> represents(z3_rules::assigned(e, b), m, with(env, x, Worth::Number(c))),
        e matches Expr::Binary(BinOp::AddAssign(_), _, _) ==> represents(
            z3_rules::assigned(e, b),
            m,
            with(env, x, Worth::Number(a + c)),
        ),
        e matches Expr::Binary(BinOp::SubAssign(_), _, _) ==> represents(
            z3_rules::assigned(e, b),
            m,
            with(env, x, Worth::Number(a - c)),
        ),
{
    law_translation_keeps_values(right, b, m, env);
    let (r, b1) = z3_rules::expr(right, b);
    let r = r->Ok_0;
    let l = match vars::bound(b, x) {
        Some(f) => f,
        None => term::int_var(x),
    };
    assert(free_name(x));
    assert(worth(l, m) == Worth::Number(a)) by {
        assert(meaning::number(term::int_var(x), m) == (m.numbers)(x));
    }
    assert(l.sort() == Sort::Int && r.sort() == Sort::Int);
    let sum = term::binary(TermOp::Plus, l, r);
    let difference = term::binary(TermOp::Minus, l, r);
    assert(meaning::number(sum, m) == a + c && sum.sort() == Sort::Int);
    assert(meaning::number(difference, m) == a - c && difference.sort() == Sort::Int);
    lemma_bind(b1, x, r, m, env);
    lemma_bind(b1, x, sum, m, env);
    lemma_bind(b1, x, difference, m, env);
}

} // verus!
