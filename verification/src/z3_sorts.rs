//! The rules make terms in which every operation stands on operands of the sorts that it takes.
use vstd::prelude::*;
use vstd::arithmetic::power2;
use crate::ast::{Arm, BinOp, Block, Callee, Expr, FieldValue, FnItem, Member, Pat, Stmt, Type};
use crate::contracts::Contract;
use crate::term;
use crate::term::{well_sorted, Form, Sort, TermOp};
use crate::text;
use crate::vars;
use crate::vars::Bindings;
use crate::z3_rules;
use crate::z3_rules::{Arms, Exits, Fault, FormulaOutcome, Outcome, StmtOutcome};
use crate::z3_tables;
use crate::z3_verifier;
use crate::z3_verifier::CalleeFact;

verus! {

/// A term that can be asserted.
pub open spec fn statable(f: Form) -> bool {
    well_sorted(f) && f.sort() == Sort::Bool
}

/// Terms that can be asserted.
pub open spec fn all_statable(v: Seq<Form>) -> bool {
    forall|i: int| 0 <= i < v.len() ==> statable(#[trigger] v[i])
}

/// Names are bound to well-sorted terms.
pub open spec fn good(b: Bindings) -> bool {
    forall|i: int| 0 <= i < b.len() ==> well_sorted((#[trigger] b[i]).1)
}

/// A well-sorted term or a fault, and good bindings.
pub open spec fn good_value(o: Outcome) -> bool {
    good(o.1) && (o.0 matches Ok(f) ==> well_sorted(f))
}

/// A formula that can be asserted, none, or a fault, and good bindings.
pub open spec fn good_formula(o: FormulaOutcome) -> bool {
    good(o.1) && (o.0 matches Ok(Some(f)) ==> statable(f))
}

/// Well-sorted integers.
pub open spec fn all_integers(v: Seq<Form>) -> bool {
    forall|i: int| 0 <= i < v.len() ==> well_sorted(#[trigger] v[i]) && v[i].sort() == Sort::Int
}

/// Early returns and guards that can be asserted.
pub open spec fn good_exits(x: Exits) -> bool {
    all_statable(x.guards) && forall|i: int|
        0 <= i < x.early.len() ==> statable((#[trigger] x.early[i]).0) && statable(x.early[i].1)
}

// ---------------------------------------------------------------------------
// Bindings
// ---------------------------------------------------------------------------
proof fn lemma_bound(b: Bindings, name: Seq<char>)
    requires
        good(b),
    ensures
        vars::bound(b, name) matches Some(f) ==> well_sorted(f),
{
    vars::lemma_slot(b, name);
}

proof fn lemma_bind(b: Bindings, name: Seq<char>, f: Form)
    requires
        good(b),
        well_sorted(f),
    ensures
        good(vars::bind(b, name, f)),
{
    vars::lemma_slot(b, name);
}

proof fn lemma_entry(b: Bindings, name: Seq<char>, f: Form)
    requires
        good(b),
        well_sorted(f),
    ensures
        well_sorted(vars::entry(b, name, f).0),
        good(vars::entry(b, name, f).1),
{
    lemma_bound(b, name);
    lemma_bind(b, name, f);
}

proof fn lemma_rebind(b: Bindings, name: Seq<char>, before: Option<Form>)
    requires
        good(b),
        before matches Some(f) ==> well_sorted(f),
    ensures
        good(vars::rebind(b, name, before)),
{
    vars::lemma_slot(b, name);
    if let Some(f) = before {
        lemma_bind(b, name, f);
    } else {
        let c = vars::unbind(b, name);
        let s = vars::slot(b, name);
        assert forall|i: int| 0 <= i < c.len() implies well_sorted((#[trigger] c[i]).1) by {
            if s < b.len() {
                assert(c[i] == if i < s {
                    b[i]
                } else {
                    b[i + 1]
                });
            }
        }
    }
}

proof fn lemma_int_entry(b: Bindings, name: Seq<char>)
    requires
        good(b),
    ensures
        good_value(z3_rules::int_entry(b, name)),
{
    lemma_entry(b, name, term::int_var(name));
}

proof fn lemma_bool_entry(b: Bindings, name: Seq<char>)
    requires
        good(b),
    ensures
        good_value(z3_rules::bool_entry(b, name)),
{
    lemma_entry(b, name, term::bool_var(name));
}

proof fn lemma_truth_entry(b: Bindings, name: Seq<char>, fault: Seq<char>)
    requires
        good(b),
    ensures
        good_value(z3_rules::truth_entry(b, name, fault)),
        z3_rules::truth_entry(b, name, fault).0 matches Ok(f) ==> f.sort() == Sort::Bool,
{
    lemma_entry(b, name, term::bool_var(name));
}

proof fn lemma_fresh(b: Bindings, prefix: Seq<char>)
    requires
        good(b),
    ensures
        good_value(z3_rules::fresh(b, prefix)),
{
    lemma_int_entry(b, prefix + text::decimal(b.len()));
}

// ---------------------------------------------------------------------------
// Operators
// ---------------------------------------------------------------------------
proof fn lemma_as_integer(a: Form)
    requires
        well_sorted(a),
    ensures
        well_sorted(term::as_integer(a)),
        term::as_integer(a).sort() == Sort::Int,
{
    reveal_with_fuel(well_sorted, 2);
}

proof fn lemma_as_truth(a: Form)
    requires
        well_sorted(a),
    ensures
        statable(term::as_truth(a)),
{
    reveal_with_fuel(well_sorted, 3);
}

proof fn lemma_ok_code(a: Form)
    requires
        statable(a),
    ensures
        well_sorted(z3_rules::ok_code(a)),
        z3_rules::ok_code(a).sort() == Sort::Int,
{
    reveal_with_fuel(well_sorted, 2);
}

proof fn lemma_masked(a: Form, mask: Option<i64>)
    requires
        well_sorted(a),
        a.sort() == Sort::Int,
    ensures
        z3_rules::masked(a, mask) matches Some(f) ==> well_sorted(f),
{
    reveal_with_fuel(well_sorted, 4);
}

proof fn lemma_mixed_equation(l: Form, r: Form)
    requires
        well_sorted(l),
        well_sorted(r),
    ensures
        statable(z3_rules::mixed_equation(l, r)),
{
    lemma_as_integer(l);
    lemma_as_integer(r);
}

proof fn lemma_binary_op(op: BinOp, l: Form, r: Form)
    requires
        well_sorted(l),
        well_sorted(r),
    ensures
        z3_rules::binary_op(op, l, r) matches Ok(f) ==> well_sorted(f),
{
    lemma_as_integer(l);
    lemma_as_integer(r);
    lemma_mixed_equation(l, r);
    reveal_with_fuel(well_sorted, 2);
}

proof fn lemma_binary_with_literals(
    op: BinOp,
    l: Form,
    r: Form,
    left: Option<i64>,
    right: Option<i64>,
)
    requires
        well_sorted(l),
        well_sorted(r),
    ensures
        z3_rules::binary_with_literals(op, l, r, left, right) matches Ok(f) ==> well_sorted(f),
{
    lemma_binary_op(op, l, r);
    if l.sort() == Sort::Int && r.sort() == Sort::Int {
        lemma_masked(l, right);
        lemma_masked(r, left);
    }
    reveal_with_fuel(well_sorted, 2);
}

proof fn lemma_binary_method_value(m: Seq<char>, l: Form, r: Form)
    requires
        well_sorted(l),
        well_sorted(r),
        l.sort() == Sort::Int,
        r.sort() == Sort::Int,
    ensures
        well_sorted(z3_rules::binary_method_value(m, l, r)),
{
    reveal_with_fuel(well_sorted, 4);
}

// ---------------------------------------------------------------------------
// Towers, exits and branches
// ---------------------------------------------------------------------------
proof fn lemma_tower(scrutinee: Form, arms: Seq<(int, Form)>, i: int, last: Form, sort: Sort)
    requires
        well_sorted(scrutinee),
        scrutinee.sort() == Sort::Int,
        well_sorted(last),
        last.sort() == sort,
        forall|k: int|
            0 <= k < arms.len() ==> well_sorted((#[trigger] arms[k]).1) && arms[k].1.sort() == sort,
    ensures
        well_sorted(z3_rules::tower(scrutinee, arms, i, last)),
        z3_rules::tower(scrutinee, arms, i, last).sort() == sort,
    decreases arms.len() - i,
{
    if 0 <= i < arms.len() {
        lemma_tower(scrutinee, arms, i + 1, last, sort);
        let test = term::binary(TermOp::Eq, scrutinee, Form::Int(arms[i].0));
        assert(statable(test)) by {
            reveal_with_fuel(well_sorted, 2);
        }
    }
}

/// Numbered arms with well-sorted values: all of them integers, unless `truth` is set.
spec fn good_arms(arms: Seq<(int, Form)>, default: Option<Form>, truth: bool) -> bool {
    &&& forall|k: int|
        0 <= k < arms.len() ==> well_sorted((#[trigger] arms[k]).1) && (truth || arms[k].1.sort()
            == Sort::Int)
    &&& default matches Some(d) ==> well_sorted(d) && (truth || d.sort() == Sort::Int)
}

proof fn lemma_tower_of(
    scrutinee: Form,
    arms: Seq<(int, Form)>,
    default: Option<Form>,
    truth: bool,
)
    requires
        well_sorted(scrutinee),
        scrutinee.sort() == Sort::Int,
        good_arms(arms, default, truth),
        arms.len() > 0,
    ensures
        well_sorted(z3_rules::tower_of(scrutinee, arms, default, truth)),
{
    let (front, last) = match default {
        Some(d) => (arms, d),
        None => (arms.drop_last(), arms.last().1),
    };
    assert(good_arms(front, Some(last), truth)) by {
        assert(forall|k: int| 0 <= k < front.len() ==> front[k] == arms[k]);
        if default is None {
            assert(arms[arms.len() - 1].1 == last);
        }
    }
    if truth {
        let w = z3_rules::truth_arms(front);
        assert forall|k: int| 0 <= k < w.len() implies well_sorted((#[trigger] w[k]).1)
            && w[k].1.sort() == Sort::Bool by {
            lemma_as_truth(front[k].1);
        }
        lemma_as_truth(last);
        lemma_tower(scrutinee, w, 0, term::as_truth(last), Sort::Bool);
    } else {
        lemma_tower(scrutinee, front, 0, last, Sort::Int);
    }
}

proof fn lemma_implications(early: Seq<(Form, Form)>)
    requires
        forall|i: int|
            0 <= i < early.len() ==> statable((#[trigger] early[i]).0) && statable(early[i].1),
    ensures
        all_statable(z3_rules::implications(early)),
        all_statable(z3_rules::none_of(early)),
{
    let v = z3_rules::implications(early);
    assert forall|i: int| 0 <= i < v.len() implies statable(#[trigger] v[i]) by {
        assert(statable(early[i].0) && statable(early[i].1));
    }
    let w = z3_rules::none_of(early);
    assert forall|i: int| 0 <= i < w.len() implies statable(#[trigger] w[i]) by {
        assert(statable(early[i].0));
    }
}

proof fn lemma_all(v: Seq<Form>)
    requires
        all_statable(v),
    ensures
        statable(Form::All(v)),
{
    assert forall|i: int| 0 <= i < v.len() implies well_sorted(#[trigger] v[i]) && v[i].sort()
        == Sort::Bool by {
        assert(statable(v[i]));
    }
}

proof fn lemma_with_early(early: Seq<(Form, Form)>, f: Form)
    requires
        forall|i: int|
            0 <= i < early.len() ==> statable((#[trigger] early[i]).0) && statable(early[i].1),
        statable(f),
    ensures
        statable(z3_rules::with_early(early, f)),
{
    lemma_implications(early);
    lemma_all(z3_rules::none_of(early));
    let last = term::binary(TermOp::Implies, Form::All(z3_rules::none_of(early)), f);
    assert(statable(last));
    let v = z3_rules::implications(early).push(last);
    assert forall|i: int| 0 <= i < v.len() implies statable(#[trigger] v[i]) by {
        if i < early.len() {
            assert(v[i] == z3_rules::implications(early)[i]);
        }
    }
    lemma_all(v);
}

proof fn lemma_with_guards(guards: Seq<Form>, f: Option<Form>)
    requires
        all_statable(guards),
        f matches Some(g) ==> statable(g),
    ensures
        z3_rules::with_guards(guards, f) matches Some(g) ==> statable(g),
{
    let w = guards.map_values(|g: Form| term::negated(g));
    assert forall|i: int| 0 <= i < w.len() implies statable(#[trigger] w[i]) by {
        assert(statable(guards[i]));
    }
    lemma_all(w);
    if let Some(g) = f {
        lemma_all(seq![z3_rules::none_hold(guards), g]);
    }
}

proof fn lemma_branches(c: Form, then: Option<Form>, other: Option<Form>)
    requires
        statable(c),
        then matches Some(t) ==> statable(t),
        other matches Some(o) ==> statable(o),
    ensures
        z3_rules::branches(c, then, other) matches Some(f) ==> statable(f),
{
    assert(statable(term::negated(c)));
    if let Some(t) = then {
        assert(statable(term::binary(TermOp::Implies, c, t)));
    }
    if let Some(o) = other {
        assert(statable(term::binary(TermOp::Implies, term::negated(c), o)));
    }
    if let (Some(t), Some(o)) = (then, other) {
        lemma_all(
            seq![
                term::binary(TermOp::Implies, c, t),
                term::binary(TermOp::Implies, term::negated(c), o),
            ],
        );
    }
}

// ---------------------------------------------------------------------------
// Expressions
// ---------------------------------------------------------------------------
/// An expression becomes a well-sorted term, or a fault.
pub proof fn law_expressions_are_well_sorted(e: Expr, b: Bindings)
    requires
        good(b),
    ensures
        good_value(z3_rules::expr(e, b)),
    decreases e, 2int, 0int,
{
    match e {
        Expr::Lit(_) => {},
        Expr::Path(p) => {
            lemma_int_entry(b, z3_tables::path_name(p));
        },
        Expr::Binary(op, l, r) => {
            law_expressions_are_well_sorted(*l, b);
            let (lv, b1) = z3_rules::expr(*l, b);
            if let Ok(lf) = lv {
                law_expressions_are_well_sorted(*r, b1);
                if let Ok(rf) = z3_rules::expr(*r, b1).0 {
                    lemma_binary_with_literals(
                        op,
                        lf,
                        rf,
                        z3_tables::literal_of(*l),
                        z3_tables::literal_of(*r),
                    );
                }
            }
        },
        Expr::MethodCall(_, _, _) => {
            lemma_method_call(e, b);
        },
        Expr::Call(_, _) => {
            lemma_call(e, b);
        },
        Expr::Unary(_, a) => {
            law_expressions_are_well_sorted(*a, b);
        },
        Expr::Paren(a) => {
            law_expressions_are_well_sorted(*a, b);
        },
        Expr::Cast(a) => {
            law_expressions_are_well_sorted(*a, b);
        },
        Expr::Reference(a) => {
            law_expressions_are_well_sorted(*a, b);
        },
        Expr::Try(a) => {
            law_expressions_are_well_sorted(*a, b);
        },
        Expr::Tuple(elems) => {
            lemma_fresh(b, "tuple_"@);
            if elems@.len() > 0 {
                law_expressions_are_well_sorted(elems@[0], b);
            }
        },
        Expr::Array(_) => {
            lemma_fresh(b, "array_"@);
        },
        Expr::Repeat(_, n) => {
            law_expressions_are_well_sorted(*n, b);
            lemma_fresh(z3_rules::expr(*n, b).1, "repeat_"@);
        },
        Expr::Range(start, end, _) => {
            let b1 = match start {
                Some(s) => {
                    law_expressions_are_well_sorted(*s, b);
                    z3_rules::expr(*s, b).1
                },
                None => b,
            };
            let b2 = match end {
                Some(s) => {
                    law_expressions_are_well_sorted(*s, b1);
                    z3_rules::expr(*s, b1).1
                },
                None => b1,
            };
            lemma_fresh(b2, "range_"@);
        },
        Expr::Field(base, m) => {
            lemma_int_entry(b, z3_tables::field_name(*base, m));
        },
        Expr::Index(a, i) => {
            law_expressions_are_well_sorted(*a, b);
            let b1 = z3_rules::expr(*a, b).1;
            law_expressions_are_well_sorted(*i, b1);
            lemma_fresh(z3_rules::expr(*i, b1).1, "index_"@);
        },
        Expr::Block(block) => {
            lemma_locals(block, 0, b);
            lemma_tail_value(block, z3_rules::locals(block, 0, b));
        },
        Expr::Match(_, _) => {
            lemma_match_expr(e, b);
        },
        Expr::ForLoop(a, body) => {
            law_expressions_are_well_sorted(*a, b);
            let b1 = z3_rules::expr(*a, b).1;
            lemma_block_formula(body, b1);
            lemma_fresh(z3_rules::block_formula(body, b1).1, "for_loop_"@);
        },
        Expr::While(a, body) => {
            law_expressions_are_well_sorted(*a, b);
            let b1 = z3_rules::expr(*a, b).1;
            lemma_block_formula(body, b1);
            lemma_fresh(z3_rules::block_formula(body, b1).1, "while_loop_"@);
        },
        Expr::Loop(body) => {
            lemma_block_formula(body, b);
            lemma_fresh(z3_rules::block_formula(body, b).1, "loop_"@);
        },
        Expr::Closure(_, body) => {
            law_expressions_are_well_sorted(*body, b);
            lemma_fresh(z3_rules::expr(*body, b).1, "closure_"@);
        },
        Expr::If(_, _, _) => {
            lemma_if_value(e, b);
        },
        Expr::Let(p, _, a) => {
            if let Some((binds, suffix, positive)) = z3_tables::let_pattern(p) {
                law_expressions_are_well_sorted(*a, b);
                let b1 = z3_rules::expr(*a, b).1;
                let name = z3_tables::hint(*a) + "_"@ + suffix;
                let fault = suffix + ": expected Bool"@;
                lemma_truth_entry(b1, name, fault);
                let b2 = z3_rules::truth_entry(b1, name, fault).1;
                if let Some(x) = binds {
                    lemma_int_entry(b2, x);
                }
            }
        },
        Expr::Struct(fields) => {
            lemma_struct_fields(fields, 0, None, b);
            lemma_fresh(z3_rules::struct_fields(fields, 0, None, b).1, "struct_"@);
        },
        Expr::Assign(_, _, _) => {},
        Expr::Return(_, _) => {},
        Expr::Other(_) => {},
    }
}

proof fn lemma_locals(block: Block, i: int, b: Bindings)
    requires
        good(b),
    ensures
        good(z3_rules::locals(block, i, b)),
    decreases block, 0int, block.stmts@.len() - i,
{
    if 0 <= i < block.stmts@.len() {
        let next = match block.stmts@[i] {
            Stmt::Local(Pat::Ident(x), Some(init)) => {
                law_expressions_are_well_sorted(init, b);
                match z3_rules::expr(init, b) {
                    (Ok(f), c) => {
                        lemma_bind(c, x@, f);
                        vars::bind(c, x@, f)
                    },
                    (Err(_), c) => c,
                }
            },
            _ => b,
        };
        lemma_locals(block, i + 1, next);
    }
}

proof fn lemma_tail_value(block: Block, b: Bindings)
    requires
        good(b),
    ensures
        good_value(z3_rules::tail_value(block, b)),
    decreases block, 0int, 0int,
{
    if block.stmts@.len() > 0 {
        if let Stmt::Tail(e, _) = block.stmts@[block.stmts@.len() - 1] {
            law_expressions_are_well_sorted(e, b);
        }
    }
}

proof fn lemma_struct_fields(fields: Vec<FieldValue>, i: int, first: Option<Form>, b: Bindings)
    requires
        good(b),
        first matches Some(f) ==> well_sorted(f),
    ensures
        good(z3_rules::struct_fields(fields, i, first, b).1),
        z3_rules::struct_fields(fields, i, first, b).0 matches Some(f) ==> well_sorted(f),
    decreases fields, 0int, fields@.len() - i,
{
    if 0 <= i < fields@.len() {
        match fields@[i].member {
            Member::Named(name) => {
                law_expressions_are_well_sorted(fields@[i].expr, b);
                match z3_rules::expr(fields@[i].expr, b) {
                    (Ok(f), c) => {
                        lemma_entry(c, name@, f);
                        let head = match first {
                            Some(g) => Some(g),
                            None => Some(f),
                        };
                        lemma_struct_fields(fields, i + 1, head, vars::entry(c, name@, f).1);
                    },
                    (Err(_), c) => {
                        lemma_struct_fields(fields, i + 1, first, c);
                    },
                }
            },
            Member::Unnamed(_) => {
                lemma_struct_fields(fields, i + 1, first, b);
            },
        }
    }
}

proof fn lemma_arguments_bound(args: Vec<Expr>, i: int, b: Bindings)
    requires
        good(b),
    ensures
        good(z3_rules::arguments_bound(args, i, b)),
    decreases args, 0int, args@.len() - i,
{
    if 0 <= i < args@.len() {
        law_expressions_are_well_sorted(args@[i], b);
        lemma_arguments_bound(args, i + 1, z3_rules::expr(args@[i], b).1);
    }
}

proof fn lemma_arguments(args: Vec<Expr>, i: int, done: Seq<Form>, b: Bindings)
    requires
        good(b),
        all_integers(done),
    ensures
        good(z3_rules::arguments(args, i, done, b).1),
        z3_rules::arguments(args, i, done, b).0 matches Ok(v) ==> all_integers(v),
    decreases args, 0int, args@.len() - i,
{
    if 0 <= i < args@.len() {
        law_expressions_are_well_sorted(args@[i], b);
        if let (Ok(f), c) = z3_rules::expr(args@[i], b) {
            lemma_as_integer(f);
            lemma_arguments(args, i + 1, done.push(term::as_integer(f)), c);
        }
    }
}

proof fn lemma_method_call(e: Expr, b: Bindings)
    requires
        good(b),
    ensures
        good_value(z3_rules::method_call(e, b)),
    decreases e, 1int, 2int,
{
    if let Expr::MethodCall(receiver, name, args) = e {
        let m = name@;
        let base = z3_tables::hint(*receiver);
        law_expressions_are_well_sorted(*receiver, b);
        let (lv, b1) = z3_rules::expr(*receiver, b);
        if z3_rules::binary_method(m) is Some {
            if args@.len() > 0 {
                law_expressions_are_well_sorted(args@[0], b1);
                if let (Ok(l), Ok(r)) = (lv, z3_rules::expr(args@[0], b1).0) {
                    if l.sort() == Sort::Int && r.sort() == Sort::Int {
                        lemma_binary_method_value(m, l, r);
                    }
                }
            }
        } else if z3_rules::passes_through(m) {
        } else if m == "with"@ {
            lemma_int_entry(b1, base + "_with_result"@);
            if args@.len() > 0 {
                lemma_closure_value(args@[0], "with_"@, b);
            }
        } else if z3_rules::mutates(m) {
            lemma_arguments_bound(args, 0, b1);
            let b2 = z3_rules::arguments_bound(args, 0, b1);
            lemma_int_entry(b2, base + "_after_"@ + m);
            if let (Ok(f), b3) = z3_rules::int_entry(b2, base + "_after_"@ + m) {
                if let Expr::Path(p) = *receiver {
                    lemma_bind(b3, z3_tables::path_name(p), f);
                }
            }
        } else {
            lemma_value_method(e, b);
        }
    }
}

proof fn lemma_applied(name: Seq<char>, f: Form)
    requires
        well_sorted(f),
        f.sort() == Sort::Int,
    ensures
        well_sorted(Form::Call(name, seq![f], Sort::Int)),
{
}

proof fn lemma_value_method(e: Expr, b: Bindings)
    requires
        good(b),
    ensures
        good_value(z3_rules::value_method(e, b)),
    decreases e, 1int, 1int,
{
    if let Expr::MethodCall(receiver, name, args) = e {
        let m = name@;
        let base = z3_tables::hint(*receiver);
        law_expressions_are_well_sorted(*receiver, b);
        let (rv, b1) = z3_rules::expr(*receiver, b);
        if args@.len() > 0 {
            law_expressions_are_well_sorted(args@[0], b);
        }
        if m == "digest"@ || m == "finalize"@ {
            lemma_int_entry(b1, base + "_digest"@);
            if args@.len() > 0 {
                if let Ok(f) = z3_rules::expr(args@[0], b).0 {
                    if f.sort() == Sort::Int {
                        lemma_applied("sha256_digest"@, f);
                    }
                }
            }
        } else if m == "hash256"@ || m == "hash"@ {
            if args@.len() > 0 {
                if let Ok(f) = z3_rules::expr(args@[0], b).0 {
                    if f.sort() == Sort::Int {
                        lemma_applied("hash256"@, f);
                    }
                }
            }
        } else if m == "map"@ {
            lemma_int_entry(b1, base + "_map"@);
            if args@.len() > 0 {
                lemma_closure_value(args@[0], "map_"@, b1);
                let b2 = z3_rules::closure_value(args@[0], "map_"@, b1).1;
                law_expressions_are_well_sorted(*receiver, b2);
                lemma_int_entry(z3_rules::expr(*receiver, b2).1, base + "_map"@);
            }
        } else if z3_rules::value_suffix(m) is Some {
            lemma_int_entry(b1, base + z3_rules::value_suffix(m)->0);
        } else if m == "len"@ {
            lemma_int_entry(b1, z3_tables::length_name(base));
        } else if m == "fold"@ {
            if args@.len() > 0 {
                law_expressions_are_well_sorted(args@[0], b1);
                lemma_int_entry(z3_rules::expr(args@[0], b1).1, base + "_fold"@);
            } else {
                lemma_int_entry(b1, base + "_fold"@);
            }
        } else if m == "to_le_bytes"@ {
            if let Ok(f) = rv {
                if f.sort() == Sort::Int {
                    lemma_applied("to_le_bytes"@, f);
                }
            }
        } else {
            lemma_test_method(e, b);
        }
    }
}

proof fn lemma_test_method(e: Expr, b: Bindings)
    requires
        good(b),
    ensures
        good_value(z3_rules::test_method(e, b)),
    decreases e, 1int, 0int,
{
    if let Expr::MethodCall(receiver, name, args) = e {
        let m = name@;
        let base = z3_tables::hint(*receiver);
        law_expressions_are_well_sorted(*receiver, b);
        let b1 = z3_rules::expr(*receiver, b).1;
        if m == "is_some"@ || m == "is_none"@ {
            lemma_truth_entry(b1, base + "_is_some"@, "is_some: expected Bool"@);
        } else if m == "is_ok"@ || m == "is_err"@ {
            lemma_truth_entry(b1, base + "_is_ok"@, "is_ok: expected Bool"@);
        } else if m == "unwrap"@ {
            lemma_unwrapped(*receiver, base, b);
        } else if m == "is_empty"@ {
            lemma_int_entry(b1, z3_tables::length_name(base));
            reveal_with_fuel(well_sorted, 2);
        } else if m == "all"@ {
            lemma_bool_entry(b1, base + "_all"@);
        } else if m == "contains"@ {
            if args@.len() > 0 {
                law_expressions_are_well_sorted(args@[0], b);
                if let (Ok(x), b2) = z3_rules::expr(args@[0], b) {
                    if x.sort() == Sort::Int {
                        lemma_contained(*receiver, base, x, b2);
                    }
                }
            }
        }
    }
}

proof fn lemma_closure_value(e: Expr, prefix: Seq<char>, b: Bindings)
    requires
        good(b),
    ensures
        good_value(z3_rules::closure_value(e, prefix, b)),
    decreases e, 1int, 0int,
{
    if let Expr::Closure(_, body) = e {
        let x = z3_rules::closure_param(e)->0;
        lemma_bound(b, x);
        lemma_bind(b, x, term::int_var(prefix + x));
        let b1 = vars::bind(b, x, term::int_var(prefix + x));
        law_expressions_are_well_sorted(*body, b1);
        lemma_rebind(z3_rules::expr(*body, b1).1, x, vars::bound(b, x));
    }
}

proof fn lemma_unwrapped(receiver: Expr, base: Seq<char>, b: Bindings)
    requires
        good(b),
    ensures
        good_value(z3_rules::unwrapped(receiver, base, b)),
    decreases receiver, 3int, 0int,
{
    law_expressions_are_well_sorted(receiver, b);
    lemma_int_entry(z3_rules::expr(receiver, b).1, base + "_unwrap"@);
    if let Expr::Call(Callee::Path(_), args) = receiver {
        if args@.len() == 1 {
            law_expressions_are_well_sorted(args@[0], b);
        }
    }
}

proof fn lemma_one_less(f: Form)
    requires
        well_sorted(f),
        f.sort() == Sort::Int,
    ensures
        well_sorted(term::binary(TermOp::Minus, f, Form::Int(1))),
{
    assert(well_sorted(Form::Int(1)));
}

proof fn lemma_between(lo: Form, x: Form, hi: Form)
    requires
        well_sorted(lo),
        well_sorted(x),
        well_sorted(hi),
        lo.sort() == Sort::Int,
        x.sort() == Sort::Int,
        hi.sort() == Sort::Int,
    ensures
        statable(
            Form::All(seq![term::binary(TermOp::Le, lo, x), term::binary(TermOp::Le, x, hi)]),
        ),
{
    let v = seq![term::binary(TermOp::Le, lo, x), term::binary(TermOp::Le, x, hi)];
    assert(statable(v[0]) && statable(v[1]));
    lemma_all(v);
}

#[verifier::rlimit(30)]
proof fn lemma_contained(receiver: Expr, base: Seq<char>, x: Form, b: Bindings)
    requires
        good(b),
        well_sorted(x),
        x.sort() == Sort::Int,
    ensures
        good_value(z3_rules::contained(receiver, base, x, b)),
    decreases receiver, 3int, 0int,
{
    if let Expr::Range(start, end, closed) = receiver {
        let low = match start {
            Some(s) => {
                law_expressions_are_well_sorted(*s, b);
                match z3_rules::expr(*s, b) {
                    (Ok(f), c) => if f.sort() == Sort::Int {
                        (Ok::<Form, Fault>(f), c)
                    } else {
                        (Err(Fault::Type("contains: range start must be Int"@)), c)
                    },
                    (Err(f), c) => (Err(f), c),
                }
            },
            None => (Ok(Form::Int(-4611686018427387904)), b),
        };
        if let (Ok(lo), b1) = low {
            let high = match end {
                Some(s) => {
                    law_expressions_are_well_sorted(*s, b1);
                    match z3_rules::expr(*s, b1) {
                        (Ok(f), c) => if f.sort() != Sort::Int {
                            (Err::<Form, Fault>(Fault::Type("contains: range end must be Int"@)), c)
                        } else if closed {
                            (Ok(f), c)
                        } else {
                            lemma_one_less(f);
                            (Ok(term::binary(TermOp::Minus, f, Form::Int(1))), c)
                        },
                        (Err(f), c) => (Err(f), c),
                    }
                },
                None => (Ok(Form::Int(4611686018427387903)), b1),
            };
            if let (Ok(hi), _) = high {
                lemma_between(lo, x, hi);
            }
        }
    } else {
        law_expressions_are_well_sorted(receiver, b);
        lemma_bool_entry(z3_rules::expr(receiver, b).1, base + "_contains"@);
    }
}

proof fn lemma_known_call(
    e: Expr,
    base: Seq<char>,
    name: Seq<char>,
    arity: Option<nat>,
    sort: Sort,
    b: Bindings,
)
    requires
        good(b),
    ensures
        good_value(z3_rules::known_call(e, base, name, arity, sort, b)),
    decreases e, 0int, 0int,
{
    if let Expr::Call(_, args) = e {
        lemma_arguments(args, 0, seq![], b);
    }
}

proof fn lemma_call(e: Expr, b: Bindings)
    requires
        good(b),
    ensures
        good_value(z3_rules::call(e, b)),
    decreases e, 1int, 0int,
{
    if let Expr::Call(Callee::Path(p), args) = e {
        let base = z3_tables::path_last(p);
        lemma_arguments_bound(args, 0, b);
        let b1 = z3_rules::arguments_bound(args, 0, b);
        if base == "result"@ {
            lemma_int_entry(b, "result"@);
        } else if (base == "Ok"@ || base == "Some"@) && args@.len() == 1 {
            law_expressions_are_well_sorted(args@[0], b);
        } else if base == "new"@ || base == "default"@ {
            lemma_int_entry(b1, base + "_result"@);
        } else if base == "Err"@ && args@.len() <= 1 {
        } else if base == "Invalid"@ || base == "Rejected"@ {
        } else if z3_tables::known_bool(base) is Some {
            let (name, arity) = z3_tables::known_bool(base)->0;
            lemma_known_call(e, base, name, arity, Sort::Bool, b);
        } else if z3_tables::known_int(base) is Some {
            let (name, arity) = z3_tables::known_int(base)->0;
            lemma_known_call(e, base, name, arity, Sort::Int, b);
        } else if z3_tables::known_int_result(base) is Some {
            lemma_int_entry(b1, z3_tables::known_int_result(base)->0);
        } else if z3_tables::known_bool_result(base) is Some {
            lemma_bool_entry(b1, z3_tables::known_bool_result(base)->0);
        } else if z3_tables::known_deployment(base) {
            let name = "call_"@ + base + "_"@ + "bit"@;
            lemma_entry(b1, name, Form::Int(15));
            lemma_int_entry(
                vars::entry(b1, name, Form::Int(15)).1,
                "call_"@ + base + "_struct"@,
            );
        } else {
            lemma_arguments(args, 0, seq![], b);
        }
    }
}

proof fn lemma_arms(
    v: Vec<Arm>,
    i: int,
    literals: bool,
    read: Seq<(int, Form)>,
    default: Option<Form>,
    truth: bool,
    b: Bindings,
)
    requires
        good(b),
        good_arms(read, default, truth),
    ensures
        good(z3_rules::arms(v, i, literals, read, default, truth, b).1),
        z3_rules::arms(v, i, literals, read, default, truth, b).0 matches Arms::Read(r, d, t)
            ==> good_arms(r, d, t),
    decreases v, 0int, v@.len() - i,
{
    if 0 <= i < v@.len() && !v@[i].guard {
        law_expressions_are_well_sorted(v@[i].body, b);
        if let (Ok(f), c) = z3_rules::expr(v@[i].body, b) {
            let now = truth || f.sort() == Sort::Bool;
            match z3_rules::arm_number(v@[i].pat, literals, read.len() as int) {
                Some(Ok(n)) => {
                    assert(good_arms(read.push((n, f)), default, now));
                    lemma_arms(v, i + 1, literals, read.push((n, f)), default, now, c);
                },
                Some(Err(_)) => {},
                None => {
                    if v@[i].pat is Wild || v@[i].pat is Ident {
                        lemma_arms(v, i + 1, literals, read, Some(f), now, c);
                    }
                },
            }
        }
    }
}

proof fn lemma_option_match(
    v: Vec<Arm>,
    base: Seq<char>,
    x: Seq<char>,
    some: int,
    none: int,
    b: Bindings,
)
    requires
        good(b),
    ensures
        good_value(z3_rules::option_match(v, base, x, some, none, b)),
    decreases v, 0int, 0int,
{
    if 0 <= some < v@.len() && 0 <= none < v@.len() {
        lemma_int_entry(b, x);
        let b1 = z3_rules::int_entry(b, x).1;
        law_expressions_are_well_sorted(v@[some].body, b1);
        let b2 = z3_rules::expr(v@[some].body, b1).1;
        law_expressions_are_well_sorted(v@[none].body, b2);
        let b3 = z3_rules::expr(v@[none].body, b2).1;
        lemma_truth_entry(b3, base + "_is_some"@, "is_some: expected Bool"@);
    }
}

proof fn lemma_variant_match(v: Vec<Arm>, scrutinee: Form, b: Bindings)
    requires
        good(b),
        well_sorted(scrutinee),
    ensures
        good_value(z3_rules::variant_match(v, scrutinee, b)),
    decreases v, 1int, 0int,
{
    lemma_arms(v, 0, false, seq![], None, false, b);
    if let (Arms::Read(read, default, truth), _) = z3_rules::arms(
        v,
        0,
        false,
        seq![],
        None,
        false,
        b,
    ) {
        if read.len() > 0 && scrutinee.sort() == Sort::Int {
            lemma_tower_of(scrutinee, read, default, truth);
        }
    }
}

proof fn lemma_match_expr(e: Expr, b: Bindings)
    requires
        good(b),
    ensures
        good_value(z3_rules::match_expr(e, b)),
    decreases e, 1int, 0int,
{
    if let Expr::Match(a, v) = e {
        law_expressions_are_well_sorted(*a, b);
        if let (Ok(scrutinee), b1) = z3_rules::expr(*a, b) {
            match z3_rules::option_arms(v@) {
                Some((x, some, none)) => {
                    lemma_option_match(v, z3_tables::hint(*a), x, some, none, b1);
                },
                None => {
                    if scrutinee.sort() == Sort::Int {
                        lemma_arms(v, 0, true, seq![], None, false, b1);
                        let (read, b2) = z3_rules::arms(v, 0, true, seq![], None, false, b1);
                        lemma_variant_match(v, scrutinee, b2);
                        if let Arms::Read(r, d, t) = read {
                            if r.len() > 0 {
                                lemma_tower_of(scrutinee, r, d, t);
                            }
                        }
                    } else {
                        lemma_variant_match(v, scrutinee, b1);
                    }
                },
            }
        }
    }
}

proof fn lemma_last_value(block: Block, missing: Seq<char>, b: Bindings)
    requires
        good(b),
    ensures
        good_value(z3_rules::last_value(block, missing, b)),
    decreases block, 0int, 0int,
{
    if block.stmts@.len() > 0 {
        if let Stmt::Tail(e, _) = block.stmts@[block.stmts@.len() - 1] {
            law_expressions_are_well_sorted(e, b);
        }
    }
}

proof fn lemma_if_value(e: Expr, b: Bindings)
    requires
        good(b),
    ensures
        good_value(z3_rules::if_value(e, b)),
    decreases e, 1int, 0int,
{
    if let Expr::If(cond, then, other) = e {
        law_expressions_are_well_sorted(*cond, b);
        let b1 = z3_rules::expr(*cond, b).1;
        let missing = "If then branch: expected single expression"@;
        lemma_last_value(then, missing, b1);
        let b2 = z3_rules::last_value(then, missing, b1).1;
        if let Some(o) = other {
            match *o {
                Expr::Block(block) => {
                    lemma_last_value(block, "If else block: expected single expression"@, b2);
                },
                Expr::If(_, _, _) => {
                    lemma_if_value(*o, b2);
                },
                _ => {
                    law_expressions_are_well_sorted(*o, b2);
                },
            }
        }
    }
}

// ---------------------------------------------------------------------------
// Blocks
// ---------------------------------------------------------------------------
proof fn lemma_early_return(e: Expr, b: Bindings)
    requires
        good(b),
    ensures
        good(z3_rules::early_return(e, b).1),
        z3_rules::early_return(e, b).0 matches Ok(Some(x)) ==> statable(x.0) && statable(x.1),
    decreases e, 3int, 0int,
{
    if let Expr::If(cond, then, _) = e {
        law_expressions_are_well_sorted(*cond, b);
        lemma_returned(then, 0, z3_rules::expr(*cond, b).1);
    }
}

proof fn lemma_returned(block: Block, i: int, b: Bindings)
    requires
        good(b),
    ensures
        good_formula(z3_rules::returned(block, i, b)),
    decreases block, 0int, block.stmts@.len() - i,
{
    if 0 <= i < block.stmts@.len() {
        match block.stmts@[i] {
            Stmt::Semi(Expr::Return(Some(r), _)) => {
                lemma_returned_value(*r, b);
                lemma_returned(block, i + 1, z3_rules::returned_value(*r, b).1);
            },
            Stmt::Tail(Expr::Return(Some(r), _), _) => {
                lemma_returned_value(*r, b);
                lemma_returned(block, i + 1, z3_rules::returned_value(*r, b).1);
            },
            _ => {
                lemma_returned(block, i + 1, b);
            },
        }
    }
}

proof fn lemma_returned_value(r: Expr, b: Bindings)
    requires
        good(b),
    ensures
        good_formula(z3_rules::returned_value(r, b)),
    decreases r, 4int, 0int,
{
    lemma_ok_equation(r, b);
    lemma_result_equation(r, z3_rules::ok_equation(r, b).1);
}

proof fn lemma_ok_equation(r: Expr, b: Bindings)
    requires
        good(b),
    ensures
        good_formula(z3_rules::ok_equation(r, b)),
    decreases r, 3int, 0int,
{
    if let Expr::Call(Callee::Path(_), args) = r {
        if args@.len() == 1 {
            law_expressions_are_well_sorted(args@[0], b);
            if let (Ok(f), c) = z3_rules::expr(args@[0], b) {
                lemma_bound(c, "result"@);
                if f.sort() == Sort::Bool {
                    lemma_ok_code(f);
                }
            }
        }
    }
}

proof fn lemma_result_equation(r: Expr, b: Bindings)
    requires
        good(b),
    ensures
        good_formula(z3_rules::result_equation(r, b)),
    decreases r, 3int, 0int,
{
    law_expressions_are_well_sorted(r, b);
    lemma_bound(z3_rules::expr(r, b).1, "result"@);
}

proof fn lemma_error_guard(e: Expr, b: Bindings)
    requires
        good(b),
    ensures
        good(z3_rules::error_guard(e, b).1),
        z3_rules::error_guard(e, b).0 matches Some(c) ==> statable(c),
    decreases e, 3int, 0int,
{
    if let Expr::If(cond, _, None) = e {
        law_expressions_are_well_sorted(*cond, b);
    }
}

proof fn lemma_conditional_exit(e: Expr, exits: Exits, b: Bindings)
    requires
        good(b),
        good_exits(exits),
    ensures
        good(z3_rules::conditional_exit(e, exits, b).1),
        z3_rules::conditional_exit(e, exits, b).0 matches Ok(x) ==> good_exits(x),
    decreases e, 4int, 0int,
{
    lemma_early_return(e, b);
    lemma_error_guard(e, z3_rules::early_return(e, b).1);
}

proof fn lemma_accumulated(op: TermOp, name: Seq<char>, right: Expr, b: Bindings)
    requires
        good(b),
        op == TermOp::Plus || op == TermOp::Minus,
    ensures
        good(z3_rules::accumulated(op, name, right, b)),
    decreases right, 3int, 0int,
{
    lemma_bound(b, name);
    law_expressions_are_well_sorted(right, b);
    let l = match vars::bound(b, name) {
        Some(f) => f,
        None => term::int_var(name),
    };
    if let (Ok(r), c) = z3_rules::expr(right, b) {
        if l.sort() == Sort::Int && r.sort() == Sort::Int {
            assert(well_sorted(l) && well_sorted(r));
            lemma_bind(c, name, term::binary(op, l, r));
        }
    }
}

proof fn lemma_assigned(e: Expr, b: Bindings)
    requires
        good(b),
    ensures
        good(z3_rules::assigned(e, b)),
    decreases e, 3int, 0int,
{
    match e {
        Expr::Assign(left, right, _) => match *left {
            Expr::Path(p) => {
                law_expressions_are_well_sorted(*right, b);
                if let (Ok(f), c) = z3_rules::expr(*right, b) {
                    lemma_bind(c, z3_tables::path_name(p), f);
                }
            },
            Expr::Index(a, i) => {
                law_expressions_are_well_sorted(*a, b);
                let b1 = z3_rules::expr(*a, b).1;
                law_expressions_are_well_sorted(*i, b1);
                let b2 = z3_rules::expr(*i, b1).1;
                law_expressions_are_well_sorted(*right, b2);
                if let (Ok(f), b3) = z3_rules::expr(*right, b2) {
                    let k = match z3_tables::literal_of(*i) {
                        Some(k) => k as int,
                        None => 0,
                    };
                    let name = z3_tables::hint(*a) + "_after_"@ + text::decimal_int(k);
                    lemma_bind(b3, name, f);
                    if let Expr::Path(p) = *a {
                        lemma_bind(vars::bind(b3, name, f), z3_tables::path_name(p), f);
                    }
                }
            },
            _ => {},
        },
        Expr::Binary(BinOp::AddAssign(_), left, right) => {
            if let Expr::Path(p) = *left {
                lemma_accumulated(TermOp::Plus, z3_tables::path_name(p), *right, b);
            }
        },
        Expr::Binary(BinOp::SubAssign(_), left, right) => {
            if let Expr::Path(p) = *left {
                lemma_accumulated(TermOp::Minus, z3_tables::path_name(p), *right, b);
            }
        },
        _ => {},
    }
}

proof fn lemma_effect(e: Expr, b: Bindings)
    requires
        good(b),
    ensures
        good(z3_rules::effect(e, b)),
    decreases e, 4int, 0int,
{
    match e {
        Expr::ForLoop(a, body) => {
            law_expressions_are_well_sorted(*a, b);
            lemma_block_formula(body, z3_rules::expr(*a, b).1);
        },
        Expr::While(a, body) => {
            law_expressions_are_well_sorted(*a, b);
            lemma_block_formula(body, z3_rules::expr(*a, b).1);
        },
        Expr::Loop(body) => {
            lemma_block_formula(body, b);
        },
        _ => {
            lemma_assigned(e, b);
        },
    }
}

proof fn lemma_field_equations(fields: Vec<FieldValue>, i: int, done: Seq<Form>, b: Bindings)
    requires
        good(b),
        all_statable(done),
    ensures
        good(z3_rules::field_equations(fields, i, done, b).1),
        all_statable(z3_rules::field_equations(fields, i, done, b).0),
    decreases fields, 0int, fields@.len() - i,
{
    if 0 <= i < fields@.len() {
        match fields@[i].member {
            Member::Named(name) => {
                law_expressions_are_well_sorted(fields@[i].expr, b);
                match z3_rules::expr(fields@[i].expr, b) {
                    (Ok(f), c) => {
                        if f.sort() == Sort::Int {
                            let slot = "result_"@ + name@;
                            lemma_entry(c, slot, term::int_var(slot));
                            let (s, d) = vars::entry(c, slot, term::int_var(slot));
                            if s.sort() == Sort::Int {
                                let eq = term::binary(TermOp::Eq, s, f);
                                assert(statable(eq));
                                assert(all_statable(done.push(eq)));
                                lemma_field_equations(fields, i + 1, done.push(eq), d);
                            } else {
                                lemma_field_equations(fields, i + 1, done, d);
                            }
                        } else {
                            lemma_field_equations(fields, i + 1, done, c);
                        }
                    },
                    (Err(_), c) => {
                        lemma_field_equations(fields, i + 1, done, c);
                    },
                }
            },
            Member::Unnamed(_) => {
                lemma_field_equations(fields, i + 1, done, b);
            },
        }
    }
}

proof fn lemma_struct_formula(e: Expr, early: Seq<(Form, Form)>, b: Bindings)
    requires
        good(b),
        forall|i: int|
            0 <= i < early.len() ==> statable((#[trigger] early[i]).0) && statable(early[i].1),
    ensures
        good(z3_rules::struct_formula(e, early, b).1),
        z3_rules::struct_formula(e, early, b).0 matches Some(f) ==> statable(f),
    decreases e, 3int, 0int,
{
    if let Expr::Struct(fields) = e {
        lemma_field_equations(fields, 0, seq![], b);
        let eqs = z3_rules::field_equations(fields, 0, seq![], b).0;
        lemma_all(eqs);
        lemma_with_early(early, Form::All(eqs));
    }
}

proof fn lemma_slot_equation(slot: Option<Form>, e: Expr, b: Bindings)
    requires
        good(b),
        slot matches Some(s) ==> well_sorted(s),
    ensures
        good_formula(z3_rules::slot_equation(slot, e, b)),
    decreases e, 3int, 0int,
{
    law_expressions_are_well_sorted(e, b);
}

proof fn lemma_statement(block: Block, i: int, slot: Option<Form>, exits: Exits, b: Bindings)
    requires
        good(b),
        slot matches Some(s) ==> well_sorted(s),
        good_exits(exits),
    ensures
        good(z3_rules::statement(block, i, slot, exits, b).1),
        z3_rules::statement(block, i, slot, exits, b).0 matches StmtOutcome::Found(f) ==> statable(f),
        z3_rules::statement(block, i, slot, exits, b).0 matches StmtOutcome::Next(x) ==> good_exits(
            x,
        ),
    decreases block, 0int, 0int,
{
    if 0 <= i < block.stmts@.len() {
        match block.stmts@[i] {
            Stmt::Local(Pat::Ident(x), Some(init)) => {
                law_expressions_are_well_sorted(init, b);
                if let (Ok(f), c) = z3_rules::expr(init, b) {
                    lemma_bind(c, x@, f);
                }
            },
            Stmt::Semi(e) => match e {
                Expr::If(_, _, _) => {
                    lemma_conditional_exit(e, exits, b);
                },
                Expr::Return(Some(r), _) => {
                    lemma_slot_equation(slot, *r, b);
                    if let Ok(Some(f)) = z3_rules::slot_equation(slot, *r, b).0 {
                        lemma_with_early(exits.early, f);
                    }
                },
                _ => {
                    lemma_effect(e, b);
                },
            },
            Stmt::Tail(e, is_last) => {
                let branched = if !is_last && e is If {
                    lemma_conditional_exit(e, exits, b);
                    z3_rules::conditional_exit(e, exits, b)
                } else {
                    (Ok(exits), b)
                };
                if let (Ok(x), c) = branched {
                    lemma_struct_formula(e, x.early, c);
                    let d = z3_rules::struct_formula(e, x.early, c).1;
                    lemma_slot_equation(slot, e, d);
                    if let Ok(Some(f)) = z3_rules::slot_equation(slot, e, d).0 {
                        lemma_with_early(x.early, f);
                    }
                }
            },
            _ => {},
        }
    }
}

proof fn lemma_statements(block: Block, i: int, slot: Option<Form>, exits: Exits, b: Bindings)
    requires
        good(b),
        slot matches Some(s) ==> well_sorted(s),
        good_exits(exits),
    ensures
        good_formula(z3_rules::statements(block, i, slot, exits, b)),
    decreases block, 1int, block.stmts@.len() - i,
{
    if i < 0 || i >= block.stmts@.len() {
        lemma_closing_formula(block, slot, exits, b);
    } else {
        lemma_statement(block, i, slot, exits, b);
        if let (StmtOutcome::Next(x), c) = z3_rules::statement(block, i, slot, exits, b) {
            lemma_statements(block, i + 1, slot, x, c);
        }
    }
}

proof fn lemma_closed(exits: Exits, f: Option<Form>)
    requires
        good_exits(exits),
        f matches Some(f) ==> statable(f),
    ensures
        z3_rules::with_guards(exits.guards, z3_rules::after_early(exits.early, f)) matches Some(g)
            ==> statable(g),
{
    lemma_implications(exits.early);
    lemma_all(z3_rules::implications(exits.early));
    if let Some(f) = f {
        lemma_with_early(exits.early, f);
    }
    lemma_with_guards(exits.guards, z3_rules::after_early(exits.early, f));
}

proof fn lemma_closing_formula(block: Block, slot: Option<Form>, exits: Exits, b: Bindings)
    requires
        good(b),
        slot matches Some(s) ==> well_sorted(s),
        good_exits(exits),
    ensures
        good_formula(z3_rules::closing_formula(block, slot, exits, b)),
    decreases block, 0int, 0int,
{
    lemma_closed(exits, None);
    if block.stmts@.len() > 0 {
        if let Stmt::Tail(e, _) = block.stmts@[block.stmts@.len() - 1] {
            if e is Return || e is If || e is Call {
                lemma_final_return(e, slot, b);
                if let Ok(f) = z3_rules::final_return(e, slot, b).0 {
                    lemma_closed(exits, f);
                }
            } else {
                law_expressions_are_well_sorted(e, b);
                let f = match (slot, z3_rules::expr(e, b).0) {
                    (Some(s), Ok(f)) => term::equation(s, f),
                    _ => None,
                };
                lemma_closed(exits, f);
            }
        }
    }
}

proof fn lemma_final_return(e: Expr, slot: Option<Form>, b: Bindings)
    requires
        good(b),
        slot matches Some(s) ==> well_sorted(s),
    ensures
        good_formula(z3_rules::final_return(e, slot, b)),
    decreases e, 6int, 0int,
{
    lemma_bound(b, "result"@);
    let c = match slot {
        Some(s) => {
            lemma_bind(b, "result"@, s);
            vars::bind(b, "result"@, s)
        },
        None => b,
    };
    lemma_return_formula(e, c);
    lemma_rebind(z3_rules::return_formula(e, c).1, "result"@, vars::bound(b, "result"@));
}

proof fn lemma_block_formula(block: Block, b: Bindings)
    requires
        good(b),
    ensures
        good_formula(z3_rules::block_formula(block, b)),
    decreases block, 2int, 0int,
{
    lemma_bound(b, "result"@);
    lemma_statements(
        block,
        0,
        vars::bound(b, "result"@),
        Exits { early: seq![], guards: seq![] },
        b,
    );
}

proof fn lemma_tuple_equations(elems: Vec<Expr>, i: int, done: Seq<Form>, b: Bindings)
    requires
        good(b),
        all_statable(done),
    ensures
        good(z3_rules::tuple_equations(elems, i, done, b).1),
        all_statable(z3_rules::tuple_equations(elems, i, done, b).0),
    decreases elems, 0int, elems@.len() - i,
{
    if 0 <= i < elems@.len() {
        law_expressions_are_well_sorted(elems@[i], b);
        match z3_rules::expr(elems@[i], b) {
            (Err(_), c) => {
                lemma_tuple_equations(elems, i + 1, done, c);
            },
            (Ok(f), c) => {
                let name = "result_"@ + text::decimal(i as nat);
                lemma_bound(c, name);
                let next = match vars::bound(c, name) {
                    Some(s) => match term::equation(s, f) {
                        Some(eq) => done.push(eq),
                        None => done,
                    },
                    None => done,
                };
                assert(all_statable(next));
                lemma_tuple_equations(elems, i + 1, next, c);
            },
        }
    }
}

#[verifier::rlimit(60)]
proof fn lemma_return_formula(e: Expr, b: Bindings)
    requires
        good(b),
    ensures
        good_formula(z3_rules::return_formula(e, b)),
    decreases e, 5int, 0int,
{
    match e {
        Expr::Return(None, _) => {},
        Expr::Return(Some(r), _) => {
            lemma_ok_truth_equation(*r, b);
            let c = z3_rules::ok_truth_equation(*r, b).1;
            law_expressions_are_well_sorted(*r, c);
            lemma_bound(z3_rules::expr(*r, c).1, "result"@);
        },
        Expr::If(_, _, _) => {
            lemma_if_formula(e, b);
        },
        Expr::Call(_, _) => {
            lemma_ok_call_formula(e, b);
            lemma_result_equation(e, z3_rules::ok_call_formula(e, b).1);
        },
        _ => {
            lemma_result_equation(e, b);
        },
    }
}

proof fn lemma_ok_truth_equation(r: Expr, b: Bindings)
    requires
        good(b),
    ensures
        good_formula(z3_rules::ok_truth_equation(r, b)),
    decreases r, 3int, 0int,
{
    if let Expr::Call(Callee::Path(_), args) = r {
        if args@.len() == 1 {
            law_expressions_are_well_sorted(args@[0], b);
            if let (Ok(f), c) = z3_rules::expr(args@[0], b) {
                lemma_bound(c, "result"@);
                if f.sort() == Sort::Bool {
                    lemma_ok_code(f);
                }
            }
        }
    }
}

#[verifier::rlimit(30)]
proof fn lemma_ok_call_formula(e: Expr, b: Bindings)
    requires
        good(b),
    ensures
        good_formula(z3_rules::ok_call_formula(e, b)),
    decreases e, 3int, 0int,
{
    if let Expr::Call(Callee::Path(_), args) = e {
        if args@.len() == 1 {
            let (eqs, c) = match args@[0] {
                Expr::Tuple(elems) => {
                    lemma_tuple_equations(elems, 0, seq![], b);
                    z3_rules::tuple_equations(elems, 0, seq![], b)
                },
                _ => (seq![], b),
            };
            lemma_all(eqs);
            law_expressions_are_well_sorted(args@[0], c);
            if let (Ok(f), d) = z3_rules::expr(args@[0], c) {
                lemma_bound(d, "result"@);
                if f.sort() == Sort::Bool {
                    lemma_ok_code(f);
                }
            }
        }
    }
}

proof fn lemma_if_formula(e: Expr, b: Bindings)
    requires
        good(b),
    ensures
        good_formula(z3_rules::if_formula(e, b)),
    decreases e, 4int, 0int,
{
    if let Expr::If(cond, then, other) = e {
        law_expressions_are_well_sorted(*cond, b);
        if let (Ok(c), b1) = z3_rules::expr(*cond, b) {
            if c.sort() == Sort::Bool {
                lemma_block_formula(then, b1);
                if let (Ok(t), b2) = z3_rules::block_formula(then, b1) {
                    let o = match other {
                        None => None,
                        Some(o) => match *o {
                            Expr::Block(block) => {
                                lemma_block_formula(block, b2);
                                match z3_rules::block_formula(block, b2).0 {
                                    Ok(f) => f,
                                    Err(_) => None,
                                }
                            },
                            Expr::If(_, _, _) => {
                                lemma_if_formula(*o, b2);
                                match z3_rules::if_formula(*o, b2).0 {
                                    Ok(f) => f,
                                    Err(_) => None,
                                }
                            },
                            _ => {
                                law_expressions_are_well_sorted(*o, b2);
                                let b3 = z3_rules::expr(*o, b2).1;
                                lemma_bound(b3, "result"@);
                                match (z3_rules::expr(*o, b2).0, vars::bound(b3, "result"@)) {
                                    (Ok(f), Some(result)) => term::equation(result, f),
                                    _ => None,
                                }
                            },
                        },
                    };
                    lemma_branches(c, t, o);
                }
            }
        }
    }
}

// ---------------------------------------------------------------------------
// Questions
// ---------------------------------------------------------------------------
proof fn lemma_appended(v: Seq<Form>, w: Seq<Form>)
    requires
        all_statable(v),
        all_statable(w),
    ensures
        all_statable(v + w),
{
    let both = v + w;
    assert forall|i: int| 0 <= i < both.len() implies statable(#[trigger] both[i]) by {
        if i < v.len() {
            assert(both[i] == v[i]);
        } else {
            assert(both[i] == w[i - v.len()]);
        }
    }
}

proof fn lemma_not_negative(f: Form)
    requires
        well_sorted(f),
        f.sort() == Sort::Int,
    ensures
        statable(z3_rules::not_negative(f)),
{
    assert(well_sorted(Form::Int(0)));
}

proof fn lemma_parameters(params: Seq<(String, Type)>, n: int)
    ensures
        good(z3_rules::parameters(params, n)),
        all_statable(z3_rules::parameter_constraints(params, n)),
    decreases n,
{
    if 0 < n <= params.len() {
        lemma_parameters(params, n - 1);
        let name = params[n - 1].0@;
        lemma_bind(z3_rules::parameters(params, n - 1), name, term::int_var(name));
        lemma_not_negative(term::int_var(name));
    }
}

proof fn lemma_typed_constraint(name: Seq<char>, t: Type)
    ensures
        all_statable(z3_rules::typed_constraint(name, t)),
{
    lemma_not_negative(term::int_var(name));
}

proof fn lemma_parts(elems: Seq<Type>, n: int, b: Bindings)
    requires
        good(b),
    ensures
        good(z3_rules::parts_bound(elems, n, b)),
        all_statable(z3_rules::part_constraints(elems, n)),
    decreases n,
{
    if 0 < n <= elems.len() {
        lemma_parts(elems, n - 1, b);
        let name = z3_rules::part_name(n - 1);
        lemma_bind(
            z3_rules::parts_bound(elems, n - 1, b),
            name,
            z3_rules::typed_var(name, elems[n - 1]),
        );
        lemma_typed_constraint(name, elems[n - 1]);
        lemma_appended(
            z3_rules::part_constraints(elems, n - 1),
            z3_rules::typed_constraint(name, elems[n - 1]),
        );
    }
}

proof fn lemma_shared(params: Seq<(String, Type)>, output: Option<Type>)
    ensures
        good(z3_rules::shared_bindings(params, output)),
        all_statable(z3_rules::shared_constraints(params, output)),
{
    let n = params.len() as int;
    let b = z3_rules::parameters(params, n);
    let c = z3_rules::parameter_constraints(params, n);
    lemma_parameters(params, n);
    if let Some(t) = output {
        if let Some(elems) = z3_tables::tuple_of(t) {
            let k = elems.len() as int;
            lemma_parts(elems, k, b);
            lemma_bind(z3_rules::parts_bound(elems, k, b), "result"@, term::int_var("result"@));
            lemma_appended(c, z3_rules::part_constraints(elems, k));
        } else {
            lemma_bind(b, "result"@, z3_rules::typed_var("result"@, t));
            lemma_typed_constraint("result"@, t);
            lemma_appended(c, z3_rules::typed_constraint("result"@, t));
        }
    }
}

proof fn lemma_shift(name: Seq<char>, a: Form, b: Form)
    requires
        well_sorted(a),
        well_sorted(b),
        a.sort() == Sort::Int,
        b.sort() == Sort::Int,
    ensures
        well_sorted(z3_verifier::shift(name, a, b)),
        z3_verifier::shift(name, a, b).sort() == Sort::Int,
{
    let args = seq![a, b];
    assert forall|i: int| 0 <= i < args.len() implies well_sorted(#[trigger] args[i])
        && args[i].sort() == Sort::Int by {
        assert(args[i] == a || args[i] == b);
    }
}

proof fn lemma_shift_rules()
    ensures
        all_statable(z3_verifier::shift_rules()),
        statable(z3_verifier::shift_out()),
{
    let a = z3_verifier::shifted_var();
    let b = z3_verifier::amount_var();
    let zero = Form::Int(0);
    let right = z3_verifier::shift("shr"@, a, b);
    let left = z3_verifier::shift("shl"@, a, b);
    let right_zero = z3_verifier::shift("shr"@, a, zero);
    let left_zero = z3_verifier::shift("shl"@, a, zero);
    assert(well_sorted(a) && well_sorted(b) && well_sorted(zero));
    lemma_shift("shr"@, a, b);
    lemma_shift("shl"@, a, b);
    lemma_shift("shr"@, a, zero);
    lemma_shift("shl"@, a, zero);
    lemma_not_negative(a);
    lemma_not_negative(b);
    lemma_not_negative(right);
    lemma_all(seq![z3_rules::not_negative(a), z3_rules::not_negative(b)]);
    let p = z3_verifier::shift_premise();
    assert(statable(p));
    assert(statable(term::binary(TermOp::Le, right, a)));
    assert(statable(term::binary(TermOp::Ge, left, a)));
    assert(statable(term::binary(TermOp::Eq, right_zero, a)));
    assert(statable(term::binary(TermOp::Eq, left_zero, a)));
    assert(statable(term::binary(TermOp::Implies, p, z3_rules::not_negative(right))));
    assert(statable(term::binary(TermOp::Implies, p, term::binary(TermOp::Le, right, a))));
    assert(statable(term::binary(TermOp::Implies, p, term::binary(TermOp::Ge, left, a))));
    let v = z3_verifier::shift_rules();
    assert(statable(v[0]));
    assert(statable(v[1]));
    assert(statable(v[2]));
    assert(statable(v[3]));
    assert(statable(v[4]));
    let top = Form::Int(i64::MAX as int);
    let many = Form::Int(64);
    assert(well_sorted(top) && well_sorted(many));
    assert(statable(term::binary(TermOp::Le, a, top)));
    assert(statable(term::binary(TermOp::Ge, b, many)));
    let q = seq![
        z3_rules::not_negative(a),
        term::binary(TermOp::Le, a, top),
        term::binary(TermOp::Ge, b, many),
    ];
    lemma_all(q);
    assert(statable(term::binary(TermOp::Eq, right, zero)));
    assert(statable(
        term::binary(TermOp::Implies, Form::All(q), term::binary(TermOp::Eq, right, zero)),
    ));
}

proof fn lemma_shift_by(k: int)
    ensures
        statable(z3_verifier::shift_by(k)),
{
    let a = z3_verifier::shifted_var();
    let amount = Form::Int(k);
    let power = Form::Int(power2::pow2(k as nat) as int);
    assert(well_sorted(a) && well_sorted(amount) && well_sorted(power));
    lemma_shift("shr"@, a, amount);
    let quotient = term::binary(TermOp::Div, a, power);
    assert(well_sorted(quotient));
    assert(statable(
        term::binary(TermOp::Eq, z3_verifier::shift("shr"@, a, amount), quotient),
    ));
}

proof fn lemma_shift_statements()
    ensures
        all_statable(z3_verifier::shift_statements()),
{
    lemma_shift_rules();
    let by = Seq::new(64, |k: int| z3_verifier::shift_by(k));
    assert forall|i: int| 0 <= i < by.len() implies statable(#[trigger] by[i]) by {
        lemma_shift_by(i);
    }
    lemma_appended(z3_verifier::shift_rules(), by);
    lemma_appended(z3_verifier::shift_rules() + by, seq![z3_verifier::shift_out()]);
}

proof fn lemma_conditions(v: Seq<Contract>, n: int, b: Bindings)
    requires
        good(b),
    ensures
        all_statable(z3_verifier::conditions(v, n, b).0),
        good(z3_verifier::conditions(v, n, b).1),
    decreases n,
{
    if 0 < n <= v.len() {
        lemma_conditions(v, n - 1, b);
        let e = *v[n - 1].condition;
        law_expressions_are_well_sorted(e, z3_verifier::conditions(v, n - 1, b).1);
    }
}

proof fn lemma_count_constraints(b: Bindings, n: int)
    requires
        good(b),
    ensures
        all_statable(z3_verifier::count_constraints(b, n)),
    decreases n,
{
    if 0 < n <= b.len() {
        lemma_count_constraints(b, n - 1);
        if b[n - 1].1.sort() == Sort::Int {
            lemma_not_negative(b[n - 1].1);
        }
    }
}

proof fn lemma_callee_conditions(v: Seq<CalleeFact>, n: int, b: Bindings)
    requires
        good(b),
    ensures
        all_statable(z3_verifier::callee_conditions(v, n, b).0),
        good(z3_verifier::callee_conditions(v, n, b).1),
    decreases n,
{
    if 0 < n <= v.len() {
        lemma_callee_conditions(v, n - 1, b);
        if let Some(c) = v[n - 1].condition {
            let e = *c;
            law_expressions_are_well_sorted(e, z3_verifier::callee_conditions(v, n - 1, b).1);
        }
    }
}

proof fn lemma_first_script_length(b: Bindings, i: int)
    requires
        good(b),
    ensures
        z3_verifier::first_script_length(b, i) matches Some(f) ==> well_sorted(f),
    decreases b.len() - i,
{
    if 0 <= i < b.len() {
        lemma_bound(b, b[i].0);
        lemma_first_script_length(b, i + 1);
    }
}

proof fn lemma_facts(b: Bindings)
    requires
        good(b),
    ensures
        all_statable(z3_verifier::taproot_fact(b)),
        all_statable(z3_verifier::deployment_fact(b)),
{
    lemma_bound(b, "call_validate_taproot_script_result"@);
    lemma_bound(b, "result_bit"@);
    lemma_first_script_length(b, 0);
    assert(well_sorted(Form::Int(34)) && well_sorted(Form::Int(15)));
    if let Some(length) = z3_verifier::first_script_length(b, 0) {
        if length.sort() == Sort::Int {
            assert(statable(term::binary(TermOp::Eq, length, Form::Int(34))));
        }
    }
}

proof fn lemma_body_assertions(func: FnItem, facts: Seq<CalleeFact>, b: Bindings)
    requires
        good(b),
    ensures
        all_statable(z3_verifier::body_assertions(func, facts, b).0),
{
    lemma_block_formula(func.body, b);
    let (r, c) = z3_rules::block_formula(func.body, b);
    if let Ok(Some(f)) = r {
        let n = facts.len() as int;
        let counts = z3_verifier::count_constraints(c, c.len() as int);
        lemma_count_constraints(c, c.len() as int);
        lemma_callee_conditions(facts, n, c);
        let (callee, d) = z3_verifier::callee_conditions(facts, n, c);
        lemma_facts(d);
        lemma_appended(seq![f], counts);
        lemma_appended(seq![f] + counts, callee);
        lemma_appended(seq![f] + counts + callee, z3_verifier::taproot_fact(d));
        lemma_appended(
            seq![f] + counts + callee + z3_verifier::taproot_fact(d),
            z3_verifier::deployment_fact(d),
        );
    }
}

/// Every term of the question on a contract can be asserted: it is a truth value, and each
/// operation in it stands on operands of the sorts that it takes.
pub proof fn law_question_is_well_sorted(
    contract: Contract,
    func: Option<&FnItem>,
    requires_contracts: Seq<Contract>,
    facts: Seq<CalleeFact>,
)
    ensures
        z3_verifier::question(contract, func, requires_contracts, facts) matches Ok(q)
            ==> all_statable(q.assertions),
{
    let (params, output) = z3_verifier::signature(func);
    let types = z3_rules::shared_constraints(params, output);
    let start = z3_rules::shared_bindings(params, output);
    lemma_shared(params, output);
    let e = *contract.condition;
    law_expressions_are_well_sorted(e, start);
    let (r, b) = z3_rules::expr(e, start);
    if let Ok(c) = r {
        if c.sort() == Sort::Bool {
            assert(statable(term::negated(c)));
            let n = requires_contracts.len() as int;
            lemma_conditions(requires_contracts, n, b);
            let (pre, d) = z3_verifier::conditions(requires_contracts, n, b);
            lemma_appended(types, pre);
            match func {
                Some(f) => {
                    let added = z3_verifier::body_assertions(*f, facts, d).0;
                    lemma_shift_statements();
                    lemma_body_assertions(*f, facts, d);
                    lemma_appended(types + pre, z3_verifier::shift_statements());
                    lemma_appended(types + pre + z3_verifier::shift_statements(), added);
                },
                None => {
                    lemma_appended(types + pre, seq![]);
                    lemma_appended(types + pre + seq![], seq![]);
                },
            }
        }
    }
}

/// Every term of the question whether a postcondition can hold at all can be asserted.
pub proof fn law_smoke_question_is_well_sorted(contract: Contract)
    ensures
        z3_verifier::smoke_question(contract) matches Ok(v) ==> all_statable(v),
{
    lemma_shift_statements();
    let e = *contract.condition;
    law_expressions_are_well_sorted(e, seq![]);
}

proof fn lemma_run_parameters(params: Seq<(String, Type)>, n: int, mark: Seq<char>)
    ensures
        good(z3_verifier::run_parameters(params, n, mark)),
    decreases n,
{
    if 0 < n <= params.len() {
        lemma_run_parameters(params, n - 1, mark);
        let name = params[n - 1].0@;
        lemma_bind(
            z3_verifier::run_parameters(params, n - 1, mark),
            name,
            term::int_var(mark + name),
        );
    }
}

proof fn lemma_run_bindings(func: FnItem, mark: Seq<char>)
    ensures
        good(z3_verifier::run_bindings(func, mark)),
{
    let n = func.params@.len() as int;
    lemma_run_parameters(func.params@, n, mark);
    lemma_bind(
        z3_verifier::run_parameters(func.params@, n, mark),
        "result"@,
        z3_verifier::run_result(func, mark),
    );
}

proof fn lemma_run_conditions(v: Seq<Contract>, n: int, b1: Bindings, b2: Bindings)
    requires
        good(b1),
        good(b2),
    ensures
        all_statable(z3_verifier::run_conditions(v, n, b1, b2).0),
        good(z3_verifier::run_conditions(v, n, b1, b2).1),
        good(z3_verifier::run_conditions(v, n, b1, b2).2),
    decreases n,
{
    if 0 < n <= v.len() {
        lemma_run_conditions(v, n - 1, b1, b2);
        let (done, c1, c2) = z3_verifier::run_conditions(v, n - 1, b1, b2);
        let e = *v[n - 1].condition;
        law_expressions_are_well_sorted(e, c1);
        law_expressions_are_well_sorted(e, c2);
        let one = z3_verifier::readable(e, c1).0;
        let two = z3_verifier::readable(e, c2).0;
        lemma_appended(done, one);
        lemma_appended(done + one, two);
    }
}

proof fn lemma_equal_inputs(params: Seq<(String, Type)>, n: int)
    ensures
        all_statable(z3_verifier::equal_inputs(params, n)),
    decreases n,
{
    if 0 < n <= params.len() {
        lemma_equal_inputs(params, n - 1);
        let name = params[n - 1].0@;
        let one = term::int_var("r1_"@ + name);
        let two = term::int_var("r2_"@ + name);
        assert(well_sorted(one) && well_sorted(two));
        assert(statable(term::binary(TermOp::Eq, one, two)));
    }
}

proof fn lemma_runs_differ(func: FnItem)
    ensures
        statable(z3_verifier::runs_differ(func)),
{
    let n = func.params@.len() as int;
    let one = z3_verifier::run_result(func, "r1_"@);
    let two = z3_verifier::run_result(func, "r2_"@);
    lemma_equal_inputs(func.params@, n);
    lemma_all(z3_verifier::equal_inputs(func.params@, n));
    assert(well_sorted(one) && well_sorted(two) && one.sort() == two.sort());
    assert(statable(term::binary(TermOp::Eq, one, two)));
    assert(statable(term::negated(term::binary(TermOp::Eq, one, two))));
    lemma_all(
        seq![
            Form::All(z3_verifier::equal_inputs(func.params@, n)),
            term::negated(term::binary(TermOp::Eq, one, two)),
        ],
    );
}

/// Every term of the question on determinism can be asserted.
#[verifier::rlimit(30)]
pub proof fn law_determinism_question_is_well_sorted(
    func: FnItem,
    requires_contracts: Seq<Contract>,
)
    ensures
        z3_verifier::determinism_question(func, requires_contracts) matches Ok(q) ==> all_statable(
            q.0,
        ) && statable(q.1) && statable(q.2),
{
    let s1 = z3_verifier::run_bindings(func, "r1_"@);
    let s2 = z3_verifier::run_bindings(func, "r2_"@);
    lemma_run_bindings(func, "r1_"@);
    lemma_run_bindings(func, "r2_"@);
    lemma_block_formula(func.body, s1);
    lemma_block_formula(func.body, s2);
    lemma_shift_statements();
    lemma_runs_differ(func);
    let (r1, b1) = z3_verifier::run_formula(func, "1"@, s1);
    let (r2, b2) = z3_verifier::run_formula(func, "2"@, s2);
    if let (Ok(f1), Ok(f2)) = (r1, r2) {
        let n = requires_contracts.len() as int;
        lemma_run_conditions(requires_contracts, n, b1, b2);
        let v = z3_verifier::run_conditions(requires_contracts, n, b1, b2).0;
        lemma_appended(z3_verifier::shift_statements(), seq![f1, f2]);
        lemma_appended(z3_verifier::shift_statements() + seq![f1, f2], v);
    }
}

} // verus!
