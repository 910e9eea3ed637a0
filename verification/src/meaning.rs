//! What terms mean in a model, and what that says of the questions that are put to the solver.
use vstd::arithmetic::div_mod;
use vstd::arithmetic::power2;
use vstd::bits;
use vstd::prelude::*;
use crate::ast::{FnItem, Type};
use crate::contracts::Contract;
use crate::term;
use crate::term::{Form, Sort, TermOp};
use crate::z3_rules;
use crate::z3_verifier;
use crate::z3_verifier::{CalleeFact, QueryView};

verus! {

/// Values for the constants and the functions that terms speak of. What a division by zero gives is
/// open too.
pub struct Model {
    pub numbers: spec_fn(Seq<char>) -> int,
    pub truths: spec_fn(Seq<char>) -> bool,
    pub functions: spec_fn(Seq<char>, Seq<int>) -> int,
    pub tests: spec_fn(Seq<char>, Seq<int>) -> bool,
    pub quotient_by_zero: spec_fn(int) -> int,
    pub rest_by_zero: spec_fn(int) -> int,
}

/// The quotient of two integers, with a remainder that is not negative.
pub open spec fn quotient(a: int, b: int, m: Model) -> int {
    if b == 0 {
        (m.quotient_by_zero)(a)
    } else {
        a / b
    }
}

/// The remainder of two integers, with the sign of the divisor.
pub open spec fn rest(a: int, b: int, m: Model) -> int {
    if b == 0 {
        (m.rest_by_zero)(a)
    } else if b > 0 {
        a % b
    } else {
        -(a % b)
    }
}

/// The model with another value for an integer constant.
pub open spec fn with_value(m: Model, name: Seq<char>, v: int) -> Model {
    Model {
        numbers: |x: Seq<char>|
            if x == name {
                v
            } else {
                (m.numbers)(x)
            },
        ..m
    }
}

/// The model with other values for integer constants.
pub open spec fn with_values(m: Model, names: Seq<Seq<char>>, v: Seq<int>) -> Model
    decreases names.len(),
{
    if names.len() == 0 || v.len() == 0 {
        m
    } else {
        with_value(
            with_values(m, names.drop_last(), v.drop_last()),
            names.last(),
            v.last(),
        )
    }
}

/// The value of an integer term.
pub open spec fn number(f: Form, m: Model) -> int
    decreases f,
{
    match f {
        Form::Int(n) => n,
        Form::Var(name, _) => (m.numbers)(name),
        Form::Call(name, args, _) => (m.functions)(name, numbers(args, m)),
        Form::Binary(op, a, b) => match op {
            TermOp::Plus => number(*a, m) + number(*b, m),
            TermOp::Minus => number(*a, m) - number(*b, m),
            TermOp::Times => number(*a, m) * number(*b, m),
            TermOp::Div => quotient(number(*a, m), number(*b, m), m),
            TermOp::Rem => rest(number(*a, m), number(*b, m), m),
            _ => 0,
        },
        Form::Neg(a) => -number(*a, m),
        Form::Ite(c, a, b) => if truth(*c, m) {
            number(*a, m)
        } else {
            number(*b, m)
        },
        _ => 0,
    }
}

/// The values of integer terms.
pub open spec fn numbers(args: Seq<Form>, m: Model) -> Seq<int>
    decreases args,
{
    Seq::new(
        args.len(),
        |i: int|
            if 0 <= i < args.len() {
                number(args[i], m)
            } else {
                0
            },
    )
}

/// The value of a truth term.
pub open spec fn truth(f: Form, m: Model) -> bool
    decreases f,
{
    match f {
        Form::Bool(b) => b,
        Form::Var(name, _) => (m.truths)(name),
        Form::Call(name, args, _) => (m.tests)(name, numbers(args, m)),
        Form::Binary(op, a, b) => match op {
            TermOp::Eq => if a.sort() == Sort::Bool {
                truth(*a, m) == truth(*b, m)
            } else {
                number(*a, m) == number(*b, m)
            },
            TermOp::Lt => number(*a, m) < number(*b, m),
            TermOp::Le => number(*a, m) <= number(*b, m),
            TermOp::Gt => number(*a, m) > number(*b, m),
            TermOp::Ge => number(*a, m) >= number(*b, m),
            TermOp::Or => truth(*a, m) || truth(*b, m),
            TermOp::Implies => truth(*a, m) ==> truth(*b, m),
            _ => false,
        },
        Form::Not(a) => !truth(*a, m),
        Form::All(args) => forall|i: int| 0 <= i < args.len() ==> truth(#[trigger] args[i], m),
        Form::Ite(c, a, b) => if truth(*c, m) {
            truth(*a, m)
        } else {
            truth(*b, m)
        },
        Form::ForAll(names, a) => forall|v: Seq<int>|
            v.len() == names.len() ==> truth(*a, #[trigger] with_values(m, names, v)),
        _ => false,
    }
}

/// Every term holds in the model.
pub open spec fn all_hold(v: Seq<Form>, m: Model) -> bool {
    forall|i: int| 0 <= i < v.len() ==> truth(#[trigger] v[i], m)
}

// ---------------------------------------------------------------------------
// Operators
// ---------------------------------------------------------------------------
proof fn lemma_literal(n: int, m: Model)
    ensures
        number(Form::Int(n), m) == n,
        Form::Int(n).sort() == Sort::Int,
{
}

/// A truth value is an integer and a truth value again without a change, and it stands for one or
/// zero.
pub proof fn law_truth_as_integer(f: Form, m: Model)
    requires
        f.sort() == Sort::Bool,
    ensures
        number(term::as_integer(f), m) == if truth(f, m) {
            1int
        } else {
            0
        },
        truth(term::as_truth(term::as_integer(f)), m) == truth(f, m),
{
    lemma_literal(0, m);
    lemma_literal(1, m);
    let n = term::as_integer(f);
    assert(n.sort() == Sort::Int);
    assert(truth(term::binary(TermOp::Eq, n, Form::Int(0)), m) <==> number(n, m) == 0);
}

/// The equation of a truth value and an integer holds where the integer is one or zero accordingly.
pub proof fn law_mixed_equation(f: Form, n: Form, m: Model)
    requires
        f.sort() == Sort::Bool,
        n.sort() == Sort::Int,
    ensures
        truth(z3_rules::mixed_equation(f, n), m) <==> number(n, m) == if truth(f, m) {
            1int
        } else {
            0
        },
        truth(z3_rules::mixed_equation(n, f), m) <==> number(n, m) == if truth(f, m) {
            1int
        } else {
            0
        },
{
    law_truth_as_integer(f, m);
    lemma_literal(1, m);
    assert(term::as_integer(f).sort() == Sort::Int);
}

/// A conjunction by `&` on a word and a positive mask is what the term for it means, where there is
/// one.
pub proof fn law_masked_is_bit_and(a: Form, mask: i64, m: Model)
    requires
        mask > 0,
        0 <= number(a, m) <= u64::MAX,
    ensures
        z3_rules::masked(a, Some(mask)) matches Some(f) ==> number(f, m) == (number(a, m) as u64) & (
        mask as u64),
{
    let x = number(a, m) as u64;
    let w = mask as u64;
    if z3_rules::is_power_of_two(mask as int) {
        let k = choose|k: nat| #[trigger] power2::pow2(k) == mask as int;
        lemma_exponent(k, mask as int);
        let place = Form::Int(mask as int);
        let q = term::binary(TermOp::Div, a, place);
        let r = term::binary(TermOp::Rem, q, Form::Int(2));
        lemma_literal(mask as int, m);
        lemma_literal(2, m);
        assert(number(q, m) == number(a, m) / (mask as int));
        assert(number(r, m) == (number(a, m) / (mask as int)) % 2);
        assert(number(term::binary(TermOp::Times, r, place), m) == ((number(a, m) / (mask as int))
            % 2) * (mask as int));
        lemma_single_bit(x, k);
    } else if z3_rules::is_power_of_two(mask + 1) {
        let k = choose|k: nat| #[trigger] power2::pow2(k) == mask + 1;
        lemma_literal(mask + 1, m);
        assert(number(term::binary(TermOp::Rem, a, Form::Int(mask + 1)), m) == number(a, m) % (mask
            + 1));
        lemma_exponent(k, mask + 1);
        bits::lemma_u64_low_bits_mask_is_mod(x, k);
    }
}

proof fn lemma_exponent(k: nat, n: int)
    requires
        power2::pow2(k) == n,
        n <= 0x8000_0000_0000_0000,
    ensures
        k < 64,
{
    if k >= 64 {
        power2::lemma2_to64();
        power2::lemma2_to64_rest();
        if k > 64 {
            power2::lemma_pow2_strictly_increases(64, k);
        }
    }
}

proof fn lemma_single_bit(x: u64, k: nat)
    requires
        k < 64,
    ensures
        power2::pow2(k) <= u64::MAX,
        x & (power2::pow2(k) as u64) == ((x as int / power2::pow2(k) as int) % 2)
            * power2::pow2(k) as int,
{
    let s = k as u64;
    let p = power2::pow2(k);
    bits::lemma_u64_pow2_no_overflow(k);
    bits::lemma_u64_shr_is_div(x, s);
    assert(1 * p <= u64::MAX);
    bits::lemma_u64_shl_is_mul(1, s);
    let bit = x >> s;
    let odd = bit % 2;
    assert(1u64 << s == p);
    assert(x & (1u64 << s) == ((x >> s) % 2) << s) by (bit_vector)
        requires
            s < 64,
    ;
    assert(odd * p <= u64::MAX) by (nonlinear_arith)
        requires
            0 <= odd <= 1,
            0 <= p <= u64::MAX,
    ;
    bits::lemma_u64_shl_is_mul(odd, s);
}

/// A shift of a word by a literal is what the term for it means: to the right always, to the left
/// where nothing is lost.
pub proof fn law_literal_shifts(a: Form, k: i64, m: Model)
    requires
        0 <= k < 64,
        a.sort() == Sort::Int,
        0 <= number(a, m) <= u64::MAX,
    ensures
        z3_rules::shifted(TermOp::Div, a, k) matches Ok(f) && number(f, m) == (number(a, m) as u64)
            >> (k as u64),
        number(a, m) * power2::pow2(k as nat) <= u64::MAX ==> (z3_rules::shifted(
            TermOp::Times,
            a,
            k,
        ) matches Ok(f) && number(f, m) == (number(a, m) as u64) << (k as u64)),
{
    let x = number(a, m) as u64;
    let p = power2::pow2(k as nat);
    power2::lemma_pow2_pos(k as nat);
    let f = Form::Int(p as int);
    lemma_literal(p as int, m);
    assert(number(term::binary(TermOp::Div, a, f), m) == number(a, m) / (p as int));
    assert(number(term::binary(TermOp::Times, a, f), m) == number(a, m) * (p as int));
    bits::lemma_u64_shr_is_div(x, k as u64);
    if x * p <= u64::MAX {
        bits::lemma_u64_shl_is_mul(x, k as u64);
    }
}

proof fn lemma_all(v: Seq<Form>, m: Model)
    ensures
        truth(Form::All(v), m) <==> all_hold(v, m),
{
    let o = Form::All(v);
    assert(o->All_0 == v);
    if truth(o, m) {
        assert forall|i: int| 0 <= i < v.len() implies truth(#[trigger] v[i], m) by {
            assert(truth(o->All_0[i], m));
        }
    }
}

// ---------------------------------------------------------------------------
// Matches, exits and branches
// ---------------------------------------------------------------------------
/// A tower of choices gives the value of the first arm whose number the scrutinee is, and that of
/// the last resort where there is none.
pub proof fn law_tower_gives_first_arm(
    scrutinee: Form,
    arms: Seq<(int, Form)>,
    i: int,
    last: Form,
    j: int,
    m: Model,
)
    requires
        scrutinee.sort() == Sort::Int,
        0 <= i <= j <= arms.len(),
        forall|k: int| i <= k < j ==> (#[trigger] arms[k]).0 != number(scrutinee, m),
        j < arms.len() ==> arms[j].0 == number(scrutinee, m),
    ensures
        number(z3_rules::tower(scrutinee, arms, i, last), m) == if j < arms.len() {
            number(arms[j].1, m)
        } else {
            number(last, m)
        },
        truth(z3_rules::tower(scrutinee, arms, i, last), m) == if j < arms.len() {
            truth(arms[j].1, m)
        } else {
            truth(last, m)
        },
    decreases arms.len() - i,
{
    if i < arms.len() {
        let c = term::binary(TermOp::Eq, scrutinee, Form::Int(arms[i].0));
        lemma_literal(arms[i].0, m);
        assert(truth(c, m) <==> number(scrutinee, m) == arms[i].0);
        if i < j {
            assert(arms[i].0 != number(scrutinee, m));
            law_tower_gives_first_arm(scrutinee, arms, i + 1, last, j, m);
        }
    }
}

/// The formula of a body with early returns holds where each early return whose condition holds
/// gives the result, and where none does the rest gives it.
pub proof fn law_early_returns(early: Seq<(Form, Form)>, f: Form, m: Model)
    ensures
        truth(z3_rules::with_early(early, f), m) <==> (forall|i: int|
            0 <= i < early.len() && truth((#[trigger] early[i]).0, m) ==> truth(early[i].1, m)) && (
        (forall|i: int| 0 <= i < early.len() ==> !truth((#[trigger] early[i]).0, m)) ==> truth(
            f,
            m,
        )),
{
    if early.len() > 0 {
        let given = z3_rules::implications(early);
        let none = z3_rules::none_of(early);
        let rest = term::binary(TermOp::Implies, Form::All(none), f);
        let all = given.push(rest);
        assert forall|i: int| 0 <= i < early.len() implies truth(#[trigger] given[i], m) == (truth(
            early[i].0,
            m,
        ) ==> truth(early[i].1, m)) by {
            assert(given[i] == term::binary(TermOp::Implies, early[i].0, early[i].1));
        }
        assert forall|i: int| 0 <= i < early.len() implies truth(#[trigger] none[i], m) == !truth(
            early[i].0,
            m,
        ) by {
            assert(none[i] == term::negated(early[i].0));
        }
        lemma_all(none, m);
        lemma_all(all, m);
        assert(truth(Form::All(none), m) <==> forall|i: int|
            0 <= i < early.len() ==> !truth((#[trigger] early[i]).0, m)) by {
            if truth(Form::All(none), m) {
                assert forall|i: int| 0 <= i < early.len() implies !truth(
                    (#[trigger] early[i]).0,
                    m,
                ) by {
                    assert(truth(none[i], m));
                }
            }
        }
        assert(truth(Form::All(all), m) <==> (forall|i: int|
            0 <= i < early.len() ==> truth(#[trigger] given[i], m)) && truth(rest, m)) by {
            if truth(Form::All(all), m) {
                assert(all[early.len() as int] == rest);
                assert(truth(all[early.len() as int], m));
                assert forall|i: int| 0 <= i < early.len() implies truth(#[trigger] given[i], m) by {
                    assert(all[i] == given[i]);
                    assert(truth(all[i], m));
                }
            }
        }
        assert((forall|i: int| 0 <= i < early.len() ==> truth(#[trigger] given[i], m)) <==> (forall|
            i: int,
        |
            0 <= i < early.len() && truth((#[trigger] early[i]).0, m) ==> truth(early[i].1, m))) by {
            if forall|i: int| 0 <= i < early.len() ==> truth(#[trigger] given[i], m) {
                assert forall|i: int|
                    0 <= i < early.len() && truth((#[trigger] early[i]).0, m) implies truth(
                    early[i].1,
                    m,
                ) by {
                    assert(truth(given[i], m));
                }
            }
        }
    }
}

/// The formula of a block that was read to its end holds where no error was returned, each early
/// return whose condition holds gives the result, and where none does the last expression gives it.
pub proof fn law_block_end(guards: Seq<Form>, early: Seq<(Form, Form)>, f: Form, m: Model)
    ensures
        z3_rules::with_guards(guards, z3_rules::after_early(early, Some(f))) matches Some(g) && (
        truth(g, m) <==> (forall|i: int| 0 <= i < guards.len() ==> !truth(#[trigger] guards[i], m))
            && (forall|i: int|
            0 <= i < early.len() && truth((#[trigger] early[i]).0, m) ==> truth(early[i].1, m)) && (
        (forall|i: int| 0 <= i < early.len() ==> !truth((#[trigger] early[i]).0, m)) ==> truth(
            f,
            m,
        ))),
{
    law_early_returns(early, f, m);
    if guards.len() > 0 {
        let body = z3_rules::with_early(early, f);
        let none = guards.map_values(|g: Form| term::negated(g));
        let both = seq![z3_rules::none_hold(guards), body];
        lemma_all(none, m);
        lemma_all(both, m);
        assert forall|i: int| 0 <= i < guards.len() implies truth(#[trigger] none[i], m) == !truth(
            guards[i],
            m,
        ) by {
            assert(none[i] == term::negated(guards[i]));
        }
        assert(all_hold(none, m) <==> forall|i: int|
            0 <= i < guards.len() ==> !truth(#[trigger] guards[i], m)) by {
            if all_hold(none, m) {
                assert forall|i: int| 0 <= i < guards.len() implies !truth(
                    #[trigger] guards[i],
                    m,
                ) by {
                    assert(truth(none[i], m));
                }
            }
        }
        assert(all_hold(both, m) <==> truth(both[0], m) && truth(both[1], m));
    }
}

/// The formula of a conditional with both branches holds where the branch that is taken does.
pub proof fn law_branches(c: Form, then: Form, other: Form, m: Model)
    ensures
        z3_rules::branches(c, Some(then), Some(other)) matches Some(f) && truth(f, m) == if truth(
            c,
            m,
        ) {
            truth(then, m)
        } else {
            truth(other, m)
        },
{
    let v = seq![
        term::binary(TermOp::Implies, c, then),
        term::binary(TermOp::Implies, term::negated(c), other),
    ];
    assert(truth(v[0], m) == (truth(c, m) ==> truth(then, m)));
    assert(truth(term::negated(c), m) == !truth(c, m));
    assert(truth(v[1], m) == (!truth(c, m) ==> truth(other, m)));
    lemma_all(v, m);
}

/// A formula under guards holds where no guard fires and the formula holds, if there is one.
pub proof fn law_guards(guards: Seq<Form>, f: Option<Form>, m: Model)
    requires
        guards.len() > 0,
    ensures
        z3_rules::with_guards(guards, f) matches Some(g) && (truth(g, m) <==> (forall|i: int|
            0 <= i < guards.len() ==> !truth(#[trigger] guards[i], m)) && (f matches Some(h)
            ==> truth(h, m))),
{
    let none = guards.map_values(|g: Form| term::negated(g));
    let calm = z3_rules::none_hold(guards);
    lemma_all(none, m);
    assert(truth(calm, m) <==> forall|i: int|
        0 <= i < guards.len() ==> !truth(#[trigger] guards[i], m)) by {
        if truth(calm, m) {
            assert forall|i: int| 0 <= i < guards.len() implies !truth(#[trigger] guards[i], m) by {
                assert(truth(none[i], m));
            }
        } else {
            let i = choose|i: int| 0 <= i < none.len() && !truth(#[trigger] none[i], m);
            assert(truth(guards[i], m));
        }
    }
    if let Some(h) = f {
        let v = seq![calm, h];
        lemma_all(v, m);
        assert(v[0] == calm && v[1] == h);
    }
}

// ---------------------------------------------------------------------------
// Shifts
// ---------------------------------------------------------------------------
/// What the model makes of the function `name` of two integers.
pub open spec fn applied(m: Model, name: Seq<char>, a: int, b: int) -> int {
    (m.functions)(name, seq![a, b])
}

/// The model takes the shifts for shifts: to the right a division and to the left a product by a
/// power of two.
pub open spec fn shifts(m: Model) -> bool {
    forall|a: int, k: int|
        k >= 0 ==> #[trigger] applied(m, "shr"@, a, k) == a / (power2::pow2(k as nat) as int)
            && applied(m, "shl"@, a, k) == a * (power2::pow2(k as nat) as int)
}

proof fn lemma_shift_value(name: Seq<char>, a: Form, b: Form, m: Model)
    ensures
        number(z3_verifier::shift(name, a, b), m) == applied(m, name, number(a, m), number(b, m)),
{
    let args = seq![a, b];
    let o = z3_verifier::shift(name, a, b);
    assert(o->Call_1 == args);
    assert(numbers(args, m) =~= seq![number(a, m), number(b, m)]);
}

proof fn lemma_names_differ()
    ensures
        "axiom_a"@ != "axiom_b"@,
{
    reveal_strlit("axiom_a");
    reveal_strlit("axiom_b");
    assert("axiom_a"@[6] != "axiom_b"@[6]);
}

/// The constants of a model in which the quantified ones have values.
proof fn lemma_both(m: Model, v: Seq<int>)
    requires
        v.len() == 2,
    ensures
        ({
            let n = with_values(m, seq!["axiom_a"@, "axiom_b"@], v);
            &&& number(z3_verifier::shifted_var(), n) == v[0]
            &&& number(z3_verifier::amount_var(), n) == v[1]
            &&& n.functions == m.functions
        }),
{
    lemma_names_differ();
    reveal_with_fuel(with_values, 3);
    let names = seq!["axiom_a"@, "axiom_b"@];
    assert(names.drop_last() =~= seq!["axiom_a"@]);
    assert(v.drop_last() =~= seq![v[0]]);
}

proof fn lemma_one(m: Model, v: Seq<int>)
    requires
        v.len() == 1,
    ensures
        ({
            let n = with_values(m, seq!["axiom_a"@], v);
            &&& number(z3_verifier::shifted_var(), n) == v[0]
            &&& n.functions == m.functions
        }),
{
    reveal_with_fuel(with_values, 2);
}

proof fn lemma_premise(n: Model)
    ensures
        truth(z3_verifier::shift_premise(), n) <==> number(z3_verifier::shifted_var(), n) >= 0
            && number(z3_verifier::amount_var(), n) >= 0,
{
    let a = z3_verifier::shifted_var();
    let b = z3_verifier::amount_var();
    let v = seq![z3_rules::not_negative(a), z3_rules::not_negative(b)];
    lemma_literal(0, n);
    lemma_all(v, n);
    assert(truth(v[0], n) <==> number(a, n) >= 0);
    assert(truth(v[1], n) <==> number(b, n) >= 0);
}

proof fn lemma_shift_values(a: int, b: int)
    requires
        a >= 0,
        b >= 0,
    ensures
        0 <= a / (power2::pow2(b as nat) as int) <= a,
        a * (power2::pow2(b as nat) as int) >= a,
        b >= 64 && a <= i64::MAX ==> a / (power2::pow2(b as nat) as int) == 0,
{
    let p = power2::pow2(b as nat) as int;
    power2::lemma_pow2_pos(b as nat);
    div_mod::lemma_div_pos_is_pos(a, p);
    div_mod::lemma_div_nonincreasing(a, p);
    assert(a * p >= a) by (nonlinear_arith)
        requires
            a >= 0,
            p >= 1,
    ;
    if b >= 64 && a <= i64::MAX {
        power2::lemma2_to64();
        power2::lemma2_to64_rest();
        if b > 64 {
            power2::lemma_pow2_strictly_increases(64, b as nat);
        }
        div_mod::lemma_basic_div(a, p);
    }
}

proof fn lemma_quantified(m: Model, names: Seq<Seq<char>>, f: Form)
    requires
        forall|v: Seq<int>|
            v.len() == names.len() ==> truth(f, #[trigger] with_values(m, names, v)),
    ensures
        truth(z3_verifier::for_all(names, f), m),
{
    let o = z3_verifier::for_all(names, f);
    assert(o->ForAll_0 == names);
    assert(*o->ForAll_1 == f);
}

proof fn lemma_right_shift_rules(m: Model)
    requires
        shifts(m),
    ensures
        truth(z3_verifier::shift_rules()[0], m),
        truth(z3_verifier::shift_rules()[1], m),
        truth(z3_verifier::shift_rules()[3], m),
        truth(z3_verifier::shift_out(), m),
{
    let a = z3_verifier::shifted_var();
    let b = z3_verifier::amount_var();
    let p = z3_verifier::shift_premise();
    let right = z3_verifier::shift("shr"@, a, b);
    let left = z3_verifier::shift("shl"@, a, b);
    let both = seq!["axiom_a"@, "axiom_b"@];
    let top = Form::Int(i64::MAX as int);
    let many = Form::Int(64);
    let q = seq![
        z3_rules::not_negative(a),
        term::binary(TermOp::Le, a, top),
        term::binary(TermOp::Ge, b, many),
    ];
    let f0 = term::binary(TermOp::Implies, p, z3_rules::not_negative(right));
    let f1 = term::binary(TermOp::Implies, p, term::binary(TermOp::Le, right, a));
    let f3 = term::binary(TermOp::Implies, p, term::binary(TermOp::Ge, left, a));
    let f5 = term::binary(
        TermOp::Implies,
        Form::All(q),
        term::binary(TermOp::Eq, right, Form::Int(0)),
    );
    assert forall|v: Seq<int>| v.len() == 2 implies ({
        let n = #[trigger] with_values(m, both, v);
        truth(f0, n) && truth(f1, n) && truth(f3, n) && truth(f5, n)
    }) by {
        let n = with_values(m, both, v);
        lemma_both(m, v);
        lemma_premise(n);
        lemma_shift_value("shr"@, a, b, n);
        lemma_shift_value("shl"@, a, b, n);
        lemma_literal(0, n);
        lemma_literal(64, n);
        lemma_literal(i64::MAX as int, n);
        lemma_all(q, n);
        assert(applied(n, "shr"@, v[0], v[1]) == applied(m, "shr"@, v[0], v[1]));
        assert(applied(n, "shl"@, v[0], v[1]) == applied(m, "shl"@, v[0], v[1]));
        assert(truth(z3_rules::not_negative(right), n) <==> number(right, n) >= 0);
        assert(truth(term::binary(TermOp::Le, right, a), n) <==> number(right, n) <= v[0]);
        assert(truth(term::binary(TermOp::Ge, left, a), n) <==> number(left, n) >= v[0]);
        assert(right.sort() == Sort::Int);
        assert(truth(term::binary(TermOp::Eq, right, Form::Int(0)), n) <==> number(right, n) == 0);
        assert(truth(q[0], n) <==> v[0] >= 0);
        assert(truth(q[1], n) <==> v[0] <= i64::MAX);
        assert(truth(q[2], n) <==> v[1] >= 64);
        if v[0] >= 0 && v[1] >= 0 {
            lemma_shift_values(v[0], v[1]);
        }
        assert(truth(f0, n));
        assert(truth(f1, n));
        assert(truth(f3, n));
        assert(truth(f5, n));
    }
    lemma_quantified(m, both, f0);
    lemma_quantified(m, both, f1);
    lemma_quantified(m, both, f3);
    lemma_quantified(m, both, f5);
}

proof fn lemma_shifts_by_zero(m: Model)
    requires
        shifts(m),
    ensures
        truth(z3_verifier::shift_rules()[2], m),
        truth(z3_verifier::shift_rules()[4], m),
{
    let a = z3_verifier::shifted_var();
    let zero = Form::Int(0);
    let right = z3_verifier::shift("shr"@, a, zero);
    let left = z3_verifier::shift("shl"@, a, zero);
    let one = seq!["axiom_a"@];
    let f2 = term::binary(TermOp::Eq, right, a);
    let f4 = term::binary(TermOp::Eq, left, a);
    power2::lemma2_to64();
    assert forall|v: Seq<int>| v.len() == 1 implies ({
        let n = #[trigger] with_values(m, one, v);
        truth(f2, n) && truth(f4, n)
    }) by {
        let n = with_values(m, one, v);
        lemma_one(m, v);
        lemma_literal(0, n);
        lemma_shift_value("shr"@, a, zero, n);
        lemma_shift_value("shl"@, a, zero, n);
        assert(applied(n, "shr"@, v[0], 0) == applied(m, "shr"@, v[0], 0));
        assert(applied(n, "shl"@, v[0], 0) == applied(m, "shl"@, v[0], 0));
        let x = v[0];
        let p = power2::pow2(0) as int;
        assert(p == 1);
        assert(x * p == x && x / p == x) by (nonlinear_arith)
            requires
                p == 1,
        ;
        assert(number(right, n) == x && number(left, n) == x);
        assert(right.sort() == Sort::Int && left.sort() == Sort::Int);
    }
    lemma_quantified(m, one, f2);
    lemma_quantified(m, one, f4);
}

proof fn lemma_shift_by(k: int, m: Model)
    requires
        shifts(m),
        0 <= k < 64,
    ensures
        truth(z3_verifier::shift_by(k), m),
{
    let a = z3_verifier::shifted_var();
    let amount = Form::Int(k);
    let p = power2::pow2(k as nat) as int;
    let right = z3_verifier::shift("shr"@, a, amount);
    let ratio = term::binary(TermOp::Div, a, Form::Int(p));
    let one = seq!["axiom_a"@];
    let f = term::binary(TermOp::Eq, right, ratio);
    power2::lemma_pow2_pos(k as nat);
    assert forall|v: Seq<int>| v.len() == 1 implies truth(
        f,
        #[trigger] with_values(m, one, v),
    ) by {
        let n = with_values(m, one, v);
        lemma_one(m, v);
        lemma_literal(k, n);
        lemma_literal(p, n);
        lemma_shift_value("shr"@, a, amount, n);
        assert(applied(n, "shr"@, v[0], k) == applied(m, "shr"@, v[0], k));
        assert(number(ratio, n) == v[0] / p);
        assert(right.sort() == Sort::Int);
    }
    lemma_quantified(m, one, f);
}

/// What the solver is told of shifts holds of shifts: so it never contradicts itself.
pub proof fn law_shift_statements_hold(m: Model)
    requires
        shifts(m),
    ensures
        all_hold(z3_verifier::shift_statements(), m),
{
    lemma_right_shift_rules(m);
    lemma_shifts_by_zero(m);
    let s = z3_verifier::shift_statements();
    let rules = z3_verifier::shift_rules();
    assert forall|i: int| 0 <= i < s.len() implies truth(#[trigger] s[i], m) by {
        if i < 5 {
            assert(s[i] == rules[i]);
            assert(i == 0 || i == 1 || i == 2 || i == 3 || i == 4);
        } else if i < 69 {
            assert(s[i] == z3_verifier::shift_by(i - 5));
            lemma_shift_by(i - 5, m);
        } else {
            assert(s[i] == z3_verifier::shift_out());
        }
    }
}

// ---------------------------------------------------------------------------
// Questions
// ---------------------------------------------------------------------------
/// The term of the condition that a question is about, where it has one.
pub open spec fn asked(contract: Contract, func: Option<&FnItem>) -> Result<Form, z3_rules::Fault> {
    let (params, output) = z3_verifier::signature(func);
    z3_rules::expr(*contract.condition, z3_rules::shared_bindings(params, output)).0
}

/// A model of the question on a contract is a model of all that is taken for granted in which the
/// condition fails. What is taken for granted is every term but the last.
pub proof fn law_question_asks_for_a_failure(
    contract: Contract,
    func: Option<&FnItem>,
    requires_contracts: Seq<Contract>,
    facts: Seq<CalleeFact>,
    m: Model,
)
    requires
        z3_verifier::question(contract, func, requires_contracts, facts) is Ok,
    ensures
        ({
            let q = z3_verifier::question(contract, func, requires_contracts, facts)->Ok_0;
            &&& asked(contract, func) matches Ok(c) && (all_hold(q.assertions, m) <==> all_hold(
                q.assertions.drop_last(),
                m,
            ) && !truth(c, m))
        }),
{
    let q = z3_verifier::question(contract, func, requires_contracts, facts)->Ok_0;
    let c = asked(contract, func)->Ok_0;
    let v = q.assertions;
    assert(v.len() > 0 && v.last() == term::negated(c));
    assert(truth(term::negated(c), m) == !truth(c, m));
    if all_hold(v, m) {
        assert(truth(v[v.len() - 1], m));
        assert forall|i: int| 0 <= i < v.drop_last().len() implies truth(
            #[trigger] v.drop_last()[i],
            m,
        ) by {
            assert(truth(v[i], m));
        }
    }
    if all_hold(v.drop_last(), m) && !truth(c, m) {
        assert forall|i: int| 0 <= i < v.len() implies truth(#[trigger] v[i], m) by {
            if i < v.len() - 1 {
                assert(truth(v.drop_last()[i], m));
            }
        }
    }
}

/// Where the question on a contract has no model, the condition holds in every model of what is
/// taken for granted.
pub proof fn law_no_model_means_contract_holds(
    contract: Contract,
    func: Option<&FnItem>,
    requires_contracts: Seq<Contract>,
    facts: Seq<CalleeFact>,
    q: QueryView,
    c: Form,
)
    requires
        z3_verifier::question(contract, func, requires_contracts, facts) == Ok::<
            QueryView,
            Seq<char>,
        >(q),
        asked(contract, func) == Ok::<Form, z3_rules::Fault>(c),
        forall|m: Model| !#[trigger] all_hold(q.assertions, m),
    ensures
        forall|m: Model| #[trigger] all_hold(q.assertions.drop_last(), m) ==> truth(c, m),
{
    assert forall|m: Model| #[trigger] all_hold(q.assertions.drop_last(), m) implies truth(c, m) by {
        law_question_asks_for_a_failure(contract, func, requires_contracts, facts, m);
        assert(!all_hold(q.assertions, m));
    }
}

/// The two runs that are looked for have the same inputs and results that differ.
pub proof fn law_runs_differ(func: FnItem, m: Model)
    ensures
        truth(z3_verifier::runs_differ(func), m) <==> {
            &&& forall|i: int|
                0 <= i < func.params@.len() ==> (m.numbers)(
                    "r1_"@ + (#[trigger] func.params@[i]).0@,
                ) == (m.numbers)("r2_"@ + func.params@[i].0@)
            &&& if z3_verifier::run_result(func, "r1_"@).sort() == Sort::Bool {
                (m.truths)("r1_"@ + "result"@) != (m.truths)("r2_"@ + "result"@)
            } else {
                (m.numbers)("r1_"@ + "result"@) != (m.numbers)("r2_"@ + "result"@)
            }
        },
{
    let n = func.params@.len() as int;
    let inputs = z3_verifier::equal_inputs(func.params@, n);
    let one = z3_verifier::run_result(func, "r1_"@);
    let two = z3_verifier::run_result(func, "r2_"@);
    let same = term::binary(TermOp::Eq, one, two);
    let v = seq![Form::All(inputs), term::negated(same)];
    lemma_equal_inputs(func.params@, n, m);
    lemma_all(inputs, m);
    lemma_all(v, m);
    assert(v[0] == Form::All(inputs) && v[1] == term::negated(same));
    assert(truth(v[1], m) == !truth(same, m));
    assert(one.sort() == two.sort());
    assert(truth(v[0], m) <==> all_hold(inputs, m));
    assert(all_hold(v, m) <==> truth(v[0], m) && truth(v[1], m));
    if one.sort() == Sort::Bool {
        assert(truth(one, m) == (m.truths)("r1_"@ + "result"@));
        assert(truth(two, m) == (m.truths)("r2_"@ + "result"@));
    } else {
        assert(number(one, m) == (m.numbers)("r1_"@ + "result"@));
        assert(number(two, m) == (m.numbers)("r2_"@ + "result"@));
    }
}

proof fn lemma_equal_inputs(params: Seq<(String, Type)>, n: int, m: Model)
    requires
        0 <= n <= params.len(),
    ensures
        all_hold(z3_verifier::equal_inputs(params, n), m) <==> forall|i: int|
            0 <= i < n ==> (m.numbers)("r1_"@ + (#[trigger] params[i]).0@) == (m.numbers)(
                "r2_"@ + params[i].0@,
            ),
    decreases n,
{
    if n > 0 {
        lemma_equal_inputs(params, n - 1, m);
        let had = z3_verifier::equal_inputs(params, n - 1);
        let now = z3_verifier::equal_inputs(params, n);
        let name = params[n - 1].0@;
        let one = term::int_var("r1_"@ + name);
        let two = term::int_var("r2_"@ + name);
        let last = term::binary(TermOp::Eq, one, two);
        assert(now == had.push(last));
        assert(number(one, m) == (m.numbers)("r1_"@ + name));
        assert(number(two, m) == (m.numbers)("r2_"@ + name));
        assert(truth(last, m) <==> number(one, m) == number(two, m));
        assert(all_hold(now, m) <==> all_hold(had, m) && truth(last, m)) by {
            if all_hold(now, m) {
                assert(truth(now[now.len() - 1], m));
                assert forall|i: int| 0 <= i < had.len() implies truth(#[trigger] had[i], m) by {
                    assert(truth(now[i], m));
                }
            }
        }
    }
}

} // verus!
