use blvm_spec_lock::ast::{Arm, BinOp, Expr, FnItem, IntLit, Lit, Pat, Path};
use blvm_spec_lock::attributes;
use blvm_spec_lock::attributes::CalleePostcond;
use blvm_spec_lock::contracts::{Contract, ContractType};
use blvm_spec_lock::formula_checks::{smoke_contract, Z3FormulaPhase};
use blvm_spec_lock::source::{read_expression, read_source};
use blvm_spec_lock::term::{Sort, Term, TermOp};
use blvm_spec_lock::verify::{callee_fact, contract_question};
use blvm_spec_lock::z3_tables::parse_let_option_result_pat;
use blvm_spec_lock::z3_translator::Z3Translator;
use blvm_spec_lock::z3_verifier::{
    contract_verdict, smoke_verdict, substitute_result_ident, Counterexample, SolverAnswer,
    VerificationResult, Z3Verifier,
};
use std::rc::Rc;

fn name(s: &str) -> Expr {
    Expr::Path(Path { segments: vec![s.to_string()], bare: true })
}

fn number(text: &str, digits: &str) -> Lit {
    Lit::Int(IntLit {
        text: text.to_string(),
        digits: digits.to_string(),
        complaint: String::new(),
    })
}

fn value(digits: &str) -> Expr {
    Expr::Lit(number(digits, digits))
}

fn binary(op: BinOp, a: Expr, b: Expr) -> Expr {
    Expr::Binary(op, Box::new(a), Box::new(b))
}

fn postcondition(e: Expr) -> Contract {
    Contract { contract_type: ContractType::Ensures, condition: Rc::new(e), comment: None }
}

fn read_postcondition(s: &str) -> Contract {
    Contract {
        contract_type: ContractType::Ensures,
        condition: read_expression(s).expect("an expression"),
        comment: None,
    }
}

#[derive(Clone, Copy, PartialEq, Debug)]
enum Worth {
    Number(i128),
    Truth(bool),
}

fn number_of(v: Worth) -> i128 {
    match v {
        Worth::Number(n) => n,
        Worth::Truth(_) => panic!("a number was wanted"),
    }
}

fn truth_of(v: Worth) -> bool {
    match v {
        Worth::Truth(b) => b,
        Worth::Number(_) => panic!("a truth value was wanted"),
    }
}

fn evaluate(t: &Term, values: &Vec<(String, Worth)>) -> Worth {
    match t {
        Term::Int(n) => Worth::Number(*n),
        Term::Bool(b) => Worth::Truth(*b),
        Term::Var(x, _) => values.iter().find(|(n, _)| n == x).expect("a value").1,
        Term::Call(f, args, _) => {
            let a = number_of(evaluate(&args[0], values));
            let b = number_of(evaluate(&args[1], values));
            match f.as_str() {
                "shr" => Worth::Number(a.div_euclid(1i128 << b)),
                "shl" => Worth::Number(a * (1i128 << b)),
                _ => panic!("no meaning for {f}"),
            }
        }
        Term::Binary(op, a, b) => {
            let x = evaluate(a, values);
            let y = evaluate(b, values);
            match op {
                TermOp::Plus => Worth::Number(number_of(x) + number_of(y)),
                TermOp::Minus => Worth::Number(number_of(x) - number_of(y)),
                TermOp::Times => Worth::Number(number_of(x) * number_of(y)),
                TermOp::Div => Worth::Number(number_of(x).div_euclid(number_of(y))),
                TermOp::Rem => Worth::Number(number_of(x).rem_euclid(number_of(y))),
                TermOp::Eq => Worth::Truth(x == y),
                TermOp::Lt => Worth::Truth(number_of(x) < number_of(y)),
                TermOp::Le => Worth::Truth(number_of(x) <= number_of(y)),
                TermOp::Gt => Worth::Truth(number_of(x) > number_of(y)),
                TermOp::Ge => Worth::Truth(number_of(x) >= number_of(y)),
                TermOp::Or => Worth::Truth(truth_of(x) || truth_of(y)),
                TermOp::Implies => Worth::Truth(!truth_of(x) || truth_of(y)),
            }
        }
        Term::Not(a) => Worth::Truth(!truth_of(evaluate(a, values))),
        Term::Neg(a) => Worth::Number(-number_of(evaluate(a, values))),
        Term::All(v) => Worth::Truth(v.iter().all(|a| truth_of(evaluate(a, values)))),
        Term::Ite(c, a, b) => {
            if truth_of(evaluate(c, values)) {
                evaluate(a, values)
            } else {
                evaluate(b, values)
            }
        }
        Term::ForAll(_, _) => Worth::Truth(true),
    }
}

fn collect(t: &Term, out: &mut Vec<(String, Sort)>) {
    match t {
        Term::Var(x, s) => {
            if !out.iter().any(|(n, _)| n == x) {
                out.push((x.clone(), *s));
            }
        }
        Term::Call(_, args, _) => args.iter().for_each(|a| collect(a, out)),
        Term::Binary(_, a, b) => {
            collect(a, out);
            collect(b, out);
        }
        Term::Not(a) | Term::Neg(a) => collect(a, out),
        Term::All(v) => v.iter().for_each(|a| collect(a, out)),
        Term::Ite(c, a, b) => {
            collect(c, out);
            collect(a, out);
            collect(b, out);
        }
        _ => {}
    }
}

// Looks for values among `numbers` under which all terms hold.
fn decide(terms: &Vec<Rc<Term>>, numbers: &[i128]) -> SolverAnswer {
    let mut vars = Vec::new();
    terms.iter().for_each(|t| collect(t, &mut vars));
    let mut all: Vec<Vec<(String, Worth)>> = vec![vec![]];
    for (x, s) in &vars {
        let mut next = Vec::new();
        for had in &all {
            let choices: Vec<Worth> = match s {
                Sort::Int => numbers.iter().map(|n| Worth::Number(*n)).collect(),
                Sort::Bool => vec![Worth::Truth(false), Worth::Truth(true)],
            };
            for c in choices {
                let mut now = had.clone();
                now.push((x.clone(), c));
                next.push(now);
            }
        }
        all = next;
    }
    for values in &all {
        if terms.iter().all(|t| truth_of(evaluate(t, values))) {
            let assignments =
                values.iter().map(|(n, v)| (n.clone(), format!("{v:?}"))).collect();
            return SolverAnswer::Sat(Some(Counterexample { assignments }));
        }
    }
    SolverAnswer::Unsat
}

fn smoke(s: &str) -> VerificationResult {
    let v = Z3Verifier::new(5000);
    let c = read_postcondition(s);
    match v.smoke_query(&c) {
        Ok(terms) => smoke_verdict(&decide(&terms, &[-1, 0, 1])),
        Err(e) => e,
    }
}

#[test]
fn ensures_literal_true_is_sat() {
    assert!(matches!(smoke("true"), VerificationResult::Verified { .. }));
}

#[test]
fn result_eq_result_is_sat() {
    assert!(matches!(smoke("result == result"), VerificationResult::Verified { .. }));
}

#[test]
fn x_lt_x_is_unsat_contradiction() {
    assert!(matches!(smoke("x < x"), VerificationResult::Failed { .. }));
}

fn piecewise() -> Rc<FnItem> {
    let code = r#"
            fn _verify_f_subsidy_piecewise(height: u64) -> i64 {
                let k = height / 210000;
                match k {
                    0 => 5000000000_i64,
                    1 => 2500000000_i64,
                    _ => 0_i64,
                }
            }
        "#;
    read_source(code).expect("parse fn").remove(0).item
}

const HEIGHTS_AND_RESULTS: [i128; 10] = [
    -1, 0, 1, 209_999, 210_000, 419_999, 420_000, 2_500_000_000, 5_000_000_000, 5_000_000_001,
];

#[test]
fn test_piecewise_body_vs_ensures_uses_same_result_var() {
    let tr = Z3Translator::new(10000);
    let func = piecewise();
    let (mut shared_vars, type_constraints) =
        tr.build_shared_vars(&func.params, func.output.as_ref());
    let contract = read_postcondition("result >= 0 && result <= 5000000000");
    let ensures_term = tr
        .translate_contract_with_shared_vars(&contract, &mut shared_vars)
        .expect("ensures translation");
    let negated = Rc::new(Term::Not(ensures_term));
    let body_formula = tr
        .translate_function_body(&func, &mut shared_vars)
        .expect("body translation")
        .expect("body formula not None");
    let mut terms = type_constraints;
    terms.push(body_formula);
    terms.push(negated);
    let result = decide(&terms, &HEIGHTS_AND_RESULTS);
    assert!(matches!(result, SolverAnswer::Unsat), "Body should prove ensures");
}

#[test]
fn contract_question_and_verdict() {
    let v = Z3Verifier::new(10000);
    let func = piecewise();
    let holds = postcondition(binary(BinOp::Ge, name("result"), value("0")));
    let q = v.contract_query(&holds, Some(&*func), &vec![], &vec![]).unwrap();
    let answer = decide(&q.assertions, &HEIGHTS_AND_RESULTS);
    assert!(matches!(answer, SolverAnswer::Unsat));
    assert!(matches!(
        contract_verdict(&q, "(= result 5000000000)", answer),
        VerificationResult::Verified { body_translated: true }
    ));
    let fails = postcondition(binary(BinOp::Ge, name("result"), value("1")));
    let q = v.contract_query(&fails, Some(&*func), &vec![], &vec![]).unwrap();
    let answer = decide(&q.assertions, &HEIGHTS_AND_RESULTS);
    assert!(matches!(answer, SolverAnswer::Sat(_)));
    assert!(matches!(
        contract_verdict(&q, "(= result 5000000000)", answer),
        VerificationResult::Failed { counterexample: Some(_) }
    ));
    let q = v.contract_query(&fails, Some(&*func), &vec![], &vec![]).unwrap();
    assert!(matches!(
        contract_verdict(&q, "(= result 5000000000)", SolverAnswer::Unknown),
        VerificationResult::Unknown { .. }
    ));
}

#[test]
fn preconditions_have_no_smoke_check() {
    let v = Z3Verifier::new(5000);
    let c = Contract {
        contract_type: ContractType::Requires,
        condition: Rc::new(Expr::Lit(Lit::Bool(true))),
        comment: None,
    };
    match v.smoke_query(&c) {
        Err(VerificationResult::Error { error }) => assert_eq!(
            error,
            "check_ensures_formula_sat_smoke expects an Ensures contract"
        ),
        _ => panic!("expected an error"),
    }
}

#[test]
fn proven_postconditions_of_callees_are_told() {
    let post = |f: &str, c: &str| CalleePostcond {
        function_name: f.to_string(),
        condition: c.to_string(),
    };
    let fact = callee_fact(&post("get_block_subsidy", "result >= 0"));
    assert_eq!(fact.function_name, "get_block_subsidy");
    let left = match fact.condition.as_deref() {
        Some(Expr::Binary(BinOp::Ge, a, _)) => a,
        other => panic!("not a comparison: {other:?}"),
    };
    assert!(
        matches!(&**left, Expr::Path(p) if p.segments == vec!["call_get_block_subsidy_result"])
    );
    assert!(callee_fact(&post("f", "result >=")).condition.is_none());
    let f = read_source("fn wrapper(height: u64) -> i64 { get_block_subsidy(height) }")
        .unwrap()
        .remove(0);
    let c = attributes::Contract {
        contract_type: ContractType::Ensures,
        condition: "result >= 0".to_string(),
        expr: read_expression("result >= 0"),
        is_spec_derived: false,
    };
    let all = vec![c];
    let sig = Some(f.item);
    let told = vec![post("get_block_subsidy", "result >= 0")];
    let without = contract_question(&all[0], &sig, &all, &vec![], 5000).unwrap();
    let with = contract_question(&all[0], &sig, &all, &told, 5000).unwrap();
    assert!(!without.callee_facts_used);
    assert!(with.callee_facts_used);
    assert!(with.assertions.len() > without.assertions.len());
    assert!(matches!(decide(&without.assertions, &HEIGHTS_AND_RESULTS), SolverAnswer::Sat(_)));
    assert!(matches!(decide(&with.assertions, &HEIGHTS_AND_RESULTS), SolverAnswer::Unsat));
    let unread = attributes::Contract {
        contract_type: ContractType::Ensures,
        condition: "?".to_string(),
        expr: None,
        is_spec_derived: false,
    };
    assert_eq!(
        contract_question(&unread, &sig, &all, &told, 5000).unwrap_err().unwrap_err(),
        "Cannot verify: missing parsed expression"
    );
}

#[test]
fn formulas_by_themselves_are_read() {
    let c = smoke_contract(r" x \leq y ").unwrap();
    assert_eq!(c.contract_type, ContractType::Ensures);
    assert!(matches!(&*c.condition, Expr::Binary(BinOp::Le, _, _)));
    match smoke_contract(r"\forall x: x \geq result") {
        Err(Z3FormulaPhase::Error { message }) => assert_eq!(
            message,
            "extract_parseable_condition None (unexpected after static pass)"
        ),
        other => panic!("{other:?}"),
    }
}

#[test]
fn results_of_calls_are_substituted() {
    assert_eq!(substitute_result_ident("result + my_result", "r"), "r + my_result");
}

// The sort of a term in which every operation stands on operands of the sorts that it takes.
fn sort_of(t: &Term) -> Sort {
    match t {
        Term::Int(_) => Sort::Int,
        Term::Bool(_) => Sort::Bool,
        Term::Var(_, s) => *s,
        Term::Call(_, args, s) => {
            assert!(args.iter().all(|a| sort_of(a) == Sort::Int));
            *s
        }
        Term::Binary(op, a, b) => {
            let (x, y) = (sort_of(a), sort_of(b));
            match op {
                TermOp::Eq => {
                    assert!(x == y);
                    Sort::Bool
                }
                TermOp::Or | TermOp::Implies => {
                    assert!(x == Sort::Bool && y == Sort::Bool);
                    Sort::Bool
                }
                TermOp::Lt | TermOp::Le | TermOp::Gt | TermOp::Ge => {
                    assert!(x == Sort::Int && y == Sort::Int);
                    Sort::Bool
                }
                _ => {
                    assert!(x == Sort::Int && y == Sort::Int);
                    Sort::Int
                }
            }
        }
        Term::Not(a) => {
            assert!(sort_of(a) == Sort::Bool);
            Sort::Bool
        }
        Term::Neg(a) => {
            assert!(sort_of(a) == Sort::Int);
            Sort::Int
        }
        Term::All(v) => {
            assert!(v.iter().all(|a| sort_of(a) == Sort::Bool));
            Sort::Bool
        }
        Term::Ite(c, a, b) => {
            assert!(sort_of(c) == Sort::Bool);
            let x = sort_of(a);
            assert!(x == sort_of(b));
            x
        }
        Term::ForAll(_, a) => {
            assert!(sort_of(a) == Sort::Bool);
            Sort::Bool
        }
    }
}

#[test]
fn questions_are_well_sorted() {
    let v = Z3Verifier::new(10000);
    let func = piecewise();
    let e = || postcondition(binary(BinOp::Ge, name("result"), value("0")));
    let q = v.contract_query(&e(), Some(&*func), &vec![], &vec![]).unwrap();
    assert!(q.assertions.len() > 70);
    assert!(q.assertions.iter().all(|t| sort_of(t) == Sort::Bool));
    let smoke = v.smoke_query(&e()).unwrap();
    assert_eq!(smoke.len(), 71);
    assert!(smoke.iter().all(|t| sort_of(t) == Sort::Bool));
    let runs = v.determinism_query(&func, &vec![]).unwrap();
    assert!(runs.assertions.iter().all(|t| sort_of(t) == Sort::Bool));
    assert!(sort_of(&runs.first) == Sort::Bool && sort_of(&runs.second) == Sort::Bool);
}

#[test]
fn bit_operations_mean_what_they_say() {
    let tr = Z3Translator::new(10000);
    let and = || BinOp::BitAnd("&".to_string());
    let single = tr.translate_expr(&binary(and(), name("x"), value("8"))).unwrap();
    let swapped = tr.translate_expr(&binary(and(), value("8"), name("x"))).unwrap();
    let low = tr.translate_expr(&binary(and(), name("x"), value("7"))).unwrap();
    let right = tr.translate_expr(&binary(BinOp::Shr, name("x"), value("3"))).unwrap();
    let left = tr.translate_expr(&binary(BinOp::Shl, name("x"), value("5"))).unwrap();
    let numbers: [u64; 7] = [0, 1, 7, 8, 13, 255, 1_000_003];
    for x in numbers {
        let at = vec![("x".to_string(), Worth::Number(x as i128))];
        assert_eq!(evaluate(&single, &at), Worth::Number((x & 8) as i128));
        assert_eq!(evaluate(&swapped, &at), Worth::Number((8 & x) as i128));
        assert_eq!(evaluate(&low, &at), Worth::Number((x & 7) as i128));
        assert_eq!(evaluate(&right, &at), Worth::Number((x >> 3) as i128));
        assert_eq!(evaluate(&left, &at), Worth::Number((x << 5) as i128));
    }
    let other = tr.translate_expr(&binary(and(), name("x"), value("5"))).unwrap();
    assert!(matches!(&*other, Term::Call(f, _, Sort::Int) if f == "bitand"));
}

// What a term means where the two quantified constants have the given values.
fn instance(t: &Term, a: i128, b: i128) -> Worth {
    match t {
        Term::ForAll(names, f) => {
            let both = [a, b];
            let at: Vec<(String, Worth)> = names
                .iter()
                .enumerate()
                .map(|(i, n)| (n.clone(), Worth::Number(both[i])))
                .collect();
            evaluate(f, &at)
        }
        _ => panic!("a quantified term was wanted"),
    }
}

#[test]
fn what_is_said_of_shifts_holds() {
    let v = Z3Verifier::new(10000);
    let terms = v.smoke_query(&postcondition(Expr::Lit(Lit::Bool(true)))).unwrap();
    for t in &terms[..70] {
        for a in [0, 1, 5, 255, 1_000_003, i64::MAX as i128] {
            for b in [0, 1, 7, 30] {
                assert_eq!(instance(t, a, b), Worth::Truth(true));
            }
        }
    }
    assert_eq!(instance(&terms[69], 12, 64), Worth::Truth(true));
}

#[test]
fn models_of_a_question_refute_the_condition() {
    let v = Z3Verifier::new(10000);
    let func = piecewise();
    let fails = postcondition(binary(BinOp::Ge, name("result"), value("1")));
    let q = v.contract_query(&fails, Some(&*func), &vec![], &vec![]).unwrap();
    let at = vec![
        ("height".to_string(), Worth::Number(420_000)),
        ("result".to_string(), Worth::Number(0)),
    ];
    assert!(q.assertions.iter().all(|t| evaluate(t, &at) == Worth::Truth(true)));
    match &**q.assertions.last().unwrap() {
        Term::Not(c) => assert_eq!(evaluate(c, &at), Worth::Truth(false)),
        _ => panic!("a negation was wanted"),
    }
}

#[test]
fn the_first_arm_that_fits_is_taken() {
    let tr = Z3Translator::new(10000);
    let arm = |pat: Pat, digits: &str| Arm { pat, guard: false, body: value(digits) };
    let e = Expr::Match(
        Box::new(name("k")),
        vec![
            arm(Pat::Lit(number("3", "3")), "10"),
            arm(Pat::Lit(number("4", "4")), "20"),
            arm(Pat::Lit(number("3", "3")), "30"),
            arm(Pat::Wild, "40"),
        ],
    );
    let t = tr.translate_expr(&e).unwrap();
    for (k, r) in [(3, 10), (4, 20), (5, 40)] {
        let at = vec![("k".to_string(), Worth::Number(k))];
        assert_eq!(evaluate(&t, &at), Worth::Number(r));
    }
}

#[test]
fn arms_of_options_are_a_choice() {
    let tr = Z3Translator::new(10000);
    for code in [
        "match o { Some(x) => x, None => 0 }",
        "match o { Option::None => 0, Some(x) => x }",
        "match o { Ok(x) => x, Err(_) => 0 }",
    ] {
        let t = tr.translate_expr(&read_expression(code).unwrap()).unwrap();
        for (some, r) in [(true, 7), (false, 0)] {
            let at = vec![
                ("o_is_some".to_string(), Worth::Truth(some)),
                ("x".to_string(), Worth::Number(7)),
            ];
            assert_eq!(evaluate(&t, &at), Worth::Number(r), "{code}");
        }
    }
}

#[test]
fn bindings_by_patterns_of_options() {
    let pattern = |code: &str| match &*read_expression(code).unwrap() {
        Expr::If(c, _, _) => match &**c {
            Expr::Let(p, _, _) => {
                parse_let_option_result_pat(p).map(|l| (l.binds, l.suffix, l.positive))
            }
            _ => panic!("no pattern in {code}"),
        },
        _ => panic!("no condition in {code}"),
    };
    let name = |s: &str| Some(s.to_string());
    assert_eq!(pattern("if let Some(x) = o { 1 }"), Some((name("x"), "is_some", true)));
    assert_eq!(pattern("if let None = o { 1 }"), Some((None, "is_some", false)));
    assert_eq!(pattern("if let Ok(x) = o { 1 }"), Some((name("x"), "is_ok", true)));
    assert_eq!(pattern("if let Err(e) = o { 1 }"), Some((name("e"), "is_ok", false)));
    assert_eq!(pattern("if let Err(_) = o { 1 }"), Some((None, "is_ok", false)));
    assert_eq!(pattern("if let y = o { 1 }"), None);
}

#[test]
fn returned_errors_are_guards() {
    let tr = Z3Translator::new(10000);
    for error in ["Err(1)", "Err"] {
        let code = format!(
            "fn f(x: i64) -> i64 {{ if x > 5 {{ return {error}; }} x + 1 }}"
        );
        let func = read_source(&code).unwrap().remove(0).item;
        let (mut vars, _) = tr.build_shared_vars(&func.params, func.output.as_ref());
        let body = tr.translate_function_body(&func, &mut vars).unwrap().unwrap();
        let at = |x: i128, r: i128| {
            vec![("x".to_string(), Worth::Number(x)), ("result".to_string(), Worth::Number(r))]
        };
        assert_eq!(evaluate(&body, &at(5, 6)), Worth::Truth(true), "{error}");
        assert_eq!(evaluate(&body, &at(6, 7)), Worth::Truth(false), "{error}");
        assert_eq!(evaluate(&body, &at(5, 7)), Worth::Truth(false), "{error}");
    }
}

#[test]
fn early_returns_count_before_a_last_expression() {
    let tr = Z3Translator::new(10000);
    for end in ["1", "return 1;", "return 1"] {
        let code = format!("fn f(x: i64) -> i64 {{ if x > 5 {{ return 100; }} {end} }}");
        let func = read_source(&code).unwrap().remove(0).item;
        let (mut vars, _) = tr.build_shared_vars(&func.params, func.output.as_ref());
        let body = tr.translate_function_body(&func, &mut vars).unwrap().unwrap();
        for (x, r, holds) in [(6, 100, true), (6, 1, false), (5, 1, true), (5, 100, false)] {
            let at = vec![
                ("x".to_string(), Worth::Number(x)),
                ("result".to_string(), Worth::Number(r)),
            ];
            assert_eq!(evaluate(&body, &at), Worth::Truth(holds), "{end}: {x}, {r}");
        }
    }
}

#[test]
fn early_returns_count_where_the_last_expression_cannot_be_read() {
    let tr = Z3Translator::new(10000);
    let code = "fn f(x: i64) -> i64 { if x > 5 { return 100; } async { 1 } }";
    let func = read_source(code).unwrap().remove(0).item;
    let (mut vars, _) = tr.build_shared_vars(&func.params, func.output.as_ref());
    let body = tr.translate_function_body(&func, &mut vars).unwrap().unwrap();
    for (x, r, holds) in [(6, 100, true), (6, 1, false), (5, 1, true)] {
        let at = vec![
            ("x".to_string(), Worth::Number(x)),
            ("result".to_string(), Worth::Number(r)),
        ];
        assert_eq!(evaluate(&body, &at), Worth::Truth(holds));
    }
}

#[test]
fn errors_and_early_returns_count_together() {
    let tr = Z3Translator::new(10000);
    let code =
        "fn f(x: i64) -> i64 { if x < 0 { return Err(1); } if x > 5 { return 100; } x + 1 }";
    let func = read_source(code).unwrap().remove(0).item;
    let (mut vars, _) = tr.build_shared_vars(&func.params, func.output.as_ref());
    let body = tr.translate_function_body(&func, &mut vars).unwrap().unwrap();
    for (x, r, holds) in [(-1, 0, false), (0, 1, true), (6, 100, true), (6, 7, false)] {
        let at = vec![
            ("x".to_string(), Worth::Number(x)),
            ("result".to_string(), Worth::Number(r)),
        ];
        assert_eq!(evaluate(&body, &at), Worth::Truth(holds));
    }
}
