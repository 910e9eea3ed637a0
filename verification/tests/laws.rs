use blvm_spec_lock::ast::{BinOp, Block, Expr, FnItem, IntLit, Lit, Path, Stmt, Type};
use blvm_spec_lock::attributes;
use blvm_spec_lock::attributes::FunctionToVerify;
use blvm_spec_lock::condition::{
    extract_parseable_condition, is_result_equality, is_result_inequality,
};
use blvm_spec_lock::contracts::{extract_contracts, Attr, ContractType};
use blvm_spec_lock::coverage::{parse_verify_json_witness_rollups, WitnessVerifyRollup};
use blvm_spec_lock::drift::detect_drift;
use blvm_spec_lock::filters::filter_functions;
use blvm_spec_lock::formula_checks::{phase_of_ruling, Z3FormulaPhase};
use blvm_spec_lock::orange_paper::{section_id_subsumes_formula_section, SpecParser};
use blvm_spec_lock::output::{escape, format_verify_json_report, VerifiedRow};
use blvm_spec_lock::spec_extract::{extract_properties_from_block, extract_theorems};
use blvm_spec_lock::spec_text::translate_property_to_rust;
use blvm_spec_lock::spec_types::StandalonePropertyType;
use blvm_spec_lock::term::{bool_term, int_term, var_term, Sort, Term, TermOp};
use blvm_spec_lock::text_order::is_before;
use blvm_spec_lock::vars::VarMap;
use blvm_spec_lock::verify::{
    obligations, report_contract, solver_task, solver_timeout, solver_unknown_partial_reason,
    verify_function, FailureKind, PartialReason, SolverTask, VerificationResult,
};
use blvm_spec_lock::z3_translator::{TranslationError, Z3Translator};
use blvm_spec_lock::z3_verifier;
use blvm_spec_lock::z3_verifier::{
    contract_verdict, determinism_verdict, Counterexample, SolverAnswer, Z3Verifier,
};
use std::rc::Rc;

fn name(s: &str) -> Expr {
    Expr::Path(Path { segments: vec![s.to_string()], bare: true })
}

fn value(digits: &str) -> Expr {
    Expr::Lit(Lit::Int(IntLit {
        text: digits.to_string(),
        digits: digits.to_string(),
        complaint: String::new(),
    }))
}

fn binary(op: BinOp, a: Expr, b: Expr) -> Expr {
    Expr::Binary(op, Box::new(a), Box::new(b))
}

fn function(name: &str, section: Option<&str>) -> FunctionToVerify {
    FunctionToVerify {
        file_path: "src/a.rs".to_string(),
        function_name: name.to_string(),
        contracts: vec![],
        section: section.map(|s| s.to_string()),
        spec_name_override: None,
        formula_anchor: None,
        constant_anchor: None,
        function_sig: None,
    }
}

fn successor() -> FnItem {
    FnItem {
        name: "next".to_string(),
        params: vec![("x".to_string(), Type::Path("i64".to_string(), None))],
        output: Some(Type::Path("i64".to_string(), None)),
        body: Block {
            stmts: vec![Stmt::Tail(binary(BinOp::Plus, name("x"), value("1")), true)],
        },
    }
}

fn postcondition(text: &str, e: Expr) -> attributes::Contract {
    attributes::Contract {
        contract_type: ContractType::Ensures,
        condition: text.to_string(),
        expr: Some(Rc::new(e)),
        is_spec_derived: false,
    }
}

#[test]
fn a_written_report_is_read_back() {
    let mut formula = function("f", Some("1.1"));
    formula.formula_anchor = Some("F_\"x\"\n".to_string());
    let mut constant = function("c", None);
    constant.constant_anchor = Some("C_x".to_string());
    let mut second = function("d", None);
    second.constant_anchor = Some("C_y".to_string());
    let results: Vec<VerifiedRow> = vec![
        (formula, VerificationResult::Passed { body_translated: true }),
        (constant, VerificationResult::NoContracts { section: "?".to_string() }),
        (second, VerificationResult::NotImplemented),
        (function("g", None), VerificationResult::NotImplemented),
    ];
    let written = format_verify_json_report(&results, None);
    let (formulas, constants) = parse_verify_json_witness_rollups(&written).unwrap();
    assert_eq!(
        formulas,
        Some(WitnessVerifyRollup { passed: 1, failed: 0, partial: 0, not_implemented: 0, total: 1 })
    );
    assert_eq!(
        constants,
        Some(WitnessVerifyRollup { passed: 0, failed: 1, partial: 0, not_implemented: 1, total: 2 })
    );
}

#[test]
fn filtering_twice_changes_nothing() {
    let all = || vec![function("get_x", Some("1.1")), function("set_x", None)];
    let once = filter_functions(all(), Some("src"), Some("*get*"), &vec![]);
    assert_eq!(once.len(), 1);
    let twice = filter_functions(once, Some("src"), Some("*get*"), &vec![]);
    assert_eq!(twice.len(), 1);
    assert_eq!(twice[0].function_name, "get_x");
}

#[test]
fn quotes_do_not_survive() {
    assert_eq!(escape("a \"b\" c"), "a &quot;b&quot; c");
    assert_eq!(escape("plain"), "plain");
}

#[test]
fn texts_are_ordered_by_their_signs() {
    assert!(is_before("a", "b"));
    assert!(is_before("a", "aa"));
    assert!(!is_before("b", "a"));
    assert!(!is_before("a", "a"));
    assert!(is_before("Z", "a"));
}

#[test]
fn bindings_of_names() {
    let mut vars = VarMap::new();
    vars.insert("x", int_term(1));
    vars.insert("y", bool_term(true));
    vars.insert("x", int_term(2));
    assert_eq!(vars.len(), 2);
    assert!(matches!(&*vars.get("x").unwrap(), Term::Int(2)));
    assert!(matches!(&*vars.get("y").unwrap(), Term::Bool(true)));
    vars.remove("x");
    assert!(vars.get("x").is_none());
    assert_eq!(vars.len(), 1);
    let z = vars.entry("z", var_term("z", Sort::Int));
    assert!(matches!(&*z, Term::Var(_, Sort::Int)));
    let again = vars.entry("z", int_term(5));
    assert!(matches!(&*again, Term::Var(_, Sort::Int)));
}

#[test]
fn statements_on_two_results() {
    assert!(is_result_equality("result(a) == result(b)"));
    assert!(!is_result_equality("result(a) != result(b)"));
    assert!(is_result_inequality(r"result(a) \neq result(b)"));
    assert!(is_result_inequality("outputs may differ"));
    assert!(!is_result_inequality("result >= 0"));
    assert_eq!(extract_parseable_condition("result(a) == result(b)").as_deref(), Some("true"));
    assert_eq!(
        extract_parseable_condition(r"result(a) \neq result(b)").as_deref(),
        Some("true")
    );
}

#[test]
fn lower_bits_are_bounded() {
    assert_eq!(
        extract_parseable_condition("extracts lower 16 bits of the word").as_deref(),
        Some("result >= 0 && result < 65536")
    );
    assert_eq!(
        extract_parseable_condition("extracts bit 31 of the word").as_deref(),
        Some("(result == true || result == false)")
    );
    assert_eq!(
        extract_parseable_condition(r"result \in \mathbb{N}").as_deref(),
        Some("result >= 0")
    );
    assert_eq!(extract_parseable_condition("//www.itu.int/rec").as_deref(), Some("true"));
}

#[test]
fn rulings_on_formulas() {
    assert!(matches!(
        phase_of_ruling(z3_verifier::VerificationResult::Verified { body_translated: false }),
        Z3FormulaPhase::SatSmokeOk
    ));
    assert!(matches!(
        phase_of_ruling(z3_verifier::VerificationResult::Failed { counterexample: None }),
        Z3FormulaPhase::UnsatContradiction
    ));
    match phase_of_ruling(z3_verifier::VerificationResult::Unknown { reason: "r".to_string() }) {
        Z3FormulaPhase::Unknown { reason } => assert_eq!(reason, "r"),
        _ => panic!("expected Unknown"),
    }
    match phase_of_ruling(z3_verifier::VerificationResult::Error { error: "e".to_string() }) {
        Z3FormulaPhase::Error { message } => assert_eq!(message, "e"),
        _ => panic!("expected Error"),
    }
}

#[test]
fn reasons_of_the_solver() {
    assert_eq!(solver_unknown_partial_reason("Timed OUT"), PartialReason::Z3Timeout);
    assert_eq!(solver_unknown_partial_reason("incomplete"), PartialReason::Z3Unknown);
    assert_eq!(solver_timeout(0, 5000), 5000);
    assert_eq!(solver_timeout(7, 5000), 7000);
}

#[test]
fn contracts_of_attributes() {
    let attr = |segments: Vec<&str>, arg: Option<Expr>| Attr {
        path: Path {
            bare: segments.len() == 1,
            segments: segments.iter().map(|s| s.to_string()).collect(),
        },
        tokens: String::new(),
        arg: arg.map(|e| ("x".to_string(), Rc::new(e))),
        inner: None,
    };
    let attrs = vec![
        attr(vec!["ensures"], Some(name("a"))),
        attr(vec!["blvm_spec_lock", "requires"], Some(name("b"))),
        attr(vec!["axiom"], None),
        attr(vec!["other", "ensures"], Some(name("c"))),
        attr(vec!["axiom"], Some(name("d"))),
    ];
    let kinds: Vec<ContractType> =
        extract_contracts(&attrs).iter().map(|c| c.contract_type).collect();
    assert_eq!(kinds, vec![ContractType::Ensures, ContractType::Requires, ContractType::Axiom]);
}

#[test]
fn expressions_become_terms() {
    let tr = Z3Translator::new(5000);
    let sum = tr.translate_expr(&binary(BinOp::Plus, name("x"), value("1"))).unwrap();
    match &*sum {
        Term::Binary(TermOp::Plus, a, b) => {
            assert!(matches!(&**a, Term::Var(n, Sort::Int) if n == "x"));
            assert!(matches!(&**b, Term::Int(1)));
        }
        _ => panic!("expected a sum"),
    }
    let fault = tr.translate_expr(&Expr::Other("await".to_string())).unwrap_err();
    assert_eq!(fault.message(), "Unsupported expression: await");
    let fault = tr.translate_expr(&Expr::Lit(Lit::Other("1.5".to_string()))).unwrap_err();
    assert_eq!(fault.message(), "Unsupported literal: 1.5");
    let odd = BinOp::Other("^".to_string());
    let fault = tr.translate_expr(&binary(odd, name("x"), name("y"))).unwrap_err();
    assert_eq!(fault.message(), "Unsupported operator: ^");
    let truth = Expr::Lit(Lit::Bool(true));
    let fault = tr.translate_expr(&binary(BinOp::Plus, truth, name("y"))).unwrap_err();
    assert!(fault.message().starts_with("Type error: "));
    assert_eq!(TranslationError::ParseError("p".to_string()).message(), "Parse error: p");
}

#[test]
fn a_failure_has_a_witness() {
    let v = Z3Verifier::new(5000);
    let f = successor();
    let contract = blvm_spec_lock::contracts::Contract {
        contract_type: ContractType::Ensures,
        condition: Rc::new(binary(BinOp::Ge, name("result"), value("0"))),
        comment: None,
    };
    let body = "(= result (+ x 1))";
    let witness = |n: &str| {
        SolverAnswer::Sat(Some(Counterexample {
            assignments: vec![(n.to_string(), "0".to_string())],
        }))
    };
    let q = v.contract_query(&contract, Some(&f), &vec![], &vec![]).unwrap();
    match contract_verdict(&q, body, witness("x")) {
        z3_verifier::VerificationResult::Failed { counterexample: Some(c) } => {
            assert_eq!(c.assignments.len(), 1);
        }
        _ => panic!("expected Failed"),
    }
    match contract_verdict(&q, body, witness("for_loop_3")) {
        z3_verifier::VerificationResult::Unknown { reason } => {
            assert!(reason.starts_with("Z3 found SAT but counterexample model"));
        }
        _ => panic!("expected Unknown"),
    }
    match contract_verdict(&q, "(= result result)", witness("x")) {
        z3_verifier::VerificationResult::Unknown { reason } => {
            assert!(reason.starts_with("Could not translate function body"));
        }
        _ => panic!("expected Unknown"),
    }
}

#[test]
fn two_runs_agree() {
    let v = Z3Verifier::new(5000);
    let q = v.determinism_query(&successor(), &vec![]).unwrap();
    assert!(matches!(
        determinism_verdict("(= r1_result (+ r1_x 1))", "(= r2_result (+ r2_x 1))", SolverAnswer::Unsat),
        z3_verifier::VerificationResult::Verified { body_translated: true }
    ));
    assert!(matches!(
        determinism_verdict("true", "true", SolverAnswer::Unsat),
        z3_verifier::VerificationResult::Unknown { .. }
    ));
    assert!(q.assertions.len() > 2);
    let mut without = successor();
    without.params = vec![];
    assert!(matches!(
        v.determinism_query(&without, &vec![]),
        Err(z3_verifier::VerificationResult::Verified { body_translated: false })
    ));
}

#[test]
fn verification_by_reports() {
    let mut f = function("next", Some("1.1"));
    f.function_sig = Some(Rc::new(successor()));
    f.contracts =
        vec![postcondition("result > x", binary(BinOp::Gt, name("result"), name("x")))];
    let cases = obligations(&f);
    assert_eq!(cases.len(), 1);
    assert_eq!(solver_task(&cases[0], &f.function_sig), SolverTask::Contract);
    let verified = z3_verifier::VerificationResult::Verified { body_translated: true };
    let reports = vec![report_contract(&verified)];
    assert!(matches!(
        verify_function(&f, Some(&reports)),
        VerificationResult::Passed { body_translated: true }
    ));
    let violated = z3_verifier::VerificationResult::Failed {
        counterexample: Some(Counterexample {
            assignments: vec![("x".to_string(), "1".to_string())],
        }),
    };
    match verify_function(&f, Some(&vec![report_contract(&violated)])) {
        VerificationResult::Failed { contract, reason, kind, .. } => {
            assert_eq!(contract, "Ensures");
            assert_eq!(
                reason,
                "Z3: Contract violated. Counterexample: {\"x\": \"1\"} (1 total failures)"
            );
            assert_eq!(kind, FailureKind::Counterexample);
        }
        _ => panic!("expected Failed"),
    }
    assert!(!matches!(verify_function(&f, None), VerificationResult::Passed { .. }));
}

#[test]
fn types_alone_can_settle_a_function() {
    let mut f = function("count", Some("1.1"));
    let mut item = successor();
    item.output = Some(Type::Path("u64".to_string(), None));
    f.function_sig = Some(Rc::new(item));
    assert!(matches!(
        verify_function(&f, None),
        VerificationResult::Passed { body_translated: false }
    ));
    match verify_function(&function("nothing", None), None) {
        VerificationResult::NoContracts { section } => assert_eq!(section, "?"),
        _ => panic!("expected NoContracts"),
    }
}

const SPEC: &str = "## 4.1 Monetary Constants\n\n$C = 10^8$ (satoshis per coin)\n\n## 6.1 Subsidy\n\n**GetBlockSubsidy**: $\\mathbb{N} \\rightarrow \\mathbb{Z}$\n\n**Properties**:\n- Non-negative: $\\text{GetBlockSubsidy}(h) \\geq 0$\n\n## 8.2.2 Encoding\n\n**Property** (Header Round-Trip): Decoding undoes encoding.\n\n$$\\text{DeserializeHeader}(\\text{SerializeHeader}(h)) = h$$\n";

#[test]
fn a_specification_is_looked_up() {
    let mut p = SpecParser::new(SPEC.to_string());
    p.parse().unwrap();
    let ids: Vec<&str> = p.iter_sections().iter().map(|s| s.id.as_str()).collect();
    assert_eq!(ids, vec!["4.1", "6.1", "8.2.2"]);
    assert_eq!(p.get_section_functions("6.1").len(), 1);
    assert!(p.get_section_functions("9.9").is_empty());
    assert_eq!(p.get_function("GetBlockSubsidy").unwrap().section, "6.1");
    assert!(p.get_function("Unknown").is_none());
    assert!(p.find_function("6.1", Some("getblocksubsidy")).is_some());
    assert_eq!(p.find_function_anywhere("GetBlockSubsidy").unwrap().1, "6.1");
    assert!(p.find_theorem_by_function_name("GetBlockSubsidy").is_none());
    assert!(p.get_section_theorems("6.1").is_empty());
    let constants = p.extract_constants();
    assert_eq!(constants.len(), 1);
    assert_eq!(constants[0].name, "C");
    assert_eq!(constants[0].rust_expr, "100_000_000");
    assert_eq!(p.get_section_constants("4.1").len(), 1);
    let properties = p.get_all_standalone_properties();
    assert_eq!(properties.len(), 1);
    assert_eq!(properties[0].property_type, StandalonePropertyType::RoundTrip);
    assert_eq!(properties[0].outer_func.as_deref(), Some("DeserializeHeader"));
    assert_eq!(properties[0].inner_func.as_deref(), Some("SerializeHeader"));
    assert!(p.find_subsection("6.1.1").is_none());
    assert_eq!(p.find_subsection("8.2.2.1").map(|found| found.1), None);
    let (inputs, output) = SpecParser::parse_signature("ℕ → ℤ").unwrap();
    assert_eq!(inputs, vec!["ℕ"]);
    assert_eq!(output, "ℤ");
    assert!(SpecParser::parse_signature("ℕ -> ℤ").is_none());
}

#[test]
fn specifications_are_merged() {
    let read = |s: &str| {
        let mut p = SpecParser::new(s.to_string());
        p.parse().unwrap();
        p
    };
    let mut a = read("## 1.1 A\n\ntext\n");
    a.merge(read("## 1.2 B\n\ntext\n")).unwrap();
    assert_eq!(a.iter_sections().len(), 2);
    assert!(a.merge(read("## 1.2 C\n\ntext\n")).is_err());
    assert!(a.find_section("1.1").is_some());
    assert!(section_id_subsumes_formula_section("5", "5.2"));
    assert!(section_id_subsumes_formula_section("5.2", "5.2"));
    assert!(!section_id_subsumes_formula_section("5.2", "5.21"));
}

#[test]
fn parts_of_a_section() {
    let ps = extract_properties_from_block(
        "**Properties**:\n- Non-negative: $\\text{F}(h) \\geq 0$\n",
    );
    assert_eq!(ps.len(), 1);
    assert_eq!(ps[0].name, "Non-negative");
    assert!(extract_theorems("no theorem here", "F").is_empty());
    assert!(translate_property_to_rust(r"\text{F}(h) \geq 0", "F").contains("result"));
}

#[test]
fn unread_formulas_are_reported_or_counted() {
    let md = "## 5.2 One\n\n**Formula** (**F_A**):\n\n$$\\notProbablyValidRust blah$$\n\n## 7.1 Two\n\n**Formula** (**F_B**):\n\n$$\\notProbablyValidRust blah$$\n";
    let mut p = SpecParser::new(md.to_string());
    p.parse().unwrap();
    let fs = vec![function("f", Some("5.2"))];
    let all = detect_drift(&fs, Some(&p), false, false);
    assert_eq!(all.unparseable_formulas.len(), 2);
    assert_eq!(all.unparseable_formulas_omitted_outside_scope, 0);
    let scoped = detect_drift(&fs, Some(&p), false, true);
    assert_eq!(scoped.unparseable_formulas.len(), 1);
    assert_eq!(scoped.unparseable_formulas[0].id, "F_A");
    assert_eq!(scoped.unparseable_formulas_omitted_outside_scope, 1);
}

#[test]
fn constants_of_the_whole_fourth_section_are_found() {
    let md = "## 4.10 Late\n\n$L = 9$ (l)\n\n## 4.5 Extra\n\n$K = 7$ (k)\n\n## 5.1 Other\n\n$M = 8$ (m)\n";
    let mut p = SpecParser::new(md.to_string());
    p.parse().unwrap();
    let found = p.extract_constants();
    assert_eq!(found.len(), 2);
    assert_eq!(found[0].name, "K");
    assert_eq!(found[0].section, "4.5");
    assert_eq!(found[0].rust_type, "u64");
    assert_eq!(found[0].rust_expr, "7");
    assert_eq!(found[1].name, "L");
}
