use blvm_spec_lock::attributes::{Contract, FunctionToVerify};
use blvm_spec_lock::contracts::ContractType;
use blvm_spec_lock::drift::{
    contracts_similar, detect_drift, format_drift_human, format_drift_json, is_bare_claim,
    is_suspect_universal, normal_forms_similar, row_of_unread, spec_section_matches_lock,
    trim_preview, unparseable_in_scope,
};
use blvm_spec_lock::formula_checks::formula_latex_parseable_for_verify;
use blvm_spec_lock::orange_paper::SpecParser;

fn function(name: &str, section: Option<&str>, contracts: Vec<Contract>) -> FunctionToVerify {
    FunctionToVerify {
        file_path: "src/x.rs".to_string(),
        function_name: name.to_string(),
        contracts,
        section: section.map(|s| s.to_string()),
        spec_name_override: None,
        formula_anchor: None,
        constant_anchor: None,
        function_sig: None,
    }
}

fn contract(condition: &str, derived: bool) -> Contract {
    Contract {
        contract_type: ContractType::Ensures,
        condition: condition.to_string(),
        expr: None,
        is_spec_derived: derived,
    }
}

#[test]
fn formula_parse_gate_accepts_known_witness_style_body() {
    assert!(formula_latex_parseable_for_verify("true"));
    assert!(formula_latex_parseable_for_verify(r" x \leq y "));
}

#[test]
fn formula_parse_gate_accepts_cdot_times_unicode_comparison() {
    assert!(formula_latex_parseable_for_verify(r"w \cdot h \leq z"));
    assert!(formula_latex_parseable_for_verify(r"a × b ≤ c"));
    assert!(formula_latex_parseable_for_verify(r"\mathrm{X} >= 0"));
}

#[test]
fn formula_parse_gate_accepts_unicode_logic_ne_minus_implication() {
    assert!(formula_latex_parseable_for_verify(r"p ≠ q"));
    assert!(formula_latex_parseable_for_verify(r"a − b ≤ c"));
    assert!(formula_latex_parseable_for_verify(r"x ∧ y ≤ z"));
    assert!(formula_latex_parseable_for_verify(r"m ∨ n ≥ k"));
    assert!(formula_latex_parseable_for_verify(r"a ⇒ x ≤ y"));
}

#[test]
fn formula_parse_gate_rejects_empty_or_pure_noise() {
    assert!(!formula_latex_parseable_for_verify(""));
    assert!(!formula_latex_parseable_for_verify("   "));
    assert!(!formula_latex_parseable_for_verify("\\notProbablyValidRust blah"));
}

#[test]
fn section_prefix_does_not_match_sibling_minor() {
    assert!(!spec_section_matches_lock("5.10", "5.1"));
    assert!(!spec_section_matches_lock("5.1", "5.1.1"));
}

#[test]
fn section_prefix_matches_descendants() {
    assert!(spec_section_matches_lock("5.1.1", "5.1"));
    assert!(spec_section_matches_lock("5.1", "5.1"));
}

#[test]
fn contracts_are_similar_up_to_case_and_spaces() {
    assert!(contracts_similar("Result >= 0", "result>=0"));
    assert!(contracts_similar("TRUE", "result == 5"));
    assert!(contracts_similar("result >= 0", "result >= 0 && result < 5"));
    assert!(!contracts_similar("result >= 0", "result <= 0"));
    assert!(normal_forms_similar("true", "x"));
    assert!(!normal_forms_similar("x", "true"));
}

#[test]
fn bare_claims_are_suspect() {
    assert!(is_suspect_universal("result = \\text{true}", "result ==  true"));
    assert!(is_bare_claim("result = false", "result==false"));
    assert!(!is_suspect_universal("x \\IMPLIES result = true", "result == true"));
    assert!(!is_bare_claim("result = 0", "result == 0"));
}

#[test]
fn previews_are_cut() {
    assert_eq!(trim_preview(" a \n b ", 10), "a b");
    assert_eq!(trim_preview("abcdefgh", 7), "abcd...");
    assert_eq!(trim_preview("abc", 2), "...");
}

#[test]
fn unread_conditions_are_cut_at_a_character() {
    let long = "é".repeat(60);
    let row = row_of_unread("5.1", "F", &long);
    assert_eq!(row.condition, format!("{}...", "é".repeat(38)));
    let short = "x".repeat(80);
    assert_eq!(row_of_unread("5.1", "F", &short).condition, short);
    let more = "x".repeat(81);
    assert_eq!(row_of_unread("5.1", "F", &more).condition, format!("{}...", "x".repeat(77)));
}

#[test]
fn scope_follows_the_functions() {
    let fs = vec![function("a", Some("5.1"), vec![]), function("b", None, vec![])];
    assert!(unparseable_in_scope("5.1.2", &fs));
    assert!(!unparseable_in_scope("5.10", &fs));
}

#[test]
fn drift_of_functions_alone() {
    let fs = vec![
        function("unplaced", None, vec![]),
        function("bare", Some("5.1"), vec![]),
        function(
            "moved",
            Some("5.2"),
            vec![contract("result <= 1", false), contract("result >= 0", true)],
        ),
        function(
            "same",
            Some("5.3"),
            vec![contract("result >= 0", false), contract("RESULT>=0", true)],
        ),
    ];
    let d = detect_drift(&fs, None, false, false);
    assert_eq!(d.auto_inferred.len(), 1);
    assert_eq!(d.auto_inferred[0].function_name, "unplaced");
    assert_eq!(d.missing_from_spec.len(), 1);
    assert_eq!(d.missing_from_spec[0].function_name, "bare");
    assert_eq!(d.mismatched_contracts.len(), 1);
    let m = &d.mismatched_contracts[0];
    assert_eq!(m.function.function_name, "moved");
    assert_eq!(m.section, "5.2");
    assert_eq!(m.orange_paper_contract, "result >= 0");
    assert_eq!(m.implementation_contract, "result <= 1");
    let text = format_drift_human(&d);
    assert!(text.contains("  Function: moved (Section 5.2)\n    Orange Paper: result >= 0\n    Implementation: result <= 1\n\n"));
    assert!(text.contains("  Mismatched contracts: 1\n  Missing from spec: 1\n"));
    assert!(!text.contains("No drift detected"));
    let json = format_drift_json(&d);
    assert!(json.contains("\"implementation_contract\":\"result <= 1\""));
    assert!(json.contains("\"missing_from_spec\":[{\"file\":\"src/x.rs\",\"function\":\"bare\"}]"));
}

#[test]
fn no_drift_is_said() {
    let fs = vec![function("ok", Some("5.1"), vec![contract("result >= 0", true)])];
    let d = detect_drift(&fs, None, true, true);
    let text = format_drift_human(&d);
    assert_eq!(
        text,
        "=== Spec Drift Detection Report ===\n\nSummary:\n--------\n  Mismatched contracts: 0\n  Missing from spec: 0\n  Unparseable spec contracts: 0\n  Unparseable **Formula** (`F_*`): 0\n  Auto-inferred: 0\n  Missing implementations: 0\n\n✅ No drift detected! Spec and implementation are in sync.\n"
    );
}

#[test]
fn formulas_out_of_scope_are_counted() {
    let md = "## 5.1 One\n\n**Formula** (**F_Bad**):\n\n$$\\notProbablyValidRust blah$$\n\n## 6.1 Two\n\n**Formula** (**F_Worse**):\n\n$$\\notProbablyValidRust blah$$\n";
    let mut parser = SpecParser::new(md.to_string());
    parser.parse().unwrap();
    let fs = vec![function("f", Some("5.1"), vec![contract("true", true)])];
    let all = detect_drift(&fs, Some(&parser), false, false);
    assert_eq!(all.unparseable_formulas.len(), 2);
    assert_eq!(all.unparseable_formulas_omitted_outside_scope, 0);
    let scoped = detect_drift(&fs, Some(&parser), true, true);
    assert_eq!(scoped.unparseable_formulas.len(), 1);
    assert_eq!(scoped.unparseable_formulas[0].id, "F_Bad");
    assert_eq!(scoped.unparseable_formulas_omitted_outside_scope, 1);
    assert!(format_drift_human(&scoped).contains(
        "  Unparseable formulas outside scoped sections (omitted): 1\n"
    ));
}

#[test]
fn true_is_the_weakest_contract_of_a_specification() {
    for code in ["", "x", "result >= 0", "FALSE"] {
        assert!(contracts_similar("true", code));
        assert!(contracts_similar(" T R u e ", code));
    }
    assert!(!contracts_similar("result >= 0", "true"));
}

#[test]
fn similarity_goes_by_normal_forms_and_both_ways() {
    assert!(contracts_similar("Result >= 0", "result>=0"));
    assert!(contracts_similar("result >= 0 && x > 1", "x>1"));
    assert!(contracts_similar("x>1", "result >= 0 && x > 1"));
    assert!(!contracts_similar("x > 1", "y > 1"));
    assert!(!contracts_similar("y > 1", "x > 1"));
}

#[test]
fn a_scope_only_takes_away() {
    let bad = "$$\\notProbablyValidRust blah$$";
    let md = format!(
        "## 5.1 One\n\n**Formula** (**F_A**):\n\n{bad}\n\n**Formula** (**F_B**):\n\n{bad}\n\n## 6.1 Two\n\n**Formula** (**F_C**):\n\n{bad}\n\n## 5.1.2 Three\n\n**Formula** (**F_D**):\n\n{bad}\n"
    );
    let mut parser = SpecParser::new(md);
    parser.parse().unwrap();
    let fs = vec![
        function("f", Some("5.1"), vec![contract("true", true)]),
        function("g", None, vec![]),
        function("h", Some("6"), vec![contract("x > 1", false), contract("y > 1", true)]),
    ];
    let fs_narrow = vec![function("f", Some("5.1"), vec![contract("true", true)])];
    let full = detect_drift(&fs_narrow, Some(&parser), false, false);
    let scoped = detect_drift(&fs_narrow, Some(&parser), true, true);
    let in_scope: Vec<&String> = full
        .unparseable_formulas
        .iter()
        .filter(|x| unparseable_in_scope(&x.section, &fs_narrow))
        .map(|x| &x.id)
        .collect();
    let kept: Vec<&String> = scoped.unparseable_formulas.iter().map(|x| &x.id).collect();
    assert_eq!(kept, in_scope);
    assert_eq!(kept.len(), 3);
    assert_eq!(full.unparseable_formulas_omitted_outside_scope, 0);
    assert_eq!(scoped.unparseable_formulas_omitted_outside_scope, 1);
    let a = detect_drift(&fs, Some(&parser), false, false);
    let b = detect_drift(&fs, Some(&parser), true, true);
    assert_eq!(a.mismatched_contracts.len(), 1);
    assert_eq!(b.mismatched_contracts.len(), 1);
    assert_eq!(a.auto_inferred.len(), b.auto_inferred.len());
    assert_eq!(a.missing_from_spec.len(), b.missing_from_spec.len());
}
