use blvm_spec_lock::attributes::FunctionToVerify;
use blvm_spec_lock::formula_checks::{
    FormulaAnalysisRow, FormulaRegistryAnalysis, FormulaStaticOutcome, Z3FormulaPhase,
};
use blvm_spec_lock::output::{
    count_failures, escape, format_formula_verify_human, format_formula_verify_json_report,
    format_results, format_verify_json_report, name_of_file, stem_of, FormulaVerifyJsonFlags,
};
use blvm_spec_lock::verify::{
    failed_verification, FailureKind, PartialReason, VerificationResult,
};

fn function(formula: Option<&str>, constant: Option<&str>, section: &str) -> FunctionToVerify {
    FunctionToVerify {
        file_path: "src/x.rs".to_string(),
        function_name: "foo".to_string(),
        contracts: vec![],
        section: Some(section.to_string()),
        spec_name_override: None,
        formula_anchor: formula.map(|s| s.to_string()),
        constant_anchor: constant.map(|s| s.to_string()),
        function_sig: None,
    }
}

fn foo() -> FunctionToVerify {
    function(None, None, "6.1")
}

fn passed() -> VerificationResult {
    VerificationResult::Passed { body_translated: false }
}

#[test]
fn verify_json_report_includes_report_format_and_tool() {
    let results: Vec<(FunctionToVerify, VerificationResult)> = vec![];
    let s = format_verify_json_report(&results, None);
    assert!(s.contains("\"report_format\": 1"));
    assert!(s.contains("\"command\": \"verify\""));
    assert!(s.contains("\"name\": \"blvm-spec-lock\""));
    assert!(s.contains("\"summary\""));
    assert!(s.contains("\"passed\": 0"));
}

#[test]
fn verify_json_rows_include_anchor_kind() {
    let base = |fa: Option<&str>, ca: Option<&str>, expect: &str| {
        let mut f = function(fa, ca, "1.0");
        f.function_name = "witness".to_string();
        let s = format_verify_json_report(&vec![(f, passed())], None);
        assert!(
            s.contains(&format!("\"anchor_kind\": \"{expect}\"")),
            "expected anchor_kind {expect} in:\n{s}"
        );
    };
    base(None, None, "function");
    base(Some("F_X"), None, "formula");
    base(None, Some("C_Y"), "constant");
    base(Some("F_Z"), Some("C_Z"), "formula");
}

#[test]
fn formula_verify_json_uses_verify_formulas_command_and_static_shape() {
    let analysis = FormulaRegistryAnalysis {
        rows: vec![
            FormulaAnalysisRow {
                formula_id: "F_Test".into(),
                section: "9.9".into(),
                static_gate: FormulaStaticOutcome::Passed,
                z3_phase: Z3FormulaPhase::NotRequested,
            },
            FormulaAnalysisRow {
                formula_id: "F_Bad".into(),
                section: "1".into(),
                static_gate: FormulaStaticOutcome::Failed { message: "oops".into() },
                z3_phase: Z3FormulaPhase::SkippedDueToStatic,
            },
        ],
    };
    let s = format_formula_verify_json_report(
        &analysis,
        FormulaVerifyJsonFlags { z3_sat_requested: false, cargo_built_with_z3: false },
    );
    assert!(s.contains("\"command\": \"verify-formulas\""), "{s}");
    assert!(s.contains("\"formula_id\": \"F_Test\""), "{s}");
    assert!(s.contains("\"static_pass\": 1"), "{s}");
    assert!(s.contains("\"static_fail\": 1"), "{s}");
}

#[test]
fn verify_json_report_counts_passed() {
    let results = vec![(foo(), passed())];
    let s = format_verify_json_report(&results, None);
    assert!(s.contains("\"passed\": 1"));
    assert!(s.contains("\"total\": 1"));
}

#[test]
fn verify_json_report_includes_failure_detail() {
    let results = vec![(
        foo(),
        VerificationResult::Failed {
            contract: "Requires".to_string(),
            reason: "parse error".to_string(),
            kind: FailureKind::ParseError,
            partial_reason: None,
        },
    )];
    let s = format_verify_json_report(&results, None);
    assert!(s.contains("\"failure_kind\": \"parse_error\""));
}

#[test]
fn verify_json_report_includes_partial_detail() {
    let results = vec![(
        foo(),
        VerificationResult::Partial {
            verified: 1,
            total: 2,
            reason: Some("r".to_string()),
            partial_reason: Some(PartialReason::MissingZ3Build),
        },
    )];
    let s = format_verify_json_report(&results, None);
    assert!(s.contains("\"partial_reason\": \"missing_z3_build\""));
}

#[test]
fn verify_json_partial_reason_variants_emit_stable_strings() {
    for (partial_reason, needle) in [
        (PartialReason::Z3Unknown, "\"partial_reason\": \"z3_unknown\""),
        (PartialReason::Z3Timeout, "\"partial_reason\": \"z3_timeout\""),
        (
            PartialReason::UnsupportedTranslation,
            "\"partial_reason\": \"unsupported_translation\"",
        ),
        (PartialReason::MissingZ3Build, "\"partial_reason\": \"missing_z3_build\""),
        (PartialReason::IncompleteCoverage, "\"partial_reason\": \"incomplete_coverage\""),
        (PartialReason::Other, "\"partial_reason\": \"other\""),
    ] {
        let results = vec![(
            foo(),
            VerificationResult::Partial {
                verified: 0,
                total: 1,
                reason: None,
                partial_reason: Some(partial_reason),
            },
        )];
        let s = format_verify_json_report(&results, None);
        assert!(s.contains(needle), "expected {needle} in:\n{s}");
    }
}

#[test]
fn verify_json_failure_kind_variants_emit_stable_strings() {
    for (kind, needle) in [
        (FailureKind::Counterexample, "\"failure_kind\": \"counterexample\""),
        (FailureKind::ParseError, "\"failure_kind\": \"parse_error\""),
        (FailureKind::SolverUnknown, "\"failure_kind\": \"solver_unknown\""),
        (FailureKind::SolverError, "\"failure_kind\": \"solver_error\""),
        (FailureKind::Tooling, "\"failure_kind\": \"tooling\""),
        (FailureKind::Other, "\"failure_kind\": \"other\""),
    ] {
        let results = vec![(
            foo(),
            VerificationResult::Failed {
                contract: "Requires".to_string(),
                reason: "r".to_string(),
                kind,
                partial_reason: None,
            },
        )];
        let s = format_verify_json_report(&results, None);
        assert!(s.contains(needle), "expected {needle} in:\n{s}");
    }
}

#[test]
fn verify_json_solver_unknown_failed_includes_partial_reason_timeout_heuristic() {
    let timeout_row = failed_verification(
        "Ensures",
        "Z3: Z3 verification unknown: timeout or complexity.",
        1,
    );
    let st = format_verify_json_report(&vec![(foo(), timeout_row)], None);
    assert!(st.contains("\"failure_kind\": \"solver_unknown\""), "{st}");
    assert!(st.contains("\"partial_reason\": \"z3_timeout\""), "{st}");

    let other_row =
        failed_verification("Ensures", "Z3: Z3 verification unknown: nondeterministic cause.", 1);
    let s2 = format_verify_json_report(&vec![(foo(), other_row)], None);
    assert!(s2.contains("\"failure_kind\": \"solver_unknown\""), "{s2}");
    assert!(s2.contains("\"partial_reason\": \"z3_unknown\""), "{s2}");
}

fn failed() -> VerificationResult {
    VerificationResult::Failed {
        contract: "Ensures".to_string(),
        reason: "say \"no\"".to_string(),
        kind: FailureKind::SolverUnknown,
        partial_reason: Some(PartialReason::Z3Timeout),
    }
}

fn partial() -> VerificationResult {
    VerificationResult::Partial {
        verified: 1,
        total: 3,
        reason: Some("why".to_string()),
        partial_reason: Some(PartialReason::Other),
    }
}

#[test]
fn human_report_exact() {
    let results = vec![
        (foo(), passed()),
        (foo(), failed()),
        (foo(), partial()),
        (foo(), VerificationResult::NoContracts { section: "6.1".to_string() }),
        (foo(), VerificationResult::NotImplemented),
    ];
    assert_eq!(
        format_results(&results, "anything"),
        "Running BLVM Spec Lock verification...\n\nsrc/x.rs::foo\n  ✅ Status: PASSED\n\nsrc/x.rs::foo\n  ❌ Status: FAILED\n    Contract: Ensures\n    Reason: say \"no\"\n    Kind: solver_unknown\n    Solver note: z3_timeout\n\nsrc/x.rs::foo\n  ⚠️  Status: PARTIAL (1 of 3 verified)\n    Partial reason: other\n    Reason: why\n\nsrc/x.rs::foo\n  ❌ Status: FAILED (no contracts - section 6.1; add to Orange Paper or #[requires]/#[ensures])\n\nsrc/x.rs::foo\n  ⏳ Status: NOT IMPLEMENTED\n\ntest result: FAILED. 1 passed; 2 failed; 1 partial; 0 skipped\n  Functions verified: 5\n"
    );
    assert_eq!(count_failures(&results), 2);
}

#[test]
fn verdict_words() {
    let ok = vec![(foo(), passed())];
    assert!(format_results(&ok, "human").contains("test result: ok. 1 passed"));
    let some = vec![(foo(), partial())];
    assert!(format_results(&some, "human").contains("test result: PARTIAL. 0 passed"));
}

#[test]
fn junit_report_exact() {
    let results = vec![(foo(), failed()), (foo(), partial())];
    assert_eq!(
        format_results(&results, "junit"),
        "<?xml version=\"1.0\" encoding=\"UTF-8\"?>\n<testsuites name=\"blvm-spec-lock\" tests=\"2\" failures=\"1\" time=\"0.0\">\n  <testsuite name=\"verification\" tests=\"2\" failures=\"1\" time=\"0.0\">\n    <testcase name=\"foo\" classname=\"x\" status=\"failed\">\n      <properties>\n        <property name=\"section\" value=\"6.1\"/>\n      </properties>\n      <failure message=\"say &quot;no&quot;\">contract: Ensures; kind: solver_unknown; partial_reason=z3_timeout</failure>\n    </testcase>\n    <testcase name=\"foo\" classname=\"x\" status=\"partial\">\n      <properties>\n        <property name=\"section\" value=\"6.1\"/>\n      </properties>\n      <system-out>partial 1/3; partial_reason=other; why</system-out>\n    </testcase>\n  </testsuite>\n</testsuites>\n"
    );
    assert!(!escape("a\"b\"").contains('"'));
}

#[test]
fn markdown_report_exact() {
    let results = vec![(foo(), failed()), (foo(), passed())];
    assert_eq!(
        format_results(&results, "markdown"),
        "# BLVM Spec Lock Verification Report\n\n**Generated:** Verification Report\n\n## Summary\n\n- **Total Functions:** 2\n- **Passed:** 1 ✅\n- **Failed:** 1 ❌\n- **Partial:** 0 ⚠️\n\n## Results\n\n| File | Function | Section | Status |\n|------|----------|---------|--------|\n| `x.rs` | `foo` | 6.1 | ❌ Failed [solver_unknown] (z3_timeout) |\n| `x.rs` | `foo` | 6.1 | ✅ Passed |\n\n## Failed Verifications\n\n### `src/x.rs::foo`\n\n- **Contract:** Ensures\n- **Reason:** say \"no\"\n- **Failure kind:** solver_unknown\n- **Solver note:** z3_timeout\n\n"
    );
}

#[test]
fn file_names() {
    assert_eq!(name_of_file("a/b.rs").as_deref(), Some("b.rs"));
    assert_eq!(name_of_file("a/b/").as_deref(), Some("b"));
    assert_eq!(name_of_file("a/.").as_deref(), Some("a"));
    assert_eq!(name_of_file("a/.."), None);
    assert_eq!(name_of_file("/"), None);
    assert_eq!(stem_of("b.tar.gz"), "b.tar");
    assert_eq!(stem_of(".hidden"), ".hidden");
    assert_eq!(stem_of("plain"), "plain");
}

#[test]
fn formula_report_for_a_reader() {
    let empty = FormulaRegistryAnalysis { rows: vec![] };
    assert!(format_formula_verify_human(&empty, false).ends_with("summary: 0 **`F_*`** rows\n"));
    let one = FormulaRegistryAnalysis {
        rows: vec![FormulaAnalysisRow {
            formula_id: "F_A".into(),
            section: "1".into(),
            static_gate: FormulaStaticOutcome::Failed { message: "oops".into() },
            z3_phase: Z3FormulaPhase::Unknown { reason: "time".into() },
        }],
    };
    let s = format_formula_verify_human(&one, true);
    assert!(s.contains("  F_A §1 · static FAIL (oops) · Z3 unknown (time)\n"), "{s}");
    assert!(s.ends_with("summary: 1 **`F_*`** · static_pass=0 · static_fail=1\n"), "{s}");
}

#[test]
fn formula_registry_is_embedded() {
    let one = FormulaRegistryAnalysis {
        rows: vec![FormulaAnalysisRow {
            formula_id: "F_A".into(),
            section: "1".into(),
            static_gate: FormulaStaticOutcome::Passed,
            z3_phase: Z3FormulaPhase::UnsatContradiction,
        }],
    };
    let flags = FormulaVerifyJsonFlags { z3_sat_requested: true, cargo_built_with_z3: true };
    let s = format_verify_json_report(&vec![(foo(), passed())], Some((&one, flags)));
    let v: serde_json::Value = serde_json::from_str(&s).unwrap();
    let nested: serde_json::Value =
        serde_json::from_str(&format_formula_verify_json_report(&one, flags)).unwrap();
    assert_eq!(v.get("formula_registry"), Some(&nested));
    assert_eq!(nested.pointer("/summary/z3_sat_unsat"), Some(&serde_json::Value::from(1)));
    assert_eq!(nested.pointer("/summary/z3_sat_effective"), Some(&serde_json::Value::Bool(true)));
}
