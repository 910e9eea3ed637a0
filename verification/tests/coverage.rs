use blvm_spec_lock::attributes::{Contract, FunctionToVerify};
use blvm_spec_lock::contracts::ContractType;
use blvm_spec_lock::coverage::{
    format_coverage_human, format_coverage_json, format_coverage_markdown, generate_coverage,
    parse_verify_json_witness_rollups, roll_up, Witness, WitnessRow, WitnessVerifyRollup,
};
use blvm_spec_lock::orange_paper::SpecParser;
use blvm_spec_lock::section_order::{is_section_before, key_of_section};
use blvm_spec_lock::spec_coverage::{
    format_spec_coverage_human, format_spec_coverage_json, format_spec_coverage_markdown,
    generate_spec_coverage_report,
};

fn function(name: &str, section: Option<&str>, contracts: usize) -> FunctionToVerify {
    let mut cs = Vec::new();
    for _ in 0..contracts {
        cs.push(Contract {
            contract_type: ContractType::Ensures,
            condition: "true".to_string(),
            expr: None,
            is_spec_derived: true,
        });
    }
    FunctionToVerify {
        file_path: "src/x.rs".to_string(),
        function_name: name.to_string(),
        contracts: cs,
        section: section.map(|s| s.to_string()),
        spec_name_override: None,
        formula_anchor: None,
        constant_anchor: None,
        function_sig: None,
    }
}

#[test]
fn rollup_partitions_formula_constant_and_unknown_status_buckets_failed() {
    let json = r#"{
            "report_format": 1,
            "results": [
                {"status": "passed", "formula_anchor": "F_A"},
                {"status": "failed", "formula_anchor": "F_B"},
                {"status": "not_implemented", "constant_anchor": "C_Q"},
                {"status": "weird", "formula_anchor": "F_C"}
            ]
        }"#;
    let (f, c) = parse_verify_json_witness_rollups(json).unwrap();
    let fr = f.expect("formula rollup present");
    assert_eq!(fr.total, 3);
    assert_eq!(fr.passed, 1);
    assert_eq!(fr.failed, 2);
    assert_eq!(fr.partial, 0);
    assert_eq!(fr.not_implemented, 0);
    let cr = c.expect("constant rollup present");
    assert_eq!(cr.total, 1);
    assert_eq!(cr.not_implemented, 1);
}

#[test]
fn rollup_none_when_no_anchors_even_if_other_results() {
    let json = r#"{"results": [{"status": "passed", "section": "1.1"}]}"#;
    let (f, c) = parse_verify_json_witness_rollups(json).unwrap();
    assert!(f.is_none());
    assert!(c.is_none());
}

#[test]
fn rollup_errors() {
    let e = parse_verify_json_witness_rollups("{").unwrap_err();
    assert!(e.starts_with("verify rollup JSON: EOF"), "{e}");
    let e = parse_verify_json_witness_rollups("{\"results\": 1}").unwrap_err();
    assert_eq!(e, "verify rollup JSON: missing `.results` array");
}

#[test]
fn rollup_of_rows_adds_up() {
    let row = |status: &str, anchor: &str| WitnessRow {
        status: Some(status.to_string()),
        formula_anchor: Some(anchor.to_string()),
        constant_anchor: None,
    };
    let rows = vec![row("passed", "F_A"), row("partial", "F_B"), row("passed", "")];
    let r = roll_up(&rows, Witness::Formula).unwrap();
    assert_eq!(
        r,
        WitnessVerifyRollup { passed: 1, failed: 0, partial: 1, not_implemented: 0, total: 2 }
    );
    assert!(roll_up(&rows, Witness::Constant).is_none());
    assert_eq!(WitnessVerifyRollup::default().total, 0);
}

#[test]
fn sections_are_ordered_by_number() {
    assert_eq!(key_of_section("5.10.3.9"), (5, 10, 3));
    assert_eq!(key_of_section("x.2"), (0, 2, 0));
    assert_eq!(key_of_section("4294967296"), (0, 0, 0));
    assert!(is_section_before("5.2", "5.10"));
    assert!(!is_section_before("5.10", "5.2"));
    assert!(!is_section_before("5.2", "5.2"));
}

#[test]
fn coverage_reports() {
    let fs = vec![
        function("b", Some("5.10"), 1),
        function("a", Some("5.2"), 0),
        function("c", None, 2),
        function("d", Some("5.10"), 0),
    ];
    let c = generate_coverage(fs, None, None).unwrap();
    assert_eq!(c.total_spec_locked, 4);
    assert_eq!(c.with_contracts, 2);
    assert_eq!(c.without_contracts, 2);
    assert_eq!(c.by_section.len(), 2);
    assert_eq!(c.by_section[0].section, "5.10");
    assert_eq!(c.by_section[0].functions.len(), 2);
    assert_eq!(c.without_section.len(), 1);
    assert_eq!(c.formulas_defined, 0);
    let s = format_coverage_human(&c, "50.0");
    assert!(s.contains("Contract coverage: 50.0%\n"), "{s}");
    assert!(
        s.contains("  Section 5.2: 1 functions\n    - ⚠️  no contracts a (src/x.rs)\n  Section 5.10: 2 functions\n    - ✅ b (src/x.rs)\n"),
        "{s}"
    );
    let m = format_coverage_markdown(&c, "50.0");
    assert!(m.contains("| 5.2 | 1 | ❌ No contracts |\n| 5.10 | 2 | ⚠️  Partial |\n"), "{m}");
    let percent = serde_json::Number::from_f64(50.0).unwrap();
    let j = format_coverage_json(&c, &percent);
    let v: serde_json::Value = serde_json::from_str(&j).unwrap();
    assert_eq!(v.pointer("/by_section/5.10/count"), Some(&serde_json::Value::from(2)));
    assert_eq!(v.pointer("/contract_coverage_percent"), Some(&serde_json::Value::from(50.0)));
    assert_eq!(v.pointer("/without_section/0/contract_count"), Some(&serde_json::Value::from(2)));
    assert_eq!(v.pointer("/formulas_verify_rollup"), Some(&serde_json::Value::Null));
}

fn spec() -> SpecParser {
    let md = "## 5.2 Later\n\n**Formula** (**F_Ok**):\n\n$$x \\leq y$$\n\n## 5.10 Last\n\n**Formula** (**F_Bad**):\n\n$$\\notProbablyValidRust blah$$\n\n## 4.1 Constants\n\n$SMK = 7$\n";
    let mut p = SpecParser::new(md.to_string());
    p.parse().unwrap();
    p
}

#[test]
fn anchors_are_counted_once() {
    let p = spec();
    let mut fs = vec![
        function("a", Some("5.2"), 0),
        function("b", Some("5.2"), 0),
        function("c", Some("5.2"), 0),
        function("d", Some("4.1"), 0),
    ];
    fs[0].formula_anchor = Some("F_Ok".to_string());
    fs[1].formula_anchor = Some("F_Bad".to_string());
    fs[2].formula_anchor = Some("F_None".to_string());
    fs[3].constant_anchor = Some("C_SMK".to_string());
    let json = "{\"results\": [{\"status\": \"partial\", \"formula_anchor\": \"F_Ok\"}]}";
    let c = generate_coverage(fs, Some(&p), Some(json)).unwrap();
    assert_eq!(c.formulas_defined, 2);
    assert_eq!(c.formulas_parseable_body, 1);
    assert_eq!(c.formulas_bound_to_rust, 3);
    assert_eq!(c.formula_anchor_parse_gate_ok, 1);
    assert_eq!(c.formula_anchor_spec_missing_id, 1);
    assert_eq!(c.formula_anchor_unparseable_body, 1);
    assert_eq!(c.constants_defined, 1);
    assert_eq!(c.constants_bound_to_rust, 1);
    assert_eq!(c.formulas_verify_rollup.unwrap().partial, 1);
    assert!(format_coverage_human(&c, "0.0").contains(
        "Formula witnesses (`formula_anchor`) (**`cargo spec-lock verify`** JSON rollup): 0 passed / 1 total (partial 1, failed 0, not_implemented 0)\n"
    ));
    let r = generate_spec_coverage_report(&p, &c).unwrap();
    assert_eq!(r.by_section.len(), 3);
    assert_eq!(r.by_section[0].section_id, "4.1");
    assert_eq!(r.by_section[1].section_id, "5.2");
    assert_eq!(r.by_section[2].section_id, "5.10");
    assert_eq!(r.by_section[1].impl_functions, 3);
    assert_eq!(r.total_contracts, r.parseable_contracts + r.unparseable_contracts);
    let percents = vec!["0".to_string(), "0".to_string(), "0".to_string()];
    let s = format_spec_coverage_human(&r, "0.0", &percents);
    assert!(s.contains("  Parseable: 0 (0.0%)\n"), "{s}");
    assert!(s.contains("5.2 | 0 | 0 | 0 (0%) | 3\n"), "{s}");
    let m = format_spec_coverage_markdown(&r, "0.0", &percents);
    assert!(m.contains("| **`F_*` bodies parseable** | 1 / 2 |\n"), "{m}");
    let zero = serde_json::Number::from_f64(0.0).unwrap();
    let j = format_spec_coverage_json(&r, &zero);
    assert!(j.contains("\"parseable_percent\":0.0"), "{j}");
}
