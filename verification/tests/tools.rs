use blvm_spec_lock::attributes::FunctionToVerify;
use blvm_spec_lock::bindings::{get_binding, read_bindings};
use blvm_spec_lock::cache::SpecCache;
use blvm_spec_lock::codegen::{
    extract_formula_parameters, generate_constants_module, generate_property_helpers,
    generate_property_tests, is_implementable, name_of_test, select_round_trips,
    translate_formula_to_rust, words_for_formula,
};
use blvm_spec_lock::command::{
    count_sections, drift_exit_code, format_badge, format_list, format_summary, is_strict,
    keys_of_path, verify_exit_code, OutputFormat,
};
use blvm_spec_lock::drift::detect_drift;
use blvm_spec_lock::filters::filter_functions;
use blvm_spec_lock::formula_checks::{
    analyze_formula_registry, registry_has_blocking_static_failure,
    registry_has_blocking_z3_outcome, FormulaAnalyzeConfig, Z3FormulaPhase,
};
use blvm_spec_lock::orange_paper::SpecParser;
use blvm_spec_lock::paths::{
    default_spec_paths, join_path, resolve_crate_path, resolve_orange_paper_paths,
    resolve_spec_paths, SpecFiles,
};
use blvm_spec_lock::sorting::sort;
use blvm_spec_lock::spec_text::{format_number_with_underscores, parse_constant_value};
use blvm_spec_lock::spec_types::{
    ExtractedConstant, StandaloneProperty, StandalonePropertyType,
};
use blvm_spec_lock::verify::VerificationResult;

fn function(file: &str, name: &str, section: Option<&str>) -> FunctionToVerify {
    FunctionToVerify {
        file_path: file.to_string(),
        function_name: name.to_string(),
        contracts: vec![],
        section: section.map(|s| s.to_string()),
        spec_name_override: None,
        formula_anchor: None,
        constant_anchor: None,
        function_sig: None,
    }
}

#[test]
fn test_cache_key() {
    let key = SpecCache::cache_key("/tmp/blvm_test.md");
    assert!(!key.is_empty());
    assert_eq!(
        SpecCache::cache_key("abc"),
        "ba7816bf8f01cfea414140de5dae2223b00361a396177a9cb410ff61f20015ad"
    );
}

#[test]
fn cache_files() {
    let c = SpecCache::new("/work");
    assert_eq!(c.cache_dir, "/work/target/.spec-cache");
    assert_eq!(c.cache_file("k"), "/work/target/.spec-cache/k.cache");
}

#[test]
fn paths_are_joined() {
    assert_eq!(join_path("a", "b"), "a/b");
    assert_eq!(join_path("a/", "b"), "a/b");
    assert_eq!(join_path("", "b"), "b");
    assert_eq!(join_path("a", "/b"), "/b");
}

#[test]
fn paths_are_resolved() {
    assert_eq!(resolve_spec_paths(vec!["x".to_string()], Some("y")), vec!["x"]);
    assert_eq!(resolve_spec_paths(vec![], Some("y:z")), vec!["y", "z"]);
    assert!(resolve_spec_paths(vec![], None).is_empty());
    assert_eq!(resolve_crate_path(None, None, None), ".");
    assert_eq!(resolve_crate_path(None, Some("e".to_string()), Some("c".to_string())), "e");
    let none = SpecFiles { protocol: false, architecture: false, umbrella: false };
    let part = SpecFiles { protocol: true, architecture: false, umbrella: false };
    let whole = SpecFiles { protocol: false, architecture: false, umbrella: true };
    assert_eq!(
        resolve_orange_paper_paths("m", part, whole).unwrap(),
        vec!["m/../blvm-spec/THE_ORANGE_PAPER.md"]
    );
    assert!(resolve_orange_paper_paths("m", part, none).is_none());
    let (paths, warning) = default_spec_paths("m", part);
    assert_eq!(paths, vec!["m/../blvm-spec/PROTOCOL.md", "m/../blvm-spec/ARCHITECTURE.md"]);
    assert!(warning.is_none());
    assert!(default_spec_paths("m", none).1.unwrap().contains("no spec files found"));
    assert!(default_spec_paths("m", whole).1.unwrap().contains("fallback"));
}

#[test]
fn formats_have_names() {
    assert_eq!(OutputFormat::from_str("JUnit").unwrap(), OutputFormat::Junit);
    assert_eq!(OutputFormat::Markdown.name(), "markdown");
    assert_eq!(
        OutputFormat::from_str("xml").unwrap_err(),
        "Unknown format: xml. Expected: human, json, junit, markdown"
    );
}

#[test]
fn functions_are_sorted_by_file_and_name() {
    let v = sort(vec![
        function("src/a-b/x.rs", "one", None),
        function("src/a/x.rs", "two", None),
        function("src/a/x.rs", "one", None),
    ]);
    let order: Vec<(&str, &str)> =
        v.iter().map(|f| (f.file_path.as_str(), f.function_name.as_str())).collect();
    assert_eq!(
        order,
        vec![("src/a/x.rs", "one"), ("src/a/x.rs", "two"), ("src/a-b/x.rs", "one")]
    );
    assert_eq!(keys_of_path("/a//./../b"), vec!["0", "3a", "2", "3b"]);
    assert_eq!(keys_of_path("./a"), vec!["1", "3a"]);
}

#[test]
fn lists_and_summaries() {
    let fs = vec![
        function("a.rs", "f", Some("6.1")),
        function("a.rs", "g", None),
        function("b.rs", "h", Some("6.1")),
    ];
    assert_eq!(
        format_list(&fs),
        "f\ta.rs\t6.1\ng\ta.rs\t(no section)\nh\tb.rs\t6.1\n"
    );
    let counts = count_sections(&fs);
    assert_eq!(
        format_summary("crate", fs.len(), &counts, None),
        "Lock status: crate\n  Functions: 3\n  Sections: 2\n  Enriched: (use --spec-path for spec-derived contracts)\n\nSections:\n  (no section)  1 function(s)\n  6.1  2 function(s)\n"
    );
    assert!(format_summary("crate", 3, &counts, Some(5))
        .contains("  Enriched with spec: 5 (contracts from Orange Paper)\n"));
    assert_eq!(
        format_badge(0),
        "[![spec-lock](https://img.shields.io/badge/spec--lock-0%20locked-lightgrey)](#)"
    );
    assert_eq!(
        format_badge(2),
        "[![spec-lock](https://img.shields.io/badge/spec--lock-2%20locked-brightgreen)](#)"
    );
}

#[test]
fn exit_codes() {
    let partial = || VerificationResult::Partial {
        verified: 0,
        total: 1,
        reason: None,
        partial_reason: None,
    };
    let results = vec![(function("a", "f", None), partial())];
    assert_eq!(verify_exit_code(&results, false), 0);
    assert_eq!(verify_exit_code(&results, true), 1);
    let none = vec![(
        function("a", "f", None),
        VerificationResult::NoContracts { section: "1".to_string() },
    )];
    assert_eq!(verify_exit_code(&none, false), 1);
    assert!(is_strict(false, Some("yes")));
    assert!(!is_strict(false, Some("no")));
    assert!(is_strict(true, None));
    let clean = detect_drift(&vec![function("a", "f", None)], None, false, false);
    assert_eq!(drift_exit_code(&clean), 0);
    let missing = detect_drift(&vec![function("a", "f", Some("1"))], None, false, false);
    assert_eq!(drift_exit_code(&missing), 1);
}

#[test]
fn filters() {
    let fs = || vec![
        function("src/script/a.rs", "get_x", Some("1.1")),
        function("src/block/b.rs", "set_x", None),
    ];
    assert_eq!(filter_functions(fs(), None, None, &vec![]).len(), 2);
    assert_eq!(filter_functions(fs(), Some("script"), None, &vec![]).len(), 1);
    assert_eq!(filter_functions(fs(), None, Some("*_x"), &vec![]).len(), 2);
    assert_eq!(filter_functions(fs(), None, Some("get"), &vec![]).len(), 0);
    assert_eq!(filter_functions(fs(), None, None, &vec!["1.1".to_string()]).len(), 1);
}

#[test]
fn constants_become_a_module() {
    let c = ExtractedConstant {
        name: "M_MAX".to_string(),
        section: "4.1".to_string(),
        value: "21 * C".to_string(),
        rust_type: "i64".to_string(),
        rust_expr: "21 * C".to_string(),
        description: "All of it".to_string(),
    };
    let s = generate_constants_module(&vec![&c]);
    assert!(s.ends_with("/// All of it\n/// \n/// Source: Orange Paper Section 4.1\n/// Formula: $M_MAX = 21 * C$\npub const M_MAX: i64 = (21 * C) as i64;\n\n"), "{s}");
    assert!(s.starts_with("//! Constants extracted from Orange Paper Section 4 (Consensus Constants)\n//!\n"));
}

#[test]
fn numbers_of_constants() {
    assert_eq!(format_number_with_underscores(1234567), "1_234_567");
    assert_eq!(format_number_with_underscores(12), "12");
    assert!(parse_constant_value("nonsense").is_err());
    let pair = |v: &str| parse_constant_value(v).unwrap();
    let both = |t: &str, e: &str| (t.to_string(), e.to_string());
    assert_eq!(pair("7"), both("u64", "7"));
    assert_eq!(pair("10^8"), both("u64", "100_000_000"));
    assert_eq!(pair("210,000"), both("u64", "210_000"));
    assert_eq!(pair(r"21 \times 10^6 \times C"), both("i64", "(21_000_000 * C) as i64"));
    assert_eq!(pair(r"4 \times 10^6"), both("u64", "4_000_000"));
}

#[test]
fn formulas_become_helpers() {
    assert!(translate_formula_to_rust("x", "GetBlockSubsidy").contains("height / H"));
    assert!(translate_formula_to_rust("x", "TotalSupply").contains("let mut total = 0i64;"));
    assert!(translate_formula_to_rust("CalculateFee(tx)", "F").ends_with("\n    0"));
    assert!(translate_formula_to_rust("$$y$$", "F").contains("    // Formula: y...\n"));
    assert_eq!(extract_formula_parameters("F(h)", "F"), vec!["height: u64"]);
    assert_eq!(
        extract_formula_parameters("F(tx, us) + G(us)", "F"),
        vec!["tx: &Transaction", "utxo_set: &UtxoSet"]
    );
    assert_eq!(extract_formula_parameters("x", "TotalSupply"), vec!["height: u64"]);
    assert!(extract_formula_parameters("x", "F").is_empty());
    assert!(is_implementable("moneysupply", ""));
    assert!(!is_implementable("fee", ""));
    assert_eq!(words_for_formula("$$a \\times b$$", "6.1"), "a × b");
    assert_eq!(
        words_for_formula(&"x".repeat(101), "6.1"),
        "See Orange Paper Section 6.1 for full formula"
    );
    assert!(generate_property_helpers(&vec![])
        .ends_with("use blvm_consensus::orange_paper_constants::*;\n#[cfg(test)]\nuse proptest::prelude::*;\n\n"));
}

fn round_trip(name: &str) -> StandaloneProperty {
    StandaloneProperty {
        name: name.to_string(),
        section_id: "3.1".to_string(),
        formula_raw: String::new(),
        property_type: StandalonePropertyType::RoundTrip,
        outer_func: Some("DeserializeHeader".to_string()),
        inner_func: Some("SerializeHeader".to_string()),
        constraint: None,
    }
}

#[test]
fn round_trips_become_tests() {
    let b = read_bindings(
        "[blvm_consensus.serialization]\nSerializeBlockHeader = \"a::s\"\nDeserializeHeader = \"a::d\"\n",
    )
    .unwrap();
    assert_eq!(get_binding(&b, "DeserializeHeader").as_deref(), Some("a::d"));
    assert_eq!(get_binding(&b, "Other"), None);
    assert!(read_bindings("= =").is_err());
    let header = round_trip("Block Header Round-Trip");
    let mut other = round_trip("Unknown");
    other.outer_func = None;
    let all = vec![&header, &other];
    let chosen = select_round_trips(&all);
    assert_eq!(chosen.len(), 1);
    let s = generate_property_tests(&chosen, &b);
    assert!(
        s.contains("/// Property (Block Header Round-Trip) - Orange Paper 3.1\n#[test]\nfn prop_block_header_round_trip() {\n    use blvm_consensus::types::BlockHeader;\n"),
        "{s}"
    );
    let empty = read_bindings("").unwrap();
    assert!(generate_property_tests(&chosen, &empty).ends_with(
        "// Skipped Block Header Round-Trip: missing binding for SerializeHeader or DeserializeHeader\n"
    ));
    assert_eq!(name_of_test("a b-(c)"), "prop_a_b_c");
}

#[test]
fn formulas_are_analysed_in_order() {
    let md = "## 5.2 One\n\n**Formula** (**F_B**):\n\n$$x \\leq y$$\n\n**Formula** (**F_A**):\n\n$$\\notProbablyValidRust blah$$\n";
    let mut p = SpecParser::new(md.to_string());
    p.parse().unwrap();
    let cfg = FormulaAnalyzeConfig { request_z3_sat: true, timeout_ms: 5 };
    let a = analyze_formula_registry(&p, cfg, None);
    assert_eq!(a.rows.len(), 2);
    assert_eq!(a.rows[0].formula_id, "F_A");
    assert!(matches!(a.rows[0].z3_phase, Z3FormulaPhase::SkippedDueToStatic));
    assert!(matches!(a.rows[1].z3_phase, Z3FormulaPhase::SkippedNoZ3Feature));
    assert!(registry_has_blocking_static_failure(&a));
    assert!(registry_has_blocking_z3_outcome(&a));
    let quiet = FormulaAnalyzeConfig { request_z3_sat: false, timeout_ms: 5 };
    assert!(!registry_has_blocking_z3_outcome(&analyze_formula_registry(&p, quiet, None)));
}
