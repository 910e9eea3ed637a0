use blvm_spec_lock::attributes::{
    classify_secondary_anchor, extract_constant_anchor, extract_formula_anchor, extract_section,
    has_spec_locked, is_passed_over, parse_file_for_functions, SecondarySpecAnchor,
};
use blvm_spec_lock::contracts::{Attr, ContractType};
use blvm_spec_lock::source::read_source;

fn attributes(code: &str) -> Vec<Attr> {
    read_source(code).expect("code").remove(0).attrs
}

#[test]
fn dual_literal_extracts_formula_and_section() {
    let attrs = attributes(r#"#[spec_locked("9.91", "F_X")] pub fn dummy() {}"#);
    assert_eq!(extract_formula_anchor(&attrs).as_deref(), Some("F_X"));
    assert_eq!(extract_constant_anchor(&attrs), None);
    assert_eq!(extract_section(&attrs).as_deref(), Some("9.91"));
}

#[test]
fn dual_literal_extracts_constant_and_section() {
    let attrs = attributes(r#"#[spec_locked("4.91", "C_SMK")] pub fn dummy() {}"#);
    assert_eq!(extract_formula_anchor(&attrs), None);
    assert_eq!(extract_constant_anchor(&attrs).as_deref(), Some("C_SMK"));
    assert_eq!(extract_section(&attrs).as_deref(), Some("4.91"));
}

#[test]
fn combined_literal_section_and_formula() {
    let attrs = attributes(r#"#[spec_locked("44.44::F_C")] pub fn dummy() {}"#);
    assert_eq!(extract_formula_anchor(&attrs).as_deref(), Some("F_C"));
    assert_eq!(extract_constant_anchor(&attrs), None);
    assert_eq!(extract_section(&attrs).as_deref(), Some("44.44"));
}

#[test]
fn combined_literal_section_and_constant() {
    let attrs = attributes(r#"#[spec_locked("44.44::C_K")] pub fn dummy() {}"#);
    assert_eq!(extract_formula_anchor(&attrs), None);
    assert_eq!(extract_constant_anchor(&attrs).as_deref(), Some("C_K"));
    assert_eq!(extract_section(&attrs).as_deref(), Some("44.44"));
}

#[test]
fn named_function_param_extracts_formula() {
    let attrs = attributes(r#"#[spec_locked(section = "8.82", function = "F_Z")] pub fn z() {}"#);
    assert_eq!(extract_formula_anchor(&attrs).as_deref(), Some("F_Z"));
    assert_eq!(extract_constant_anchor(&attrs), None);
    assert_eq!(extract_section(&attrs).as_deref(), Some("8.82"));
}

#[test]
fn named_function_param_extracts_constant() {
    let attrs = attributes(r#"#[spec_locked(section = "4.82", function = "C_Z")] pub fn z() {}"#);
    assert_eq!(extract_formula_anchor(&attrs), None);
    assert_eq!(extract_constant_anchor(&attrs).as_deref(), Some("C_Z"));
    assert_eq!(extract_section(&attrs).as_deref(), Some("4.82"));
}

#[test]
fn locks_are_seen() {
    assert!(has_spec_locked(&attributes(r#"#[spec_locked("1.1")] fn f() {}"#)));
    assert!(has_spec_locked(&attributes(r#"#[blvm_spec_lock::spec_locked("1.1")] fn f() {}"#)));
    assert!(!has_spec_locked(&attributes("#[inline] fn f() {}")));
}

#[test]
fn anchors_are_classified() {
    assert!(matches!(
        classify_secondary_anchor("F_A"),
        Some(SecondarySpecAnchor::Formula(_))
    ));
    assert!(matches!(
        classify_secondary_anchor("C_A"),
        Some(SecondarySpecAnchor::Constant(_))
    ));
    assert!(classify_secondary_anchor("Name").is_none());
    assert!(is_passed_over("x/target/debug/a.rs"));
    assert!(!is_passed_over("x/src/a.rs"));
}

const FILE: &str = r#"
use std::fmt;

#[spec_locked("6.1", "GetBlockSubsidy")]
#[requires(height >= 0)]
#[ensures(result >= 0)]
pub fn get_block_subsidy(height: u64) -> i64 {
    5
}

fn free() {}

struct S;

impl S {
    const K: u32 = 1;

    #[spec_locked("4.91", "C_SMK")]
    fn smk(&self) -> i32 {
        7
    }

    fn other(&self) {}
}
"#;

#[test]
fn locked_functions_of_a_file_are_found() {
    let found = parse_file_for_functions("src/a.rs", FILE).unwrap();
    assert_eq!(found.len(), 2);
    let f = &found[0];
    assert_eq!(f.file_path, "src/a.rs");
    assert_eq!(f.function_name, "get_block_subsidy");
    assert_eq!(f.section.as_deref(), Some("6.1"));
    assert_eq!(f.spec_name_override.as_deref(), Some("GetBlockSubsidy"));
    assert_eq!(f.contracts.len(), 2);
    assert_eq!(f.contracts[0].contract_type, ContractType::Requires);
    assert_eq!(f.contracts[0].condition, "height >= 0");
    assert!(f.contracts[0].expr.is_some());
    assert_eq!(f.contracts[1].contract_type, ContractType::Ensures);
    assert_eq!(f.contracts[1].condition, "result >= 0");
    assert!(!f.contracts[1].is_spec_derived);
    let sig = f.function_sig.as_ref().unwrap();
    assert_eq!(sig.name, "get_block_subsidy");
    assert_eq!(sig.params.len(), 1);
    assert_eq!(sig.params[0].0, "height");
    assert_eq!(found[1].function_name, "smk");
    assert_eq!(found[1].constant_anchor.as_deref(), Some("C_SMK"));
    assert!(found[1].function_sig.as_ref().unwrap().params.is_empty());
}

#[test]
fn a_file_that_is_not_rust_is_refused() {
    let e = parse_file_for_functions("src/a.rs", "fn (").unwrap_err();
    assert!(e.starts_with("Failed to parse src/a.rs: "), "{e}");
    assert!(parse_file_for_functions("src/a.rs", "").unwrap().is_empty());
}

#[test]
fn conditional_attributes_are_looked_into() {
    let attrs = attributes(
        r#"#[cfg_attr(feature = "x", blvm_spec_lock::ensures(result <= 9))] fn f() -> u8 { 1 }"#,
    );
    let inner = attrs[0].inner.as_ref().expect("inner");
    assert_eq!(inner.name.as_deref(), Some("ensures"));
    assert_eq!(inner.tokens, "result <= 9");
    assert!(inner.expr.is_some());
}
