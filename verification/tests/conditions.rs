use blvm_spec_lock::condition::{extract_parseable_condition, is_readable};
use blvm_spec_lock::contracts::{Contract, ContractType};
use blvm_spec_lock::source::read_expression;
use blvm_spec_lock::static_checker::{check_contract_statically, StaticCheckResult};

fn requires_contract(s: &str) -> Contract {
    Contract {
        contract_type: ContractType::Requires,
        condition: read_expression(s).expect("an expression"),
        comment: None,
    }
}

#[test]
fn in_set_bool_escaped_braces() {
    let escaped = r"result \in \{\text{true}, \text{false}\}";
    assert_eq!(
        extract_parseable_condition(escaped),
        Some("(result == true || result == false)".to_string()),
        "escaped-brace form \\in \\{{...\\}} must parse"
    );
}

#[test]
fn in_set_bool_bare_braces() {
    let bare = r"result \in {true, false}";
    assert_eq!(
        extract_parseable_condition(bare),
        Some("(result == true || result == false)".to_string()),
        "bare-brace form \\in {{...}} must parse"
    );
}

#[test]
fn geq_zero_non_negative() {
    let result = extract_parseable_condition(r"result \geq 0");
    assert!(result.is_some(), "\\geq 0 must extract to Some");
    let s = result.unwrap();
    assert!(
        s.contains(">=") && s.contains("result") && s.contains("0"),
        "extracted: {:?}",
        s
    );
}

#[test]
fn quantified_conditions_are_declined() {
    assert_eq!(extract_parseable_condition(r"\forall x: x \geq result"), None);
    assert!(!is_readable(r"\forall x: x \geq result"));
    assert!(is_readable(r"result \leq 5"));
}

#[test]
fn test_constant_equality() {
    let contract = requires_contract("x == 5");
    let result = check_contract_statically(&contract);
    assert_eq!(result, Some(StaticCheckResult::RequiresZ3));
}

#[test]
fn test_non_negative() {
    let contract = requires_contract("x >= 0");
    let result = check_contract_statically(&contract);
    assert_eq!(result, Some(StaticCheckResult::RequiresZ3));
}
