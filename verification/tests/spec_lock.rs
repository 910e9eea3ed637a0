use blvm_spec_lock::ast::{Block, FnItem, Type, TypeArg};
use blvm_spec_lock::contract_math::{is_tuple_function, translate_math_to_rust_contract};
use blvm_spec_lock::lock_args::{parse_args, ArgToken, SpecLockedArgs};
use blvm_spec_lock::orange_paper::SpecParser;
use blvm_spec_lock::paths::SpecFiles;
use blvm_spec_lock::spec_lock::{
    generate_name_variations, is_mentioned, locate_spec, process_spec_locked,
};

fn text(s: &str) -> ArgToken {
    ArgToken::Text(s.to_string())
}

fn word(s: &str) -> ArgToken {
    ArgToken::Word(s.to_string())
}

fn given(a: &SpecLockedArgs) -> (Option<&str>, Option<&str>, Option<&str>) {
    (a.section.as_deref(), a.function.as_deref(), a.spec_path.as_deref())
}

#[test]
fn positional_arguments() {
    let a = parse_args(&vec![text("6.1")]).unwrap();
    assert_eq!(given(&a), (Some("6.1"), None, None));
    let a = parse_args(&vec![text("6.1"), ArgToken::Comma, text("GetBlockSubsidy")]).unwrap();
    assert_eq!(given(&a), (Some("6.1"), Some("GetBlockSubsidy"), None));
    let a = parse_args(&vec![
        text("6.1"),
        ArgToken::Comma,
        text("F"),
        ArgToken::Comma,
        word("spec_path"),
        ArgToken::Equals,
        text("p.md"),
    ])
    .unwrap();
    assert_eq!(given(&a), (Some("6.1"), Some("F"), Some("p.md")));
    let a = parse_args(&vec![]).unwrap();
    assert_eq!(given(&a), (None, None, None));
}

#[test]
fn combined_argument() {
    let a = parse_args(&vec![text("6.1 :: GetBlockSubsidy")]).unwrap();
    assert_eq!(given(&a), (Some("6.1"), Some("GetBlockSubsidy"), None));
    let a = parse_args(&vec![text("6.1::A::B")]).unwrap();
    assert_eq!(given(&a), (Some("6.1::A::B"), None, None));
    let e = parse_args(&vec![text("6.1::F"), ArgToken::Comma, word("path")]).unwrap_err();
    assert_eq!(e.message(), "Expected 'spec_path' after section::function");
}

#[test]
fn named_arguments() {
    let a = parse_args(&vec![
        word("section"),
        ArgToken::Equals,
        text("6.1"),
        ArgToken::Comma,
        word("function"),
        ArgToken::Equals,
        text("F"),
        ArgToken::Comma,
    ])
    .unwrap();
    assert_eq!(given(&a), (Some("6.1"), Some("F"), None));
    let e = parse_args(&vec![word("part"), ArgToken::Equals, text("6.1")]).unwrap_err();
    assert_eq!(
        e.message(),
        "Unknown parameter: part. Expected 'section', 'function', or 'spec_path'"
    );
}

#[test]
fn malformed_arguments() {
    let e = parse_args(&vec![text("6.1"), text("F")]).unwrap_err();
    assert_eq!(e.message(), "unexpected token");
    let e = parse_args(&vec![word("section"), text("6.1")]).unwrap_err();
    assert_eq!(e.message(), "unexpected token");
    let e = parse_args(&vec![text("6.1"), ArgToken::Comma, text("F"), ArgToken::Comma, word("x")])
        .unwrap_err();
    assert_eq!(e.message(), "Expected 'spec_path'");
    let e = parse_args(&vec![ArgToken::Other]).unwrap_err();
    assert_eq!(e.message(), "unexpected token");
}

#[test]
fn name_variations() {
    assert_eq!(
        generate_name_variations("check_bip30"),
        vec!["CheckBip30", "BIP30", "CheckBIP30", "Bip30"]
    );
    assert_eq!(
        generate_name_variations("verify_script_with_context"),
        vec!["VerifyScriptWithContext", "ScriptWithContext", "VerifyScript"]
    );
}

#[test]
fn mathematics_becomes_contracts() {
    let one = vec!["height".to_string()];
    assert_eq!(
        translate_math_to_rust_contract(
            r"$\text{GetBlockSubsidy}(h) \geq 0$",
            "GetBlockSubsidy",
            &one,
            false
        ),
        "*result >= 0"
    );
    assert_eq!(
        translate_math_to_rust_contract(
            r"$h = 0 \implies \text{GetBlockSubsidy}(h) = 50 \times C$",
            "GetBlockSubsidy",
            &one,
            false
        ),
        "*height == 0 ==> *result == INITIAL_SUBSIDY"
    );
    assert_eq!(
        translate_math_to_rust_contract(r"$|x| \leq 5$", "F", &vec![], false),
        "x.len() <= 5"
    );
    assert_eq!(
        translate_math_to_rust_contract("a.b", "a.b", &vec![], false),
        "*result"
    );
    assert_eq!(
        translate_math_to_rust_contract("axb", "a.b", &vec![], false),
        "axb"
    );
}

fn item(name: &str, output: Option<Type>) -> FnItem {
    FnItem {
        name: name.to_string(),
        params: vec![("height".to_string(), Type::Path("u64".to_string(), None))],
        output,
        body: Block { stmts: vec![] },
    }
}

#[test]
fn tuples_are_seen() {
    let tuple = || Type::Tuple(vec![]);
    assert!(is_tuple_function(&item("f", Some(tuple()))));
    let result = Type::Path("Result".to_string(), Some(vec![TypeArg::Type(tuple())]));
    assert!(is_tuple_function(&item("f", Some(result))));
    assert!(!is_tuple_function(&item("f", None)));
}

fn spec() -> SpecParser {
    let md = "## 6.1 Subsidy\n\n**GetBlockSubsidy**: $\\mathbb{N} \\rightarrow \\mathbb{Z}$\n\n**Properties**:\n- Non-negative: $\\text{GetBlockSubsidy}(h) \\geq 0$\n\nOther text.\n";
    let mut p = SpecParser::new(md.to_string());
    p.parse().unwrap();
    p
}

fn args(section: Option<&str>, function: Option<&str>) -> SpecLockedArgs {
    SpecLockedArgs {
        section: section.map(|s| s.to_string()),
        function: function.map(|s| s.to_string()),
        spec_path: None,
    }
}

#[test]
fn function_of_the_section_is_taken() {
    let p = spec();
    let e = process_spec_locked(&args(Some("6.1"), None), &item("get_block_subsidy", None), &p)
        .unwrap();
    assert!(
        e.doc.starts_with("Spec-locked to Orange Paper Section 6.1: GetBlockSubsidy\n\n"),
        "{}",
        e.doc
    );
    assert!(!e.postconditions.is_empty());
    let by_name = process_spec_locked(&args(None, None), &item("get_block_subsidy", None), &p)
        .unwrap();
    assert_eq!(by_name.doc, e.doc);
    assert_eq!(by_name.postconditions.len(), e.postconditions.len());
}

#[test]
fn unknown_sections_are_refused() {
    let p = spec();
    let f = item("get_block_subsidy", None);
    assert_eq!(
        process_spec_locked(&args(Some("9.9"), None), &f, &p).unwrap_err(),
        "Section 9.9 not found in Orange Paper"
    );
    assert_eq!(
        process_spec_locked(&args(Some("9.9.9"), None), &f, &p).unwrap_err(),
        "Section or subsection 9.9.9 not found in Orange Paper"
    );
    let mut other = SpecParser::new("## 9.9 Z\n\ntext\n".to_string());
    other.parse().unwrap();
    assert_eq!(
        process_spec_locked(&args(None, None), &f, &other).unwrap_err(),
        "Orange Paper must have at least one section"
    );
}

#[test]
fn functions_that_are_only_mentioned() {
    let p = spec();
    let e = process_spec_locked(&args(Some("6.1"), Some("Text")), &item("f", None), &p).unwrap();
    assert_eq!(
        e.doc,
        "Spec-locked to Orange Paper Section 6.1: Text\n\nReferenced in section 6.1 (theorem/formula)"
    );
    let e =
        process_spec_locked(&args(Some("6.1"), Some("Nowhere")), &item("f", None), &p).unwrap();
    assert!(
        e.doc.contains("Function 'Nowhere' referenced but not yet in spec section 6.1 (Migration mode). Available: GetBlockSubsidy"),
        "{}",
        e.doc
    );
    let e = process_spec_locked(&args(None, Some("Nowhere")), &item("f", None), &p).unwrap();
    assert_eq!(
        e.doc,
        "Spec-locked to Orange Paper Section auto-inferred: Nowhere\n\nFunction 'Nowhere' auto-inferred (not yet in Orange Paper - migration mode)"
    );
    assert!(e.preconditions.is_empty() && e.postconditions.is_empty());
    assert!(is_mentioned("A b", "a b", &vec!["b".to_string()]));
    assert!(!is_mentioned("A b", "a b", &vec!["c".to_string()]));
}

#[test]
fn specification_is_located() {
    let none = SpecFiles { protocol: false, architecture: false, umbrella: false };
    let both = SpecFiles { protocol: true, architecture: true, umbrella: true };
    let mut a = args(None, None);
    assert_eq!(
        locate_spec(&a, Some(" a.md, b.md:c.md "), "/m", none, none).unwrap(),
        vec!["a.md", "b.md", "c.md"]
    );
    assert_eq!(
        locate_spec(&a, Some(" ,"), "/m", both, none).unwrap_err(),
        "SPEC_LOCK_SPEC_PATH is set but empty or invalid"
    );
    assert_eq!(
        locate_spec(&a, None, "/m", both, none).unwrap(),
        vec!["/m/blvm-spec/PROTOCOL.md", "/m/blvm-spec/ARCHITECTURE.md"]
    );
    assert!(locate_spec(&a, None, "/m", none, none)
        .unwrap_err()
        .ends_with("CARGO_MANIFEST_DIR=/m"));
    a.spec_path = Some("own.md".to_string());
    assert_eq!(locate_spec(&a, Some("x"), "/m", both, both).unwrap(), vec!["own.md"]);
}
