use blvm_spec_lock::ast::{BinOp, Expr, FnItem, Lit};
use blvm_spec_lock::attributes::{FunctionToVerify, SecondarySpecAnchor};
use blvm_spec_lock::contracts::ContractType;
use blvm_spec_lock::orange_paper::SpecParser;
use blvm_spec_lock::source::read_source;
use blvm_spec_lock::spec_enrich::{
    enrich_functions_with_spec, is_conditional, rust_to_spec_name, skipped_anchors,
    wanted_expressions,
};
use std::rc::Rc;

fn item(code: &str) -> Rc<FnItem> {
    read_source(code).expect("code").remove(0).item
}

fn witness(name: &str, section: &str, code: &str) -> FunctionToVerify {
    FunctionToVerify {
        file_path: "witness.rs".to_string(),
        function_name: name.to_string(),
        contracts: vec![],
        section: Some(section.to_string()),
        spec_name_override: None,
        formula_anchor: None,
        constant_anchor: None,
        function_sig: Some(item(code)),
    }
}

fn read(md: &str) -> SpecParser {
    SpecParser::from_files(&vec![("minimal.md".to_string(), Ok(md.to_string()))]).unwrap()
}

#[test]
fn formula_anchor_enrich_adds_parseable_contract_from_spec() {
    let parser = read(
        "## 99.91 Formula enrich fixture\n\n**Formula** (**F_EnrichSmoke**):\n\n$$true$$\n",
    );
    let mut f = witness(
        "witness_formula_enrich",
        "99.91",
        "fn witness_formula_enrich() -> bool { true }",
    );
    f.formula_anchor = Some("F_EnrichSmoke".into());
    let mut functions = vec![f];
    let n = enrich_functions_with_spec(&mut functions, &parser)
        .expect("enrich_without_error");
    assert_eq!(n, 1);
    assert_eq!(functions.len(), 1);
    assert_eq!(functions[0].contracts.len(), 1);
    assert_eq!(functions[0].contracts[0].contract_type, ContractType::Ensures);
    assert!(functions[0].contracts[0].expr.is_some());
}

#[test]
fn constant_anchor_enrich_adds_ensures_equals_rust_expr() {
    let parser = read("## 4.99 Fixture constants\n\n$SMK = 7$\n");
    let mut f = witness(
        "witness_constant_enrich",
        "4.99",
        "fn witness_constant_enrich() -> i32 { 7 }",
    );
    f.constant_anchor = Some("C_SMK".into());
    let mut functions = vec![f];
    let n = enrich_functions_with_spec(&mut functions, &parser)
        .expect("enrich_without_error");
    assert_eq!(n, 1);
    assert_eq!(functions.len(), 1);
    assert_eq!(functions[0].contracts.len(), 1);
    assert_eq!(functions[0].contracts[0].contract_type, ContractType::Ensures);
    assert!(functions[0].contracts[0].expr.is_some());
}

#[test]
fn added_contracts_hold_what_is_read() {
    let parser = read("## 4.99 Fixture constants\n\n$SMK = 7$\n");
    let mut f = witness("smk", "4.99", "fn smk() -> i32 { 7 }");
    f.constant_anchor = Some("C_SMK".into());
    assert_eq!(wanted_expressions(&f, &parser), vec!["result==7"]);
    let mut functions = vec![f];
    enrich_functions_with_spec(&mut functions, &parser).unwrap();
    let c = &functions[0].contracts[0];
    assert_eq!(c.condition, "result==7");
    assert!(c.is_spec_derived);
    match c.expr.as_deref() {
        Some(Expr::Binary(BinOp::Eq, a, b)) => {
            assert!(matches!(&**a, Expr::Path(p) if p.segments == vec!["result"]));
            assert!(matches!(&**b, Expr::Lit(Lit::Int(n)) if n.digits == "7"));
        }
        other => panic!("not an equation: {other:?}"),
    }
}

#[test]
fn contracts_that_are_given_are_counted() {
    let parser = read(
        "## 4.99 Fixture constants\n\n$SMK = 7$\n\n## 99.91 Formula\n\n**Formula** (**F_A**):\n\n$$result \\geq 0$$\n",
    );
    let mut a = witness("a", "4.99", "fn a() -> i32 { 7 }");
    a.constant_anchor = Some("C_SMK".into());
    let mut b = witness("b", "99.91", "fn b(x: i64) -> i64 { x }");
    b.formula_anchor = Some("F_A".into());
    let c = witness("c", "1.1", "fn c() -> bool { true }");
    let mut functions = vec![a, b, c];
    let n = enrich_functions_with_spec(&mut functions, &parser).unwrap();
    let given = functions.iter().flat_map(|f| &f.contracts).filter(|c| c.is_spec_derived);
    assert_eq!(n, given.count() as u128);
    assert_eq!(n, 2);
    assert!(functions.iter().flat_map(|f| &f.contracts).all(|c| c.expr.is_some()));
}

#[test]
fn anchors_outside_the_cited_section_are_named() {
    let parser = read(
        "## 4.99 Fixture constants\n\n$SMK = 7$\n\n## 99.91 Formula\n\n**Formula** (**F_A**):\n\n$$result \\geq 0$$\n",
    );
    let mut a = witness("a", "5.1", "fn a() -> i32 { 7 }");
    a.constant_anchor = Some("C_SMK".into());
    let mut b = witness("b", "99.91", "fn b(x: i64) -> i64 { x }");
    b.formula_anchor = Some("F_A".into());
    let mut c = witness("c", "99.92", "fn c(x: i64) -> i64 { x }");
    c.formula_anchor = Some("F_A".into());
    let mut d = witness("d", "4", "fn d() -> i32 { 7 }");
    d.constant_anchor = Some("C_SMK".into());
    let mut e = witness("e", "4.99", "fn e() -> i32 { 7 }");
    e.formula_anchor = Some("F_None".into());
    let mut f = witness("f", "5.1", "fn f() -> i32 { 7 }");
    f.constant_anchor = Some("C_SMK".into());
    let mut functions = vec![a, b, c, d];
    let skipped = skipped_anchors(&functions, &parser);
    let names: Vec<&str> = skipped.iter().map(|x| x.function_name.as_str()).collect();
    assert_eq!(names, ["a", "c"]);
    assert!(matches!(&skipped[0].anchor, SecondarySpecAnchor::Constant(id) if id == "C_SMK"));
    assert!(matches!(&skipped[1].anchor, SecondarySpecAnchor::Formula(id) if id == "F_A"));
    assert_eq!((skipped[0].cited.as_str(), skipped[0].defined.as_str()), ("5.1", "4.99"));
    assert_eq!(
        skipped[0].message(),
        "Warning: section mismatch for `C_SMK`: #[spec_locked] cites §5.1 but constant is defined under §4.99. Skipping constant enrichment for this function."
    );
    assert_eq!(
        skipped[1].message(),
        "Warning: section mismatch for formula `F_A`: #[spec_locked] cites §99.92 but formula is defined under §99.91. Skipping formula enrichment for this function."
    );
    functions.push(e);
    functions.push(f);
    assert_eq!(skipped_anchors(&functions, &parser).len(), 2);
    assert!(enrich_functions_with_spec(&mut functions, &parser).is_err());
    assert!(functions[0].contracts.is_empty());
    assert!(functions[2].contracts.is_empty());
    assert_eq!(functions[3].contracts.len(), 1);
}

#[test]
fn unknown_anchor_is_refused() {
    let parser = read("## 4.99 Fixture constants\n\n$SMK = 7$\n");
    let mut f = witness("f", "4.99", "fn f() -> i32 { 7 }");
    f.formula_anchor = Some("F_None".into());
    let mut functions = vec![f];
    let e = enrich_functions_with_spec(&mut functions, &parser).unwrap_err();
    assert!(e.contains("F_None"), "{e}");
}

#[test]
fn names_become_pascal_case() {
    assert_eq!(rust_to_spec_name("get_block_subsidy"), "GetBlockSubsidy");
    assert_eq!(rust_to_spec_name("a__b"), "AB");
    assert_eq!(rust_to_spec_name("émile"), "Émile");
}

#[test]
fn files_are_read_together() {
    let files = vec![
        ("a.md".to_string(), Ok("## 1.1 A\n\ntext\n".to_string())),
        ("b.md".to_string(), Ok("## 1.1 B\n\ntext\n".to_string())),
    ];
    assert!(SpecParser::from_files(&files).is_err());
    let missing = vec![("a.md".to_string(), Err("gone".to_string()))];
    assert!(SpecParser::from_files(&missing).is_err());
    assert!(SpecParser::from_files(&vec![]).is_err());
}

#[test]
fn conditions_with_premises() {
    assert!(!is_conditional("result >= 0"));
}
