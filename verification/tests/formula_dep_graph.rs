use blvm_spec_lock::formula_dep_graph::{canonical_cycle_rotation, find_formula_id_cycles};
use blvm_spec_lock::spec_types::FormulaSpec;

fn formula(id: &str, deps: &[&str]) -> FormulaSpec {
    FormulaSpec {
        id: id.to_string(),
        section: "1.0".into(),
        latex_body: "true".into(),
        raw_markdown: String::new(),
        depends_on: deps.iter().map(|d| (*d).to_string()).collect(),
    }
}

#[test]
fn canonical_cycle_picks_lexicographic_rotation() {
    let c = vec!["F_B".into(), "F_C".into(), "F_A".into()];
    assert_eq!(canonical_cycle_rotation(c), vec!["F_A", "F_B", "F_C"]);
}

#[test]
fn detects_simple_two_cycle() {
    let formulas = vec![formula("F_A", &["F_B"]), formula("F_B", &["F_A"])];
    let c = find_formula_id_cycles(&formulas);
    assert_eq!(c, vec![vec!["F_A".to_string(), "F_B".to_string()]]);
}

#[test]
fn dag_has_no_cycles() {
    let formulas = vec![formula("F_Root", &[]), formula("F_Leaf", &["F_Root"])];
    assert!(find_formula_id_cycles(&formulas).is_empty());
}

#[test]
fn a_formula_that_builds_on_itself_is_a_circle() {
    let formulas = vec![formula("F_A", &["F_A"]), formula("F_B", &["F_A"])];
    assert_eq!(find_formula_id_cycles(&formulas), vec![vec!["F_A".to_string()]]);
}

#[test]
fn unknown_and_foreign_dependencies_are_no_edges() {
    let formulas = vec![formula("F_A", &["F_Missing", "C_K"]), formula("C_K", &["F_A"])];
    assert!(find_formula_id_cycles(&formulas).is_empty());
}

#[test]
fn two_circles_come_in_order() {
    let formulas = vec![
        formula("F_Z", &["F_Y"]),
        formula("F_Y", &["F_Z"]),
        formula("F_B", &["F_C"]),
        formula("F_C", &["F_D"]),
        formula("F_D", &["F_B"]),
    ];
    assert_eq!(
        find_formula_id_cycles(&formulas),
        vec![
            vec!["F_B".to_string(), "F_C".to_string(), "F_D".to_string()],
            vec!["F_Y".to_string(), "F_Z".to_string()],
        ]
    );
}

#[test]
fn rotation_of_a_rotation_is_the_same() {
    let c: Vec<String> = vec!["F_C".into(), "F_A".into(), "F_B".into()];
    let once = canonical_cycle_rotation(c);
    let twice = canonical_cycle_rotation(once.clone());
    assert_eq!(once, twice);
    assert!(canonical_cycle_rotation(vec![]).is_empty());
}
