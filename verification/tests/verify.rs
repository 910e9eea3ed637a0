use blvm_spec_lock::verify::{
    demote_if_all_spec_derived, failed_verification, failure_kind, FailureKind, PartialReason,
    VerificationResult,
};

#[test]
fn determinism_z3_unknown_is_solver_unknown_not_counterexample() {
    let msg = "Determinism: Z3 unknown: Try --timeout 30. (1 total failures)";
    assert_eq!(failure_kind("Ensures", msg), FailureKind::SolverUnknown);

    match failed_verification("Ensures", "Determinism: Z3 unknown: Try --timeout 30.", 1) {
        VerificationResult::Failed { kind, partial_reason, .. } => {
            assert_eq!(kind, FailureKind::SolverUnknown);
            assert_eq!(partial_reason, Some(PartialReason::Z3Timeout));
        }
        _ => panic!("expected Failed"),
    }
}

#[test]
fn determinism_non_deterministic_stays_counterexample() {
    let msg = "Determinism: Non-deterministic. Counterexample: [] (1 total failures)";
    assert_eq!(failure_kind("Ensures", msg), FailureKind::Counterexample);
}

#[test]
fn spec_derived_counterexample_stays_failed() {
    let failed = vec![(
        "Ensures".to_string(),
        "Z3: Contract violated. Counterexample: {}".to_string(),
        true,
    )];
    assert!(
        demote_if_all_spec_derived(&failed, 0, 1).is_none(),
        "spec-derived Z3 counterexample must not be demoted to Partial"
    );
}

#[test]
fn spec_derived_translation_gap_demotes_to_partial() {
    let failed = vec![(
        "Ensures".to_string(),
        "Contract could not be parsed: unsupported LaTeX expression".to_string(),
        true,
    )];
    let result = demote_if_all_spec_derived(&failed, 0, 1).expect("translation gap should demote");
    match result {
        VerificationResult::Partial { partial_reason, .. } => {
            assert_eq!(partial_reason, Some(PartialReason::UnsupportedTranslation));
        }
        _ => panic!("expected Partial"),
    }
}

#[test]
fn manual_counterexample_stays_failed() {
    let failed = vec![("Ensures".to_string(), "Z3: Contract violated.".to_string(), false)];
    assert!(demote_if_all_spec_derived(&failed, 0, 1).is_none());
}

#[test]
fn spec_derived_body_translation_failure_demotes_to_partial() {
    let failed = vec![(
        "Ensures".to_string(),
        "Z3: Z3 verification unknown: Could not translate function body to Z3 constraints; \
         SAT result without body constraints is not meaningful"
            .to_string(),
        true,
    )];
    let result = demote_if_all_spec_derived(&failed, 0, 1)
        .expect("body-translation gap should demote to Partial");
    match result {
        VerificationResult::Partial { partial_reason, .. } => {
            assert_eq!(partial_reason, Some(PartialReason::UnsupportedTranslation));
        }
        _ => panic!("expected Partial, got {:?}", result),
    }
}

#[test]
fn spec_derived_empty_assignments_demotes_to_partial() {
    let failed = vec![(
        "Ensures".to_string(),
        "Z3: Z3 verification unknown: Z3 found SAT but counterexample model has no named \
         variable assignments (incomplete translator); result is not a concrete witness \
         against the implementation"
            .to_string(),
        true,
    )];
    let result = demote_if_all_spec_derived(&failed, 0, 1)
        .expect("empty-assignments gap should demote to Partial");
    match result {
        VerificationResult::Partial { partial_reason, .. } => {
            assert_eq!(partial_reason, Some(PartialReason::UnsupportedTranslation));
        }
        _ => panic!("expected Partial, got {:?}", result),
    }
}

#[test]
fn spec_derived_translation_type_error_demotes_to_partial() {
    let failed = vec![(
        "Ensures".to_string(),
        "Z3: Z3 verification error: Translation error: Type error: Expected Bool".to_string(),
        true,
    )];
    let result = demote_if_all_spec_derived(&failed, 0, 1)
        .expect("translation type error should demote to Partial");
    match result {
        VerificationResult::Partial { partial_reason, .. } => {
            assert_eq!(partial_reason, Some(PartialReason::UnsupportedTranslation));
        }
        _ => panic!("expected Partial, got {:?}", result),
    }
}

#[test]
fn spec_derived_counterexample_with_concrete_assignments_stays_failed() {
    let failed = vec![(
        "Ensures".to_string(),
        "Z3: Contract violated. Counterexample: {\"x\": \"5\", \"y\": \"-1\"} (1 total failures)"
            .to_string(),
        true,
    )];
    assert!(
        demote_if_all_spec_derived(&failed, 0, 1).is_none(),
        "spec-derived failure with concrete counterexample must not be demoted"
    );
}

#[test]
fn manual_no_named_assignments_demotes_to_partial() {
    let failed = vec![(
        "Ensures".to_string(),
        "Z3: Z3 verification unknown: Z3 found SAT but counterexample model has no named \
         variable assignments (incomplete translator); result is not a concrete witness \
         against the implementation (3 total failures)"
            .to_string(),
        false,
    )];
    let result = demote_if_all_spec_derived(&failed, 0, 1)
        .expect("no-named-assignments gap must demote to Partial even for manual contracts");
    match result {
        VerificationResult::Partial { partial_reason, .. } => {
            assert_eq!(partial_reason, Some(PartialReason::UnsupportedTranslation));
        }
        _ => panic!("expected Partial, got {:?}", result),
    }
}

#[test]
fn contracts_in_the_code_are_demoted_only_without_values() {
    let failed = |reason: &str, derived: bool| {
        vec![("Ensures".to_string(), reason.to_string(), derived)]
    };
    let gap = "Contract could not be parsed: unsupported LaTeX expression";
    assert!(demote_if_all_spec_derived(&failed(gap, false), 0, 1).is_none());
    assert!(demote_if_all_spec_derived(&failed(gap, true), 0, 1).is_some());
    let unnamed = "counterexample model has no named variable assignments";
    assert!(demote_if_all_spec_derived(&failed(unnamed, false), 0, 1).is_some());
}
