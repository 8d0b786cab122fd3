use mimas::attrs::{error_kept, validate_attrs, AttrError, AttrProblem, AttrTarget};

fn names(v: &[&str]) -> Vec<String> {
    v.iter().map(|s| s.to_string()).collect()
}

fn summary(errs: &[AttrError]) -> Vec<(AttrProblem, usize, Option<String>)> {
    errs.iter().map(|e| (e.problem, e.at, e.name.clone())).collect()
}

const PLAIN_FN: AttrTarget = AttrTarget::Function { is_method: false, has_params: false };

#[test]
fn a_single_test_marker_on_a_plain_function_is_fine() {
    assert!(validate_attrs(&names(&["test"]), PLAIN_FN, true).is_empty());
    assert!(validate_attrs(&names(&["tests"]), AttrTarget::Tests, true).is_empty());
    assert!(validate_attrs(&names(&[]), AttrTarget::Other, false).is_empty());
}

#[test]
fn a_repeated_marker_is_a_duplicate() {
    let errs = validate_attrs(&names(&["test", "test"]), PLAIN_FN, true);
    assert_eq!(summary(&errs), vec![(AttrProblem::Duplicate, 1, Some("test".to_string()))]);
    let errs = validate_attrs(&names(&["tests", "tests"]), AttrTarget::Tests, true);
    assert_eq!(summary(&errs), vec![(AttrProblem::Duplicate, 1, Some("tests".to_string()))]);
}

#[test]
fn test_marker_on_methods_and_functions_with_parameters() {
    let target = AttrTarget::Function { is_method: true, has_params: true };
    let errs = validate_attrs(&names(&["test"]), target, true);
    assert_eq!(
        summary(&errs),
        vec![(AttrProblem::TestOnMethod, 0, None), (AttrProblem::TestTakesParameters, 0, None)]
    );
    // where tests are not allowed at all, only one error is raised
    let errs = validate_attrs(&names(&["test"]), target, false);
    assert_eq!(summary(&errs), vec![(AttrProblem::TestOnMethod, 0, None)]);
}

#[test]
fn markers_on_the_wrong_kind_of_item() {
    let errs = validate_attrs(&names(&["test", "tests"]), AttrTarget::Other, true);
    assert_eq!(
        summary(&errs),
        vec![
            (AttrProblem::NotOnFunction, 0, Some("test".to_string())),
            (AttrProblem::TestsNeedsList, 1, None),
        ]
    );
    let errs = validate_attrs(&names(&["tests"]), AttrTarget::Tests, false);
    assert_eq!(summary(&errs), vec![(AttrProblem::TestOnMethod, 0, None)]);
}

#[test]
fn unknown_markers_are_reported_by_name() {
    let errs = validate_attrs(&names(&["bogus", "test", "test", "inline"]), PLAIN_FN, true);
    assert_eq!(
        summary(&errs),
        vec![
            (AttrProblem::Unknown, 0, Some("bogus".to_string())),
            (AttrProblem::Duplicate, 2, Some("test".to_string())),
            (AttrProblem::Unknown, 3, Some("inline".to_string())),
        ]
    );
}

#[test]
fn only_the_first_error_at_a_position_is_kept() {
    let (first, marked) = error_kept(None, 7, false);
    assert!(first);
    assert_eq!(marked, Some(7));
    assert!(!error_kept(marked, 7, false).0);
    assert!(error_kept(marked, 8, false).0);
    assert!(!error_kept(None, 7, true).0);
}
