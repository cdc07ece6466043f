use orpheus::rebuild::{hashes_to_record, plan_conduct, ConductPlan};

#[test]
fn unchanged_inputs_only_tag() {
    assert!(matches!(plan_conduct(&vec![true, true]), ConductPlan::TagOnly));
    assert!(matches!(plan_conduct(&Vec::new()), ConductPlan::TagOnly));
}

#[test]
fn stale_inputs_are_rebuilt_in_order() {
    match plan_conduct(&vec![true, false, true, false]) {
        ConductPlan::Rebuild(v) => assert_eq!(v, vec![1, 3]),
        ConductPlan::TagOnly => panic!("expected a rebuild"),
    }
}

#[test]
fn recorded_hashes_follow_the_rebuild() {
    let plan = plan_conduct(&vec![false, true, false]);
    assert_eq!(hashes_to_record(&plan, true), vec![0, 2]);
    assert!(hashes_to_record(&plan, false).is_empty());
    assert!(hashes_to_record(&ConductPlan::TagOnly, true).is_empty());
}

#[test]
fn a_second_run_after_recording_rebuilds_nothing() {
    let ready = vec![false, true, false];
    let plan = plan_conduct(&ready);
    let mut after = ready.clone();
    for i in hashes_to_record(&plan, true) {
        after[i] = true;
    }
    assert!(matches!(plan_conduct(&after), ConductPlan::TagOnly));
}
