use knative::condition::Condition;
use knative::condition_type::ConditionType;
use knative::manager::ConditionManager;
use knative::status::{ConditionSeverity, ConditionStatus};
use knative::store::Conditions;

#[derive(Copy, Clone, Debug, PartialEq)]
enum TestCondition {
    Ready,
    DataPlaneReady,
    ControlPlaneReady,
    Informational,
}

impl ConditionType for TestCondition {
    fn happy() -> Self {
        TestCondition::Ready
    }

    fn dependents() -> Vec<Self> {
        vec![TestCondition::DataPlaneReady, TestCondition::ControlPlaneReady]
    }

    fn same_as(&self, other: &Self) -> bool {
        *self == *other
    }
}

fn seeded_manager(now: i64) -> ConditionManager<TestCondition> {
    ConditionManager::new(Conditions::seeded_at(now))
}

fn cond(
    manager: &ConditionManager<TestCondition>,
    t: TestCondition,
) -> Condition<TestCondition> {
    let c = manager.get_condition(t).expect("condition exists");
    Condition {
        type_: c.type_,
        status: c.status,
        severity: c.severity,
        last_transition_time: c.last_transition_time,
        reason: c.reason.clone(),
        message: c.message.clone(),
    }
}

#[test]
fn seeded_store_is_unknown_and_ordered() {
    let manager = seeded_manager(1);
    assert_eq!(manager.conditions.len(), 3);
    assert_eq!(manager.conditions.at(0).type_, TestCondition::Ready);
    assert_eq!(manager.conditions.at(1).type_, TestCondition::DataPlaneReady);
    assert_eq!(manager.conditions.at(2).type_, TestCondition::ControlPlaneReady);
    for i in 0..3 {
        let c = manager.conditions.at(i);
        assert_eq!(c.status, ConditionStatus::Unknown);
        assert_eq!(c.severity, ConditionSeverity::Error);
        assert_eq!(c.last_transition_time, Some(1));
        assert_eq!(c.reason, None);
        assert_eq!(c.message, None);
    }
    assert!(!manager.is_happy());
}

#[test]
fn mark_true_is_idempotent() {
    let mut manager = seeded_manager(1);
    manager.mark_true_at(TestCondition::DataPlaneReady, 2);
    manager.mark_true_at(TestCondition::ControlPlaneReady, 3);
    assert!(manager.is_happy());
    let before_happy = cond(&manager, TestCondition::Ready);
    let before_dep = cond(&manager, TestCondition::ControlPlaneReady);
    assert_eq!(before_dep.last_transition_time, Some(3));

    // The repeated call carries an identical payload: nothing may change,
    // not even a transition timestamp.
    manager.mark_true_at(TestCondition::ControlPlaneReady, 9);
    let after_happy = cond(&manager, TestCondition::Ready);
    let after_dep = cond(&manager, TestCondition::ControlPlaneReady);
    assert_eq!(before_dep.last_transition_time, after_dep.last_transition_time);
    assert_eq!(before_happy.last_transition_time, after_happy.last_transition_time);
    assert_eq!(before_dep.status, after_dep.status);
    assert_eq!(before_happy.status, after_happy.status);
}

#[test]
fn updates_preserve_first_seen_order() {
    let mut manager = seeded_manager(1);
    manager.mark_true_at(TestCondition::ControlPlaneReady, 2);
    manager.mark_true_at(TestCondition::Informational, 3);
    manager.mark_false_at(TestCondition::ControlPlaneReady, "Lost", None, 4);
    manager.mark_true_at(TestCondition::DataPlaneReady, 5);
    let order: Vec<TestCondition> = (0..manager.conditions.len())
        .map(|i| manager.conditions.at(i).type_)
        .collect();
    assert_eq!(
        order,
        vec![
            TestCondition::Ready,
            TestCondition::DataPlaneReady,
            TestCondition::ControlPlaneReady,
            TestCondition::Informational,
        ]
    );
}

#[test]
fn aggregation_all_true_makes_happy_true() {
    let mut manager = seeded_manager(1);
    manager.mark_true_at(TestCondition::DataPlaneReady, 2);
    assert!(!manager.is_happy());
    manager.mark_true_at(TestCondition::ControlPlaneReady, 3);
    assert!(manager.is_happy());
    let happy = cond(&manager, TestCondition::Ready);
    assert_eq!(happy.status, ConditionStatus::True);
    assert_eq!(happy.reason, None);
    assert_eq!(happy.message, None);
}

#[test]
fn aggregation_false_dependent_forces_happy_false() {
    let mut manager = seeded_manager(1);
    manager.mark_true_at(TestCondition::DataPlaneReady, 2);
    manager.mark_true_at(TestCondition::ControlPlaneReady, 3);
    manager.mark_false_at(TestCondition::DataPlaneReady, "Gone", Some("boom".to_string()), 4);
    assert!(!manager.is_happy());
    let happy = cond(&manager, TestCondition::Ready);
    assert_eq!(happy.status, ConditionStatus::False);
    assert_eq!(happy.reason, Some("Gone".to_string()));
    assert_eq!(happy.message, Some("boom".to_string()));
}

#[test]
fn aggregation_unknown_dependent_keeps_happy_unknown() {
    let mut manager = seeded_manager(1);
    manager.mark_true_at(TestCondition::ControlPlaneReady, 2);
    // DataPlaneReady is still Unknown, so readiness cannot be claimed.
    let happy = cond(&manager, TestCondition::Ready);
    assert_eq!(happy.status, ConditionStatus::Unknown);
    assert!(!manager.is_happy());
}

#[test]
fn unknown_does_not_mask_false() {
    let mut manager = seeded_manager(1);
    manager.mark_false_at(TestCondition::DataPlaneReady, "Broken", None, 2);
    assert_eq!(cond(&manager, TestCondition::Ready).status, ConditionStatus::False);
    manager.mark_unknown_at(TestCondition::ControlPlaneReady, "Probing", None, 3);
    let happy = cond(&manager, TestCondition::Ready);
    assert_eq!(happy.status, ConditionStatus::False);
}

#[test]
fn unknown_dependent_resets_happy_to_unknown() {
    // With every dependent true and readiness claimed, a dependent going
    // unknown takes the happy condition back to unknown, carrying the
    // caller's reason and message.
    let mut manager = seeded_manager(1);
    manager.mark_true_at(TestCondition::DataPlaneReady, 2);
    manager.mark_true_at(TestCondition::ControlPlaneReady, 3);
    assert!(manager.is_happy());
    manager.mark_unknown_at(
        TestCondition::DataPlaneReady,
        "Rescheduled",
        Some("rolling out".to_string()),
        4,
    );
    let happy = cond(&manager, TestCondition::Ready);
    assert_eq!(happy.status, ConditionStatus::Unknown);
    assert_eq!(happy.reason, Some("Rescheduled".to_string()));
    assert_eq!(happy.message, Some("rolling out".to_string()));
    assert!(!manager.is_happy());
}

#[test]
fn unknown_happy_type_resets_happy_to_unknown() {
    // Marking the happy type itself unknown (the start of reconciling a
    // new generation) records the caller's reason on it.
    let mut manager = seeded_manager(1);
    manager.mark_true_at(TestCondition::DataPlaneReady, 2);
    manager.mark_true_at(TestCondition::ControlPlaneReady, 3);
    manager.mark_unknown_at(
        TestCondition::Ready,
        "NewObservedGenFailure",
        Some("unsuccessfully observed a new generation".to_string()),
        4,
    );
    let happy = cond(&manager, TestCondition::Ready);
    assert_eq!(happy.status, ConditionStatus::Unknown);
    assert_eq!(happy.reason, Some("NewObservedGenFailure".to_string()));
}

#[test]
fn unknown_escalates_to_false_with_fresh_reason() {
    // Seed a store whose happy condition is stale: a dependent already
    // failed but the top-level condition still claims readiness.
    let make = |t: TestCondition, status: ConditionStatus, ts: i64| Condition {
        type_: t,
        status,
        severity: ConditionSeverity::Error,
        last_transition_time: Some(ts),
        reason: None,
        message: None,
    };
    let store = Conditions::with_conditions(vec![
        make(TestCondition::Ready, ConditionStatus::True, 1),
        make(TestCondition::DataPlaneReady, ConditionStatus::False, 2),
        make(TestCondition::ControlPlaneReady, ConditionStatus::True, 3),
    ]);
    let mut manager = ConditionManager::new(store);
    assert!(manager.is_happy());
    // A fresh unknown observation must not leave the stale True standing
    // while a hard failure persists: the happy condition escalates to
    // False, attributed to the caller's reason.
    manager.mark_unknown_at(TestCondition::ControlPlaneReady, "Probing", None, 4);
    let happy = cond(&manager, TestCondition::Ready);
    assert_eq!(happy.status, ConditionStatus::False);
    assert_eq!(happy.reason, Some("Probing".to_string()));
}

#[test]
fn tie_break_prefers_later_transition() {
    // Both dependents are False; the scan must return the one whose
    // transition is later, however the store is ordered.
    let mut manager = seeded_manager(1);
    manager.mark_false_at(TestCondition::DataPlaneReady, "First", None, 10);
    manager.mark_false_at(TestCondition::ControlPlaneReady, "Second", None, 5);
    // Timestamps were handed in out of order on purpose: the first entry
    // in store order carries the later transition.
    let unhappy = manager.find_unhappy_dependent().expect("a dependent is unhappy");
    assert_eq!(unhappy.type_, TestCondition::DataPlaneReady);
    assert_eq!(unhappy.last_transition_time, Some(10));

    // The aggregation mirrors that choice: re-deriving the happy
    // condition after an unrelated mark reports the later failure.
    manager.mark_true_at(TestCondition::Informational, 20);
    let happy = cond(&manager, TestCondition::Ready);
    assert_eq!(happy.status, ConditionStatus::False);
    assert_eq!(happy.reason, Some("First".to_string()));
}

#[test]
fn false_outranks_unknown_in_the_scan() {
    let mut manager = seeded_manager(1);
    manager.mark_unknown_at(TestCondition::DataPlaneReady, "Probing", None, 50);
    manager.mark_false_at(TestCondition::ControlPlaneReady, "Broken", None, 2);
    // The False dependent wins even though its transition is much older.
    let unhappy = manager.find_unhappy_dependent().expect("a dependent is unhappy");
    assert_eq!(unhappy.type_, TestCondition::ControlPlaneReady);
    assert_eq!(unhappy.status, ConditionStatus::False);
}

#[test]
fn nonterminal_conditions_do_not_move_happy() {
    let mut manager = seeded_manager(1);
    manager.mark_true_at(TestCondition::DataPlaneReady, 2);
    manager.mark_true_at(TestCondition::ControlPlaneReady, 3);
    let before = cond(&manager, TestCondition::Ready);
    manager.mark_true_at(TestCondition::Informational, 4);
    assert_eq!(cond(&manager, TestCondition::Ready).last_transition_time, before.last_transition_time);
    manager.mark_false_at(TestCondition::Informational, "Meh", None, 5);
    assert_eq!(cond(&manager, TestCondition::Ready).last_transition_time, before.last_transition_time);
    manager.mark_unknown_at(TestCondition::Informational, "Meh", None, 6);
    let after = cond(&manager, TestCondition::Ready);
    assert_eq!(after.status, ConditionStatus::True);
    assert_eq!(after.last_transition_time, before.last_transition_time);
    assert!(manager.is_happy());
}

#[test]
fn nonterminal_conditions_get_info_severity() {
    let mut manager = seeded_manager(1);
    manager.mark_false_at(TestCondition::Informational, "Meh", None, 2);
    let c = cond(&manager, TestCondition::Informational);
    assert_eq!(c.severity, ConditionSeverity::Info);
    let mut manager = seeded_manager(1);
    manager.mark_false_at(TestCondition::DataPlaneReady, "Gone", None, 2);
    let c = cond(&manager, TestCondition::DataPlaneReady);
    assert_eq!(c.severity, ConditionSeverity::Error);
}

#[test]
fn full_lifecycle_scenario() {
    // Seed H(Unknown), A(Unknown), B(Unknown) with dependents {A, B}.
    let mut manager = seeded_manager(1);
    // Marking A true leaves H unknown: B is still unknown.
    manager.mark_true_at(TestCondition::DataPlaneReady, 2);
    assert_eq!(cond(&manager, TestCondition::Ready).status, ConditionStatus::Unknown);
    // Marking B true completes the dependents: H becomes true.
    manager.mark_true_at(TestCondition::ControlPlaneReady, 3);
    assert_eq!(cond(&manager, TestCondition::Ready).status, ConditionStatus::True);
    // A hard failure of A dominates even though B stays true.
    manager.mark_false_at(TestCondition::DataPlaneReady, "X", Some("boom".to_string()), 4);
    let happy = cond(&manager, TestCondition::Ready);
    assert_eq!(happy.status, ConditionStatus::False);
    assert_eq!(happy.reason, Some("X".to_string()));
    assert_eq!(happy.message, Some("boom".to_string()));
    assert_eq!(cond(&manager, TestCondition::ControlPlaneReady).status, ConditionStatus::True);
}

#[test]
fn get_condition_of_unseen_type_is_none() {
    let manager = seeded_manager(1);
    assert!(manager.get_condition(TestCondition::Informational).is_none());
}

#[test]
fn mark_true_with_reason_keeps_annotation() {
    let mut manager = seeded_manager(1);
    manager.mark_true_with_reason_at(
        TestCondition::DataPlaneReady,
        "Degraded",
        Some("limping".to_string()),
        2,
    );
    let c = cond(&manager, TestCondition::DataPlaneReady);
    assert_eq!(c.status, ConditionStatus::True);
    assert_eq!(c.reason, Some("Degraded".to_string()));
    assert_eq!(c.message, Some("limping".to_string()));
}

#[test]
fn wall_clock_operations_work_end_to_end() {
    // The clock-stamped entry points behave like the explicit-time ones,
    // with timestamps drawn from the wall clock.
    let mut manager = seeded_manager(0);
    manager.mark_true(TestCondition::DataPlaneReady);
    manager.mark_true(TestCondition::ControlPlaneReady);
    assert!(manager.is_happy());
    manager.mark_false(TestCondition::DataPlaneReady, "Gone", None);
    assert!(!manager.is_happy());
    let happy = cond(&manager, TestCondition::Ready);
    assert_eq!(happy.reason, Some("Gone".to_string()));
    assert!(happy.last_transition_time.expect("stamped") > 0);
}
