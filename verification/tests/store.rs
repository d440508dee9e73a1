use knative::condition::Condition;
use knative::condition_set::ConditionSet;
use knative::condition_type::ConditionType;
use knative::status::{ConditionSeverity, ConditionStatus};
use knative::store::Conditions;

#[derive(Copy, Clone, Debug, PartialEq)]
enum StageCondition {
    Succeeded,
    Fetched,
    Unpacked,
}

impl ConditionType for StageCondition {
    fn happy() -> Self {
        StageCondition::Succeeded
    }

    fn dependents() -> Vec<Self> {
        vec![StageCondition::Fetched, StageCondition::Unpacked]
    }

    fn same_as(&self, other: &Self) -> bool {
        *self == *other
    }
}

fn fresh(t: StageCondition, status: ConditionStatus, ts: Option<i64>) -> Condition<StageCondition> {
    Condition {
        type_: t,
        status,
        severity: ConditionSeverity::Error,
        last_transition_time: ts,
        reason: None,
        message: None,
    }
}

#[test]
fn set_cond_appends_new_types_with_a_stamp() {
    let mut store: Conditions<StageCondition> = Conditions(Vec::new());
    store.set_cond_at(fresh(StageCondition::Fetched, ConditionStatus::True, None), 7);
    assert_eq!(store.len(), 1);
    let c = store.at(0);
    assert_eq!(c.type_, StageCondition::Fetched);
    assert_eq!(c.last_transition_time, Some(7));
}

#[test]
fn set_cond_is_a_no_op_when_only_the_time_differs() {
    let mut store: Conditions<StageCondition> = Conditions(Vec::new());
    store.set_cond_at(fresh(StageCondition::Fetched, ConditionStatus::True, None), 7);
    store.set_cond_at(fresh(StageCondition::Fetched, ConditionStatus::True, Some(99)), 8);
    assert_eq!(store.len(), 1);
    assert_eq!(store.at(0).last_transition_time, Some(7));
}

#[test]
fn set_cond_restamps_on_value_change_in_place() {
    let mut store: Conditions<StageCondition> = Conditions(Vec::new());
    store.set_cond_at(fresh(StageCondition::Fetched, ConditionStatus::True, None), 7);
    store.set_cond_at(fresh(StageCondition::Unpacked, ConditionStatus::Unknown, None), 8);
    store.set_cond_at(fresh(StageCondition::Fetched, ConditionStatus::False, None), 9);
    assert_eq!(store.len(), 2);
    let c = store.at(0);
    assert_eq!(c.type_, StageCondition::Fetched);
    assert_eq!(c.status, ConditionStatus::False);
    assert_eq!(c.last_transition_time, Some(9));
    assert_eq!(store.at(1).type_, StageCondition::Unpacked);
}

#[test]
fn get_cond_finds_by_type() {
    let mut store: Conditions<StageCondition> = Conditions(Vec::new());
    assert!(store.get_cond(&StageCondition::Fetched).is_none());
    store.set_cond_at(fresh(StageCondition::Fetched, ConditionStatus::True, None), 7);
    let c = store.get_cond(&StageCondition::Fetched).expect("present");
    assert_eq!(c.status, ConditionStatus::True);
    assert!(store.get_cond(&StageCondition::Unpacked).is_none());
}

#[test]
fn with_conditions_keeps_the_given_sequence() {
    let store = Conditions::with_conditions(vec![
        fresh(StageCondition::Unpacked, ConditionStatus::Unknown, Some(1)),
        fresh(StageCondition::Succeeded, ConditionStatus::Unknown, Some(1)),
    ]);
    assert_eq!(store.len(), 2);
    assert_eq!(store.at(0).type_, StageCondition::Unpacked);
    assert_eq!(store.at(1).type_, StageCondition::Succeeded);
}

#[test]
fn condition_outranks_orders_by_status_then_time() {
    let newer_false = fresh(StageCondition::Fetched, ConditionStatus::False, Some(9));
    let older_false = fresh(StageCondition::Unpacked, ConditionStatus::False, Some(3));
    let unknown = fresh(StageCondition::Unpacked, ConditionStatus::Unknown, Some(50));
    let true_ = fresh(StageCondition::Unpacked, ConditionStatus::True, Some(80));
    let unstamped_false = fresh(StageCondition::Unpacked, ConditionStatus::False, None);

    assert!(newer_false.outranks(&older_false));
    assert!(!older_false.outranks(&newer_false));
    assert!(older_false.outranks(&unknown));
    assert!(unknown.outranks(&true_));
    assert!(!true_.outranks(&unknown));
    // Without both timestamps, equal statuses tie.
    assert!(!unstamped_false.outranks(&older_false));
    assert!(!older_false.outranks(&unstamped_false));
    // Equal timestamps tie as well: neither strictly outranks.
    let same_time = fresh(StageCondition::Fetched, ConditionStatus::False, Some(3));
    assert!(!same_time.outranks(&older_false));
    assert!(!older_false.outranks(&same_time));
}

#[test]
fn condition_value_equality_ignores_the_timestamp() {
    let a = fresh(StageCondition::Fetched, ConditionStatus::True, Some(1));
    let b = fresh(StageCondition::Fetched, ConditionStatus::True, Some(2));
    let c = fresh(StageCondition::Fetched, ConditionStatus::False, Some(1));
    assert!(a.value_equals(&b));
    assert!(!a.value_equals(&c));
}

#[test]
fn condition_set_classifies_types() {
    let set: ConditionSet<StageCondition> = ConditionSet::new();
    assert!(set.is_terminal(&StageCondition::Succeeded));
    assert!(set.is_terminal(&StageCondition::Fetched));
    assert!(set.is_terminal(&StageCondition::Unpacked));
    assert_eq!(set.severity(&StageCondition::Succeeded), ConditionSeverity::Error);
    assert_eq!(set.severity(&StageCondition::Fetched), ConditionSeverity::Error);
}

#[test]
fn severity_is_err_only_for_error() {
    assert!(ConditionSeverity::Error.is_err());
    assert!(!ConditionSeverity::Warning.is_err());
    assert!(!ConditionSeverity::Info.is_err());
}

#[test]
fn invalid_domain_is_reported_by_try_new() {
    #[derive(Copy, Clone, Debug, PartialEq)]
    enum BrokenCondition {
        Ready,
    }

    impl ConditionType for BrokenCondition {
        fn happy() -> Self {
            BrokenCondition::Ready
        }

        fn dependents() -> Vec<Self> {
            // The happy type may never be its own dependent.
            vec![BrokenCondition::Ready]
        }

        fn same_as(&self, other: &Self) -> bool {
            *self == *other
        }
    }

    assert!(ConditionSet::<BrokenCondition>::try_new().is_none());
    assert!(ConditionSet::<StageCondition>::try_new().is_some());
}
