use knative::condition_type::ConditionType;
use knative::source::SourceConditionType;

#[derive(Copy, Clone, Debug, PartialEq)]
enum MyCondition {
    Ready,
    SinkProvided,
}

impl ConditionType for MyCondition {
    fn happy() -> Self {
        MyCondition::Ready
    }

    fn dependents() -> Vec<Self> {
        vec![MyCondition::SinkProvided]
    }

    fn same_as(&self, other: &Self) -> bool {
        *self == *other
    }
}

impl SourceConditionType for MyCondition {
    fn sinkprovided() -> Self {
        MyCondition::SinkProvided
    }
}

#[test]
fn variant_functions_exist() {
    assert_eq!(MyCondition::Ready, MyCondition::happy());
    assert_eq!(MyCondition::SinkProvided, MyCondition::sinkprovided());
}

#[test]
fn has_dependents() {
    assert_eq!(vec![MyCondition::SinkProvided], MyCondition::dependents());
}
