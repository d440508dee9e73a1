//! The baseline condition domain for event sources, plus the CloudEvent
//! attribute and override records that a source reports in its status.

use vstd::prelude::*;
use crate::condition_type::ConditionType;

verus! {

/// A baseline condition domain for a source's status: the source is `Ready`
/// overall once a sink has been provided.
#[derive(Clone, Copy, Debug, PartialEq, Eq, Structural)]
pub enum SourceCondition {
    Ready,
    SinkProvided,
}

impl ConditionType for SourceCondition {
    open spec fn spec_happy() -> Self {
        SourceCondition::Ready
    }

    open spec fn spec_dependents() -> Seq<Self> {
        seq![SourceCondition::SinkProvided]
    }

    fn happy() -> (r: Self) {
        SourceCondition::Ready
    }

    fn dependents() -> (r: Vec<Self>) {
        let mut deps: Vec<SourceCondition> = Vec::new();
        deps.push(SourceCondition::SinkProvided);
        proof {
            assert(deps@ =~= Self::spec_dependents());
        }
        deps
    }

    fn same_as(&self, other: &Self) -> (r: bool) {
        *self == *other
    }
}

/// Condition domains that, like [`SourceCondition`], single out the
/// sink-provided condition.
pub trait SourceConditionType: ConditionType {
    /// The variant recording that the source has a sink configured.
    fn sinkprovided() -> Self;
}

impl SourceConditionType for SourceCondition {
    fn sinkprovided() -> (r: Self) {
        SourceCondition::SinkProvided
    }
}

/// The attributes that a source uses as part of its CloudEvents.
pub struct CloudEventAttributes {
    pub type_: Option<String>,
    pub source: Option<String>,
}

/// Overrides that control the output format of the CloudEvents a source
/// produces: attribute extensions set on each outbound event, kept as
/// key-value pairs in insertion order.
pub struct CloudEventOverrides {
    pub extensions: Option<Vec<(String, String)>>,
}

} // verus!
