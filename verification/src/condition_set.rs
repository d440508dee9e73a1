//! The dependency topology for one resource kind: which condition type is
//! the aggregate "happy" type and which types determine it.

use vstd::prelude::*;
use crate::condition_type::ConditionType;
use crate::status::ConditionSeverity;

verus! {

/// Immutable configuration describing how the conditions of a resource
/// kind depend on one another.
///
/// Invariant: the happy type is never one of its own dependents.
#[derive(Clone, Debug)]
pub struct ConditionSet<C: ConditionType> {
    pub happy: C,
    pub dependents: Vec<C>,
}

impl<C: ConditionType> ConditionSet<C> {
    /// The configuration invariant: dependents do not contain the happy type.
    pub open spec fn wf(self) -> bool {
        !self.dependents@.contains(self.happy)
    }

    /// Whether `t` determines happiness: it is the happy type itself or one
    /// of the dependents.
    pub open spec fn spec_is_terminal(self, t: C) -> bool {
        self.dependents@.contains(t) || self.happy == t
    }

    /// The default severity of `t`: `Error` for terminal types, `Info`
    /// otherwise.
    pub open spec fn spec_severity(self, t: C) -> ConditionSeverity {
        if self.spec_is_terminal(t) {
            ConditionSeverity::Error
        } else {
            ConditionSeverity::Info
        }
    }

    /// The configuration declared by `C`. Declaring the happy type as its
    /// own dependent is a configuration-time contract violation, which the
    /// precondition rules out; [`ConditionSet::try_new`] reports it instead.
    pub fn new() -> (r: Self)
        requires
            !C::spec_dependents().contains(C::spec_happy()),
        ensures
            r.happy == C::spec_happy(),
            r.dependents@ == C::spec_dependents(),
            r.wf(),
    {
        ConditionSet { happy: C::happy(), dependents: C::dependents() }
    }

    /// The configuration declared by `C`, or `None` if the dependents
    /// contain the happy type.
    pub fn try_new() -> (r: Option<Self>)
        ensures
            match r {
                Option::Some(set) => {
                    &&& !C::spec_dependents().contains(C::spec_happy())
                    &&& set.happy == C::spec_happy()
                    &&& set.dependents@ == C::spec_dependents()
                    &&& set.wf()
                },
                Option::None => C::spec_dependents().contains(C::spec_happy()),
            },
    {
        let happy = C::happy();
        let dependents = C::dependents();
        if contains_type(&dependents, &happy) {
            None
        } else {
            Some(ConditionSet { happy, dependents })
        }
    }

    /// Whether the [`ConditionType`] determines happiness.
    pub fn is_terminal(&self, condition_type: &C) -> (r: bool)
        ensures
            r == self.spec_is_terminal(*condition_type),
    {
        contains_type(&self.dependents, condition_type) || self.happy.same_as(condition_type)
    }

    /// The default severity of failures of the [`ConditionType`].
    pub fn severity(&self, condition_type: &C) -> (r: ConditionSeverity)
        ensures
            r == self.spec_severity(*condition_type),
    {
        if self.is_terminal(condition_type) {
            ConditionSeverity::Error
        } else {
            ConditionSeverity::Info
        }
    }
}

/// Whether `types` contains `t`.
pub fn contains_type<C: ConditionType>(types: &Vec<C>, t: &C) -> (r: bool)
    ensures
        r == types@.contains(*t),
{
    let mut i: usize = 0;
    while i < types.len()
        invariant
            i <= types.len(),
            forall|k: int| 0 <= k < i ==> types@[k] != *t,
        decreases types.len() - i,
    {
        if types[i].same_as(t) {
            return true;
        }
        i = i + 1;
    }
    false
}

} // verus!
