//! One named observation about a resource: a condition.
//!
//! A condition couples an identifier from the resource's [`ConditionType`]
//! domain with a three-state status, a severity, the time of its last
//! value transition, and a human-readable reason and message.

use vstd::prelude::*;
use crate::condition_type::ConditionType;
use crate::status::{ConditionStatus, ConditionSeverity};

verus! {

/// A custom resource status condition.
///
/// `last_transition_time` is a timestamp in milliseconds since the Unix
/// epoch; it records the last time the condition's observable value
/// (everything except the timestamp itself) changed.
#[derive(Clone, Debug)]
pub struct Condition<C: ConditionType> {
    pub type_: C,
    pub status: ConditionStatus,
    pub severity: ConditionSeverity,
    pub last_transition_time: Option<i64>,
    pub reason: Option<String>,
    pub message: Option<String>,
}

/// The mathematical value of a [`Condition`]: the same fields with the
/// strings abstracted to character sequences.
#[verifier::ext_equal]
pub struct ConditionView<C> {
    pub type_: C,
    pub status: ConditionStatus,
    pub severity: ConditionSeverity,
    pub last_transition_time: Option<i64>,
    pub reason: Option<Seq<char>>,
    pub message: Option<Seq<char>>,
}

/// The view of an optional owned string: an optional character sequence.
pub open spec fn opt_string_view(o: Option<String>) -> Option<Seq<char>> {
    match o {
        Option::Some(s) => Option::Some(s@),
        Option::None => Option::None,
    }
}

impl<C: ConditionType> View for Condition<C> {
    type V = ConditionView<C>;

    open spec fn view(&self) -> ConditionView<C> {
        ConditionView {
            type_: self.type_,
            status: self.status,
            severity: self.severity,
            last_transition_time: self.last_transition_time,
            reason: opt_string_view(self.reason),
            message: opt_string_view(self.message),
        }
    }
}

impl<C> ConditionView<C> {
    /// Value equality: every field except `last_transition_time` matches.
    /// Repeated identical observations are recognized through this relation,
    /// which is what keeps the transition timestamp from churning.
    pub open spec fn value_eq(self, other: ConditionView<C>) -> bool {
        &&& self.type_ == other.type_
        &&& self.status == other.status
        &&& self.severity == other.severity
        &&& self.reason == other.reason
        &&& self.message == other.message
    }

    /// The same condition with its transition timestamp replaced.
    pub open spec fn stamped(self, now: i64) -> ConditionView<C> {
        ConditionView { last_transition_time: Option::Some(now), ..self }
    }

    /// How unhappy a status is: `False` outranks `Unknown` outranks `True`.
    pub open spec fn status_rank(self) -> int {
        match self.status {
            ConditionStatus::False => 2int,
            ConditionStatus::Unknown => 1int,
            ConditionStatus::True => 0int,
        }
    }

    /// Whether this condition is strictly more unhappy than `other`:
    /// a worse status always wins; between equal statuses the later
    /// transition time wins, and conditions without timestamps tie.
    pub open spec fn outranks(self, other: ConditionView<C>) -> bool {
        ||| self.status_rank() > other.status_rank()
        ||| (self.status == other.status
            && self.last_transition_time is Some
            && other.last_transition_time is Some
            && self.last_transition_time->0 > other.last_transition_time->0)
    }
}

/// Unhappiness is a strict (transitive and irreflexive) ordering.
pub proof fn lemma_outranks_transitive<C>(a: ConditionView<C>, b: ConditionView<C>, c: ConditionView<C>)
    requires
        a.outranks(b),
        b.outranks(c),
    ensures
        a.outranks(c),
{
}

impl<C: ConditionType> Condition<C> {
    /// A fresh condition of the given type at the given time: status
    /// `Unknown`, severity `Error`, no reason or message.
    pub fn new_at(type_: C, now: i64) -> (r: Self)
        ensures
            r@ == (ConditionView {
                type_: type_,
                status: ConditionStatus::Unknown,
                severity: ConditionSeverity::Error,
                last_transition_time: Option::Some(now),
                reason: Option::None,
                message: Option::None,
            }),
    {
        Condition {
            type_,
            status: ConditionStatus::Unknown,
            severity: ConditionSeverity::Error,
            last_transition_time: Some(now),
            reason: None,
            message: None,
        }
    }

    /// Whether the condition's status is `True`.
    pub fn is_true(&self) -> (r: bool)
        ensures
            r == (self.status == ConditionStatus::True),
    {
        self.status == ConditionStatus::True
    }

    /// Whether the condition's status is `False`.
    pub fn is_false(&self) -> (r: bool)
        ensures
            r == (self.status == ConditionStatus::False),
    {
        self.status == ConditionStatus::False
    }

    /// Whether the condition's status is `Unknown`.
    pub fn is_unknown(&self) -> (r: bool)
        ensures
            r == (self.status == ConditionStatus::Unknown),
    {
        self.status == ConditionStatus::Unknown
    }

    /// Value equality with `other`: all fields except the transition
    /// timestamp match.
    pub fn value_equals(&self, other: &Self) -> (r: bool)
        ensures
            r == self@.value_eq(other@),
    {
        self.type_.same_as(&other.type_)
            && self.status == other.status
            && self.severity == other.severity
            && opt_string_equals(&self.reason, &other.reason)
            && opt_string_equals(&self.message, &other.message)
    }

    /// Whether this condition is strictly more unhappy than `other`.
    pub fn outranks(&self, other: &Self) -> (r: bool)
        ensures
            r == self@.outranks(other@),
    {
        let self_rank = status_rank_of(&self.status);
        let other_rank = status_rank_of(&other.status);
        if self_rank > other_rank {
            true
        } else if self_rank < other_rank {
            false
        } else {
            match (&self.last_transition_time, &other.last_transition_time) {
                (Some(left), Some(right)) => *left > *right,
                _ => false,
            }
        }
    }
}

/// The rank of a status as an executable value, `False` highest.
fn status_rank_of(status: &ConditionStatus) -> (r: u8)
    ensures
        r == 2 <==> *status == ConditionStatus::False,
        r == 1 <==> *status == ConditionStatus::Unknown,
        r == 0 <==> *status == ConditionStatus::True,
{
    match status {
        ConditionStatus::False => 2,
        ConditionStatus::Unknown => 1,
        ConditionStatus::True => 0,
    }
}

/// Equality of two optional strings, reflected to their views.
pub fn opt_string_equals(a: &Option<String>, b: &Option<String>) -> (r: bool)
    ensures
        r == (opt_string_view(*a) == opt_string_view(*b)),
{
    match (a, b) {
        (None, None) => true,
        (Some(left), Some(right)) => *left == *right,
        _ => false,
    }
}

/// A copy of an optional string whose view is unchanged.
pub fn clone_opt_string(o: &Option<String>) -> (r: Option<String>)
    ensures
        opt_string_view(r) == opt_string_view(*o),
{
    match o {
        Some(s) => Some(s.clone()),
        None => None,
    }
}

} // verus!
