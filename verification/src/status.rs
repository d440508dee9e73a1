//! The value types of a condition: its three-state status and its severity.

use vstd::prelude::*;

verus! {

/// The state of a condition: `True`, `False`, or not yet known.
#[derive(Clone, Copy, Debug, PartialEq, Eq, Structural)]
pub enum ConditionStatus {
    True,
    False,
    Unknown,
}

impl Default for ConditionStatus {
    /// A condition that has never been observed is `Unknown`.
    fn default() -> (r: Self)
        ensures
            r == ConditionStatus::Unknown,
    {
        ConditionStatus::Unknown
    }
}

/// How important a failure of a condition is.
///
/// A terminal condition (the happy condition or one of its dependents)
/// defaults to `Error`; every other condition defaults to `Info`.
#[derive(Clone, Copy, Debug, PartialEq, Eq, Structural)]
#[non_exhaustive]
pub enum ConditionSeverity {
    Error,
    Warning,
    Info,
}

impl ConditionSeverity {
    /// Whether this severity is `Error`.
    pub fn is_err(&self) -> (r: bool)
        ensures
            r == (*self == ConditionSeverity::Error),
    {
        *self == ConditionSeverity::Error
    }
}

impl Default for ConditionSeverity {
    fn default() -> (r: Self)
        ensures
            r == ConditionSeverity::Error,
    {
        ConditionSeverity::Error
    }
}

} // verus!
