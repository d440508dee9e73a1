//! The identifier domain for conditions.
//!
//! Each resource kind supplies a closed set of condition identifiers by
//! implementing [`ConditionType`] on a small copyable enum: one variant is
//! the *happy* type (overall readiness) and a disjoint group of variants
//! are its *dependents*.

use vstd::prelude::*;

verus! {

/// Enums that implement `ConditionType` name the conditions of a resource
/// kind and declare which of them determine overall readiness.
///
/// The two specification items default to unconstrained values so that
/// unverified implementations need not spell them out; a verified
/// implementation overrides them with the values its executable items
/// return, or nothing can be proved about it.
pub trait ConditionType: Sized + Clone + Copy + core::fmt::Debug + PartialEq {
    /// The happy type, as a mathematical value.
    open spec fn spec_happy() -> Self {
        vstd::pervasive::arbitrary()
    }

    /// The dependent types, as a mathematical sequence.
    open spec fn spec_dependents() -> Seq<Self> {
        vstd::pervasive::arbitrary()
    }

    /// The top-level variant that determines overall readiness of the resource.
    fn happy() -> (r: Self)
        ensures
            r == Self::spec_happy(),
    ;

    /// Variants that must all be true for the happy condition to be true.
    fn dependents() -> (r: Vec<Self>)
        ensures
            r@ == Self::spec_dependents(),
    ;

    /// Equality of two identifiers, reflected into specifications.
    fn same_as(&self, other: &Self) -> (r: bool)
        ensures
            r == (*self == *other),
    ;
}

} // verus!
