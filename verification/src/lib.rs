//! Condition aggregation engine for reconciled resources.
//!
//! A resource's health is tracked as a set of named boolean-ish observations
//! ("conditions").  A configurable group of *dependent* conditions is
//! continuously aggregated into one authoritative top-level ("happy")
//! condition.  The engine is purely computational: it performs no I/O and
//! owns no persistence.

pub mod addressable;
mod clock;
pub mod condition;
pub mod condition_set;
pub mod condition_type;
pub mod domain;
pub mod laws;
pub mod manager;
pub mod reference;
pub mod source;
pub mod status;
pub mod store;
