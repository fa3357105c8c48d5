//! Declarative synthesis of a closed sum type from a list of named variants:
//! validation of the declaration, a deterministic order over its cases, the
//! conversions into the sum type and one projection per requested capability.

pub mod model;
pub mod order;
pub mod validate;
pub mod synth;
pub mod laws;
