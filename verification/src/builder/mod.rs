//! Builders: a fluent way to put values, types and schemas together.
pub mod field;
pub mod introspection;
pub mod mutation;
pub mod query;
pub mod schema;
pub mod value;
