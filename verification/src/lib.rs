//! A query-resolution engine in the style of GraphQL.
//!
//! A [`schema::Schema`] describes typed fields, each bound to a resolver.
//! Executing a parsed [`ast::Document`] against it calls the resolvers,
//! coerces what they return against the declared types and merges fragment
//! selections into one [`value::DataValue`] tree.
pub mod ast;
pub mod builder;
pub mod error;
pub mod keyed;
pub mod schema;
pub mod value;
