//! A small database-access layer: a backend-neutral condition tree, a
//! dialect-aware SQL compiler producing parameterized statements, a fluent
//! query builder, an entity (model) contract with CRUD operations over an
//! in-memory table engine, and a transaction scope with snapshot semantics.

pub mod builder;
pub mod compiler;
pub mod condition;
pub mod dialect;
pub mod errors;
pub mod model;
pub mod table;
pub mod text;
pub mod transaction;
pub mod user;
