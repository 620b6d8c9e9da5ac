//! Parsing and planning for versioned-struct migrations.
//!
//! The library reads the attribute syntax that describes how a struct changed
//! between versions (`#[migration("0.1" => "0.2" { .. })]`), checks it against
//! its grammar, and computes, for each step of a migration chain, how every
//! field of the newer struct is initialised from the older one.

pub mod tokens;
pub mod syntax;
pub mod field;
pub mod comment;
pub mod migration;
pub mod version;
pub mod order;
pub mod field_map;
pub mod plan;
pub mod chain;
