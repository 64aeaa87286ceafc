//! Design-spec bridge for rustio-admin: a strict TOML-subset reader, the
//! token allowlist, the doctrine validator, the navigation / view / schema
//! generators, the design-memory context, and the decisions of the
//! command-line tool — each with a machine-checked contract.

pub mod text;
pub mod unicode;
pub mod toml_lite;
pub mod spec;
pub mod color;
pub mod allowlist;
pub mod validate;
pub mod manifest;
pub mod nav;
pub mod views;
pub mod schema;
pub mod context;
pub mod cli;
pub mod json;
