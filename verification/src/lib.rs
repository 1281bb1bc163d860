//! Name resolution data structures and algorithms for Rust crate interfaces.

pub mod maps;
pub mod text;
pub mod identities;
pub mod paths;
pub mod attributes;
pub mod types;
pub mod items;
pub mod crates;
pub mod scopes;
pub mod database;
pub mod builtins;
pub mod resolve;
pub mod lower;
pub mod namespace;
pub mod resolver;
pub mod textual_scope;
pub mod backoff;
pub mod abi;
pub mod sample;
pub mod inspect;
pub mod laws;
pub mod rustdoc;
pub mod tokens;
pub mod macro_ast;
pub mod expand;
pub mod unexpanded;
pub mod analysis;
pub mod source_files;
pub mod defs;
pub mod generics;
pub mod project;
