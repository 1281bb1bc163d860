//! Crate metadata: one record per crate instantiation in the dependency tree.

use crate::identities::CrateId;
use crate::maps::NameTable;
use vstd::prelude::*;

verus! {

/// The edition of Rust a crate is written in.
#[derive(Debug, Clone, Copy, PartialEq, Eq, Structural)]
pub enum RustEdition {
    Rust2015,
    Rust2018,
}

/// Metadata for a crate instantiation. There's one of these for every separate semver version
/// of every crate in the dependency tree.
///
/// This holds what cargo's metadata says of the crate. What needs a look at the source code
/// (e.g. whether a crate is `no_std`) is computed later.
#[derive(Debug)]
pub struct CrateData {
    /// Which crate this is.
    pub id: CrateId,
    /// The dependencies of this crate, renamed according to `Cargo.toml` (but NOT according to
    /// `extern crate ... as ...;` statements).
    pub deps: NameTable<CrateId>,
    /// The *activated* features of this crate.
    pub features: Vec<String>,
    /// The path to the crate's `Cargo.toml`.
    pub manifest_path: String,
    /// The entry file of the crate; not always `src/lib.rs`.
    pub entry: String,
    /// If this crate is a proc-macro crate.
    pub is_proc_macro: bool,
    /// The edition of this crate.
    pub rust_edition: RustEdition,
}

impl CrateData {
    /// Crate data for tests: no dependencies, no features, empty paths, edition 2018.
    pub fn fake(id: CrateId) -> (r: CrateData)
        ensures
            r.id == id,
            r.deps.wf(),
            r.deps.map() == Map::<Seq<char>, CrateId>::empty(),
            r.features@ == Seq::<String>::empty(),
            r.manifest_path@ == Seq::<char>::empty(),
            r.entry@ == Seq::<char>::empty(),
            !r.is_proc_macro,
            r.rust_edition == RustEdition::Rust2018,
    {
        CrateData {
            id,
            deps: NameTable::new(),
            features: Vec::new(),
            manifest_path: String::new(),
            entry: String::new(),
            is_proc_macro: false,
            rust_edition: RustEdition::Rust2018,
        }
    }
}

} // verus!
