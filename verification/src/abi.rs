//! The transgress ABI description format: identifiers, crates and items.

use vstd::prelude::*;

verus! {

/// A valid Rust identifier.
#[derive(Debug, Clone)]
pub struct Ident(pub String);

/// Unique identifier for a type.
#[derive(Debug, Clone)]
pub struct TypeIdent(pub Ident);

/// Unique identifier for a function.
#[derive(Debug, Clone)]
pub struct FunctionIdent(pub Ident);

/// Unique identifier for a trait.
#[derive(Debug, Clone)]
pub struct TraitIdent(pub Ident);

/// Unique identifier for a lifetime.
#[derive(Debug, Clone)]
pub struct LifetimeIdent(pub Ident);

/// The ABI for a single crate.
#[derive(Debug, Clone)]
pub struct CrateAbi {
    pub doc: String,
    pub name: String,
    pub version: String,
    pub hash: String,
    pub compiler: String,
}

/// A single enum.
#[derive(Debug, Clone)]
pub struct Enum {}

/// A single struct.
#[derive(Debug, Clone)]
pub struct Struct {
    pub ident: TypeIdent,
    pub doc: String,
    pub generic: Generic,
    pub size: usize,
    pub align: usize,
    pub repr: StructRepr,
}

/// A struct representation.
#[derive(Debug, Clone, Copy, PartialEq, Eq, Structural)]
pub enum StructRepr {
    Rust,
    C,
    Transparent,
}

/// A generic bound on a type or trait.
#[derive(Debug, Clone)]
pub struct Generic {
    pub ident: TypeIdent,
    pub doc: String,
}

/// A lifetime.
#[derive(Debug, Clone)]
pub struct Lifetime {}

/// A trait.
#[derive(Debug, Clone)]
pub struct Trait {
    pub doc: String,
    pub types: Vec<Generic>,
}

} // verus!
