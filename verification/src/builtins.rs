//! Built-in names, like `i32`, `char`, `'static`.
//!
//! These names never appear in a database but are considered to exist anyway.

use crate::database::NamespaceLookup;
use crate::identities::{CrateId, CrateIdView, Ident, Identity, IdentityView};
use crate::scopes::NamespaceId;
use vstd::prelude::*;

verus! {

/// The fake crate the builtins are stored in.
pub open spec fn builtins_crate_view() -> CrateIdView {
    CrateIdView { name: "{builtin}"@, version: "0.0.0"@ }
}

/// The `core` crate.
pub open spec fn core_crate_view() -> CrateIdView {
    CrateIdView { name: "core"@, version: "0.0.0"@ }
}

/// The `alloc` crate.
pub open spec fn alloc_crate_view() -> CrateIdView {
    CrateIdView { name: "alloc"@, version: "0.0.0"@ }
}

/// The fake crate the builtins are stored in.
pub fn builtins_crate() -> (r: CrateId)
    ensures
        r@ == builtins_crate_view(),
{
    CrateId::new("{builtin}", "0.0.0")
}

/// The `core` crate.
pub fn core_crate() -> (r: CrateId)
    ensures
        r@ == core_crate_view(),
{
    CrateId::new("core", "0.0.0")
}

/// The `alloc` crate.
pub fn alloc_crate() -> (r: CrateId)
    ensures
        r@ == alloc_crate_view(),
{
    CrateId::new("alloc", "0.0.0")
}

/// The `test` crate.
pub fn test_crate() -> (r: CrateId)
    ensures
        r@ == (CrateIdView { name: "test"@, version: "0.0.0"@ }),
{
    CrateId::new("test", "0.0.0")
}

/// The crate the `proc_macro` builtins are stored in (the `test` crate's id).
pub fn proc_macro_crate() -> (r: CrateId)
    ensures
        r@ == (CrateIdView { name: "test"@, version: "0.0.0"@ }),
{
    CrateId::new("test", "0.0.0")
}

/// The crate the `std` builtins are stored in (the `test` crate's id).
pub fn std_crate() -> (r: CrateId)
    ensures
        r@ == (CrateIdView { name: "test"@, version: "0.0.0"@ }),
{
    CrateId::new("test", "0.0.0")
}

/// The identity of the builtin named `name`.
pub open spec fn builtin_view(name: Seq<char>) -> IdentityView {
    IdentityView { crate_: builtins_crate_view(), path: seq![name] }
}

/// The identity of the builtin named `name` (such as `str` or `u8`).
pub fn builtin(name: &str) -> (r: Identity)
    ensures
        r@ == builtin_view(name@),
{
    let r = Identity::from_parts(&builtins_crate(), vec![name.to_string()]);
    proof {
        assert(r@.path =~= seq![name@]);
    }
    r
}

/// The names of the builtin types, in order.
pub open spec fn builtin_type_names() -> Seq<Seq<char>> {
    seq![
        "char"@,
        "i8"@,
        "i16"@,
        "i32"@,
        "i64"@,
        "i128"@,
        "isize"@,
        "u8"@,
        "u16"@,
        "u32"@,
        "u64"@,
        "u128"@,
        "usize"@,
        "'static"@,
    ]
}

/// The builtin types: each name, with the identity it is bound to.
pub fn builtin_types() -> (r: Vec<(Ident, Identity)>)
    ensures
        r@.len() == builtin_type_names().len(),
        forall|i: int| 0 <= i < r@.len() ==> #[trigger] r@[i].0@ == builtin_type_names()[i],
        forall|i: int| 0 <= i < r@.len() ==> #[trigger] r@[i].1@ == builtin_view(builtin_type_names()[i]),
{
    let names = vec![
        "char",
        "i8",
        "i16",
        "i32",
        "i64",
        "i128",
        "isize",
        "u8",
        "u16",
        "u32",
        "u64",
        "u128",
        "usize",
        "'static",
    ];
    proof {
        assert(names@.map_values(|s: &str| s@) =~= builtin_type_names());
    }
    let mut r: Vec<(Ident, Identity)> = Vec::new();
    let mut i: usize = 0;
    while i < names.len()
        invariant
            i <= names.len(),
            names@.map_values(|s: &str| s@) == builtin_type_names(),
            r@.len() == i,
            forall|j: int| 0 <= j < i ==> #[trigger] r@[j].0@ == builtin_type_names()[j],
            forall|j: int| 0 <= j < i ==> #[trigger] r@[j].1@ == builtin_view(builtin_type_names()[j]),
        decreases names.len() - i,
    {
        let name = names[i];
        proof {
            assert(names@.map_values(|s: &str| s@)[i as int] == name@);
        }
        r.push((name.to_string(), builtin(name)));
        i = i + 1;
    }
    r
}

/// The builtins of the namespace of `I`, if it has any: only types do.
pub fn get_builtins<I: NamespaceLookup>() -> (r: Option<Vec<(Ident, Identity)>>)
    ensures
        I::spec_namespace_id() != NamespaceId::Type ==> r is None,
        I::spec_namespace_id() == NamespaceId::Type ==> r is Some && r->0@.len()
            == builtin_type_names().len() && forall|i: int|
            0 <= i < r->0@.len() ==> #[trigger] r->0@[i].0@ == builtin_type_names()[i]
                && #[trigger] r->0@[i].1@ == builtin_view(builtin_type_names()[i]),
{
    if I::namespace_id() == NamespaceId::Type {
        Some(builtin_types())
    } else {
        None
    }
}

} // verus!
