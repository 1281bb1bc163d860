//! Turning the paths of `use` imports into absolute paths.

use crate::crates::{CrateData, RustEdition};
use crate::identities::CrateIdView;
use crate::items::Module;
use crate::maps::NameTable;
use crate::lower::{ModuleScope, ModuleScopeView};
use crate::namespace::{abs_key, Namespace};
use crate::paths::{AbsoluteCrate, AbsolutePath, Path, PathView, RelativePath};
use crate::text::{copy_strings, has_path_sep, str_eq};
use vstd::prelude::*;

verus! {

/// The segments of a module's path with its last one removed, if it has one.
pub open spec fn popped(path: Seq<Seq<char>>) -> Seq<Seq<char>> {
    if path.len() == 0 {
        path
    } else {
        path.drop_last()
    }
}

/// A path can be made absolute: an unresolved one has a first segment without `::`.
pub open spec fn absolutizable(p: PathView) -> bool {
    match p {
        PathView::Unresolved(u) => u.path.len() > 0 && !has_path_sep(u.path[0]),
        _ => true,
    }
}

/// The path a `use`d path in module `module` stands for, by Rust 2018 rules, and whether it
/// was found.
///
/// `crate::` and `super::` are relative to the module; otherwise a module declared in `module`
/// (of the set `modules`) overrides a dependency (of `deps`) of the same name, except for a path
/// starting with `::`. A path that is neither may come from a macro yet to be expanded, and is
/// left as it is.
pub open spec fn absolutized(
    p: PathView,
    module: AbsolutePath,
    modules: Set<Seq<Seq<char>>>,
    deps: Map<Seq<char>, CrateIdView>,
) -> (PathView, bool) {
    match p {
        PathView::Unresolved(u) => {
            let ident = u.path[0];
            let rest = u.path.drop_first();
            let name = module.crate_.name@;
            let version = module.crate_.version@;
            let here = module.path.0.deep_view();
            if ident == "crate"@ {
                (PathView::Absolute { name, version, path: rest }, true)
            } else if ident == "super"@ {
                (PathView::Absolute { name, version, path: popped(here) + rest }, true)
            } else if !u.rooted && modules.contains(seq![name, version] + here.push(ident)) {
                (PathView::Absolute { name, version, path: here.push(ident) + rest }, true)
            } else if deps.contains_key(ident) {
                (
                    PathView::Absolute {
                        name: deps[ident].name,
                        version: deps[ident].version,
                        path: rest,
                    },
                    true,
                )
            } else {
                (p, false)
            }
        },
        _ => (p, true),
    }
}

/// Convert a `use`d path to an absolute path, by Rust 2018 rules (see `absolutized`). Returns
/// whether the path is resolved; one that is not is left unchanged.
pub fn absolutize_use_2018(
    path: &mut Path,
    module: &AbsolutePath,
    modules: &Namespace<Module>,
    crate_data: &CrateData,
) -> (r: bool)
    requires
        modules.wf(),
        crate_data.deps.wf(),
        absolutizable(old(path)@),
    ensures
        (final(path)@, r) == absolutized(
            old(path)@,
            *module,
            modules.items().dom(),
            deps_view(*crate_data),
        ),
{
    let (rooted, mut rest) = match &*path {
        Path::Unresolved(u) => (u.rooted, copy_strings(&u.path)),
        _ => return true,
    };
    let ghost u = old(path)@->Unresolved_0;
    let ident = rest.remove(0);
    proof {
        assert(ident@ == u.path[0]);
        assert(rest.deep_view() =~= u.path.drop_first());
    }
    let name = module.crate_.name.as_str();
    let version = module.crate_.version.as_str();
    if str_eq(ident.as_str(), "crate") {
        *path = Path::Absolute(AbsolutePath { crate_: AbsoluteCrate::new(name, version), path: RelativePath(rest) });
        return true;
    } else if str_eq(ident.as_str(), "super") {
        let mut here = copy_strings(&module.path.0);
        let ghost h = here.deep_view();
        if here.len() > 0 {
            here.pop();
            proof {
                assert(here.deep_view() =~= h.drop_last());
            }
        }
        let ghost h2 = here.deep_view();
        let ghost r2 = rest.deep_view();
        here.append(&mut rest);
        proof {
            assert(here.deep_view() =~= h2 + r2);
        }
        *path = Path::Absolute(AbsolutePath { crate_: AbsoluteCrate::new(name, version), path: RelativePath(here) });
        return true;
    }
    let possible = AbsolutePath { crate_: AbsoluteCrate::new(name, version), path: RelativePath(copy_strings(&module.path.0)) }.join(ident.clone());
    if !rooted && modules.contains(&possible) {
        let mut full = possible.path.0;
        let ghost f0 = full.deep_view();
        let ghost r0 = rest.deep_view();
        full.append(&mut rest);
        proof {
            assert(full.deep_view() =~= f0 + r0);
        }
        *path = Path::Absolute(AbsolutePath { crate_: possible.crate_, path: RelativePath(full) });
        return true;
    }
    proof {
        assert(abs_key(possible) =~= seq![module.crate_.name@, module.crate_.version@] + module.path.0.deep_view().push(ident@));
    }
    match crate_data.deps.get(ident.as_str()) {
        Some(crate_) => {
            *path = Path::Absolute(AbsolutePath {
                crate_: AbsoluteCrate::new(crate_.name.as_str(), crate_.version.as_str()),
                path: RelativePath(rest),
            });
            true
        },
        None => false,
    }
}

/// Every path of a scope can be made absolute.
pub open spec fn scope_absolutizable(s: ModuleScopeView) -> bool {
    &&& forall|k: Seq<char>| #[trigger] s.imports.contains_key(k) ==> absolutizable(s.imports[k])
    &&& forall|k: Seq<char>| #[trigger] s.pub_imports.contains_key(k) ==> absolutizable(s.pub_imports[k])
    &&& forall|i: int| 0 <= i < s.glob_imports.len() ==> absolutizable(#[trigger] s.glob_imports[i])
    &&& forall|i: int| 0 <= i < s.pub_glob_imports.len() ==> absolutizable(#[trigger] s.pub_glob_imports[i])
}

/// The dependencies of a crate, by the view of their ids.
pub open spec fn deps_view(crate_data: CrateData) -> Map<Seq<char>, CrateIdView> {
    crate_data.deps.map().map_values(|c: crate::identities::CrateId| c@)
}

/// Absolutize every path of a table of imports.
#[verifier::loop_isolation(false)]
fn absolutize_table(
    t: &mut NameTable<Path>,
    module: &AbsolutePath,
    modules: &Namespace<Module>,
    crate_data: &CrateData,
) -> (r: bool)
    requires
        old(t).wf(),
        modules.wf(),
        crate_data.deps.wf(),
        forall|k: Seq<char>| #[trigger] old(t).map().contains_key(k) ==> absolutizable(old(t).map()[k]@),
    ensures
        final(t).wf(),
        final(t).map().dom() == old(t).map().dom(),
        forall|k: Seq<char>| #[trigger] old(t).map().contains_key(k) ==> final(t).map()[k]@ == absolutized(
            old(t).map()[k]@,
            *module,
            modules.items().dom(),
            deps_view(*crate_data),
        ).0,
        r == forall|k: Seq<char>| #[trigger] old(t).map().contains_key(k) ==> absolutized(
            old(t).map()[k]@,
            *module,
            modules.items().dom(),
            deps_view(*crate_data),
        ).1,
{
    let ghost t0 = *t;
    let ghost keys = t.keys();
    proof {
        t0.lemma_entries();
    }
    let mut all_success = true;
    let mut i: usize = 0;
    let n = t.len();
    while i < n
        invariant
            n == keys.len(),
            i <= n,
            t.wf(),
            t.keys() == keys,
            t0.wf(),
            t0.keys() == keys,
            t0.map().dom() == t.map().dom(),
            forall|k: Seq<char>| #[trigger] t0.map().contains_key(k) <==> keys.contains(k),
            forall|a: int, b: int| 0 <= a < b < keys.len() ==> keys[a] != keys[b],
            forall|k: Seq<char>| #[trigger] t0.map().contains_key(k) ==> absolutizable(t0.map()[k]@),
            forall|j: int| 0 <= j < keys.len() ==> #[trigger] t.map()[keys[j]]@ == (if j < i {
                absolutized(t0.map()[keys[j]]@, *module, modules.items().dom(), deps_view(*crate_data)).0
            } else {
                t0.map()[keys[j]]@
            }),
            all_success == forall|j: int| 0 <= j < i ==> #[trigger] absolutized(
                t0.map()[keys[j]]@,
                *module,
                modules.items().dom(),
                deps_view(*crate_data),
            ).1,
        decreases n - i,
    {
        let ghost t_i = *t;
        proof {
            assert(keys.contains(keys[i as int]));
            assert(t0.map().contains_key(keys[i as int]));
            assert(t.map()[keys[i as int]]@ == t0.map()[keys[i as int]]@);
        }
        let p = t.value_mut(i);
        let success = absolutize_use_2018(p, module, modules, crate_data);
        proof {
            assert forall|j: int| 0 <= j < keys.len() implies #[trigger] t.map()[keys[j]]@ == (if j < i + 1 {
                absolutized(t0.map()[keys[j]]@, *module, modules.items().dom(), deps_view(*crate_data)).0
            } else {
                t0.map()[keys[j]]@
            }) by {
                if j != i {
                    assert(keys[j] != keys[i as int]);
                }
            }
        }
        let ghost prev = all_success;
        all_success = all_success && success;
        proof {
            assert(success == absolutized(t0.map()[keys[i as int]]@, *module, modules.items().dom(), deps_view(*crate_data)).1);
            assert(all_success == forall|j: int| 0 <= j < i + 1 ==> #[trigger] absolutized(
                t0.map()[keys[j]]@,
                *module,
                modules.items().dom(),
                deps_view(*crate_data),
            ).1);
        }
        i = i + 1;
    }
    proof {
        assert forall|k: Seq<char>| #[trigger] t0.map().contains_key(k) implies t.map()[k]@ == absolutized(
            t0.map()[k]@,
            *module,
            modules.items().dom(),
            deps_view(*crate_data),
        ).0 by {
            assert(keys.contains(k));
            let j = choose|j: int| 0 <= j < keys.len() && keys[j] == k;
            assert(t.map()[keys[j]]@ == absolutized(t0.map()[keys[j]]@, *module, modules.items().dom(), deps_view(*crate_data)).0);
        }
        if all_success {
            assert forall|k: Seq<char>| #[trigger] t0.map().contains_key(k) implies absolutized(
                t0.map()[k]@,
                *module,
                modules.items().dom(),
                deps_view(*crate_data),
            ).1 by {
                assert(keys.contains(k));
                let j = choose|j: int| 0 <= j < keys.len() && keys[j] == k;
                assert(absolutized(t0.map()[keys[j]]@, *module, modules.items().dom(), deps_view(*crate_data)).1);
            }
        } else {
            let j = choose|j: int| 0 <= j < i && !#[trigger] absolutized(
                t0.map()[keys[j]]@,
                *module,
                modules.items().dom(),
                deps_view(*crate_data),
            ).1;
            assert(t0.map().contains_key(keys[j]));
        }
    }
    all_success
}

/// Absolutize every path of a list of glob imports.
#[verifier::loop_isolation(false)]
fn absolutize_list(
    v: &mut Vec<Path>,
    module: &AbsolutePath,
    modules: &Namespace<Module>,
    crate_data: &CrateData,
) -> (r: bool)
    requires
        modules.wf(),
        crate_data.deps.wf(),
        forall|i: int| 0 <= i < old(v)@.len() ==> absolutizable(#[trigger] old(v)@[i]@),
    ensures
        final(v)@.len() == old(v)@.len(),
        forall|i: int| 0 <= i < old(v)@.len() ==> #[trigger] final(v)@[i]@ == absolutized(
            old(v)@[i]@,
            *module,
            modules.items().dom(),
            deps_view(*crate_data),
        ).0,
        r == forall|i: int| 0 <= i < old(v)@.len() ==> #[trigger] absolutized(
            old(v)@[i]@,
            *module,
            modules.items().dom(),
            deps_view(*crate_data),
        ).1,
{
    let ghost v0 = v@;
    let mut all_success = true;
    let mut i: usize = 0;
    while i < v.len()
        invariant
            v@.len() == v0.len(),
            i <= v0.len(),
            forall|j: int| 0 <= j < v0.len() ==> absolutizable(#[trigger] v0[j]@),
            forall|j: int| 0 <= j < v0.len() ==> #[trigger] v@[j]@ == (if j < i {
                absolutized(v0[j]@, *module, modules.items().dom(), deps_view(*crate_data)).0
            } else {
                v0[j]@
            }),
            all_success == forall|j: int| 0 <= j < i ==> #[trigger] absolutized(
                v0[j]@,
                *module,
                modules.items().dom(),
                deps_view(*crate_data),
            ).1,
        decreases v0.len() - i,
    {
        proof {
            assert(v@[i as int]@ == v0[i as int]@);
        }
        let success = absolutize_use_2018(&mut v[i], module, modules, crate_data);
        all_success = all_success && success;
        proof {
            assert(success == absolutized(v0[i as int]@, *module, modules.items().dom(), deps_view(*crate_data)).1);
            assert(all_success == forall|j: int| 0 <= j < i + 1 ==> #[trigger] absolutized(
                v0[j]@,
                *module,
                modules.items().dom(),
                deps_view(*crate_data),
            ).1);
        }
        i = i + 1;
    }
    all_success
}

/// The scope after making every import path absolute.
pub open spec fn scope_absolutized(
    s: ModuleScopeView,
    module: AbsolutePath,
    modules: Set<Seq<Seq<char>>>,
    deps: Map<Seq<char>, CrateIdView>,
) -> ModuleScopeView {
    ModuleScopeView {
        imports: s.imports.map_values(|p: PathView| absolutized(p, module, modules, deps).0),
        pub_imports: s.pub_imports.map_values(|p: PathView| absolutized(p, module, modules, deps).0),
        glob_imports: s.glob_imports.map_values(|p: PathView| absolutized(p, module, modules, deps).0),
        pub_glob_imports: s.pub_glob_imports.map_values(|p: PathView| absolutized(p, module, modules, deps).0),
    }
}

/// Whether every import path of a scope is found.
pub open spec fn scope_resolved(
    s: ModuleScopeView,
    module: AbsolutePath,
    modules: Set<Seq<Seq<char>>>,
    deps: Map<Seq<char>, CrateIdView>,
) -> bool {
    &&& forall|k: Seq<char>| #[trigger] s.imports.contains_key(k) ==> absolutized(s.imports[k], module, modules, deps).1
    &&& forall|k: Seq<char>| #[trigger] s.pub_imports.contains_key(k) ==> absolutized(s.pub_imports[k], module, modules, deps).1
    &&& forall|i: int| 0 <= i < s.glob_imports.len() ==> absolutized(#[trigger] s.glob_imports[i], module, modules, deps).1
    &&& forall|i: int| 0 <= i < s.pub_glob_imports.len() ==> absolutized(#[trigger] s.pub_glob_imports[i], module, modules, deps).1
}

/// Make every `use` path of a module scope absolute, by Rust 2018 rules. Returns whether all
/// of them were found.
#[verifier::rlimit(30)]
fn absolutize_imports_2018(
    scope: &mut ModuleScope,
    module: &AbsolutePath,
    modules: &Namespace<Module>,
    crate_data: &CrateData,
) -> (r: bool)
    requires
        old(scope).wf(),
        modules.wf(),
        crate_data.deps.wf(),
        scope_absolutizable(old(scope)@),
    ensures
        final(scope).wf(),
        final(scope)@ == scope_absolutized(old(scope)@, *module, modules.items().dom(), deps_view(*crate_data)),
        r == scope_resolved(old(scope)@, *module, modules.items().dom(), deps_view(*crate_data)),
{
    let ghost s0 = scope@;
    let ghost mods = modules.items().dom();
    let ghost deps = deps_view(*crate_data);
    let ghost i0 = scope.imports.map();
    let ghost p0 = scope.pub_imports.map();
    let ghost g0 = scope.glob_imports@;
    let ghost pg0 = scope.pub_glob_imports@;
    proof {
        assert forall|k: Seq<char>| #[trigger] i0.contains_key(k) implies absolutizable(i0[k]@) by {
            assert(s0.imports.contains_key(k));
        }
        assert forall|k: Seq<char>| #[trigger] p0.contains_key(k) implies absolutizable(p0[k]@) by {
            assert(s0.pub_imports.contains_key(k));
        }
        assert forall|i: int| 0 <= i < scope.glob_imports@.len() implies absolutizable(#[trigger] scope.glob_imports@[i]@) by {
            assert(s0.glob_imports[i] == scope.glob_imports@[i]@);
        }
        assert forall|i: int| 0 <= i < scope.pub_glob_imports@.len() implies absolutizable(#[trigger] scope.pub_glob_imports@[i]@) by {
            assert(s0.pub_glob_imports[i] == scope.pub_glob_imports@[i]@);
        }
    }
    let a = absolutize_table(&mut scope.imports, module, modules, crate_data);
    let b = absolutize_table(&mut scope.pub_imports, module, modules, crate_data);
    let c = absolutize_list(&mut scope.glob_imports, module, modules, crate_data);
    let d = absolutize_list(&mut scope.pub_glob_imports, module, modules, crate_data);
    proof {
        assert(scope@.imports =~= s0.imports.map_values(|p: PathView| absolutized(p, *module, mods, deps).0));
        assert(scope@.pub_imports =~= s0.pub_imports.map_values(|p: PathView| absolutized(p, *module, mods, deps).0));
        assert(scope@.glob_imports =~= s0.glob_imports.map_values(|p: PathView| absolutized(p, *module, mods, deps).0));
        assert(scope@.pub_glob_imports =~= s0.pub_glob_imports.map_values(|p: PathView| absolutized(p, *module, mods, deps).0));
        if forall|k: Seq<char>| #[trigger] i0.contains_key(k) ==> absolutized(i0[k]@, *module, mods, deps).1 {
            assert forall|k: Seq<char>| #[trigger] s0.imports.contains_key(k) implies absolutized(s0.imports[k], *module, mods, deps).1 by {
                assert(i0.contains_key(k));
            }
        } else {
            let k = choose|k: Seq<char>| #[trigger] i0.contains_key(k) && !absolutized(i0[k]@, *module, mods, deps).1;
            assert(s0.imports.contains_key(k));
        }
        if forall|k: Seq<char>| #[trigger] p0.contains_key(k) ==> absolutized(p0[k]@, *module, mods, deps).1 {
            assert forall|k: Seq<char>| #[trigger] s0.pub_imports.contains_key(k) implies absolutized(s0.pub_imports[k], *module, mods, deps).1 by {
                assert(p0.contains_key(k));
            }
        } else {
            let k = choose|k: Seq<char>| #[trigger] p0.contains_key(k) && !absolutized(p0[k]@, *module, mods, deps).1;
            assert(s0.pub_imports.contains_key(k));
        }
    }
    proof {
        assert(a == forall|k: Seq<char>| #[trigger] s0.imports.contains_key(k) ==> absolutized(s0.imports[k], *module, mods, deps).1);
        assert(b == forall|k: Seq<char>| #[trigger] s0.pub_imports.contains_key(k) ==> absolutized(s0.pub_imports[k], *module, mods, deps).1);
        if forall|i: int| 0 <= i < g0.len() ==> #[trigger] absolutized(g0[i]@, *module, mods, deps).1 {
            assert forall|i: int| 0 <= i < s0.glob_imports.len() implies absolutized(#[trigger] s0.glob_imports[i], *module, mods, deps).1 by {
                assert(s0.glob_imports[i] == g0[i]@);
            }
        } else {
            let i = choose|i: int| 0 <= i < g0.len() && !#[trigger] absolutized(g0[i]@, *module, mods, deps).1;
            assert(s0.glob_imports[i] == g0[i]@);
        }
        if forall|i: int| 0 <= i < pg0.len() ==> #[trigger] absolutized(pg0[i]@, *module, mods, deps).1 {
            assert forall|i: int| 0 <= i < s0.pub_glob_imports.len() implies absolutized(#[trigger] s0.pub_glob_imports[i], *module, mods, deps).1 by {
                assert(s0.pub_glob_imports[i] == pg0[i]@);
            }
        } else {
            let i = choose|i: int| 0 <= i < pg0.len() && !#[trigger] absolutized(pg0[i]@, *module, mods, deps).1;
            assert(s0.pub_glob_imports[i] == pg0[i]@);
        }
    }
    a && b && c && d
}

/// Make every `use` path of a module scope absolute, by the rules of the crate's edition (Rust
/// 2018 rules are used for both editions). Returns whether all of them were found.
pub fn absolutize_imports(
    scope: &mut ModuleScope,
    module: &AbsolutePath,
    modules: &Namespace<Module>,
    crate_data: &CrateData,
) -> (r: bool)
    requires
        old(scope).wf(),
        modules.wf(),
        crate_data.deps.wf(),
        scope_absolutizable(old(scope)@),
    ensures
        final(scope).wf(),
        final(scope)@ == scope_absolutized(old(scope)@, *module, modules.items().dom(), deps_view(*crate_data)),
        r == scope_resolved(old(scope)@, *module, modules.items().dom(), deps_view(*crate_data)),
{
    match crate_data.rust_edition {
        RustEdition::Rust2018 => absolutize_imports_2018(scope, module, modules, crate_data),
        RustEdition::Rust2015 => absolutize_imports_2018(scope, module, modules, crate_data),
    }
}

} // verus!
