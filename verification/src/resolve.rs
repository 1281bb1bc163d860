//! Path resolution, and the helpers that set up a crate's prelude and extern crates.

use crate::attributes::{Visibility, VisibilityView, visible_in};
use crate::database::{binding_added, NamespaceLookup, crate_key, Crate, CrateView, DatabaseError, Db, DbView};
use crate::items::MacroItem;
use crate::identities::{root_of, CrateId, CrateIdView, Ident, Identity, IdentityView};
use crate::paths::{unresolved_debug, UnresolvedPath, UnresolvedPathView};
use crate::scopes::{insert_outcome, BindingView, NamespaceId, Priority, Scope, ScopeView};
use crate::builtins::{alloc_crate, alloc_crate_view, builtin_type_names, builtin_types, builtin_view, core_crate, core_crate_view};
use crate::text::{copy_strings, lemma_split_nonempty, split_on_sep, split_path_str, str_eq};
use vstd::prelude::*;

verus! {

/// The ways resolving a path can fail.
#[derive(Debug, Copy, Clone, PartialEq, Eq, Structural)]
pub enum ResolveError {
    /// A name that will never be resolved: it and anything that depends on it should be
    /// abandoned.
    Impossible,
    /// A name that has not been resolved yet.
    Pending,
}

/// Errors while walking a crate.
#[derive(Debug, Clone, PartialEq, Eq)]
pub enum WalkError {
    /// The database refused an item or a binding.
    Database(DatabaseError),
    /// A module's source could not be found.
    ModuleNotFound,
    /// A `#[path]` attribute without a string value.
    MalformedPathAttribute(String),
    /// The crate root has no parent directory.
    Root,
}

/// What resolving a path comes to.
pub enum Resolution {
    /// The path names this item.
    Resolved(IdentityView),
    /// Resolution failed.
    Failed(ResolveError),
    /// Resolution would need a crate that is not stored yet.
    Stuck,
}

/// The crate holding the items of crate `id`: the crate being built, or one stored in the
/// database.
pub open spec fn crate_for(db: DbView, cur: CrateView, id: CrateIdView) -> Option<CrateView> {
    if id == cur.id {
        Some(cur)
    } else if db.crates.contains_key(crate_key(id)) {
        db.crates[crate_key(id)]
    } else {
        None
    }
}

/// The binding of `name` in namespace `ns` seen from the scope at `scope` of crate `c`: the
/// scope's own, else, where the prelude is consulted, the prelude's.
pub open spec fn found_binding(
    c: CrateView,
    scope: Seq<Seq<char>>,
    ns: NamespaceId,
    name: Seq<char>,
    check_prelude: bool,
) -> Option<BindingView> {
    if c.scopes.contains_key(scope) && c.scopes[scope].bindings(ns).contains_key(name) {
        Some(c.scopes[scope].bindings(ns)[name])
    } else if check_prelude && c.prelude.bindings(ns).contains_key(name) {
        Some(c.prelude.bindings(ns)[name])
    } else {
        None
    }
}

/// What a found binding resolves to from the scope `orig`: its target where it is visible there,
/// pending where it is not. Where there is no binding, the name may still be added to the crate
/// being built (pending), but never to a dependency, which is already complete (impossible).
pub open spec fn binding_resolution(b: Option<BindingView>, orig: IdentityView, in_dependency: bool) -> Resolution {
    match b {
        None => if in_dependency {
            Resolution::Failed(ResolveError::Impossible)
        } else {
            Resolution::Failed(ResolveError::Pending)
        },
        Some(b) => if visible_in(b.visibility, orig) {
            Resolution::Resolved(b.identity)
        } else {
            Resolution::Failed(ResolveError::Pending)
        },
    }
}

/// What the path `path` resolves to in namespace `ns`, looked up from the scope `in_module`, for
/// use in the scope `orig`.
///
/// `thing` checks the current scope, then the prelude; `::thing` looks up `thing` as a crate
/// only, and names that crate's root; `crate::`, `self::` and `super::` are exact, and so is
/// every segment after the first. A name missing from a dependency never resolves.
pub open spec fn resolution(
    db: DbView,
    cur: CrateView,
    orig: IdentityView,
    in_module: IdentityView,
    ns: NamespaceId,
    check_prelude: bool,
    rooted: bool,
    path: Seq<Seq<char>>,
) -> Resolution
    decreases path.len(),
{
    if path.len() == 0 {
        Resolution::Failed(ResolveError::Impossible)
    } else {
        match crate_for(db, cur, in_module.crate_) {
            None => Resolution::Stuck,
            Some(c) => if rooted {
                if !c.extern_crates.contains_key(path[0]) {
                    Resolution::Failed(ResolveError::Impossible)
                } else if path.len() == 1 {
                    Resolution::Resolved(root_of(c.extern_crates[path[0]]))
                } else {
                    resolution(
                        db,
                        cur,
                        orig,
                        root_of(c.extern_crates[path[0]]),
                        ns,
                        false,
                        false,
                        path.drop_first(),
                    )
                }
            } else if path.len() == 1 {
                binding_resolution(
                    found_binding(c, in_module.path, ns, path[0], check_prelude),
                    orig,
                    in_module.crate_ != cur.id,
                )
            } else {
                let next = if path[0] == "crate"@ {
                    Resolution::Resolved(root_of(in_module.crate_))
                } else if path[0] == "self"@ {
                    Resolution::Resolved(in_module)
                } else if path[0] == "super"@ {
                    if in_module.path.len() == 0 {
                        Resolution::Failed(ResolveError::Impossible)
                    } else {
                        Resolution::Resolved(
                            IdentityView { crate_: in_module.crate_, path: in_module.path.drop_last() },
                        )
                    }
                } else {
                    binding_resolution(
                        found_binding(c, in_module.path, NamespaceId::Scope, path[0], check_prelude),
                        orig,
                        in_module.crate_ != cur.id,
                    )
                };
                match next {
                    Resolution::Resolved(t) => resolution(
                        db,
                        cur,
                        orig,
                        t,
                        ns,
                        false,
                        false,
                        path.drop_first(),
                    ),
                    other => other,
                }
            },
        }
    }
}

/// The resolution an exec result stands for.
pub open spec fn outcome_of(r: Result<Identity, ResolveError>) -> Resolution {
    match r {
        Ok(id) => Resolution::Resolved(id@),
        Err(e) => Resolution::Failed(e),
    }
}

/// Look up `name` in namespace `ns` from the scope `in_module` of crate `c`, for use in `orig`.
fn lookup(
    c: &Crate,
    in_module: &Identity,
    ns: NamespaceId,
    name: &str,
    check_prelude: bool,
    orig: &Identity,
    in_dependency: bool,
) -> (r: Result<Identity, ResolveError>)
    requires
        c.wf(),
        in_module@.crate_ == c@.id,
    ensures
        outcome_of(r) == binding_resolution(
            found_binding(c@, in_module@.path, ns, name@, check_prelude),
            orig@,
            in_dependency,
        ),
{
    let in_scope = match c.get::<Scope>(in_module) {
        Some(scope) => scope.get_by(ns, name),
        None => None,
    };
    let found = match in_scope {
        Some(b) => Some(b),
        None => if check_prelude {
            c.prelude.get_by(ns, name)
        } else {
            None
        },
    };
    match found {
        None => if in_dependency {
            Err(ResolveError::Impossible)
        } else {
            Err(ResolveError::Pending)
        },
        Some(b) => if b.visibility.is_visible_in(orig) {
            Ok(b.identity.dup())
        } else {
            Err(ResolveError::Pending)
        },
    }
}

/// Resolve the segments of `path` from `start` on.
fn try_to_resolve_rec(
    db: &Db,
    crate_in_progress: &Crate,
    orig_module: &Identity,
    in_module: &Identity,
    namespace_id: NamespaceId,
    check_prelude: bool,
    rooted: bool,
    path: &Vec<Ident>,
    start: usize,
) -> (r: Result<Identity, ResolveError>)
    requires
        db.wf(),
        crate_in_progress.wf(),
        start <= path.len(),
        !(resolution(
            db@,
            crate_in_progress@,
            orig_module@,
            in_module@,
            namespace_id,
            check_prelude,
            rooted,
            path.deep_view().skip(start as int),
        ) is Stuck),
    ensures
        outcome_of(r) == resolution(
            db@,
            crate_in_progress@,
            orig_module@,
            in_module@,
            namespace_id,
            check_prelude,
            rooted,
            path.deep_view().skip(start as int),
        ),
    decreases path.len() - start,
{
    let ghost rest = path.deep_view().skip(start as int);
    if start >= path.len() {
        return Err(ResolveError::Impossible);
    }
    proof {
        assert(rest[0] == path[start as int]@);
        assert(rest.drop_first() =~= path.deep_view().skip(start + 1));
    }
    let in_dependency = !in_module.crate_.same(&crate_in_progress.id);
    let in_crate: &Crate = if !in_dependency {
        crate_in_progress
    } else {
        db.get_crate(&in_module.crate_)
    };
    if rooted {
        match in_crate.extern_crate_bindings.get(path[start].as_str()) {
            None => Err(ResolveError::Impossible),
            Some(target_crate) => {
                let target_module = Identity::root(target_crate);
                if start + 1 == path.len() {
                    return Ok(target_module);
                }
                try_to_resolve_rec(
                    db,
                    crate_in_progress,
                    orig_module,
                    &target_module,
                    namespace_id,
                    false,
                    false,
                    path,
                    start + 1,
                )
            },
        }
    } else if start + 1 == path.len() {
        lookup(in_crate, in_module, namespace_id, path[start].as_str(), check_prelude, orig_module, in_dependency)
    } else {
        let first = path[start].as_str();
        let target_module = if str_eq(first, "crate") {
            Identity::root(&in_module.crate_)
        } else if str_eq(first, "self") {
            in_module.dup()
        } else if str_eq(first, "super") {
            match in_module.parent() {
                Some(p) => p,
                None => return Err(ResolveError::Impossible),
            }
        } else {
            match lookup(in_crate, in_module, NamespaceId::Scope, first, check_prelude, orig_module, in_dependency) {
                Ok(t) => t,
                Err(e) => return Err(e),
            }
        };
        try_to_resolve_rec(
            db,
            crate_in_progress,
            orig_module,
            &target_module,
            namespace_id,
            false,
            false,
            path,
            start + 1,
        )
    }
}

/// Resolve a path in namespace `namespace` from the scope `in_module`, against the crate being
/// built and the crates stored in the database.
///
/// `thing` checks the current scope, then the prelude; `::thing` looks up `thing` as a crate
/// only; `crate::`, `self::` and `super::` are exact.
///
/// `Err(Pending)` means the path has not been found yet and should stay on the work list;
/// `Err(Impossible)` means it never will be, as for an empty path, an unknown crate, a `super`
/// above the root or a name missing from a dependency.
pub fn try_to_resolve(
    db: &Db,
    crate_in_progress: &Crate,
    in_module: &Identity,
    namespace: NamespaceId,
    path: &UnresolvedPath,
) -> (r: Result<Identity, ResolveError>)
    requires
        db.wf(),
        crate_in_progress.wf(),
        !(resolution(
            db@,
            crate_in_progress@,
            in_module@,
            in_module@,
            namespace,
            true,
            path@.rooted,
            path@.path,
        ) is Stuck),
    ensures
        outcome_of(r) == resolution(
            db@,
            crate_in_progress@,
            in_module@,
            in_module@,
            namespace,
            true,
            path@.rooted,
            path@.path,
        ),
{
    proof {
        assert(path.path.deep_view().skip(0) =~= path@.path);
    }
    try_to_resolve_rec(
        db,
        crate_in_progress,
        in_module,
        in_module,
        namespace,
        true,
        path.rooted,
        &path.path,
        0,
    )
}

/// A path in the middle of being resolved.
pub struct ResolvingPath {
    path: Vec<Ident>,
    rooted: bool,
}

impl View for ResolvingPath {
    type V = UnresolvedPathView;

    closed spec fn view(&self) -> UnresolvedPathView {
        UnresolvedPathView { path: self.path.deep_view(), rooted: self.rooted }
    }
}

impl ResolvingPath {
    /// A path to resolve.
    pub fn new(path: Vec<Ident>, rooted: bool) -> (r: ResolvingPath)
        ensures
            r@ == (UnresolvedPathView { path: path.deep_view(), rooted }),
    {
        ResolvingPath { path, rooted }
    }

    /// The debug form: the segments joined by `::`, with a leading `::` where the path is
    /// rooted.
    pub fn debug_string(&self) -> (r: String)
        ensures
            r@ == unresolved_debug(self@),
    {
        let p = UnresolvedPath { path: copy_strings(&self.path), rooted: self.rooted };
        p.debug_string()
    }
}

/// The crate, and the outcome, after adding crate `ext` as a dependency named `name`: it is
/// bound among the extern crates and, as a scope, in the prelude.
pub open spec fn crate_dep_added(c: CrateView, ext: CrateIdView, name: Seq<char>) -> (
    CrateView,
    Result<(), WalkError>,
) {
    let (m, ok) = insert_outcome(
        c.prelude.bindings(NamespaceId::Scope),
        name,
        BindingView {
            identity: root_of(ext),
            visibility: VisibilityView::InScope(root_of(c.id)),
            priority: Priority::Explicit,
        },
    );
    (
        CrateView {
            extern_crates: c.extern_crates.insert(name, ext),
            prelude: c.prelude.with_bindings(NamespaceId::Scope, m),
            ..c
        },
        if ok {
            Ok(())
        } else {
            Err(WalkError::Database(DatabaseError::BindingAlreadyPresent))
        },
    )
}

/// Add a crate dependency, not necessarily with an `extern crate` statement. Adds it to the
/// prelude and the extern crate bindings only, not to the root scope. A dependency cannot be
/// added twice under one name.
pub fn add_crate_dep(crate_: &mut Crate, extern_crate_id: &CrateId, name: Ident) -> (r: Result<
    (),
    WalkError,
>)
    requires
        old(crate_).wf(),
        !old(crate_)@.extern_crates.contains_key(name@),
    ensures
        final(crate_).wf(),
        (final(crate_)@, r) == crate_dep_added(old(crate_)@, extern_crate_id@, name@),
{
    let ghost c0 = crate_@;
    crate_.extern_crate_bindings.insert_new(name.clone(), extern_crate_id.dup());
    proof {
        assert(crate_@.extern_crates =~= c0.extern_crates.insert(name@, extern_crate_id@));
    }
    match crate_.add_prelude_binding_by(NamespaceId::Scope, name, Identity::root(extern_crate_id)) {
        Ok(()) => Ok(()),
        Err(e) => Err(WalkError::Database(e)),
    }
}

/// The crate and outcome of `add_root_extern_crate` up to its look at the extern crate's root:
/// the dependency is added if it is not bound yet, then bound in the crate root.
pub open spec fn extern_crate_bound(
    c: CrateView,
    ext: CrateIdView,
    name: Seq<char>,
    visibility: VisibilityView,
) -> (CrateView, Result<(), WalkError>) {
    let (c1, r1) = if c.extern_crates.contains_key(name) {
        (c, Ok(()))
    } else {
        crate_dep_added(c, ext, name)
    };
    if r1 is Err {
        (c1, r1)
    } else {
        let (c2, r2) = binding_added(
            c1,
            Seq::empty(),
            NamespaceId::Scope,
            name,
            BindingView { identity: root_of(ext), visibility, priority: Priority::Explicit },
        );
        match r2 {
            Ok(_) => (c2, Ok(())),
            Err(e) => (c2, Err(WalkError::Database(e))),
        }
    }
}

/// The prelude bindings that `#[macro_use]` on an extern crate adds to crate `c`: one for each
/// macro bound in the extern crate's root, visible throughout `c`.
pub open spec fn macro_imports(c: CrateView, ext_root: ScopeView) -> Map<Seq<char>, BindingView> {
    ext_root.macros.map_values(
        |b: BindingView|
            BindingView {
                identity: b.identity,
                visibility: VisibilityView::InScope(root_of(c.id)),
                priority: Priority::Explicit,
            },
    )
}

/// Add an `extern crate` statement to the crate root. The extern crate must be stored in the
/// database, and the crate's root scope must exist.
///
/// With `macro_use`, the macros of the extern crate's root are added to the *prelude* (not to
/// the textual scopes). These succeed together where none of them is in the prelude yet.
pub fn add_root_extern_crate(
    db: &Db,
    crate_: &mut Crate,
    extern_crate_id: &CrateId,
    name: &Ident,
    visibility: Visibility,
    macro_use: bool,
) -> (r: Result<(), WalkError>)
    requires
        db.wf(),
        old(crate_).wf(),
        extern_crate_bound(old(crate_)@, extern_crate_id@, name@, visibility@).1 is Ok ==> db@.crates.contains_key(
            crate_key(extern_crate_id@),
        ) && db@.crates[crate_key(extern_crate_id@)] is Some,
    ensures
        final(crate_).wf(),
        ({
            let (c2, r2) = extern_crate_bound(old(crate_)@, extern_crate_id@, name@, visibility@);
            let ext = db@.crates[crate_key(extern_crate_id@)]->Some_0;
            if r2 is Err {
                final(crate_)@ == c2 && r == r2
            } else if !ext.scopes.contains_key(Seq::empty()) {
                final(crate_)@ == c2 && r == Err::<(), WalkError>(WalkError::ModuleNotFound)
            } else if !macro_use {
                final(crate_)@ == c2 && r is Ok
            } else {
                let imports = macro_imports(c2, ext.scopes[Seq::empty()]);
                let before = c2.prelude.macros;
                let after = final(crate_)@.prelude.macros;
                &&& final(crate_)@ == (CrateView {
                    prelude: c2.prelude.with_bindings(NamespaceId::Macro, after),
                    ..c2
                })
                &&& (r is Ok) == imports.dom().disjoint(before.dom())
                &&& r is Ok ==> after == before.union_prefer_right(imports)
                &&& r is Err ==> r == Err::<(), WalkError>(
                    WalkError::Database(DatabaseError::BindingAlreadyPresent),
                ) && before.submap_of(after) && after.submap_of(imports.union_prefer_right(before))
            }
        }),
{
    let ghost c0 = crate_@;
    if !crate_.extern_crate_bindings.contains_key(name.as_str()) {
        proof {
            assert(!c0.extern_crates.contains_key(name@));
        }
        match add_crate_dep(crate_, extern_crate_id, name.clone()) {
            Ok(()) => {},
            Err(e) => return Err(e),
        }
    }
    let root = Identity::root(&crate_.id);
    proof {
        assert(root@.path =~= Seq::<Seq<char>>::empty());
    }
    match crate_.add_binding::<Scope>(
        &root,
        name.clone(),
        Identity::root(extern_crate_id),
        visibility,
        Priority::Explicit,
    ) {
        Ok(()) => {},
        Err(e) => return Err(WalkError::Database(e)),
    }
    let ghost c2 = crate_@;
    let extern_crate = db.get_crate(extern_crate_id);
    let extern_root = Identity::root(extern_crate_id);
    proof {
        assert(extern_root@.path =~= Seq::<Seq<char>>::empty());
    }
    let crate_root = match extern_crate.get::<Scope>(&extern_root) {
        Some(s) => s,
        None => return Err(WalkError::ModuleNotFound),
    };
    if macro_use {
        let ghost imports = macro_imports(c2, crate_root@);
        let ghost before = c2.prelude.macros;
        let entries = crate_root.iter::<MacroItem>();
        let ghost names = crate_root.names(NamespaceId::Macro);
        proof {
            assert(MacroItem::spec_namespace_id() == NamespaceId::Macro);
            assert(crate_root@.bindings(NamespaceId::Macro) == crate_root@.macros);
            assert forall|j: int| 0 <= j < entries@.len() implies #[trigger] entries@[j].0@ == names[j] by {
                assert(entries@[j].0@ == crate_root.names(MacroItem::spec_namespace_id())[j]);
            }
            assert forall|j: int| 0 <= j < entries@.len() implies crate_root@.macros[#[trigger] names[j]] == entries@[j].1@ by {
                assert(entries@[j].0@ == crate_root.names(MacroItem::spec_namespace_id())[j]);
                assert(crate_root@.bindings(MacroItem::spec_namespace_id())[crate_root.names(MacroItem::spec_namespace_id())[j]] == entries@[j].1@);
            }
            assert forall|k: Seq<char>| #[trigger] crate_root@.macros.contains_key(k) <==> names.contains(k) by {
                assert(crate_root@.bindings(NamespaceId::Macro).contains_key(k) <==> names.contains(k));
            }
        }
        let mut i: usize = 0;
        while i < entries.len()
            invariant
                i <= entries@.len(),
                crate_.wf(),
                entries@.len() == names.len(),
                forall|j: int| 0 <= j < entries@.len() ==> #[trigger] entries@[j].0@ == names[j],
                forall|j: int|
                    0 <= j < entries@.len() ==> crate_root@.macros[#[trigger] names[j]] == entries@[j].1@,
                forall|k: Seq<char>| #[trigger] crate_root@.macros.contains_key(k) <==> names.contains(k),
                forall|j: int, l: int| 0 <= j < l < entries@.len() ==> #[trigger] names[j] != #[trigger] names[l],
                imports == macro_imports(c2, crate_root@),
                macro_use,
                c0 == old(crate_)@,
                extern_crate_bound(c0, extern_crate_id@, name@, visibility@) == (c2, Ok::<(), WalkError>(())),
                db@.crates[crate_key(extern_crate_id@)]->Some_0.scopes.contains_key(Seq::empty()),
                db@.crates[crate_key(extern_crate_id@)]->Some_0.scopes[Seq::empty()] == crate_root@,
                before == c2.prelude.macros,
                crate_@.id == c2.id,
                crate_@ == (CrateView {
                    prelude: c2.prelude.with_bindings(NamespaceId::Macro, crate_@.prelude.macros),
                    ..c2
                }),
                forall|j: int| 0 <= j < i ==> !before.contains_key(#[trigger] names[j]),
                forall|k: Seq<char>| #[trigger]
                    crate_@.prelude.macros.contains_key(k) <==> (before.contains_key(k) || exists|j: int|
                        0 <= j < i && names[j] == k),
                forall|k: Seq<char>| #[trigger]
                    before.contains_key(k) ==> crate_@.prelude.macros[k] == before[k],
                forall|j: int| 0 <= j < i ==> crate_@.prelude.macros[#[trigger] names[j]] == imports[names[j]],
            decreases entries@.len() - i,
        {
            let ghost c_i = crate_@;
            let entry = &entries[i];
            proof {
                assert(names.contains(names[i as int]));
            }
            let res = crate_.add_prelude_binding_by(
                NamespaceId::Macro,
                entry.0.clone(),
                entry.1.identity.dup(),
            );
            match res {
                Ok(()) => {},
                Err(e) => {
                    proof {
                        assert(c_i.prelude.macros.contains_key(names[i as int]));
                        assert(before.contains_key(names[i as int]));
                        assert(imports.contains_key(names[i as int]));
                        assert(!imports.dom().disjoint(before.dom()));
                        assert(crate_@.prelude.macros =~= c_i.prelude.macros);
                        assert(crate_@.prelude =~= c_i.prelude);
                        assert(crate_@ =~= c_i);
                        assert(e == DatabaseError::BindingAlreadyPresent);
                        assert(before.submap_of(crate_@.prelude.macros));
                        assert forall|k: Seq<char>| #[trigger]
                            crate_@.prelude.macros.contains_key(k) implies imports.union_prefer_right(
                                before,
                            ).contains_key(k) && crate_@.prelude.macros[k] == imports.union_prefer_right(
                                before,
                            )[k] by {
                            if !before.contains_key(k) {
                                let j = choose|j: int| 0 <= j < i && names[j] == k;
                                assert(names.contains(names[j]));
                                assert(crate_root@.macros.contains_key(names[j]));
                            }
                        }
                    }
                    return Err(WalkError::Database(e));
                },
            }
            proof {
                assert(!before.contains_key(names[i as int]));
                assert forall|k: Seq<char>| #[trigger]
                    crate_@.prelude.macros.contains_key(k) <==> (before.contains_key(k) || exists|j: int|
                        0 <= j < i + 1 && names[j] == k) by {
                    if k == names[i as int] {
                        assert(0 <= i < i + 1 && names[i as int] == k);
                    }
                    if exists|j: int| 0 <= j < i + 1 && names[j] == k {
                        let j = choose|j: int| 0 <= j < i + 1 && names[j] == k;
                        if j < i {
                            assert(c_i.prelude.macros.contains_key(k));
                        }
                    }
                }
                assert forall|j: int| 0 <= j < i + 1 implies crate_@.prelude.macros[#[trigger] names[j]]
                    == imports[names[j]] by {
                    if j < i {
                        assert(names[j] != names[i as int]);
                    }
                    assert(names.contains(names[j]));
                }
                assert(crate_@ =~= (CrateView {
                    prelude: c2.prelude.with_bindings(NamespaceId::Macro, crate_@.prelude.macros),
                    ..c2
                }));
            }
            i = i + 1;
        }
        proof {
            assert(imports.dom().disjoint(before.dom())) by {
                assert forall|k: Seq<char>| imports.dom().contains(k) implies !before.dom().contains(k) by {
                    assert(names.contains(k));
                    let j = choose|j: int| 0 <= j < names.len() && names[j] == k;
                    assert(!before.contains_key(names[j]));
                }
            }
            assert forall|k: Seq<char>| #[trigger]
                crate_@.prelude.macros.contains_key(k) <==> before.union_prefer_right(imports).contains_key(k) by {
                if imports.contains_key(k) {
                    assert(names.contains(k));
                    let j = choose|j: int| 0 <= j < names.len() && names[j] == k;
                    assert(0 <= j < i && names[j] == k);
                }
                if exists|j: int| 0 <= j < i && names[j] == k {
                    let j = choose|j: int| 0 <= j < i && names[j] == k;
                    assert(names.contains(names[j]));
                }
            }
            assert forall|k: Seq<char>| #[trigger] crate_@.prelude.macros.contains_key(k) implies crate_@.prelude.macros[k]
                == before.union_prefer_right(imports)[k] by {
                if imports.contains_key(k) {
                    assert(names.contains(k));
                    let j = choose|j: int| 0 <= j < names.len() && names[j] == k;
                    assert(crate_@.prelude.macros[names[j]] == imports[names[j]]);
                }
            }
            assert(crate_@.prelude.macros =~= before.union_prefer_right(imports));
        }
    }
    proof {
        assert(crate_@ =~= (CrateView {
            prelude: c2.prelude.with_bindings(NamespaceId::Macro, crate_@.prelude.macros),
            ..c2
        }));
    }
    Ok(())
}

/// An entry of a prelude: the namespace, the name, and the identity it is bound to.
pub type PreludeEntry = (NamespaceId, Seq<char>, IdentityView);

/// The prelude after inserting `entries` in order, each bound explicitly with visibility `vis`;
/// insertion stops at the first entry whose name is already bound, and the flag says whether
/// all of them went in.
pub open spec fn entries_inserted(p: ScopeView, entries: Seq<PreludeEntry>, vis: VisibilityView) -> (
    ScopeView,
    bool,
)
    decreases entries.len(),
{
    if entries.len() == 0 {
        (p, true)
    } else {
        let (p1, ok) = entries_inserted(p, entries.drop_last(), vis);
        if !ok {
            (p1, false)
        } else {
            let e = entries.last();
            let (m, ok2) = insert_outcome(
                p1.bindings(e.0),
                e.1,
                BindingView { identity: e.2, visibility: vis, priority: Priority::Explicit },
            );
            (p1.with_bindings(e.0, m), ok2)
        }
    }
}

/// Inserting `a` then `b` is inserting `a + b`.
pub proof fn lemma_entries_inserted_append(
    p: ScopeView,
    a: Seq<PreludeEntry>,
    b: Seq<PreludeEntry>,
    vis: VisibilityView,
)
    ensures
        entries_inserted(p, a + b, vis) == (if entries_inserted(p, a, vis).1 {
            entries_inserted(entries_inserted(p, a, vis).0, b, vis)
        } else {
            entries_inserted(p, a, vis)
        }),
    decreases b.len(),
{
    if b.len() == 0 {
        assert(a + b =~= a);
    } else {
        assert((a + b).drop_last() =~= a + b.drop_last());
        assert((a + b).last() == b.last());
        lemma_entries_inserted_append(p, a, b.drop_last(), vis);
    }
}

/// The builtin types, as prelude entries.
pub open spec fn builtin_entries() -> Seq<PreludeEntry> {
    builtin_type_names().map_values(
        |n: Seq<char>| (NamespaceId::Type, n, builtin_view(n)),
    )
}

/// The prelude entries for the item at `path` (segments separated by `::`) in namespace `ns` of
/// `core` (or of `alloc`): a type is bound in the scope namespace too, before the type namespace.
pub open spec fn path_entries(ns: NamespaceId, path: Seq<char>, in_core: bool) -> Seq<PreludeEntry> {
    let segs = split_on_sep(path);
    let id = IdentityView {
        crate_: if in_core {
            core_crate_view()
        } else {
            alloc_crate_view()
        },
        path: segs,
    };
    if ns == NamespaceId::Type {
        seq![(NamespaceId::Scope, segs.last(), id), (NamespaceId::Type, segs.last(), id)]
    } else {
        seq![(ns, segs.last(), id)]
    }
}

/// The prelude entries of a table of paths, in order.
pub open spec fn table_entries(t: Seq<(NamespaceId, &str, bool)>) -> Seq<PreludeEntry>
    decreases t.len(),
{
    if t.len() == 0 {
        Seq::empty()
    } else {
        table_entries(t.drop_last()) + path_entries(t.last().0, t.last().1@, t.last().2)
    }
}

/// The items of `core` in the standard prelude, by namespace and path.
pub open spec fn core_prelude_table() -> Seq<(NamespaceId, &'static str, bool)> {
    seq![
        (NamespaceId::Type, "marker::Copy", true),
        (NamespaceId::Type, "marker::Send", true),
        (NamespaceId::Type, "marker::Sized", true),
        (NamespaceId::Type, "marker::Sync", true),
        (NamespaceId::Type, "marker::Unpin", true),
        (NamespaceId::Type, "ops::Drop", true),
        (NamespaceId::Type, "ops::Fn", true),
        (NamespaceId::Type, "ops::FnMut", true),
        (NamespaceId::Type, "ops::FnOnce", true),
        (NamespaceId::Type, "clone::Clone", true),
        (NamespaceId::Type, "cmp::Eq", true),
        (NamespaceId::Type, "cmp::Ord", true),
        (NamespaceId::Type, "cmp::PartialEq", true),
        (NamespaceId::Type, "cmp::PartialOrd", true),
        (NamespaceId::Type, "convert::AsMut", true),
        (NamespaceId::Type, "convert::AsRef", true),
        (NamespaceId::Type, "convert::From", true),
        (NamespaceId::Type, "convert::Into", true),
        (NamespaceId::Type, "default::Default", true),
        (NamespaceId::Type, "iter::DoubleEndedIterator", true),
        (NamespaceId::Type, "iter::ExactSizeIterator", true),
        (NamespaceId::Type, "iter::Extend", true),
        (NamespaceId::Type, "iter::IntoIterator", true),
        (NamespaceId::Type, "iter::Iterator", true),
        (NamespaceId::Type, "option::Option", true),
        (NamespaceId::Type, "result::Result", true),
        (NamespaceId::Type, "hash::macros::Hash", true),
        (NamespaceId::Symbol, "mem::drop", true),
        (NamespaceId::Symbol, "option::Option::None", true),
        (NamespaceId::Symbol, "option::Option::Some", true),
        (NamespaceId::Symbol, "result::Result::Err", true),
        (NamespaceId::Symbol, "result::Result::Ok", true),
        (NamespaceId::Macro, "asm", true),
        (NamespaceId::Macro, "assert", true),
        (NamespaceId::Macro, "cfg", true),
        (NamespaceId::Macro, "column", true),
        (NamespaceId::Macro, "compile_error", true),
        (NamespaceId::Macro, "concat", true),
        (NamespaceId::Macro, "concat_idents", true),
        (NamespaceId::Macro, "env", true),
        (NamespaceId::Macro, "file", true),
        (NamespaceId::Macro, "format_args", true),
        (NamespaceId::Macro, "format_args_nl", true),
        (NamespaceId::Macro, "global_asm", true),
        (NamespaceId::Macro, "include", true),
        (NamespaceId::Macro, "include_bytes", true),
        (NamespaceId::Macro, "include_str", true),
        (NamespaceId::Macro, "line", true),
        (NamespaceId::Macro, "log_syntax", true),
        (NamespaceId::Macro, "module_path", true),
        (NamespaceId::Macro, "option_env", true),
        (NamespaceId::Macro, "stringify", true),
        (NamespaceId::Macro, "trace_macros", true),
        (NamespaceId::Macro, "macros::builtin::bench", true),
        (NamespaceId::Macro, "macros::builtin::global_allocator", true),
        (NamespaceId::Macro, "macros::builtin::test", true),
        (NamespaceId::Macro, "macros::builtin::test_case", true),
    ]
}

/// The items of `alloc` in the standard prelude, by namespace and path.
pub open spec fn alloc_prelude_table() -> Seq<(NamespaceId, &'static str, bool)> {
    seq![
        (NamespaceId::Type, "borrow::ToOwned", false),
        (NamespaceId::Type, "boxed::Box", false),
        (NamespaceId::Type, "string::String", false),
        (NamespaceId::Type, "string::ToString", false),
        (NamespaceId::Type, "vec::Vec", false),
    ]
}

/// The items of the standard prelude: those of `core`, then, with `std`, those of `alloc`.
pub open spec fn std_prelude_table(with_std: bool) -> Seq<(NamespaceId, &'static str, bool)> {
    if with_std {
        core_prelude_table() + alloc_prelude_table()
    } else {
        core_prelude_table()
    }
}

/// Every entry of the standard prelude, in the order they are added.
pub open spec fn std_prelude_entries(with_std: bool) -> Seq<PreludeEntry> {
    builtin_entries() + table_entries(std_prelude_table(with_std))
}

/// The table of the standard prelude.
fn prelude_table(with_std: bool) -> (r: Vec<(NamespaceId, &'static str, bool)>)
    ensures
        r@ == std_prelude_table(with_std),
{
    let mut r = vec![
        (NamespaceId::Type, "marker::Copy", true),
        (NamespaceId::Type, "marker::Send", true),
        (NamespaceId::Type, "marker::Sized", true),
        (NamespaceId::Type, "marker::Sync", true),
        (NamespaceId::Type, "marker::Unpin", true),
        (NamespaceId::Type, "ops::Drop", true),
        (NamespaceId::Type, "ops::Fn", true),
        (NamespaceId::Type, "ops::FnMut", true),
        (NamespaceId::Type, "ops::FnOnce", true),
        (NamespaceId::Type, "clone::Clone", true),
        (NamespaceId::Type, "cmp::Eq", true),
        (NamespaceId::Type, "cmp::Ord", true),
        (NamespaceId::Type, "cmp::PartialEq", true),
        (NamespaceId::Type, "cmp::PartialOrd", true),
        (NamespaceId::Type, "convert::AsMut", true),
        (NamespaceId::Type, "convert::AsRef", true),
        (NamespaceId::Type, "convert::From", true),
        (NamespaceId::Type, "convert::Into", true),
        (NamespaceId::Type, "default::Default", true),
        (NamespaceId::Type, "iter::DoubleEndedIterator", true),
        (NamespaceId::Type, "iter::ExactSizeIterator", true),
        (NamespaceId::Type, "iter::Extend", true),
        (NamespaceId::Type, "iter::IntoIterator", true),
        (NamespaceId::Type, "iter::Iterator", true),
        (NamespaceId::Type, "option::Option", true),
        (NamespaceId::Type, "result::Result", true),
        (NamespaceId::Type, "hash::macros::Hash", true),
        (NamespaceId::Symbol, "mem::drop", true),
        (NamespaceId::Symbol, "option::Option::None", true),
        (NamespaceId::Symbol, "option::Option::Some", true),
        (NamespaceId::Symbol, "result::Result::Err", true),
        (NamespaceId::Symbol, "result::Result::Ok", true),
        (NamespaceId::Macro, "asm", true),
        (NamespaceId::Macro, "assert", true),
        (NamespaceId::Macro, "cfg", true),
        (NamespaceId::Macro, "column", true),
        (NamespaceId::Macro, "compile_error", true),
        (NamespaceId::Macro, "concat", true),
        (NamespaceId::Macro, "concat_idents", true),
        (NamespaceId::Macro, "env", true),
        (NamespaceId::Macro, "file", true),
        (NamespaceId::Macro, "format_args", true),
        (NamespaceId::Macro, "format_args_nl", true),
        (NamespaceId::Macro, "global_asm", true),
        (NamespaceId::Macro, "include", true),
        (NamespaceId::Macro, "include_bytes", true),
        (NamespaceId::Macro, "include_str", true),
        (NamespaceId::Macro, "line", true),
        (NamespaceId::Macro, "log_syntax", true),
        (NamespaceId::Macro, "module_path", true),
        (NamespaceId::Macro, "option_env", true),
        (NamespaceId::Macro, "stringify", true),
        (NamespaceId::Macro, "trace_macros", true),
        (NamespaceId::Macro, "macros::builtin::bench", true),
        (NamespaceId::Macro, "macros::builtin::global_allocator", true),
        (NamespaceId::Macro, "macros::builtin::test", true),
        (NamespaceId::Macro, "macros::builtin::test_case", true),
    ];
    proof {
        assert(r@ =~= core_prelude_table());
    }
    if with_std {
        let ghost r0 = r@;
        r.push((NamespaceId::Type, "borrow::ToOwned", false));
        r.push((NamespaceId::Type, "boxed::Box", false));
        r.push((NamespaceId::Type, "string::String", false));
        r.push((NamespaceId::Type, "string::ToString", false));
        r.push((NamespaceId::Type, "vec::Vec", false));
        proof {
            assert(r@ =~= core_prelude_table() + alloc_prelude_table());
        }
    }
    r
}

/// The crate after adding the prelude entries for the item at `path` of crate `crate_id`, in
/// namespace `ns`.
fn add_to_prelude(crate_: &mut Crate, ns: NamespaceId, crate_id: &CrateId, in_core: bool, path: &str) -> (r: Result<(), WalkError>)
    requires
        old(crate_).wf(),
        crate_id@ == (if in_core {
            core_crate_view()
        } else {
            alloc_crate_view()
        }),
    ensures
        final(crate_).wf(),
        ({
            let (p, ok) = entries_inserted(
                old(crate_)@.prelude,
                path_entries(ns, path@, in_core),
                VisibilityView::InScope(root_of(old(crate_)@.id)),
            );
            &&& final(crate_)@ == (CrateView { prelude: p, ..old(crate_)@ })
            &&& (r is Ok) == ok
            &&& r is Err ==> r == Err::<(), WalkError>(
                WalkError::Database(DatabaseError::BindingAlreadyPresent),
            )
        }),
{
    let ghost c0 = crate_@;
    let ghost vis = VisibilityView::InScope(root_of(c0.id));
    let segs = split_path_str(path);
    proof {
        lemma_split_nonempty(path@);
    }
    let last = segs[segs.len() - 1].clone();
    let identity = Identity::from_parts(crate_id, segs);
    let ghost es = path_entries(ns, path@, in_core);
    proof {
        assert(last@ == split_on_sep(path@).last());
        assert(identity@ == es[0].2);
        assert(entries_inserted(c0.prelude, Seq::<PreludeEntry>::empty(), vis) == (c0.prelude, true));
    }
    if ns == NamespaceId::Type {
        proof {
            assert(es.drop_last() =~= seq![es[0]]);
            assert(seq![es[0]].drop_last() =~= Seq::<PreludeEntry>::empty());
        }
        match crate_.add_prelude_binding_by(NamespaceId::Scope, last.clone(), identity.dup()) {
            Ok(()) => {},
            Err(e) => {
                proof {
                    assert(entries_inserted(c0.prelude, seq![es[0]], vis) == (crate_@.prelude, false));
                }
                return Err(WalkError::Database(e));
            },
        }
        proof {
            assert(entries_inserted(c0.prelude, seq![es[0]], vis) == (crate_@.prelude, true));
        }
    } else {
        proof {
            assert(es.drop_last() =~= Seq::<PreludeEntry>::empty());
        }
    }
    match crate_.add_prelude_binding_by(ns, last, identity) {
        Ok(()) => Ok(()),
        Err(e) => Err(WalkError::Database(e)),
    }
}

/// Add the standard entries to a crate prelude: the builtin types, the prelude items of `core`,
/// and, unless the crate is `no_std` or is `core` itself, those of `alloc`.
///
/// The items themselves do not live here: this only binds names in the prelude to their paths.
pub fn add_std_prelude(crate_: &mut Crate, no_std: bool) -> (r: Result<(), WalkError>)
    requires
        old(crate_).wf(),
    ensures
        final(crate_).wf(),
        ({
            let with_std = !no_std && old(crate_)@.id != core_crate_view();
            let (p, ok) = entries_inserted(
                old(crate_)@.prelude,
                std_prelude_entries(with_std),
                VisibilityView::InScope(root_of(old(crate_)@.id)),
            );
            &&& final(crate_)@ == (CrateView { prelude: p, ..old(crate_)@ })
            &&& (r is Ok) == ok
            &&& r is Err ==> r == Err::<(), WalkError>(
                WalkError::Database(DatabaseError::BindingAlreadyPresent),
            )
        }),
{
    let ghost c0 = crate_@;
    let ghost vis = VisibilityView::InScope(root_of(c0.id));
    let builtins = builtin_types();
    let mut i: usize = 0;
    proof {
        assert(builtin_entries().take(0) =~= Seq::<PreludeEntry>::empty());
    }
    while i < builtins.len()
        invariant
            i <= builtins@.len(),
            builtins@.len() == builtin_type_names().len(),
            forall|j: int| 0 <= j < builtins@.len() ==> #[trigger] builtins@[j].0@ == builtin_type_names()[j],
            forall|j: int| 0 <= j < builtins@.len() ==> #[trigger] builtins@[j].1@ == builtin_view(builtin_type_names()[j]),
            crate_.wf(),
            c0 == old(crate_)@,
            crate_@.id == c0.id,
            vis == VisibilityView::InScope(root_of(c0.id)),
            entries_inserted(c0.prelude, builtin_entries().take(i as int), vis) == (crate_@.prelude, true),
            crate_@ == (CrateView { prelude: crate_@.prelude, ..c0 }),
        decreases builtins@.len() - i,
    {
        let ghost c_i = crate_@;
        proof {
            assert(builtin_entries().take(i + 1).drop_last() =~= builtin_entries().take(i as int));
            assert(builtin_entries().take(i + 1).last() == builtin_entries()[i as int]);
        }
        let res = crate_.add_prelude_binding_by(
            NamespaceId::Type,
            builtins[i].0.clone(),
            builtins[i].1.dup(),
        );
        match res {
            Ok(()) => {},
            Err(e) => {
                proof {
                    let rest = builtin_entries().skip(i + 1) + table_entries(
                        std_prelude_table(!no_std && c0.id != core_crate_view()),
                    );
                    assert(crate_@.prelude =~= c_i.prelude.with_bindings(NamespaceId::Type, c_i.prelude.types));
                    assert(builtin_entries()[i as int] == (NamespaceId::Type, builtins@[i as int].0@, builtins@[i as int].1@));
                    assert(entries_inserted(c0.prelude, builtin_entries().take(i + 1), vis) == (crate_@.prelude, false));
                    lemma_entries_inserted_append(c0.prelude, builtin_entries().take(i + 1), rest, vis);
                    assert(builtin_entries().take(i + 1) + rest =~= std_prelude_entries(
                        !no_std && c0.id != core_crate_view(),
                    ));
                }
                return Err(WalkError::Database(e));
            },
        }
        i = i + 1;
    }
    let with_std = !no_std && !crate_.id.same(&core_crate());
    let table = prelude_table(with_std);
    let ghost all = std_prelude_entries(with_std);
    proof {
        assert(builtin_entries().take(builtins@.len() as int) =~= builtin_entries());
        assert(table_entries(table@.take(0)) =~= Seq::<PreludeEntry>::empty());
        assert(builtin_entries() + table_entries(table@.take(0)) =~= builtin_entries());
    }
    let mut k: usize = 0;
    while k < table.len()
        invariant
            k <= table@.len(),
            table@ == std_prelude_table(with_std),
            with_std == (!no_std && c0.id != core_crate_view()),
            all == std_prelude_entries(with_std),
            crate_.wf(),
            c0 == old(crate_)@,
            crate_@.id == c0.id,
            vis == VisibilityView::InScope(root_of(c0.id)),
            entries_inserted(c0.prelude, builtin_entries() + table_entries(table@.take(k as int)), vis)
                == (crate_@.prelude, true),
            crate_@ == (CrateView { prelude: crate_@.prelude, ..c0 }),
        decreases table@.len() - k,
    {
        let (ns, path, in_core) = table[k];
        let ghost done = builtin_entries() + table_entries(table@.take(k as int));
        let ghost step = path_entries(ns, path@, in_core);
        proof {
            assert(table@.take(k + 1).drop_last() =~= table@.take(k as int));
            assert(table@.take(k + 1).last() == table@[k as int]);
            assert(builtin_entries() + table_entries(table@.take(k + 1)) =~= done + step);
            lemma_entries_inserted_append(c0.prelude, done, step, vis);
        }
        let krate = if in_core {
            core_crate()
        } else {
            alloc_crate()
        };
        let res = add_to_prelude(crate_, ns, &krate, in_core, path);
        match res {
            Ok(()) => {},
            Err(e) => {
                proof {
                    assert(entries_inserted(c0.prelude, done + step, vis) == (crate_@.prelude, false));
                    let rest = table_entries(table@.skip(k + 1));
                    lemma_table_entries_split(table@, k + 1);
                    lemma_entries_inserted_append(
                        c0.prelude,
                        builtin_entries() + table_entries(table@.take(k + 1)),
                        rest,
                        vis,
                    );
                    assert(builtin_entries() + table_entries(table@.take(k + 1)) + rest =~= all);
                }
                return Err(e);
            },
        }
        k = k + 1;
    }
    proof {
        assert(table@.take(table@.len() as int) =~= table@);
    }
    Ok(())
}

/// The entries of a table are those of its first `n` rows, then those of the rest.
pub proof fn lemma_table_entries_split(t: Seq<(NamespaceId, &str, bool)>, n: int)
    requires
        0 <= n <= t.len(),
    ensures
        table_entries(t) == table_entries(t.take(n)) + table_entries(t.skip(n)),
    decreases t.len() - n,
{
    if n == t.len() {
        assert(t.take(n) =~= t);
        assert(t.skip(n) =~= Seq::<(NamespaceId, &str, bool)>::empty());
        assert(table_entries(t.take(n)) + table_entries(t.skip(n)) =~= table_entries(t.take(n)));
    } else {
        lemma_table_entries_split(t, n + 1);
        let u = t.skip(n);
        lemma_table_entries_prepend(u);
        assert(u.drop_first() =~= t.skip(n + 1));
        assert(u[0] == t[n]);
        assert(t.take(n + 1).drop_last() =~= t.take(n));
        assert(t.take(n + 1).last() == t[n]);
        assert(table_entries(t.take(n + 1)) == table_entries(t.take(n)) + path_entries(t[n].0, t[n].1@, t[n].2));
        assert(table_entries(t.take(n)) + table_entries(t.skip(n)) =~= table_entries(t.take(n + 1))
            + table_entries(t.skip(n + 1)));
    }
}

/// The entries of a non-empty table are those of its first row, then those of the rest.
pub proof fn lemma_table_entries_prepend(t: Seq<(NamespaceId, &str, bool)>)
    requires
        t.len() > 0,
    ensures
        table_entries(t) == path_entries(t[0].0, t[0].1@, t[0].2) + table_entries(t.drop_first()),
    decreases t.len(),
{
    if t.len() == 1 {
        assert(t.drop_last() =~= Seq::<(NamespaceId, &str, bool)>::empty());
        assert(t.drop_first() =~= Seq::<(NamespaceId, &str, bool)>::empty());
        assert(table_entries(t) =~= path_entries(t[0].0, t[0].1@, t[0].2) + table_entries(t.drop_first()));
    } else {
        lemma_table_entries_prepend(t.drop_last());
        assert(t.drop_last().drop_first() =~= t.drop_first().drop_last());
        assert(t.drop_first().last() == t.last());
        assert(t.drop_last()[0] == t[0]);
        assert(table_entries(t) =~= path_entries(t[0].0, t[0].1@, t[0].2) + table_entries(t.drop_first()));
    }
}

} // verus!
