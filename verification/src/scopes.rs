//! Scopes and bindings.

use crate::attributes::{Metadata, Visibility, VisibilityView};
use crate::database::NamespaceLookup;
use crate::identities::{Ident, Identity, IdentityView};
use crate::items::HasMetadata;
use crate::maps::NameTable;
use vstd::prelude::*;

verus! {

/// Identifies a namespace.
#[derive(Clone, Copy, PartialEq, Eq, Debug, Structural)]
pub enum NamespaceId {
    Type,
    Symbol,
    Macro,
    Scope,
}

/// A binding priority. Bindings created through globs (`use thing::*`) have lower priority than
/// explicit imports and declarations.
#[derive(Clone, Copy, PartialEq, Eq, Debug, Structural)]
pub enum Priority {
    Glob,
    Explicit,
}

/// A name binding. (Nothing to do with the idea of "language bindings".)
#[derive(Debug)]
pub struct Binding {
    /// The final target this binding points to. If this points to another binding (e.g. a
    /// reexport), that chain is followed.
    pub identity: Identity,
    /// The visibility of the binding (NOT the item).
    pub visibility: Visibility,
    /// If the binding is through a glob or explicit.
    pub priority: Priority,
}

/// The characters of a binding.
pub struct BindingView {
    pub identity: IdentityView,
    pub visibility: VisibilityView,
    pub priority: Priority,
}

impl View for Binding {
    type V = BindingView;

    open spec fn view(&self) -> BindingView {
        BindingView { identity: self.identity@, visibility: self.visibility@, priority: self.priority }
    }
}

impl Binding {
    /// A copy of this binding.
    pub fn dup(&self) -> (r: Binding)
        ensures
            r@ == self@,
    {
        Binding { identity: self.identity.dup(), visibility: self.visibility.dup(), priority: self.priority }
    }
}

/// What a scope holds: its metadata, its back links and its bindings in each namespace.
pub struct ScopeView {
    pub metadata: Metadata,
    pub is_module: bool,
    pub links: Seq<(IdentityView, VisibilityView)>,
    pub types: Map<Seq<char>, BindingView>,
    pub symbols: Map<Seq<char>, BindingView>,
    pub macros: Map<Seq<char>, BindingView>,
    pub scopes: Map<Seq<char>, BindingView>,
}

impl ScopeView {
    /// The bindings of one namespace, by name.
    pub open spec fn bindings(self, ns: NamespaceId) -> Map<Seq<char>, BindingView> {
        match ns {
            NamespaceId::Type => self.types,
            NamespaceId::Symbol => self.symbols,
            NamespaceId::Macro => self.macros,
            NamespaceId::Scope => self.scopes,
        }
    }

    /// This scope with the bindings of one namespace replaced by `m`.
    pub open spec fn with_bindings(self, ns: NamespaceId, m: Map<Seq<char>, BindingView>) -> ScopeView {
        match ns {
            NamespaceId::Type => ScopeView { types: m, ..self },
            NamespaceId::Symbol => ScopeView { symbols: m, ..self },
            NamespaceId::Macro => ScopeView { macros: m, ..self },
            NamespaceId::Scope => ScopeView { scopes: m, ..self },
        }
    }
}

/// A scope with the given metadata and no bindings or back links.
pub open spec fn empty_scope(metadata: Metadata, is_module: bool) -> ScopeView {
    ScopeView {
        metadata,
        is_module,
        links: Seq::empty(),
        types: Map::empty(),
        symbols: Map::empty(),
        macros: Map::empty(),
        scopes: Map::empty(),
    }
}

/// The outcome of inserting a binding into a table that maps names to bindings: a name already
/// bound keeps its binding and the insertion fails; otherwise the new binding is added.
pub open spec fn insert_outcome(
    old_map: Map<Seq<char>, BindingView>,
    name: Seq<char>,
    new_binding: BindingView,
) -> (Map<Seq<char>, BindingView>, bool) {
    if old_map.contains_key(name) {
        (old_map, false)
    } else {
        (old_map.insert(name, new_binding), true)
    }
}

/// Insert a binding into one namespace's table. Returns `Err` if already present.
fn insert_binding(
    table: &mut NameTable<Binding>,
    ident: Ident,
    target: Identity,
    visibility: Visibility,
    priority: Priority,
) -> (r: Result<(), ()>)
    requires
        old(table).wf(),
    ensures
        final(table).wf(),
        ({
            let (m, ok) = insert_outcome(
                old(table).map().map_values(|b: Binding| b@),
                ident@,
                BindingView { identity: target@, visibility: visibility@, priority },
            );
            &&& final(table).map().map_values(|b: Binding| b@) == m
            &&& (r is Ok) == ok
        }),
        old(table).map().contains_key(ident@) ==> final(table).keys() == old(table).keys(),
        !old(table).map().contains_key(ident@) ==> final(table).keys() == old(table).keys().push(ident@),
{
    let ghost old_map = table.map();
    match table.get(ident.as_str()) {
        Some(_) => Err(()),
        None => {
            let b = Binding { identity: target, visibility, priority };
            table.insert_new(ident, b);
            proof {
                assert(table.map().map_values(|b: Binding| b@) =~= old_map.map_values(
                    |b: Binding| b@,
                ).insert(ident@, b@));
            }
            Ok(())
        },
    }
}

/// A scope, containing bindings for all 4 namespaces.
///
/// Scopes may be named (modules, enums, traits) or anonymous (impl blocks, function bodies.)
/// Lifetimes live in the type namespace, but their names have ticks so they're basically
/// distinct.
#[derive(Debug)]
pub struct Scope {
    /// Metadata on a scope (e.g. module doc comments).
    pub metadata: Metadata,
    /// If this is a module or something else.
    pub is_module: bool,
    /// Scopes (in the current crate) that glob-import from this scope.
    back_links: Vec<(Identity, Visibility)>,
    /// Bindings in the type namespace.
    types: NameTable<Binding>,
    /// Bindings in the symbol namespace.
    symbols: NameTable<Binding>,
    /// Bindings in the macro namespace.
    macros: NameTable<Binding>,
    /// Bindings in the scope namespace.
    scopes: NameTable<Binding>,
}

impl View for Scope {
    type V = ScopeView;

    closed spec fn view(&self) -> ScopeView {
        ScopeView {
            metadata: self.metadata,
            is_module: self.is_module,
            links: self.back_links@.map_values(|l: (Identity, Visibility)| (l.0@, l.1@)),
            types: self.types.map().map_values(|b: Binding| b@),
            symbols: self.symbols.map().map_values(|b: Binding| b@),
            macros: self.macros.map().map_values(|b: Binding| b@),
            scopes: self.scopes.map().map_values(|b: Binding| b@),
        }
    }
}

impl HasMetadata for Scope {
    open spec fn spec_metadata(&self) -> Metadata {
        self@.metadata
    }

    fn metadata(&self) -> (r: &Metadata) {
        &self.metadata
    }
}

impl Scope {
    /// The binding tables are well formed.
    pub closed spec fn wf(&self) -> bool {
        &&& self.types.wf()
        &&& self.symbols.wf()
        &&& self.macros.wf()
        &&& self.scopes.wf()
    }

    /// The table of one namespace.
    closed spec fn table(&self, ns: NamespaceId) -> NameTable<Binding> {
        match ns {
            NamespaceId::Type => self.types,
            NamespaceId::Symbol => self.symbols,
            NamespaceId::Macro => self.macros,
            NamespaceId::Scope => self.scopes,
        }
    }

    /// The names bound in one namespace, in the order they were bound.
    pub closed spec fn names(&self, ns: NamespaceId) -> Seq<Seq<char>> {
        self.table(ns).keys()
    }

    proof fn lemma_table_view(&self, ns: NamespaceId)
        ensures
            self@.bindings(ns) == self.table(ns).map().map_values(|b: Binding| b@),
    {
    }

    /// Create a new scope.
    pub fn new(metadata: Metadata, is_module: bool) -> (r: Scope)
        ensures
            r.wf(),
            r@ == empty_scope(metadata, is_module),
            forall|ns: NamespaceId| #[trigger] r.names(ns) == Seq::<Seq<char>>::empty(),
    {
        let r = Scope {
            metadata,
            is_module,
            back_links: Vec::new(),
            types: NameTable::new(),
            symbols: NameTable::new(),
            macros: NameTable::new(),
            scopes: NameTable::new(),
        };
        proof {
            assert(r@.links =~= Seq::<(IdentityView, VisibilityView)>::empty());
            assert(r.types.map().map_values(|b: Binding| b@) =~= Map::<Seq<char>, BindingView>::empty());
            assert(r.symbols.map().map_values(|b: Binding| b@) =~= Map::<Seq<char>, BindingView>::empty());
            assert(r.macros.map().map_values(|b: Binding| b@) =~= Map::<Seq<char>, BindingView>::empty());
            assert(r.scopes.map().map_values(|b: Binding| b@) =~= Map::<Seq<char>, BindingView>::empty());
        }
        r
    }

    /// Get a binding by namespace id. Does NOT check inherited scopes or prelude.
    pub fn get_by(&self, namespace_id: NamespaceId, ident: &str) -> (r: Option<&Binding>)
        requires
            self.wf(),
        ensures
            self@.bindings(namespace_id).contains_key(ident@) ==> r is Some && r->0@
                == self@.bindings(namespace_id)[ident@],
            !self@.bindings(namespace_id).contains_key(ident@) ==> r is None,
    {
        proof {
            self.lemma_table_view(namespace_id);
        }
        match namespace_id {
            NamespaceId::Type => self.types.get(ident),
            NamespaceId::Symbol => self.symbols.get(ident),
            NamespaceId::Macro => self.macros.get(ident),
            NamespaceId::Scope => self.scopes.get(ident),
        }
    }

    /// Insert a binding by namespace id. Returns `Err` if a binding is already present, which
    /// is kept.
    /// Does NOT update back links!
    pub fn insert_by(
        &mut self,
        namespace_id: NamespaceId,
        ident: Ident,
        target: Identity,
        visibility: Visibility,
        priority: Priority,
    ) -> (r: Result<(), ()>)
        requires
            old(self).wf(),
        ensures
            final(self).wf(),
            ({
                let (m, ok) = insert_outcome(
                    old(self)@.bindings(namespace_id),
                    ident@,
                    BindingView { identity: target@, visibility: visibility@, priority },
                );
                &&& final(self)@ == old(self)@.with_bindings(namespace_id, m)
                &&& (r is Ok) == ok
            }),
            old(self)@.bindings(namespace_id).contains_key(ident@) ==> final(self).names(namespace_id)
                == old(self).names(namespace_id),
            !old(self)@.bindings(namespace_id).contains_key(ident@) ==> final(self).names(
                namespace_id,
            ) == old(self).names(namespace_id).push(ident@),
            forall|ns: NamespaceId| ns != namespace_id ==> #[trigger] final(self).names(ns) == old(self).names(ns),
    {
        let ghost old_self = *self;
        proof {
            old_self.lemma_table_view(namespace_id);
        }
        let r = match namespace_id {
            NamespaceId::Type => insert_binding(&mut self.types, ident, target, visibility, priority),
            NamespaceId::Symbol => insert_binding(&mut self.symbols, ident, target, visibility, priority),
            NamespaceId::Macro => insert_binding(&mut self.macros, ident, target, visibility, priority),
            NamespaceId::Scope => insert_binding(&mut self.scopes, ident, target, visibility, priority),
        };
        proof {
            self.lemma_table_view(namespace_id);
            let (m, ok) = insert_outcome(
                old_self@.bindings(namespace_id),
                ident@,
                BindingView { identity: target@, visibility: visibility@, priority },
            );
            assert(self@ =~= old_self@.with_bindings(namespace_id, m));
        }
        r
    }

    /// The bindings of one namespace, in the order they were added.
    pub fn iter_by(&self, namespace_id: NamespaceId) -> (r: &[(Ident, Binding)])
        requires
            self.wf(),
        ensures
            r@.len() == self.names(namespace_id).len(),
            forall|i: int|
                0 <= i < r@.len() ==> #[trigger] r@[i].0@ == self.names(namespace_id)[i]
                    && self@.bindings(namespace_id)[self.names(namespace_id)[i]] == r@[i].1@,
            forall|k: Seq<char>| #[trigger] self@.bindings(namespace_id).contains_key(k) <==> self.names(namespace_id).contains(k),
            forall|i: int, j: int|
                0 <= i < j < r@.len() ==> #[trigger] self.names(namespace_id)[i] != #[trigger] self.names(namespace_id)[j],
    {
        let t = match namespace_id {
            NamespaceId::Type => &self.types,
            NamespaceId::Symbol => &self.symbols,
            NamespaceId::Macro => &self.macros,
            NamespaceId::Scope => &self.scopes,
        };
        proof {
            t.lemma_entries();
            self.lemma_table_view(namespace_id);
            assert forall|i: int| 0 <= i < t.entries().len() implies #[trigger] t.entries()[i].0@
                == self.names(namespace_id)[i] && self@.bindings(namespace_id)[self.names(
                namespace_id,
            )[i]] == t.entries()[i].1@ by {
                assert(t.entries()[i].0@ == t.keys()[i]);
                assert(t.map().contains_key(t.keys()[i]));
            }
        }
        t.entry_slice()
    }

    /// Get a binding in the namespace of `I`. Does NOT check inherited scopes or prelude.
    pub fn get<I: NamespaceLookup>(&self, ident: &str) -> (r: Option<&Binding>)
        requires
            self.wf(),
        ensures
            self@.bindings(I::spec_namespace_id()).contains_key(ident@) ==> r is Some && r->0@
                == self@.bindings(I::spec_namespace_id())[ident@],
            !self@.bindings(I::spec_namespace_id()).contains_key(ident@) ==> r is None,
    {
        self.get_by(I::namespace_id(), ident)
    }

    /// Insert a binding in the namespace of `I`, as `insert_by` does.
    /// Does NOT update back links!
    pub fn insert<I: NamespaceLookup>(
        &mut self,
        ident: Ident,
        target: Identity,
        visibility: Visibility,
        priority: Priority,
    ) -> (r: Result<(), ()>)
        requires
            old(self).wf(),
        ensures
            final(self).wf(),
            ({
                let (m, ok) = insert_outcome(
                    old(self)@.bindings(I::spec_namespace_id()),
                    ident@,
                    BindingView { identity: target@, visibility: visibility@, priority },
                );
                &&& final(self)@ == old(self)@.with_bindings(I::spec_namespace_id(), m)
                &&& (r is Ok) == ok
            }),
    {
        self.insert_by(I::namespace_id(), ident, target, visibility, priority)
    }

    /// The bindings in the namespace of `I`, in the order they were added.
    pub fn iter<I: NamespaceLookup>(&self) -> (r: &[(Ident, Binding)])
        requires
            self.wf(),
        ensures
            r@.len() == self.names(I::spec_namespace_id()).len(),
            forall|i: int|
                0 <= i < r@.len() ==> #[trigger] r@[i].0@ == self.names(I::spec_namespace_id())[i]
                    && self@.bindings(I::spec_namespace_id())[self.names(I::spec_namespace_id())[i]]
                    == r@[i].1@,
            forall|k: Seq<char>| #[trigger] self@.bindings(I::spec_namespace_id()).contains_key(k) <==> self.names(I::spec_namespace_id()).contains(k),
            forall|i: int, j: int|
                0 <= i < j < r@.len() ==> #[trigger] self.names(I::spec_namespace_id())[i] != #[trigger] self.names(I::spec_namespace_id())[j],
    {
        let ns = I::namespace_id();
        let r = self.iter_by(ns);
        assert(r@.len() == self.names(ns).len());
        assert forall|i: int| 0 <= i < r@.len() implies #[trigger] r@[i].0@ == self.names(ns)[i] by {}
        r
    }

    /// Add a back link. Doesn't copy any bindings! The link must not be present yet.
    pub fn add_back_link(&mut self, link: Identity, visibility: Visibility)
        requires
            forall|i: int| 0 <= i < old(self)@.links.len() ==> #[trigger] old(self)@.links[i].0 != link@,
        ensures
            final(self)@ == (ScopeView { links: old(self)@.links.push((link@, visibility@)), ..old(self)@ }),
            forall|ns: NamespaceId| #[trigger] final(self).names(ns) == old(self).names(ns),
            old(self).wf() ==> final(self).wf(),
    {
        let ghost old_self = *self;
        let ghost lv = (link@, visibility@);
        self.back_links.push((link, visibility));
        proof {
            assert(self@.links =~= old_self@.links.push(lv));
        }
    }

    /// The back links, in the order they were added.
    pub fn back_links(&self) -> (r: &[(Identity, Visibility)])
        ensures
            r@.map_values(|l: (Identity, Visibility)| (l.0@, l.1@)) == self@.links,
    {
        self.back_links.as_slice()
    }
}

} // verus!
