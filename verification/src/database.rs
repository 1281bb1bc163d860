//! The database: everything known about resolved crates.
//!
//! Paths serve two purposes here. Items are identified by their paths, but lookups while
//! resolving go through the binding tables of scopes. Every item has a binding to itself in the
//! scope where it is introduced, but may have other bindings as well.
//!
//! Enum namespaces are modelled as modules.

use crate::attributes::{Metadata, Visibility, VisibilityView};
use crate::crates::CrateData;
use crate::identities::{
    joined, root_of, test_crate_a, test_crate_b, test_crate_c, CrateId, CrateIdView, Ident,
    Identity, IdentityView,
};
use crate::items::{HasMetadata, MacroItem, SymbolItem, TypeItem};
use crate::maps::{NameTable, PathTable};
use crate::scopes::{
    empty_scope, insert_outcome, Binding, BindingView, NamespaceId, Priority, Scope, ScopeView,
};
use crate::text::{copy_strings, has_path_sep};
use vstd::prelude::*;

verus! {

/// Errors raised while building a crate.
#[derive(Debug, Clone, Copy, PartialEq, Eq, Structural)]
pub enum DatabaseError {
    /// The item is already present.
    ItemAlreadyPresent,
    /// The binding is already present.
    BindingAlreadyPresent,
    /// There is no such scope.
    NoSuchScope,
}

/// A namespace within a crate: its items, by their paths within the crate.
pub struct Namespace<I>(pub PathTable<I>);

impl<I: View> Namespace<I> {
    /// What the namespace holds: each path and the view of its item.
    pub open spec fn items(&self) -> Map<Seq<Seq<char>>, I::V> {
        self.0.map().map_values(|i: I| i@)
    }
}

impl<I> Namespace<I> {
    /// An empty namespace.
    pub fn new() -> (r: Self)
        ensures
            r.0.wf(),
            r.0.map() == Map::<Seq<Seq<char>>, I>::empty(),
    {
        Namespace(PathTable::new())
    }
}

/// What a crate holds.
pub struct CrateView {
    pub id: CrateIdView,
    pub prelude: ScopeView,
    pub extern_crates: Map<Seq<char>, CrateIdView>,
    pub types: Map<Seq<Seq<char>>, TypeItem>,
    pub symbols: Map<Seq<Seq<char>>, SymbolItem>,
    pub macros: Map<Seq<Seq<char>>, MacroItem>,
    pub scopes: Map<Seq<Seq<char>>, ScopeView>,
}

/// The kinds of items stored in a namespace of a crate.
pub trait NamespaceLookup: HasMetadata + View + Sized {
    /// The namespace these items live in.
    spec fn spec_namespace_id() -> NamespaceId;

    /// The well-formedness of one item.
    spec fn item_wf(&self) -> bool;

    /// The namespace of these items in a crate.
    spec fn spec_namespace(c: Crate) -> Namespace<Self>;

    /// A crate with the namespace of these items replaced.
    spec fn spec_with_namespace(c: Crate, n: Namespace<Self>) -> Crate;

    /// The items of this kind in a crate's view.
    spec fn spec_items(v: CrateView) -> Map<Seq<Seq<char>>, Self::V>;

    /// A crate's view with the items of this kind replaced.
    spec fn spec_with_items(v: CrateView, m: Map<Seq<Seq<char>>, Self::V>) -> CrateView;

    /// How the namespace of a crate, its replacement, and the views relate.
    proof fn lemma_namespace(c: Crate, n: Namespace<Self>)
        ensures
            Self::spec_namespace(Self::spec_with_namespace(c, n)) == n,
            Self::spec_with_namespace(c, Self::spec_namespace(c)) == c,
            Self::spec_with_namespace(c, n)@ == Self::spec_with_items(c@, n.items()),
            Self::spec_items(c@) == Self::spec_namespace(c).items(),
            c.wf() ==> Self::spec_namespace(c).0.wf(),
            c.wf() ==> forall|k: Seq<Seq<char>>| #[trigger]
                Self::spec_namespace(c).0.map().contains_key(k) ==> Self::spec_namespace(
                    c,
                ).0.map()[k].item_wf(),
            c.wf() && n.0.wf() && (forall|k: Seq<Seq<char>>| #[trigger]
                n.0.map().contains_key(k) ==> n.0.map()[k].item_wf()) ==> Self::spec_with_namespace(
                c,
                n,
            ).wf(),
            Self::spec_with_namespace(c, n).id == c.id,
            Self::spec_with_namespace(c, n).scopes == c.scopes || Self::spec_namespace_id()
                == NamespaceId::Scope,
    ;

    /// Replacing the items of this kind in a crate's view gives back those items, and changes
    /// nothing else; changing the scopes changes these items only where they are scopes.
    proof fn lemma_items_view(v: CrateView, m: Map<Seq<Seq<char>>, Self::V>, sc: Map<Seq<Seq<char>>, ScopeView>)
        ensures
            Self::spec_items(Self::spec_with_items(v, m)) == m,
            Self::spec_with_items(v, m).id == v.id,
            Self::spec_with_items(v, m).prelude == v.prelude,
            Self::spec_namespace_id() != NamespaceId::Scope ==> Self::spec_with_items(v, m).scopes == v.scopes,
            Self::spec_namespace_id() != NamespaceId::Scope ==> Self::spec_items(CrateView { scopes: sc, ..v })
                == Self::spec_items(v),
            Self::spec_namespace_id() == NamespaceId::Scope ==> Self::spec_with_items(v, m).scopes.dom() == m.dom(),
            Self::spec_namespace_id() == NamespaceId::Scope ==> Self::spec_items(CrateView { scopes: sc, ..v }).dom()
                == sc.dom(),
    ;

    /// The name of an item, by its view.
    spec fn spec_view_name(v: Self::V) -> Seq<char>;

    /// An item's view carries its name, and this namespace keeps the paths of a crate ending in
    /// their items' names where it and the other namespaces do.
    proof fn lemma_names(item: Self, v: CrateView, m: Map<Seq<Seq<char>>, Self::V>)
        ensures
            Self::spec_view_name(item@) == item.spec_metadata().name@,
            named_by_paths(v) ==> forall|k: Seq<Seq<char>>| #[trigger] Self::spec_items(v).contains_key(k) && k.len() > 0
                ==> k.last() == Self::spec_view_name(Self::spec_items(v)[k]),
            named_by_paths(v) && (forall|k: Seq<Seq<char>>| #[trigger] m.contains_key(k) && k.len() > 0
                ==> k.last() == Self::spec_view_name(m[k])) ==> named_by_paths(Self::spec_with_items(v, m)),
    ;

    /// The namespace these items live in.
    fn namespace_id() -> (r: NamespaceId)
        ensures
            r == Self::spec_namespace_id(),
    ;

    /// The namespace of these items in a crate.
    fn get_namespace(c: &Crate) -> (r: &Namespace<Self>)
        ensures
            *r == Self::spec_namespace(*c),
    ;

    /// The namespace of these items in a crate, to change it.
    fn get_namespace_mut(c: &mut Crate) -> (r: &mut Namespace<Self>)
        ensures
            *r == Self::spec_namespace(*old(c)),
            *final(c) == Self::spec_with_namespace(*old(c), *final(r)),
    ;
}

/// Every item of a crate, but its root scope, sits at a path that ends in its name.
pub open spec fn named_by_paths(v: CrateView) -> bool {
    &&& forall|k: Seq<Seq<char>>| #[trigger] v.types.contains_key(k) && k.len() > 0 ==> k.last() == v.types[k].spec_metadata().name@
    &&& forall|k: Seq<Seq<char>>| #[trigger] v.symbols.contains_key(k) && k.len() > 0 ==> k.last() == v.symbols[k].spec_metadata().name@
    &&& forall|k: Seq<Seq<char>>| #[trigger] v.macros.contains_key(k) && k.len() > 0 ==> k.last() == v.macros[k].spec_metadata().name@
    &&& forall|k: Seq<Seq<char>>| #[trigger] v.scopes.contains_key(k) && k.len() > 0 ==> k.last() == v.scopes[k].metadata.name@
}

/// A parsed and resolved crate.
pub struct Crate {
    /// The crate's id.
    pub id: CrateId,
    /// The crate prelude: it acts like a normal scope, but applies to the whole crate, and its
    /// names are not exported. It holds extern crates and macros imported with `macro_use`, as
    /// well as the names of the language prelude.
    pub prelude: Scope,
    /// Extern crate bindings, used to look up paths starting with `::`. `extern crate a as b`
    /// adds both `a` and `b`, bound to the `a` crate.
    pub extern_crate_bindings: NameTable<CrateId>,
    /// Types in the crate.
    pub types: Namespace<TypeItem>,
    /// Symbols in the crate (functions, statics, constants).
    pub symbols: Namespace<SymbolItem>,
    /// Macros in the crate.
    pub macros: Namespace<MacroItem>,
    /// All the scopes of the crate.
    pub scopes: Namespace<Scope>,
}

impl View for Crate {
    type V = CrateView;

    open spec fn view(&self) -> CrateView {
        CrateView {
            id: self.id@,
            prelude: self.prelude@,
            extern_crates: self.extern_crate_bindings.map().map_values(|c: CrateId| c@),
            types: self.types.items(),
            symbols: self.symbols.items(),
            macros: self.macros.items(),
            scopes: self.scopes.items(),
        }
    }
}

impl View for TypeItem {
    type V = TypeItem;

    open spec fn view(&self) -> TypeItem {
        *self
    }
}

impl View for SymbolItem {
    type V = SymbolItem;

    open spec fn view(&self) -> SymbolItem {
        *self
    }
}

impl View for MacroItem {
    type V = MacroItem;

    open spec fn view(&self) -> MacroItem {
        *self
    }
}

impl NamespaceLookup for TypeItem {
    open spec fn spec_namespace_id() -> NamespaceId {
        NamespaceId::Type
    }

    open spec fn item_wf(&self) -> bool {
        true
    }

    open spec fn spec_namespace(c: Crate) -> Namespace<Self> {
        c.types
    }

    open spec fn spec_with_namespace(c: Crate, n: Namespace<Self>) -> Crate {
        Crate { types: n, ..c }
    }

    open spec fn spec_items(v: CrateView) -> Map<Seq<Seq<char>>, TypeItem> {
        v.types
    }

    open spec fn spec_with_items(v: CrateView, m: Map<Seq<Seq<char>>, TypeItem>) -> CrateView {
        CrateView { types: m, ..v }
    }

    proof fn lemma_namespace(c: Crate, n: Namespace<Self>) {
    }

    proof fn lemma_items_view(v: CrateView, m: Map<Seq<Seq<char>>, Self::V>, sc: Map<Seq<Seq<char>>, ScopeView>) {
    }

    open spec fn spec_view_name(v: TypeItem) -> Seq<char> {
        v.spec_metadata().name@
    }

    proof fn lemma_names(item: Self, v: CrateView, m: Map<Seq<Seq<char>>, Self::V>) {
    }

    fn namespace_id() -> (r: NamespaceId) {
        NamespaceId::Type
    }

    fn get_namespace(c: &Crate) -> (r: &Namespace<Self>) {
        &c.types
    }

    fn get_namespace_mut(c: &mut Crate) -> (r: &mut Namespace<Self>) {
        &mut c.types
    }
}

impl NamespaceLookup for SymbolItem {
    open spec fn spec_namespace_id() -> NamespaceId {
        NamespaceId::Symbol
    }

    open spec fn item_wf(&self) -> bool {
        true
    }

    open spec fn spec_namespace(c: Crate) -> Namespace<Self> {
        c.symbols
    }

    open spec fn spec_with_namespace(c: Crate, n: Namespace<Self>) -> Crate {
        Crate { symbols: n, ..c }
    }

    open spec fn spec_items(v: CrateView) -> Map<Seq<Seq<char>>, SymbolItem> {
        v.symbols
    }

    open spec fn spec_with_items(v: CrateView, m: Map<Seq<Seq<char>>, SymbolItem>) -> CrateView {
        CrateView { symbols: m, ..v }
    }

    proof fn lemma_namespace(c: Crate, n: Namespace<Self>) {
    }

    proof fn lemma_items_view(v: CrateView, m: Map<Seq<Seq<char>>, Self::V>, sc: Map<Seq<Seq<char>>, ScopeView>) {
    }

    open spec fn spec_view_name(v: SymbolItem) -> Seq<char> {
        v.spec_metadata().name@
    }

    proof fn lemma_names(item: Self, v: CrateView, m: Map<Seq<Seq<char>>, Self::V>) {
    }

    fn namespace_id() -> (r: NamespaceId) {
        NamespaceId::Symbol
    }

    fn get_namespace(c: &Crate) -> (r: &Namespace<Self>) {
        &c.symbols
    }

    fn get_namespace_mut(c: &mut Crate) -> (r: &mut Namespace<Self>) {
        &mut c.symbols
    }
}

impl NamespaceLookup for MacroItem {
    open spec fn spec_namespace_id() -> NamespaceId {
        NamespaceId::Macro
    }

    open spec fn item_wf(&self) -> bool {
        true
    }

    open spec fn spec_namespace(c: Crate) -> Namespace<Self> {
        c.macros
    }

    open spec fn spec_with_namespace(c: Crate, n: Namespace<Self>) -> Crate {
        Crate { macros: n, ..c }
    }

    open spec fn spec_items(v: CrateView) -> Map<Seq<Seq<char>>, MacroItem> {
        v.macros
    }

    open spec fn spec_with_items(v: CrateView, m: Map<Seq<Seq<char>>, MacroItem>) -> CrateView {
        CrateView { macros: m, ..v }
    }

    proof fn lemma_namespace(c: Crate, n: Namespace<Self>) {
    }

    proof fn lemma_items_view(v: CrateView, m: Map<Seq<Seq<char>>, Self::V>, sc: Map<Seq<Seq<char>>, ScopeView>) {
    }

    open spec fn spec_view_name(v: MacroItem) -> Seq<char> {
        v.spec_metadata().name@
    }

    proof fn lemma_names(item: Self, v: CrateView, m: Map<Seq<Seq<char>>, Self::V>) {
    }

    fn namespace_id() -> (r: NamespaceId) {
        NamespaceId::Macro
    }

    fn get_namespace(c: &Crate) -> (r: &Namespace<Self>) {
        &c.macros
    }

    fn get_namespace_mut(c: &mut Crate) -> (r: &mut Namespace<Self>) {
        &mut c.macros
    }
}

impl NamespaceLookup for Scope {
    open spec fn spec_namespace_id() -> NamespaceId {
        NamespaceId::Scope
    }

    open spec fn item_wf(&self) -> bool {
        self.wf()
    }

    open spec fn spec_namespace(c: Crate) -> Namespace<Self> {
        c.scopes
    }

    open spec fn spec_with_namespace(c: Crate, n: Namespace<Self>) -> Crate {
        Crate { scopes: n, ..c }
    }

    open spec fn spec_items(v: CrateView) -> Map<Seq<Seq<char>>, ScopeView> {
        v.scopes
    }

    open spec fn spec_with_items(v: CrateView, m: Map<Seq<Seq<char>>, ScopeView>) -> CrateView {
        CrateView { scopes: m, ..v }
    }

    proof fn lemma_namespace(c: Crate, n: Namespace<Self>) {
    }

    proof fn lemma_items_view(v: CrateView, m: Map<Seq<Seq<char>>, Self::V>, sc: Map<Seq<Seq<char>>, ScopeView>) {
    }

    open spec fn spec_view_name(v: ScopeView) -> Seq<char> {
        v.metadata.name@
    }

    proof fn lemma_names(item: Self, v: CrateView, m: Map<Seq<Seq<char>>, Self::V>) {
    }

    fn namespace_id() -> (r: NamespaceId) {
        NamespaceId::Scope
    }

    fn get_namespace(c: &Crate) -> (r: &Namespace<Self>) {
        &c.scopes
    }

    fn get_namespace_mut(c: &mut Crate) -> (r: &mut Namespace<Self>) {
        &mut c.scopes
    }
}

/// The binding that a lookup of `name` in namespace `ns` from the scope at `scope` finds: the
/// scope's own binding, else the prelude's; nothing where there is no such scope.
pub open spec fn lookup_binding(
    v: CrateView,
    scope: Seq<Seq<char>>,
    ns: NamespaceId,
    name: Seq<char>,
) -> Option<BindingView> {
    if !v.scopes.contains_key(scope) {
        None
    } else if v.scopes[scope].bindings(ns).contains_key(name) {
        Some(v.scopes[scope].bindings(ns)[name])
    } else if v.prelude.bindings(ns).contains_key(name) {
        Some(v.prelude.bindings(ns)[name])
    } else {
        None
    }
}

/// The crate, and the outcome, after adding binding `b` for `name` in namespace `ns` to the
/// scope at `scope`.
pub open spec fn binding_added(
    v: CrateView,
    scope: Seq<Seq<char>>,
    ns: NamespaceId,
    name: Seq<char>,
    b: BindingView,
) -> (CrateView, Result<(), DatabaseError>) {
    if !v.scopes.contains_key(scope) {
        (v, Err(DatabaseError::NoSuchScope))
    } else {
        let (m, ok) = insert_outcome(v.scopes[scope].bindings(ns), name, b);
        (
            CrateView {
                scopes: v.scopes.insert(scope, v.scopes[scope].with_bindings(ns, m)),
                ..v
            },
            if ok {
                Ok(())
            } else {
                Err(DatabaseError::BindingAlreadyPresent)
            },
        )
    }
}

/// The crate, and the outcome, after adding `item` to the scope `scope`: the item is stored at
/// the scope's path followed by its name, and an explicit binding to it is added to the scope.
pub open spec fn item_added<I: NamespaceLookup>(
    v: CrateView,
    scope: IdentityView,
    item: I,
) -> (CrateView, Result<IdentityView, DatabaseError>) {
    let name = item.spec_metadata().name@;
    let id = joined(scope, name);
    let items = I::spec_items(v);
    if items.contains_key(id.path) {
        (v, Err(DatabaseError::ItemAlreadyPresent))
    } else {
        let v1 = I::spec_with_items(v, items.insert(id.path, item@));
        let (v2, res) = binding_added(
            v1,
            scope.path,
            I::spec_namespace_id(),
            name,
            BindingView {
                identity: id,
                visibility: item.spec_metadata().visibility@,
                priority: Priority::Explicit,
            },
        );
        (
            v2,
            match res {
                Ok(_) => Ok(id),
                Err(e) => Err(e),
            },
        )
    }
}

/// The result of an operation that gives back an identity, by its view.
pub open spec fn identity_result(r: Result<Identity, DatabaseError>) -> Result<
    IdentityView,
    DatabaseError,
> {
    match r {
        Ok(id) => Ok(id@),
        Err(e) => Err(e),
    }
}

impl Crate {
    /// All tables are well formed, and so is every scope.
    pub open spec fn wf(&self) -> bool {
        &&& self.prelude.wf()
        &&& self.extern_crate_bindings.wf()
        &&& self.types.0.wf()
        &&& self.symbols.0.wf()
        &&& self.macros.0.wf()
        &&& self.scopes.0.wf()
        &&& forall|k: Seq<Seq<char>>| #[trigger]
            self.scopes.0.map().contains_key(k) ==> self.scopes.0.map()[k].wf()
    }

    /// Create an empty crate.
    pub fn new(id: CrateId) -> (r: Crate)
        ensures
            r.wf(),
            r@.id == id@,
            r@.prelude.bindings(NamespaceId::Type) == Map::<Seq<char>, BindingView>::empty(),
            r@.prelude == empty_scope(r@.prelude.metadata, false),
            r@.prelude.metadata.name@ == "{prelude}"@,
            r@.extern_crates == Map::<Seq<char>, CrateIdView>::empty(),
            r@.types == Map::<Seq<Seq<char>>, TypeItem>::empty(),
            r@.symbols == Map::<Seq<Seq<char>>, SymbolItem>::empty(),
            r@.macros == Map::<Seq<Seq<char>>, MacroItem>::empty(),
            r@.scopes == Map::<Seq<Seq<char>>, ScopeView>::empty(),
            named_by_paths(r@),
    {
        let r = Crate {
            id,
            extern_crate_bindings: NameTable::new(),
            prelude: Scope::new(Metadata::fake("{prelude}"), false),
            types: Namespace::new(),
            symbols: Namespace::new(),
            macros: Namespace::new(),
            scopes: Namespace::new(),
        };
        proof {
            assert(r@.extern_crates =~= Map::<Seq<char>, CrateIdView>::empty());
        }
        r
    }

    /// Look up an identity in a namespace (NOT a binding). The identity must be in this crate.
    pub fn get<I: NamespaceLookup>(&self, identity: &Identity) -> (r: Option<&I>)
        requires
            self.wf(),
            identity@.crate_ == self@.id,
        ensures
            I::spec_items(self@).contains_key(identity@.path) ==> r is Some && r->0@
                == I::spec_items(self@)[identity@.path],
            !I::spec_items(self@).contains_key(identity@.path) ==> r is None,
            r is Some ==> r->0.item_wf(),
    {
        proof {
            I::lemma_namespace(*self, I::spec_namespace(*self));
        }
        I::get_namespace(self).0.get(&identity.path)
    }

    /// Look up a binding in a scope, then in the prelude. Does not check visibilities.
    pub fn get_binding<I: NamespaceLookup>(&self, containing_scope: &Identity, name: &str) -> (r:
        Option<&Binding>)
        requires
            self.wf(),
            containing_scope@.crate_ == self@.id,
        ensures
            match lookup_binding(self@, containing_scope@.path, I::spec_namespace_id(), name@) {
                Some(b) => r is Some && r->0@ == b,
                None => r is None,
            },
    {
        self.get_binding_by(containing_scope, I::namespace_id(), name)
    }

    /// Look up a binding in a scope, then in the prelude. Does not check visibilities.
    pub fn get_binding_by(
        &self,
        containing_scope: &Identity,
        namespace_id: NamespaceId,
        name: &str,
    ) -> (r: Option<&Binding>)
        requires
            self.wf(),
            containing_scope@.crate_ == self@.id,
        ensures
            match lookup_binding(self@, containing_scope@.path, namespace_id, name@) {
                Some(b) => r is Some && r->0@ == b,
                None => r is None,
            },
    {
        let scope = match self.get::<Scope>(containing_scope) {
            Some(scope) => scope,
            None => return None,
        };
        proof {
            assert(self.scopes.0.map().contains_key(containing_scope@.path));
        }
        if let Some(b) = scope.get_by(namespace_id, name) {
            return Some(b);
        }
        if let Some(b) = self.prelude.get_by(namespace_id, name) {
            return Some(b);
        }
        None
    }

    /// Add an item to the crate, at `{containing_scope}::{item name}`, and an explicit binding
    /// to it in the containing scope, which must be in this crate.
    pub fn add<I: NamespaceLookup>(&mut self, containing_scope: &Identity, item: I) -> (r: Result<
        Identity,
        DatabaseError,
    >)
        requires
            old(self).wf(),
            containing_scope@.crate_ == old(self)@.id,
            item.item_wf(),
            !has_path_sep(item.spec_metadata().name@),
        ensures
            final(self).wf(),
            (final(self)@, identity_result(r)) == item_added(old(self)@, containing_scope@, item),
    {
        let ghost old_self = *self;
        let ghost item_view = item@;
        let ghost item_meta = item.spec_metadata();
        let name = item.metadata().name.clone();
        let visibility = item.metadata().visibility.dup();
        let identity = containing_scope.clone_join(name.clone());
        let ns = I::get_namespace_mut(self);
        proof {
            I::lemma_namespace(old_self, I::spec_namespace(old_self));
        }
        if ns.0.contains_key(&identity.path) {
            proof {
                I::lemma_namespace(old_self, I::spec_namespace(old_self));
            }
            return Err(DatabaseError::ItemAlreadyPresent);
        }
        let ghost ns0 = *ns;
        ns.0.insert_new(copy_strings(&identity.path), item);
        proof {
            assert(ns.items() =~= ns0.items().insert(identity@.path, item_view));
            I::lemma_namespace(old_self, *ns);
        }
        let ghost mid = *self;
        let result = self.add_binding_by(
            containing_scope,
            I::namespace_id(),
            name,
            identity.dup(),
            visibility,
            Priority::Explicit,
        );
        match result {
            Ok(()) => Ok(identity),
            Err(e) => Err(e),
        }
    }

    /// Add the root scope of the crate. Its metadata must be named `{root}`.
    pub fn add_root_scope(&mut self, metadata: Metadata) -> (r: Result<Identity, DatabaseError>)
        requires
            old(self).wf(),
            metadata.name@ == "{root}"@,
        ensures
            final(self).wf(),
            old(self)@.scopes.contains_key(Seq::empty()) ==> r == Err::<Identity, DatabaseError>(
                DatabaseError::ItemAlreadyPresent,
            ) && final(self)@ == old(self)@,
            !old(self)@.scopes.contains_key(Seq::empty()) ==> r is Ok && r->Ok_0@ == root_of(
                old(self)@.id,
            ) && final(self)@ == (CrateView {
                scopes: old(self)@.scopes.insert(Seq::empty(), empty_scope(metadata, true)),
                ..old(self)@
            }),
    {
        let ghost old_self = *self;
        let item = Scope::new(metadata, true);
        let root: Vec<Ident> = Vec::new();
        proof {
            assert(root.deep_view() =~= Seq::<Seq<char>>::empty());
        }
        if self.scopes.0.contains_key(&root) {
            return Err(DatabaseError::ItemAlreadyPresent);
        }
        self.scopes.0.insert_new(root, item);
        proof {
            assert(self.scopes.items() =~= old_self.scopes.items().insert(
                Seq::empty(),
                empty_scope(metadata, true),
            ));
        }
        Ok(Identity::root(&self.id))
    }

    /// Add a binding to a scope of this crate. The target may be in any crate.
    pub fn add_binding<I: NamespaceLookup>(
        &mut self,
        containing_scope: &Identity,
        name: Ident,
        target: Identity,
        visibility: Visibility,
        priority: Priority,
    ) -> (r: Result<(), DatabaseError>)
        requires
            old(self).wf(),
            containing_scope@.crate_ == old(self)@.id,
        ensures
            final(self).wf(),
            (final(self)@, r) == binding_added(
                old(self)@,
                containing_scope@.path,
                I::spec_namespace_id(),
                name@,
                BindingView { identity: target@, visibility: visibility@, priority },
            ),
    {
        self.add_binding_by(containing_scope, I::namespace_id(), name, target, visibility, priority)
    }

    /// Add a binding to a scope of this crate. The target may be in any crate.
    pub fn add_binding_by(
        &mut self,
        containing_scope: &Identity,
        namespace_id: NamespaceId,
        name: Ident,
        target: Identity,
        visibility: Visibility,
        priority: Priority,
    ) -> (r: Result<(), DatabaseError>)
        requires
            old(self).wf(),
            containing_scope@.crate_ == old(self)@.id,
        ensures
            final(self).wf(),
            (final(self)@, r) == binding_added(
                old(self)@,
                containing_scope@.path,
                namespace_id,
                name@,
                BindingView { identity: target@, visibility: visibility@, priority },
            ),
    {
        let ghost old_self = *self;
        let ghost b = BindingView { identity: target@, visibility: visibility@, priority };
        let i = match self.scopes.0.position(&containing_scope.path) {
            Some(i) => i,
            None => return Err(DatabaseError::NoSuchScope),
        };
        let ghost key = self.scopes.0.keys()[i as int];
        let scope = self.scopes.0.value_mut(i);
        let res = scope.insert_by(namespace_id, name, target, visibility, priority);
        proof {
            let (m, ok) = insert_outcome(
                old_self@.scopes[key].bindings(namespace_id),
                name@,
                b,
            );
            assert(self.scopes.items() =~= old_self.scopes.items().insert(
                key,
                old_self@.scopes[key].with_bindings(namespace_id, m),
            ));
            assert forall|k: Seq<Seq<char>>| #[trigger]
                self.scopes.0.map().contains_key(k) implies self.scopes.0.map()[k].item_wf() by {
                if k != key {
                    assert(old_self.scopes.0.map().contains_key(k));
                }
            }
        }
        match res {
            Ok(()) => Ok(()),
            Err(()) => Err(DatabaseError::BindingAlreadyPresent),
        }
    }

    /// Add a binding to the prelude, visible throughout the crate.
    pub fn add_prelude_binding_by(
        &mut self,
        namespace_id: NamespaceId,
        name: Ident,
        target: Identity,
    ) -> (r: Result<(), DatabaseError>)
        requires
            old(self).wf(),
        ensures
            final(self).wf(),
            ({
                let (m, ok) = insert_outcome(
                    old(self)@.prelude.bindings(namespace_id),
                    name@,
                    BindingView {
                        identity: target@,
                        visibility: VisibilityView::InScope(root_of(old(self)@.id)),
                        priority: Priority::Explicit,
                    },
                );
                &&& final(self)@ == (CrateView {
                    prelude: old(self)@.prelude.with_bindings(namespace_id, m),
                    ..old(self)@
                })
                &&& (r is Ok) == ok
                &&& r is Err ==> r == Err::<(), DatabaseError>(DatabaseError::BindingAlreadyPresent)
            }),
    {
        let visibility = Visibility::InScope(Identity::root(&self.id));
        match self.prelude.insert_by(namespace_id, name, target, visibility, Priority::Explicit) {
            Ok(()) => Ok(()),
            Err(()) => Err(DatabaseError::BindingAlreadyPresent),
        }
    }
}

/// The key under which a crate is stored in the database: its name and its version.
pub open spec fn crate_key(id: CrateIdView) -> Seq<Seq<char>> {
    seq![id.name, id.version]
}

/// What the database holds: the data of each registered crate, and each crate lowered so far.
pub struct DbView {
    pub data: Map<Seq<Seq<char>>, CrateData>,
    pub crates: Map<Seq<Seq<char>>, Option<CrateView>>,
}

/// The view of a crate slot.
pub open spec fn slot_view(slot: Option<Crate>) -> Option<CrateView> {
    match slot {
        Some(c) => Some(c@),
        None => None,
    }
}

/// The data of a list of crates, keyed by crate; a later entry for a crate replaces an earlier
/// one.
pub open spec fn data_map(s: Seq<CrateData>) -> Map<Seq<Seq<char>>, CrateData>
    decreases s.len(),
{
    if s.len() == 0 {
        Map::empty()
    } else {
        data_map(s.drop_last()).insert(crate_key(s.last().id@), s.last())
    }
}

/// A database of everything: all declarations in a crate and its dependencies.
///
/// The crates form a DAG known ahead of time: the data of every crate is registered when the
/// database is made, and each crate is stored once it has been completely parsed and lowered.
pub struct Db {
    /// Crate data, frozen at the start of the process.
    crate_data: PathTable<CrateData>,
    /// Lowered crates, one slot per registered crate.
    crates: PathTable<Option<Crate>>,
}

impl View for Db {
    type V = DbView;

    closed spec fn view(&self) -> DbView {
        DbView {
            data: self.crate_data.map(),
            crates: self.crates.map().map_values(|slot: Option<Crate>| slot_view(slot)),
        }
    }
}

/// The key of a crate, as a list of strings.
fn key_of(id: &CrateId) -> (r: Vec<String>)
    ensures
        r.deep_view() == crate_key(id@),
{
    let r = vec![id.name.clone(), id.version.clone()];
    proof {
        assert(r.deep_view() =~= crate_key(id@));
    }
    r
}

impl Db {
    /// Every registered crate has one slot; every stored datum and crate sits under its own key,
    /// and every stored crate is well formed.
    pub closed spec fn wf(&self) -> bool {
        &&& self.crate_data.wf()
        &&& self.crates.wf()
        &&& forall|k: Seq<Seq<char>>| #[trigger]
            self.crate_data.map().contains_key(k) <==> self.crates.map().contains_key(k)
        &&& forall|k: Seq<Seq<char>>| #[trigger]
            self.crate_data.map().contains_key(k) ==> crate_key(self.crate_data.map()[k].id@) == k
        &&& forall|k: Seq<Seq<char>>| #[trigger]
            self.crates.map().contains_key(k) && self.crates.map()[k] is Some ==> crate_key(
                self.crates.map()[k]->Some_0.id@,
            ) == k && self.crates.map()[k]->Some_0.wf()
    }

    /// Create a database of the given crates, none of them lowered yet.
    pub fn new(crate_data: Vec<CrateData>) -> (r: Db)
        ensures
            r.wf(),
            r@.data == data_map(crate_data@),
            r@.crates == data_map(crate_data@).map_values(|d: CrateData| None::<CrateView>),
    {
        let ghost all = crate_data@;
        let mut data: PathTable<CrateData> = PathTable::new();
        let mut crates: PathTable<Option<Crate>> = PathTable::new();
        let mut rest = crate_data;
        let ghost n = all.len();
        proof {
            assert(rest@.len() == n);
            assert(data.map() =~= data_map(all.take(0)));
        }
        while rest.len() > 0
            invariant
                n == all.len(),
                rest@.len() <= n,
                rest@ == all.skip(n - rest@.len()),
                data.wf(),
                crates.wf(),
                data.map() == data_map(all.take(n - rest@.len())),
                forall|k: Seq<Seq<char>>| #[trigger]
                    data.map().contains_key(k) <==> crates.map().contains_key(k),
                forall|k: Seq<Seq<char>>| #[trigger]
                    crates.map().contains_key(k) ==> crates.map()[k] is None,
                forall|k: Seq<Seq<char>>| #[trigger]
                    data.map().contains_key(k) ==> crate_key(data.map()[k].id@) == k,
            decreases rest@.len(),
        {
            let ghost i = n - rest@.len();
            let d = rest.remove(0);
            proof {
                assert(rest@ =~= all.skip(n - rest@.len()));
                assert(d == all[i]);
                assert(all.take(i + 1).drop_last() =~= all.take(i));
                assert(all.take(i + 1).last() == all[i]);
            }
            let key = key_of(&d.id);
            if data.contains_key(&key) {
                data.replace(&key, d);
            } else {
                let key2 = copy_strings(&key);
                data.insert_new(key, d);
                crates.insert_new(key2, None);
            }
        }
        proof {
            assert(all.take(n as int) =~= all);
        }
        let r = Db { crate_data: data, crates };
        proof {
            assert(r@.crates =~= data_map(all).map_values(|d: CrateData| None::<CrateView>));
        }
        r
    }

    /// A database holding the three test crates, none of them lowered.
    pub fn fake_db() -> (r: Db)
        ensures
            r.wf(),
            r@.data.contains_key(seq!["test_crate_a"@, "0.0.0"@]),
            r@.data.contains_key(seq!["test_crate_b"@, "0.0.0"@]),
            r@.data.contains_key(seq!["test_crate_c"@, "0.0.0"@]),
            forall|k: Seq<Seq<char>>| #[trigger] r@.crates.contains_key(k) ==> r@.crates[k] is None,
    {
        let a = CrateData::fake(test_crate_a());
        let b = CrateData::fake(test_crate_b());
        let c = CrateData::fake(test_crate_c());
        let v = vec![a, b, c];
        let ghost s = v@;
        let r = Db::new(v);
        proof {
            let s1 = s.drop_last().drop_last();
            let s2 = s.drop_last();
            assert(s1.drop_last() =~= Seq::<CrateData>::empty());
            assert(s1.last() == s[0]);
            assert(s2.last() == s[1]);
            assert(data_map(s1).contains_key(crate_key(s[0].id@)));
            assert(data_map(s2).contains_key(crate_key(s[0].id@)));
            assert(data_map(s2).contains_key(crate_key(s[1].id@)));
        }
        r
    }

    /// The data of a registered crate.
    pub fn crate_data(&self, id: &CrateId) -> (r: &CrateData)
        requires
            self.wf(),
            self@.data.contains_key(crate_key(id@)),
        ensures
            *r == self@.data[crate_key(id@)],
    {
        let key = key_of(id);
        self.crate_data.get(&key).unwrap()
    }

    /// A lowered crate. It must have been stored already.
    pub fn get_crate(&self, id: &CrateId) -> (r: &Crate)
        requires
            self.wf(),
            self@.crates.contains_key(crate_key(id@)),
            self@.crates[crate_key(id@)] is Some,
        ensures
            Some(r@) == self@.crates[crate_key(id@)],
            r.wf(),
            r@.id == id@,
    {
        let key = key_of(id);
        let slot = self.crates.get(&key).unwrap();
        proof {
            assert(self.crates.map().contains_key(key.deep_view()));
            assert(crate_key(slot->Some_0.id@) == crate_key(id@));
            assert(crate_key(id@)[0] == id@.name);
            assert(crate_key(id@)[1] == id@.version);
        }
        slot.as_ref().unwrap()
    }

    /// Store a lowered crate. It must be registered and not stored yet.
    pub fn insert_crate(&mut self, crate_: Crate)
        requires
            old(self).wf(),
            crate_.wf(),
            old(self)@.crates.contains_key(crate_key(crate_@.id)),
            old(self)@.crates[crate_key(crate_@.id)] is None,
        ensures
            final(self).wf(),
            final(self)@ == (DbView {
                crates: old(self)@.crates.insert(crate_key(crate_@.id), Some(crate_@)),
                ..old(self)@
            }),
    {
        let ghost old_self = *self;
        let ghost cv = crate_@;
        let key = key_of(&crate_.id);
        self.crates.replace(&key, Some(crate_));
        proof {
            assert(self@.crates =~= old_self@.crates.insert(crate_key(cv.id), Some(cv)));
        }
    }
}

} // verus!
