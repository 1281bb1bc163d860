//! Properties of the library that span several operations.

use crate::attributes::{visible_in, VisibilityView};
use crate::database::{binding_added, item_added, lookup_binding, named_by_paths, CrateView, DatabaseError, NamespaceLookup};
use crate::identities::{joined, IdentityView};
use crate::scopes::{insert_outcome, BindingView, NamespaceId, Priority, ScopeView};
use crate::rustdoc::{
    first_unvisited, has_prefix, lemma_first_unvisited, nightly_docs, replaced, url_path_result, WorkItemView,
};
use crate::tokens::{lemma_respaced_kinds, respaced, respaced_token, TokenView};
use crate::attributes::{Meta, MetaInner, Tokens, syn_lit_str_value};
use crate::backoff::next_wait;
use crate::identities::root_of;
use crate::lower::{all_cfg_hold, any_cfg_holds, arg_holds, cfg_holds, has_literal, is_literal, lemma_cfg_folds, path_ident};
use crate::paths::UnresolvedPath;
use crate::resolve::{crate_for, found_binding, resolution, Resolution, ResolveError};
use crate::database::DbView;
use crate::expand::binding_at;
use crate::lower::{simple_path, type_folded};
use crate::attributes::{Attribute, Repr};
use crate::rustdoc::page_path_text;
use vstd::prelude::*;
use vstd::string::*;

verus! {

/// After an item is added to a scope, the crate holds it at the scope's path followed by its
/// name, and a lookup of the name from that scope finds an explicit binding to it, with the
/// item's visibility.
pub proof fn law_added_item_is_found<I: NamespaceLookup>(
    before: CrateView,
    scope: IdentityView,
    item: I,
    after: CrateView,
    id: IdentityView,
)
    requires
        item_added(before, scope, item) == (after, Ok::<IdentityView, DatabaseError>(id)),
    ensures
        id == joined(scope, item.spec_metadata().name@),
        I::spec_items(after).contains_key(id.path),
        I::spec_items(after)[id.path] == item@ || I::spec_namespace_id() == NamespaceId::Scope,
        lookup_binding(after, scope.path, I::spec_namespace_id(), item.spec_metadata().name@) == Some(
            BindingView {
                identity: id,
                visibility: item.spec_metadata().visibility@,
                priority: Priority::Explicit,
            },
        ),
{
    let name = item.spec_metadata().name@;
    let items = I::spec_items(before);
    let m = items.insert(joined(scope, name).path, item@);
    let v1 = I::spec_with_items(before, m);
    I::lemma_items_view(before, m, before.scopes);
    let b = BindingView {
        identity: joined(scope, name),
        visibility: item.spec_metadata().visibility@,
        priority: Priority::Explicit,
    };
    let (v2, res) = binding_added(v1, scope.path, I::spec_namespace_id(), name, b);
    assert(v1.scopes.contains_key(scope.path));
    let (mm, ok) = insert_outcome(v1.scopes[scope.path].bindings(I::spec_namespace_id()), name, b);
    I::lemma_items_view(v1, m, v2.scopes);
    assert(v2 == (CrateView { scopes: v2.scopes, ..v1 }));
    if I::spec_namespace_id() == NamespaceId::Scope {
        assert(joined(scope, name).path.len() != scope.path.len());
    }
}

/// Adding a binding to a scope keeps every item of the crate, but its root scope, at a path
/// that ends in the item's name.
pub proof fn law_bindings_keep_items_named(
    v: CrateView,
    scope: Seq<Seq<char>>,
    ns: NamespaceId,
    name: Seq<char>,
    b: BindingView,
)
    requires
        named_by_paths(v),
    ensures
        named_by_paths(binding_added(v, scope, ns, name, b).0),
{
    let after = binding_added(v, scope, ns, name, b).0;
    assert forall|k: Seq<Seq<char>>| #[trigger] after.scopes.contains_key(k) && k.len() > 0 implies k.last()
        == after.scopes[k].metadata.name@ by {
        assert(v.scopes.contains_key(k));
    }
}

/// Adding an item to a scope keeps every item of the crate, but its root scope, at a path that
/// ends in the item's name: the new item sits at the scope's path followed by its name.
pub proof fn law_items_stay_named<I: NamespaceLookup>(v: CrateView, scope: IdentityView, item: I)
    requires
        named_by_paths(v),
    ensures
        named_by_paths(item_added(v, scope, item).0),
{
    let name = item.spec_metadata().name@;
    let id = joined(scope, name);
    let items = I::spec_items(v);
    if !items.contains_key(id.path) {
        let m = items.insert(id.path, item@);
        I::lemma_names(item, v, m);
        assert forall|k: Seq<Seq<char>>| #[trigger] m.contains_key(k) && k.len() > 0 implies k.last()
            == I::spec_view_name(m[k]) by {
            if k != id.path {
                assert(items.contains_key(k));
            }
        }
        let v1 = I::spec_with_items(v, m);
        law_bindings_keep_items_named(
            v1,
            scope.path,
            I::spec_namespace_id(),
            name,
            BindingView { identity: id, visibility: item.spec_metadata().visibility@, priority: Priority::Explicit },
        );
    }
}

/// Adding the root scope, at the empty path, keeps every other item at a path that ends in its
/// name.
pub proof fn law_root_scope_keeps_items_named(v: CrateView, root: ScopeView)
    requires
        named_by_paths(v),
    ensures
        named_by_paths(CrateView { scopes: v.scopes.insert(Seq::empty(), root), ..v }),
{
    let after = CrateView { scopes: v.scopes.insert(Seq::empty(), root), ..v };
    assert forall|k: Seq<Seq<char>>| #[trigger] after.scopes.contains_key(k) && k.len() > 0 implies k.last()
        == after.scopes[k].metadata.name@ by {
        assert(k != Seq::<Seq<char>>::empty());
        assert(v.scopes.contains_key(k));
    }
}

/// After a binding is added to a scope, a lookup of its name from that scope finds it.
pub proof fn law_added_binding_is_found(
    before: CrateView,
    scope: Seq<Seq<char>>,
    ns: NamespaceId,
    name: Seq<char>,
    b: BindingView,
    after: CrateView,
)
    requires
        binding_added(before, scope, ns, name, b) == (after, Ok::<(), DatabaseError>(())),
    ensures
        lookup_binding(after, scope, ns, name) == Some(
            if before.scopes[scope].bindings(ns).contains_key(name) {
                before.scopes[scope].bindings(ns)[name]
            } else {
                b
            },
        ),
{
}

/// A refused binding leaves the crate as it was.
pub proof fn law_refused_binding_changes_nothing(
    before: CrateView,
    scope: Seq<Seq<char>>,
    ns: NamespaceId,
    name: Seq<char>,
    b: BindingView,
)
    requires
        binding_added(before, scope, ns, name, b).1 is Err,
    ensures
        binding_added(before, scope, ns, name, b).0 == before,
{
    if before.scopes.contains_key(scope) {
        let s = before.scopes[scope];
        match ns {
            NamespaceId::Type => assert(s.with_bindings(ns, s.bindings(ns)) == s),
            NamespaceId::Symbol => assert(s.with_bindings(ns, s.bindings(ns)) == s),
            NamespaceId::Macro => assert(s.with_bindings(ns, s.bindings(ns)) == s),
            NamespaceId::Scope => assert(s.with_bindings(ns, s.bindings(ns)) == s),
        }
        assert(before.scopes.insert(scope, s) =~= before.scopes);
    }
}

/// A binding already there is never replaced, explicit or glob, and inserting another binding
/// for its name fails.
pub proof fn law_bindings_are_never_replaced(
    m: Map<Seq<char>, BindingView>,
    name: Seq<char>,
    b: BindingView,
)
    requires
        m.contains_key(name),
    ensures
        insert_outcome(m, name, b).0 == m,
        !insert_outcome(m, name, b).1,
{
}

/// What is visible in a scope is visible in every scope nested in it.
pub proof fn law_visibility_inherited(v: VisibilityView, scope: IdentityView, seg: Seq<char>)
    requires
        visible_in(v, scope),
    ensures
        visible_in(v, joined(scope, seg)),
{
    if let VisibilityView::InScope(mine) = v {
        let inner = joined(scope, seg);
        assert(inner.path.take(mine.path.len() as int) =~= scope.path.take(mine.path.len() as int));
    }
}

/// A public item is visible everywhere, and an item visible in a scope is visible there.
pub proof fn law_visibility_basics(scope: IdentityView)
    ensures
        visible_in(VisibilityView::Pub, scope),
        visible_in(VisibilityView::InScope(scope), scope),
{
    assert(scope.path.take(scope.path.len() as int) =~= scope.path);
}

/// The parent of an identity joined with a segment is the identity itself.
pub proof fn law_parent_of_join(id: IdentityView, seg: Seq<char>)
    ensures
        joined(id, seg).path.len() > 0,
        (IdentityView { crate_: joined(id, seg).crate_, path: joined(id, seg).path.drop_last() }) == id,
{
    assert(joined(id, seg).path.drop_last() =~= id.path);
}

/// A rustdoc link relative to the documentation (`../`) and the same link into the nightly
/// standard library documentation point to the same path.
pub proof fn law_relative_and_nightly_links_agree(body: Seq<char>)
    ensures
        url_path_result("../"@ + body) == url_path_result(nightly_docs() + body),
{
    reveal_strlit("../");
    reveal_strlit("https://doc.rust-lang.org/nightly/");
    let rel = "../"@ + body;
    let abs = nightly_docs() + body;
    assert(has_prefix(rel, "../"@)) by {
        assert(rel.take(3) =~= "../"@);
    }
    assert(rel.skip(3) =~= body);
    assert(!has_prefix(abs, "../"@)) by {
        assert(abs[0] == 'h');
        if has_prefix(abs, "../"@) {
            assert(abs.take(3)[0] == '.');
        }
    }
    assert(has_prefix(abs, nightly_docs())) by {
        assert(abs.take(nightly_docs().len() as int) =~= nightly_docs());
    }
    assert(abs.skip(nightly_docs().len() as int) =~= body);
}

/// The crate name made from a package name holds no `-`.
pub proof fn law_module_names_have_no_dashes(name: Seq<char>)
    ensures
        !replaced(name, '-', seq!['_']).contains('-'),
    decreases name.len(),
{
    if name.len() > 0 {
        law_module_names_have_no_dashes(name.drop_last());
        let before = replaced(name.drop_last(), '-', seq!['_']);
        let after = replaced(name, '-', seq!['_']);
        if after.contains('-') {
            let i = choose|i: int| 0 <= i < after.len() && after[i] == '-';
            if i < before.len() {
                assert(after[i] == before[i]);
            }
        }
    }
}

/// A scrape hands out a page only where it has not been read before.
pub proof fn law_pages_are_read_once(queue: Seq<WorkItemView>, visited: Seq<WorkItemView>)
    ensures
        first_unvisited(queue, visited) < queue.len() ==> !visited.contains(
            queue[first_unvisited(queue, visited)],
        ),
        forall|j: int| 0 <= j < first_unvisited(queue, visited) ==> visited.contains(#[trigger] queue[j]),
{
    lemma_first_unvisited(queue, visited);
}

/// Respacing token trees a second time changes nothing.
pub proof fn law_respacing_is_idempotent(ts: Seq<TokenView>)
    ensures
        respaced(respaced(ts)) == respaced(ts),
    decreases ts,
{
    lemma_respaced_kinds(ts);
    if ts.len() > 0 {
        law_respacing_token_is_idempotent(ts[0], ts.len() > 1 && ts[1] is Punct);
        law_respacing_is_idempotent(ts.drop_first());
        let r = respaced(ts);
        assert(r[0] == respaced_token(ts[0], ts.len() > 1 && ts[1] is Punct));
        assert(r.drop_first() =~= respaced(ts.drop_first()));
        assert((r.len() > 1 && r[1] is Punct) == (ts.len() > 1 && ts[1] is Punct));
    }
}

/// Respacing one token tree a second time, with the same punctuation after it, changes nothing.
pub proof fn law_respacing_token_is_idempotent(t: TokenView, punct_follows: bool)
    ensures
        respaced_token(respaced_token(t, punct_follows), punct_follows) == respaced_token(t, punct_follows),
    decreases t,
{
    if let TokenView::Group(d, inner) = t {
        law_respacing_is_idempotent(inner);
    }
}

/// `::thing` names the root of the crate bound to `thing`, and `::thing::rest` resolves `rest`
/// from that root; a rooted path whose first segment names no crate never resolves.
pub proof fn law_rooted_paths_start_at_crates(
    db: DbView,
    cur: CrateView,
    orig: IdentityView,
    in_module: IdentityView,
    ns: NamespaceId,
    check_prelude: bool,
    path: Seq<Seq<char>>,
)
    requires
        path.len() > 0,
        crate_for(db, cur, in_module.crate_) is Some,
    ensures
        ({
            let c = crate_for(db, cur, in_module.crate_)->0;
            let r = resolution(db, cur, orig, in_module, ns, check_prelude, true, path);
            &&& !c.extern_crates.contains_key(path[0]) ==> r == Resolution::Failed(ResolveError::Impossible)
            &&& c.extern_crates.contains_key(path[0]) && path.len() == 1 ==> r == Resolution::Resolved(
                root_of(c.extern_crates[path[0]]),
            )
            &&& c.extern_crates.contains_key(path[0]) && path.len() > 1 ==> r == resolution(
                db,
                cur,
                orig,
                root_of(c.extern_crates[path[0]]),
                ns,
                false,
                false,
                path.drop_first(),
            )
        }),
{
}

/// A name bound nowhere a lookup looks is pending in the crate being built, which may still
/// bind it, and never resolves in a dependency, which is complete.
pub proof fn law_missing_names(
    db: DbView,
    cur: CrateView,
    orig: IdentityView,
    in_module: IdentityView,
    ns: NamespaceId,
    check_prelude: bool,
    name: Seq<char>,
)
    requires
        crate_for(db, cur, in_module.crate_) is Some,
        found_binding(crate_for(db, cur, in_module.crate_)->0, in_module.path, ns, name, check_prelude) is None,
    ensures
        resolution(db, cur, orig, in_module, ns, check_prelude, false, seq![name]) == if in_module.crate_ == cur.id {
            Resolution::Failed(ResolveError::Pending)
        } else {
            Resolution::Failed(ResolveError::Impossible)
        },
{
}

/// How `cfg` predicates combine, for predicates whose arguments are all predicates:
/// `feature = "s"` holds where `s` is activated; `not(p, ..)` where `p` does not; `all(..)` where
/// every argument holds (so with none); `any(..)` where one does (so never with none).
pub proof fn law_cfg_predicates_combine(
    features: Seq<Seq<char>>,
    path: UnresolvedPath,
    literal: Tokens,
    args: Vec<MetaInner>,
)
    requires
        forall|i: int| 0 <= i < args@.len() ==> #[trigger] args@[i] is Meta,
    ensures
        path_ident(path@) == Some("feature"@) && syn_lit_str_value(literal.text@) is Some ==> (cfg_holds(
            features,
            (Meta::Assign { path, literal }),
        ) <==> features.contains(syn_lit_str_value(literal.text@)->0)),
        path_ident(path@) == Some("not"@) && args@.len() > 0 ==> (cfg_holds(features, (Meta::Call { path, args }))
            <==> !cfg_holds(features, args@[0]->Meta_0)),
        path_ident(path@) == Some("all"@) ==> (cfg_holds(features, (Meta::Call { path, args })) <==> forall|i: int|
            0 <= i < args@.len() ==> cfg_holds(features, #[trigger] args@[i]->Meta_0)),
        path_ident(path@) == Some("any"@) ==> (cfg_holds(features, (Meta::Call { path, args })) <==> exists|i: int|
            0 <= i < args@.len() && cfg_holds(features, #[trigger] args@[i]->Meta_0)),
{
    lemma_cfg_folds(features, args@);
    assert forall|i: int| 0 <= i < args@.len() implies #[trigger] arg_holds(features, args@[i]) == cfg_holds(
        features,
        args@[i]->Meta_0,
    ) by {
        assert(args@[i] is Meta);
    }
    assert(!has_literal(args@)) by {
        assert forall|i: int| 0 <= i < args@.len() implies !is_literal(#[trigger] args@[i]) by {
            assert(args@[i] is Meta);
        }
    }
    reveal_strlit("all");
    reveal_strlit("any");
    reveal_strlit("not");
    reveal_strlit("feature");
    if path_ident(path@) == Some("all"@) {
        assert("all"@[0] != "not"@[0]);
        assert(cfg_holds(features, (Meta::Call { path, args })) == all_cfg_hold(features, args@));
        if all_cfg_hold(features, args@) {
            assert forall|i: int| 0 <= i < args@.len() implies cfg_holds(features, #[trigger] args@[i]->Meta_0) by {
                assert(arg_holds(features, args@[i]));
            }
        } else {
            let i = choose|i: int| 0 <= i < args@.len() && !#[trigger] arg_holds(features, args@[i]);
            assert(!cfg_holds(features, args@[i]->Meta_0));
        }
    }
    if path_ident(path@) == Some("any"@) {
        assert("any"@[1] != "not"@[1] && "any"@[1] != "all"@[1]);
        assert(cfg_holds(features, (Meta::Call { path, args })) == any_cfg_holds(features, args@));
        if exists|i: int| 0 <= i < args@.len() && #[trigger] arg_holds(features, args@[i]) {
            let i = choose|i: int| 0 <= i < args@.len() && #[trigger] arg_holds(features, args@[i]);
            assert(cfg_holds(features, args@[i]->Meta_0));
        }
        if exists|i: int| 0 <= i < args@.len() && cfg_holds(features, #[trigger] args@[i]->Meta_0) {
            let i = choose|i: int| 0 <= i < args@.len() && cfg_holds(features, #[trigger] args@[i]->Meta_0);
            assert(arg_holds(features, args@[i]));
        }
    }
}

/// Every wait of a backoff made with a positive maximum lasts at least a millisecond and at most
/// a quarter second: it starts at one millisecond, and the wait after one in that range is in
/// it too.
pub proof fn law_backoff_waits_are_bounded(wait: u32, max: u32)
    requires
        max > 0,
        1 <= wait <= 250,
    ensures
        1 <= next_wait(wait, max) <= 250,
        next_wait(wait, max) >= wait || next_wait(wait, max) == max,
{
}

/// `self::rest` resolves `rest` from the module the lookup starts in; `crate::rest` from the
/// root of that module's crate; `super::rest` from the module's parent, and never above a
/// crate root.
pub proof fn law_relative_paths_start_where_they_say(
    db: DbView,
    cur: CrateView,
    orig: IdentityView,
    in_module: IdentityView,
    ns: NamespaceId,
    check_prelude: bool,
    path: Seq<Seq<char>>,
)
    requires
        path.len() >= 2,
        crate_for(db, cur, in_module.crate_) is Some,
    ensures
        path[0] == "self"@ ==> resolution(db, cur, orig, in_module, ns, check_prelude, false, path) == resolution(
            db,
            cur,
            orig,
            in_module,
            ns,
            false,
            false,
            path.drop_first(),
        ),
        path[0] == "crate"@ ==> resolution(db, cur, orig, in_module, ns, check_prelude, false, path) == resolution(
            db,
            cur,
            orig,
            root_of(in_module.crate_),
            ns,
            false,
            false,
            path.drop_first(),
        ),
        path[0] == "super"@ && in_module.path.len() > 0 ==> resolution(db, cur, orig, in_module, ns, check_prelude, false, path)
            == resolution(
            db,
            cur,
            orig,
            IdentityView { crate_: in_module.crate_, path: in_module.path.drop_last() },
            ns,
            false,
            false,
            path.drop_first(),
        ),
        path[0] == "super"@ && in_module.path.len() == 0 ==> resolution(db, cur, orig, in_module, ns, check_prelude, false, path)
            == Resolution::Failed(ResolveError::Impossible),
{
    reveal_strlit("self");
    reveal_strlit("crate");
    reveal_strlit("super");
    assert("self"@[0] != "crate"@[0]);
    assert("super"@[1] != "self"@[1]);
    assert("super"@[0] != "crate"@[0]);
}

/// Replacing a character works piece by piece: replacing in a concatenation is replacing in
/// each part; a lone `c` becomes `by`, any other character stays.
pub proof fn law_replacing_is_piecewise(s1: Seq<char>, s2: Seq<char>, c: char, by: Seq<char>, x: char)
    ensures
        replaced(s1 + s2, c, by) == replaced(s1, c, by) + replaced(s2, c, by),
        replaced(seq![c], c, by) == by,
        x != c ==> replaced(seq![x], c, by) == seq![x],
    decreases s2.len(),
{
    assert(seq![c].drop_last() =~= Seq::<char>::empty());
    assert(seq![x].drop_last() =~= Seq::<char>::empty());
    assert(replaced(Seq::<char>::empty(), c, by) == Seq::<char>::empty());
    assert(Seq::<char>::empty() + by =~= by);
    assert(seq![c].last() == c);
    assert(replaced(seq![c], c, by) == replaced(seq![c].drop_last(), c, by) + by);
    if x != c {
        assert(seq![x].last() == x);
        assert(replaced(seq![x], c, by) == replaced(seq![x].drop_last(), c, by).push(x));
        assert(Seq::<char>::empty().push(x) =~= seq![x]);
    }
    if s2.len() == 0 {
        assert(s1 + s2 =~= s1);
        assert(replaced(s1, c, by) + Seq::<char>::empty() =~= replaced(s1, c, by));
    } else {
        law_replacing_is_piecewise(s1, s2.drop_last(), c, by, x);
        assert((s1 + s2).drop_last() =~= s1 + s2.drop_last());
        assert((s1 + s2).last() == s2.last());
        if s2.last() == c {
            assert(replaced(s1, c, by) + replaced(s2.drop_last(), c, by) + by =~= replaced(s1, c, by) + (
            replaced(s2.drop_last(), c, by) + by));
        } else {
            assert((replaced(s1, c, by) + replaced(s2.drop_last(), c, by)).push(s2.last()) =~= replaced(s1, c, by) + replaced(
                s2.drop_last(),
                c,
                by,
            ).push(s2.last()));
        }
    }
}

/// Where `by` holds no `c`, no `c` is left after replacing, every one of them being replaced.
pub proof fn law_replacing_leaves_none(s: Seq<char>, c: char, by: Seq<char>)
    requires
        !by.contains(c),
    ensures
        !replaced(s, c, by).contains(c),
    decreases s.len(),
{
    if s.len() > 0 {
        law_replacing_leaves_none(s.drop_last(), c, by);
        let r0 = replaced(s.drop_last(), c, by);
        if s.last() == c {
            assert forall|i: int| 0 <= i < (r0 + by).len() implies (r0 + by)[i] != c by {
                if i < r0.len() {
                    assert((r0 + by)[i] == r0[i]);
                } else {
                    assert((r0 + by)[i] == by[i - r0.len()]);
                }
            }
        } else {
            assert forall|i: int| 0 <= i < r0.push(s.last()).len() implies r0.push(s.last())[i] != c by {
                if i < r0.len() {
                    assert(r0.push(s.last())[i] == r0[i]);
                }
            }
        }
    }
}

/// The path text of a rustdoc page holds no `/`: every directory of the link's prefix is joined
/// by `::`.
pub proof fn law_page_paths_have_no_slashes(prefix: Seq<char>, name: Seq<char>)
    requires
        !name.contains('/'),
    ensures
        !page_path_text(prefix, name).contains('/'),
{
    law_replacing_leaves_none(prefix, '/', seq![':', ':']);
    let r = replaced(prefix, '/', seq![':', ':']);
    let t = r + seq![':', ':'] + name;
    assert forall|i: int| 0 <= i < t.len() implies t[i] != '/' by {
        if i < r.len() {
            assert(t[i] == r[i]);
        } else if i < r.len() + 2 {
        } else {
            assert(t[i] == name[i - r.len() - 2]);
        }
    }
}

/// Following repetition indices `p1` and then `p2` from a binding reaches the same binding as
/// following `p1 + p2`: each index descends one level of repetition.
pub proof fn law_following_indices_composes(b: crate::expand::BindingView, p1: Seq<usize>, p2: Seq<usize>)
    ensures
        binding_at(b, p1 + p2) == match binding_at(b, p1) {
            Some(b1) => binding_at(b1, p2),
            None => None,
        },
    decreases p1.len(),
{
    if p1.len() == 0 {
        assert(p1 + p2 =~= p2);
    } else {
        assert((p1 + p2)[0] == p1[0]);
        assert((p1 + p2).drop_first() =~= p1.drop_first() + p2);
        match b {
            crate::expand::BindingView::Leaf(_) => {
                if p2.len() > 0 {
                } else {
                    assert(p1 + p2 =~= p1);
                }
            },
            crate::expand::BindingView::Repeated(v) => {
                if p1[0] < v.len() {
                    law_following_indices_composes(v[p1[0] as int], p1.drop_first(), p2);
                }
            },
        }
    }
}

/// Two indices into a binding repeated twice reach the `j`-th binding of its `i`-th repetition.
pub proof fn law_nested_repetitions_are_indexed(v: Seq<crate::expand::BindingView>, w: Seq<crate::expand::BindingView>, i: usize, j: usize)
    requires
        i < v.len(),
        v[i as int] == crate::expand::BindingView::Repeated(w),
        j < w.len(),
    ensures
        binding_at(crate::expand::BindingView::Repeated(v), seq![i, j]) == binding_at(w[j as int], Seq::empty()),
        binding_at(w[j as int], Seq::empty()) == Some(w[j as int]),
{
    assert(seq![i, j].drop_first() =~= seq![j]);
    assert(seq![j].drop_first() =~= Seq::<usize>::empty());
    assert(binding_at(crate::expand::BindingView::Repeated(v), seq![i, j]) == binding_at(v[i as int], seq![j]));
    assert(binding_at(crate::expand::BindingView::Repeated(w), seq![j]) == binding_at(w[j as int], Seq::empty()));
}

/// A `#[repr(..)]` with the single argument `C`, `transparent` or `packed` sets that
/// representation, whatever came before; `Rust` keeps the one before; attributes that are not
/// `derive` or `repr` change nothing; and with no `repr` the representation is `Rust`.
pub proof fn law_repr_attributes_set_the_representation(
    attrs: Seq<Attribute>,
    repr_path: UnresolvedPath,
    arg: UnresolvedPath,
    args: Vec<MetaInner>,
    other: Attribute,
)
    requires
        repr_path@ == simple_path("repr"@),
        args@ == seq![MetaInner::Meta(Meta::Path(arg))],
    ensures
        ({
            let r = type_folded(attrs.push(Attribute::Meta(Meta::Call { path: repr_path, args }))).repr;
            &&& arg@ == simple_path("C"@) ==> r == Repr::C
            &&& arg@ == simple_path("transparent"@) ==> r == Repr::Transparent
            &&& arg@ == simple_path("packed"@) ==> r == Repr::Packed
            &&& arg@ == simple_path("Rust"@) ==> r == type_folded(attrs).repr
        }),
        !(other matches Attribute::Meta(Meta::Call { path, .. }) && (path@ == simple_path("repr"@) || path@
            == simple_path("derive"@))) ==> type_folded(attrs.push(other)).repr == type_folded(attrs).repr,
        type_folded(Seq::empty()).repr == Repr::Rust,
{
    let a = Attribute::Meta(Meta::Call { path: repr_path, args });
    assert(attrs.push(a).drop_last() =~= attrs);
    assert(attrs.push(other).drop_last() =~= attrs);
    reveal_strlit("repr");
    reveal_strlit("derive");
    reveal_strlit("C");
    reveal_strlit("transparent");
    reveal_strlit("packed");
    reveal_strlit("Rust");
    assert(simple_path("repr"@) != simple_path("derive"@)) by {
        assert(simple_path("repr"@).path[0][0] != simple_path("derive"@).path[0][0]);
    }
    assert(simple_path("C"@).path[0].len() != simple_path("Rust"@).path[0].len());
    assert(simple_path("transparent"@).path[0].len() != simple_path("Rust"@).path[0].len());
    assert(simple_path("transparent"@).path[0].len() != simple_path("C"@).path[0].len());
    assert(simple_path("packed"@).path[0].len() != simple_path("Rust"@).path[0].len());
    assert(simple_path("packed"@).path[0].len() != simple_path("C"@).path[0].len());
    assert(simple_path("packed"@).path[0].len() != simple_path("transparent"@).path[0].len());
}

} // verus!
