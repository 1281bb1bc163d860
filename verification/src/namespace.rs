//! Namespaces of items under resolution, by their absolute paths.

use crate::identities::Ident;
use crate::items::{MacroItem, Module, SymbolItem, TypeItem};
use crate::lower::ModuleScope;
use crate::maps::PathTable;
use crate::paths::{AbsoluteCrate, AbsolutePath, RelativePath};
use crate::text::str_eq;
use vstd::prelude::*;

verus! {

/// The kinds of items held in a namespace during resolution.
pub trait Namespaced {
    /// The name of the namespace these items live in.
    fn namespace() -> (r: &'static str);
}

impl Namespaced for TypeItem {
    fn namespace() -> (r: &'static str)
        ensures
            r@ == "type"@,
    {
        "type"
    }
}

impl Namespaced for SymbolItem {
    fn namespace() -> (r: &'static str)
        ensures
            r@ == "symbol"@,
    {
        "symbol"
    }
}

impl Namespaced for MacroItem {
    fn namespace() -> (r: &'static str)
        ensures
            r@ == "macro"@,
    {
        "macro"
    }
}

impl Namespaced for Module {
    fn namespace() -> (r: &'static str)
        ensures
            r@ == "module"@,
    {
        "module"
    }
}

impl Namespaced for ModuleScope {
    fn namespace() -> (r: &'static str)
        ensures
            r@ == "[implementation detail] scope"@,
    {
        "[implementation detail] scope"
    }
}

/// The characters of an absolute path: its crate's name and version, then its segments.
pub open spec fn abs_key(p: AbsolutePath) -> Seq<Seq<char>> {
    seq![p.crate_.name@, p.crate_.version@] + p.path.0.deep_view()
}

/// Whether the key of an absolute path is in the crate of that name and version.
pub open spec fn in_crate(k: Seq<Seq<char>>, name: Seq<char>, version: Seq<char>) -> bool {
    k.len() >= 2 && k[0] == name && k[1] == version
}

/// A namespace, holding one kind of item during resolution, by absolute path.
pub struct Namespace<I> {
    items: PathTable<I>,
}

impl<I> Namespace<I> {
    /// The table is well formed.
    pub closed spec fn wf(&self) -> bool {
        self.items.wf()
    }

    /// The items, by the characters of their absolute paths.
    pub closed spec fn items(&self) -> Map<Seq<Seq<char>>, I> {
        self.items.map()
    }

    /// The keys of the items, in the order they were inserted.
    pub closed spec fn order(&self) -> Seq<Seq<Seq<char>>> {
        self.items.keys()
    }

    /// An empty namespace.
    pub fn new() -> (r: Self)
        ensures
            r.wf(),
            r.items() == Map::<Seq<Seq<char>>, I>::empty(),
    {
        Namespace { items: PathTable::new() }
    }

    /// The key of an absolute path.
    fn key(path: &AbsolutePath) -> (r: Vec<Ident>)
        ensures
            r.deep_view() == abs_key(*path),
    {
        let mut r = vec![path.crate_.name.clone(), path.crate_.version.clone()];
        let mut i: usize = 0;
        proof {
            assert(r.deep_view() =~= seq![path.crate_.name@, path.crate_.version@] + path.path.0.deep_view().take(0));
        }
        while i < path.path.0.len()
            invariant
                i <= path.path.0.len(),
                r.deep_view() == seq![path.crate_.name@, path.crate_.version@] + path.path.0.deep_view().take(i as int),
            decreases path.path.0.len() - i,
        {
            let ghost before = r.deep_view();
            r.push(path.path.0[i].clone());
            proof {
                assert(path.path.0.deep_view().take(i + 1) =~= path.path.0.deep_view().take(i as int).push(path.path.0[i as int]@));
                assert(r.deep_view() =~= before.push(path.path.0[i as int]@));
                assert(r.deep_view() =~= seq![path.crate_.name@, path.crate_.version@] + path.path.0.deep_view().take(i + 1));
            }
            i = i + 1;
        }
        proof {
            assert(path.path.0.deep_view().take(i as int) =~= path.path.0.deep_view());
        }
        r
    }

    /// Insert an item at a path. Fails, leaving the namespace unchanged, where the path already
    /// holds an item.
    pub fn insert(&mut self, path: AbsolutePath, item: I) -> (r: Result<(), AbsolutePath>)
        requires
            old(self).wf(),
        ensures
            final(self).wf(),
            old(self).items().contains_key(abs_key(path)) ==> r == Err::<(), AbsolutePath>(path)
                && final(self).items() == old(self).items(),
            !old(self).items().contains_key(abs_key(path)) ==> r is Ok && final(self).items()
                == old(self).items().insert(abs_key(path), item),
    {
        let key = Self::key(&path);
        if self.items.contains_key(&key) {
            return Err(path);
        }
        self.items.insert_new(key, item);
        Ok(())
    }

    /// Whether the namespace holds an item at a path.
    pub fn contains(&self, path: &AbsolutePath) -> (r: bool)
        requires
            self.wf(),
        ensures
            r == self.items().contains_key(abs_key(*path)),
    {
        let key = Self::key(path);
        self.items.contains_key(&key)
    }

    /// The item at a path, if any.
    pub fn get(&self, path: &AbsolutePath) -> (r: Option<&I>)
        requires
            self.wf(),
        ensures
            self.items().contains_key(abs_key(*path)) ==> r == Some(&self.items()[abs_key(*path)]),
            !self.items().contains_key(abs_key(*path)) ==> r is None,
    {
        let key = Self::key(path);
        self.items.get(&key)
    }

    /// Where the item at a path stands in the order of insertion, if there is one.
    pub fn position(&self, path: &AbsolutePath) -> (r: Option<usize>)
        requires
            self.wf(),
        ensures
            self.items().contains_key(abs_key(*path)) ==> r is Some && r->0 < self.order().len()
                && self.order()[r->0 as int] == abs_key(*path),
            !self.items().contains_key(abs_key(*path)) ==> r is None,
    {
        let key = Self::key(path);
        self.items.position(&key)
    }

    /// A mutable reference to the `i`th item inserted, to modify it in place.
    pub fn modify(&mut self, i: usize) -> (r: &mut I)
        requires
            old(self).wf(),
            i < old(self).order().len(),
        ensures
            *r == old(self).items()[old(self).order()[i as int]],
            final(self).wf(),
            final(self).order() == old(self).order(),
            final(self).items() == old(self).items().insert(old(self).order()[i as int], *final(r)),
    {
        self.items.value_mut(i)
    }

    /// The paths of the items of a crate, in the order they were inserted.
    pub fn iter_crate(&self, crate_: &AbsoluteCrate) -> (r: Vec<AbsolutePath>)
        requires
            self.wf(),
        ensures
            r@.map_values(|p: AbsolutePath| abs_key(p)) == self.order().filter(
                |k: Seq<Seq<char>>| in_crate(k, crate_.name@, crate_.version@),
            ),
    {
        let ghost keys = self.order();
        let ghost pred = |k: Seq<Seq<char>>| in_crate(k, crate_.name@, crate_.version@);
        let mut out: Vec<AbsolutePath> = Vec::new();
        let n = self.items.len();
        let mut i: usize = 0;
        proof {
            assert(keys.take(0) =~= Seq::<Seq<Seq<char>>>::empty());
            assert(out@.map_values(|p: AbsolutePath| abs_key(p)) =~= keys.take(0).filter(pred));
        }
        while i < n
            invariant
                i <= n,
                n == keys.len(),
                keys == self.order(),
                self.wf(),
                pred == (|k: Seq<Seq<char>>| in_crate(k, crate_.name@, crate_.version@)),
                out@.map_values(|p: AbsolutePath| abs_key(p)) == keys.take(i as int).filter(pred),
            decreases n - i,
        {
            let key = self.items.key_at(i);
            let ghost before = out@;
            proof {
                assert(keys.take(i + 1) =~= keys.take(i as int).push(keys[i as int]));
                keys.take(i as int).lemma_filter_push(keys[i as int], pred);
            }
            if key.len() >= 2 && str_eq(key[0].as_str(), crate_.name.as_str()) && str_eq(
                key[1].as_str(),
                crate_.version.as_str(),
            ) {
                let mut rest: Vec<Ident> = Vec::new();
                let mut j: usize = 2;
                while j < key.len()
                    invariant
                        2 <= j <= key.len(),
                        rest.deep_view() == key.deep_view().subrange(2, j as int),
                    decreases key.len() - j,
                {
                    let ghost rb = rest.deep_view();
                    rest.push(key[j].clone());
                    proof {
                        assert(rest.deep_view() =~= rb.push(key[j as int]@));
                        assert(key.deep_view().subrange(2, j + 1) =~= key.deep_view().subrange(2, j as int).push(
                            key[j as int]@,
                        ));
                    }
                    j = j + 1;
                }
                let p = AbsolutePath { crate_: AbsoluteCrate { name: crate_.name.clone(), version: crate_.version.clone() }, path: RelativePath(rest) };
                proof {
                    assert(abs_key(p) =~= key.deep_view()) by {
                        assert(key.deep_view()[0] == key[0]@);
                        assert(key.deep_view()[1] == key[1]@);
                    }
                    assert(pred(keys[i as int]));
                }
                out.push(p);
                proof {
                    assert(out@.map_values(|p: AbsolutePath| abs_key(p)) =~= before.map_values(
                        |p: AbsolutePath| abs_key(p),
                    ).push(abs_key(p)));
                }
            } else {
                proof {
                    if key.len() >= 2 {
                        assert(key.deep_view()[0] == key[0]@);
                        assert(key.deep_view()[1] == key[1]@);
                    }
                    assert(!pred(keys[i as int]));
                }
            }
            i = i + 1;
        }
        proof {
            assert(keys.take(n as int) =~= keys);
        }
        out
    }

    /// How many items the namespace holds.
    pub fn len(&self) -> (r: usize)
        requires
            self.wf(),
        ensures
            r == self.order().len(),
    {
        self.items.len()
    }
}

} // verus!
