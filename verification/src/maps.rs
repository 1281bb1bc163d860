//! Insertion-ordered tables, indexed by `hashbrown` hash maps with the `fxhash` hasher.
//!
//! A table keeps its entries in a `Vec` in insertion order, and a hash map from each key to the
//! position of its entry. Lookups go through the hash map; iteration goes through the entries.

use vstd::prelude::*;

verus! {

#[verifier::external_type_specification]
#[verifier::external_body]
pub struct ExFxHasher(fxhash::FxHasher);

#[verifier::external_type_specification]
#[verifier::external_body]
#[verifier::reject_recursive_types(H)]
pub struct ExBuildHasherDefault<H>(std::hash::BuildHasherDefault<H>);

#[verifier::external_type_specification]
#[verifier::external_body]
#[verifier::reject_recursive_types(K)]
#[verifier::reject_recursive_types(V)]
#[verifier::reject_recursive_types(S)]
pub struct ExHashMap<K, V, S>(hashbrown::HashMap<K, V, S>);

/// A hash map from names to slot numbers.
pub type NameSlotMap = hashbrown::HashMap<String, usize, fxhash::FxBuildHasher>;

/// A hash map from paths (lists of names) to slot numbers.
pub type PathSlotMap = hashbrown::HashMap<Vec<String>, usize, fxhash::FxBuildHasher>;

/// What a name-keyed hash map holds: each name (by its characters) and its slot.
pub uninterp spec fn name_slots(m: NameSlotMap) -> Map<Seq<char>, usize>;

/// What a path-keyed hash map holds: each path (by its characters) and its slot.
pub uninterp spec fn path_slots(m: PathSlotMap) -> Map<Seq<Seq<char>>, usize>;

/// `hashbrown::HashMap::default`: an empty map.
#[verifier::external_body]
fn name_index_new() -> (r: NameSlotMap)
    ensures
        name_slots(r) =~= Map::empty(),
{
    hashbrown::HashMap::default()
}

/// `hashbrown::HashMap::get`: the slot stored under a name whose characters are those of `k`.
#[verifier::external_body]
fn name_index_get(m: &NameSlotMap, k: &str) -> (r: Option<usize>)
    ensures
        name_slots(*m).contains_key(k@) ==> r == Some(name_slots(*m)[k@]),
        !name_slots(*m).contains_key(k@) ==> r is None,
{
    m.get(k).copied()
}

/// `hashbrown::HashMap::insert`: afterwards `k` maps to `v`, and every other key is unchanged.
#[verifier::external_body]
fn name_index_insert(m: &mut NameSlotMap, k: String, v: usize)
    ensures
        name_slots(*final(m)) == name_slots(*old(m)).insert(k@, v),
{
    m.insert(k, v);
}

/// `hashbrown::HashMap::default`: an empty map.
#[verifier::external_body]
fn path_index_new() -> (r: PathSlotMap)
    ensures
        path_slots(r) =~= Map::empty(),
{
    hashbrown::HashMap::default()
}

/// `hashbrown::HashMap::get`: the slot stored under a path equal, segment by segment, to `k`.
#[verifier::external_body]
fn path_index_get(m: &PathSlotMap, k: &Vec<String>) -> (r: Option<usize>)
    ensures
        path_slots(*m).contains_key(k.deep_view()) ==> r == Some(path_slots(*m)[k.deep_view()]),
        !path_slots(*m).contains_key(k.deep_view()) ==> r is None,
{
    m.get(k).copied()
}

/// `hashbrown::HashMap::insert`: afterwards `k` maps to `v`, and every other key is unchanged.
#[verifier::external_body]
fn path_index_insert(m: &mut PathSlotMap, k: Vec<String>, v: usize)
    ensures
        path_slots(*final(m)) == path_slots(*old(m)).insert(k.deep_view(), v),
{
    m.insert(k, v);
}

/// A table from names to values, remembering insertion order.
#[derive(Debug)]
pub struct NameTable<V> {
    pub(crate) entries: Vec<(String, V)>,
    pub(crate) index: NameSlotMap,
}

impl<V> NameTable<V> {
    /// The index maps each entry's name to its position, and nothing else.
    pub closed spec fn wf(&self) -> bool {
        let slots = name_slots(self.index);
        &&& forall|i: int|
            0 <= i < self.entries.len() ==> #[trigger] slots.contains_key(self.entries[i].0@)
                && slots[self.entries[i].0@] == i
        &&& forall|k: Seq<char>|
            #[trigger] slots.contains_key(k) ==> slots[k] < self.entries.len()
                && self.entries[slots[k] as int].0@ == k
    }

    /// The names of the entries, in insertion order.
    pub closed spec fn keys(&self) -> Seq<Seq<char>> {
        Seq::new(self.entries.len() as nat, |i: int| self.entries[i].0@)
    }

    /// The table as a map from names to values.
    pub closed spec fn map(&self) -> Map<Seq<char>, V> {
        let slots = name_slots(self.index);
        Map::new(|k: Seq<char>| slots.contains_key(k), |k: Seq<char>| self.entries[slots[k] as int].1)
    }

    /// The entries, in insertion order.
    pub closed spec fn entries(&self) -> Seq<(String, V)> {
        self.entries@
    }

    /// The entries list the map's keys once each, in order, with their values.
    pub proof fn lemma_entries(&self)
        requires
            self.wf(),
        ensures
            self.entries().len() == self.keys().len(),
            forall|i: int|
                0 <= i < self.keys().len() ==> #[trigger] self.entries()[i].0@ == self.keys()[i]
                    && self.map().contains_key(self.keys()[i]) && self.map()[self.keys()[i]]
                    == self.entries()[i].1,
            forall|k: Seq<char>| #[trigger] self.map().contains_key(k) <==> self.keys().contains(k),
            forall|i: int, j: int|
                0 <= i < j < self.keys().len() ==> self.keys()[i] != self.keys()[j],
    {
        let slots = name_slots(self.index);
        assert forall|k: Seq<char>| #[trigger] self.map().contains_key(k) <==> self.keys().contains(k) by {
            if self.map().contains_key(k) {
                let i = slots[k] as int;
                assert(self.keys()[i] == k);
            }
            if self.keys().contains(k) {
                let i = choose|i: int| 0 <= i < self.keys().len() && self.keys()[i] == k;
                assert(slots.contains_key(self.entries[i].0@));
            }
        }
        assert forall|i: int, j: int| 0 <= i < j < self.keys().len() implies self.keys()[i]
            != self.keys()[j] by {
            assert(slots.contains_key(self.entries[i].0@));
            assert(slots.contains_key(self.entries[j].0@));
        }
        assert forall|i: int| 0 <= i < self.keys().len() implies #[trigger] self.entries()[i].0@
            == self.keys()[i] && self.map().contains_key(self.keys()[i])
            && self.map()[self.keys()[i]] == self.entries()[i].1 by {
            assert(slots.contains_key(self.entries[i].0@));
        }
    }

    /// An empty table.
    pub fn new() -> (r: Self)
        ensures
            r.wf(),
            r.map() == Map::<Seq<char>, V>::empty(),
            r.keys() == Seq::<Seq<char>>::empty(),
    {
        let r = NameTable { entries: Vec::new(), index: name_index_new() };
        proof {
            assert(r.map() =~= Map::<Seq<char>, V>::empty());
            assert(r.keys() =~= Seq::<Seq<char>>::empty());
        }
        r
    }

    /// The number of entries.
    pub fn len(&self) -> (r: usize)
        requires
            self.wf(),
        ensures
            r == self.keys().len(),
    {
        self.entries.len()
    }

    /// The value under `k`, if any.
    pub fn get(&self, k: &str) -> (r: Option<&V>)
        requires
            self.wf(),
        ensures
            self.map().contains_key(k@) ==> r == Some(&self.map()[k@]),
            !self.map().contains_key(k@) ==> r is None,
    {
        match name_index_get(&self.index, k) {
            Some(i) => Some(&self.entries[i].1),
            None => None,
        }
    }

    /// Whether `k` has an entry.
    pub fn contains_key(&self, k: &str) -> (r: bool)
        requires
            self.wf(),
        ensures
            r == self.map().contains_key(k@),
    {
        name_index_get(&self.index, k).is_some()
    }

    /// Adds an entry under a name that has none yet.
    pub fn insert_new(&mut self, k: String, v: V)
        requires
            old(self).wf(),
            !old(self).map().contains_key(k@),
        ensures
            final(self).wf(),
            final(self).map() == old(self).map().insert(k@, v),
            final(self).keys() == old(self).keys().push(k@),
    {
        let ghost old_self = *self;
        let n = self.entries.len();
        let key = k.clone();
        name_index_insert(&mut self.index, key, n);
        self.entries.push((k, v));
        proof {
            let slots0 = name_slots(old_self.index);
            let slots = name_slots(self.index);
            assert forall|i: int| 0 <= i < self.entries.len() implies #[trigger] slots.contains_key(
                self.entries[i].0@,
            ) && slots[self.entries[i].0@] == i by {
                if i < n {
                    assert(slots0.contains_key(old_self.entries[i].0@));
                }
            }
            assert(self.map() =~= old_self.map().insert(k@, v));
            assert(self.keys() =~= old_self.keys().push(k@));
        }
    }

    /// Sets the value under a name: replaces it where the name has an entry, adds an entry
    /// otherwise.
    pub fn set(&mut self, k: String, v: V)
        requires
            old(self).wf(),
        ensures
            final(self).wf(),
            final(self).map() == old(self).map().insert(k@, v),
    {
        let ghost old_self = *self;
        match name_index_get(&self.index, k.as_str()) {
            Some(i) => {
                self.entries.set(i, (k, v));
                proof {
                    let slots = name_slots(self.index);
                    assert forall|j: int| 0 <= j < self.entries.len() implies #[trigger] slots.contains_key(
                        self.entries[j].0@,
                    ) && slots[self.entries[j].0@] == j by {
                        if j != i {
                            assert(self.entries[j] == old_self.entries[j]);
                            assert(slots.contains_key(old_self.entries[j].0@));
                        } else {
                            assert(slots.contains_key(k@));
                            assert(self.entries[j].0@ == k@);
                        }
                    }
                    assert(self.map() =~= old_self.map().insert(k@, v));
                }
            },
            None => {
                self.insert_new(k, v);
            },
        }
    }

    /// A mutable reference to the value of the entry at position `i`.
    pub fn value_mut(&mut self, i: usize) -> (r: &mut V)
        requires
            old(self).wf(),
            i < old(self).keys().len(),
        ensures
            *r == old(self).map()[old(self).keys()[i as int]],
            final(self).wf(),
            final(self).keys() == old(self).keys(),
            final(self).map() == old(self).map().insert(old(self).keys()[i as int], *final(r)),
    {
        proof {
            assert(name_slots(self.index).contains_key(self.entries[i as int].0@));
        }
        &mut self.entries[i].1
    }

    /// The entries, in insertion order.
    pub fn entry_slice(&self) -> (r: &[(String, V)])
        ensures
            r@ == self.entries(),
    {
        self.entries.as_slice()
    }
}

/// A table from paths (lists of names) to values, remembering insertion order.
#[derive(Debug)]
pub struct PathTable<V> {
    entries: Vec<(Vec<String>, V)>,
    index: PathSlotMap,
}

impl<V> PathTable<V> {
    /// The index maps each entry's path to its position, and nothing else.
    pub closed spec fn wf(&self) -> bool {
        let slots = path_slots(self.index);
        &&& forall|i: int|
            0 <= i < self.entries.len() ==> #[trigger] slots.contains_key(
                self.entries[i].0.deep_view(),
            ) && slots[self.entries[i].0.deep_view()] == i
        &&& forall|k: Seq<Seq<char>>|
            #[trigger] slots.contains_key(k) ==> slots[k] < self.entries.len()
                && self.entries[slots[k] as int].0.deep_view() == k
    }

    /// The paths of the entries, in insertion order.
    pub closed spec fn keys(&self) -> Seq<Seq<Seq<char>>> {
        Seq::new(self.entries.len() as nat, |i: int| self.entries[i].0.deep_view())
    }

    /// The table as a map from paths to values.
    pub closed spec fn map(&self) -> Map<Seq<Seq<char>>, V> {
        let slots = path_slots(self.index);
        Map::new(
            |k: Seq<Seq<char>>| slots.contains_key(k),
            |k: Seq<Seq<char>>| self.entries[slots[k] as int].1,
        )
    }

    /// An empty table.
    pub fn new() -> (r: Self)
        ensures
            r.wf(),
            r.map() == Map::<Seq<Seq<char>>, V>::empty(),
            r.keys() == Seq::<Seq<Seq<char>>>::empty(),
    {
        let r = PathTable { entries: Vec::new(), index: path_index_new() };
        proof {
            assert(r.map() =~= Map::<Seq<Seq<char>>, V>::empty());
            assert(r.keys() =~= Seq::<Seq<Seq<char>>>::empty());
        }
        r
    }

    /// The number of entries.
    pub fn len(&self) -> (r: usize)
        requires
            self.wf(),
        ensures
            r == self.keys().len(),
    {
        self.entries.len()
    }

    /// The value under `k`, if any.
    pub fn get(&self, k: &Vec<String>) -> (r: Option<&V>)
        requires
            self.wf(),
        ensures
            self.map().contains_key(k.deep_view()) ==> r == Some(&self.map()[k.deep_view()]),
            !self.map().contains_key(k.deep_view()) ==> r is None,
    {
        match path_index_get(&self.index, k) {
            Some(i) => Some(&self.entries[i].1),
            None => None,
        }
    }

    /// Whether `k` has an entry.
    pub fn contains_key(&self, k: &Vec<String>) -> (r: bool)
        requires
            self.wf(),
        ensures
            r == self.map().contains_key(k.deep_view()),
    {
        path_index_get(&self.index, k).is_some()
    }

    /// Adds an entry under a path that has none yet.
    pub fn insert_new(&mut self, k: Vec<String>, v: V)
        requires
            old(self).wf(),
            !old(self).map().contains_key(k.deep_view()),
        ensures
            final(self).wf(),
            final(self).map() == old(self).map().insert(k.deep_view(), v),
            final(self).keys() == old(self).keys().push(k.deep_view()),
    {
        let ghost old_self = *self;
        let n = self.entries.len();
        let key = k.clone();
        proof {
            assert(key.deep_view() =~= k.deep_view());
        }
        path_index_insert(&mut self.index, key, n);
        self.entries.push((k, v));
        proof {
            let slots0 = path_slots(old_self.index);
            let slots = path_slots(self.index);
            assert forall|i: int| 0 <= i < self.entries.len() implies #[trigger] slots.contains_key(
                self.entries[i].0.deep_view(),
            ) && slots[self.entries[i].0.deep_view()] == i by {
                if i < n {
                    assert(slots0.contains_key(old_self.entries[i].0.deep_view()));
                }
            }
            assert(self.map() =~= old_self.map().insert(k.deep_view(), v));
            assert(self.keys() =~= old_self.keys().push(k.deep_view()));
        }
    }

    /// Replaces the value under a path that has an entry.
    pub fn replace(&mut self, k: &Vec<String>, v: V)
        requires
            old(self).wf(),
            old(self).map().contains_key(k.deep_view()),
        ensures
            final(self).wf(),
            final(self).map() == old(self).map().insert(k.deep_view(), v),
            final(self).keys() == old(self).keys(),
    {
        let ghost old_self = *self;
        let i = path_index_get(&self.index, k).unwrap();
        let key = self.entries[i].0.clone();
        proof {
            assert(key.deep_view() =~= old_self.entries[i as int].0.deep_view());
        }
        self.entries.set(i, (key, v));
        proof {
            let slots = path_slots(self.index);
            assert forall|j: int| 0 <= j < self.entries.len() implies #[trigger] slots.contains_key(
                self.entries[j].0.deep_view(),
            ) && slots[self.entries[j].0.deep_view()] == j by {
                if j != i {
                    assert(self.entries[j] == old_self.entries[j]);
                }
            }
            assert(self.map() =~= old_self.map().insert(k.deep_view(), v));
            assert(self.keys() =~= old_self.keys());
        }
    }

    /// The position of the entry under `k`, if any.
    pub fn position(&self, k: &Vec<String>) -> (r: Option<usize>)
        requires
            self.wf(),
        ensures
            self.map().contains_key(k.deep_view()) ==> r is Some && r->0 < self.keys().len()
                && self.keys()[r->0 as int] == k.deep_view(),
            !self.map().contains_key(k.deep_view()) ==> r is None,
    {
        path_index_get(&self.index, k)
    }

    /// A mutable reference to the value of the entry at position `i`.
    pub fn value_mut(&mut self, i: usize) -> (r: &mut V)
        requires
            old(self).wf(),
            i < old(self).keys().len(),
        ensures
            *r == old(self).map()[old(self).keys()[i as int]],
            final(self).wf(),
            final(self).keys() == old(self).keys(),
            final(self).map() == old(self).map().insert(old(self).keys()[i as int], *final(r)),
    {
        proof {
            assert(path_slots(self.index).contains_key(self.entries[i as int].0.deep_view()));
        }
        &mut self.entries[i].1
    }

    /// The key of the entry at position `i`.
    pub fn key_at(&self, i: usize) -> (r: &Vec<String>)
        requires
            i < self.keys().len(),
        ensures
            r.deep_view() == self.keys()[i as int],
    {
        &self.entries[i].0
    }
}

} // verus!
