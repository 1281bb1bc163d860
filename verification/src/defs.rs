//! Indexes over the definitions of save-analysis data: each definition's children, and the
//! definitions by id.

use vstd::prelude::*;

verus! {

/// The id of a definition: its crate, and its index there.
#[derive(Debug, Clone, Copy, PartialEq, Eq, Structural)]
pub struct DefId {
    pub krate: u32,
    pub index: u32,
}

/// The ids of the definitions whose parent is `parent`, in order.
pub open spec fn children_of(defs: Seq<(DefId, Option<DefId>)>, parent: DefId) -> Seq<DefId>
    decreases defs.len(),
{
    if defs.len() == 0 {
        Seq::empty()
    } else {
        let before = children_of(defs.drop_last(), parent);
        if defs.last().1 == Some(parent) {
            before.push(defs.last().0)
        } else {
            before
        }
    }
}

/// The children of each definition, in the order the definitions come.
pub struct Children {
    entries: Vec<(DefId, Vec<DefId>)>,
}

impl Children {
    /// The parents, once each, with their children.
    pub closed spec fn wf(&self) -> bool {
        forall|i: int, j: int| 0 <= i < j < self.entries.len() ==> #[trigger] self.entries[i].0 != #[trigger] self.entries[j].0
    }

    /// The children of `parent`.
    pub closed spec fn spec_children(&self, parent: DefId) -> Seq<DefId> {
        if exists|i: int| 0 <= i < self.entries.len() && self.entries[i].0 == parent {
            self.entries[choose|i: int| 0 <= i < self.entries.len() && self.entries[i].0 == parent].1@
        } else {
            Seq::empty()
        }
    }

    /// The index of a definition's children: each definition `(id, parent)` is a child of its
    /// parent, where it has one.
    pub fn new(defs: &Vec<(DefId, Option<DefId>)>) -> (r: Children)
        ensures
            r.wf(),
            forall|p: DefId| #[trigger] r.spec_children(p) == children_of(defs@, p),
    {
        let mut result = Children { entries: Vec::new() };
        let mut i: usize = 0;
        proof {
            assert(defs@.take(0) =~= Seq::<(DefId, Option<DefId>)>::empty());
        }
        while i < defs.len()
            invariant
                i <= defs.len(),
                result.wf(),
                forall|p: DefId| #[trigger] result.spec_children(p) == children_of(defs@.take(i as int), p),
            decreases defs.len() - i,
        {
            let (id, parent) = defs[i];
            proof {
                assert(defs@.take(i + 1).drop_last() =~= defs@.take(i as int));
                assert(defs@.take(i + 1).last() == (id, parent));
            }
            match parent {
                Some(p) => {
                    result.add(p, id);
                },
                None => {},
            }
            i = i + 1;
        }
        proof {
            assert(defs@.take(i as int) =~= defs@);
        }
        result
    }

    /// The children of a definition, in order; none where it has none.
    #[verifier::loop_isolation(false)]
    pub fn children(&self, id: DefId) -> (r: Vec<DefId>)
        requires
            self.wf(),
        ensures
            r@ == self.spec_children(id),
    {
        let mut i: usize = 0;
        while i < self.entries.len()
            invariant
                i <= self.entries.len(),
                forall|j: int| 0 <= j < i ==> self.entries[j].0 != id,
            decreases self.entries.len() - i,
        {
            if self.entries[i].0 == id {
                proof {
                    let k = choose|k: int| 0 <= k < self.entries.len() && self.entries[k].0 == id;
                    assert(k == i) by {
                        if k != i {
                            if k < i {
                                assert(self.entries[k].0 != self.entries[i as int].0);
                            } else {
                                assert(self.entries[i as int].0 != self.entries[k].0);
                            }
                        }
                    }
                }
                let kids = &self.entries[i].1;
                let mut out: Vec<DefId> = Vec::new();
                let mut j: usize = 0;
                while j < kids.len()
                    invariant
                        j <= kids.len(),
                        out@ == kids@.take(j as int),
                    decreases kids.len() - j,
                {
                    out.push(kids[j]);
                    proof {
                        assert(kids@.take(j + 1) =~= kids@.take(j as int).push(kids@[j as int]));
                    }
                    j = j + 1;
                }
                proof {
                    assert(kids@.take(j as int) =~= kids@);
                }
                return out;
            }
            i = i + 1;
        }
        Vec::new()
    }

    /// Record `child` as the last child of `parent`.
    #[verifier::loop_isolation(false)]
    fn add(&mut self, parent: DefId, child: DefId)
        requires
            old(self).wf(),
        ensures
            final(self).wf(),
            final(self).spec_children(parent) == old(self).spec_children(parent).push(child),
            forall|p: DefId| p != parent ==> #[trigger] final(self).spec_children(p) == old(self).spec_children(p),
    {
        let ghost e0 = self.entries@;
        let mut i: usize = 0;
        while i < self.entries.len()
            invariant
                i <= self.entries.len(),
                self.entries@ == e0,
                forall|j: int| 0 <= j < i ==> self.entries[j].0 != parent,
            decreases self.entries.len() - i,
        {
            if self.entries[i].0 == parent {
                let ghost before = self.entries[i as int].1@;
                self.entries[i].1.push(child);
                proof {
                    assert forall|a: int, b: int| 0 <= a < b < self.entries.len() implies #[trigger] self.entries[a].0 != #[trigger] self.entries[b].0 by {
                        assert(self.entries[a].0 == e0[a].0 && self.entries[b].0 == e0[b].0);
                    }
                    let k = choose|k: int| 0 <= k < self.entries.len() && self.entries[k].0 == parent;
                    assert(k == i) by {
                        if k != i {
                            assert(e0[k].0 == self.entries[k].0);
                            if k < i {
                                assert(e0[k].0 != e0[i as int].0);
                            } else {
                                assert(e0[i as int].0 != e0[k].0);
                            }
                        }
                    }
                    assert(self.entries[i as int].1@ == before.push(child));
                    assert forall|p: DefId| p != parent implies #[trigger] self.spec_children(p) == old(self).spec_children(p) by {
                        if exists|j: int| 0 <= j < self.entries.len() && self.entries[j].0 == p {
                            let j = choose|j: int| 0 <= j < self.entries.len() && self.entries[j].0 == p;
                            assert(e0[j].0 == p);
                            let j0 = choose|j: int| 0 <= j < e0.len() && e0[j].0 == p;
                            assert(j == j0) by {
                                if j != j0 {
                                    if j < j0 {
                                        assert(e0[j].0 != e0[j0].0);
                                    } else {
                                        assert(e0[j0].0 != e0[j].0);
                                    }
                                }
                            }
                            assert(self.entries[j] == e0[j]);
                        } else {
                            assert forall|j: int| 0 <= j < e0.len() implies e0[j].0 != p by {
                                assert(self.entries[j].0 == e0[j].0);
                            }
                        }
                    }
                }
                return;
            }
            i = i + 1;
        }
        let mut kids = Vec::new();
        kids.push(child);
        self.entries.push((parent, kids));
        proof {
            assert forall|a: int, b: int| 0 <= a < b < self.entries.len() implies #[trigger] self.entries[a].0 != #[trigger] self.entries[b].0 by {
                if b < e0.len() {
                    assert(self.entries[a] == e0[a] && self.entries[b] == e0[b]);
                } else {
                    assert(self.entries[a] == e0[a]);
                }
            }
            let n = e0.len() as int;
            assert(self.entries[n].0 == parent);
            let k = choose|k: int| 0 <= k < self.entries.len() && self.entries[k].0 == parent;
            assert(k == n) by {
                if k < n {
                    assert(e0[k].0 == parent);
                }
            }
            assert(!(exists|j: int| 0 <= j < e0.len() && e0[j].0 == parent));
            assert(kids@ =~= Seq::<DefId>::empty().push(child));
            assert forall|p: DefId| p != parent implies #[trigger] self.spec_children(p) == old(self).spec_children(p) by {
                if exists|j: int| 0 <= j < self.entries.len() && self.entries[j].0 == p {
                    let j = choose|j: int| 0 <= j < self.entries.len() && self.entries[j].0 == p;
                    assert(j < n);
                    assert(e0[j].0 == p);
                    let j0 = choose|j: int| 0 <= j < e0.len() && e0[j].0 == p;
                    assert(j == j0) by {
                        if j != j0 {
                            if j < j0 {
                                assert(self.entries[j].0 != self.entries[j0].0);
                            } else {
                                assert(self.entries[j0].0 != self.entries[j].0);
                            }
                        }
                    }
                } else {
                    assert forall|j: int| 0 <= j < e0.len() implies e0[j].0 != p by {
                        assert(self.entries[j].0 == e0[j].0);
                    }
                }
            }
        }
    }
}

/// The position of the last definition with id `id`, if any.
pub open spec fn last_with_id(defs: Seq<DefId>, id: DefId) -> Option<nat>
    decreases defs.len(),
{
    if defs.len() == 0 {
        None
    } else if defs.last() == id {
        Some((defs.len() - 1) as nat)
    } else {
        last_with_id(defs.drop_last(), id)
    }
}

/// The definitions by id: where several share one, the last.
pub struct Defs {
    ids: Vec<DefId>,
}

impl Defs {
    /// The position, among the definitions indexed, of the one with id `id`.
    pub closed spec fn spec_position(&self, id: DefId) -> Option<nat> {
        last_with_id(self.ids@, id)
    }

    /// Index definitions by their ids.
    pub fn new(ids: Vec<DefId>) -> (r: Defs)
        ensures
            forall|id: DefId| #[trigger] r.spec_position(id) == last_with_id(ids@, id),
    {
        Defs { ids }
    }

    /// The position of the definition with id `id`, if any (the last, where several have it).
    pub fn get(&self, id: DefId) -> (r: Option<usize>)
        ensures
            match self.spec_position(id) {
                Some(k) => r == Some(k as usize),
                None => r is None,
            },
    {
        let mut i: usize = self.ids.len();
        proof {
            assert(self.ids@.take(i as int) =~= self.ids@);
        }
        while i > 0
            invariant
                i <= self.ids.len(),
                last_with_id(self.ids@, id) == last_with_id(self.ids@.take(i as int), id),
            decreases i,
        {
            proof {
                assert(self.ids@.take(i as int).drop_last() =~= self.ids@.take(i - 1));
                assert(self.ids@.take(i as int).last() == self.ids@[i - 1]);
            }
            if self.ids[i - 1] == id {
                return Some(i - 1);
            }
            i = i - 1;
        }
        None
    }
}

} // verus!
