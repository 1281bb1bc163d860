//! Textual scopes: the old, ordered way `macro_rules!` names are resolved.
//!
//! A name can be invoked before the scope that will define it is known, as in
//!
//! ```text
//! in_t!();
//! c!();
//!
//! mod t {
//!     #[macro_export]
//!     macro_rules! in_t {
//!         () => { macro_rules! c { () => (); } };
//!     }
//! }
//! ```
//!
//! so each point of a module has a scope, and expanding an item adds definitions to the scopes
//! after it, without changing its own. The scopes form doubly linked chains: each scope looks
//! back to the one before it, and a new scope can be inserted after any scope, before the one
//! that followed it. They are held in an arena and named by their position in it.

use crate::items::DeclarativeMacroItem;
use crate::text::str_eq;
use vstd::prelude::*;

verus! {

/// A scope at one point of a module.
#[derive(Debug, Clone, Copy, PartialEq, Eq, Structural)]
pub struct TextualScope(pub usize);

/// One scope: the scope before it, the definition made at it, and the scope after it.
pub struct TextualNode {
    pub previous: Option<usize>,
    pub definition: Option<DeclarativeMacroItem>,
    pub next: Option<usize>,
}

/// All the textual scopes of a crate.
pub struct TextualScopes {
    nodes: Vec<TextualNode>,
    /// A place for each scope in an order that every chain follows: a scope's `previous` comes
    /// before it and its `next` after it.
    ranks: Ghost<Seq<nat>>,
}

/// Whether a link points into a list of `n` scopes.
pub open spec fn link_ok(link: Option<usize>, n: nat) -> bool {
    match link {
        Some(i) => i < n,
        None => true,
    }
}

/// The definition of `name` seen from scope `i`: the nearest definition of that name among `i`
/// and the scopes before it, following at most `fuel` links back.
pub open spec fn chain_lookup(nodes: Seq<TextualNode>, i: int, name: Seq<char>, fuel: nat) -> Option<
    DeclarativeMacroItem,
>
    decreases fuel,
{
    if !(0 <= i < nodes.len()) {
        None
    } else {
        let node = nodes[i];
        match node.definition {
            Some(d) if d.metadata.name@ == name => Some(d),
            _ => if fuel == 0 {
                None
            } else {
                match node.previous {
                    Some(p) => chain_lookup(nodes, p as int, name, (fuel - 1) as nat),
                    None => None,
                }
            },
        }
    }
}

/// Scope `i`'s links point into the list, to a scope placed before it (`previous`) and after it
/// (`next`), which looks back to it; and its place is below the number of scopes.
pub open spec fn ranked(nodes: Seq<TextualNode>, ranks: Seq<nat>, i: int) -> bool {
    &&& link_ok(nodes[i].previous, nodes.len())
    &&& link_ok(nodes[i].next, nodes.len())
    &&& ranks[i] < nodes.len()
    &&& (nodes[i].previous matches Some(p) ==> ranks[p as int] < ranks[i])
    &&& (nodes[i].next matches Some(q) ==> ranks[i] < ranks[q as int] && nodes[q as int].previous == Some(i as usize))
}

/// A walk back from scope `i` with at least as many steps as its place gives the same result
/// whatever the number of steps.
proof fn lemma_steps_enough(nodes: Seq<TextualNode>, ranks: Seq<nat>, i: int, name: Seq<char>, f: nat, g: nat)
    requires
        ranks.len() == nodes.len(),
        forall|k: int| 0 <= k < nodes.len() ==> #[trigger] ranked(nodes, ranks, k),
        0 <= i < nodes.len(),
        f >= ranks[i],
        g >= ranks[i],
    ensures
        chain_lookup(nodes, i, name, f) == chain_lookup(nodes, i, name, g),
    decreases ranks[i],
{
    assert(ranked(nodes, ranks, i));
    match nodes[i].previous {
        Some(p) => {
            assert(ranked(nodes, ranks, p as int));
            if f > 0 && g > 0 {
                lemma_steps_enough(nodes, ranks, p as int, name, (f - 1) as nat, (g - 1) as nat);
            }
        },
        None => {},
    }
}

/// Whether `def` is a definition of `name`.
pub open spec fn defines(def: Option<DeclarativeMacroItem>, name: Seq<char>) -> bool {
    def is Some && def->0.metadata.name@ == name
}

/// The definition of `name` seen from scope `i`, walking back as far as the chain goes.
pub open spec fn seen_from(nodes: Seq<TextualNode>, i: int, name: Seq<char>) -> Option<DeclarativeMacroItem> {
    chain_lookup(nodes, i, name, nodes.len())
}

/// Whether walking back from scope `i` reaches scope `t` within `steps` links.
pub open spec fn reaches(nodes: Seq<TextualNode>, i: int, t: int, steps: nat) -> bool
    decreases steps,
{
    if !(0 <= i < nodes.len()) {
        false
    } else if i == t {
        true
    } else if steps == 0 {
        false
    } else {
        match nodes[i].previous {
            Some(p) => reaches(nodes, p as int, t, (steps - 1) as nat),
            None => false,
        }
    }
}

/// Whether walking back from scope `i` for a definition of `name` comes to scope `t` before
/// finding one, within `steps` links.
pub open spec fn passes_to(nodes: Seq<TextualNode>, i: int, t: int, name: Seq<char>, steps: nat) -> bool
    decreases steps,
{
    if !(0 <= i < nodes.len()) {
        false
    } else if i == t {
        true
    } else if defines(nodes[i].definition, name) || steps == 0 {
        false
    } else {
        match nodes[i].previous {
            Some(p) => passes_to(nodes, p as int, t, name, (steps - 1) as nat),
            None => false,
        }
    }
}

/// A scope reached walking back from `i` is placed no later than `i`.
proof fn lemma_reached_is_earlier(nodes: Seq<TextualNode>, ranks: Seq<nat>, i: int, t: int, steps: nat)
    requires
        ranks.len() == nodes.len(),
        forall|k: int| 0 <= k < nodes.len() ==> #[trigger] ranked(nodes, ranks, k),
        reaches(nodes, i, t, steps),
    ensures
        0 <= t < nodes.len(),
        ranks[t] <= ranks[i],
    decreases steps,
{
    if i != t {
        assert(ranked(nodes, ranks, i));
        let p = nodes[i].previous->0 as int;
        assert(ranked(nodes, ranks, p));
        lemma_reached_is_earlier(nodes, ranks, p, t, (steps - 1) as nat);
    }
}

/// Where the walk for `name` from `i` comes to `t` first, `i` sees what `t` sees.
proof fn lemma_passes_sees(nodes: Seq<TextualNode>, ranks: Seq<nat>, i: int, t: int, name: Seq<char>, steps: nat)
    requires
        ranks.len() == nodes.len(),
        forall|k: int| 0 <= k < nodes.len() ==> #[trigger] ranked(nodes, ranks, k),
        passes_to(nodes, i, t, name, steps),
    ensures
        seen_from(nodes, i, name) == seen_from(nodes, t, name),
    decreases steps,
{
    if i != t {
        let n = nodes.len();
        assert(ranked(nodes, ranks, i));
        let p = nodes[i].previous->0 as int;
        assert(ranked(nodes, ranks, p));
        lemma_steps_enough(nodes, ranks, p, name, (n - 1) as nat, n);
        lemma_passes_sees(nodes, ranks, p, t, name, (steps - 1) as nat);
    }
}

/// `new` is `old` with a scope holding `def` inserted after `s` (and before `old[s].next`, if
/// any), at the end of the list.
pub open spec fn inserted_after(
    old: Seq<TextualNode>,
    new: Seq<TextualNode>,
    s: int,
    def: Option<DeclarativeMacroItem>,
) -> bool {
    let c = old.len() as int;
    &&& 0 <= s < old.len()
    &&& new.len() == old.len() + 1
    &&& new[c].previous == Some(s as usize)
    &&& new[c].definition == def
    &&& forall|k: int| 0 <= k < old.len() ==> #[trigger] new[k].definition == old[k].definition
    &&& forall|k: int| 0 <= k < old.len() ==> #[trigger] new[k].previous == (if old[s].next == Some(k as usize) {
        Some(c as usize)
    } else {
        old[k].previous
    })
}

/// After a scope holding `def` is inserted after `s`: a lookup from a scope placed no later
/// than `s` is unchanged, and any other lookup from an old scope is unchanged or finds `def`.
proof fn lemma_inserted_lookups(
    old: Seq<TextualNode>,
    r0: Seq<nat>,
    new: Seq<TextualNode>,
    r1: Seq<nat>,
    s: int,
    def: Option<DeclarativeMacroItem>,
    name: Seq<char>,
    i: int,
)
    requires
        r0.len() == old.len(),
        r1.len() == new.len(),
        forall|k: int| 0 <= k < old.len() ==> #[trigger] ranked(old, r0, k),
        forall|k: int| 0 <= k < new.len() ==> #[trigger] ranked(new, r1, k),
        inserted_after(old, new, s, def),
        new.len() <= usize::MAX,
        0 <= i < old.len(),
    ensures
        r0[i] <= r0[s] ==> seen_from(new, i, name) == seen_from(old, i, name),
        seen_from(new, i, name) == seen_from(old, i, name) || (defines(def, name) && seen_from(new, i, name) == def),
    decreases r0[i],
{
    let on = old.len();
    let nn = new.len();
    let c = on as int;
    assert(ranked(old, r0, i));
    assert(ranked(new, r1, i));
    assert(ranked(old, r0, s));
    assert(new[i].definition == old[i].definition);
    match old[i].definition {
        Some(d) if d.metadata.name@ == name => {},
        _ => {
            if old[s].next == Some(i as usize) {
                // the scope that followed `s` now looks back through the new scope
                assert(old[s].next->0 as int == i);
                assert(r0[s] < r0[i]);
                assert(ranked(new, r1, c));
                assert(r1[s] < r1[c]);
                lemma_steps_enough(new, r1, c, name, (nn - 1) as nat, nn);
                assert(new[i].previous == Some(c as usize));
                assert(seen_from(new, i, name) == chain_lookup(new, c, name, (nn - 1) as nat));
                assert(seen_from(new, i, name) == seen_from(new, c, name));
                if !defines(def, name) {
                    assert(ranked(new, r1, s));
                    lemma_steps_enough(new, r1, s, name, (nn - 1) as nat, nn);
                    assert(seen_from(new, c, name) == chain_lookup(new, s, name, (nn - 1) as nat));
                    lemma_steps_enough(old, r0, s, name, (on - 1) as nat, on);
                    assert(seen_from(old, i, name) == chain_lookup(old, s, name, (on - 1) as nat));
                    lemma_inserted_lookups(old, r0, new, r1, s, def, name, s);
                } else {
                    assert(seen_from(new, c, name) == def);
                }
            } else {
                match old[i].previous {
                    Some(p) => {
                        assert(ranked(old, r0, p as int));
                        assert(ranked(new, r1, p as int));
                        lemma_steps_enough(new, r1, p as int, name, (nn - 1) as nat, nn);
                        lemma_steps_enough(old, r0, p as int, name, (on - 1) as nat, on);
                        lemma_inserted_lookups(old, r0, new, r1, s, def, name, p as int);
                    },
                    None => {},
                }
            }
        },
    }
}

/// After a scope holding `def` is inserted after `s`: the new scope sees `def`, then what `s`
/// saw; the scope that followed `s` sees its own definition, then `def`, then what `s` saw.
proof fn lemma_new_scope_lookups(
    old: Seq<TextualNode>,
    r0: Seq<nat>,
    new: Seq<TextualNode>,
    r1: Seq<nat>,
    s: int,
    def: Option<DeclarativeMacroItem>,
    name: Seq<char>,
)
    requires
        r0.len() == old.len(),
        r1.len() == new.len(),
        forall|k: int| 0 <= k < old.len() ==> #[trigger] ranked(old, r0, k),
        forall|k: int| 0 <= k < new.len() ==> #[trigger] ranked(new, r1, k),
        inserted_after(old, new, s, def),
        new.len() <= usize::MAX,
    ensures
        seen_from(new, old.len() as int, name) == if defines(def, name) {
            def
        } else {
            seen_from(old, s, name)
        },
        old[s].next matches Some(j) ==> seen_from(new, j as int, name) == if defines(old[j as int].definition, name) {
            old[j as int].definition
        } else if defines(def, name) {
            def
        } else {
            seen_from(old, s, name)
        },
{
    let on = old.len();
    let nn = new.len();
    let c = on as int;
    assert(ranked(new, r1, c));
    assert(ranked(old, r0, s));
    if !defines(def, name) {
        assert(ranked(new, r1, s));
        assert(r1[s] < r1[c]);
        lemma_steps_enough(new, r1, s, name, (nn - 1) as nat, nn);
        lemma_inserted_lookups(old, r0, new, r1, s, def, name, s);
    }
    if let Some(j) = old[s].next {
        assert(old[s].next->0 as int == j as int);
        assert(ranked(old, r0, j as int));
        assert(new[j as int].definition == old[j as int].definition);
        assert(new[j as int].previous == Some(c as usize));
        lemma_steps_enough(new, r1, c, name, (nn - 1) as nat, nn);
        if !defines(old[j as int].definition, name) && !defines(def, name) {
            lemma_steps_enough(old, r0, s, name, (on - 1) as nat, on);
            assert(old[j as int].previous == Some(s as usize));
        }
    }
}

impl TextualScopes {
    /// Every link points to a scope in the arena.
    pub closed spec fn wf(&self) -> bool {
        &&& self.ranks@.len() == self.nodes.len()
        &&& forall|i: int| 0 <= i < self.nodes.len() ==> #[trigger] ranked(self.nodes@, self.ranks@, i)
    }

    /// The scopes, by position.
    pub closed spec fn nodes(&self) -> Seq<TextualNode> {
        self.nodes@
    }

    /// No scopes yet.
    pub fn new() -> (r: TextualScopes)
        ensures
            r.wf(),
            r.nodes() == Seq::<TextualNode>::empty(),
    {
        TextualScopes { nodes: Vec::new(), ranks: Ghost(Seq::empty()) }
    }

    /// Create an empty scope, with nothing before or after it.
    pub fn empty(&mut self) -> (r: TextualScope)
        requires
            old(self).wf(),
            old(self).nodes().len() < usize::MAX,
        ensures
            final(self).wf(),
            r.0 == old(self).nodes().len(),
            final(self).nodes() == old(self).nodes().push(
                TextualNode { previous: None, definition: None, next: None },
            ),
    {
        let i = self.nodes.len();
        self.nodes.push(TextualNode { previous: None, definition: None, next: None });
        proof {
            self.ranks@ = self.ranks@.push(0);
            assert forall|k: int| 0 <= k < self.nodes.len() implies ranked(self.nodes@, self.ranks@, k) by {
                if k < i {
                    assert(ranked(old(self).nodes@, old(self).ranks@, k));
                }
            }
        }
        TextualScope(i)
    }

    /// A walk back from a scope reaches the start of its chain: allowing it more steps than there
    /// are scopes changes nothing, so `lookup` finds the nearest definition however long the
    /// chain.
    pub proof fn lemma_walk_reaches_start(&self, i: int, name: Seq<char>, steps: nat)
        requires
            self.wf(),
            steps >= self.nodes().len(),
        ensures
            chain_lookup(self.nodes(), i, name, steps) == chain_lookup(self.nodes(), i, name, self.nodes().len()),
    {
        if 0 <= i < self.nodes@.len() {
            assert(ranked(self.nodes@, self.ranks@, i));
            lemma_steps_enough(self.nodes@, self.ranks@, i, name, steps, self.nodes@.len());
        }
    }

    /// Look up a macro name from a scope: the nearest definition of it at or before the scope.
    pub fn lookup(&self, scope: TextualScope, name: &str) -> (r: Option<&DeclarativeMacroItem>)
        requires
            self.wf(),
        ensures
            match seen_from(self.nodes(), scope.0 as int, name@) {
                Some(d) => r == Some(&d),
                None => r is None,
            },
    {
        let n = self.nodes.len();
        let mut cur = scope.0;
        let mut fuel = n;
        while cur < n
            invariant
                n == self.nodes@.len(),
                self.wf(),
                fuel <= n,
                chain_lookup(self.nodes@, cur as int, name@, fuel as nat) == chain_lookup(
                    self.nodes@,
                    scope.0 as int,
                    name@,
                    n as nat,
                ),
            decreases fuel,
        {
            let node = &self.nodes[cur];
            if let Some(d) = &node.definition {
                if str_eq(d.metadata.name.as_str(), name) {
                    return Some(d);
                }
            }
            if fuel == 0 {
                return None;
            }
            match node.previous {
                Some(p) => {
                    cur = p;
                    fuel = fuel - 1;
                },
                None => return None,
            }
        }
        None
    }

    /// Append a definition to a scope, giving a new scope holding it, placed after `scope` and
    /// before the scope that followed it, if any.
    pub fn append_scope(&mut self, scope: TextualScope, definition: Option<DeclarativeMacroItem>) -> (r: TextualScope)
        requires
            old(self).wf(),
            scope.0 < old(self).nodes().len(),
            old(self).nodes().len() < usize::MAX,
        ensures
            final(self).wf(),
            r.0 == old(self).nodes().len(),
            final(self).nodes().len() == old(self).nodes().len() + 1,
            ({
                let old_nodes = old(self).nodes();
                let next = old_nodes[scope.0 as int].next;
                let child = TextualNode { previous: Some(scope.0), definition, next };
                let with_child = old_nodes.update(
                    scope.0 as int,
                    TextualNode { next: Some(r.0), ..old_nodes[scope.0 as int] },
                ).push(child);
                final(self).nodes() == match next {
                    Some(j) => with_child.update(j as int, TextualNode { previous: Some(r.0), ..with_child[j as int] }),
                    None => with_child,
                }
            }),
            forall|name: Seq<char>| #[trigger] seen_from(final(self).nodes(), r.0 as int, name) == if defines(definition, name) {
                definition
            } else {
                seen_from(old(self).nodes(), scope.0 as int, name)
            },
            forall|name: Seq<char>| #[trigger] seen_from(final(self).nodes(), scope.0 as int, name) == seen_from(old(self).nodes(), scope.0 as int, name),
            forall|i: int, name: Seq<char>| 0 <= i < old(self).nodes().len() ==> #[trigger] seen_from(final(self).nodes(), i, name)
                == seen_from(old(self).nodes(), i, name) || (defines(definition, name) && seen_from(final(self).nodes(), i, name)
                == definition),
            forall|i: int, name: Seq<char>| 0 <= i < old(self).nodes().len() && #[trigger] reaches(old(self).nodes(), scope.0 as int, i, old(self).nodes().len())
                ==> #[trigger] seen_from(final(self).nodes(), i, name) == seen_from(old(self).nodes(), i, name),
            forall|i: int, name: Seq<char>| defines(definition, name) && #[trigger] passes_to(final(self).nodes(), i, r.0 as int, name, final(self).nodes().len())
                ==> #[trigger] seen_from(final(self).nodes(), i, name) == definition,
            old(self).nodes()[scope.0 as int].next matches Some(j) ==> forall|name: Seq<char>| #[trigger] seen_from(final(self).nodes(), j as int, name) == if defines(old(self).nodes()[j as int].definition, name) {
                old(self).nodes()[j as int].definition
            } else if defines(definition, name) {
                definition
            } else {
                seen_from(old(self).nodes(), scope.0 as int, name)
            },
    {
        let ghost old_nodes = self.nodes@;
        let c = self.nodes.len();
        let next = self.nodes[scope.0].next;
        proof {
            assert(ranked(self.nodes@, self.ranks@, scope.0 as int));
        }
        self.nodes.push(TextualNode { previous: Some(scope.0), definition, next });
        let ghost pushed = self.nodes@;
        let mut s = self.nodes.remove(scope.0);
        let ghost s_new = TextualNode { next: Some(c), ..s };
        s.next = Some(c);
        self.nodes.insert(scope.0, s);
        proof {
            assert(self.nodes@ =~= pushed.update(scope.0 as int, s_new));
        }
        let ghost with_child = self.nodes@;
        if let Some(j) = next {
            let mut n = self.nodes.remove(j);
            let ghost n_new = TextualNode { previous: Some(c), ..n };
            n.previous = Some(c);
            self.nodes.insert(j, n);
            proof {
                assert(self.nodes@ =~= with_child.update(j as int, n_new));
            }
        }
        proof {
            assert(old_nodes.update(scope.0 as int, TextualNode { next: Some(c), ..old_nodes[scope.0 as int] }).push(
                TextualNode { previous: Some(scope.0), definition, next },
            ) =~= with_child);
        }
        proof {
            let r0 = self.ranks@;
            let rs = r0[scope.0 as int];
            assert(ranked(old_nodes, r0, scope.0 as int));
            let r1 = Seq::new((c + 1) as nat, |k: int| if k == c { rs + 1 } else if r0[k] > rs { (r0[k] + 1) as nat } else { r0[k] });
            self.ranks@ = r1;
            assert forall|k: int| 0 <= k < self.nodes.len() implies #[trigger] ranked(self.nodes@, r1, k) by {
                if k < c {
                    assert(ranked(old_nodes, r0, k));
                }
                if let Some(j) = next {
                    assert(ranked(old_nodes, r0, j as int));
                }
            }
        }
        proof {
            let new_nodes = self.nodes@;
            let r0 = old(self).ranks@;
            let r1 = self.ranks@;
            assert(inserted_after(old_nodes, new_nodes, scope.0 as int, definition));
            assert forall|name: Seq<char>| #[trigger] seen_from(new_nodes, c as int, name) == if defines(definition, name) {
                definition
            } else {
                seen_from(old_nodes, scope.0 as int, name)
            } by {
                lemma_new_scope_lookups(old_nodes, r0, new_nodes, r1, scope.0 as int, definition, name);
            }
            assert forall|name: Seq<char>| #[trigger] seen_from(new_nodes, scope.0 as int, name) == seen_from(old_nodes, scope.0 as int, name) by {
                lemma_inserted_lookups(old_nodes, r0, new_nodes, r1, scope.0 as int, definition, name, scope.0 as int);
            }
            assert forall|i: int, name: Seq<char>| 0 <= i < old_nodes.len() implies #[trigger] seen_from(new_nodes, i, name)
                == seen_from(old_nodes, i, name) || (defines(definition, name) && seen_from(new_nodes, i, name) == definition) by {
                lemma_inserted_lookups(old_nodes, r0, new_nodes, r1, scope.0 as int, definition, name, i);
            }
            assert forall|i: int, name: Seq<char>| 0 <= i < old_nodes.len() && #[trigger] reaches(old_nodes, scope.0 as int, i, old_nodes.len())
                implies #[trigger] seen_from(new_nodes, i, name) == seen_from(old_nodes, i, name) by {
                lemma_reached_is_earlier(old_nodes, r0, scope.0 as int, i, old_nodes.len());
                lemma_inserted_lookups(old_nodes, r0, new_nodes, r1, scope.0 as int, definition, name, i);
            }
            assert forall|i: int, name: Seq<char>| defines(definition, name) && #[trigger] passes_to(new_nodes, i, c as int, name, new_nodes.len())
                implies #[trigger] seen_from(new_nodes, i, name) == definition by {
                lemma_passes_sees(new_nodes, r1, i, c as int, name, new_nodes.len());
                lemma_new_scope_lookups(old_nodes, r0, new_nodes, r1, scope.0 as int, definition, name);
            }
            if let Some(j) = next {
                assert forall|name: Seq<char>| #[trigger] seen_from(new_nodes, j as int, name) == if defines(old_nodes[j as int].definition, name) {
                    old_nodes[j as int].definition
                } else if defines(definition, name) {
                    definition
                } else {
                    seen_from(old_nodes, scope.0 as int, name)
                } by {
                    lemma_new_scope_lookups(old_nodes, r0, new_nodes, r1, scope.0 as int, definition, name);
                }
            }
        }
        TextualScope(c)
    }

    /// Create a submodule's scope, which sees the definitions at and before `scope` (and those
    /// later added just after it), but adds nothing to the scopes after it.
    pub fn make_dead_submodule(&mut self, scope: TextualScope) -> (r: TextualScope)
        requires
            old(self).wf(),
            scope.0 < old(self).nodes().len(),
            old(self).nodes().len() + 1 < usize::MAX,
        ensures
            final(self).wf(),
            r.0 == old(self).nodes().len() + 1,
            final(self).nodes().len() == old(self).nodes().len() + 2,
            final(self).nodes()[r.0 as int] == (TextualNode {
                previous: Some((r.0 - 1) as usize),
                definition: None,
                next: None,
            }),
            final(self).nodes()[r.0 - 1].previous == Some(scope.0),
            final(self).nodes()[r.0 - 1].definition is None,
    {
        proof {
            assert(ranked(self.nodes@, self.ranks@, scope.0 as int));
        }
        let tracker = self.append_scope(scope, None);
        let i = self.nodes.len();
        let ghost before = self.nodes@;
        let ghost r0 = self.ranks@;
        proof {
            assert(ranked(before, r0, tracker.0 as int));
            assert(before[tracker.0 as int].previous == Some(scope.0));
            assert(before[tracker.0 as int].definition is None);
        }
        self.nodes.push(TextualNode { previous: Some(tracker.0), definition: None, next: None });
        proof {
            self.ranks@ = r0.push(r0[tracker.0 as int] + 1);
            assert forall|k: int| 0 <= k < self.nodes.len() implies #[trigger] ranked(self.nodes@, self.ranks@, k) by {
                if k < i {
                    assert(ranked(before, r0, k));
                }
            }
        }
        TextualScope(i)
    }
}

} // verus!
