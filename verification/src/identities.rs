//! Identities: crates, and items named by their path within a crate.
//!
//! Completely different from an `Ident`[ifier], which is just a textual identifier.
//! Items are identified by their name concatenated to the scope they were introduced in.
//! An item may have many bindings but it will only ever have one `Identity`.

use crate::text::{copy_strings, has_path_sep, joined_segments, owned_strings, push_joined_segments, same_strings};
use vstd::prelude::*;
use vstd::string::*;

verus! {

/// A textual identifier.
pub type Ident = String;

/// No segment of a path contains the separator `::`.
pub open spec fn no_seps(p: Seq<Seq<char>>) -> bool {
    forall|i: int| 0 <= i < p.len() ==> !has_path_sep(#[trigger] p[i])
}

/// A crate, absolutely resolved within a crate graph: a name and a version.
#[derive(Debug, Clone, PartialEq, Eq, Hash, PartialOrd, Ord)]
pub struct CrateId {
    /// The name of the crate.
    pub name: String,
    /// The version of the crate.
    pub version: String,
}

/// The characters of a crate's name and version.
pub struct CrateIdView {
    pub name: Seq<char>,
    pub version: Seq<char>,
}

impl View for CrateId {
    type V = CrateIdView;

    open spec fn view(&self) -> CrateIdView {
        CrateIdView { name: self.name@, version: self.version@ }
    }
}

/// An item, identified by its crate and its path within that crate.
#[derive(Debug, Clone, PartialEq, Eq, Hash, PartialOrd, Ord)]
pub struct Identity {
    /// The containing crate.
    pub crate_: CrateId,
    /// The path within the crate.
    pub path: Vec<Ident>,
}

/// The characters of an identity's crate and path.
pub struct IdentityView {
    pub crate_: CrateIdView,
    pub path: Seq<Seq<char>>,
}

impl View for Identity {
    type V = IdentityView;

    open spec fn view(&self) -> IdentityView {
        IdentityView { crate_: self.crate_@, path: self.path.deep_view() }
    }
}

/// The identity of the root of crate `c`.
pub open spec fn root_of(c: CrateIdView) -> IdentityView {
    IdentityView { crate_: c, path: Seq::empty() }
}

/// `id` with one more segment.
pub open spec fn joined(id: IdentityView, seg: Seq<char>) -> IdentityView {
    IdentityView { crate_: id.crate_, path: id.path.push(seg) }
}

/// The debug form of a crate: `name[version]`.
pub open spec fn crate_debug(c: CrateIdView) -> Seq<char> {
    c.name + "["@ + c.version + "]"@
}

/// The debug form of an identity: its crate, then `::` and each segment.
pub open spec fn identity_debug(id: IdentityView) -> Seq<char> {
    crate_debug(id.crate_) + joined_segments(id.path)
}

impl CrateId {
    /// Create a new `CrateId`.
    pub fn new(name: &str, version: &str) -> (r: CrateId)
        ensures
            r@ == (CrateIdView { name: name@, version: version@ }),
    {
        CrateId { name: name.to_string(), version: version.to_string() }
    }

    /// The identity of the root of the crate (i.e. its top-level module).
    pub fn root(&self) -> (r: Identity)
        ensures
            r@ == root_of(self@),
    {
        Identity::root(self)
    }

    /// A copy of this crate id.
    pub fn dup(&self) -> (r: CrateId)
        ensures
            r@ == self@,
    {
        CrateId { name: self.name.clone(), version: self.version.clone() }
    }

    /// Whether two crate ids name the same crate.
    pub fn same(&self, other: &CrateId) -> (r: bool)
        ensures
            r == (self@ == other@),
    {
        self.name == other.name && self.version == other.version
    }

    /// The debug form: `name[version]`.
    pub fn debug_string(&self) -> (r: String)
        ensures
            r@ == crate_debug(self@),
    {
        let mut s = self.name.clone();
        proof {
            reveal_strlit("[");
            reveal_strlit("]");
        }
        s.append("[");
        s.append(self.version.as_str());
        s.append("]");
        s
    }
}

impl Identity {
    /// Create a new identity from a crate and a path.
    pub fn new(crate_: &CrateId, path: &[&str]) -> (r: Identity)
        ensures
            r.crate_@ == crate_@,
            r.path.len() == path@.len(),
            forall|i: int| 0 <= i < path@.len() ==> #[trigger] r.path[i]@ == path@[i]@,
    {
        Identity { crate_: crate_.dup(), path: owned_strings(path) }
    }

    /// Create an identity from a crate and owned path segments.
    pub fn from_parts(crate_: &CrateId, path: Vec<Ident>) -> (r: Identity)
        ensures
            r@ == (IdentityView { crate_: crate_@, path: path.deep_view() }),
    {
        Identity { crate_: crate_.dup(), path }
    }

    /// The identity of the root of a crate.
    pub fn root(crate_: &CrateId) -> (r: Identity)
        ensures
            r@ == root_of(crate_@),
    {
        let r = Identity { crate_: crate_.dup(), path: Vec::new() };
        proof {
            assert(r.path.deep_view() =~= Seq::<Seq<char>>::empty());
        }
        r
    }

    /// A copy of this identity.
    pub fn dup(&self) -> (r: Identity)
        ensures
            r@ == self@,
    {
        Identity { crate_: self.crate_.dup(), path: copy_strings(&self.path) }
    }

    /// Whether two identities are the same.
    pub fn same(&self, other: &Identity) -> (r: bool)
        ensures
            r == (self@ == other@),
    {
        self.crate_.same(&other.crate_) && same_strings(&self.path, &other.path)
    }

    /// Add another component to the path. The component must not contain `::`.
    pub fn join(&mut self, elem: Ident) -> (r: &mut Self)
        requires
            !has_path_sep(elem@),
        ensures
            (*r)@ == joined(old(self)@, elem@),
            *final(self) == *final(r),
    {
        let ghost old_path = self.path.deep_view();
        self.path.push(elem);
        proof {
            assert(self.path.deep_view() =~= old_path.push(elem@));
        }
        self
    }

    /// Clone a referenced identity and add a component.
    pub fn clone_join(&self, elem: Ident) -> (r: Identity)
        requires
            !has_path_sep(elem@),
        ensures
            r@ == joined(self@, elem@),
    {
        let mut c = self.dup();
        c.join(elem);
        c
    }

    /// Add a sequence of components to the path. No component may contain `::`.
    pub fn join_seq(&mut self, path: Vec<Ident>) -> (r: &mut Self)
        requires
            no_seps(path.deep_view()),
        ensures
            (*r)@ == (IdentityView { crate_: old(self)@.crate_, path: old(self)@.path + path.deep_view() }),
            *final(self) == *final(r),
    {
        let ghost old_view = self@;
        let n = path.len();
        let mut i: usize = 0;
        while i < n
            invariant
                n == path.len(),
                i <= n,
                no_seps(path.deep_view()),
                self@ == (IdentityView { crate_: old_view.crate_, path: old_view.path + path.deep_view().take(i as int) }),
            decreases n - i,
        {
            let seg = path[i].clone();
            proof {
                assert(path.deep_view()[i as int] == path[i as int]@);
            }
            self.join(seg);
            proof {
                assert(old_view.path + path.deep_view().take(i + 1) =~= (old_view.path
                    + path.deep_view().take(i as int)).push(path[i as int]@));
            }
            i = i + 1;
        }
        proof {
            assert(path.deep_view().take(n as int) =~= path.deep_view());
        }
        self
    }

    /// Clone a referenced identity and add a sequence of components.
    pub fn clone_join_seq(&self, path: Vec<Ident>) -> (r: Identity)
        requires
            no_seps(path.deep_view()),
        ensures
            r@ == (IdentityView { crate_: self@.crate_, path: self@.path + path.deep_view() }),
    {
        let mut c = self.dup();
        c.join_seq(path);
        c
    }

    /// The identity of the enclosing scope: this one without its last segment.
    pub fn parent(&self) -> (r: Option<Identity>)
        ensures
            self@.path.len() == 0 ==> r is None,
            self@.path.len() > 0 ==> r is Some && r->0@ == (IdentityView {
                crate_: self@.crate_,
                path: self@.path.drop_last(),
            }),
    {
        let mut result = self.dup();
        if let Some(_) = result.path.pop() {
            proof {
                assert(result.path.deep_view() =~= self@.path.drop_last());
            }
            Some(result)
        } else {
            None
        }
    }

    /// The debug form: the crate, then `::` and each segment.
    pub fn debug_string(&self) -> (r: String)
        ensures
            r@ == identity_debug(self@),
    {
        let mut s = self.crate_.debug_string();
        push_joined_segments(&mut s, &self.path);
        s
    }
}

/// The crate used as crate "a" in tests.
pub fn test_crate_a() -> (r: CrateId)
    ensures
        r@ == (CrateIdView { name: "test_crate_a"@, version: "0.0.0"@ }),
{
    CrateId::new("test_crate_a", "0.0.0")
}

/// The crate used as crate "b" in tests.
pub fn test_crate_b() -> (r: CrateId)
    ensures
        r@ == (CrateIdView { name: "test_crate_b"@, version: "0.0.0"@ }),
{
    CrateId::new("test_crate_b", "0.0.0")
}

/// The crate used as crate "c" in tests.
pub fn test_crate_c() -> (r: CrateId)
    ensures
        r@ == (CrateIdView { name: "test_crate_c"@, version: "0.0.0"@ }),
{
    CrateId::new("test_crate_c", "0.0.0")
}

} // verus!
