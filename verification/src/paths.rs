//! Paths, resolved and unresolved.
//!
//! Segments of an unresolved path don't include generic arguments: paths in signatures can only
//! have types at the ends (there's no such thing as a `T<X>::Y`).

use crate::identities::Ident;
use crate::text::{copy_strings, has_path_sep, joined_segments, owned_strings, push_joined_segments, same_strings};
use vstd::prelude::*;
use vstd::string::*;

verus! {

/// What `syn` parses `s` to as a `syn::Path`: whether it starts with `::`, and the identifier of
/// each segment; `None` where `s` is not a path.
pub uninterp spec fn syn_path_parse(s: Seq<char>) -> Option<(bool, Seq<Seq<char>>)>;

/// The unresolved path that `syn` parses `s` to, where it parses.
pub open spec fn syn_unresolved(s: Seq<char>) -> UnresolvedPathView {
    let (rooted, path) = syn_path_parse(s).unwrap();
    UnresolvedPathView { path, rooted }
}

/// `syn::parse_str::<syn::Path>`: whether the path has a leading `::`, and each segment's
/// identifier (generic arguments are dropped), as `syn`'s grammar for paths gives them.
#[verifier::external_body]
fn parse_syn_path(s: &str) -> (r: Option<(bool, Vec<String>)>)
    ensures
        r.deep_view() == syn_path_parse(s@),
{
    match syn::parse_str::<syn::Path>(s) {
        Ok(p) => Some((p.leading_colon.is_some(), p.segments.iter().map(|seg| seg.ident.to_string()).collect())),
        Err(_) => None,
    }
}

/// An unresolved path: identifiers, and whether the path starts with `::`.
#[derive(Debug, Clone, PartialEq, Eq, Hash)]
pub struct UnresolvedPath {
    /// The components of the path.
    pub path: Vec<Ident>,
    /// Whether the path starts with `::`.
    pub rooted: bool,
}

/// The characters of an unresolved path.
pub struct UnresolvedPathView {
    pub path: Seq<Seq<char>>,
    pub rooted: bool,
}

impl View for UnresolvedPath {
    type V = UnresolvedPathView;

    open spec fn view(&self) -> UnresolvedPathView {
        UnresolvedPathView { path: self.path.deep_view(), rooted: self.rooted }
    }
}

/// The debug form of an unresolved path: segments separated by `::`, with a leading `::` when
/// rooted.
pub open spec fn unresolved_debug(p: UnresolvedPathView) -> Seq<char> {
    if p.path.len() == 0 {
        Seq::empty()
    } else if p.rooted {
        joined_segments(p.path)
    } else {
        p.path[0] + joined_segments(p.path.drop_first())
    }
}

impl UnresolvedPath {
    /// A path from its parts.
    pub fn new(rooted: bool, path: &[&str]) -> (r: UnresolvedPath)
        ensures
            r.rooted == rooted,
            r.path.len() == path@.len(),
            forall|i: int| 0 <= i < path@.len() ==> #[trigger] r.path[i]@ == path@[i]@,
    {
        UnresolvedPath { path: owned_strings(path), rooted }
    }

    /// Parse `s` as a Rust path; `None` where it is not one.
    pub fn parse(s: &str) -> (r: Option<UnresolvedPath>)
        ensures
            syn_path_parse(s@) is None ==> r is None,
            syn_path_parse(s@) is Some ==> r is Some && r->0@ == syn_unresolved(s@),
    {
        if parse_syn_path(s).is_some() {
            Some(UnresolvedPath::fake(s))
        } else {
            None
        }
    }

    /// Make a path from source text, for testing. The text must parse as a path.
    pub fn fake(s: &str) -> (r: UnresolvedPath)
        requires
            syn_path_parse(s@) is Some,
        ensures
            r@ == syn_unresolved(s@),
    {
        let parsed = parse_syn_path(s);
        match parsed {
            Some((rooted, path)) => UnresolvedPath { path, rooted },
            None => {
                proof {
                    assert(false);
                }
                UnresolvedPath { path: Vec::new(), rooted: false }
            },
        }
    }

    /// This path with one more component.
    pub fn join(self, component: Ident) -> (r: UnresolvedPath)
        ensures
            r@ == (UnresolvedPathView { path: self@.path.push(component@), rooted: self@.rooted }),
    {
        let UnresolvedPath { mut path, rooted } = self;
        let ghost old_path = path.deep_view();
        path.push(component);
        proof {
            assert(path.deep_view() =~= old_path.push(component@));
        }
        UnresolvedPath { path, rooted }
    }

    /// The path as a single identifier, if it is one segment long and not rooted.
    pub fn get_ident(&self) -> (r: Option<&Ident>)
        ensures
            (self@.path.len() == 1 && !self@.rooted) ==> r is Some && r->0@ == self@.path[0]
                && *r->0 == self.path@[0],
            !(self@.path.len() == 1 && !self@.rooted) ==> r is None,
    {
        if self.path.len() == 1 && !self.rooted {
            Some(&self.path[0])
        } else {
            None
        }
    }

    /// A copy of this path.
    pub fn dup(&self) -> (r: UnresolvedPath)
        ensures
            r@ == self@,
    {
        UnresolvedPath { path: copy_strings(&self.path), rooted: self.rooted }
    }

    /// Whether two paths are the same.
    pub fn same(&self, other: &UnresolvedPath) -> (r: bool)
        ensures
            r == (self@ == other@),
    {
        self.rooted == other.rooted && same_strings(&self.path, &other.path)
    }

    /// The debug form: segments separated by `::`, with a leading `::` when rooted.
    pub fn debug_string(&self) -> (r: String)
        ensures
            r@ == unresolved_debug(self@),
    {
        let mut s = String::new();
        if self.path.len() == 0 {
            return s;
        }
        if self.rooted {
            push_joined_segments(&mut s, &self.path);
            s
        } else {
            s.append(self.path[0].as_str());
            let mut rest = copy_strings(&self.path);
            rest.remove(0);
            proof {
                assert(rest.deep_view() =~= self@.path.drop_first());
            }
            push_joined_segments(&mut s, &rest);
            s
        }
    }
}

/// A path resolved to a generic argument in the current context.
#[derive(Debug, Clone, PartialEq, Eq, Hash)]
pub struct GenericPath {
    /// The identifier of the generic.
    pub generic: Ident,
}

impl GenericPath {
    /// The debug form: `@` and the generic's name.
    pub fn debug_string(&self) -> (r: String)
        ensures
            r@ == "@"@ + self.generic@,
    {
        let mut s = String::new();
        proof {
            reveal_strlit("@");
        }
        s.append("@");
        s.append(self.generic.as_str());
        s
    }
}

/// A crate, absolutely resolved within a crate graph.
#[derive(Debug, Clone, PartialEq, Eq, Hash, PartialOrd, Ord)]
pub struct AbsoluteCrate {
    /// The name of the crate.
    pub name: String,
    /// The version of the crate.
    pub version: String,
}

impl AbsoluteCrate {
    /// Create a new `AbsoluteCrate`.
    pub fn new(name: &str, version: &str) -> (r: AbsoluteCrate)
        ensures
            r.name@ == name@,
            r.version@ == version@,
    {
        AbsoluteCrate { name: name.to_string(), version: version.to_string() }
    }

    /// The debug form: `name[version]`.
    pub fn debug_string(&self) -> (r: String)
        ensures
            r@ == self.name@ + "["@ + self.version@ + "]"@,
    {
        let mut s = self.name.clone();
        proof {
            reveal_strlit("[");
            reveal_strlit("]");
        }
        s.append("[");
        s.append(self.version.as_str());
        s.append("]");
        s
    }
}

/// A path written in source, not yet split or resolved.
#[derive(Debug, Clone, PartialEq, Eq)]
pub struct BarePath(pub String);

/// A path within a crate.
#[derive(Debug, Clone, PartialEq, Eq, Hash, PartialOrd, Ord)]
pub struct RelativePath(pub Vec<Ident>);

impl RelativePath {
    /// The relative path to the root of a crate.
    pub fn root() -> (r: RelativePath)
        ensures
            r.0.deep_view() == Seq::<Seq<char>>::empty(),
    {
        let r = RelativePath(Vec::new());
        proof {
            assert(r.0.deep_view() =~= Seq::<Seq<char>>::empty());
        }
        r
    }

    /// Add another component to the relative path. The component must not contain `::`.
    pub fn join(self, elem: Ident) -> (r: RelativePath)
        requires
            !has_path_sep(elem@),
        ensures
            r.0.deep_view() == self.0.deep_view().push(elem@),
    {
        let RelativePath(mut v) = self;
        let ghost old_v = v.deep_view();
        v.push(elem);
        proof {
            assert(v.deep_view() =~= old_v.push(elem@));
        }
        RelativePath(v)
    }

    /// Clone a referenced relative path and add a component.
    pub fn clone_join(&self, elem: Ident) -> (r: RelativePath)
        requires
            !has_path_sep(elem@),
        ensures
            r.0.deep_view() == self.0.deep_view().push(elem@),
    {
        RelativePath(copy_strings(&self.0)).join(elem)
    }

    /// The parent of a relative path: all but its last component.
    pub fn parent(&self) -> (r: Option<RelativePath>)
        ensures
            self.0.len() == 0 ==> r is None,
            self.0.len() > 0 ==> r is Some && r->0 .0.deep_view() == self.0.deep_view().drop_last(),
    {
        let mut result = copy_strings(&self.0);
        if let Some(_) = result.pop() {
            proof {
                assert(result.deep_view() =~= self.0.deep_view().drop_last());
            }
            Some(RelativePath(result))
        } else {
            None
        }
    }

    /// The debug form: `::` and each segment.
    pub fn debug_string(&self) -> (r: String)
        ensures
            r@ == joined_segments(self.0.deep_view()),
    {
        let mut s = String::new();
        push_joined_segments(&mut s, &self.0);
        proof {
            assert(s@ =~= joined_segments(self.0.deep_view()));
        }
        s
    }
}

/// A path resolved within an absolute crate.
#[derive(Debug, Clone, PartialEq, Eq, Hash, PartialOrd, Ord)]
pub struct AbsolutePath {
    /// The containing crate.
    pub crate_: AbsoluteCrate,
    /// The path within the crate.
    pub path: RelativePath,
}

impl AbsolutePath {
    /// Create a new `AbsolutePath`.
    pub fn new(crate_: AbsoluteCrate, path: &[&str]) -> (r: AbsolutePath)
        ensures
            r.crate_ == crate_,
            r.path.0.len() == path@.len(),
            forall|i: int| 0 <= i < path@.len() ==> #[trigger] r.path.0[i]@ == path@[i]@,
    {
        AbsolutePath { crate_, path: RelativePath(owned_strings(path)) }
    }

    /// Add another component. The component must not contain `::`.
    pub fn join(self, elem: Ident) -> (r: AbsolutePath)
        requires
            !has_path_sep(elem@),
        ensures
            r.crate_ == self.crate_,
            r.path.0.deep_view() == self.path.0.deep_view().push(elem@),
    {
        let AbsolutePath { crate_, path } = self;
        AbsolutePath { crate_, path: path.join(elem) }
    }

    /// The debug form: the crate, then `::` and each segment.
    pub fn debug_string(&self) -> (r: String)
        ensures
            r@ == self.crate_.name@ + "["@ + self.crate_.version@ + "]"@ + joined_segments(
                self.path.0.deep_view(),
            ),
    {
        let mut s = self.crate_.debug_string();
        push_joined_segments(&mut s, &self.path.0);
        s
    }
}

/// A (possibly unresolved) path.
#[derive(Debug, Clone, PartialEq, Eq, Hash)]
pub enum Path {
    /// We haven't yet discovered what this resolves to.
    Unresolved(UnresolvedPath),
    /// This resolves to an absolute item.
    Absolute(AbsolutePath),
    /// This resolves to a nearby generic argument.
    Generic(GenericPath),
}

/// The characters of a path, whichever kind it is.
pub enum PathView {
    Unresolved(UnresolvedPathView),
    Absolute { name: Seq<char>, version: Seq<char>, path: Seq<Seq<char>> },
    Generic(Seq<char>),
}

impl View for Path {
    type V = PathView;

    open spec fn view(&self) -> PathView {
        match self {
            Path::Unresolved(p) => PathView::Unresolved(p@),
            Path::Absolute(a) => PathView::Absolute {
                name: a.crate_.name@,
                version: a.crate_.version@,
                path: a.path.0.deep_view(),
            },
            Path::Generic(g) => PathView::Generic(g.generic@),
        }
    }
}

impl Path {
    /// Make a path from source text, for testing. The text must parse as a path.
    pub fn fake(s: &str) -> (r: Path)
        requires
            syn_path_parse(s@) is Some,
        ensures
            r matches Path::Unresolved(p) && p@ == syn_unresolved(s@),
    {
        Path::Unresolved(UnresolvedPath::fake(s))
    }

    /// Make a non-rooted path from a single identifier.
    pub fn ident(i: Ident) -> (r: Path)
        ensures
            r matches Path::Unresolved(p) && p@ == (UnresolvedPathView { path: seq![i@], rooted: false }),
    {
        let mut path = Vec::new();
        path.push(i);
        let r = UnresolvedPath { path, rooted: false };
        proof {
            assert(r@.path =~= seq![i@]);
        }
        Path::Unresolved(r)
    }

    /// Make a path to a generic.
    pub fn generic(generic: Ident) -> (r: Path)
        ensures
            r == Path::Generic(GenericPath { generic }),
    {
        Path::Generic(GenericPath { generic })
    }

    /// The path as a single identifier, if it is unresolved, one segment long and not rooted.
    pub fn get_ident(&self) -> (r: Option<&Ident>)
        ensures
            (self matches Path::Unresolved(p) && p@.path.len() == 1 && !p@.rooted) ==> r is Some
                && r->0@ == self->Unresolved_0@.path[0],
            !(self matches Path::Unresolved(p) && p@.path.len() == 1 && !p@.rooted) ==> r is None,
    {
        if let Path::Unresolved(path) = self {
            path.get_ident()
        } else {
            None
        }
    }

    /// The debug form of whichever kind of path this is.
    pub fn debug_string(&self) -> (r: String)
        ensures
            self matches Path::Unresolved(p) ==> r@ == unresolved_debug(p@),
            self matches Path::Generic(g) ==> r@ == "@"@ + g.generic@,
            self matches Path::Absolute(a) ==> r@ == a.crate_.name@ + "["@ + a.crate_.version@ + "]"@
                + joined_segments(a.path.0.deep_view()),
    {
        match self {
            Path::Absolute(path) => path.debug_string(),
            Path::Unresolved(path) => path.debug_string(),
            Path::Generic(path) => path.debug_string(),
        }
    }
}

} // verus!
