//! Where a module's source is: the files to look for, in order. Whether they exist is for the
//! caller to find out.
//!
//! Paths are `/`-separated strings, as written.

use crate::attributes::{assigned_string, attribute_debug, Attribute};
use crate::resolve::WalkError;
use crate::text::push_char;
use vstd::prelude::*;
use vstd::string::*;

verus! {

/// The position of the last `/` in `p`; -1 where it has none.
pub open spec fn last_slash(p: Seq<char>) -> int
    decreases p.len(),
{
    if p.len() == 0 {
        -1
    } else if p.last() == '/' {
        p.len() - 1
    } else {
        last_slash(p.drop_last())
    }
}

/// The last slash is in range, and is a slash.
pub proof fn lemma_last_slash(p: Seq<char>)
    ensures
        -1 <= last_slash(p) < p.len(),
        last_slash(p) >= 0 ==> p[last_slash(p)] == '/',
    decreases p.len(),
{
    if p.len() > 0 && p.last() != '/' {
        lemma_last_slash(p.drop_last());
    }
}

/// The directory that holds `p`: what comes before its last `/` (`/` for a file at the root,
/// and nothing for a bare name); `None` for the empty path and for `/`.
pub open spec fn parent_dir(p: Seq<char>) -> Option<Seq<char>> {
    if p.len() == 0 || p == seq!['/'] {
        None
    } else if last_slash(p) < 0 {
        Some(Seq::empty())
    } else if last_slash(p) == 0 {
        Some(seq!['/'])
    } else {
        Some(p.take(last_slash(p)))
    }
}

/// `b` under the directory `a`: `b` itself where it is absolute or `a` is empty.
pub open spec fn path_join(a: Seq<char>, b: Seq<char>) -> Seq<char> {
    if b.len() > 0 && b[0] == '/' {
        b
    } else if a.len() == 0 {
        b
    } else if a.last() == '/' {
        a + b
    } else {
        a + seq!['/'] + b
    }
}

/// `dir` with each of `parts` joined under it in turn.
pub open spec fn path_join_all(dir: Seq<char>, parts: Seq<Seq<char>>) -> Seq<char>
    decreases parts.len(),
{
    if parts.len() == 0 {
        dir
    } else {
        path_join(path_join_all(dir, parts.drop_last()), parts.last())
    }
}

/// Whether `s` ends with `suffix`.
pub open spec fn has_suffix(s: Seq<char>, suffix: Seq<char>) -> bool {
    suffix.len() <= s.len() && s.skip(s.len() - suffix.len()) == suffix
}

/// The position of the last `/` in `p`, if any.
fn find_last_slash(p: &str) -> (r: Option<usize>)
    ensures
        last_slash(p@) < 0 ==> r is None,
        last_slash(p@) >= 0 ==> r == Some(last_slash(p@) as usize),
{
    let n = p.unicode_len();
    let mut i: usize = n;
    proof {
        assert(p@.take(n as int) =~= p@);
    }
    while i > 0
        invariant
            i <= n,
            n == p@.len(),
            last_slash(p@) == last_slash(p@.take(i as int)),
        decreases i,
    {
        let c = p.get_char(i - 1);
        proof {
            assert(p@.take(i as int).last() == c);
            assert(p@.take(i as int).drop_last() =~= p@.take(i - 1));
        }
        if c == '/' {
            return Some(i - 1);
        }
        i = i - 1;
    }
    proof {
        assert(p@.take(0).len() == 0);
    }
    None
}

/// The directory that holds a path.
pub fn parent_dir_of(p: &str) -> (r: Option<String>)
    ensures
        r.deep_view() == parent_dir(p@),
{
    let n = p.unicode_len();
    if n == 0 || (n == 1 && p.get_char(0) == '/') {
        proof {
            if n == 1 {
                assert(p@ =~= seq!['/']);
            }
        }
        return None;
    }
    proof {
        if p@ == seq!['/'] {
            assert(p@[0] == '/');
        }
    }
    proof {
        lemma_last_slash(p@);
    }
    match find_last_slash(p) {
        None => Some(String::new()),
        Some(0) => {
            let mut s = String::new();
            push_char(&mut s, '/');
            Some(s)
        },
        Some(i) => {
            let s = p.substring_char(0, i).to_string();
            proof {
                assert(s@ =~= p@.take(i as int));
            }
            Some(s)
        },
    }
}

/// `b` under the directory `a`.
pub fn join_path(a: &str, b: &str) -> (r: String)
    ensures
        r@ == path_join(a@, b@),
{
    if b.unicode_len() > 0 && b.get_char(0) == '/' {
        return b.to_string();
    }
    let n = a.unicode_len();
    if n == 0 {
        return b.to_string();
    }
    let mut out = a.to_string();
    if a.get_char(n - 1) != '/' {
        push_char(&mut out, '/');
    }
    out.append(b);
    out
}

/// Whether `s` ends with `suffix`.
fn ends_with(s: &str, suffix: &str) -> (r: bool)
    ensures
        r == has_suffix(s@, suffix@),
{
    let n = s.unicode_len();
    let m = suffix.unicode_len();
    if m > n {
        return false;
    }
    let mut i: usize = 0;
    while i < m
        invariant
            i <= m <= n,
            n == s@.len(),
            m == suffix@.len(),
            forall|j: int| 0 <= j < i ==> s@[n - m + j] == suffix@[j],
        decreases m - i,
    {
        if s.get_char(n - m + i) != suffix.get_char(i) {
            proof {
                assert(s@.skip(n - m)[i as int] != suffix@[i as int]);
            }
            return false;
        }
        i = i + 1;
    }
    proof {
        assert(s@.skip(n - m) =~= suffix@);
    }
    true
}

/// Where to look for a module's source.
#[derive(Debug, Clone, PartialEq, Eq)]
pub enum SourceCandidates {
    /// This file, and no other.
    Exactly(String),
    /// The first of these that is a file.
    FirstFileOf(Vec<String>),
}

/// The attribute behind an optional reference.
pub open spec fn attr_of(a: Option<&Attribute>) -> Option<Attribute> {
    match a {
        Some(a) => Some(*a),
        None => None,
    }
}

/// The name that a module's files are looked up by: the `#[path]` given to it, where it has one,
/// else its name; `Err(..)` for a `#[path]` that assigns no string.
pub open spec fn looked_up_name(path_attr: Option<Attribute>, ident: Seq<char>) -> Result<Seq<char>, Seq<char>> {
    match path_attr {
        Some(a) => match assigned_string(a) {
            Some(s) => Ok(s),
            None => Err(attribute_debug(a)),
        },
        None => Ok(ident),
    }
}

/// Where to look for the source of the module `ident`, declared in the file `parent_file` of the
/// module at `modules` in the crate whose root file is `crate_entry`. A `#[path = "...rs"]`
/// names the file, next to the declaring one; otherwise the name (or a `#[path]` without `.rs`)
/// is looked up as `<name>.rs` and `<name>/mod.rs`, first in the directory that the module path
/// gives under the crate root's directory, then in the declaring file's directory.
pub fn find_source_file(
    parent_file: &str,
    crate_entry: &str,
    modules: &Vec<String>,
    path_attr: Option<&Attribute>,
    ident: &str,
) -> (r: Result<SourceCandidates, WalkError>)
    requires
        (looked_up_name(attr_of(path_attr), ident@) matches Ok(name) && !has_suffix(name, ".rs"@)) ==> (parent_dir(
            crate_entry@,
        ) is Some && parent_dir(parent_file@) is Some),
    ensures
        ({
            let name = looked_up_name(attr_of(path_attr), ident@);
            match name {
                Err(d) => r matches Err(WalkError::MalformedPathAttribute(m)) && m@ == d,
                Ok(n) => if has_suffix(n, ".rs"@) {
                    match parent_dir(parent_file@) {
                        None => r == Err::<SourceCandidates, WalkError>(WalkError::Root),
                        Some(dir) => r matches Ok(SourceCandidates::Exactly(p)) && p@ == path_join(dir, n),
                    }
                } else {
                    let normal = path_join_all(parent_dir(crate_entry@).unwrap(), modules.deep_view());
                    let renamed = parent_dir(parent_file@).unwrap();
                    r matches Ok(SourceCandidates::FirstFileOf(v)) && v.deep_view() == seq![
                        path_join(normal, n + ".rs"@),
                        path_join(path_join(normal, n), "mod.rs"@),
                        path_join(renamed, n + ".rs"@),
                        path_join(path_join(renamed, n), "mod.rs"@),
                    ]
                }
            }
        }),
{
    let name: String = match path_attr {
        Some(a) => match a.get_assigned_string() {
            Some(s) => s,
            None => return Err(WalkError::MalformedPathAttribute(a.debug_string())),
        },
        None => ident.to_string(),
    };
    if ends_with(name.as_str(), ".rs") {
        return match parent_dir_of(parent_file) {
            None => Err(WalkError::Root),
            Some(dir) => Ok(SourceCandidates::Exactly(join_path(dir.as_str(), name.as_str()))),
        };
    }
    let mut normal = match parent_dir_of(crate_entry) {
        Some(d) => d,
        None => {
            proof {
                assert(false);
            }
            String::new()
        },
    };
    let mut i: usize = 0;
    proof {
        assert(modules.deep_view().take(0) =~= Seq::<Seq<char>>::empty());
    }
    while i < modules.len()
        invariant
            i <= modules.len(),
            normal@ == path_join_all(parent_dir(crate_entry@).unwrap(), modules.deep_view().take(i as int)),
        decreases modules.len() - i,
    {
        proof {
            assert(modules.deep_view().take(i + 1).drop_last() =~= modules.deep_view().take(i as int));
            assert(modules.deep_view().take(i + 1).last() == modules[i as int]@);
        }
        normal = join_path(normal.as_str(), modules[i].as_str());
        i = i + 1;
    }
    proof {
        assert(modules.deep_view().take(i as int) =~= modules.deep_view());
    }
    let renamed = match parent_dir_of(parent_file) {
        Some(d) => d,
        None => {
            proof {
                assert(false);
            }
            String::new()
        },
    };
    let mut file_name = name.clone();
    file_name.append(".rs");
    let mut candidates: Vec<String> = Vec::new();
    candidates.push(join_path(normal.as_str(), file_name.as_str()));
    candidates.push(join_path(join_path(normal.as_str(), name.as_str()).as_str(), "mod.rs"));
    candidates.push(join_path(renamed.as_str(), file_name.as_str()));
    candidates.push(join_path(join_path(renamed.as_str(), name.as_str()).as_str(), "mod.rs"));
    proof {
        assert(candidates.deep_view() =~= seq![
            path_join(normal@, name@ + ".rs"@),
            path_join(path_join(normal@, name@), "mod.rs"@),
            path_join(renamed@, name@ + ".rs"@),
            path_join(path_join(renamed@, name@), "mod.rs"@),
        ]);
    }
    Ok(SourceCandidates::FirstFileOf(candidates))
}

} // verus!
