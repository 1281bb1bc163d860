//! The project being scraped, as `cargo metadata` describes it: its packages, its dependency
//! graph and its root package.

use crate::maps::NameTable;
use vstd::prelude::*;

verus! {

/// Errors while scraping a project.
#[derive(Debug, Clone, PartialEq, Eq)]
pub enum Error {
    /// An I/O error, by its message.
    Io { source: String },
    /// `cargo check` failed.
    CargoCheckFailed,
    /// Another error.
    Other { cause: String },
    /// A macro could not be expanded.
    ExpansionFailure { cause: String },
    /// The macro is a proc-macro, which cannot be expanded.
    ProcMacro { name: String },
    /// `cargo metadata` failed, with its message.
    CargoMetadataFailed { cause: String },
    /// `cargo metadata` failed to resolve dependencies.
    ResolveFailed,
}

/// A package, as `cargo metadata` lists it.
#[derive(Debug, Clone, PartialEq, Eq)]
pub struct Package {
    /// The package's id: its name, version and source.
    pub id: String,
    pub name: String,
    pub version: String,
    /// The path of its `Cargo.toml`.
    pub manifest_path: String,
}

/// An instantiation of a package in the dependency graph, with the ids of its dependencies.
#[derive(Debug, Clone, PartialEq, Eq)]
pub struct Node {
    pub id: String,
    pub dependencies: Vec<String>,
}

/// The resolved dependency graph: its nodes, and the root package, where there is one.
#[derive(Debug, Clone)]
pub struct Resolve {
    pub nodes: Vec<Node>,
    pub root: Option<String>,
}

/// What `cargo metadata` reports of a project.
#[derive(Debug, Clone)]
pub struct Metadata {
    pub packages: Vec<Package>,
    /// The dependency graph; absent where dependencies were not resolved.
    pub resolve: Option<Resolve>,
    pub workspace_root: String,
}

/// A path resolved within the crate graph.
#[derive(Debug, Clone, PartialEq, Eq)]
pub struct ResolvedPath {
    /// The id of the package instantiation the path comes from.
    pub package: String,
    /// The path of the item, rooted within that package.
    pub path: Vec<String>,
}

/// Packages by id: where several share an id, the last.
pub open spec fn packages_by_id(ps: Seq<Package>) -> Map<Seq<char>, Package>
    decreases ps.len(),
{
    if ps.len() == 0 {
        Map::empty()
    } else {
        packages_by_id(ps.drop_last()).insert(ps.last().id@, ps.last())
    }
}

/// Nodes by id: where several share an id, the last.
pub open spec fn nodes_by_id(ns: Seq<Node>) -> Map<Seq<char>, Node>
    decreases ns.len(),
{
    if ns.len() == 0 {
        Map::empty()
    } else {
        nodes_by_id(ns.drop_last()).insert(ns.last().id@, ns.last())
    }
}

/// The project to scrape, with its dependencies.
pub struct Resolver {
    /// The root of the project.
    pub project_root: String,
    /// The workspace root of the project; the project root unless it is in a workspace.
    pub workspace_root: String,
    /// Every dependency of the project, by id.
    pub packages: NameTable<Package>,
    /// The dependency graph, by package instantiation.
    pub resolve: NameTable<Node>,
    /// The root package.
    pub root: String,
    /// Where resolved paths were found in the filesystem.
    pub modules: Vec<(ResolvedPath, String)>,
}

impl Resolver {
    /// The tables are well formed.
    pub open spec fn wf(&self) -> bool {
        self.packages.wf() && self.resolve.wf()
    }

    /// The project at `project_root`, from what `cargo metadata` reported of it: fails with
    /// `ResolveFailed` exactly where the dependencies or the root package were not resolved.
    pub fn new(project_root: String, metadata: Metadata) -> (r: Result<Resolver, Error>)
        ensures
            r is Err <==> (metadata.resolve is None || metadata.resolve->0.root is None),
            r is Err ==> r == Err::<Resolver, Error>(Error::ResolveFailed),
            r matches Ok(res) ==> {
                &&& res.wf()
                &&& res.project_root == project_root
                &&& res.workspace_root == metadata.workspace_root
                &&& res.packages.map() == packages_by_id(metadata.packages@)
                &&& res.resolve.map() == nodes_by_id(metadata.resolve->0.nodes@)
                &&& res.root == metadata.resolve->0.root->0
                &&& res.modules@.len() == 0
            },
    {
        let Metadata { packages, resolve, workspace_root } = metadata;
        let packages = index_packages(packages);
        let resolve = match resolve {
            Some(resolve) => resolve,
            None => return Err(Error::ResolveFailed),
        };
        let Resolve { nodes, root } = resolve;
        let root = match root {
            Some(root) => root,
            None => return Err(Error::ResolveFailed),
        };
        let resolve = index_nodes(nodes);
        Ok(Resolver { project_root, workspace_root, packages, resolve, root, modules: Vec::new() })
    }

    /// The package with id `id`, if it is a dependency.
    pub fn package(&self, id: &str) -> (r: Option<&Package>)
        requires
            self.wf(),
        ensures
            self.packages.map().contains_key(id@) ==> r == Some(&self.packages.map()[id@]),
            !self.packages.map().contains_key(id@) ==> r is None,
    {
        self.packages.get(id)
    }

    /// The node of the package instantiation `id` in the dependency graph, if any.
    pub fn node(&self, id: &str) -> (r: Option<&Node>)
        requires
            self.wf(),
        ensures
            self.resolve.map().contains_key(id@) ==> r == Some(&self.resolve.map()[id@]),
            !self.resolve.map().contains_key(id@) ==> r is None,
    {
        self.resolve.get(id)
    }
}

/// Index packages by id, the last of several with one id winning.
fn index_packages(packages: Vec<Package>) -> (r: NameTable<Package>)
    ensures
        r.wf(),
        r.map() == packages_by_id(packages@),
{
    let ghost all = packages@;
    let n = packages.len();
    let mut rest = packages;
    let mut table = NameTable::new();
    let mut k: usize = 0;
    proof {
        assert(all.take(0) =~= Seq::<Package>::empty());
        assert(rest@ =~= all.skip(0));
    }
    while rest.len() > 0
        invariant
            all.len() == n,
            k <= n,
            rest@ == all.skip(k as int),
            table.wf(),
            table.map() == packages_by_id(all.take(k as int)),
        decreases rest.len(),
    {
        let p = rest.remove(0);
        proof {
            assert(p == all[k as int]);
            assert(all.take(k + 1).drop_last() =~= all.take(k as int));
            assert(rest@ =~= all.skip(k + 1));
        }
        let id = p.id.clone();
        table.set(id, p);
        k = k + 1;
    }
    proof {
        assert(all.take(k as int) =~= all);
    }
    table
}

/// Index the nodes of the dependency graph by id, the last of several with one id winning.
fn index_nodes(nodes: Vec<Node>) -> (r: NameTable<Node>)
    ensures
        r.wf(),
        r.map() == nodes_by_id(nodes@),
{
    let ghost all = nodes@;
    let n = nodes.len();
    let mut rest = nodes;
    let mut table = NameTable::new();
    let mut k: usize = 0;
    proof {
        assert(all.take(0) =~= Seq::<Node>::empty());
        assert(rest@ =~= all.skip(0));
    }
    while rest.len() > 0
        invariant
            all.len() == n,
            k <= n,
            rest@ == all.skip(k as int),
            table.wf(),
            table.map() == nodes_by_id(all.take(k as int)),
        decreases rest.len(),
    {
        let node = rest.remove(0);
        proof {
            assert(node == all[k as int]);
            assert(all.take(k + 1).drop_last() =~= all.take(k as int));
            assert(rest@ =~= all.skip(k + 1));
        }
        let id = node.id.clone();
        table.set(id, node);
        k = k + 1;
    }
    proof {
        assert(all.take(k as int) =~= all);
    }
    table
}

} // verus!
