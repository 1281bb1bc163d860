use tendon::project::{Error, Metadata, Node, Package, Resolve, Resolver};

fn package(id: &str, name: &str, version: &str) -> Package {
    Package {
        id: id.to_string(),
        name: name.to_string(),
        version: version.to_string(),
        manifest_path: format!("/src/{}/Cargo.toml", name),
    }
}

fn node(id: &str, deps: &[&str]) -> Node {
    Node { id: id.to_string(), dependencies: deps.iter().map(|d| d.to_string()).collect() }
}

fn metadata(resolve: Option<Resolve>) -> Metadata {
    Metadata {
        packages: vec![
            package("app 0.1.0 (path+file:///src/app)", "app", "0.1.0"),
            package("dep 1.0.0 (registry)", "dep", "1.0.0"),
            package("dep 1.0.0 (registry)", "dep", "1.0.1"),
        ],
        resolve,
        workspace_root: "/src".to_string(),
    }
}

#[test]
fn projects_are_indexed_by_package_id() {
    let resolve = Resolve {
        nodes: vec![
            node("app 0.1.0 (path+file:///src/app)", &["dep 1.0.0 (registry)"]),
            node("dep 1.0.0 (registry)", &[]),
        ],
        root: Some("app 0.1.0 (path+file:///src/app)".to_string()),
    };
    let r = Resolver::new("/src/app".to_string(), metadata(Some(resolve))).ok().unwrap();
    assert_eq!(r.project_root, "/src/app");
    assert_eq!(r.workspace_root, "/src");
    assert_eq!(r.root, "app 0.1.0 (path+file:///src/app)");
    assert_eq!(r.package("app 0.1.0 (path+file:///src/app)").map(|p| p.name.clone()), Some("app".to_string()));
    assert_eq!(r.package("dep 1.0.0 (registry)").map(|p| p.version.clone()), Some("1.0.1".to_string()));
    assert!(r.package("missing").is_none());
    assert_eq!(
        r.node("app 0.1.0 (path+file:///src/app)").map(|n| n.dependencies.clone()),
        Some(vec!["dep 1.0.0 (registry)".to_string()])
    );
    assert!(r.node("missing").is_none());
    assert!(r.modules.is_empty());
}

#[test]
fn unresolved_projects_are_refused() {
    assert_eq!(Resolver::new("/src/app".to_string(), metadata(None)).err(), Some(Error::ResolveFailed));
    let rootless = Resolve { nodes: vec![], root: None };
    assert_eq!(Resolver::new("/src/app".to_string(), metadata(Some(rootless))).err(), Some(Error::ResolveFailed));
}
