use tendon::attributes::{Metadata, TypeMetadata, Visibility, Tokens};
use tendon::builtins::core_crate;
use tendon::crates::CrateData;
use tendon::database::{Crate, Db};
use tendon::identities::{test_crate_a, test_crate_b, test_crate_c, CrateId, Ident, Identity};
use tendon::items::{DeclarativeMacroItem, EnumItem, GenericParams, InherentImpl, MacroItem, Module, SymbolItem, TypeItem};
use tendon::lower::ModuleScope;
use tendon::namespace::Namespace;
use tendon::paths::{AbsoluteCrate, AbsolutePath, Path, UnresolvedPath};
use tendon::resolve::{add_crate_dep, add_root_extern_crate, add_std_prelude, try_to_resolve, ResolveError, ResolvingPath};
use tendon::resolver::absolutize_imports;
use tendon::scopes::{NamespaceId, Priority, Scope};
use tendon::textual_scope::TextualScopes;

fn fake_type(name: &str) -> TypeItem {
    TypeItem::Enum(EnumItem {
        metadata: Metadata::fake(name),
        type_metadata: TypeMetadata::empty(),
        inherent_impl: InherentImpl {},
        generic_params: GenericParams::empty(),
        variants: vec![],
    })
}

#[test]
fn resolve_current() {
    let db = Db::fake_db();

    let test_crate_a = test_crate_a();

    let mut crate_ = Crate::new(test_crate_a.clone());
    let root = crate_.add_root_scope(Metadata::fake("{root}")).unwrap();
    let mod_a = crate_.add(&root, Scope::new(Metadata::fake("a"), true)).unwrap();
    let mod_a_b = crate_.add(&mod_a, Scope::new(Metadata::fake("b"), true)).unwrap();
    let type_a_b_c = crate_.add(&mod_a_b, fake_type("C")).unwrap();

    crate_
        .add_binding::<TypeItem>(&root, "CRenamed".into(), type_a_b_c.clone(), Visibility::InScope(root.clone()), Priority::Explicit)
        .unwrap();
    crate_
        .add_binding::<TypeItem>(&mod_a, "CLimited".into(), type_a_b_c.clone(), Visibility::InScope(mod_a.clone()), Priority::Explicit)
        .unwrap();

    let root_abc = try_to_resolve(&db, &crate_, &root, NamespaceId::Type, &UnresolvedPath::fake("a::b::C")).unwrap();
    assert_eq!(root_abc, type_a_b_c);

    let ab_sscr =
        try_to_resolve(&db, &crate_, &mod_a_b, NamespaceId::Type, &UnresolvedPath::fake("super::super::CRenamed")).unwrap();
    assert_eq!(ab_sscr, type_a_b_c);

    let invisible = try_to_resolve(&db, &crate_, &root, NamespaceId::Type, &UnresolvedPath::fake("a::CLimited"));
    assert_eq!(invisible, Err::<Identity, _>(ResolveError::Pending));
}

#[test]
fn extern_crate() {
    let test_crate_a = test_crate_a();
    let test_crate_b = test_crate_b();
    let test_crate_c = test_crate_c();

    let mut db = Db::fake_db();

    let mut crate_a = Crate::new(test_crate_a.clone());
    let a_root = crate_a.add_root_scope(Metadata::fake("{root}")).unwrap();
    crate_a
        .add_binding::<TypeItem>(&a_root, "A".into(), Identity::new(&test_crate_a, &["A"]), Visibility::Pub, Priority::Explicit)
        .unwrap();
    db.insert_crate(crate_a);

    let mut crate_b = Crate::new(test_crate_b.clone());
    let b_root = crate_b.add_root_scope(Metadata::fake("{root}")).unwrap();
    crate_b
        .add_binding::<TypeItem>(&b_root, "B".into(), Identity::new(&test_crate_a, &["B"]), Visibility::Pub, Priority::Explicit)
        .unwrap();
    db.insert_crate(crate_b);

    let mut crate_c = Crate::new(test_crate_c.clone());
    let c_root = crate_c.add_root_scope(Metadata::fake("{root}")).unwrap();
    let c_other = crate_c.add(&c_root, Scope::new(Metadata::fake("other"), true)).unwrap();

    let a_name: Ident = "a".into();
    let b_name: Ident = "b".into();
    let b_name_alt: Ident = "b_alt".into();

    // in cargo.toml: test_crate_a renamed "a", test_crate_b renamed "b"
    // in root: `extern crate b as b_alt`
    add_crate_dep(&mut crate_c, &test_crate_a, a_name.clone()).unwrap();
    add_crate_dep(&mut crate_c, &test_crate_b, b_name.clone()).unwrap();
    add_root_extern_crate(&db, &mut crate_c, &test_crate_b, &b_name_alt.clone(), Visibility::Pub, false).unwrap();

    // ::a, ::b, ::b_alt exist
    assert!(crate_c.extern_crate_bindings.get(&a_name).is_some());
    assert!(crate_c.extern_crate_bindings.get(&b_name).is_some());
    assert!(crate_c.extern_crate_bindings.get(&b_name_alt).is_some());

    // a, b, b_alt in prelude
    assert!(crate_c.prelude.get::<Scope>(&a_name).is_some());
    assert!(crate_c.prelude.get::<Scope>(&b_name).is_some());
    assert!(crate_c.prelude.get::<Scope>(&b_name_alt).is_some());

    // b_alt in crate root (only, others aren't brought in)
    let c_root_scope = crate_c.get::<Scope>(&c_root).unwrap();
    assert!(c_root_scope.get::<Scope>(&a_name).is_none());
    assert!(c_root_scope.get::<Scope>(&b_name).is_none());
    assert!(c_root_scope.get::<Scope>(&b_name_alt).is_some());
    assert!(&crate_c.get_binding::<Scope>(&c_root, &b_name_alt).unwrap().visibility == &Visibility::Pub);

    // same checks w/ try_to_resolve
    let resolve = |p: &str| try_to_resolve(&db, &crate_c, &c_other, NamespaceId::Type, &UnresolvedPath::fake(p));
    assert!(resolve("::a::A").is_ok());
    assert!(resolve("::b::B").is_ok());
    assert!(resolve("::b_alt::B").is_ok());

    assert!(resolve("a::A").is_ok());
    assert!(resolve("b::B").is_ok());
    assert!(resolve("b_alt::B").is_ok());

    assert!(resolve("crate::a::A").is_err());
    assert!(resolve("crate::b::B").is_err());
    assert!(resolve("crate::b_alt::B").is_ok());

    let empty: &[&str] = &[];
    assert_eq!(
        try_to_resolve(&db, &crate_c, &c_other, NamespaceId::Type, &UnresolvedPath::new(false, empty)),
        Err(ResolveError::Impossible)
    );
    assert_eq!(resolve("::nonexistent::crate_"), Err(ResolveError::Impossible));
    assert_eq!(resolve("::super::super::nonexistent"), Err(ResolveError::Impossible));

    // `::a` names the root of the crate bound to `a`
    let scope = |p: &str| try_to_resolve(&db, &crate_c, &c_other, NamespaceId::Scope, &UnresolvedPath::fake(p));
    assert_eq!(scope("::a"), Ok(Identity::root(&test_crate_a)));
    assert_eq!(scope("::b_alt"), Ok(Identity::root(&test_crate_b)));
    assert_eq!(scope("::nonexistent"), Err(ResolveError::Impossible));

    // a name missing from a dependency never resolves; one missing from this crate may yet
    assert_eq!(resolve("::a::Missing"), Err(ResolveError::Impossible));
    assert_eq!(resolve("b::Missing"), Err(ResolveError::Impossible));
    assert_eq!(resolve("crate::Missing"), Err(ResolveError::Pending));
    assert_eq!(resolve("Missing"), Err(ResolveError::Pending));
}

#[test]
fn macro_use() {
    let test_crate_a = test_crate_a();
    let test_crate_b = test_crate_b();

    let mut db = Db::fake_db();

    let mut crate_a = Crate::new(test_crate_a.clone());
    let a_root = crate_a.add_root_scope(Metadata::fake("{root}")).unwrap();
    crate_a
        .add_binding::<MacroItem>(
            &a_root,
            "test_macro".into(),
            Identity::new(&test_crate_a, &["test_macro"]),
            Visibility::Pub,
            Priority::Explicit,
        )
        .unwrap();
    db.insert_crate(crate_a);

    let mut crate_b = Crate::new(test_crate_b.clone());
    let b_root = crate_b.add_root_scope(Metadata::fake("{root}")).unwrap();
    add_crate_dep(&mut crate_b, &test_crate_a, "crate_a".into()).unwrap();
    add_root_extern_crate(&db, &mut crate_b, &test_crate_a, &"crate_a".into(), Visibility::InScope(b_root.clone()), true)
        .unwrap();

    assert!(crate_b.prelude.get::<MacroItem>("test_macro").is_some());
}

#[test]
fn macro_use_twice_is_refused() {
    let test_crate_a = test_crate_a();
    let test_crate_b = test_crate_b();
    let mut db = Db::fake_db();
    let mut crate_a = Crate::new(test_crate_a.clone());
    let a_root = crate_a.add_root_scope(Metadata::fake("{root}")).unwrap();
    crate_a
        .add_binding::<MacroItem>(&a_root, "m".into(), Identity::new(&test_crate_a, &["m"]), Visibility::Pub, Priority::Explicit)
        .unwrap();
    db.insert_crate(crate_a);
    let mut crate_b = Crate::new(test_crate_b.clone());
    let b_root = crate_b.add_root_scope(Metadata::fake("{root}")).unwrap();
    add_root_extern_crate(&db, &mut crate_b, &test_crate_a, &"one".into(), Visibility::InScope(b_root.clone()), true).unwrap();
    assert!(add_root_extern_crate(&db, &mut crate_b, &test_crate_a, &"two".into(), Visibility::InScope(b_root.clone()), true)
        .is_err());
}

#[test]
fn helpers_debug() {
    let p = UnresolvedPath::fake("thing::somewhere");
    let p = ResolvingPath::new(p.path.clone(), p.rooted);

    assert_eq!(p.debug_string(), "thing::somewhere");
}

#[test]
fn rooted_resolving_path_debug() {
    let p = ResolvingPath::new(vec!["a".to_string(), "b".to_string()], true);
    assert_eq!(p.debug_string(), "::a::b");
}

#[test]
fn init_prelude() {
    let mut with_std = Crate::new(test_crate_a());
    add_std_prelude(&mut with_std, false).unwrap();

    assert!(with_std.prelude.get::<TypeItem>("Option").is_some());
    assert!(with_std.prelude.get::<Scope>("Option").is_some());
    assert!(with_std.prelude.get::<MacroItem>("include_bytes").is_some());
    assert!(with_std.prelude.get::<SymbolItem>("Some").is_some());

    assert!(with_std.prelude.get::<TypeItem>("Vec").is_some());
    assert!(with_std.prelude.get::<Scope>("Vec").is_some());

    let mut no_std = Crate::new(test_crate_a());
    add_std_prelude(&mut no_std, true).unwrap();

    assert!(no_std.prelude.get::<TypeItem>("Option").is_some());
    assert!(no_std.prelude.get::<Scope>("Option").is_some());
    assert!(no_std.prelude.get::<MacroItem>("include_bytes").is_some());
    assert!(no_std.prelude.get::<SymbolItem>("Some").is_some());

    assert!(no_std.prelude.get::<TypeItem>("Vec").is_none());
    assert!(no_std.prelude.get::<Scope>("Vec").is_none());
}

#[test]
fn core_prelude_has_no_alloc_items() {
    let mut core = Crate::new(core_crate());
    add_std_prelude(&mut core, false).unwrap();
    assert!(core.prelude.get::<TypeItem>("Vec").is_none());
    assert!(core.prelude.get::<TypeItem>("u8").is_some());
    assert_eq!(
        core.prelude.get::<TypeItem>("Option").unwrap().identity,
        Identity::new(&CrateId::new("core", "0.0.0"), &["option", "Option"])
    );
    // a second prelude collides with the first
    assert!(add_std_prelude(&mut core, false).is_err());
}

fn fake_macro(name: &str) -> DeclarativeMacroItem {
    // for this test, nothing but the name matters.
    DeclarativeMacroItem { metadata: Metadata::fake(name), macro_export: false, tokens: Vec::new() }
}

#[test]
fn hairy() {
    let mut s = TextualScopes::new();
    let root = s.empty();
    let a = s.append_scope(root, Some(fake_macro("a")));
    let mut b_call = s.append_scope(a, None);
    let e_call = s.append_scope(b_call, None);
    let d_call = s.append_scope(e_call, None);
    let a_call = s.append_scope(d_call, None);

    // a should be defined everywhere but root
    assert!(s.lookup(a_call, "a").is_some());
    assert!(s.lookup(root, "a").is_none());

    // expand b_call
    let c = s.append_scope(b_call, Some(fake_macro("c")));
    let e = s.append_scope(c, Some(fake_macro("e")));
    b_call = e;

    // new macros should not be visible before
    assert!(s.lookup(a, "c").is_none());
    assert!(s.lookup(a, "e").is_none());
    // new macros should be visible (anywhere) after
    assert!(s.lookup(b_call, "c").is_some());
    assert!(s.lookup(a_call, "c").is_some());

    // expand e_call
    let mut c_call = s.append_scope(e_call, None);
    let d = s.append_scope(c_call, Some(fake_macro("d")));
    c_call = d;
    let _ = c_call;

    // before e_call, d should not be defined
    assert!(s.lookup(b_call, "d").is_none());
    // after, it should
    assert!(s.lookup(d_call, "d").is_some());

    // a should still be defined everywhere
    assert!(s.lookup(a_call, "a").is_some());
    assert!(s.lookup(root, "a").is_none());
}

#[test]
fn submodules() {
    let mut s = TextualScopes::new();
    let root = s.empty();
    let defn = s.append_scope(root, Some(fake_macro("defn")));
    let mut expands_to_defn = s.append_scope(defn, None);
    let dead_submodule = s.make_dead_submodule(expands_to_defn);
    let afterwards = s.append_scope(expands_to_defn, None);

    assert!(s.lookup(expands_to_defn, "defn").is_some());
    assert!(s.lookup(dead_submodule, "defn").is_some());
    assert!(s.lookup(afterwards, "defn").is_some());

    expands_to_defn = s.append_scope(expands_to_defn, Some(fake_macro("expanded")));

    assert!(s.lookup(expands_to_defn, "expanded").is_some());
    assert!(s.lookup(dead_submodule, "expanded").is_some());
    assert!(s.lookup(afterwards, "expanded").is_some());

    let dead_defn = s.append_scope(dead_submodule, Some(fake_macro("dead")));
    // should be visible after definition
    assert!(s.lookup(dead_defn, "dead").is_some());
    // but not before
    assert!(s.lookup(expands_to_defn, "dead").is_none());
    // and not outside
    assert!(s.lookup(afterwards, "dead").is_none());
}

#[test]
fn imports_2018() {
    let crate_1 = AbsoluteCrate::new("crate_1", "0.0.0");
    let crate_2 = AbsoluteCrate::new("crate_2", "0.0.0");

    let module = AbsolutePath::new(crate_1.clone(), &["module"]);
    let submodule = AbsolutePath::new(crate_1.clone(), &["module", "submodule"]);
    let module2 = AbsolutePath::new(crate_1.clone(), &["module2"]);

    let mut modules: Namespace<Module> = Namespace::new();
    modules.insert(module.clone(), Module { metadata: Metadata::fake("fake_module") }).unwrap();
    modules.insert(submodule.clone(), Module { metadata: Metadata::fake("fake_module") }).unwrap();
    modules.insert(module2.clone(), Module { metadata: Metadata::fake("fake_module") }).unwrap();

    let mut crate_data = CrateData::fake(CrateId::new("crate_1", "0.0.0"));
    crate_data.deps.insert_new("crate_2".into(), CrateId::new("crate_2", "0.0.0"));

    let mut scope = ModuleScope::new();
    scope.glob_imports.push(Path::fake("crate_2::thing"));
    scope.glob_imports.push(Path::fake("submodule::thing"));
    scope.glob_imports.push(Path::fake("crate::module2::thing"));

    assert!(absolutize_imports(&mut scope, &module, &modules, &crate_data));
    assert_eq!(scope.glob_imports[0], Path::Absolute(AbsolutePath::new(crate_2, &["thing"])));
    assert_eq!(scope.glob_imports[1], Path::Absolute(submodule.clone().join("thing".into())));
    assert_eq!(scope.glob_imports[2], Path::Absolute(module2.clone().join("thing".into())));
}

#[test]
fn unknown_imports_stay_unresolved() {
    let crate_1 = AbsoluteCrate::new("crate_1", "0.0.0");
    let module = AbsolutePath::new(crate_1.clone(), &["m", "n"]);
    let modules: Namespace<Module> = Namespace::new();
    let crate_data = CrateData::fake(CrateId::new("crate_1", "0.0.0"));
    let mut scope = ModuleScope::new();
    scope.glob_imports.push(Path::fake("nowhere::thing"));
    scope.pub_glob_imports.push(Path::fake("super::x"));
    assert!(!absolutize_imports(&mut scope, &module, &modules, &crate_data));
    assert_eq!(scope.glob_imports[0], Path::fake("nowhere::thing"));
    assert_eq!(scope.pub_glob_imports[0], Path::Absolute(AbsolutePath::new(crate_1, &["m", "x"])));
}

#[test]
fn insert_deadlock() {
    let mut namespace = Namespace::<ModuleScope>::new();

    let fake_a = AbsolutePath::new(AbsoluteCrate::new("core", "0.0.0"), &["a"]);
    let fake_b = AbsolutePath::new(AbsoluteCrate::new("core", "0.0.0"), &["b"]);
    namespace.insert(fake_a.clone(), ModuleScope::new()).unwrap();
    namespace.insert(fake_b, ModuleScope::new()).unwrap();
    assert!(namespace.insert(fake_a, ModuleScope::new()).is_err());
    assert_eq!(namespace.len(), 2);
}

#[test]
fn prelude_binds_hash_by_its_name() {
    let mut with_std = Crate::new(test_crate_a());
    add_std_prelude(&mut with_std, false).unwrap();
    assert!(with_std.prelude.get::<TypeItem>("Hash").is_some());
    assert!(with_std.prelude.get::<TypeItem>("Hash;").is_none());
    assert_eq!(
        with_std.prelude.get::<TypeItem>("Hash").unwrap().identity.path,
        vec!["hash".to_string(), "macros".to_string(), "Hash".to_string()]
    );
}
