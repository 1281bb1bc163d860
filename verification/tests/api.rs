use tendon::attributes::{Attribute, Meta, MetaInner, Metadata, Span, Tokens, TypeMetadata, Visibility};
use tendon::database::{Crate, DatabaseError, Db};
use tendon::identities::{test_crate_a, test_crate_b, CrateId, Identity};
use tendon::items::{EnumItem, GenericParams, HasMetadata, InherentImpl, TypeItem};
use tendon::paths::{AbsoluteCrate, AbsolutePath, GenericPath, Path, UnresolvedPath};
use tendon::scopes::{NamespaceId, Priority, Scope};
use tendon::types::{
    ArrayType, BareFnType, ConstExpr, ImplTraitType, LifetimeId, NeverType, PathType, PointerType,
    QSelfType, ReferenceType, SliceType, TraitId, TraitObjectType, TupleType, TypeId,
};

#[test]
fn debug_span() {
    let span = Span::new(None, "fake_file.rs".to_string(), 0, 1, 2, 3);
    assert_eq!(&span.to_string(), "fake_file.rs[0:1-2:3]")
}

#[test]
fn macro_span_shows_invocation() {
    let inv = Span::new(None, "lib.rs".to_string(), 10, 4, 10, 20);
    let span = Span::new(Some(Box::new(inv)), "expanded.rs".to_string(), 1, 0, 1, 5);
    assert_eq!(&span.to_string(), "macro invocation at lib.rs[10:4-10:20]");
}

#[test]
fn debug_attr() {
    let attr = Attribute::Meta(Meta::Call {
        path: UnresolvedPath::fake("test"),
        args: vec![
            MetaInner::Meta(Meta::Path(UnresolvedPath::fake("arg1"))),
            MetaInner::Meta(Meta::Assign {
                path: UnresolvedPath::fake("arg2"),
                literal: Tokens::from_text("\"thing\""),
            }),
            MetaInner::Literal(Tokens::from_text("3i32")),
        ],
    });
    assert_eq!(&attr.debug_string(), "#[test(arg1, arg2 = \"thing\", 3i32)]");
    let attr = Attribute::Other {
        path: UnresolvedPath::fake("test2"),
        input: Tokens::from_text("= i am a test"),
    };
    assert_eq!(&attr.debug_string(), "#[test2 = i am a test]");
}

#[test]
fn visibility() {
    let a = test_crate_a();
    let b = test_crate_b();
    assert!(Visibility::Pub.is_visible_in(&Identity::new(&a, &["some", "path"])));

    assert!(Visibility::InScope(Identity::root(&a)).is_visible_in(&Identity::root(&a)));

    assert!(Visibility::InScope(Identity::root(&a)).is_visible_in(&Identity::new(&a, &["some", "path"])));
    assert!(Visibility::InScope(Identity::new(&a, &["some"])).is_visible_in(&Identity::new(&a, &["some", "path"])));
    assert!(Visibility::InScope(Identity::new(&a, &["some", "path"]))
        .is_visible_in(&Identity::new(&a, &["some", "path"])));

    assert!(!Visibility::InScope(Identity::new(&a, &["some", "path", "x"]))
        .is_visible_in(&Identity::new(&a, &["some", "path"])));
    assert!(!Visibility::InScope(Identity::new(&a, &["other"])).is_visible_in(&Identity::new(&a, &["some", "path"])));
    assert!(!Visibility::InScope(Identity::new(&a, &["other", "path"]))
        .is_visible_in(&Identity::new(&a, &["some", "path"])));

    assert!(!Visibility::InScope(Identity::new(&a, &["some", "path"]))
        .is_visible_in(&Identity::new(&b, &["some", "path"])));
}

#[test]
fn identities_debug() {
    assert_eq!(
        Identity::new(&CrateId::new("fake_crate", "0.1.0-alpha1"), &["test", "Thing"]).debug_string(),
        "fake_crate[0.1.0-alpha1]::test::Thing"
    );
}

#[test]
fn paths_debug() {
    assert_eq!(
        Path::Absolute(AbsolutePath::new(AbsoluteCrate::new("fake_crate", "0.1.0-alpha1"), &["test", "Thing"]))
            .debug_string(),
        "fake_crate[0.1.0-alpha1]::test::Thing"
    );
    assert_eq!(
        Path::Unresolved(UnresolvedPath { path: vec!["test".into(), "Thing".into()], rooted: true }).debug_string(),
        "::test::Thing"
    );
    assert_eq!(Path::Generic(GenericPath { generic: "T".into() }).debug_string(), "@T");
}

#[test]
fn syn_paths() {
    assert_eq!(
        Path::fake("a::b::C"),
        Path::Unresolved(UnresolvedPath { path: vec!["a".into(), "b".into(), "C".into()], rooted: false })
    );
    assert_eq!(
        Path::fake("::a::b::C"),
        Path::Unresolved(UnresolvedPath { path: vec!["a".into(), "b".into(), "C".into()], rooted: true })
    );
    assert_eq!(
        Path::fake("crate::z"),
        Path::Unresolved(UnresolvedPath { path: vec!["crate".into(), "z".into()], rooted: false })
    );
}

#[test]
fn unparsable_paths_are_refused() {
    assert!(UnresolvedPath::parse("a::").is_none());
    assert!(UnresolvedPath::parse("1 + 2").is_none());
    assert_eq!(UnresolvedPath::parse("x::y").unwrap().path, vec!["x".to_string(), "y".to_string()]);
}

#[test]
fn identity_join_and_parent() {
    let a = test_crate_a();
    let root = Identity::root(&a);
    let child = root.clone_join("m".to_string());
    assert_eq!(child, Identity::new(&a, &["m"]));
    assert_eq!(child.parent(), Some(root.clone()));
    assert_eq!(root.parent(), None);
    let deep = root.clone_join_seq(vec!["x".to_string(), "y".to_string()]);
    assert_eq!(deep.debug_string(), "test_crate_a[0.0.0]::x::y");
}

fn fake_enum(name: &str) -> TypeItem {
    TypeItem::Enum(EnumItem {
        metadata: Metadata::fake(name),
        type_metadata: TypeMetadata::empty(),
        inherent_impl: InherentImpl {},
        generic_params: GenericParams::empty(),
        variants: vec![],
    })
}

#[test]
fn crate_building() {
    let test_crate_a = test_crate_a();

    let mut crate_ = Crate::new(test_crate_a.clone());
    let root = crate_.add_root_scope(Metadata::fake("{root}")).unwrap();

    assert!(crate_.get::<Scope>(&root).is_some());

    let mod_a = crate_.add(&root, Scope::new(Metadata::fake("a"), true)).unwrap();

    assert!(crate_.get::<Scope>(&mod_a).is_some());
    assert!(&crate_.get_binding::<Scope>(&root, "a").unwrap().identity == &mod_a);

    let mod_a_b = crate_.add(&mod_a, Scope::new(Metadata::fake("a"), true)).unwrap();

    let type_a_b_c = crate_.add(&mod_a_b, fake_enum("C")).unwrap();

    crate_
        .add_binding::<TypeItem>(
            &root,
            "CRenamed".into(),
            type_a_b_c.clone(),
            Visibility::InScope(root.clone()),
            Priority::Explicit,
        )
        .unwrap();

    let in_root = crate_.get_binding::<TypeItem>(&root, "CRenamed").unwrap();
    let in_a_b = crate_.get_binding::<TypeItem>(&mod_a_b, "C").unwrap();

    assert_eq!(in_root.identity, in_a_b.identity);
    assert_eq!(in_root.visibility, Visibility::InScope(root.clone()));
    assert_eq!(in_a_b.visibility, Visibility::Pub);
}

#[test]
fn adding_twice_is_refused() {
    let mut crate_ = Crate::new(test_crate_a());
    let root = crate_.add_root_scope(Metadata::fake("{root}")).unwrap();
    assert_eq!(crate_.add_root_scope(Metadata::fake("{root}")).err(), Some(DatabaseError::ItemAlreadyPresent));
    crate_.add(&root, fake_enum("E")).unwrap();
    assert_eq!(crate_.add(&root, fake_enum("E")).err(), Some(DatabaseError::ItemAlreadyPresent));
    let missing = Identity::new(&test_crate_a(), &["nowhere"]);
    assert_eq!(crate_.add(&missing, fake_enum("F")).err(), Some(DatabaseError::NoSuchScope));
    assert_eq!(
        crate_.add_binding_by(&root, NamespaceId::Type, "E".into(), root.clone(), Visibility::Pub, Priority::Explicit),
        Err(DatabaseError::BindingAlreadyPresent)
    );
}

#[test]
fn bound_names_refuse_every_other_binding() {
    let mut scope = Scope::new(Metadata::fake("s"), true);
    let target = Identity::new(&test_crate_a(), &["x"]);
    let other = Identity::new(&test_crate_a(), &["y"]);
    assert!(scope.insert_by(NamespaceId::Type, "x".into(), target.clone(), Visibility::Pub, Priority::Explicit).is_ok());
    assert!(scope.insert_by(NamespaceId::Type, "x".into(), other.clone(), Visibility::Pub, Priority::Glob).is_err());
    assert_eq!(scope.get_by(NamespaceId::Type, "x").unwrap().identity, target);
    assert!(scope.insert_by(NamespaceId::Type, "x".into(), other.clone(), Visibility::Pub, Priority::Explicit).is_err());
    assert!(scope.insert_by(NamespaceId::Symbol, "x".into(), other.clone(), Visibility::Pub, Priority::Glob).is_ok());
    assert!(scope.insert_by(NamespaceId::Symbol, "x".into(), target.clone(), Visibility::Pub, Priority::Glob).is_err());
    assert_eq!(scope.iter_by(NamespaceId::Type).len(), 1);
}

#[test]
fn prelude_bindings_are_found_everywhere() {
    let mut crate_ = Crate::new(test_crate_a());
    let root = crate_.add_root_scope(Metadata::fake("{root}")).unwrap();
    crate_.add_prelude_binding_by(NamespaceId::Type, "P".into(), Identity::new(&test_crate_b(), &["P"])).unwrap();
    let found = crate_.get_binding_by(&root, NamespaceId::Type, "P").unwrap();
    assert_eq!(found.identity, Identity::new(&test_crate_b(), &["P"]));
    assert_eq!(found.visibility, Visibility::InScope(root.clone()));
    assert!(crate_.get_binding_by(&root, NamespaceId::Symbol, "P").is_none());
}

#[test]
fn database_holds_crates() {
    let mut db = Db::fake_db();
    assert_eq!(db.crate_data(&test_crate_a()).id, test_crate_a());
    let crate_ = Crate::new(test_crate_b());
    db.insert_crate(crate_);
    assert_eq!(db.get_crate(&test_crate_b()).id, test_crate_b());
}

#[test]
fn lifetime_debug() {
    assert_eq!(
        &LifetimeId::new(Identity::new(&test_crate_a(), &["Type", "'param"])).debug_string(),
        "test_crate_a[0.0.0]::Type::\'param"
    );
}

#[test]
fn is_void() {
    assert!(TupleType { types: vec![] }.is_void());
    assert!(!TupleType { types: vec![TypeId::Never(NeverType)] }.is_void());
}

#[test]
fn formatting() {
    let a = test_crate_a();
    let trait_ = || TraitId {
        id: Identity::new(&a, &["TestTrait"]),
        params: tendon::types::GenericParams::empty(),
        is_maybe: false,
    };
    let mut params = tendon::types::GenericParams::empty();
    params.type_bindings.insert_new(
        "A".into(),
        TypeId::Path(PathType {
            path: Identity::new(&a, &["other", "KindaType"]),
            params: tendon::types::GenericParams::empty(),
        }),
    );

    let type_ = TypeId::Tuple(TupleType {
        types: vec![
            TypeId::Path(PathType { path: Identity::new(&a, &["test", "Type"]), params }),
            TypeId::Pointer(PointerType {
                mut_: true,
                type_: Box::new(TypeId::Array(ArrayType {
                    type_: Box::new(TypeId::Never(NeverType)),
                    len: ConstExpr(Tokens::from_text("5i32")),
                })),
            }),
            TypeId::Reference(ReferenceType {
                lifetime: Some(LifetimeId::new(Identity::new(&a, &["Type", "'param"]))),
                mut_: false,
                type_: Box::new(TypeId::Slice(SliceType { type_: Box::new(TypeId::Never(NeverType)) })),
            }),
            TypeId::BareFn(BareFnType {
                unsafe_: true,
                varargs: true,
                ret: Box::new(TypeId::TraitObject(TraitObjectType { trait_bounds: vec![trait_()] })),
                args: vec![TypeId::QSelf(QSelfType {
                    output_: "Wow".into(),
                    self_: Box::new(TypeId::Never(NeverType)),
                    trait_: trait_(),
                })],
            }),
            TypeId::ImplTrait(ImplTraitType { trait_bounds: vec![trait_()], lifetime_bounds: vec![] }),
        ],
    });
    assert_eq!(&type_.debug_string(),
        "(test_crate_a[0.0.0]::test::Type<A=test_crate_a[0.0.0]::other::KindaType>, *mut [!; 5i32], &test_crate_a[0.0.0]::Type::\'param [!], unsafe fn(<! as test_crate_a[0.0.0]::TestTrait>::Wow, ...) -> (dyn test_crate_a[0.0.0]::TestTrait), (impl test_crate_a[0.0.0]::TestTrait))");
}

#[test]
fn generic_params_debug() {
    let a = test_crate_a();
    let mut params = tendon::types::GenericParams::empty();
    assert_eq!(params.debug_string(), "");
    params.lifetimes.insert_new("'a".into(), LifetimeId::new(Identity::new(&a, &["'a"])));
    params.consts.insert_new("N".into(), ConstExpr(Tokens::from_text("3")));
    assert_eq!(params.debug_string(), "<test_crate_a[0.0.0]::'a; 3>");
}

#[test]
fn items_sit_at_paths_ending_in_their_names() {
    let mut crate_ = Crate::new(test_crate_a());
    let root = crate_.add_root_scope(Metadata::fake("{root}")).unwrap();
    let mod_a = crate_.add(&root, Scope::new(Metadata::fake("a"), true)).unwrap();
    let ty = crate_.add(&mod_a, fake_enum("Bees")).unwrap();
    crate_
        .add_binding::<TypeItem>(&root, "Wasps".into(), ty.clone(), Visibility::Pub, Priority::Explicit)
        .unwrap();
    assert_eq!(mod_a.path.last().unwrap(), &crate_.get::<Scope>(&mod_a).unwrap().metadata().name);
    assert_eq!(ty.path, vec!["a".to_string(), "Bees".to_string()]);
    assert_eq!(ty.path.last().unwrap(), &crate_.get::<TypeItem>(&ty).unwrap().metadata().name);
    assert!(root.path.is_empty());
}
