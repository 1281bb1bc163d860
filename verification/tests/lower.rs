use tendon::attributes::{Attribute, Deprecation, Meta, MetaInner, Repr, Span, Tokens, Visibility};
use tendon::identities::{test_crate_a, Identity};
use tendon::lower::{
    extract_string, extract_symbol_metadata, extract_type_metadata, interp_cfg, lower_metadata,
    lower_use, lower_visibility, LowerError, ModuleScope, UseItem, UseTree, VisibilitySyntax,
};
use tendon::paths::{Path, UnresolvedPath};

fn p(s: &str) -> UnresolvedPath {
    UnresolvedPath::fake(s)
}

fn tok(s: &str) -> Tokens {
    Tokens { text: s.to_string() }
}

fn assign(path: &str, lit: &str) -> Meta {
    Meta::Assign { path: p(path), literal: tok(lit) }
}

fn call(path: &str, args: Vec<MetaInner>) -> Meta {
    Meta::Call { path: p(path), args }
}

#[test]
fn it_works() {
    assert_eq!(2 + 2, 4);
}

#[test]
fn metadata_lowering() {
    let features: Vec<String> = vec![];
    let all = lower_metadata(
        "item".to_string(),
        Visibility::Pub,
        vec![
            Attribute::Meta(assign("doc", "\" this is an item that exists\"")),
            Attribute::Meta(assign("must_use", "\"use me\"")),
            Attribute::Meta(call(
                "deprecated",
                vec![
                    MetaInner::Meta(assign("since", "\"0.2.0\"")),
                    MetaInner::Meta(assign("note", "\"don't use me\"")),
                ],
            )),
            Attribute::Meta(Meta::Path(p("other_attribute"))),
            Attribute::Meta(call(
                "other_attribute_meta",
                vec![MetaInner::Meta(assign("thing", "\"baz\""))],
            )),
            Attribute::Other { path: p("other_attribute_weird"), input: tok("2 + 2 / 3 - 4") },
        ],
        Span::fake(),
        &features,
    )
    .unwrap();

    assert_eq!(all.visibility, Visibility::Pub);
    assert_eq!(all.docs.as_deref(), Some(" this is an item that exists"));
    assert_eq!(all.must_use.as_deref(), Some("use me"));
    assert_eq!(
        all.deprecated,
        Some(Deprecation { since: Some("0.2.0".to_string()), note: Some("don't use me".to_string()) })
    );
    assert_eq!(all.extra_attributes.len(), 3);
    match &all.extra_attributes[0] {
        Attribute::Meta(Meta::Path(path)) => assert_eq!(path, &p("other_attribute")),
        other => panic!("unexpected: {:?}", other),
    }
    match &all.extra_attributes[1] {
        Attribute::Meta(Meta::Call { path, args }) => {
            assert_eq!(path, &p("other_attribute_meta"));
            match &args[0] {
                MetaInner::Meta(Meta::Assign { path, literal }) => {
                    assert_eq!(path, &p("thing"));
                    assert_eq!(literal.text, "\"baz\"");
                }
                other => panic!("unexpected: {:?}", other),
            }
        }
        other => panic!("unexpected: {:?}", other),
    }
    match &all.extra_attributes[2] {
        Attribute::Other { path, input } => {
            assert_eq!(path, &p("other_attribute_weird"));
            assert_eq!(input.text, "2 + 2 / 3 - 4");
        }
        other => panic!("unexpected: {:?}", other),
    }

    // shouldn't panic
    let module = Identity::root(&test_crate_a());
    let funky = lower_metadata(
        "item".to_string(),
        lower_visibility(VisibilitySyntax::Restricted, &module),
        vec![
            Attribute::Meta(call("docs", vec![MetaInner::Meta(assign("bees", "\"superior\""))])),
            Attribute::Meta(call("must_use", vec![MetaInner::Meta(assign("dogs", "\"incredible\""))])),
            Attribute::Meta(assign("deprecated", "\"nope\"")),
            Attribute::Meta(call("deprecated", vec![MetaInner::Meta(assign("flim_flam", "\"funsy parlor\""))])),
        ],
        Span::fake(),
        &features,
    )
    .unwrap();
    assert_eq!(funky.visibility, Visibility::InScope(module));
    assert_eq!(funky.must_use.as_deref(), Some(""));
    assert_eq!(funky.deprecated, Some(Deprecation { since: None, note: None }));
    assert_eq!(funky.extra_attributes.len(), 1);
}

#[test]
fn cfgd_out_items_are_refused() {
    let features = vec!["a".to_string()];
    let kept = lower_metadata(
        "item".to_string(),
        Visibility::Pub,
        vec![Attribute::Meta(Meta::Path(p("inline")))],
        Span::fake(),
        &features,
    )
    .unwrap();
    assert_eq!(kept.extra_attributes.len(), 1);
    // the whole attribute, `cfg(..)` included, is what gets evaluated
    let gone = lower_metadata(
        "item".to_string(),
        Visibility::Pub,
        vec![Attribute::Meta(call("cfg", vec![MetaInner::Meta(assign("feature", "\"a\""))]))],
        Span::fake(),
        &features,
    );
    assert!(matches!(gone, Err(LowerError::CfgdOut)));
    let weird = lower_metadata(
        "item".to_string(),
        Visibility::Pub,
        vec![Attribute::Other { path: p("cfg"), input: tok("???") }],
        Span::fake(),
        &features,
    );
    assert!(matches!(weird, Err(LowerError::CfgdOut)));
}

fn cfg_ok(features: &Vec<String>, meta: Meta) -> bool {
    interp_cfg(features, &meta).is_ok()
}

#[test]
fn cfgs() {
    let features = vec!["a".to_string(), "b".to_string()];
    let feat = |f: &str| assign("feature", &format!("\"{}\"", f));

    assert_eq!(cfg_ok(&features, feat("a")), true);
    assert_eq!(cfg_ok(&features, feat("b")), true);
    assert_eq!(cfg_ok(&features, feat("c")), false);
    assert_eq!(cfg_ok(&features, feat("bananas")), false);
    assert_eq!(cfg_ok(&features, call("not", vec![MetaInner::Meta(feat("a"))])), false);
    assert_eq!(cfg_ok(&features, call("not", vec![MetaInner::Meta(feat("c"))])), true);
    assert_eq!(
        cfg_ok(&features, call("any", vec![MetaInner::Meta(feat("a")), MetaInner::Meta(feat("bananas"))])),
        true
    );
    assert_eq!(
        cfg_ok(&features, call("all", vec![MetaInner::Meta(feat("a")), MetaInner::Meta(feat("bananas"))])),
        false
    );
    assert_eq!(
        cfg_ok(&features, call("all", vec![MetaInner::Meta(feat("a")), MetaInner::Meta(feat("b"))])),
        true
    );
}

#[test]
fn cfg_edge_cases() {
    let features = vec!["a".to_string()];
    assert_eq!(cfg_ok(&features, Meta::Path(p("test"))), false);
    assert_eq!(cfg_ok(&features, call("any", vec![])), false);
    assert_eq!(cfg_ok(&features, call("all", vec![])), true);
    assert_eq!(cfg_ok(&features, call("all", vec![MetaInner::Literal(tok("1"))])), false);
    assert_eq!(cfg_ok(&features, assign("target_os", "\"linux\"")), false);
}

#[test]
fn string_literals_are_unquoted() {
    assert_eq!(extract_string(&tok("\"hello\"")), "hello");
    assert_eq!(extract_string(&tok("\"a\\nb\"")), "a\nb");
    assert_eq!(extract_string(&tok("12")), "12");
}

#[test]
fn symbol_metadata() {
    let features: Vec<String> = vec![];
    let mut m = lower_metadata(
        "f".to_string(),
        Visibility::Pub,
        vec![
            Attribute::Meta(Meta::Path(p("no_mangle"))),
            Attribute::Meta(assign("export_name", "\"exported\"")),
            Attribute::Meta(assign("link_section", "\".text\"")),
            Attribute::Meta(Meta::Path(p("inline"))),
        ],
        Span::fake(),
        &features,
    )
    .unwrap();
    let sym = extract_symbol_metadata(&mut m).unwrap();
    assert!(sym.no_mangle);
    assert_eq!(sym.export_name.as_deref(), Some("exported"));
    assert_eq!(sym.link_section.as_deref(), Some(".text"));
    assert_eq!(m.extra_attributes.len(), 1);
}

#[test]
fn type_metadata() {
    let features: Vec<String> = vec![];
    let mut m = lower_metadata(
        "T".to_string(),
        Visibility::Pub,
        vec![
            Attribute::Meta(call(
                "derive",
                vec![MetaInner::Meta(Meta::Path(p("Clone"))), MetaInner::Meta(Meta::Path(p("Debug")))],
            )),
            Attribute::Meta(call("repr", vec![MetaInner::Meta(Meta::Path(p("C")))])),
            Attribute::Meta(Meta::Path(p("non_exhaustive"))),
        ],
        Span::fake(),
        &features,
    )
    .unwrap();
    let ty = extract_type_metadata(&mut m).unwrap();
    assert_eq!(ty.derives.len(), 2);
    assert_eq!(ty.derives[0].path, p("Clone"));
    assert_eq!(ty.derives[1].path, p("Debug"));
    assert!(!ty.derives[0].is_maybe);
    assert_eq!(ty.repr, Repr::C);
    assert_eq!(m.extra_attributes.len(), 1);

    let mut plain = lower_metadata("U".to_string(), Visibility::Pub, vec![], Span::fake(), &features).unwrap();
    let ty = extract_type_metadata(&mut plain).unwrap();
    assert_eq!(ty.derives.len(), 0);
    assert_eq!(ty.repr, Repr::Rust);
}

#[test]
fn visibilities_are_lowered() {
    let module = Identity::new(&test_crate_a(), &["m"]);
    assert_eq!(lower_visibility(VisibilitySyntax::Public, &module), Visibility::Pub);
    assert_eq!(lower_visibility(VisibilitySyntax::Inherited, &module), Visibility::InScope(module.clone()));
    assert_eq!(lower_visibility(VisibilitySyntax::Crate, &module), Visibility::InScope(module.clone()));
}

fn path_tree(segs: &[&str], last: UseTree) -> UseTree {
    let mut tree = last;
    for s in segs.iter().rev() {
        tree = UseTree::Path { ident: s.to_string(), tree: Box::new(tree) };
    }
    tree
}

#[test]
fn lowering() {
    // use ::x::y::{z::W, f as p, l::*};
    let mut scope = ModuleScope::new();
    lower_use(
        &mut scope,
        &UseItem {
            vis: VisibilitySyntax::Inherited,
            leading_colon: true,
            tree: path_tree(
                &["x", "y"],
                UseTree::Group(vec![
                    path_tree(&["z"], UseTree::Name("W".to_string())),
                    UseTree::Rename { ident: "f".to_string(), rename: "p".to_string() },
                    path_tree(&["l"], UseTree::Glob),
                ]),
            ),
        },
    );
    assert_eq!(scope.glob_imports[0], Path::fake("::x::y::l"));
    assert_eq!(scope.imports.get("W"), Some(&Path::fake("::x::y::z::W")));
    assert_eq!(scope.imports.get("p"), Some(&Path::fake("::x::y::f")));

    // pub use x::y::{z::{W, V}, f as p, l::*};
    let mut scope = ModuleScope::new();
    lower_use(
        &mut scope,
        &UseItem {
            vis: VisibilitySyntax::Public,
            leading_colon: false,
            tree: path_tree(
                &["x", "y"],
                UseTree::Group(vec![
                    path_tree(
                        &["z"],
                        UseTree::Group(vec![UseTree::Name("W".to_string()), UseTree::Name("V".to_string())]),
                    ),
                    UseTree::Rename { ident: "f".to_string(), rename: "p".to_string() },
                    path_tree(&["l"], UseTree::Glob),
                ]),
            ),
        },
    );
    assert_eq!(scope.pub_glob_imports[0], Path::fake("x::y::l"));
    assert_eq!(scope.pub_imports.get("W"), Some(&Path::fake("x::y::z::W")));
    assert_eq!(scope.pub_imports.get("V"), Some(&Path::fake("x::y::z::V")));
    assert_eq!(scope.pub_imports.get("p"), Some(&Path::fake("x::y::f")));
    assert_eq!(scope.imports.len(), 0);
    assert_eq!(scope.glob_imports.len(), 0);
}

#[test]
fn doc_lines_are_all_kept() {
    let features: Vec<String> = vec![];
    let m = lower_metadata(
        "item".to_string(),
        Visibility::Pub,
        vec![
            Attribute::Meta(assign("doc", "\" First line.\"")),
            Attribute::Meta(assign("must_use", "\"use me\"")),
            Attribute::Meta(assign("doc", "\" Second line.\"")),
            Attribute::Meta(assign("doc", "\"\"")),
        ],
        Span::fake(),
        &features,
    )
    .unwrap();
    assert_eq!(m.docs.as_deref(), Some(" First line.\n Second line.\n"));
}

#[test]
fn c_string_literals_are_not_features() {
    let features = vec!["a".to_string()];
    assert_eq!(cfg_ok(&features, assign("feature", "c\"a\"")), false);
    assert_eq!(cfg_ok(&features, call("not", vec![MetaInner::Meta(assign("feature", "c\"a\""))])), true);
    assert_eq!(extract_string(&tok("c\"a\"")), "c\"a\"".to_string());
}
