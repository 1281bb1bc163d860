use tendon::attributes::{Metadata, Span, Visibility};
use tendon::builtins::{get_builtins, proc_macro_crate, std_crate, test_crate};
use tendon::identities::{test_crate_a, Identity};
use tendon::items::{MacroItem, SymbolItem, TypeItem};
use tendon::scopes::Scope;
use tendon::text::contains_path_sep;
use tendon::unexpanded::{UnexpandedCursor, UnexpandedItem, UnexpandedModule};
use tendon::paths::AbsoluteCrate;

#[test]
fn only_types_have_builtins() {
    let types = get_builtins::<TypeItem>().unwrap();
    assert_eq!(types.len(), 14);
    assert_eq!(types[0].0, "char");
    assert_eq!(types[13].0, "'static");
    assert_eq!(types[7].1.path, vec!["u8".to_string()]);
    assert!(get_builtins::<SymbolItem>().is_none());
    assert!(get_builtins::<MacroItem>().is_none());
}

#[test]
fn builtin_crates_are_stored_in_the_test_crate() {
    assert_eq!(std_crate(), test_crate());
    assert_eq!(proc_macro_crate(), test_crate());
    assert_eq!(std_crate().name, "test");
    assert_eq!(std_crate().version, "0.0.0");
}

#[test]
fn back_links_keep_their_order() {
    let mut scope = Scope::new(Metadata::fake("m"), true);
    let a = Identity::new(&test_crate_a(), &["a"]);
    let b = Identity::new(&test_crate_a(), &["b"]);
    scope.add_back_link(a.clone(), Visibility::Pub);
    scope.add_back_link(b.clone(), Visibility::InScope(a.clone()));
    let links = scope.back_links();
    assert_eq!(links.len(), 2);
    assert_eq!(links[0], (a.clone(), Visibility::Pub));
    assert_eq!(links[1], (b, Visibility::InScope(a)));
}

#[test]
fn path_separators_are_found() {
    assert!(contains_path_sep("a::b"));
    assert!(contains_path_sep("::"));
    assert!(!contains_path_sep("a:b"));
    assert!(!contains_path_sep(":"));
    assert!(!contains_path_sep(""));
}

#[test]
fn cursors_lend_their_module() {
    let mut cursor = UnexpandedCursor::new(UnexpandedModule::new("src/m.rs".to_string()));
    cursor.insert(UnexpandedItem::MacroUse(Span::fake(), AbsoluteCrate::new("a", "0.0.0")));
    assert_eq!(cursor.module_ref().source_file, "src/m.rs");
    assert_eq!(cursor.module_ref().items.len(), 1);
}

#[test]
fn paths_with_c_string_arguments_parse() {
    let p = tendon::paths::UnresolvedPath::parse("a<c\"x\">").unwrap();
    assert_eq!(p.path, vec!["a".to_string()]);
    assert!(!p.rooted);
}
