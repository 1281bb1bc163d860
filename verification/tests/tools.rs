use tendon::analysis::{analysis_outcome, line_progress, rls_line, AnalysisError, Progress, RlsLine};
use tendon::attributes::{Attribute, Meta, Span, Tokens};
use tendon::defs::{Children, DefId, Defs};
use tendon::backoff::{worker_step, Backoff, WorkerAction};
use tendon::namespace::Namespace;
use tendon::paths::{AbsoluteCrate, AbsolutePath, UnresolvedPath};
use tendon::resolve::WalkError;
use tendon::source_files::{find_source_file, join_path, parent_dir_of, SourceCandidates};
use tendon::unexpanded::{UnexpandedCursor, UnexpandedItem, UnexpandedModule};

#[test]
fn rls_lines() {
    let done = r#"{"jsonrpc":"2.0","method":"window/progress","params":{"title":"Building","done":true}}"#;
    let going = r#"{"jsonrpc":"2.0","method":"window/progress","params":{"title":"Building","message":"core"}}"#;
    let other = r#"{"jsonrpc":"2.0","method":"window/progress","params":{"title":"Indexing","done":true}}"#;
    assert_eq!(rls_line(done), RlsLine::BuildDone);
    assert_eq!(rls_line(going), RlsLine::Building("core".to_string()));
    assert_eq!(rls_line(other), RlsLine::Other);
    assert_eq!(rls_line("not json"), RlsLine::Other);
    assert_eq!(rls_line(r#"{"method":"textDocument/publishDiagnostics"}"#), RlsLine::Other);

    assert_eq!(line_progress(false, Some("not json")), (vec![Progress::Started], false));
    assert_eq!(line_progress(true, Some(done)), (vec![Progress::Done], true));
    assert_eq!(line_progress(false, Some(done)), (vec![Progress::Started, Progress::Done], true));
    assert_eq!(line_progress(true, None), (vec![Progress::Failure], true));
}

#[test]
fn analysis_outcomes() {
    assert_eq!(analysis_outcome(Some(Progress::Started), Some(Progress::Done)), Ok(()));
    assert_eq!(analysis_outcome(None, None), Err(AnalysisError::RlsFailed));
    assert_eq!(analysis_outcome(Some(Progress::Started), Some(Progress::Failure)), Err(AnalysisError::RlsFailed));
    assert_eq!(analysis_outcome(Some(Progress::Failure), Some(Progress::Done)), Err(AnalysisError::RlsFailed));
}

#[test]
fn workers_back_off() {
    let mut backoff = Backoff::new(1000);
    assert_eq!(worker_step(&mut backoff, false), WorkerAction::Sleep(1));
    assert_eq!(worker_step(&mut backoff, false), WorkerAction::Sleep(2));
    assert_eq!(worker_step(&mut backoff, false), WorkerAction::Sleep(4));
    assert_eq!(backoff.delay_ms(), 8);
    assert_eq!(worker_step(&mut backoff, true), WorkerAction::Run);
    assert_eq!(backoff.delay_ms(), 1);
    let mut capped = Backoff::new(1000);
    for _ in 0..7 {
        capped.advance();
    }
    assert_eq!(capped.delay_ms(), 128);
    capped.advance();
    assert_eq!(capped.delay_ms(), 250);
    for _ in 0..10 {
        capped.advance();
        assert_eq!(capped.delay_ms(), 250);
    }
    let mut small = Backoff::new(3);
    small.advance();
    assert_eq!(small.delay_ms(), 2);
    small.advance();
    assert_eq!(small.delay_ms(), 3);
    small.advance();
    assert_eq!(small.delay_ms(), 3);
    let mut pow2 = Backoff::new(256);
    for _ in 0..20 {
        pow2.advance();
        assert!(pow2.delay_ms() >= 1 && pow2.delay_ms() <= 250);
    }
}

#[test]
fn paths_of_files() {
    assert_eq!(parent_dir_of("src/lib.rs"), Some("src".to_string()));
    assert_eq!(parent_dir_of("lib.rs"), Some("".to_string()));
    assert_eq!(parent_dir_of("/lib.rs"), Some("/".to_string()));
    assert_eq!(parent_dir_of("/"), None);
    assert_eq!(parent_dir_of(""), None);
    assert_eq!(join_path("src", "a.rs"), "src/a.rs");
    assert_eq!(join_path("src/", "a.rs"), "src/a.rs");
    assert_eq!(join_path("", "a.rs"), "a.rs");
    assert_eq!(join_path("src", "/abs.rs"), "/abs.rs");
}

fn path_attr(value: &str) -> Attribute {
    Attribute::Meta(Meta::Assign { path: UnresolvedPath::fake("path"), literal: Tokens { text: value.to_string() } })
}

#[test]
fn module_files() {
    let found = find_source_file(
        "tendon_test/src/sub_mod/mod.rs",
        "tendon_test/src/root.rs",
        &vec!["sub_mod".to_string()],
        None,
        "child",
    );
    assert_eq!(
        found,
        Ok(SourceCandidates::FirstFileOf(vec![
            "tendon_test/src/sub_mod/child.rs".to_string(),
            "tendon_test/src/sub_mod/child/mod.rs".to_string(),
            "tendon_test/src/sub_mod/child.rs".to_string(),
            "tendon_test/src/sub_mod/child/mod.rs".to_string(),
        ]))
    );
    let renamed = path_attr("\"renamed.rs\"");
    assert_eq!(
        find_source_file("tendon_test/src/root.rs", "tendon_test/src/root.rs", &vec![], Some(&renamed), "thing"),
        Ok(SourceCandidates::Exactly("tendon_test/src/renamed.rs".to_string()))
    );
    let dir = path_attr("\"renamed\"");
    assert_eq!(
        find_source_file("tendon_test/src/root.rs", "tendon_test/src/root.rs", &vec![], Some(&dir), "thing"),
        Ok(SourceCandidates::FirstFileOf(vec![
            "tendon_test/src/renamed.rs".to_string(),
            "tendon_test/src/renamed/mod.rs".to_string(),
            "tendon_test/src/renamed.rs".to_string(),
            "tendon_test/src/renamed/mod.rs".to_string(),
        ]))
    );
    let bad = Attribute::Meta(Meta::Path(UnresolvedPath::fake("path")));
    assert_eq!(
        find_source_file("src/root.rs", "src/root.rs", &vec![], Some(&bad), "thing"),
        Err(WalkError::MalformedPathAttribute("#[path]".to_string()))
    );
    assert_eq!(find_source_file("", "src/root.rs", &vec![], Some(&renamed), "thing"), Err(WalkError::Root));
}

#[test]
fn unexpanded_cursor() {
    let module = UnexpandedModule::new("src/lib.rs".to_string());
    let mut cursor = UnexpandedCursor::new(module);
    cursor.insert(UnexpandedItem::MacroUse(Span::fake(), AbsoluteCrate::new("a", "0.0.0")));
    cursor.insert(UnexpandedItem::MacroUse(Span::fake(), AbsoluteCrate::new("b", "0.0.0")));
    assert!(cursor.pop().is_none());
    cursor.reset();
    cursor.insert(UnexpandedItem::MacroUse(Span::fake(), AbsoluteCrate::new("c", "0.0.0")));
    match cursor.pop() {
        Some(UnexpandedItem::MacroUse(_, c)) => assert_eq!(c.name, "a"),
        other => panic!("unexpected: {:?}", other),
    }
    let module = cursor.into_module();
    assert_eq!(module.items.len(), 2);
    match &module.items[0] {
        UnexpandedItem::MacroUse(span, c) => {
            assert_eq!(c.name, "c");
            assert_eq!(span.source_file, "fake_file.rs");
        }
        other => panic!("unexpected: {:?}", other),
    }
    assert_eq!(module.items[1].span().source_file, "fake_file.rs");
}

#[test]
fn namespace_crates() {
    let core = AbsoluteCrate::new("core", "0.0.0");
    let other = AbsoluteCrate::new("other", "0.0.0");
    let mut ns: Namespace<u32> = Namespace::new();
    ns.insert(AbsolutePath::new(core.clone(), &["a"]), 1).unwrap();
    ns.insert(AbsolutePath::new(other.clone(), &["b"]), 2).unwrap();
    ns.insert(AbsolutePath::new(core.clone(), &["c", "d"]), 3).unwrap();
    assert_eq!(
        ns.iter_crate(&core),
        vec![AbsolutePath::new(core.clone(), &["a"]), AbsolutePath::new(core.clone(), &["c", "d"])]
    );
    let i = ns.position(&AbsolutePath::new(core.clone(), &["c", "d"])).unwrap();
    *ns.modify(i) += 10;
    assert_eq!(ns.get(&AbsolutePath::new(core.clone(), &["c", "d"])), Some(&13));
    assert!(ns.position(&AbsolutePath::new(other.clone(), &["zzz"])).is_none());
}

fn def_id(index: u32) -> DefId {
    DefId { krate: 0, index }
}

#[test]
fn definition_children() {
    let defs = vec![
        (def_id(0), None),
        (def_id(1), Some(def_id(0))),
        (def_id(2), Some(def_id(1))),
        (def_id(3), Some(def_id(0))),
        (def_id(4), Some(DefId { krate: 1, index: 0 })),
    ];
    let children = Children::new(&defs);
    assert_eq!(children.children(def_id(0)), vec![def_id(1), def_id(3)]);
    assert_eq!(children.children(def_id(1)), vec![def_id(2)]);
    assert_eq!(children.children(def_id(2)), Vec::<DefId>::new());
    assert_eq!(children.children(DefId { krate: 1, index: 0 }), vec![def_id(4)]);
    assert_eq!(Children::new(&Vec::new()).children(def_id(0)), Vec::<DefId>::new());
}

#[test]
fn definitions_by_id() {
    let defs = Defs::new(vec![def_id(5), def_id(7), def_id(5)]);
    assert_eq!(defs.get(def_id(5)), Some(2));
    assert_eq!(defs.get(def_id(7)), Some(1));
    assert_eq!(defs.get(def_id(9)), None);
}
