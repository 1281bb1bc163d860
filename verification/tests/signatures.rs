use tendon::defs::DefId;
use tendon::inspect::{print_sig, Def, Inspected, SigBuilder, SigElement, Signature};

#[test]
fn format() {
    let mut b = SigBuilder::new();
    let id = DefId { krate: 0, index: 0 };
    b.text("struct ");
    b.def(id, "Bees");
    b.text("<");
    b.def(id, "T");
    b.text(": ");
    b.reference(id, "Honey");
    b.text("> {}");
    let result = b.build();
    assert_eq!(result.text, "struct Bees<T: Honey> {}");
    assert_eq!(result.defs.len(), 2);
    assert_eq!(result.refs.len(), 1);
    assert_eq!(&result.text[result.defs[0].start..result.defs[0].end], "Bees");
    assert_eq!(&result.text[result.defs[1].start..result.defs[1].end], "T");
    assert_eq!(&result.text[result.refs[0].start..result.refs[0].end], "Honey");
}

fn bees() -> Signature {
    let mut b = SigBuilder::new();
    let id = DefId { krate: 0, index: 0 };
    b.text("struct ");
    b.def(id, "Bees");
    b.text("<");
    b.def(id, "T");
    b.text(": ");
    b.reference(id, "Honey");
    b.text("> {}");
    b.build()
}

#[test]
fn signatures_are_colored_by_nesting() {
    let printed = print_sig(&bees());
    assert_eq!(
        printed,
        "struct \x1b[35mBees\x1b[0m<\x1b[36mT\x1b[0m: \x1b[34mHoney\x1b[0m> {}"
    );
}

#[test]
fn nested_elements_restore_the_enclosing_color() {
    let id = DefId { krate: 0, index: 1 };
    let sig = Signature {
        text: "fn f(x: Vec<u8>)".to_string(),
        defs: vec![SigElement { start: 3, end: 4, id }],
        refs: vec![SigElement { start: 8, end: 15, id }, SigElement { start: 12, end: 14, id }],
    };
    assert_eq!(
        print_sig(&sig),
        "fn \x1b[35mf\x1b[0m(x: \x1b[36mVec<\x1b[34mu8\x1b[36m>\x1b[0m)"
    );
}

#[test]
fn definitions_are_inspected_through_their_signatures() {
    let with = Def { sig: Some(bees()) };
    let without = Def { sig: None };
    assert_eq!(Inspected(&with).display(), print_sig(&bees()));
    assert_eq!(Inspected(&without).display(), "");
}
