use tendon::paths::UnresolvedPath;
use tendon::rustdoc::{
    fix_module_name, get_path, get_source, parse_module, parse_struct, url_to_rust_path, Item, Module,
    Scrape, ScrapeError, Struct, WorkItem,
};

fn path(s: &str) -> UnresolvedPath {
    UnresolvedPath::parse(s).unwrap()
}

#[test]
fn url_conversions() {
    assert_eq!(
        url_to_rust_path("https://doc.rust-lang.org/nightly/std/convert/trait.TryFrom.html").unwrap(),
        path("std::convert::TryFrom")
    );
    assert_eq!(
        url_to_rust_path("https://doc.rust-lang.org/nightly/std/convert/trait.TryFrom.html").unwrap(),
        path("std::convert::TryFrom")
    );
}

#[test]
fn relative_urls() {
    assert_eq!(url_to_rust_path("../test_crate/z/struct.InMod.html").unwrap(), path("test_crate::z::InMod"));
    assert_eq!(url_to_rust_path("../std/primitive.u8.html").unwrap(), path("std::u8"));
}

#[test]
fn unknown_urls_are_refused() {
    assert_eq!(
        url_to_rust_path("https://example.com/a/struct.B.html"),
        Err(ScrapeError::UnknownPathForm { path: "https://example.com/a/struct.B.html".to_string() })
    );
    assert_eq!(
        url_to_rust_path("../a/fn.b.html"),
        Err(ScrapeError::UnknownPathForm { path: "a/fn.b.html".to_string() })
    );
    assert_eq!(
        url_to_rust_path("../struct.B.html"),
        Err(ScrapeError::UnknownPathForm { path: "struct.B.html".to_string() })
    );
}

#[test]
fn module_names() {
    assert_eq!(fix_module_name("test-crate"), "test_crate");
    assert_eq!(fix_module_name("a-b-c"), "a_b_c");
    assert_eq!(fix_module_name("plain"), "plain");
}

const MODULE_PAGE: &str = r#"<html><body>
<h1 class="fqn"><span class="in-band">Crate <a class="mod" href="">test_crate</a></span></h1>
<a class="struct" href="struct.Foo.html">Foo</a>
<a class="mod" href="z/index.html">z</a>
<a class="fn" href="fn.f.html">f</a>
</body></html>"#;

#[test]
fn module_pages() {
    let (links, item) = parse_module(MODULE_PAGE);
    assert_eq!(
        links,
        vec![
            WorkItem::Struct("struct.Foo.html".to_string()),
            WorkItem::Module("z/index.html".to_string()),
            WorkItem::Fn_("fn.f.html".to_string()),
        ]
    );
    assert_eq!(item, Ok(Item::Module(Module { is_crate: true, name: path("test_crate") })));
}

#[test]
fn module_page_without_href() {
    let page = r#"<html><body><a class="struct" href="struct.A.html">A</a><a class="struct">B</a>
<a class="mod" href="m/index.html">m</a></body></html>"#;
    let (links, item) = parse_module(page);
    assert_eq!(links, vec![WorkItem::Struct("struct.A.html".to_string())]);
    assert_eq!(item, Err(ScrapeError::MissingAttribute { attr: "href on `a.struct`".to_string() }));
}

#[test]
fn module_page_without_title() {
    let page = r#"<html><body><a class="mod" href="m/index.html">m</a></body></html>"#;
    let (links, item) = parse_module(page);
    assert_eq!(links, vec![WorkItem::Module("m/index.html".to_string())]);
    assert_eq!(item, Err(ScrapeError::MissingElement { elt: "`h1.fqn`".to_string() }));
}

const STRUCT_PAGE: &str = r#"<html><body>
<h1 class="fqn"><span class="in-band">Struct <a class="mod" href="index.html">test_crate</a>::<a class="struct" href="">Foo</a></span></h1>
<div class="type-decl"><pre class="rust struct">pub struct Foo { pub x: <a class="struct" href="../std/string/struct.String.html">String</a> }</pre></div>
</body></html>"#;

#[test]
fn struct_pages() {
    assert_eq!(get_path(STRUCT_PAGE), Ok(path("test_crate::Foo")));
    let (src, links) = get_source(STRUCT_PAGE).unwrap();
    assert_eq!(src, "pub struct Foo { pub x: String }");
    assert_eq!(links, vec![(path("String"), path("std::string::String"))]);
    assert_eq!(
        parse_struct(STRUCT_PAGE),
        Ok(Item::Struct(Struct { path: path("test_crate::Foo"), ident: "Foo".to_string() }))
    );
}

#[test]
fn struct_page_without_declaration() {
    let page = r#"<html><body><h1 class="fqn"><span class="in-band">Struct a::B</span></h1></body></html>"#;
    assert_eq!(parse_struct(page), Err(ScrapeError::MissingElement { elt: "`div.type-decl`".to_string() }));
}

#[test]
fn scrape_visits_each_page_once() {
    let mut scrape = Scrape::new("doc/c/index.html".to_string());
    assert_eq!(scrape.next_page(), Some(WorkItem::Module("doc/c/index.html".to_string())));
    scrape.queue_pages(vec![
        WorkItem::Struct("doc/c/struct.A.html".to_string()),
        WorkItem::Module("doc/c/index.html".to_string()),
        WorkItem::Struct("doc/c/struct.A.html".to_string()),
        WorkItem::Fn_("doc/c/fn.f.html".to_string()),
    ]);
    assert_eq!(scrape.next_page(), Some(WorkItem::Struct("doc/c/struct.A.html".to_string())));
    assert_eq!(scrape.next_page(), Some(WorkItem::Fn_("doc/c/fn.f.html".to_string())));
    assert_eq!(scrape.next_page(), None);
    scrape.record(Item::Module(Module { is_crate: true, name: path("c") }));
    let api = scrape.finish();
    assert_eq!(api.items.len(), 1);
}

#[test]
fn relative_and_nightly_links_agree() {
    assert_eq!(
        url_to_rust_path("../core/option/enum.Option.html"),
        url_to_rust_path("https://doc.rust-lang.org/nightly/core/option/enum.Option.html")
    );
    assert_eq!(url_to_rust_path("../core/option/enum.Option.html").unwrap(), path("core::option::Option"));
}
