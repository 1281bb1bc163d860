//! Reading a crate's API out of the HTML that rustdoc writes.
//!
//! The pages are parsed with `soup` and the embedded Rust with `syn`; what is read out of them,
//! and which pages are visited, is decided here.

use crate::text::str_eq;
use crate::paths::{syn_path_parse, syn_unresolved, UnresolvedPath, UnresolvedPathView};
use soup::{NodeExt, QueryBuilderExt, Soup};
use vstd::prelude::*;
use vstd::string::*;

verus! {

/// Errors while scraping rustdoc output.
#[derive(Debug, Clone, PartialEq, Eq)]
pub enum ScrapeError {
    /// A page could not be read.
    Io { message: String },
    /// Rust code or a path in a page did not parse.
    Parse,
    /// The formatting of a page does not match expectations.
    MalformedRustdoc,
    /// An element lacks an attribute.
    MissingAttribute { attr: String },
    /// A page lacks an element.
    MissingElement { elt: String },
    /// The file system is laid out unexpectedly.
    WeirdFs,
    /// A link of a form that cannot be turned into a path.
    UnknownPathForm { path: String },
}

/// The characters of `s` after its last space; all of `s` where it has none.
pub open spec fn after_last_space(s: Seq<char>) -> Seq<char>
    decreases s.len(),
{
    if s.len() == 0 {
        s
    } else if s.last() == ' ' {
        Seq::empty()
    } else {
        after_last_space(s.drop_last()).push(s.last())
    }
}

/// `Regex::new(pattern).replace_all(s, with)`, for the pattern `[^ ]* ` and an empty
/// replacement: every run of non-spaces that ends in a space is removed, which leaves what
/// follows the last space.
#[verifier::external_body]
fn regex_replace_all(pattern: &str, s: &str, with: &str) -> (r: String)
    requires
        pattern@ == "[^ ]* "@,
        with@ == ""@,
    ensures
        r@ == after_last_space(s@),
{
    regex::Regex::new(pattern).unwrap().replace_all(s, with).into_owned()
}

/// What follows the last space of `s`: all of it where it has none.
pub fn remove_upto_space(s: &str) -> (r: String)
    ensures
        r@ == after_last_space(s@),
{
    regex_replace_all("[^ ]* ", s, "")
}

/// Whether `c` is in `[a-zA-Z0-9_]`.
pub open spec fn is_word_char(c: char) -> bool {
    ('a' <= c <= 'z') || ('A' <= c <= 'Z') || ('0' <= c <= '9') || c == '_'
}

/// The kinds of page that rustdoc names `<kind>.<name>.html`.
pub open spec fn is_page_kind(k: Seq<char>) -> bool {
    k == seq!['p', 'r', 'i', 'm', 'i', 't', 'i', 'v', 'e'] || k == seq!['s', 't', 'r', 'u', 'c', 't']
        || k == seq!['t', 'r', 'a', 'i', 't'] || k == seq!['t', 'y', 'p', 'e'] || k == seq![
        'e',
        'n',
        'u',
        'm',
    ]
}

/// Whether `s` is `<prefix>/<kind>.<name>.html`, with no line break in the prefix, a page kind,
/// and a name of word characters.
pub open spec fn is_page_url(s: Seq<char>, prefix: Seq<char>, kind: Seq<char>, name: Seq<char>) -> bool {
    &&& s == prefix + seq!['/'] + kind + seq!['.'] + name + seq!['.', 'h', 't', 'm', 'l']
    &&& !prefix.contains('\n')
    &&& is_page_kind(kind)
    &&& forall|i: int| 0 <= i < name.len() ==> is_word_char(#[trigger] name[i])
}

/// The prefix, kind and name of a page's URL, where it has that form.
pub open spec fn page_url_parts(s: Seq<char>) -> Option<(Seq<char>, Seq<char>, Seq<char>)> {
    if exists|p: (Seq<char>, Seq<char>, Seq<char>)| is_page_url(s, p.0, p.1, p.2) {
        Some(choose|p: (Seq<char>, Seq<char>, Seq<char>)| is_page_url(s, p.0, p.1, p.2))
    } else {
        None
    }
}

/// `Regex::new(pattern).captures(path)`, its three groups, for the pattern
/// `^(.*)/(primitive|struct|trait|type|enum)\.([a-zA-Z0-9_]*)\.html$`. The pattern is anchored
/// at both ends and nothing after the slash can hold a slash, so a match splits `path` at its
/// last slash, and the three groups are the only split of that form.
#[verifier::external_body]
fn regex_captures(pattern: &str, path: &str) -> (r: Option<(String, String, String)>)
    requires
        pattern@ == r"^(.*)/(primitive|struct|trait|type|enum)\.([a-zA-Z0-9_]*)\.html$"@,
    ensures
        r.deep_view() == page_url_parts(path@),
{
    let caps = regex::Regex::new(pattern).unwrap().captures(path)?;
    Some((caps[1].to_string(), caps[2].to_string(), caps[3].to_string()))
}

/// `s` with each `c` replaced by `by`.
pub open spec fn replaced(s: Seq<char>, c: char, by: Seq<char>) -> Seq<char>
    decreases s.len(),
{
    if s.len() == 0 {
        s
    } else if s.last() == c {
        replaced(s.drop_last(), c, by) + by
    } else {
        replaced(s.drop_last(), c, by).push(s.last())
    }
}

/// `s` with each `c` replaced by `by`, as `str::replace` does with a one-character pattern.
fn replace_char(s: &str, c: char, by: &str) -> (r: String)
    ensures
        r@ == replaced(s@, c, by@),
{
    let n = s.unicode_len();
    let mut out = String::new();
    let mut i: usize = 0;
    proof {
        assert(s@.take(0) =~= Seq::<char>::empty());
        assert(out@ =~= Seq::<char>::empty());
    }
    while i < n
        invariant
            n == s@.len(),
            i <= n,
            out@ == replaced(s@.take(i as int), c, by@),
        decreases n - i,
    {
        let ch = s.get_char(i);
        proof {
            assert(s@.take(i + 1).drop_last() =~= s@.take(i as int));
            assert(s@.take(i + 1).last() == ch);
        }
        if ch == c {
            out.append(by);
        } else {
            out.append(s.substring_char(i, i + 1));
            proof {
                assert(s@.subrange(i as int, i + 1) =~= seq![ch]);
            }
        }
        proof {
            assert(out@ =~= replaced(s@.take(i + 1), c, by@));
        }
        i = i + 1;
    }
    proof {
        assert(s@.take(n as int) =~= s@);
    }
    out
}

/// A package name as the name of its crate: `-` becomes `_`.
pub fn fix_module_name(name: &str) -> (r: String)
    ensures
        r@ == replaced(name@, '-', seq!['_']),
{
    let under = "_";
    proof {
        reveal_strlit("_");
        assert(under@ =~= seq!['_']);
    }
    replace_char(name, '-', under)
}

/// Whether `s` starts with `prefix`.
pub open spec fn has_prefix(s: Seq<char>, prefix: Seq<char>) -> bool {
    prefix.len() <= s.len() && s.take(prefix.len() as int) == prefix
}

/// Whether `s` starts with `prefix`, by its characters.
fn starts_with(s: &str, prefix: &str) -> (r: bool)
    ensures
        r == has_prefix(s@, prefix@),
{
    let n = s.unicode_len();
    let m = prefix.unicode_len();
    if m > n {
        return false;
    }
    let mut i: usize = 0;
    while i < m
        invariant
            n == s@.len(),
            m == prefix@.len(),
            m <= n,
            i <= m,
            forall|j: int| 0 <= j < i ==> s@[j] == prefix@[j],
        decreases m - i,
    {
        if s.get_char(i) != prefix.get_char(i) {
            proof {
                assert(s@.take(m as int)[i as int] != prefix@[i as int]);
            }
            return false;
        }
        i = i + 1;
    }
    proof {
        assert(s@.take(m as int) =~= prefix@);
    }
    true
}

/// Where rustdoc links to the standard library's documentation.
pub open spec fn nightly_docs() -> Seq<char> {
    "https://doc.rust-lang.org/nightly/"@
}

/// What follows the `../` or the nightly-docs prefix of a link; `None` for other links.
pub open spec fn link_body(s: Seq<char>) -> Option<Seq<char>> {
    if has_prefix(s, "../"@) {
        Some(s.skip(3))
    } else if has_prefix(s, nightly_docs()) {
        Some(s.skip(nightly_docs().len() as int))
    } else {
        None
    }
}

/// The path text that a page of prefix `prefix` and name `name` documents: the directories of
/// the prefix joined by `::`, then the name.
pub open spec fn page_path_text(prefix: Seq<char>, name: Seq<char>) -> Seq<char> {
    replaced(prefix, '/', seq![':', ':']) + seq![':', ':'] + name
}

/// What `url_to_rust_path` gives for the link `s`.
pub open spec fn url_path_result(s: Seq<char>) -> Result<UnresolvedPathView, ScrapeErrorView> {
    match link_body(s) {
        None => Err(ScrapeErrorView::UnknownPathForm(s)),
        Some(body) => match page_url_parts(body) {
            None => Err(ScrapeErrorView::UnknownPathForm(body)),
            Some(parts) => {
                let text = page_path_text(parts.0, parts.2);
                if syn_path_parse(text) is Some {
                    Ok(syn_unresolved(text))
                } else {
                    Err(ScrapeErrorView::Parse)
                }
            },
        },
    }
}

/// The characters of a scraping error.
pub enum ScrapeErrorView {
    Io(Seq<char>),
    Parse,
    MalformedRustdoc,
    MissingAttribute(Seq<char>),
    MissingElement(Seq<char>),
    WeirdFs,
    UnknownPathForm(Seq<char>),
}

impl View for ScrapeError {
    type V = ScrapeErrorView;

    open spec fn view(&self) -> ScrapeErrorView {
        match self {
            ScrapeError::Io { message } => ScrapeErrorView::Io(message@),
            ScrapeError::Parse => ScrapeErrorView::Parse,
            ScrapeError::MalformedRustdoc => ScrapeErrorView::MalformedRustdoc,
            ScrapeError::MissingAttribute { attr } => ScrapeErrorView::MissingAttribute(attr@),
            ScrapeError::MissingElement { elt } => ScrapeErrorView::MissingElement(elt@),
            ScrapeError::WeirdFs => ScrapeErrorView::WeirdFs,
            ScrapeError::UnknownPathForm { path } => ScrapeErrorView::UnknownPathForm(path@),
        }
    }
}

/// A result's view, its error by its view.
pub open spec fn path_result_view(r: Result<UnresolvedPath, ScrapeError>) -> Result<
    UnresolvedPathView,
    ScrapeErrorView,
> {
    match r {
        Ok(p) => Ok(p@),
        Err(e) => Err(e@),
    }
}

/// The Rust path that a rustdoc link points to: `../a/b/struct.C.html` and
/// `https://doc.rust-lang.org/nightly/a/b/struct.C.html` both point to `a::b::C`.
pub fn url_to_rust_path(path: &str) -> (r: Result<UnresolvedPath, ScrapeError>)
    ensures
        path_result_view(r) == url_path_result(path@),
{
    let relative = "../";
    let nightly = "https://doc.rust-lang.org/nightly/";
    let body = if starts_with(path, relative) {
        proof {
            reveal_strlit("../");
        }
        path.substring_char(3, path.unicode_len())
    } else if starts_with(path, nightly) {
        path.substring_char(nightly.unicode_len(), path.unicode_len())
    } else {
        return Err(ScrapeError::UnknownPathForm { path: path.to_string() });
    };
    proof {
        assert(link_body(path@) == Some(body@));
    }
    let (prefix, _kind, name) = match regex_captures(r"^(.*)/(primitive|struct|trait|type|enum)\.([a-zA-Z0-9_]*)\.html$", body) {
        Some(caps) => caps,
        None => return Err(ScrapeError::UnknownPathForm { path: body.to_string() }),
    };
    let sep = "::";
    proof {
        reveal_strlit("::");
        assert(sep@ =~= seq![':', ':']);
    }
    let mut text = replace_char(prefix.as_str(), '/', sep);
    text.append(sep);
    text.append(name.as_str());
    proof {
        assert(text@ =~= page_path_text(prefix@, name@));
    }
    match UnresolvedPath::parse(text.as_str()) {
        Some(p) => Ok(p),
        None => Err(ScrapeError::Parse),
    }
}

/// A page of rustdoc output to scrape, by its file path and the kind of item it documents.
#[derive(Debug, Clone, PartialEq, Eq, Hash)]
pub enum WorkItem {
    Module(String),
    Struct(String),
    Fn_(String),
    Trait(String),
}

/// The characters of a work item.
pub enum WorkItemView {
    Module(Seq<char>),
    Struct(Seq<char>),
    Fn_(Seq<char>),
    Trait(Seq<char>),
}

impl View for WorkItem {
    type V = WorkItemView;

    open spec fn view(&self) -> WorkItemView {
        match self {
            WorkItem::Module(p) => WorkItemView::Module(p@),
            WorkItem::Struct(p) => WorkItemView::Struct(p@),
            WorkItem::Fn_(p) => WorkItemView::Fn_(p@),
            WorkItem::Trait(p) => WorkItemView::Trait(p@),
        }
    }
}

impl WorkItem {
    /// A copy.
    pub fn dup(&self) -> (r: WorkItem)
        ensures
            r@ == self@,
    {
        match self {
            WorkItem::Module(p) => WorkItem::Module(p.clone()),
            WorkItem::Struct(p) => WorkItem::Struct(p.clone()),
            WorkItem::Fn_(p) => WorkItem::Fn_(p.clone()),
            WorkItem::Trait(p) => WorkItem::Trait(p.clone()),
        }
    }

    /// Whether both are the same kind of page at the same path.
    pub fn same(&self, other: &WorkItem) -> (r: bool)
        ensures
            r == (self@ == other@),
    {
        match (self, other) {
            (WorkItem::Module(a), WorkItem::Module(b)) => str_eq(a, b),
            (WorkItem::Struct(a), WorkItem::Struct(b)) => str_eq(a, b),
            (WorkItem::Fn_(a), WorkItem::Fn_(b)) => str_eq(a, b),
            (WorkItem::Trait(a), WorkItem::Trait(b)) => str_eq(a, b),
            _ => false,
        }
    }
}

/// A module (or crate) found in the documentation.
#[derive(Debug, Clone, PartialEq, Eq)]
pub struct Module {
    /// Whether it is the crate's root.
    pub is_crate: bool,
    /// Its path.
    pub name: UnresolvedPath,
}

/// A struct found in the documentation.
#[derive(Debug, Clone, PartialEq, Eq)]
pub struct Struct {
    /// Its path.
    pub path: UnresolvedPath,
    /// Its name.
    pub ident: String,
}

/// An item found in the documentation.
#[derive(Debug, Clone, PartialEq, Eq)]
pub enum Item {
    Module(Module),
    Struct(Struct),
}

/// The API of a crate: the items found in its documentation, in the order they were found.
#[derive(Debug)]
pub struct Api {
    pub items: Vec<Item>,
}

/// The value of attribute `attr` of each `<tag class="{class}">` element of `html`, in document
/// order; `None` where an element has none.
pub uninterp spec fn soup_attrs(html: Seq<char>, tag: Seq<char>, class: Seq<char>, attr: Seq<char>) -> Seq<Option<Seq<char>>>;

/// `Soup::new(html).tag(tag).class(class).find_all()`, each element's `get(attr)`.
#[verifier::external_body]
fn find_attrs(html: &str, tag: &str, class: &str, attr: &str) -> (r: Vec<Option<String>>)
    ensures
        r.deep_view() == soup_attrs(html@, tag@, class@, attr@),
{
    let soup = Soup::new(html);
    let found = soup.tag(tag.to_string()).class(class.to_string()).find_all();
    found.map(|node| node.get(attr)).collect()
}

/// The first `<tag1 class="{class1}">` element of `html`, if any; in it (itself included, as
/// soup searches) the first `<tag2 class="{class2}">`, if any; and that element's text.
pub uninterp spec fn soup_text_in(html: Seq<char>, tag1: Seq<char>, class1: Seq<char>, tag2: Seq<char>, class2: Seq<char>) -> Option<Option<Seq<char>>>;

/// Two nested `find`s, then `text`.
#[verifier::external_body]
fn find_text_in(html: &str, tag1: &str, class1: &str, tag2: &str, class2: &str) -> (r: Option<Option<String>>)
    ensures
        r.deep_view() == soup_text_in(html@, tag1@, class1@, tag2@, class2@),
{
    let soup = Soup::new(html);
    let outer = soup.tag(tag1.to_string()).class(class1.to_string()).find();
    outer.map(|o| o.tag(tag2.to_string()).class(class2.to_string()).find().map(|n| n.text()))
}

/// As `soup_text_in`, with a third element searched for in the second, whose text is taken.
pub uninterp spec fn soup_text_in_in(
    html: Seq<char>,
    tag1: Seq<char>,
    class1: Seq<char>,
    tag2: Seq<char>,
    class2: Seq<char>,
    tag3: Seq<char>,
    class3: Seq<char>,
) -> Option<Option<Option<Seq<char>>>>;

/// Three nested `find`s, then `text`.
#[verifier::external_body]
fn find_text_in_in(html: &str, tag1: &str, class1: &str, tag2: &str, class2: &str, tag3: &str, class3: &str) -> (r: Option<Option<Option<String>>>)
    ensures
        r.deep_view() == soup_text_in_in(html@, tag1@, class1@, tag2@, class2@, tag3@, class3@),
{
    let first = Soup::new(html).tag(tag1.to_string()).class(class1.to_string()).find();
    first.map(|a| a.tag(tag2.to_string()).class(class2.to_string()).find().map(|b| {
        b.tag(tag3.to_string()).class(class3.to_string()).find().map(|c| c.text())
    }))
}

/// The first `<tag1 class="{class1}">` element of `html`, if any; in it the first `<tag2>`, if
/// any; and that element's text, with the text and the attribute `attr` of each `<link_tag>` in
/// it, in document order.
pub uninterp spec fn soup_linked_text(
    html: Seq<char>,
    tag1: Seq<char>,
    class1: Seq<char>,
    tag2: Seq<char>,
    link_tag: Seq<char>,
    attr: Seq<char>,
) -> Option<Option<(Seq<char>, Seq<(Seq<char>, Option<Seq<char>>)>)>>;

/// Two nested `find`s; the text of the second, and the text and `get(attr)` of each of its
/// `link_tag` elements.
#[verifier::external_body]
fn find_linked_text(html: &str, tag1: &str, class1: &str, tag2: &str, link_tag: &str, attr: &str) -> (r: Option<Option<(String, Vec<(String, Option<String>)>)>>)
    ensures
        r.deep_view() == soup_linked_text(html@, tag1@, class1@, tag2@, link_tag@, attr@),
{
    let soup = Soup::new(html);
    let outer = soup.tag(tag1.to_string()).class(class1.to_string()).find();
    outer.map(|o| o.tag(tag2.to_string()).find().map(|n| {
        (n.text(), n.tag(link_tag.to_string()).find_all().map(|a| (a.text(), a.get(attr))).collect())
    }))
}

/// Whether `syn` parses `s` as a struct, enum or union declaration (`syn::DeriveInput`).
pub uninterp spec fn syn_parses_derive_input(s: Seq<char>) -> bool;

/// `syn::parse_str::<syn::DeriveInput>(s)`, whether it succeeds.
#[verifier::external_body]
fn parses_as_derive_input(s: &str) -> (r: bool)
    ensures
        r == syn_parses_derive_input(s@),
{
    syn::parse_str::<syn::DeriveInput>(s).is_ok()
}

/// Which kind of page a link found on a module page leads to.
#[derive(Debug, Clone, Copy, PartialEq, Eq, Structural)]
pub enum LinkKind {
    Struct,
    Module,
    Fn_,
}

/// The page that a link of kind `kind` to `path` leads to.
pub open spec fn linked_page(kind: LinkKind, path: Seq<char>) -> WorkItemView {
    match kind {
        LinkKind::Struct => WorkItemView::Struct(path),
        LinkKind::Module => WorkItemView::Module(path),
        LinkKind::Fn_ => WorkItemView::Fn_(path),
    }
}

/// The pages of a sequence of work items.
pub open spec fn pages(items: Seq<WorkItem>) -> Seq<WorkItemView> {
    items.map_values(|w: WorkItem| w@)
}

/// The non-empty links among `hrefs` that come before the first element without one, and
/// whether there is such an element.
pub open spec fn links_followed(hrefs: Seq<Option<Seq<char>>>) -> (Seq<Seq<char>>, bool)
    decreases hrefs.len(),
{
    if hrefs.len() == 0 {
        (Seq::empty(), false)
    } else {
        let (before, missing) = links_followed(hrefs.drop_last());
        if missing {
            (before, true)
        } else {
            match hrefs.last() {
                None => (before, true),
                Some(h) => (if h.len() > 0 { before.push(h) } else { before }, false),
            }
        }
    }
}

/// Once an element without a link is met, what follows changes nothing.
proof fn lemma_links_stop(hrefs: Seq<Option<Seq<char>>>, k: int)
    requires
        0 <= k <= hrefs.len(),
        links_followed(hrefs.take(k)).1,
    ensures
        links_followed(hrefs) == links_followed(hrefs.take(k)),
    decreases hrefs.len() - k,
{
    if k < hrefs.len() {
        assert(hrefs.take(k + 1).drop_last() =~= hrefs.take(k));
        assert(links_followed(hrefs.take(k + 1)) == links_followed(hrefs.take(k)));
        lemma_links_stop(hrefs, k + 1);
    } else {
        assert(hrefs.take(k) =~= hrefs);
    }
}

/// The pages that the links `links` of kind `kind` lead to.
pub open spec fn linked_pages(kind: LinkKind, links: Seq<Seq<char>>) -> Seq<WorkItemView> {
    links.map_values(|h: Seq<char>| linked_page(kind, h))
}

/// Queue the pages of the links among `hrefs` that are followed; `false` where an element has no
/// link.
#[verifier::loop_isolation(false)]
fn follow_links(hrefs: Vec<Option<String>>, kind: LinkKind, queue: &mut Vec<WorkItem>) -> (ok: bool)
    ensures
        pages(final(queue)@) == pages(old(queue)@) + linked_pages(kind, links_followed(hrefs.deep_view()).0),
        ok == !links_followed(hrefs.deep_view()).1,
{
    let ghost q0 = pages(queue@);
    let ghost all = hrefs.deep_view();
    let n = hrefs.len();
    let mut rest = hrefs;
    let mut i: usize = 0;
    proof {
        assert(all.take(0) =~= Seq::<Option<Seq<char>>>::empty());
        assert(linked_pages(kind, Seq::empty()) =~= Seq::<WorkItemView>::empty());
        assert(q0 + Seq::<WorkItemView>::empty() =~= q0);
    }
    while i < n
        invariant
            n == all.len(),
            i <= n,
            rest.len() == n - i,
            forall|j: int| 0 <= j < rest.len() ==> #[trigger] rest.deep_view()[j] == all[i + j],
            !links_followed(all.take(i as int)).1,
            pages(queue@) == q0 + linked_pages(kind, links_followed(all.take(i as int)).0),
        decreases n - i,
    {
        let ghost r0 = rest.deep_view();
        let next = rest.remove(0);
        proof {
            assert(next.deep_view() == all[i as int]) by {
                assert(r0[0] == all[i as int]);
            }
            assert forall|j: int| 0 <= j < rest.len() implies #[trigger] rest.deep_view()[j] == all[i + 1 + j] by {
                assert(r0[j + 1] == all[i + j + 1]);
            }
            assert(all.take(i + 1).drop_last() =~= all.take(i as int));
            assert(all.take(i + 1).last() == all[i as int]);
        }
        match next {
            None => {
                proof {
                    assert(links_followed(all.take(i + 1)) == (links_followed(all.take(i as int)).0, true));
                    lemma_links_stop(all, i + 1);
                }
                return false;
            },
            Some(link) => {
                if link.unicode_len() > 0 {
                    let ghost before = links_followed(all.take(i as int)).0;
                    let page = match kind {
                        LinkKind::Struct => WorkItem::Struct(link),
                        LinkKind::Module => WorkItem::Module(link),
                        LinkKind::Fn_ => WorkItem::Fn_(link),
                    };
                    let ghost pq = queue@;
                    queue.push(page);
                    proof {
                        assert(pages(queue@) =~= pages(pq).push(page@));
                        assert(linked_pages(kind, before.push(link@)) =~= linked_pages(kind, before).push(page@));
                    }
                }
            },
        }
        i = i + 1;
    }
    proof {
        assert(all.take(n as int) =~= all);
    }
    true
}

/// An item, by its characters.
pub enum ItemView {
    Module { is_crate: bool, name: UnresolvedPathView },
    Struct { path: UnresolvedPathView, ident: Seq<char> },
}

impl View for Item {
    type V = ItemView;

    open spec fn view(&self) -> ItemView {
        match self {
            Item::Module(m) => ItemView::Module { is_crate: m.is_crate, name: m.name@ },
            Item::Struct(s) => ItemView::Struct { path: s.path@, ident: s.ident@ },
        }
    }
}

/// A result's view, its item and error by their views.
pub open spec fn item_result_view(r: Result<Item, ScrapeError>) -> Result<ItemView, ScrapeErrorView> {
    match r {
        Ok(i) => Ok(i@),
        Err(e) => Err(e@),
    }
}

/// The pages that a module page links to, in the order they are queued (its structs, then its
/// modules, then its functions), and the attribute whose absence stopped the reading, if any.
pub open spec fn module_page_links(html: Seq<char>) -> (Seq<WorkItemView>, Option<Seq<char>>) {
    let (structs, no_struct) = links_followed(soup_attrs(html, "a"@, "struct"@, "href"@));
    let (mods, no_mod) = links_followed(soup_attrs(html, "a"@, "mod"@, "href"@));
    let (fns, no_fn) = links_followed(soup_attrs(html, "a"@, "fn"@, "href"@));
    let s = linked_pages(LinkKind::Struct, structs);
    let m = linked_pages(LinkKind::Module, mods);
    let f = linked_pages(LinkKind::Fn_, fns);
    if no_struct {
        (s, Some("href on `a.struct`"@))
    } else if no_mod {
        (s + m, Some("href on `a.mod`"@))
    } else if no_fn {
        (s + m + f, Some("href on `a.fn`"@))
    } else {
        (s + m + f, None)
    }
}

/// The module that a module page documents, from its title.
pub open spec fn module_of_page(html: Seq<char>) -> Result<ItemView, ScrapeErrorView> {
    match soup_text_in_in(html, "h1"@, "fqn"@, "span"@, "in-band"@, "span"@, "in-band"@) {
        None => Err(ScrapeErrorView::MissingElement("`h1.fqn`"@)),
        Some(None) => Err(ScrapeErrorView::MissingElement("`h1.fqn > span.in-band`"@)),
        Some(Some(None)) => Err(ScrapeErrorView::MissingElement("`h1.fqn > span.in-band > a.mod`"@)),
        Some(Some(Some(text))) => {
            let name = after_last_space(text);
            if syn_path_parse(name) is Some {
                Ok(ItemView::Module { is_crate: has_prefix(text, "Crate"@), name: syn_unresolved(name) })
            } else {
                Err(ScrapeErrorView::Parse)
            }
        },
    }
}

/// Read a module page: the pages it links to, which are queued whatever else happens, and the
/// module it documents.
pub fn parse_module(html: &str) -> (r: (Vec<WorkItem>, Result<Item, ScrapeError>))
    ensures
        pages(r.0@) == module_page_links(html@).0,
        module_page_links(html@).1 matches Some(attr) ==> r.1 matches Err(e) && e@
            == ScrapeErrorView::MissingAttribute(attr),
        module_page_links(html@).1 is None ==> item_result_view(r.1) == module_of_page(html@),
{
    let mut queue: Vec<WorkItem> = Vec::new();
    proof {
        assert(pages(queue@) =~= Seq::<WorkItemView>::empty());
    }
    if !follow_links(find_attrs(html, "a", "struct", "href"), LinkKind::Struct, &mut queue) {
        proof {
            assert(pages(queue@) =~= module_page_links(html@).0);
        }
        return (queue, Err(ScrapeError::MissingAttribute { attr: "href on `a.struct`".to_string() }));
    }
    if !follow_links(find_attrs(html, "a", "mod", "href"), LinkKind::Module, &mut queue) {
        proof {
            assert(pages(queue@) =~= module_page_links(html@).0);
        }
        return (queue, Err(ScrapeError::MissingAttribute { attr: "href on `a.mod`".to_string() }));
    }
    if !follow_links(find_attrs(html, "a", "fn", "href"), LinkKind::Fn_, &mut queue) {
        proof {
            assert(pages(queue@) =~= module_page_links(html@).0);
        }
        return (queue, Err(ScrapeError::MissingAttribute { attr: "href on `a.fn`".to_string() }));
    }
    proof {
        assert(pages(queue@) =~= module_page_links(html@).0);
    }
    let text = match find_text_in_in(html, "h1", "fqn", "span", "in-band", "span", "in-band") {
        None => return (queue, Err(ScrapeError::MissingElement { elt: "`h1.fqn`".to_string() })),
        Some(None) => return (queue, Err(ScrapeError::MissingElement { elt: "`h1.fqn > span.in-band`".to_string() })),
        Some(Some(None)) => {
            return (
                queue,
                Err(ScrapeError::MissingElement { elt: "`h1.fqn > span.in-band > a.mod`".to_string() }),
            )
        },
        Some(Some(Some(text))) => text,
    };
    let is_crate = starts_with(text.as_str(), "Crate");
    let name = remove_upto_space(text.as_str());
    match UnresolvedPath::parse(name.as_str()) {
        Some(name) => (queue, Ok(Item::Module(Module { is_crate, name }))),
        None => (queue, Err(ScrapeError::Parse)),
    }
}

/// The path in the title of an item page: the title's text after its last space (the text
/// before it names the kind of item).
pub open spec fn path_of_page(html: Seq<char>) -> Result<UnresolvedPathView, ScrapeErrorView> {
    match soup_text_in(html, "h1"@, "fqn"@, "span"@, "in-band"@) {
        None => Err(ScrapeErrorView::MissingElement("`h1.fqn`"@)),
        Some(None) => Err(ScrapeErrorView::MissingElement("`h1.fqn > span.in-band`"@)),
        Some(Some(text)) => {
            let path = after_last_space(text);
            if syn_path_parse(path) is Some {
                Ok(syn_unresolved(path))
            } else {
                Err(ScrapeErrorView::Parse)
            }
        },
    }
}

/// Look up the path from the title of an item page, which rustdoc writes
/// `<h1 class="fqn"><span class="in-band">Struct <a ..>module</a>::<a ..>Item</a></span>..</h1>`.
pub fn get_path(html: &str) -> (r: Result<UnresolvedPath, ScrapeError>)
    ensures
        path_result_view(r) == path_of_page(html@),
{
    let text = match find_text_in(html, "h1", "fqn", "span", "in-band") {
        None => return Err(ScrapeError::MissingElement { elt: "`h1.fqn`".to_string() }),
        Some(None) => return Err(ScrapeError::MissingElement { elt: "`h1.fqn > span.in-band`".to_string() }),
        Some(Some(text)) => text,
    };
    let path = remove_upto_space(text.as_str());
    match UnresolvedPath::parse(path.as_str()) {
        Some(p) => Ok(p),
        None => Err(ScrapeError::Parse),
    }
}

/// The map made by inserting each pair, in order, the later winning.
pub open spec fn pairs_map(pairs: Seq<(UnresolvedPath, UnresolvedPath)>) -> Map<UnresolvedPathView, UnresolvedPathView>
    decreases pairs.len(),
{
    if pairs.len() == 0 {
        Map::empty()
    } else {
        pairs_map(pairs.drop_last()).insert(pairs.last().0@, pairs.last().1@)
    }
}

/// No two pairs have the same key.
pub open spec fn distinct_keys(pairs: Seq<(UnresolvedPath, UnresolvedPath)>) -> bool {
    forall|i: int, j: int| 0 <= i < j < pairs.len() ==> #[trigger] pairs[i].0@ != #[trigger] pairs[j].0@
}

/// The map of pairs with distinct keys holds each pair.
proof fn lemma_pairs_map_holds(pairs: Seq<(UnresolvedPath, UnresolvedPath)>)
    requires
        distinct_keys(pairs),
    ensures
        forall|i: int| 0 <= i < pairs.len() ==> pairs_map(pairs).contains_key(#[trigger] pairs[i].0@)
            && pairs_map(pairs)[pairs[i].0@] == pairs[i].1@,
        forall|k: UnresolvedPathView| pairs_map(pairs).contains_key(k) ==> exists|i: int|
            0 <= i < pairs.len() && #[trigger] pairs[i].0@ == k,
    decreases pairs.len(),
{
    if pairs.len() > 0 {
        let init = pairs.drop_last();
        assert(distinct_keys(init)) by {
            assert forall|i: int, j: int| 0 <= i < j < init.len() implies #[trigger] init[i].0@ != #[trigger] init[j].0@ by {
                assert(init[i] == pairs[i] && init[j] == pairs[j]);
            }
        }
        lemma_pairs_map_holds(init);
        assert forall|i: int| 0 <= i < pairs.len() implies pairs_map(pairs).contains_key(#[trigger] pairs[i].0@)
            && pairs_map(pairs)[pairs[i].0@] == pairs[i].1@ by {
            if i < pairs.len() - 1 {
                assert(init[i] == pairs[i]);
                assert(pairs[i].0@ != pairs[pairs.len() - 1].0@);
            }
        }
        assert forall|k: UnresolvedPathView| pairs_map(pairs).contains_key(k) implies exists|i: int|
            0 <= i < pairs.len() && #[trigger] pairs[i].0@ == k by {
            if k == pairs.last().0@ {
                assert(pairs[pairs.len() - 1].0@ == k);
            } else {
                assert(pairs_map(init).contains_key(k));
                let i = choose|i: int| 0 <= i < init.len() && #[trigger] init[i].0@ == k;
                assert(pairs[i] == init[i]);
            }
        }
    }
}

/// Replacing the value of a key already in pairs with distinct keys replaces it in their map.
proof fn lemma_pairs_map_update(
    pairs: Seq<(UnresolvedPath, UnresolvedPath)>,
    j: int,
    k: UnresolvedPath,
    v: UnresolvedPath,
)
    requires
        distinct_keys(pairs),
        0 <= j < pairs.len(),
        k@ == pairs[j].0@,
    ensures
        pairs_map(pairs.update(j, (k, v))) == pairs_map(pairs).insert(k@, v@),
        distinct_keys(pairs.update(j, (k, v))),
    decreases pairs.len(),
{
    let upd = pairs.update(j, (k, v));
    assert forall|a: int, b: int| 0 <= a < b < upd.len() implies #[trigger] upd[a].0@ != #[trigger] upd[b].0@ by {
        assert(upd[a].0@ == pairs[a].0@ && upd[b].0@ == pairs[b].0@);
    }
    let init = pairs.drop_last();
    if j == pairs.len() - 1 {
        assert(upd.drop_last() =~= init);
        assert(pairs_map(upd) =~= pairs_map(pairs).insert(pairs[j].0@, v@));
    } else {
        assert(distinct_keys(init)) by {
            assert forall|a: int, b: int| 0 <= a < b < init.len() implies #[trigger] init[a].0@ != #[trigger] init[b].0@ by {
                assert(init[a] == pairs[a] && init[b] == pairs[b]);
            }
        }
        lemma_pairs_map_update(init, j, k, v);
        assert(upd.drop_last() =~= init.update(j, (k, v)));
        assert(pairs[j].0@ != pairs.last().0@);
        assert(pairs_map(upd) =~= pairs_map(pairs).insert(pairs[j].0@, v@));
    }
}

/// Insert `k => v`, replacing the value of an equal key.
fn insert_pair(pairs: &mut Vec<(UnresolvedPath, UnresolvedPath)>, k: UnresolvedPath, v: UnresolvedPath)
    requires
        distinct_keys(old(pairs)@),
    ensures
        distinct_keys(final(pairs)@),
        pairs_map(final(pairs)@) == pairs_map(old(pairs)@).insert(k@, v@),
{
    let mut i: usize = 0;
    while i < pairs.len()
        invariant
            i <= pairs.len(),
            pairs@ == old(pairs)@,
            distinct_keys(pairs@),
            forall|j: int| 0 <= j < i ==> pairs@[j].0@ != k@,
        decreases pairs.len() - i,
    {
        if pairs[i].0.same(&k) {
            let ghost p0 = pairs@;
            let key = pairs[i].0.dup();
            pairs.set(i, (key, v));
            proof {
                lemma_pairs_map_update(p0, i as int, key, v);
            }
            return;
        }
        i = i + 1;
    }
    let ghost p0 = pairs@;
    pairs.push((k, v));
    proof {
        assert(pairs@.drop_last() =~= p0);
        assert forall|a: int, b: int| 0 <= a < b < pairs@.len() implies #[trigger] pairs@[a].0@ != #[trigger] pairs@[b].0@ by {
            if b < p0.len() {
                assert(pairs@[a] == p0[a] && pairs@[b] == p0[b]);
            } else {
                assert(pairs@[a] == p0[a]);
            }
        }
    }
}

/// The links of a declaration, by the path their text names and the path they point to; the
/// first error where one fails.
pub open spec fn links_of_decl(links: Seq<(Seq<char>, Option<Seq<char>>)>) -> Result<
    Map<UnresolvedPathView, UnresolvedPathView>,
    ScrapeErrorView,
>
    decreases links.len(),
{
    if links.len() == 0 {
        Ok(Map::empty())
    } else {
        match links_of_decl(links.drop_last()) {
            Err(e) => Err(e),
            Ok(m) => {
                let (text, href) = links.last();
                if syn_path_parse(text) is None {
                    Err(ScrapeErrorView::Parse)
                } else {
                    match href {
                        None => Err(ScrapeErrorView::MissingAttribute("href on `div.type-decl > pre > a`"@)),
                        Some(h) => match url_path_result(h) {
                            Err(e) => Err(e),
                            Ok(p) => Ok(m.insert(syn_unresolved(text), p)),
                        },
                    }
                }
            },
        }
    }
}

/// The source of an item page's declaration, and the map of its links.
pub open spec fn source_of_page(html: Seq<char>) -> Result<
    (Seq<char>, Map<UnresolvedPathView, UnresolvedPathView>),
    ScrapeErrorView,
> {
    match soup_linked_text(html, "div"@, "type-decl"@, "pre"@, "a"@, "href"@) {
        None => Err(ScrapeErrorView::MissingElement("`div.type-decl`"@)),
        Some(None) => Err(ScrapeErrorView::MissingElement("`div.type-decl > pre`"@)),
        Some(Some((text, links))) => match links_of_decl(links) {
            Err(e) => Err(e),
            Ok(m) => Ok((text, m)),
        },
    }
}

/// The embedded source of an item's declaration, and rustdoc's links in it: each linked name's
/// path mapped to the path it links to (a later link for the same name wins).
#[verifier::loop_isolation(false)]
pub fn get_source(html: &str) -> (r: Result<(String, Vec<(UnresolvedPath, UnresolvedPath)>), ScrapeError>)
    ensures
        match r {
            Ok((text, pairs)) => distinct_keys(pairs@) && source_of_page(html@) == Ok::<
                (Seq<char>, Map<UnresolvedPathView, UnresolvedPathView>),
                ScrapeErrorView,
            >((text@, pairs_map(pairs@))),
            Err(e) => source_of_page(html@) == Err::<
                (Seq<char>, Map<UnresolvedPathView, UnresolvedPathView>),
                ScrapeErrorView,
            >(e@),
        },
{
    let (text, links) = match find_linked_text(html, "div", "type-decl", "pre", "a", "href") {
        None => return Err(ScrapeError::MissingElement { elt: "`div.type-decl`".to_string() }),
        Some(None) => return Err(ScrapeError::MissingElement { elt: "`div.type-decl > pre`".to_string() }),
        Some(Some(found)) => found,
    };
    let ghost all = links.deep_view();
    let mut pairs: Vec<(UnresolvedPath, UnresolvedPath)> = Vec::new();
    let mut i: usize = 0;
    proof {
        assert(all.take(0) =~= Seq::<(Seq<char>, Option<Seq<char>>)>::empty());
        assert(pairs_map(pairs@) =~= Map::<UnresolvedPathView, UnresolvedPathView>::empty());
    }
    while i < links.len()
        invariant
            all == links.deep_view(),
            i <= links.len(),
            distinct_keys(pairs@),
            links_of_decl(all.take(i as int)) == Ok::<
                Map<UnresolvedPathView, UnresolvedPathView>,
                ScrapeErrorView,
            >(pairs_map(pairs@)),
        decreases links.len() - i,
    {
        proof {
            assert(all.take(i + 1).drop_last() =~= all.take(i as int));
            assert(all.take(i + 1).last() == all[i as int]);
            assert(all[i as int] == (links@[i as int].0@, links@[i as int].1.deep_view()));
        }
        let name = match UnresolvedPath::parse(links[i].0.as_str()) {
            Some(p) => p,
            None => {
                proof {
                    lemma_decl_stops(all, i + 1);
                }
                return Err(ScrapeError::Parse);
            },
        };
        let target = match &links[i].1 {
            None => {
                proof {
                    lemma_decl_stops(all, i + 1);
                }
                return Err(ScrapeError::MissingAttribute { attr: "href on `div.type-decl > pre > a`".to_string() });
            },
            Some(href) => match url_to_rust_path(href.as_str()) {
                Ok(p) => p,
                Err(e) => {
                    proof {
                        lemma_decl_stops(all, i + 1);
                    }
                    return Err(e);
                },
            },
        };
        insert_pair(&mut pairs, name, target);
        i = i + 1;
    }
    proof {
        assert(all.take(links.len() as int) =~= all);
    }
    Ok((text, pairs))
}

/// Once a link fails, what follows changes nothing.
proof fn lemma_decl_stops(links: Seq<(Seq<char>, Option<Seq<char>>)>, k: int)
    requires
        0 <= k <= links.len(),
        links_of_decl(links.take(k)) is Err,
    ensures
        links_of_decl(links) == links_of_decl(links.take(k)),
    decreases links.len() - k,
{
    if k < links.len() {
        assert(links.take(k + 1).drop_last() =~= links.take(k));
        assert(links_of_decl(links.take(k + 1)) == links_of_decl(links.take(k)));
        lemma_decl_stops(links, k + 1);
    } else {
        assert(links.take(k) =~= links);
    }
}

/// The struct that an item page documents.
pub open spec fn struct_of_page(html: Seq<char>) -> Result<ItemView, ScrapeErrorView> {
    match path_of_page(html) {
        Err(e) => Err(e),
        Ok(path) => match source_of_page(html) {
            Err(e) => Err(e),
            Ok((src, _links)) => if !syn_parses_derive_input(src) {
                Err(ScrapeErrorView::Parse)
            } else if path.path.len() == 0 {
                Err(ScrapeErrorView::MalformedRustdoc)
            } else {
                Ok(ItemView::Struct { path, ident: path.path.last() })
            },
        },
    }
}

/// Read a struct's page: its path, from the title, once its declaration has been checked to
/// parse as Rust.
pub fn parse_struct(html: &str) -> (r: Result<Item, ScrapeError>)
    ensures
        item_result_view(r) == struct_of_page(html@),
{
    let path = match get_path(html) {
        Ok(p) => p,
        Err(e) => return Err(e),
    };
    let (src, _resolved) = match get_source(html) {
        Ok(found) => found,
        Err(e) => return Err(e),
    };
    if !parses_as_derive_input(src.as_str()) {
        return Err(ScrapeError::Parse);
    }
    let n = path.path.len();
    if n == 0 {
        return Err(ScrapeError::MalformedRustdoc);
    }
    let ident = path.path[n - 1].clone();
    proof {
        assert(path@.path.last() == ident@);
    }
    Ok(Item::Struct(Struct { path, ident }))
}

/// The index of the first page of `queue` not in `visited`; the queue's length where there is
/// none.
pub open spec fn first_unvisited(queue: Seq<WorkItemView>, visited: Seq<WorkItemView>) -> int
    decreases queue.len(),
{
    if queue.len() == 0 {
        0
    } else if !visited.contains(queue[0]) {
        0
    } else {
        1 + first_unvisited(queue.drop_first(), visited)
    }
}

/// The first unvisited page is one, and every page before it has been visited.
pub proof fn lemma_first_unvisited(queue: Seq<WorkItemView>, visited: Seq<WorkItemView>)
    ensures
        0 <= first_unvisited(queue, visited) <= queue.len(),
        first_unvisited(queue, visited) < queue.len() ==> !visited.contains(
            queue[first_unvisited(queue, visited)],
        ),
        forall|j: int| 0 <= j < first_unvisited(queue, visited) ==> visited.contains(#[trigger] queue[j]),
    decreases queue.len(),
{
    if queue.len() > 0 && visited.contains(queue[0]) {
        lemma_first_unvisited(queue.drop_first(), visited);
        assert forall|j: int| 0 <= j < first_unvisited(queue, visited) implies visited.contains(#[trigger] queue[j]) by {
            if j > 0 {
                assert(queue[j] == queue.drop_first()[j - 1]);
            }
        }
    }
}

/// The state of a scrape of a crate's documentation: the pages still to read, those read, and
/// the items found so far. Reading a page, and the decision of which pages to read, alternate:
/// the caller reads each page that `next_page` names and hands what it found back.
pub struct Scrape {
    queue: Vec<WorkItem>,
    visited: Vec<WorkItem>,
    results: Vec<Item>,
}

/// The pages of a scrape still to read, those read, and the items found.
pub struct ScrapeView {
    pub queue: Seq<WorkItemView>,
    pub visited: Seq<WorkItemView>,
    pub results: Seq<ItemView>,
}

impl View for Scrape {
    type V = ScrapeView;

    closed spec fn view(&self) -> ScrapeView {
        ScrapeView {
            queue: pages(self.queue@),
            visited: pages(self.visited@),
            results: self.results@.map_values(|i: Item| i@),
        }
    }
}

impl Scrape {
    /// A scrape that starts from a crate's root page.
    pub fn new(first: String) -> (r: Scrape)
        ensures
            r@.queue == seq![WorkItemView::Module(first@)],
            r@.visited == Seq::<WorkItemView>::empty(),
            r@.results == Seq::<ItemView>::empty(),
    {
        let mut queue = Vec::new();
        queue.push(WorkItem::Module(first));
        let r = Scrape { queue, visited: Vec::new(), results: Vec::new() };
        proof {
            assert(r@.queue =~= seq![WorkItemView::Module(first@)]);
            assert(r@.visited =~= Seq::<WorkItemView>::empty());
            assert(r@.results =~= Seq::<ItemView>::empty());
        }
        r
    }

    /// The next page to read: the first queued page not read yet, which is taken off the queue
    /// with the read pages before it and counted as read. `None` once no unread page is queued.
    pub fn next_page(&mut self) -> (r: Option<WorkItem>)
        ensures
            ({
                let k = first_unvisited(old(self)@.queue, old(self)@.visited);
                &&& final(self)@.results == old(self)@.results
                &&& k == old(self)@.queue.len() ==> r is None && final(self)@.queue.len() == 0
                    && final(self)@.visited == old(self)@.visited
                &&& k < old(self)@.queue.len() ==> (r matches Some(w) && w@ == old(self)@.queue[k]
                    && final(self)@.queue == old(self)@.queue.skip(k + 1) && final(self)@.visited
                    == old(self)@.visited.push(w@))
            }),
    {
        let ghost q0 = self@.queue;
        let ghost v0 = self@.visited;
        proof {
            lemma_first_unvisited(q0, v0);
        }
        let ghost mut dropped: int = 0;
        while self.queue.len() > 0
            invariant
                0 <= dropped <= first_unvisited(q0, v0),
                0 <= first_unvisited(q0, v0) <= q0.len(),
                first_unvisited(q0, v0) < q0.len() ==> !v0.contains(q0[first_unvisited(q0, v0)]),
                forall|j: int| 0 <= j < first_unvisited(q0, v0) ==> v0.contains(#[trigger] q0[j]),
                self@.queue == q0.skip(dropped),
                self@.visited == v0,
                self@.results == old(self)@.results,
                q0 == old(self)@.queue,
                v0 == old(self)@.visited,
            decreases self.queue.len(),
        {
            let ghost pq = self.queue@;
            let next = self.queue.remove(0);
            proof {
                assert(pages(self.queue@) =~= pages(pq).drop_first());
                assert(q0.skip(dropped).drop_first() =~= q0.skip(dropped + 1));
                assert(pages(pq)[0] == pq[0]@);
                assert(pq[0] == next);
                assert(q0.skip(dropped)[0] == q0[dropped]);
                assert(next@ == q0[dropped]);
            }
            let mut seen = false;
            let mut i: usize = 0;
            while i < self.visited.len()
                invariant
                    i <= self.visited.len(),
                    pages(self.visited@) == v0,
                    seen == (exists|j: int| 0 <= j < i && v0[j] == next@),
                decreases self.visited.len() - i,
            {
                if self.visited[i].same(&next) {
                    seen = true;
                }
                proof {
                    assert(v0[i as int] == self.visited@[i as int]@);
                    if seen {
                        if !(exists|j: int| 0 <= j < i && v0[j] == next@) {
                            assert(v0[i as int] == next@);
                        }
                    }
                }
                i = i + 1;
            }
            proof {
                if seen {
                    let j = choose|j: int| 0 <= j < i && v0[j] == next@;
                    assert(v0.contains(next@));
                } else {
                    assert(!v0.contains(next@));
                }
            }
            if !seen {
                proof {
                    if dropped < first_unvisited(q0, v0) {
                        assert(v0.contains(q0[dropped]));
                    }
                    assert(dropped == first_unvisited(q0, v0));
                }
                let ghost pv = self.visited@;
                self.visited.push(next.dup());
                proof {
                    assert(pages(self.visited@) =~= pages(pv).push(next@));
                }
                return Some(next);
            }
            proof {
                if dropped == first_unvisited(q0, v0) {
                    assert(!v0.contains(q0[dropped]));
                }
                dropped = dropped + 1;
            }
        }
        proof {
            assert(q0.skip(dropped).len() == 0);
            assert(dropped == q0.len());
        }
        None
    }

    /// Queue pages to read, after those already queued.
    pub fn queue_pages(&mut self, items: Vec<WorkItem>)
        ensures
            final(self)@.queue == old(self)@.queue + pages(items@),
            final(self)@.visited == old(self)@.visited,
            final(self)@.results == old(self)@.results,
    {
        let mut items = items;
        let ghost q0 = self.queue@;
        let ghost i0 = items@;
        self.queue.append(&mut items);
        proof {
            assert(pages(self.queue@) =~= pages(q0) + pages(i0));
        }
    }

    /// Record an item found on a page.
    pub fn record(&mut self, item: Item)
        ensures
            final(self)@.queue == old(self)@.queue,
            final(self)@.visited == old(self)@.visited,
            final(self)@.results == old(self)@.results.push(item@),
    {
        let ghost r0 = self.results@;
        self.results.push(item);
        proof {
            assert(self.results@.map_values(|i: Item| i@) =~= r0.map_values(|i: Item| i@).push(item@));
        }
    }

    /// The API found: the items, in the order they were recorded.
    pub fn finish(self) -> (r: Api)
        ensures
            r.items@.map_values(|i: Item| i@) == self@.results,
    {
        Api { items: self.results }
    }
}

} // verus!
