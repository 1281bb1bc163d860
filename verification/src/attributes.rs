//! Extra data held in many different items: metadata, spans, attributes, visibility.

use crate::identities::{Ident, Identity, IdentityView};
use crate::paths::{unresolved_debug, UnresolvedPath, UnresolvedPathView};
use crate::text::{decimal, push_decimal};
use vstd::prelude::*;
use vstd::string::*;

verus! {

/// What `syn` parses `s` to as a string literal (`syn::LitStr`): its value, with escapes
/// processed; `None` where `s` is not a string literal.
pub uninterp spec fn syn_lit_str_value(s: Seq<char>) -> Option<Seq<char>>;

/// `syn::parse_str::<syn::LitStr>` followed by `LitStr::value`: the value of the string literal
/// written in `s`, as `syn`'s literal grammar and unescaping give it.
#[verifier::external_body]
pub(crate) fn parse_lit_str(s: &str) -> (r: Option<String>)
    ensures
        r.deep_view() == syn_lit_str_value(s@),
{
    match syn::parse_str::<syn::LitStr>(s) {
        Ok(lit) => Some(lit.value()),
        Err(_) => None,
    }
}

/// Uninterpreted tokens, held as their source text.
#[derive(Debug, Clone, PartialEq, Eq, Hash)]
pub struct Tokens {
    /// The text of the tokens.
    pub text: String,
}

impl Tokens {
    /// Tokens with the given source text.
    pub fn from_text(text: &str) -> (r: Tokens)
        ensures
            r.text@ == text@,
    {
        Tokens { text: text.to_string() }
    }
}

/// A span in a source file.
#[derive(Debug)]
pub struct Span {
    /// The source file, a path in the local filesystem.
    pub source_file: String,
    /// If we are expanding from a macro invocation, the invocation.
    /// If there are multiple levels, we keep only the top one.
    pub macro_invocation: Option<Box<Span>>,
    /// The starting line.
    pub start_line: u32,
    /// The starting column.
    pub start_column: u32,
    /// The ending line.
    pub end_line: u32,
    /// The ending column.
    pub end_column: u32,
}

/// `file[start_line:start_column-end_line:end_column]`.
pub open spec fn span_position(s: Span) -> Seq<char> {
    s.source_file@ + "["@ + decimal(s.start_line as nat) + ":"@ + decimal(s.start_column as nat)
        + "-"@ + decimal(s.end_line as nat) + ":"@ + decimal(s.end_column as nat) + "]"@
}

/// The display form of a span: its own position, or that of the macro invocation it came from.
pub open spec fn span_display(s: Span) -> Seq<char> {
    match s.macro_invocation {
        Some(inv) => "macro invocation at "@ + span_position(*inv),
        None => span_position(s),
    }
}

/// The invocation a new span records, given the invocation it was expanded from: one level of
/// nesting is collapsed, so a span never records more than one level.
pub open spec fn collapsed_invocation(inv: Option<Box<Span>>) -> Option<Box<Span>> {
    match inv {
        Some(inv) => match inv.macro_invocation {
            Some(inner) => Some(inner),
            None => Some(inv),
        },
        None => None,
    }
}

impl Span {
    /// A span at the given position, expanded from `macro_invocation` if any.
    /// Nested invocations are collapsed to the outermost one.
    pub fn new(
        macro_invocation: Option<Box<Span>>,
        source_file: String,
        start_line: u32,
        start_column: u32,
        end_line: u32,
        end_column: u32,
    ) -> (r: Span)
        requires
            macro_invocation matches Some(inv) ==> (inv.macro_invocation matches Some(inner)
                ==> inner.macro_invocation is None),
        ensures
            r.source_file == source_file,
            r.start_line == start_line,
            r.start_column == start_column,
            r.end_line == end_line,
            r.end_column == end_column,
            r.macro_invocation == collapsed_invocation(macro_invocation),
    {
        let macro_invocation = match macro_invocation {
            Some(inv) => {
                let Span { macro_invocation: inner, source_file: f, start_line: a, start_column: b, end_line: c, end_column: d } = *inv;
                match inner {
                    Some(inner) => Some(inner),
                    None => Some(Box::new(Span { macro_invocation: None, source_file: f, start_line: a, start_column: b, end_line: c, end_column: d })),
                }
            },
            None => None,
        };
        Span { source_file, macro_invocation, start_line, start_column, end_line, end_column }
    }

    /// A span in a fake file, for testing.
    pub fn fake() -> (r: Span)
        ensures
            r.source_file@ == "fake_file.rs"@,
            r.macro_invocation is None,
            r.start_line == 0 && r.start_column == 0 && r.end_line == 0 && r.end_column == 0,
    {
        Span {
            source_file: "fake_file.rs".to_string(),
            macro_invocation: None,
            start_line: 0,
            start_column: 0,
            end_line: 0,
            end_column: 0,
        }
    }

    fn push_position(&self, out: &mut String)
        ensures
            final(out)@ == old(out)@ + span_position(*self),
    {
        proof {
            reveal_strlit("[");
            reveal_strlit(":");
            reveal_strlit("-");
            reveal_strlit("]");
        }
        out.append(self.source_file.as_str());
        out.append("[");
        push_decimal(out, self.start_line);
        out.append(":");
        push_decimal(out, self.start_column);
        out.append("-");
        push_decimal(out, self.end_line);
        out.append(":");
        push_decimal(out, self.end_column);
        out.append("]");
        proof {
            assert(out@ =~= old(out)@ + span_position(*self));
        }
    }

    /// The display form: `file[start_line:start_column-end_line:end_column]`, or, for a span from
    /// a macro expansion, `macro invocation at ` and the invocation's position.
    pub fn to_string(&self) -> (r: String)
        ensures
            r@ == span_display(*self),
    {
        let mut s = String::new();
        match &self.macro_invocation {
            Some(inv) => {
                proof {
                    reveal_strlit("macro invocation at ");
                }
                s.append("macro invocation at ");
                inv.push_position(&mut s);
                proof {
                    assert(s@ =~= span_display(*self));
                }
            },
            None => {
                self.push_position(&mut s);
                proof {
                    assert(s@ =~= span_display(*self));
                }
            },
        }
        s
    }
}

/// The syntax used by most, but not all, attributes, and the `meta` fragment specifier.
#[derive(Debug, PartialEq, Eq)]
pub enum Meta {
    /// A path attribute, e.g. `#[thing]`.
    Path(UnresolvedPath),
    /// An assignment attribute, e.g. `#[thing = "bananas"]`.
    Assign { path: UnresolvedPath, literal: Tokens },
    /// A call attribute, e.g. `#[thing(thinga, "bees", thingb = 3, thing4(2))]`.
    Call { path: UnresolvedPath, args: Vec<MetaInner> },
}

/// An argument in a meta list.
#[derive(Debug, PartialEq, Eq)]
pub enum MetaInner {
    Meta(Meta),
    Literal(Tokens),
}

/// An attribute on an item.
///
/// Most built-in attributes are already handled; this is for the ones tendon doesn't know about.
#[derive(Debug, PartialEq, Eq)]
pub enum Attribute {
    /// An attribute in the format of the `meta` fragment specifier.
    Meta(Meta),
    /// An attribute not in the `meta` format.
    Other { path: UnresolvedPath, input: Tokens },
}

/// The root path of a meta item.
pub open spec fn meta_path(m: Meta) -> UnresolvedPath {
    match m {
        Meta::Path(path) => path,
        Meta::Assign { path, .. } => path,
        Meta::Call { path, .. } => path,
    }
}

/// The root path of an attribute, whatever its form.
pub open spec fn attr_path(a: Attribute) -> UnresolvedPath {
    match a {
        Attribute::Meta(m) => meta_path(m),
        Attribute::Other { path, .. } => path,
    }
}

/// The string assigned by an attribute `#[path = "string"]`, if it has that form.
pub open spec fn assigned_string(a: Attribute) -> Option<Seq<char>> {
    match a {
        Attribute::Meta(Meta::Assign { literal, .. }) => syn_lit_str_value(literal.text@),
        _ => None,
    }
}

impl Attribute {
    /// The root path of this attribute, whatever its form.
    pub fn path(&self) -> (r: &UnresolvedPath)
        ensures
            *r == attr_path(*self),
    {
        match self {
            Attribute::Meta(Meta::Path(path)) => path,
            Attribute::Meta(Meta::Assign { path, .. }) => path,
            Attribute::Meta(Meta::Call { path, .. }) => path,
            Attribute::Other { path, .. } => path,
        }
    }

    /// The assigned string, if this is an assignment of a string literal.
    pub fn get_assigned_string(&self) -> (r: Option<String>)
        ensures
            r.deep_view() == assigned_string(*self),
    {
        if let Attribute::Meta(Meta::Assign { literal, .. }) = self {
            parse_lit_str(literal.text.as_str())
        } else {
            None
        }
    }
}

/// The debug form of a meta item: its path, then ` = ` and the literal, or its arguments
/// between parentheses.
pub open spec fn meta_debug(m: Meta) -> Seq<char>
    decreases m,
{
    match m {
        Meta::Path(path) => unresolved_debug(path@),
        Meta::Assign { path, literal } => unresolved_debug(path@) + " = "@ + literal.text@,
        Meta::Call { path, args } => unresolved_debug(path@) + "("@ + args_debug(args@) + ")"@,
    }
}

/// The debug forms of the arguments of a meta list, separated by `, `.
pub open spec fn args_debug(args: Seq<MetaInner>) -> Seq<char>
    decreases args,
{
    if args.len() == 0 {
        Seq::empty()
    } else if args.len() == 1 {
        arg_debug(args[0])
    } else {
        args_debug(args.drop_last()) + ", "@ + arg_debug(args.last())
    }
}

/// The debug form of an argument of a meta list.
pub open spec fn arg_debug(a: MetaInner) -> Seq<char>
    decreases a,
{
    match a {
        MetaInner::Meta(m) => meta_debug(m),
        MetaInner::Literal(t) => t.text@,
    }
}

/// The debug form of an attribute, as written: `#[..]`.
pub open spec fn attribute_debug(a: Attribute) -> Seq<char> {
    match a {
        Attribute::Meta(m) => "#["@ + meta_debug(m) + "]"@,
        Attribute::Other { path, input } => "#["@ + unresolved_debug(path@) + " "@ + input.text@ + "]"@,
    }
}

/// Appends the debug form of a meta item.
fn push_meta_debug(out: &mut String, m: &Meta)
    ensures
        final(out)@ == old(out)@ + meta_debug(*m),
    decreases m,
{
    match m {
        Meta::Path(path) => {
            out.append(path.debug_string().as_str());
        },
        Meta::Assign { path, literal } => {
            out.append(path.debug_string().as_str());
            out.append(" = ");
            out.append(literal.text.as_str());
        },
        Meta::Call { path, args } => {
            out.append(path.debug_string().as_str());
            out.append("(");
            push_args_debug(out, args);
            out.append(")");
        },
    }
}

/// Appends the debug forms of the arguments of a meta list.
fn push_args_debug(out: &mut String, args: &Vec<MetaInner>)
    ensures
        final(out)@ == old(out)@ + args_debug(args@),
    decreases args,
{
    let ghost mid = out@;
    let mut i: usize = 0;
    proof {
        assert(args@.take(0) =~= Seq::<MetaInner>::empty());
    }
    while i < args.len()
        invariant
            i <= args.len(),
            out@ == mid + args_debug(args@.take(i as int)),
        decreases args.len() - i,
    {
        if i > 0 {
            out.append(", ");
        }
        let ghost before = out@;
        match &args[i] {
            MetaInner::Meta(m) => {
                proof {
                    assert(decreases_to!(args => args@[i as int]));
                }
                push_meta_debug(out, m);
                proof {
                    assert(arg_debug(args@[i as int]) == meta_debug(*m));
                }
            },
            MetaInner::Literal(t) => {
                out.append(t.text.as_str());
                proof {
                    assert(arg_debug(args@[i as int]) == t.text@);
                }
            },
        }
        proof {
            assert(out@ == before + arg_debug(args@[i as int]));
        }
        proof {
            let tk = args@.take(i + 1);
            assert(tk.drop_last() =~= args@.take(i as int));
            assert(tk.last() == args@[i as int]);
            if i == 0 {
                assert(tk[0] == args@[0]);
            }
        }
        i = i + 1;
    }
    proof {
        assert(args@.take(args@.len() as int) =~= args@);
    }
}

impl Meta {
    /// The debug form of the meta item.
    pub fn debug_string(&self) -> (r: String)
        ensures
            r@ == meta_debug(*self),
    {
        let mut out = String::new();
        push_meta_debug(&mut out, self);
        proof {
            assert(out@ =~= meta_debug(*self));
        }
        out
    }
}

impl Attribute {
    /// The debug form of the attribute, as written: `#[..]`.
    pub fn debug_string(&self) -> (r: String)
        ensures
            r@ == attribute_debug(*self),
    {
        let mut out = String::new();
        out.append("#[");
        match self {
            Attribute::Meta(m) => {
                push_meta_debug(&mut out, m);
            },
            Attribute::Other { path, input } => {
                out.append(path.debug_string().as_str());
                out.append(" ");
                out.append(input.text.as_str());
            },
        }
        out.append("]");
        proof {
            assert(out@ =~= attribute_debug(*self));
        }
        out
    }
}

/// The visibility of an item.
#[derive(Debug, Clone, PartialEq, Eq)]
pub enum Visibility {
    /// `pub`
    Pub,
    /// `pub(crate)`, `pub(super)`, `pub(self)`, `pub(in ::path)`, and no annotation all map to this.
    InScope(Identity),
}

/// The characters of a visibility.
pub enum VisibilityView {
    Pub,
    InScope(IdentityView),
}

impl View for Visibility {
    type V = VisibilityView;

    open spec fn view(&self) -> VisibilityView {
        match self {
            Visibility::Pub => VisibilityView::Pub,
            Visibility::InScope(id) => VisibilityView::InScope(id@),
        }
    }
}

/// Whether an item with visibility `v` may be named from `scope`: it is `pub`, or `scope` lies
/// within (or is) the scope it is visible in.
pub open spec fn visible_in(v: VisibilityView, scope: IdentityView) -> bool {
    match v {
        VisibilityView::Pub => true,
        VisibilityView::InScope(mine) => mine.crate_ == scope.crate_ && mine.path.len()
            <= scope.path.len() && scope.path.take(mine.path.len() as int) == mine.path,
    }
}

impl Visibility {
    /// Whether this visibility is visible in the target scope.
    /// Does *not* check whether a binding actually exists; only asks, if one did, would it be
    /// legal?
    pub fn is_visible_in(&self, in_scope: &Identity) -> (r: bool)
        ensures
            r == visible_in(self@, in_scope@),
    {
        let my_scope = match self {
            Visibility::Pub => return true,
            Visibility::InScope(my_scope) => my_scope,
        };
        if !my_scope.crate_.same(&in_scope.crate_) {
            return false;
        }
        if my_scope.path.len() > in_scope.path.len() {
            proof {
                assert(my_scope@.path.len() > in_scope@.path.len());
            }
            return false;
        }
        let l = my_scope.path.len();
        let mut i: usize = 0;
        while i < l
            invariant
                l == my_scope.path.len(),
                l <= in_scope.path.len(),
                self@ == VisibilityView::InScope(my_scope@),
                my_scope@.crate_ == in_scope@.crate_,
                i <= l,
                forall|j: int| 0 <= j < i ==> my_scope.path[j]@ == in_scope.path[j]@,
            decreases l - i,
        {
            if my_scope.path[i] != in_scope.path[i] {
                proof {
                    assert(in_scope@.path.take(l as int)[i as int] == in_scope.path[i as int]@);
                    assert(my_scope@.path[i as int] == my_scope.path[i as int]@);
                    assert(in_scope@.path.take(l as int) != my_scope@.path);
                }
                return false;
            }
            i = i + 1;
        }
        proof {
            assert(in_scope@.path.take(l as int) =~= my_scope@.path);
        }
        true
    }

    /// A copy of this visibility.
    pub fn dup(&self) -> (r: Visibility)
        ensures
            r@ == self@,
    {
        match self {
            Visibility::Pub => Visibility::Pub,
            Visibility::InScope(id) => Visibility::InScope(id.dup()),
        }
    }
}

/// Deprecation metadata.
#[derive(Debug, Clone, PartialEq, Eq, Default)]
pub struct Deprecation {
    /// Version deprecated since, if present.
    pub since: Option<String>,
    /// Deprecation note, if present.
    pub note: Option<String>,
}

/// Metadata available for all items, struct fields, etc.
#[derive(Debug)]
pub struct Metadata {
    /// The identifier of this item.
    pub name: Ident,
    /// The visibility of this item.
    pub visibility: Visibility,
    /// Docs for this item.
    pub docs: Option<String>,
    /// If this item is must_use, the must_use reason.
    pub must_use: Option<String>,
    /// If this item is deprecated, the deprecation reason.
    pub deprecated: Option<Deprecation>,
    /// Other attributes on the item, unhandled by tendon.
    /// This does *not* include cfg items; those are handled during lowering.
    pub extra_attributes: Vec<Attribute>,
    /// The span of this declaration.
    pub span: Span,
}

/// The position of the first attribute in `attrs` whose path is `path`, or `attrs.len()`.
pub open spec fn first_attr_with_path(attrs: Seq<Attribute>, path: UnresolvedPathView) -> int
    decreases attrs.len(),
{
    if attrs.len() == 0 {
        0
    } else if attr_path(attrs[0])@ == path {
        0
    } else {
        1 + first_attr_with_path(attrs.drop_first(), path)
    }
}

/// `first_attr_with_path` is in range, finds a match, and nothing before it matches.
pub proof fn lemma_first_attr_with_path(attrs: Seq<Attribute>, path: UnresolvedPathView)
    ensures
        0 <= first_attr_with_path(attrs, path) <= attrs.len(),
        first_attr_with_path(attrs, path) < attrs.len() ==> attr_path(
            attrs[first_attr_with_path(attrs, path)],
        )@ == path,
        forall|j: int| 0 <= j < first_attr_with_path(attrs, path) ==> attr_path(#[trigger] attrs[j])@ != path,
    decreases attrs.len(),
{
    if attrs.len() > 0 && attr_path(attrs[0])@ != path {
        lemma_first_attr_with_path(attrs.drop_first(), path);
        assert forall|j: int| 0 <= j < first_attr_with_path(attrs, path) implies attr_path(
            #[trigger] attrs[j],
        )@ != path by {
            if j > 0 {
                assert(attrs[j] == attrs.drop_first()[j - 1]);
            }
        }
    }
}

impl Metadata {
    /// Remove the first attribute with this path, if any.
    pub fn extract_attribute(&mut self, path: &UnresolvedPath) -> (r: Option<Attribute>)
        ensures
            ({
                let i = first_attr_with_path(old(self).extra_attributes@, path@);
                &&& i < old(self).extra_attributes.len() ==> r == Some(old(self).extra_attributes@[i])
                    && final(self).extra_attributes@ == old(self).extra_attributes@.remove(i)
                &&& i >= old(self).extra_attributes.len() ==> r is None
                    && final(self).extra_attributes@ == old(self).extra_attributes@
            }),
            final(self).name == old(self).name,
            final(self).visibility == old(self).visibility,
            final(self).docs == old(self).docs,
            final(self).must_use == old(self).must_use,
            final(self).deprecated == old(self).deprecated,
            final(self).span == old(self).span,
    {
        proof {
            lemma_first_attr_with_path(self.extra_attributes@, path@);
        }
        let n = self.extra_attributes.len();
        let mut i: usize = 0;
        while i < n
            invariant
                n == self.extra_attributes.len(),
                *self == *old(self),
                i <= n,
                forall|j: int| 0 <= j < i ==> attr_path(#[trigger] self.extra_attributes@[j])@ != path@,
                first_attr_with_path(self.extra_attributes@, path@) >= i,
            decreases n - i,
        {
            proof {
                lemma_first_attr_with_path(self.extra_attributes@, path@);
            }
            if self.extra_attributes[i].path().same(path) {
                proof {
                    lemma_first_attr_with_path(self.extra_attributes@, path@);
                    if first_attr_with_path(self.extra_attributes@, path@) > i {
                        assert(attr_path(self.extra_attributes@[i as int])@ != path@);
                    }
                }
                return Some(self.extra_attributes.remove(i));
            }
            i = i + 1;
        }
        None
    }

    /// A metadata with the given name and nothing else, for testing.
    pub fn fake(name: &str) -> (r: Metadata)
        ensures
            r.name@ == name@,
            r.visibility == Visibility::Pub,
            r.docs is None,
            r.must_use is None,
            r.deprecated is None,
            r.extra_attributes@ == Seq::<Attribute>::empty(),
            r.span.source_file@ == "fake_file.rs"@,
    {
        Metadata {
            name: name.to_string(),
            visibility: Visibility::Pub,
            docs: None,
            must_use: None,
            deprecated: None,
            extra_attributes: Vec::new(),
            span: Span::fake(),
        }
    }
}

/// Metadata for exported symbols (functions, statics).
#[derive(Debug, Clone, PartialEq, Eq, Default)]
pub struct SymbolMetadata {
    /// If this symbol has the `#[no_mangle]` attribute.
    pub no_mangle: bool,
    /// The `#[export_name]` of this symbol, if present.
    pub export_name: Option<String>,
    /// The `#[link_section]` of this symbol, if present.
    pub link_section: Option<String>,
}

/// A data layout representation.
#[derive(Debug, Clone, PartialEq, Eq)]
pub enum Repr {
    /// `#[repr(Rust)]`
    Rust,
    /// `#[repr(C)]`
    C,
    /// `#[repr(transparent)]`
    Transparent,
    /// `#[repr(packed)]`
    Packed,
    /// `#[repr(C, i8)]`, etc.
    IntOuterTag(Ident),
    /// `#[repr(i8)]` or other reprs.
    Other(Ident),
}

impl Default for Repr {
    fn default() -> (r: Repr)
        ensures
            r == Repr::Rust,
    {
        Repr::Rust
    }
}

/// A trait named (not yet resolved) in a bound or a derive.
#[derive(Debug, Clone, PartialEq, Eq)]
pub struct Trait {
    /// The path naming the trait.
    pub path: UnresolvedPath,
    /// If the trait is prefixed with `?`.
    pub is_maybe: bool,
}

/// Metadata for exported types (structs, enums, unions, ...).
#[derive(Debug, Clone, PartialEq, Eq)]
pub struct TypeMetadata {
    /// All `#[derive]`s present on this type.
    pub derives: Vec<Trait>,
    /// The `#[repr]` of this type; `Rust` if no attribute is present.
    pub repr: Repr,
}

impl TypeMetadata {
    /// No derives and the default representation.
    pub fn empty() -> (r: TypeMetadata)
        ensures
            r.derives@ == Seq::<Trait>::empty(),
            r.repr == Repr::Rust,
    {
        TypeMetadata { derives: Vec::new(), repr: Repr::Rust }
    }
}

} // verus!
