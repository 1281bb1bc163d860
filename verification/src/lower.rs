//! Lowering: from the syntax of attributes, visibilities and `use` trees to tendon's items and
//! their components.

use crate::attributes::{
    assigned_string, attr_path, first_attr_with_path, lemma_first_attr_with_path, parse_lit_str, syn_lit_str_value,
    Attribute, Deprecation, Meta, MetaInner, Metadata, Repr, Span, SymbolMetadata, Tokens, Trait,
    TypeMetadata, Visibility,
};
use crate::identities::{Ident, Identity};
use crate::items::DeclarativeMacroItem;
use crate::tokens::TokenTree;
use crate::maps::NameTable;
use crate::paths::{Path, PathView, UnresolvedPath, UnresolvedPathView};
use crate::text::str_eq;
use vstd::prelude::*;

verus! {

/// Errors while lowering.
#[derive(Debug, PartialEq, Eq)]
pub enum LowerError {
    /// Higher-ranked trait bounds are not handled.
    NoHRTBsYet(Tokens),
    /// A type that cannot be lowered.
    UnhandledType(Tokens),
    /// A path with an unexpected generic argument.
    UnexpectedGenericInPath(Tokens),
    /// A malformed type, and what is wrong with it.
    MalformedType(Tokens, String),
    /// A malformed `where` predicate.
    MalformedPredicate(Tokens),
    /// A malformed function argument.
    MalformedFunctionArg(Tokens),
    /// Not a macro declaration.
    NotAMacroDeclaration,
    /// A macro in type position.
    TypePositionMacro,
    /// The item is `#[cfg]`'d out.
    CfgdOut,
}

/// The path made of the single identifier `name`.
pub open spec fn simple_path(name: Seq<char>) -> UnresolvedPathView {
    UnresolvedPathView { path: seq![name], rooted: false }
}

/// Whether `p` is the path made of the single identifier `name`.
fn is_path(p: &UnresolvedPath, name: &str) -> (r: bool)
    ensures
        r == (p@ == simple_path(name@)),
{
    if p.rooted || p.path.len() != 1 {
        proof {
            assert(p@.path.len() == p.path.len());
        }
        return false;
    }
    let r = str_eq(p.path[0].as_str(), name);
    proof {
        assert(p@.path[0] == p.path[0]@);
        if r {
            assert(p@.path =~= seq![name@]);
        }
    }
    r
}

/// Whether `features` holds `s`.
fn contains_str(features: &Vec<String>, s: &str) -> (r: bool)
    ensures
        r == features.deep_view().contains(s@),
{
    let mut i: usize = 0;
    while i < features.len()
        invariant
            i <= features.len(),
            forall|j: int| 0 <= j < i ==> features[j]@ != s@,
        decreases features.len() - i,
    {
        if str_eq(features[i].as_str(), s) {
            proof {
                assert(features.deep_view()[i as int] == s@);
            }
            return true;
        }
        i = i + 1;
    }
    proof {
        if features.deep_view().contains(s@) {
            let j = choose|j: int| 0 <= j < features.deep_view().len() && features.deep_view()[j] == s@;
            assert(features[j]@ == s@);
        }
    }
    false
}

/// The single identifier of a path, if it is one.
pub open spec fn path_ident(p: UnresolvedPathView) -> Option<Seq<char>> {
    if p.path.len() == 1 && !p.rooted {
        Some(p.path[0])
    } else {
        None
    }
}

/// Whether an argument of a meta list is a literal rather than a meta item.
pub open spec fn is_literal(m: MetaInner) -> bool {
    m is Literal
}

/// Whether the `cfg` predicate `m` holds for a crate with the given activated features.
///
/// `feature = "x"` holds where `x` is activated; `not`, `all` and `any` combine predicates as
/// usual. Anything else, and anything malformed, does not hold.
pub open spec fn cfg_holds(features: Seq<Seq<char>>, m: Meta) -> bool
    decreases m,
{
    match m {
        Meta::Path(_) => false,
        Meta::Assign { path, literal } => match (path_ident(path@), syn_lit_str_value(literal.text@)) {
            (Some(ident), Some(value)) => ident == "feature"@ && features.contains(value),
            _ => false,
        },
        Meta::Call { path, args } => match path_ident(path@) {
            None => false,
            Some(ident) => {
                if has_literal(args@) {
                    false
                } else if ident == "not"@ {
                    args@.len() > 0 && match args@[0] {
                        MetaInner::Meta(m) => !cfg_holds(features, m),
                        MetaInner::Literal(_) => false,
                    }
                } else if ident == "all"@ {
                    all_cfg_hold(features, args@)
                } else if ident == "any"@ {
                    any_cfg_holds(features, args@)
                } else {
                    false
                }
            },
        },
    }
}

/// Whether some argument of a meta list is a literal.
pub open spec fn has_literal(args: Seq<MetaInner>) -> bool {
    exists|i: int| 0 <= i < args.len() && is_literal(#[trigger] args[i])
}

/// Whether every predicate in `args` holds.
pub open spec fn all_cfg_hold(features: Seq<Seq<char>>, args: Seq<MetaInner>) -> bool
    decreases args,
{
    if args.len() == 0 {
        true
    } else {
        let first = match args[0] {
            MetaInner::Meta(m) => cfg_holds(features, m),
            MetaInner::Literal(_) => false,
        };
        first && all_cfg_hold(features, args.drop_first())
    }
}

/// Whether some predicate in `args` holds.
pub open spec fn any_cfg_holds(features: Seq<Seq<char>>, args: Seq<MetaInner>) -> bool
    decreases args,
{
    if args.len() == 0 {
        false
    } else {
        let first = match args[0] {
            MetaInner::Meta(m) => cfg_holds(features, m),
            MetaInner::Literal(_) => false,
        };
        first || any_cfg_holds(features, args.drop_first())
    }
}

/// Whether an argument of a meta list is a predicate that holds.
pub open spec fn arg_holds(features: Seq<Seq<char>>, a: MetaInner) -> bool {
    match a {
        MetaInner::Meta(m) => cfg_holds(features, m),
        MetaInner::Literal(_) => false,
    }
}

/// `all_cfg_hold` and `any_cfg_holds` quantify over the arguments.
pub proof fn lemma_cfg_folds(features: Seq<Seq<char>>, args: Seq<MetaInner>)
    ensures
        all_cfg_hold(features, args) == (forall|i: int|
            0 <= i < args.len() ==> #[trigger] arg_holds(features, args[i])),
        any_cfg_holds(features, args) == (exists|i: int|
            0 <= i < args.len() && #[trigger] arg_holds(features, args[i])),
    decreases args.len(),
{
    if args.len() > 0 {
        let rest = args.drop_first();
        lemma_cfg_folds(features, rest);
        assert forall|i: int| 0 < i < args.len() implies args[i] == rest[i - 1] by {}
        if exists|i: int| 0 <= i < args.len() && #[trigger] arg_holds(features, args[i]) {
            let i = choose|i: int| 0 <= i < args.len() && #[trigger] arg_holds(features, args[i]);
            if i > 0 {
                assert(arg_holds(features, rest[i - 1]));
            }
        }
        if forall|i: int| 0 <= i < rest.len() ==> #[trigger] arg_holds(features, rest[i]) {
            if arg_holds(features, args[0]) {
                assert forall|i: int| 0 <= i < args.len() implies #[trigger] arg_holds(features, args[i]) by {
                    if i > 0 {
                        assert(arg_holds(features, rest[i - 1]));
                    }
                }
            }
        }
        if all_cfg_hold(features, args) {
            assert forall|i: int| 0 <= i < args.len() implies #[trigger] arg_holds(features, args[i]) by {
                if i > 0 {
                    assert(arg_holds(features, rest[i - 1]));
                }
            }
        }
        if any_cfg_holds(features, rest) {
            let j = choose|j: int| 0 <= j < rest.len() && #[trigger] arg_holds(features, rest[j]);
            assert(arg_holds(features, args[j + 1]));
        }
        if !arg_holds(features, args[0]) && !any_cfg_holds(features, rest) {
            assert forall|i: int| !(0 <= i < args.len() && #[trigger] arg_holds(features, args[i])) by {
                if 0 < i < args.len() {
                    assert(!arg_holds(features, rest[i - 1]));
                }
            }
        }
    }
}

/// `Ok` where `b` holds; the item is `#[cfg]`'d out otherwise.
fn bool_err(b: bool) -> (r: Result<(), LowerError>)
    ensures
        b ==> r is Ok,
        !b ==> r == Err::<(), LowerError>(LowerError::CfgdOut),
{
    if b {
        Ok(())
    } else {
        Err(LowerError::CfgdOut)
    }
}

/// Evaluate the input of a `cfg` attribute: `Ok` where it is enabled for a crate with the given
/// activated features, `Err(CfgdOut)` otherwise.
#[verifier::loop_isolation(false)]
pub fn interp_cfg(features: &Vec<String>, meta: &Meta) -> (r: Result<(), LowerError>)
    ensures
        cfg_holds(features.deep_view(), *meta) ==> r is Ok,
        !cfg_holds(features.deep_view(), *meta) ==> r == Err::<(), LowerError>(LowerError::CfgdOut),
    decreases meta,
{
    match meta {
        Meta::Path(_) => bool_err(false),
        Meta::Assign { path, literal } => {
            let ident = match path.get_ident() {
                Some(ident) => ident,
                None => return Err(LowerError::CfgdOut),
            };
            let target = match parse_lit_str(literal.text.as_str()) {
                Some(t) => t,
                None => return Err(LowerError::CfgdOut),
            };
            proof {
                assert(path_ident(path@) == Some(ident@));
                assert(syn_lit_str_value(literal.text@) == Some(target@));
            }
            if str_eq(ident.as_str(), "feature") {
                let found = contains_str(features, target.as_str());
                proof {
                    assert(cfg_holds(features.deep_view(), *meta) == found);
                }
                return bool_err(found);
            }
            proof {
                assert(!cfg_holds(features.deep_view(), *meta));
            }
            bool_err(false)
        },
        Meta::Call { path, args } => {
            let ident = match path.get_ident() {
                Some(ident) => ident,
                None => return Err(LowerError::CfgdOut),
            };
            let mut i: usize = 0;
            while i < args.len()
                invariant
                    i <= args.len(),
                    forall|j: int| 0 <= j < i ==> !is_literal(#[trigger] args@[j]),
                decreases args.len() - i,
            {
                if let MetaInner::Literal(_) = &args[i] {
                    proof {
                        assert(is_literal(args@[i as int]));
                    }
                    return bool_err(false);
                }
                i = i + 1;
            }
            proof {
                assert(!exists|j: int| 0 <= j < args@.len() && is_literal(#[trigger] args@[j]));
                assert(path_ident(path@) == Some(ident@));
            }
            if str_eq(ident.as_str(), "not") {
                if args.len() == 0 {
                    return Err(LowerError::CfgdOut);
                }
                match &args[0] {
                    MetaInner::Meta(m) => {
                        proof {
                            assert(args@[0]->Meta_0 == *m);
                        }
                        let inner = interp_cfg(features, m).is_ok();
                        proof {
                            assert(cfg_holds(features.deep_view(), *meta) == !inner);
                        }
                        bool_err(!inner)
                    },
                    MetaInner::Literal(_) => bool_err(false),
                }
            } else if str_eq(ident.as_str(), "all") || str_eq(ident.as_str(), "any") {
                let is_all = str_eq(ident.as_str(), "all");
                let mut current = is_all;
                let mut k: usize = 0;
                while k < args.len()
                    invariant
                        k <= args.len(),
                        forall|j: int| 0 <= j < args@.len() ==> !is_literal(#[trigger] args@[j]),
                        is_all ==> (current <==> forall|j: int|
                            0 <= j < k ==> #[trigger] arg_holds(features.deep_view(), args@[j])),
                        !is_all ==> (current <==> exists|j: int|
                            0 <= j < k && #[trigger] arg_holds(features.deep_view(), args@[j])),
                    decreases args.len() - k,
                {
                    let ok = match &args[k] {
                        MetaInner::Meta(m) => {
                            proof {
                                assert(args@[k as int]->Meta_0 == *m);
                                assert(decreases_to!(*meta => args@[k as int]->Meta_0));
                            }
                            interp_cfg(features, m).is_ok()
                        },
                        MetaInner::Literal(_) => {
                            proof {
                                assert(is_literal(args@[k as int]));
                            }
                            false
                        },
                    };
                    proof {
                        assert(ok == arg_holds(features.deep_view(), args@[k as int]));
                        if is_all {
                            if current && ok {
                                assert forall|j: int| 0 <= j < k + 1 implies #[trigger] arg_holds(
                                    features.deep_view(),
                                    args@[j],
                                ) by {
                                    if j < k {
                                    }
                                }
                            }
                        } else {
                            if !current && !ok {
                                assert forall|j: int| !(0 <= j < k + 1 && #[trigger] arg_holds(
                                    features.deep_view(),
                                    args@[j],
                                )) by {
                                    if 0 <= j < k {
                                    }
                                }
                            }
                        }
                    }
                    current = if is_all {
                        current && ok
                    } else {
                        current || ok
                    };
                    k = k + 1;
                }
                proof {
                    assert(k == args@.len());
                    assert(ident@ != "not"@);
                    if is_all {
                        assert(ident@ == "all"@);
                        assert(current == forall|j: int|
                            0 <= j < args@.len() ==> #[trigger] arg_holds(features.deep_view(), args@[j]));
                    } else {
                        assert(ident@ == "any"@);
                        assert(ident@ != "all"@);
                        assert(current == exists|j: int|
                            0 <= j < args@.len() && #[trigger] arg_holds(features.deep_view(), args@[j]));
                    }
                    lemma_cfg_folds(features.deep_view(), args@);
                    assert(cfg_holds(features.deep_view(), *meta) == current);
                }
                bool_err(current)
            } else {
                bool_err(false)
            }
        },
    }
}

/// The metadata gathered from a list of attributes, by its characters: documentation,
/// `must_use` and `deprecated` (the last of each wins), and the other attributes, in order.
pub struct AttrFold {
    pub docs: Option<Seq<char>>,
    pub must_use: Option<Seq<char>>,
    pub deprecated: Option<(Option<Seq<char>>, Option<Seq<char>>)>,
    pub extras: Seq<Attribute>,
}

/// The string a literal stands for: its value where it is a string literal, its text otherwise.
pub open spec fn token_string(t: Tokens) -> Seq<char> {
    match syn_lit_str_value(t.text@) {
        Some(v) => v,
        None => t.text@,
    }
}

/// The string assigned by `#[path = literal]`; empty for an attribute of another form.
pub open spec fn assigned_text(a: Attribute) -> Seq<char> {
    match a {
        Attribute::Meta(Meta::Assign { literal, .. }) => token_string(literal),
        _ => Seq::empty(),
    }
}

/// The `since` and `note` given by the arguments of `#[deprecated(..)]`; the last of each wins,
/// and other arguments are ignored.
pub open spec fn deprecation_args(args: Seq<MetaInner>) -> (Option<Seq<char>>, Option<Seq<char>>)
    decreases args.len(),
{
    if args.len() == 0 {
        (None, None)
    } else {
        let (since, note) = deprecation_args(args.drop_last());
        match args.last() {
            MetaInner::Meta(Meta::Assign { path, literal }) => if path@ == simple_path("since"@) {
                (Some(token_string(literal)), note)
            } else if path@ == simple_path("note"@) {
                (since, Some(token_string(literal)))
            } else {
                (since, note)
            },
            _ => (since, note),
        }
    }
}

/// The deprecation an attribute `#[deprecated ..]` states: nothing but its arguments, where it
/// has any.
pub open spec fn deprecation_of(a: Attribute) -> (Option<Seq<char>>, Option<Seq<char>>) {
    match a {
        Attribute::Meta(Meta::Call { args, .. }) => deprecation_args(args@),
        _ => (None, None),
    }
}

/// The docs gathered so far with one more doc line: each line on a line of its own, in order.
pub open spec fn doc_joined(docs: Option<Seq<char>>, line: Seq<char>) -> Seq<char> {
    match docs {
        None => line,
        Some(d) => d + "\n"@ + line,
    }
}

/// The metadata gathered from `attrs`, in order.
pub open spec fn attrs_folded(attrs: Seq<Attribute>) -> AttrFold
    decreases attrs.len(),
{
    if attrs.len() == 0 {
        AttrFold { docs: None, must_use: None, deprecated: None, extras: Seq::empty() }
    } else {
        let f = attrs_folded(attrs.drop_last());
        let a = attrs.last();
        let p = attr_path(a)@;
        if p == simple_path("doc"@) {
            AttrFold { docs: Some(doc_joined(f.docs, assigned_text(a))), ..f }
        } else if p == simple_path("must_use"@) {
            AttrFold { must_use: Some(assigned_text(a)), ..f }
        } else if p == simple_path("deprecated"@) {
            AttrFold { deprecated: Some(deprecation_of(a)), ..f }
        } else {
            AttrFold { extras: f.extras.push(a), ..f }
        }
    }
}

/// Whether an attribute is a `#[cfg ..]`.
pub open spec fn is_cfg(a: Attribute) -> bool {
    attr_path(a)@ == simple_path("cfg"@)
}

/// Every `#[cfg(..)]` among `attrs` is in meta form and holds.
pub open spec fn cfgs_hold(features: Seq<Seq<char>>, attrs: Seq<Attribute>) -> bool {
    forall|i: int|
        0 <= i < attrs.len() && is_cfg(#[trigger] attrs[i]) ==> attrs[i] is Meta && cfg_holds(
            features,
            attrs[i]->Meta_0,
        )
}

/// `attrs` without its `#[cfg ..]` attributes.
pub open spec fn without_cfgs(attrs: Seq<Attribute>) -> Seq<Attribute>
    decreases attrs.len(),
{
    if attrs.len() == 0 {
        Seq::empty()
    } else {
        (if is_cfg(attrs[0]) {
            Seq::empty()
        } else {
            seq![attrs[0]]
        }) + without_cfgs(attrs.drop_first())
    }
}

/// Dropping the `cfg`s of a concatenation drops them from each part.
pub proof fn lemma_without_cfgs_append(a: Seq<Attribute>, b: Seq<Attribute>)
    ensures
        without_cfgs(a + b) == without_cfgs(a) + without_cfgs(b),
    decreases a.len(),
{
    if a.len() == 0 {
        assert(a + b =~= b);
        assert(without_cfgs(a) + without_cfgs(b) =~= without_cfgs(b));
    } else {
        assert((a + b).drop_first() =~= a.drop_first() + b);
        assert((a + b)[0] == a[0]);
        lemma_without_cfgs_append(a.drop_first(), b);
        let head = if is_cfg(a[0]) {
            Seq::<Attribute>::empty()
        } else {
            seq![a[0]]
        };
        assert(head + (without_cfgs(a.drop_first()) + without_cfgs(b)) =~= (head + without_cfgs(
            a.drop_first(),
        )) + without_cfgs(b));
    }
}

/// A list without `cfg`s is unchanged by dropping them.
pub proof fn lemma_without_cfgs_none(a: Seq<Attribute>)
    requires
        forall|i: int| 0 <= i < a.len() ==> !is_cfg(#[trigger] a[i]),
    ensures
        without_cfgs(a) == a,
    decreases a.len(),
{
    if a.len() > 0 {
        assert forall|i: int| 0 <= i < a.drop_first().len() implies !is_cfg(
            #[trigger] a.drop_first()[i],
        ) by {
            assert(a.drop_first()[i] == a[i + 1]);
        }
        lemma_without_cfgs_none(a.drop_first());
        assert(!is_cfg(a[0]));
        assert(seq![a[0]] + a.drop_first() =~= a);
    }
}

/// Removing a `cfg` attribute changes neither the other attributes nor whether all `cfg`s hold,
/// once it is known to hold.
pub proof fn lemma_remove_cfg(features: Seq<Seq<char>>, s: Seq<Attribute>, i: int)
    requires
        0 <= i < s.len(),
        is_cfg(s[i]),
    ensures
        without_cfgs(s.remove(i)) == without_cfgs(s),
        cfgs_hold(features, s) == (s[i] is Meta && cfg_holds(features, s[i]->Meta_0) && cfgs_hold(
            features,
            s.remove(i),
        )),
{
    let a = s.take(i);
    let b = s.skip(i + 1);
    assert(s =~= a + (seq![s[i]] + b));
    assert(s.remove(i) =~= a + b);
    lemma_without_cfgs_append(a, seq![s[i]] + b);
    lemma_without_cfgs_append(seq![s[i]], b);
    lemma_without_cfgs_append(a, b);
    assert(seq![s[i]].drop_first() =~= Seq::<Attribute>::empty());
    assert(seq![s[i]][0] == s[i]);
    assert(without_cfgs(Seq::<Attribute>::empty()) == Seq::<Attribute>::empty());
    assert(without_cfgs(seq![s[i]]) =~= Seq::<Attribute>::empty());
    assert(without_cfgs(seq![s[i]]) + without_cfgs(b) =~= without_cfgs(b));
    let r = s.remove(i);
    if cfgs_hold(features, s) {
        assert forall|j: int| 0 <= j < r.len() && is_cfg(#[trigger] r[j]) implies r[j] is Meta
            && cfg_holds(features, r[j]->Meta_0) by {
            if j < i {
                assert(r[j] == s[j]);
            } else {
                assert(r[j] == s[j + 1]);
            }
        }
    }
    if s[i] is Meta && cfg_holds(features, s[i]->Meta_0) && cfgs_hold(features, r) {
        assert forall|j: int| 0 <= j < s.len() && is_cfg(#[trigger] s[j]) implies s[j] is Meta
            && cfg_holds(features, s[j]->Meta_0) by {
            if j < i {
                assert(r[j] == s[j]);
            } else if j > i {
                assert(r[j - 1] == s[j]);
            }
        }
    }
}

/// The string a literal stands for: its value where it is a string literal, its text otherwise.
pub fn extract_string(lit: &Tokens) -> (r: String)
    ensures
        r@ == token_string(*lit),
{
    match parse_lit_str(lit.text.as_str()) {
        Some(v) => v,
        None => lit.text.clone(),
    }
}

/// The string assigned by an attribute, or an empty one.
fn assigned_text_of(a: &Attribute) -> (r: String)
    ensures
        r@ == assigned_text(*a),
{
    match a {
        Attribute::Meta(Meta::Assign { literal, .. }) => extract_string(literal),
        _ => String::new(),
    }
}

/// The deprecation stated by a `#[deprecated ..]` attribute.
fn deprecation_of_attr(a: &Attribute) -> (r: Deprecation)
    ensures
        (r.since.deep_view(), r.note.deep_view()) == deprecation_of(*a),
{
    let mut since: Option<String> = None;
    let mut note: Option<String> = None;
    if let Attribute::Meta(Meta::Call { args, .. }) = a {
        let mut i: usize = 0;
        proof {
            assert(args@.take(0) =~= Seq::<MetaInner>::empty());
        }
        while i < args.len()
            invariant
                i <= args.len(),
                (since.deep_view(), note.deep_view()) == deprecation_args(args@.take(i as int)),
            decreases args.len() - i,
        {
            proof {
                assert(args@.take(i + 1).drop_last() =~= args@.take(i as int));
                assert(args@.take(i + 1).last() == args@[i as int]);
            }
            if let MetaInner::Meta(Meta::Assign { path, literal }) = &args[i] {
                if is_path(path, "since") {
                    since = Some(extract_string(literal));
                } else if is_path(path, "note") {
                    note = Some(extract_string(literal));
                }
            }
            i = i + 1;
        }
        proof {
            assert(args@.take(args@.len() as int) =~= args@);
        }
    }
    Deprecation { since, note }
}

/// The deprecation of a metadata, by its characters.
pub open spec fn deprecation_view(d: Option<Deprecation>) -> Option<(Option<Seq<char>>, Option<Seq<char>>)> {
    match d {
        Some(d) => Some((d.since.deep_view(), d.note.deep_view())),
        None => None,
    }
}

/// Lower an item's name, visibility, attributes and span to its metadata.
///
/// Documentation, `must_use` and `deprecated` attributes fill their fields; the other
/// attributes are kept, except `cfg`s: an item whose `cfg`s do not all hold for the given
/// activated features is `#[cfg]`'d out.
#[verifier::loop_isolation(false)]
pub fn lower_metadata(
    name: Ident,
    visibility: Visibility,
    attributes: Vec<Attribute>,
    span: Span,
    features: &Vec<String>,
) -> (r: Result<Metadata, LowerError>)
    ensures
        ({
            let f = attrs_folded(attributes@);
            &&& (r is Ok) == cfgs_hold(features.deep_view(), f.extras)
            &&& r is Err ==> r == Err::<Metadata, LowerError>(LowerError::CfgdOut)
            &&& r is Ok ==> {
                let m = r->Ok_0;
                &&& m.name == name
                &&& m.visibility == visibility
                &&& m.docs.deep_view() == f.docs
                &&& m.must_use.deep_view() == f.must_use
                &&& deprecation_view(m.deprecated) == f.deprecated
                &&& m.extra_attributes@ == without_cfgs(f.extras)
                &&& m.span == span
            }
        }),
{
    let ghost all = attributes@;
    let ghost n = all.len();
    let mut docs: Option<String> = None;
    let mut must_use: Option<String> = None;
    let mut deprecated: Option<Deprecation> = None;
    let mut extras: Vec<Attribute> = Vec::new();
    let mut rest = attributes;
    proof {
        assert(all.take(0) =~= Seq::<Attribute>::empty());
        assert(all.skip(0) =~= all);
    }
    while rest.len() > 0
        invariant
            n == all.len(),
            rest@.len() <= n,
            rest@ == all.skip(n - rest@.len()),
            ({
                let f = attrs_folded(all.take(n - rest@.len()));
                &&& docs.deep_view() == f.docs
                &&& must_use.deep_view() == f.must_use
                &&& deprecation_view(deprecated) == f.deprecated
                &&& extras@ == f.extras
            }),
        decreases rest@.len(),
    {
        let ghost k = n - rest@.len();
        let attr = rest.remove(0);
        proof {
            assert(rest@ =~= all.skip(n - rest@.len()));
            assert(attr == all[k]);
            assert(all.take(k + 1).drop_last() =~= all.take(k));
            assert(all.take(k + 1).last() == all[k]);
        }
        if is_path(attr.path(), "doc") {
            let line = assigned_text_of(&attr);
            docs = match docs {
                None => Some(line),
                Some(mut d) => {
                    let ghost before = d@;
                    d.append("\n");
                    d.append(line.as_str());
                    proof {
                        reveal_strlit("\n");
                        assert(d@ == before + "\n"@ + line@);
                    }
                    Some(d)
                },
            };
        } else if is_path(attr.path(), "must_use") {
            must_use = Some(assigned_text_of(&attr));
        } else if is_path(attr.path(), "deprecated") {
            deprecated = Some(deprecation_of_attr(&attr));
        } else {
            extras.push(attr);
        }
    }
    proof {
        assert(all.take(n as int) =~= all);
    }
    let ghost folded = extras@;
    let mut result = Metadata {
        name,
        visibility,
        docs,
        must_use,
        deprecated,
        extra_attributes: extras,
        span,
    };
    let cfg = UnresolvedPath { path: vec!["cfg".to_string()], rooted: false };
    proof {
        assert(cfg@.path =~= seq!["cfg"@]);
    }
    loop
        invariant
            cfg@ == simple_path("cfg"@),
            result.name == name,
            result.visibility == visibility,
            result.docs.deep_view() == attrs_folded(all).docs,
            result.must_use.deep_view() == attrs_folded(all).must_use,
            deprecation_view(result.deprecated) == attrs_folded(all).deprecated,
            result.span == span,
            folded == attrs_folded(all).extras,
            without_cfgs(result.extra_attributes@) == without_cfgs(folded),
            cfgs_hold(features.deep_view(), result.extra_attributes@) == cfgs_hold(
                features.deep_view(),
                folded,
            ),
        decreases result.extra_attributes@.len(),
    {
        let ghost cur = result.extra_attributes@;
        proof {
            lemma_first_attr_with_path(cur, cfg@);
        }
        match result.extract_attribute(&cfg) {
            None => {
                proof {
                    assert forall|i: int| 0 <= i < cur.len() implies !is_cfg(#[trigger] cur[i]) by {}
                    lemma_without_cfgs_none(cur);
                }
                break ;
            },
            Some(found) => {
                let ghost i = first_attr_with_path(cur, cfg@);
                proof {
                    lemma_remove_cfg(features.deep_view(), cur, i);
                }
                match found {
                    Attribute::Meta(m) => {
                        match interp_cfg(features, &m) {
                            Ok(()) => {},
                            Err(e) => return Err(e),
                        }
                    },
                    Attribute::Other { .. } => return Err(LowerError::CfgdOut),
                }
            },
        }
    }
    Ok(result)
}

/// The symbol metadata gathered from attributes, by its characters, and the attributes kept.
pub struct SymbolFold {
    pub no_mangle: bool,
    pub export_name: Option<Seq<char>>,
    pub link_section: Option<Seq<char>>,
    pub kept: Seq<Attribute>,
}

/// `#[no_mangle]`, `#[export_name = ".."]` and `#[link_section = ".."]` gathered from `attrs`
/// (the last of each wins); an `export_name` or `link_section` without a string is kept.
pub open spec fn symbol_folded(attrs: Seq<Attribute>) -> SymbolFold
    decreases attrs.len(),
{
    if attrs.len() == 0 {
        SymbolFold { no_mangle: false, export_name: None, link_section: None, kept: Seq::empty() }
    } else {
        let f = symbol_folded(attrs.drop_last());
        let a = attrs.last();
        let p = attr_path(a)@;
        if p == simple_path("no_mangle"@) {
            SymbolFold { no_mangle: true, ..f }
        } else if p == simple_path("export_name"@) && assigned_string(a) is Some {
            SymbolFold { export_name: assigned_string(a), ..f }
        } else if p == simple_path("link_section"@) && assigned_string(a) is Some {
            SymbolFold { link_section: assigned_string(a), ..f }
        } else {
            SymbolFold { kept: f.kept.push(a), ..f }
        }
    }
}

/// Strip the attributes of a metadata that go into a `SymbolMetadata`, and return it.
pub fn extract_symbol_metadata(metadata: &mut Metadata) -> (r: Result<SymbolMetadata, LowerError>)
    ensures
        ({
            let f = symbol_folded(old(metadata).extra_attributes@);
            &&& r is Ok
            &&& r->Ok_0.no_mangle == f.no_mangle
            &&& r->Ok_0.export_name.deep_view() == f.export_name
            &&& r->Ok_0.link_section.deep_view() == f.link_section
            &&& final(metadata).extra_attributes@ == f.kept
        }),
        final(metadata).name == old(metadata).name,
        final(metadata).visibility == old(metadata).visibility,
        final(metadata).docs == old(metadata).docs,
        final(metadata).must_use == old(metadata).must_use,
        final(metadata).deprecated == old(metadata).deprecated,
        final(metadata).span == old(metadata).span,
{
    let ghost all = metadata.extra_attributes@;
    let ghost n = all.len();
    let mut rest: Vec<Attribute> = Vec::new();
    std::mem::swap(&mut metadata.extra_attributes, &mut rest);
    let mut no_mangle = false;
    let mut export_name: Option<String> = None;
    let mut link_section: Option<String> = None;
    let mut kept: Vec<Attribute> = Vec::new();
    proof {
        assert(all.take(0) =~= Seq::<Attribute>::empty());
        assert(all.skip(0) =~= all);
    }
    while rest.len() > 0
        invariant
            n == all.len(),
            rest@.len() <= n,
            rest@ == all.skip(n - rest@.len()),
            ({
                let f = symbol_folded(all.take(n - rest@.len()));
                &&& no_mangle == f.no_mangle
                &&& export_name.deep_view() == f.export_name
                &&& link_section.deep_view() == f.link_section
                &&& kept@ == f.kept
            }),
        decreases rest@.len(),
    {
        let ghost k = n - rest@.len();
        let attr = rest.remove(0);
        proof {
            assert(rest@ =~= all.skip(n - rest@.len()));
            assert(attr == all[k]);
            assert(all.take(k + 1).drop_last() =~= all.take(k));
            assert(all.take(k + 1).last() == all[k]);
        }
        if is_path(attr.path(), "no_mangle") {
            no_mangle = true;
        } else if is_path(attr.path(), "export_name") && attr.get_assigned_string().is_some() {
            export_name = attr.get_assigned_string();
        } else if is_path(attr.path(), "link_section") && attr.get_assigned_string().is_some() {
            link_section = attr.get_assigned_string();
        } else {
            kept.push(attr);
        }
    }
    proof {
        assert(all.take(n as int) =~= all);
    }
    metadata.extra_attributes = kept;
    Ok(SymbolMetadata { no_mangle, export_name, link_section })
}

/// The paths of the plain paths among the arguments of `#[derive(..)]`, in order.
pub open spec fn derive_paths(args: Seq<MetaInner>) -> Seq<UnresolvedPathView>
    decreases args.len(),
{
    if args.len() == 0 {
        Seq::empty()
    } else {
        let before = derive_paths(args.drop_last());
        match args.last() {
            MetaInner::Meta(Meta::Path(p)) => before.push(p@),
            _ => before,
        }
    }
}

/// The representation after a `#[repr(..)]` with arguments `args`, starting from `cur`: one of
/// `Rust`, `C`, `transparent`, `packed` or another identifier; or `C` and an integer type, for
/// an outer tag. Anything else leaves it unchanged.
pub open spec fn repr_update(cur: Repr, args: Seq<MetaInner>) -> Repr {
    if args.len() == 1 {
        match args[0] {
            MetaInner::Meta(Meta::Path(p)) => if p@ == simple_path("Rust"@) {
                cur
            } else if p@ == simple_path("C"@) {
                Repr::C
            } else if p@ == simple_path("transparent"@) {
                Repr::Transparent
            } else if p@ == simple_path("packed"@) {
                Repr::Packed
            } else if path_ident(p@) is Some {
                Repr::Other(p.path@[0])
            } else {
                cur
            },
            _ => cur,
        }
    } else if args.len() == 2 {
        match (args[0], args[1]) {
            (MetaInner::Meta(Meta::Path(p0)), MetaInner::Meta(Meta::Path(p1))) => if p0@
                == simple_path("C"@) && path_ident(p1@) is Some {
                Repr::IntOuterTag(p1.path@[0])
            } else {
                cur
            },
            _ => cur,
        }
    } else {
        cur
    }
}

/// The type metadata gathered from attributes, and the attributes kept.
pub struct TypeFold {
    pub derives: Seq<UnresolvedPathView>,
    pub repr: Repr,
    pub kept: Seq<Attribute>,
}

/// `#[derive(..)]` and `#[repr(..)]` gathered from `attrs`: the derives accumulate, the last
/// representation wins, and both attributes are dropped.
pub open spec fn type_folded(attrs: Seq<Attribute>) -> TypeFold
    decreases attrs.len(),
{
    if attrs.len() == 0 {
        TypeFold { derives: Seq::empty(), repr: Repr::Rust, kept: Seq::empty() }
    } else {
        let f = type_folded(attrs.drop_last());
        let a = attrs.last();
        match a {
            Attribute::Meta(Meta::Call { path, args }) => if path@ == simple_path("derive"@) {
                TypeFold { derives: f.derives + derive_paths(args@), ..f }
            } else if path@ == simple_path("repr"@) {
                TypeFold { repr: repr_update(f.repr, args@), ..f }
            } else {
                TypeFold { kept: f.kept.push(a), ..f }
            },
            _ => TypeFold { kept: f.kept.push(a), ..f },
        }
    }
}

/// The representation after a `#[repr(..)]` with arguments `args`, starting from `cur`.
fn lower_repr(cur: Repr, args: &Vec<MetaInner>) -> (r: Repr)
    ensures
        r == repr_update(cur, args@),
{
    if args.len() == 1 {
        if let MetaInner::Meta(Meta::Path(path)) = &args[0] {
            if is_path(path, "Rust") {
                cur
            } else if is_path(path, "C") {
                Repr::C
            } else if is_path(path, "transparent") {
                Repr::Transparent
            } else if is_path(path, "packed") {
                Repr::Packed
            } else if let Some(ident) = path.get_ident() {
                Repr::Other(ident.clone())
            } else {
                cur
            }
        } else {
            cur
        }
    } else if args.len() == 2 {
        if let MetaInner::Meta(Meta::Path(p0)) = &args[0] {
            if let MetaInner::Meta(Meta::Path(p1)) = &args[1] {
                if is_path(p0, "C") {
                    if let Some(ident) = p1.get_ident() {
                        return Repr::IntOuterTag(ident.clone());
                    }
                }
            }
        }
        cur
    } else {
        cur
    }
}

/// Strip the attributes of a metadata that go into a `TypeMetadata`, and return it.
pub fn extract_type_metadata(metadata: &mut Metadata) -> (r: Result<TypeMetadata, LowerError>)
    ensures
        ({
            let f = type_folded(old(metadata).extra_attributes@);
            &&& r is Ok
            &&& r->Ok_0.derives@.map_values(|t: Trait| t.path@) == f.derives
            &&& forall|i: int| 0 <= i < r->Ok_0.derives@.len() ==> !(#[trigger] r->Ok_0.derives@[i]).is_maybe
            &&& r->Ok_0.repr == f.repr
            &&& final(metadata).extra_attributes@ == f.kept
        }),
        final(metadata).name == old(metadata).name,
        final(metadata).visibility == old(metadata).visibility,
        final(metadata).docs == old(metadata).docs,
        final(metadata).must_use == old(metadata).must_use,
        final(metadata).deprecated == old(metadata).deprecated,
        final(metadata).span == old(metadata).span,
{
    let ghost all = metadata.extra_attributes@;
    let ghost n = all.len();
    let mut rest: Vec<Attribute> = Vec::new();
    std::mem::swap(&mut metadata.extra_attributes, &mut rest);
    let mut derives: Vec<Trait> = Vec::new();
    let mut repr = Repr::Rust;
    let mut kept: Vec<Attribute> = Vec::new();
    proof {
        assert(all.take(0) =~= Seq::<Attribute>::empty());
        assert(all.skip(0) =~= all);
        assert(derives@.map_values(|t: Trait| t.path@) =~= Seq::<UnresolvedPathView>::empty());
    }
    while rest.len() > 0
        invariant
            n == all.len(),
            rest@.len() <= n,
            rest@ == all.skip(n - rest@.len()),
            ({
                let f = type_folded(all.take(n - rest@.len()));
                &&& derives@.map_values(|t: Trait| t.path@) == f.derives
                &&& repr == f.repr
                &&& kept@ == f.kept
            }),
            forall|i: int| 0 <= i < derives@.len() ==> !(#[trigger] derives@[i]).is_maybe,
        decreases rest@.len(),
    {
        let ghost k = n - rest@.len();
        let attr = rest.remove(0);
        proof {
            assert(rest@ =~= all.skip(n - rest@.len()));
            assert(attr == all[k]);
            assert(all.take(k + 1).drop_last() =~= all.take(k));
            assert(all.take(k + 1).last() == all[k]);
        }
        let mut keep = true;
        if let Attribute::Meta(Meta::Call { path, args }) = &attr {
            if is_path(path, "derive") {
                let ghost d0 = derives@.map_values(|t: Trait| t.path@);
                let mut i: usize = 0;
                proof {
                    assert(args@.take(0) =~= Seq::<MetaInner>::empty());
                    assert(d0 + derive_paths(args@.take(0)) =~= d0);
                }
                while i < args.len()
                    invariant
                        i <= args.len(),
                        derives@.map_values(|t: Trait| t.path@) == d0 + derive_paths(args@.take(i as int)),
                        forall|j: int| 0 <= j < derives@.len() ==> !(#[trigger] derives@[j]).is_maybe,
                    decreases args.len() - i,
                {
                    proof {
                        assert(args@.take(i + 1).drop_last() =~= args@.take(i as int));
                        assert(args@.take(i + 1).last() == args@[i as int]);
                    }
                    if let MetaInner::Meta(Meta::Path(p)) = &args[i] {
                        let ghost before = derives@;
                        derives.push(Trait { path: p.dup(), is_maybe: false });
                        proof {
                            assert(derives@.map_values(|t: Trait| t.path@) =~= before.map_values(
                                |t: Trait| t.path@,
                            ).push(p@));
                        }
                    }
                    i = i + 1;
                }
                proof {
                    assert(args@.take(args@.len() as int) =~= args@);
                }
                keep = false;
            } else if is_path(path, "repr") {
                repr = lower_repr(repr, args);
                keep = false;
            }
        }
        if keep {
            kept.push(attr);
        }
    }
    proof {
        assert(all.take(n as int) =~= all);
    }
    metadata.extra_attributes = kept;
    Ok(TypeMetadata { derives, repr })
}

/// The syntax of a visibility, as written.
#[derive(Debug, Clone, Copy, PartialEq, Eq, Structural)]
pub enum VisibilitySyntax {
    /// `pub`
    Public,
    /// `crate`
    Crate,
    /// `pub(crate)`, `pub(super)`, `pub(in path)`, ...
    Restricted,
    /// No visibility written.
    Inherited,
}

/// Lower a visibility written in the module `module`: `pub` is public, anything else is
/// visible within the module (an inherited visibility that is in fact `pub`, as in a trait, must
/// be corrected by hand).
pub fn lower_visibility(visibility: VisibilitySyntax, module: &Identity) -> (r: Visibility)
    ensures
        visibility == VisibilitySyntax::Public ==> r == Visibility::Pub,
        visibility != VisibilitySyntax::Public ==> (r matches Visibility::InScope(m) && m@ == module@),
{
    match visibility {
        VisibilitySyntax::Public => Visibility::Pub,
        _ => Visibility::InScope(module.dup()),
    }
}

/// The imports of a module: named and glob imports, public or not, by their (not yet absolute)
/// paths.
pub struct ModuleScope {
    /// `use` imports, by the name they bind.
    pub imports: NameTable<Path>,
    /// `pub use` imports, by the name they bind.
    pub pub_imports: NameTable<Path>,
    /// Glob imports, in order.
    pub glob_imports: Vec<Path>,
    /// Public glob imports, in order.
    pub pub_glob_imports: Vec<Path>,
}

/// What a module scope holds.
pub struct ModuleScopeView {
    pub imports: Map<Seq<char>, PathView>,
    pub pub_imports: Map<Seq<char>, PathView>,
    pub glob_imports: Seq<PathView>,
    pub pub_glob_imports: Seq<PathView>,
}

impl View for ModuleScope {
    type V = ModuleScopeView;

    open spec fn view(&self) -> ModuleScopeView {
        ModuleScopeView {
            imports: self.imports.map().map_values(|p: Path| p@),
            pub_imports: self.pub_imports.map().map_values(|p: Path| p@),
            glob_imports: self.glob_imports@.map_values(|p: Path| p@),
            pub_glob_imports: self.pub_glob_imports@.map_values(|p: Path| p@),
        }
    }
}

impl ModuleScope {
    /// Both import tables are well formed.
    pub open spec fn wf(&self) -> bool {
        self.imports.wf() && self.pub_imports.wf()
    }

    /// A scope with no imports.
    pub fn new() -> (r: ModuleScope)
        ensures
            r.wf(),
            r@.imports == Map::<Seq<char>, PathView>::empty(),
            r@.pub_imports == Map::<Seq<char>, PathView>::empty(),
            r@.glob_imports == Seq::<PathView>::empty(),
            r@.pub_glob_imports == Seq::<PathView>::empty(),
    {
        let r = ModuleScope {
            imports: NameTable::new(),
            pub_imports: NameTable::new(),
            glob_imports: Vec::new(),
            pub_glob_imports: Vec::new(),
        };
        proof {
            assert(r@.imports =~= Map::<Seq<char>, PathView>::empty());
            assert(r@.pub_imports =~= Map::<Seq<char>, PathView>::empty());
            assert(r@.glob_imports =~= Seq::<PathView>::empty());
            assert(r@.pub_glob_imports =~= Seq::<PathView>::empty());
        }
        r
    }
}

/// A `use` tree, as written.
pub enum UseTree {
    /// `ident::tree`
    Path { ident: Ident, tree: Box<UseTree> },
    /// `name`
    Name(Ident),
    /// `ident as rename`
    Rename { ident: Ident, rename: Ident },
    /// `*`
    Glob,
    /// `{a, b, ..}`
    Group(Vec<UseTree>),
}

/// A `use` item, as written.
pub struct UseItem {
    /// The visibility of the `use`.
    pub vis: VisibilitySyntax,
    /// Whether the tree starts with `::`.
    pub leading_colon: bool,
    /// The tree of imported paths.
    pub tree: UseTree,
}

/// `current` followed by `seg`.
pub open spec fn path_joined(current: UnresolvedPathView, seg: Seq<char>) -> UnresolvedPathView {
    UnresolvedPathView { path: current.path.push(seg), rooted: current.rooted }
}

/// The named imports (name and path) and glob imports of a `use` tree under the prefix
/// `current`, in order.
pub open spec fn use_tree_effects(t: UseTree, current: UnresolvedPathView) -> (
    Seq<(Seq<char>, UnresolvedPathView)>,
    Seq<UnresolvedPathView>,
)
    decreases t,
{
    match t {
        UseTree::Path { ident, tree } => use_tree_effects(*tree, path_joined(current, ident@)),
        UseTree::Name(name) => (seq![(name@, path_joined(current, name@))], Seq::empty()),
        UseTree::Rename { ident, rename } => (
            seq![(rename@, path_joined(current, ident@))],
            Seq::empty(),
        ),
        UseTree::Glob => (Seq::empty(), seq![current]),
        UseTree::Group(items) => group_effects(items@, current),
    }
}

/// The imports of the trees of a group, in order.
pub open spec fn group_effects(items: Seq<UseTree>, current: UnresolvedPathView) -> (
    Seq<(Seq<char>, UnresolvedPathView)>,
    Seq<UnresolvedPathView>,
)
    decreases items,
{
    if items.len() == 0 {
        (Seq::empty(), Seq::empty())
    } else {
        let (a, g) = use_tree_effects(items[0], current);
        let (a2, g2) = group_effects(items.drop_first(), current);
        (a + a2, g + g2)
    }
}

/// The effects of a group's first `n` trees, then those of its next tree.
pub proof fn lemma_group_effects_take(items: Seq<UseTree>, current: UnresolvedPathView, n: int)
    requires
        0 <= n < items.len(),
    ensures
        group_effects(items.take(n + 1), current) == ({
            let (a, g) = group_effects(items.take(n), current);
            let (a2, g2) = use_tree_effects(items[n], current);
            (a + a2, g + g2)
        }),
    decreases n,
{
    let t = items.take(n + 1);
    if n == 0 {
        assert(t.drop_first() =~= Seq::<UseTree>::empty());
        assert(items.take(0) =~= Seq::<UseTree>::empty());
        let (a2, g2) = use_tree_effects(items[0], current);
        assert(a2 + Seq::<(Seq<char>, UnresolvedPathView)>::empty() =~= a2);
        assert(g2 + Seq::<UnresolvedPathView>::empty() =~= g2);
        assert(Seq::<(Seq<char>, UnresolvedPathView)>::empty() + a2 =~= a2);
        assert(Seq::<UnresolvedPathView>::empty() + g2 =~= g2);
    } else {
        let d = items.drop_first();
        lemma_group_effects_take(d, current, n - 1);
        assert(t.drop_first() =~= d.take(n));
        assert(items.take(n).drop_first() =~= d.take(n - 1));
        assert(d[n - 1] == items[n]);
        let (a0, g0) = use_tree_effects(items[0], current);
        let (a1, g1) = group_effects(d.take(n - 1), current);
        let (a2, g2) = use_tree_effects(items[n], current);
        assert(a0 + (a1 + a2) =~= (a0 + a1) + a2);
        assert(g0 + (g1 + g2) =~= (g0 + g1) + g2);
    }
}

/// A table of imports after binding each name of `names` to its path, in order.
pub open spec fn imports_applied(
    m: Map<Seq<char>, PathView>,
    names: Seq<(Seq<char>, UnresolvedPathView)>,
) -> Map<Seq<char>, PathView>
    decreases names.len(),
{
    if names.len() == 0 {
        m
    } else {
        imports_applied(m, names.drop_last()).insert(
            names.last().0,
            PathView::Unresolved(names.last().1),
        )
    }
}

/// Binding `a` then `b` is binding `a + b`.
pub proof fn lemma_imports_applied_append(
    m: Map<Seq<char>, PathView>,
    a: Seq<(Seq<char>, UnresolvedPathView)>,
    b: Seq<(Seq<char>, UnresolvedPathView)>,
)
    ensures
        imports_applied(m, a + b) == imports_applied(imports_applied(m, a), b),
    decreases b.len(),
{
    if b.len() == 0 {
        assert(a + b =~= a);
    } else {
        assert((a + b).drop_last() =~= a + b.drop_last());
        assert((a + b).last() == b.last());
        lemma_imports_applied_append(m, a, b.drop_last());
    }
}

/// The glob paths, as unresolved paths.
pub open spec fn globs_as_paths(g: Seq<UnresolvedPathView>) -> Seq<PathView> {
    g.map_values(|p: UnresolvedPathView| PathView::Unresolved(p))
}

/// The scope after lowering the tree `t` under `current`, into its public or its private
/// imports.
pub open spec fn use_lowered(s: ModuleScopeView, t: UseTree, current: UnresolvedPathView, public: bool) -> ModuleScopeView {
    let (names, globs) = use_tree_effects(t, current);
    if public {
        ModuleScopeView {
            pub_imports: imports_applied(s.pub_imports, names),
            pub_glob_imports: s.pub_glob_imports + globs_as_paths(globs),
            ..s
        }
    } else {
        ModuleScopeView {
            imports: imports_applied(s.imports, names),
            glob_imports: s.glob_imports + globs_as_paths(globs),
            ..s
        }
    }
}

/// Lower a `use` tree under the prefix `current` into the scope's public or private imports.
#[verifier::loop_isolation(false)]
fn lower_use_tree(scope: &mut ModuleScope, use_: &UseTree, public: bool, current: UnresolvedPath)
    requires
        old(scope).wf(),
    ensures
        final(scope).wf(),
        final(scope)@ == use_lowered(old(scope)@, *use_, current@, public),
    decreases use_,
{
    let ghost s0 = scope@;
    match use_ {
        UseTree::Path { ident, tree } => {
            let next = current.join(ident.clone());
            lower_use_tree(scope, tree, public, next);
        },
        UseTree::Group(items) => {
            let mut i: usize = 0;
            proof {
                assert(items@.take(0) =~= Seq::<UseTree>::empty());
                let (a, g) = group_effects(items@.take(0), current@);
                assert(imports_applied(s0.imports, a) == s0.imports);
                assert(imports_applied(s0.pub_imports, a) == s0.pub_imports);
                assert(s0.glob_imports + globs_as_paths(g) =~= s0.glob_imports);
                assert(s0.pub_glob_imports + globs_as_paths(g) =~= s0.pub_glob_imports);
            }
            while i < items.len()
                invariant
                    i <= items.len(),
                    scope.wf(),
                    scope@ == ({
                        let (a, g) = group_effects(items@.take(i as int), current@);
                        if public {
                            ModuleScopeView {
                                pub_imports: imports_applied(s0.pub_imports, a),
                                pub_glob_imports: s0.pub_glob_imports + globs_as_paths(g),
                                ..s0
                            }
                        } else {
                            ModuleScopeView {
                                imports: imports_applied(s0.imports, a),
                                glob_imports: s0.glob_imports + globs_as_paths(g),
                                ..s0
                            }
                        }
                    }),
                decreases items.len() - i,
            {
                let ghost before = scope@;
                proof {
                    assert(decreases_to!(*use_ => items@[i as int]));
                }
                lower_use_tree(scope, &items[i], public, current.dup());
                proof {
                    lemma_group_effects_take(items@, current@, i as int);
                    let (a, g) = group_effects(items@.take(i as int), current@);
                    let (a2, g2) = use_tree_effects(items@[i as int], current@);
                    lemma_imports_applied_append(s0.imports, a, a2);
                    lemma_imports_applied_append(s0.pub_imports, a, a2);
                    assert(globs_as_paths(g + g2) =~= globs_as_paths(g) + globs_as_paths(g2));
                    assert(s0.glob_imports + globs_as_paths(g) + globs_as_paths(g2) =~= s0.glob_imports
                        + globs_as_paths(g + g2));
                    assert(s0.pub_glob_imports + globs_as_paths(g) + globs_as_paths(g2)
                        =~= s0.pub_glob_imports + globs_as_paths(g + g2));
                }
                i = i + 1;
            }
            proof {
                assert(items@.take(items@.len() as int) =~= items@);
            }
        },
        UseTree::Glob => {
            let ghost g0 = scope.glob_imports@;
            let ghost pg0 = scope.pub_glob_imports@;
            let p = Path::Unresolved(current);
            if public {
                scope.pub_glob_imports.push(p);
            } else {
                scope.glob_imports.push(p);
            }
            proof {
                assert(scope@.glob_imports =~= use_lowered(s0, *use_, current@, public).glob_imports);
                assert(scope@.pub_glob_imports =~= use_lowered(s0, *use_, current@, public).pub_glob_imports);
            }
        },
        UseTree::Name(name) => {
            let target = current.join(name.clone());
            let ghost tv = target@;
            if public {
                scope.pub_imports.set(name.clone(), Path::Unresolved(target));
            } else {
                scope.imports.set(name.clone(), Path::Unresolved(target));
            }
            proof {
                let names = seq![(name@, tv)];
                assert(names.drop_last() =~= Seq::<(Seq<char>, UnresolvedPathView)>::empty());
                assert(names.last() == (name@, tv));
                assert(use_tree_effects(*use_, current@).0 == names);
                assert(imports_applied(s0.imports, names.drop_last()) == s0.imports);
                assert(imports_applied(s0.pub_imports, names.drop_last()) == s0.pub_imports);
                assert(imports_applied(s0.imports, names) == s0.imports.insert(name@, PathView::Unresolved(tv)));
                assert(imports_applied(s0.pub_imports, names) == s0.pub_imports.insert(name@, PathView::Unresolved(tv)));
                assert(scope@.imports =~= use_lowered(s0, *use_, current@, public).imports);
                assert(scope@.pub_imports =~= use_lowered(s0, *use_, current@, public).pub_imports);
                assert(s0.glob_imports + globs_as_paths(Seq::empty()) =~= s0.glob_imports);
                assert(s0.pub_glob_imports + globs_as_paths(Seq::empty()) =~= s0.pub_glob_imports);
            }
        },
        UseTree::Rename { ident, rename } => {
            let target = current.join(ident.clone());
            let ghost tv = target@;
            if public {
                scope.pub_imports.set(rename.clone(), Path::Unresolved(target));
            } else {
                scope.imports.set(rename.clone(), Path::Unresolved(target));
            }
            proof {
                let names = seq![(rename@, tv)];
                assert(names.drop_last() =~= Seq::<(Seq<char>, UnresolvedPathView)>::empty());
                assert(names.last() == (rename@, tv));
                assert(use_tree_effects(*use_, current@).0 == names);
                assert(imports_applied(s0.imports, names.drop_last()) == s0.imports);
                assert(imports_applied(s0.pub_imports, names.drop_last()) == s0.pub_imports);
                assert(imports_applied(s0.imports, names) == s0.imports.insert(rename@, PathView::Unresolved(tv)));
                assert(imports_applied(s0.pub_imports, names) == s0.pub_imports.insert(rename@, PathView::Unresolved(tv)));
                assert(scope@.imports =~= use_lowered(s0, *use_, current@, public).imports);
                assert(scope@.pub_imports =~= use_lowered(s0, *use_, current@, public).pub_imports);
                assert(s0.glob_imports + globs_as_paths(Seq::empty()) =~= s0.glob_imports);
                assert(s0.pub_glob_imports + globs_as_paths(Seq::empty()) =~= s0.pub_glob_imports);
            }
        },
    }
}

/// Lower a `use` item into the scope's imports: its public imports where the item is `pub`, its
/// private ones otherwise.
pub fn lower_use(scope: &mut ModuleScope, use_: &UseItem)
    requires
        old(scope).wf(),
    ensures
        final(scope).wf(),
        final(scope)@ == use_lowered(
            old(scope)@,
            use_.tree,
            UnresolvedPathView { path: Seq::empty(), rooted: use_.leading_colon },
            use_.vis == VisibilitySyntax::Public,
        ),
{
    let public = match use_.vis {
        VisibilitySyntax::Public => true,
        _ => false,
    };
    let current = UnresolvedPath { rooted: use_.leading_colon, path: Vec::new() };
    proof {
        assert(current@.path =~= Seq::<Seq<char>>::empty());
    }
    lower_use_tree(scope, &use_.tree, public, current);
}


/// Lower a `macro_rules!` item from its lowered metadata, the path of the macro it invokes, its
/// name, and the token trees of the whole item: `#[macro_export]` is taken out of its attributes
/// and recorded.
pub fn lower_macro_rules(
    metadata: Metadata,
    path: &UnresolvedPath,
    ident: Option<String>,
    tokens: Vec<TokenTree>,
) -> (r: Result<DeclarativeMacroItem, LowerError>)
    ensures
        path@ != simple_path("macro_rules"@) ==> r == Err::<DeclarativeMacroItem, LowerError>(
            LowerError::NotAMacroDeclaration,
        ),
        path@ == simple_path("macro_rules"@) && ident is None ==> r == Err::<DeclarativeMacroItem, LowerError>(
            LowerError::NotAMacroDeclaration,
        ),
        path@ == simple_path("macro_rules"@) && ident is Some ==> (r matches Ok(item) && {
            let attrs = metadata.extra_attributes@;
            let i = first_attr_with_path(attrs, simple_path("macro_export"@));
            &&& item.macro_export == (i < attrs.len())
            &&& item.metadata.extra_attributes@ == if i < attrs.len() {
                attrs.remove(i)
            } else {
                attrs
            }
            &&& item.metadata.name == metadata.name
            &&& item.metadata.visibility == metadata.visibility
            &&& item.metadata.docs == metadata.docs
            &&& item.metadata.must_use == metadata.must_use
            &&& item.metadata.deprecated == metadata.deprecated
            &&& item.metadata.span == metadata.span
            &&& item.tokens == tokens
        }),
{
    let mut metadata = metadata;
    let export = UnresolvedPath { path: vec!["macro_export".to_string()], rooted: false };
    proof {
        assert(export@.path =~= seq!["macro_export"@]);
    }
    let macro_export = metadata.extract_attribute(&export).is_some();
    if !is_path(path, "macro_rules") {
        return Err(LowerError::NotAMacroDeclaration);
    }
    match ident {
        None => Err(LowerError::NotAMacroDeclaration),
        Some(_) => Ok(DeclarativeMacroItem { metadata, macro_export, tokens }),
    }
}

} // verus!
