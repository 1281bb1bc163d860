//! Type identities: references to types, as they appear in signatures.
//!
//! This is distinct from the declaration of the referenced type: `struct S {}` is a `StructItem`;
//! `fn q(s: S) {}` refers to it through a `TypeId`.

use crate::attributes::Tokens;
use crate::identities::{identity_debug, Ident, Identity};
use crate::maps::NameTable;
use vstd::prelude::*;

verus! {

/// A constant expression, represented as uninterpreted tokens.
#[derive(Debug, Clone, PartialEq, Eq)]
pub struct ConstExpr(pub Tokens);

/// A non-constant expression, represented as uninterpreted tokens.
#[derive(Debug, Clone)]
pub struct Expr(pub Tokens);

/// Uniquely identifies a lifetime.
#[derive(Debug)]
pub struct LifetimeId {
    pub id: Identity,
}

impl LifetimeId {
    /// The lifetime with the given identity.
    pub fn new(id: Identity) -> (r: LifetimeId)
        ensures
            r.id == id,
    {
        LifetimeId { id }
    }
}

/// Uniquely identifies a symbol, with generic arguments.
pub struct SymbolId {
    pub id: Identity,
    pub params: GenericParams,
}

/// Uniquely identifies a trait, with generic arguments.
pub struct TraitId {
    /// The path to the trait.
    pub id: Identity,
    /// The trait's generic arguments, if present.
    pub params: GenericParams,
    /// If the trait is prefixed with `?`.
    pub is_maybe: bool,
}

/// Generic arguments to a type or trait, mapping declaration parameters to their assignments.
/// Doesn't include constraints; those are defined at the declaration site.
pub struct GenericParams {
    /// Type bindings (e.g. `Output=T`).
    pub type_bindings: NameTable<TypeId>,
    /// Lifetime parameters to a type.
    pub lifetimes: NameTable<LifetimeId>,
    /// Const generic bindings. Positional arguments are resolved before this is created.
    pub consts: NameTable<ConstExpr>,
}

impl GenericParams {
    /// The tables are well formed.
    pub open spec fn wf(&self) -> bool {
        self.type_bindings.wf() && self.lifetimes.wf() && self.consts.wf()
    }

    /// No arguments at all.
    pub fn empty() -> (r: GenericParams)
        ensures
            r.wf(),
            r.type_bindings.map().is_empty(),
            r.lifetimes.map().is_empty(),
            r.consts.map().is_empty(),
    {
        let r = GenericParams { type_bindings: NameTable::new(), lifetimes: NameTable::new(), consts: NameTable::new() };
        proof {
            assert(r.type_bindings.map().dom() =~= Set::empty());
            assert(r.lifetimes.map().dom() =~= Set::empty());
            assert(r.consts.map().dom() =~= Set::empty());
        }
        r
    }

    /// Whether there are no arguments at all.
    pub fn is_empty(&self) -> (r: bool)
        requires
            self.wf(),
        ensures
            r == (self.lifetimes.keys().len() == 0 && self.type_bindings.keys().len() == 0
                && self.consts.keys().len() == 0),
    {
        self.lifetimes.len() == 0 && self.type_bindings.len() == 0 && self.consts.len() == 0
    }
}

/// A reference to a type.
pub enum TypeId {
    Path(PathType),
    Array(ArrayType),
    Slice(SliceType),
    Reference(ReferenceType),
    Pointer(PointerType),
    Tuple(TupleType),
    Never(NeverType),
    QSelf(QSelfType),
    BareFn(BareFnType),
    ImplTrait(ImplTraitType),
    TraitObject(TraitObjectType),
}

/// A path, possibly with generic arguments `Type<T1, T2, Assoc=T3>`.
pub struct PathType {
    /// The identity of the path's target.
    pub path: Identity,
    /// The applied generics.
    pub params: GenericParams,
}

/// An array, `[i32; n]`.
pub struct ArrayType {
    pub type_: Box<TypeId>,
    pub len: ConstExpr,
}

/// A slice, `[i32]`.
pub struct SliceType {
    pub type_: Box<TypeId>,
}

/// An (optionally mutable) reference.
pub struct ReferenceType {
    /// The referenced type.
    pub type_: Box<TypeId>,
    /// Whether the reference is mutable.
    pub mut_: bool,
    /// The lifetime of this reference, if present.
    pub lifetime: Option<LifetimeId>,
}

/// An (optionally mutable) pointer.
pub struct PointerType {
    /// The pointed-to type.
    pub type_: Box<TypeId>,
    /// Whether the pointer is mutable or const.
    pub mut_: bool,
}

/// A tuple, `(i32, i8, String)`. With no elements, this is the void type `()`.
pub struct TupleType {
    pub types: Vec<TypeId>,
}

impl TupleType {
    /// If this tuple is void.
    pub fn is_void(&self) -> (r: bool)
        ensures
            r == (self.types.len() == 0),
    {
        self.types.len() == 0
    }
}

/// The never type, `!`.
#[derive(Debug, Clone, Copy)]
pub struct NeverType;

/// A type `<T as Trait>::Output`.
pub struct QSelfType {
    /// `T`
    pub self_: Box<TypeId>,
    /// `as Trait`
    pub trait_: TraitId,
    /// `::Output`
    pub output_: Ident,
}

/// `fn(i32, String) -> usize`
pub struct BareFnType {
    /// The arguments to the function pointer.
    pub args: Vec<TypeId>,
    /// The return type of the function pointer.
    pub ret: Box<TypeId>,
    /// If the function pointer takes varargs, `...`.
    pub varargs: bool,
    /// If the function pointer is unsafe.
    pub unsafe_: bool,
}

/// `impl Trait`
pub struct ImplTraitType {
    /// Lifetime bounds on this type.
    pub lifetime_bounds: Vec<LifetimeId>,
    /// Trait bounds on this type.
    pub trait_bounds: Vec<TraitId>,
}

/// `dyn Trait`
pub struct TraitObjectType {
    /// Bounds on this type.
    pub trait_bounds: Vec<TraitId>,
}

impl TypeId {
    /// If this type is void, the empty tuple.
    pub fn is_void(&self) -> (r: bool)
        ensures
            r == (self matches TypeId::Tuple(t) && t.types.len() == 0),
    {
        match self {
            TypeId::Tuple(t) => t.is_void(),
            _ => false,
        }
    }
}

/// `"mut "` for a mutable reference or pointer, and `other` otherwise.
pub open spec fn mut_prefix(mut_: bool, other: Seq<char>) -> Seq<char> {
    if mut_ {
        "mut "@
    } else {
        other
    }
}

/// The debug form of a type, as it would be written in Rust, with paths written as identities.
pub open spec fn type_debug(t: TypeId) -> Seq<char>
    decreases t,
{
    match t {
        TypeId::Path(p) => identity_debug(p.path@) + params_debug(p.params),
        TypeId::Array(a) => "["@ + type_debug(*a.type_) + "; "@ + a.len.0.text@ + "]"@,
        TypeId::Slice(sl) => "["@ + type_debug(*sl.type_) + "]"@,
        TypeId::Reference(r) => match r.lifetime {
            Some(lt) => "&"@ + identity_debug(lt.id@) + " "@ + mut_prefix(r.mut_, Seq::<char>::empty()) + type_debug(*r.type_),
            None => "&"@ + mut_prefix(r.mut_, Seq::<char>::empty()) + type_debug(*r.type_),
        },
        TypeId::Pointer(p) => "*"@ + mut_prefix(p.mut_, "const "@) + type_debug(*p.type_),
        TypeId::Tuple(tu) => "("@ + types_joined(tu.types@) + ")"@,
        TypeId::Never(_) => "!"@,
        TypeId::QSelf(q) => "<"@ + type_debug(*q.self_) + " as "@ + trait_debug(q.trait_) + ">::"@ + q.output_@,
        TypeId::BareFn(f) => (if f.unsafe_ {
            "unsafe "@
        } else {
            Seq::<char>::empty()
        }) + "fn("@ + types_joined(f.args@) + (if f.varargs {
            ", ..."@
        } else {
            Seq::<char>::empty()
        }) + ") -> "@ + type_debug(*f.ret),
        TypeId::ImplTrait(it) => "(impl "@ + traits_joined(it.trait_bounds@) + lifetimes_appended(
            it.lifetime_bounds@,
        ) + ")"@,
        TypeId::TraitObject(o) => "(dyn "@ + traits_joined(o.trait_bounds@) + ")"@,
    }
}

/// The debug forms of types, separated by `, `.
pub open spec fn types_joined(ts: Seq<TypeId>) -> Seq<char>
    decreases ts,
{
    if ts.len() == 0 {
        Seq::empty()
    } else if ts.len() == 1 {
        type_debug(ts[0])
    } else {
        types_joined(ts.drop_last()) + ", "@ + type_debug(ts.last())
    }
}

/// The debug form of a trait: `?` where it is a maybe-bound, its identity, and its arguments.
pub open spec fn trait_debug(tr: TraitId) -> Seq<char>
    decreases tr,
{
    (if tr.is_maybe {
        "?"@
    } else {
        Seq::<char>::empty()
    }) + identity_debug(tr.id@) + params_debug(tr.params)
}

/// The debug forms of traits, separated by ` + `.
pub open spec fn traits_joined(ts: Seq<TraitId>) -> Seq<char>
    decreases ts,
{
    if ts.len() == 0 {
        Seq::empty()
    } else if ts.len() == 1 {
        trait_debug(ts[0])
    } else {
        traits_joined(ts.drop_last()) + " + "@ + trait_debug(ts.last())
    }
}

/// ` + ` and the identity of each lifetime.
pub open spec fn lifetimes_appended(ls: Seq<LifetimeId>) -> Seq<char>
    decreases ls.len(),
{
    if ls.len() == 0 {
        Seq::empty()
    } else {
        lifetimes_appended(ls.drop_last()) + " + "@ + identity_debug(ls.last().id@)
    }
}

/// The debug forms of lifetime arguments, separated by `, `.
pub open spec fn lifetimes_joined(ls: Seq<(String, LifetimeId)>) -> Seq<char>
    decreases ls.len(),
{
    if ls.len() == 0 {
        Seq::empty()
    } else if ls.len() == 1 {
        identity_debug(ls[0].1.id@)
    } else {
        lifetimes_joined(ls.drop_last()) + ", "@ + identity_debug(ls.last().1.id@)
    }
}

/// The debug forms of type bindings `name=type`, separated by `, `.
pub open spec fn bindings_joined(bs: Seq<(String, TypeId)>) -> Seq<char>
    decreases bs,
{
    if bs.len() == 0 {
        Seq::empty()
    } else if bs.len() == 1 {
        bs[0].0@ + "="@ + type_debug(bs[0].1)
    } else {
        bindings_joined(bs.drop_last()) + ", "@ + bs.last().0@ + "="@ + type_debug(bs.last().1)
    }
}

/// The debug forms of const arguments, separated by `, `.
pub open spec fn consts_joined(cs: Seq<(String, ConstExpr)>) -> Seq<char>
    decreases cs.len(),
{
    if cs.len() == 0 {
        Seq::empty()
    } else if cs.len() == 1 {
        cs[0].1.0.text@
    } else {
        consts_joined(cs.drop_last()) + ", "@ + cs.last().1.0.text@
    }
}

/// The debug form of generic arguments: nothing where there are none; otherwise, between `<`
/// and `>`, the lifetimes and type bindings separated by `, `, then `; ` and the consts, if any.
pub closed spec fn params_debug(p: GenericParams) -> Seq<char>
    decreases p,
{
    let ls = p.lifetimes.entries@;
    let bs = p.type_bindings.entries@;
    let cs = p.consts.entries@;
    if ls.len() == 0 && bs.len() == 0 && cs.len() == 0 {
        Seq::empty()
    } else {
        "<"@ + lifetimes_joined(ls) + (if ls.len() > 0 && bs.len() > 0 {
            ", "@
        } else {
            Seq::<char>::empty()
        }) + bindings_joined(bs) + (if cs.len() > 0 {
            "; "@ + consts_joined(cs)
        } else {
            Seq::<char>::empty()
        }) + ">"@
    }
}

/// Appends the debug form of a type.
fn push_type_debug(out: &mut String, t: &TypeId)
    ensures
        final(out)@ == old(out)@ + type_debug(*t),
    decreases t,
{
    let ghost base = out@;
    match t {
        TypeId::Path(p) => {
            out.append(p.path.debug_string().as_str());
            push_params_debug(out, &p.params);
        },
        TypeId::Array(a) => {
            out.append("[");
            push_type_debug(out, &*a.type_);
            out.append("; ");
            out.append(a.len.0.text.as_str());
            out.append("]");
        },
        TypeId::Slice(sl) => {
            out.append("[");
            push_type_debug(out, &*sl.type_);
            out.append("]");
        },
        TypeId::Reference(r) => {
            out.append("&");
            if let Some(lt) = &r.lifetime {
                out.append(lt.id.debug_string().as_str());
                out.append(" ");
            }
            if r.mut_ {
                out.append("mut ");
            }
            push_type_debug(out, &*r.type_);
            proof {
                if !r.mut_ {
                    assert(out@ =~= base + type_debug(*t));
                }
            }
        },
        TypeId::Pointer(p) => {
            out.append("*");
            if p.mut_ {
                out.append("mut ");
            } else {
                out.append("const ");
            }
            push_type_debug(out, &*p.type_);
        },
        TypeId::Tuple(tu) => {
            out.append("(");
            push_types_joined(out, &tu.types);
            out.append(")");
        },
        TypeId::Never(_) => {
            out.append("!");
        },
        TypeId::QSelf(q) => {
            out.append("<");
            push_type_debug(out, &*q.self_);
            out.append(" as ");
            push_trait_debug(out, &q.trait_);
            out.append(">::");
            out.append(q.output_.as_str());
        },
        TypeId::BareFn(f) => {
            if f.unsafe_ {
                out.append("unsafe ");
            }
            out.append("fn(");
            push_types_joined(out, &f.args);
            if f.varargs {
                out.append(", ...");
            }
            out.append(") -> ");
            push_type_debug(out, &*f.ret);
            proof {
                assert(out@ =~= base + type_debug(*t));
            }
        },
        TypeId::ImplTrait(it) => {
            out.append("(impl ");
            push_traits_joined(out, &it.trait_bounds);
            push_lifetimes_appended(out, &it.lifetime_bounds);
            out.append(")");
        },
        TypeId::TraitObject(o) => {
            out.append("(dyn ");
            push_traits_joined(out, &o.trait_bounds);
            out.append(")");
        },
    }
}

/// Appends the debug forms of types, separated by `, `.
fn push_types_joined(out: &mut String, ts: &Vec<TypeId>)
    ensures
        final(out)@ == old(out)@ + types_joined(ts@),
    decreases ts,
{
    let ghost mid = out@;
    let mut i: usize = 0;
    proof {
        assert(ts@.take(0) =~= Seq::<TypeId>::empty());
    }
    while i < ts.len()
        invariant
            i <= ts.len(),
            out@ == mid + types_joined(ts@.take(i as int)),
        decreases ts.len() - i,
    {
        if i > 0 {
            out.append(", ");
        }
        proof {
            assert(decreases_to!(ts => ts@[i as int]));
        }
        push_type_debug(out, &ts[i]);
        proof {
            let tk = ts@.take(i + 1);
            assert(tk.drop_last() =~= ts@.take(i as int));
            assert(tk.last() == ts@[i as int]);
            if i == 0 {
                assert(tk[0] == ts@[0]);
            }
        }
        i = i + 1;
    }
    proof {
        assert(ts@.take(ts@.len() as int) =~= ts@);
    }
}

/// Appends the debug forms of traits, separated by ` + `.
fn push_traits_joined(out: &mut String, ts: &Vec<TraitId>)
    ensures
        final(out)@ == old(out)@ + traits_joined(ts@),
    decreases ts,
{
    let ghost mid = out@;
    let mut i: usize = 0;
    proof {
        assert(ts@.take(0) =~= Seq::<TraitId>::empty());
    }
    while i < ts.len()
        invariant
            i <= ts.len(),
            out@ == mid + traits_joined(ts@.take(i as int)),
        decreases ts.len() - i,
    {
        if i > 0 {
            out.append(" + ");
        }
        proof {
            assert(decreases_to!(ts => ts@[i as int]));
        }
        push_trait_debug(out, &ts[i]);
        proof {
            let tk = ts@.take(i + 1);
            assert(tk.drop_last() =~= ts@.take(i as int));
            assert(tk.last() == ts@[i as int]);
            if i == 0 {
                assert(tk[0] == ts@[0]);
            }
        }
        i = i + 1;
    }
    proof {
        assert(ts@.take(ts@.len() as int) =~= ts@);
    }
}

/// Appends ` + ` and the identity of each lifetime.
fn push_lifetimes_appended(out: &mut String, ls: &Vec<LifetimeId>)
    ensures
        final(out)@ == old(out)@ + lifetimes_appended(ls@),
{
    let ghost mid = out@;
    let mut j: usize = 0;
    proof {
        assert(ls@.take(0) =~= Seq::<LifetimeId>::empty());
    }
    while j < ls.len()
        invariant
            j <= ls.len(),
            out@ == mid + lifetimes_appended(ls@.take(j as int)),
        decreases ls.len() - j,
    {
        out.append(" + ");
        out.append(ls[j].id.debug_string().as_str());
        proof {
            let tk = ls@.take(j + 1);
            assert(tk.drop_last() =~= ls@.take(j as int));
            assert(tk.last() == ls@[j as int]);
        }
        j = j + 1;
    }
    proof {
        assert(ls@.take(ls@.len() as int) =~= ls@);
    }
}

/// Appends the debug form of a trait.
fn push_trait_debug(out: &mut String, tr: &TraitId)
    ensures
        final(out)@ == old(out)@ + trait_debug(*tr),
    decreases tr,
{
    let ghost base = out@;
    if tr.is_maybe {
        out.append("?");
    }
    out.append(tr.id.debug_string().as_str());
    push_params_debug(out, &tr.params);
    proof {
        if !tr.is_maybe {
            assert(out@ =~= base + trait_debug(*tr));
        }
    }
}

/// Appends the debug forms of lifetime arguments, separated by `, `.
fn push_lifetimes_joined(out: &mut String, ls: &Vec<(String, LifetimeId)>)
    ensures
        final(out)@ == old(out)@ + lifetimes_joined(ls@),
{
    let ghost m1 = out@;
    let mut i: usize = 0;
    proof {
        assert(ls@.take(0) =~= Seq::<(String, LifetimeId)>::empty());
    }
    while i < ls.len()
        invariant
            i <= ls.len(),
            out@ == m1 + lifetimes_joined(ls@.take(i as int)),
        decreases ls.len() - i,
    {
        if i > 0 {
            out.append(", ");
        }
        out.append(ls[i].1.id.debug_string().as_str());
        proof {
            let tk = ls@.take(i + 1);
            assert(tk.drop_last() =~= ls@.take(i as int));
            assert(tk.last() == ls@[i as int]);
            if i == 0 {
                assert(tk[0] == ls@[0]);
            }
        }
        i = i + 1;
    }
    proof {
        assert(ls@.take(ls@.len() as int) =~= ls@);
    }
}

/// Appends the debug forms of type bindings, separated by `, `.
fn push_bindings_joined(out: &mut String, bs: &Vec<(String, TypeId)>)
    ensures
        final(out)@ == old(out)@ + bindings_joined(bs@),
    decreases bs,
{
    let ghost m2 = out@;
    let mut j: usize = 0;
    proof {
        assert(bs@.take(0) =~= Seq::<(String, TypeId)>::empty());
    }
    while j < bs.len()
        invariant
            j <= bs.len(),
            out@ == m2 + bindings_joined(bs@.take(j as int)),
        decreases bs.len() - j,
    {
        if j > 0 {
            out.append(", ");
        }
        out.append(bs[j].0.as_str());
        out.append("=");
        proof {
            assert(decreases_to!(bs => bs@[j as int].1));
        }
        push_type_debug(out, &bs[j].1);
        proof {
            let tk = bs@.take(j + 1);
            assert(tk.drop_last() =~= bs@.take(j as int));
            assert(tk.last() == bs@[j as int]);
            if j == 0 {
                assert(tk[0] == bs@[0]);
            }
        }
        j = j + 1;
    }
    proof {
        assert(bs@.take(bs@.len() as int) =~= bs@);
    }
}

/// Appends the debug forms of const arguments, separated by `, `.
fn push_consts_joined(out: &mut String, cs: &Vec<(String, ConstExpr)>)
    ensures
        final(out)@ == old(out)@ + consts_joined(cs@),
{
    let ghost m3 = out@;
    let mut k: usize = 0;
    proof {
        assert(cs@.take(0) =~= Seq::<(String, ConstExpr)>::empty());
    }
    while k < cs.len()
        invariant
            k <= cs.len(),
            out@ == m3 + consts_joined(cs@.take(k as int)),
        decreases cs.len() - k,
    {
        if k > 0 {
            out.append(", ");
        }
        out.append(cs[k].1.0.text.as_str());
        proof {
            let tk = cs@.take(k + 1);
            assert(tk.drop_last() =~= cs@.take(k as int));
            assert(tk.last() == cs@[k as int]);
            if k == 0 {
                assert(tk[0] == cs@[0]);
            }
        }
        k = k + 1;
    }
    proof {
        assert(cs@.take(cs@.len() as int) =~= cs@);
    }
}

/// Appends the debug form of generic arguments.
fn push_params_debug(out: &mut String, p: &GenericParams)
    ensures
        final(out)@ == old(out)@ + params_debug(*p),
    decreases p,
{
    let ghost base = out@;
    let ls = &p.lifetimes.entries;
    let bs = &p.type_bindings.entries;
    let cs = &p.consts.entries;
    if ls.len() == 0 && bs.len() == 0 && cs.len() == 0 {
        proof {
            assert(out@ =~= base + params_debug(*p));
        }
        return;
    }
    out.append("<");
    push_lifetimes_joined(out, ls);
    if ls.len() > 0 && bs.len() > 0 {
        out.append(", ");
    }
    proof {
        assert(decreases_to!(*p => p.type_bindings.entries));
    }
    push_bindings_joined(out, bs);
    if cs.len() > 0 {
        out.append("; ");
        push_consts_joined(out, cs);
    }
    out.append(">");
    proof {
        assert(out@ =~= base + params_debug(*p));
    }
}

impl TypeId {
    /// The debug form of the type, as it would be written in Rust.
    pub fn debug_string(&self) -> (r: String)
        ensures
            r@ == type_debug(*self),
    {
        let mut out = String::new();
        push_type_debug(&mut out, self);
        proof {
            assert(out@ =~= type_debug(*self));
        }
        out
    }
}

impl LifetimeId {
    /// The debug form of the lifetime: its identity.
    pub fn debug_string(&self) -> (r: String)
        ensures
            r@ == identity_debug(self.id@),
    {
        self.id.debug_string()
    }
}

impl TraitId {
    /// The debug form of the trait.
    pub fn debug_string(&self) -> (r: String)
        ensures
            r@ == trait_debug(*self),
    {
        let mut out = String::new();
        push_trait_debug(&mut out, self);
        proof {
            assert(out@ =~= trait_debug(*self));
        }
        out
    }
}

impl GenericParams {
    /// The debug form of the arguments.
    pub fn debug_string(&self) -> (r: String)
        ensures
            r@ == params_debug(*self),
    {
        let mut out = String::new();
        push_params_debug(&mut out, self);
        proof {
            assert(out@ =~= params_debug(*self));
        }
        out
    }
}

} // verus!
