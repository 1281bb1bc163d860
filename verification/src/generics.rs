//! Lowering the generics of a declaration: its parameters and the bounds on them, from its
//! parameter list and its `where` clause.
//!
//! Types and type bounds are lowered elsewhere; here each one arrives as the result of lowering
//! it, and the first failure, in the order of the declaration, is the result.

use crate::attributes::Tokens;
use crate::identities::Ident;
use crate::lower::LowerError;
use crate::types::ConstExpr;
use vstd::prelude::*;

verus! {

/// A lifetime, by its name.
#[derive(Debug, Clone, PartialEq, Eq)]
pub struct Lifetime(pub Ident);

/// The lifetimes that a lifetime outlives.
#[derive(Debug, Clone)]
pub struct LifetimeBounds {
    pub lifetimes: Vec<Lifetime>,
}

/// A type parameter, with its default.
pub struct TypeParameter<T> {
    pub name: Ident,
    pub default: Option<T>,
}

/// A const parameter: its name, its type and its default.
pub struct ConstParameter<T> {
    pub name: Ident,
    pub type_: T,
    pub default: Option<ConstExpr>,
}

/// The type that a bound constrains: a parameter of the declaration, or a written type.
pub enum BoundedType<T> {
    Param(Ident),
    Type(T),
}

/// One generic parameter as written, its types already lowered.
pub enum GenericParamSyntax<T, B> {
    /// `T: bounds = default`; `bounds` is absent where none are written.
    Type { name: Ident, default: Option<Result<T, LowerError>>, bounds: Option<Result<B, LowerError>> },
    /// `'a: 'b + 'c`.
    Lifetime { lifetime: Lifetime, bounds: Vec<Lifetime> },
    /// `const N: type = default`.
    Const { name: Ident, type_: Result<T, LowerError>, default: Option<Tokens> },
}

/// One predicate of a `where` clause as written, its types already lowered.
pub enum WherePredicateSyntax<T, B> {
    /// `'a: 'b + 'c`.
    Lifetime { lifetime: Lifetime, bounds: Vec<Lifetime> },
    /// `for<'a> T: bounds`; `for_lifetimes` says whether the `for<..>` is there.
    Type { tokens: Tokens, for_lifetimes: bool, bounded: Result<T, LowerError>, bounds: Result<B, LowerError> },
    /// Any other predicate, such as `T = U`.
    Other { tokens: Tokens },
}

/// The generics of a declaration: its parameters of each kind, and the bounds on types and
/// lifetimes, each in the order written.
pub struct Generics<T, B> {
    pub type_params: Vec<TypeParameter<T>>,
    pub lifetime_params: Vec<Lifetime>,
    pub const_params: Vec<ConstParameter<T>>,
    pub type_bounds: Vec<(BoundedType<T>, B)>,
    pub lifetime_bounds: Vec<(Lifetime, LifetimeBounds)>,
}

/// The contents of `Generics`.
pub struct GenericsView<T, B> {
    pub type_params: Seq<TypeParameter<T>>,
    pub lifetime_params: Seq<Lifetime>,
    pub const_params: Seq<ConstParameter<T>>,
    pub type_bounds: Seq<(BoundedType<T>, B)>,
    pub lifetime_bounds: Seq<(Lifetime, LifetimeBounds)>,
}

impl<T, B> View for Generics<T, B> {
    type V = GenericsView<T, B>;

    open spec fn view(&self) -> GenericsView<T, B> {
        GenericsView {
            type_params: self.type_params@,
            lifetime_params: self.lifetime_params@,
            const_params: self.const_params@,
            type_bounds: self.type_bounds@,
            lifetime_bounds: self.lifetime_bounds@,
        }
    }
}

/// No parameters and no bounds.
pub open spec fn no_generics<T, B>() -> GenericsView<T, B> {
    GenericsView {
        type_params: Seq::empty(),
        lifetime_params: Seq::empty(),
        const_params: Seq::empty(),
        type_bounds: Seq::empty(),
        lifetime_bounds: Seq::empty(),
    }
}

/// Add one parameter: its default is lowered before its bounds.
pub open spec fn add_param<T, B>(g: GenericsView<T, B>, p: GenericParamSyntax<T, B>) -> Result<GenericsView<T, B>, LowerError> {
    match p {
        GenericParamSyntax::Type { name, default, bounds } => match default {
            Some(Err(e)) => Err(e),
            _ => {
                let param = TypeParameter {
                    name,
                    default: match default {
                        Some(Ok(t)) => Some(t),
                        _ => None,
                    },
                };
                let g1 = GenericsView { type_params: g.type_params.push(param), ..g };
                match bounds {
                    None => Ok(g1),
                    Some(Err(e)) => Err(e),
                    Some(Ok(b)) => Ok(GenericsView { type_bounds: g1.type_bounds.push((BoundedType::Param(name), b)), ..g1 }),
                }
            },
        },
        GenericParamSyntax::Lifetime { lifetime, bounds } => {
            let g1 = GenericsView { lifetime_params: g.lifetime_params.push(lifetime), ..g };
            if bounds@.len() == 0 {
                Ok(g1)
            } else {
                Ok(GenericsView { lifetime_bounds: g1.lifetime_bounds.push((lifetime, LifetimeBounds { lifetimes: bounds })), ..g1 })
            }
        },
        GenericParamSyntax::Const { name, type_, default } => match type_ {
            Err(e) => Err(e),
            Ok(t) => Ok(GenericsView {
                const_params: g.const_params.push(ConstParameter {
                    name,
                    type_: t,
                    default: match default {
                        Some(tokens) => Some(ConstExpr(tokens)),
                        None => None,
                    },
                }),
                ..g
            }),
        },
    }
}

/// Add one `where` predicate: a `for<..>` is refused before anything is lowered, and the
/// bounded type is lowered before its bounds.
pub open spec fn add_predicate<T, B>(g: GenericsView<T, B>, p: WherePredicateSyntax<T, B>) -> Result<GenericsView<T, B>, LowerError> {
    match p {
        WherePredicateSyntax::Lifetime { lifetime, bounds } => Ok(
            GenericsView { lifetime_bounds: g.lifetime_bounds.push((lifetime, LifetimeBounds { lifetimes: bounds })), ..g },
        ),
        WherePredicateSyntax::Type { tokens, for_lifetimes, bounded, bounds } => if for_lifetimes {
            Err(LowerError::NoHRTBsYet(tokens))
        } else {
            match bounded {
                Err(e) => Err(e),
                Ok(t) => match bounds {
                    Err(e) => Err(e),
                    Ok(b) => Ok(GenericsView { type_bounds: g.type_bounds.push((BoundedType::Type(t), b)), ..g }),
                },
            }
        },
        WherePredicateSyntax::Other { tokens } => Err(LowerError::MalformedPredicate(tokens)),
    }
}

/// The parameters, added in order, stopping at the first failure.
pub open spec fn params_lowered<T, B>(params: Seq<GenericParamSyntax<T, B>>) -> Result<GenericsView<T, B>, LowerError>
    decreases params.len(),
{
    if params.len() == 0 {
        Ok(no_generics())
    } else {
        match params_lowered(params.drop_last()) {
            Err(e) => Err(e),
            Ok(g) => add_param(g, params.last()),
        }
    }
}

/// The predicates, added in order to `start`, stopping at the first failure.
pub open spec fn predicates_lowered<T, B>(start: Result<GenericsView<T, B>, LowerError>, preds: Seq<WherePredicateSyntax<T, B>>) -> Result<GenericsView<T, B>, LowerError>
    decreases preds.len(),
{
    if preds.len() == 0 {
        start
    } else {
        match predicates_lowered(start, preds.drop_last()) {
            Err(e) => Err(e),
            Ok(g) => add_predicate(g, preds.last()),
        }
    }
}

/// The generics of a declaration: the parameters first, then the `where` clause.
pub open spec fn generics_lowered<T, B>(params: Seq<GenericParamSyntax<T, B>>, preds: Seq<WherePredicateSyntax<T, B>>) -> Result<GenericsView<T, B>, LowerError> {
    predicates_lowered(params_lowered(params), preds)
}

/// The view of a lowering result.
pub open spec fn result_view<T, B>(r: Result<Generics<T, B>, LowerError>) -> Result<GenericsView<T, B>, LowerError> {
    match r {
        Ok(g) => Ok(g@),
        Err(e) => Err(e),
    }
}

/// Lower the generics on a declaration to a clean set of definitions and bounds: parameters in
/// the order written, the bounds written on parameters, then those of the `where` clause
/// (`where_clause` is empty where there is none).
pub fn lower_generics<T, B>(params: Vec<GenericParamSyntax<T, B>>, where_clause: Vec<WherePredicateSyntax<T, B>>) -> (r: Result<Generics<T, B>, LowerError>)
    ensures
        result_view(r) == generics_lowered(params@, where_clause@),
{
    let ghost all_params = params@;
    let ghost all_preds = where_clause@;
    let n_params = params.len();
    let n_preds = where_clause.len();
    let mut rest = params;
    let mut rest_preds = where_clause;
    let mut g = Generics {
        type_params: Vec::new(),
        lifetime_params: Vec::new(),
        const_params: Vec::new(),
        type_bounds: Vec::new(),
        lifetime_bounds: Vec::new(),
    };
    proof {
        assert(g@ =~= no_generics::<T, B>());
        assert(all_params.take(0) =~= Seq::<GenericParamSyntax<T, B>>::empty());
        assert(rest@ =~= all_params.skip(0));
    }
    let mut k: usize = 0;
    while rest.len() > 0
        invariant
            all_params == params@,
            all_preds == where_clause@,
            k <= all_params.len(),
            all_params.len() == n_params,
            rest@ == all_params.skip(k as int),
            params_lowered(all_params.take(k as int)) == Ok::<GenericsView<T, B>, LowerError>(g@),
        decreases rest.len(),
    {
        let p = rest.remove(0);
        proof {
            assert(p == all_params[k as int]);
            assert(all_params.take(k + 1).drop_last() =~= all_params.take(k as int));
            assert(all_params.take(k + 1).last() == p);
            assert(rest@ =~= all_params.skip(k + 1));
        }
        let ghost before = g@;
        match p {
            GenericParamSyntax::Type { name, default, bounds } => {
                let default = match default {
                    Some(Err(e)) => {
                        proof {
                            lemma_params_error_stays(all_params, k as int + 1);
                            lemma_predicates_error_stays(params_lowered(all_params), all_preds);
                        }
                        return Err(e);
                    },
                    Some(Ok(t)) => Some(t),
                    None => None,
                };
                let bounded_name = name.clone();
                g.type_params.push(TypeParameter { name, default });
                match bounds {
                    None => {},
                    Some(Err(e)) => {
                        proof {
                            lemma_params_error_stays(all_params, k as int + 1);
                            lemma_predicates_error_stays(params_lowered(all_params), all_preds);
                        }
                        return Err(e);
                    },
                    Some(Ok(b)) => {
                        g.type_bounds.push((BoundedType::Param(bounded_name), b));
                    },
                }
            },
            GenericParamSyntax::Lifetime { lifetime, bounds } => {
                let bound_lifetime = Lifetime(lifetime.0.clone());
                g.lifetime_params.push(lifetime);
                if bounds.len() > 0 {
                    g.lifetime_bounds.push((bound_lifetime, LifetimeBounds { lifetimes: bounds }));
                }
            },
            GenericParamSyntax::Const { name, type_, default } => {
                match type_ {
                    Err(e) => {
                        proof {
                            lemma_params_error_stays(all_params, k as int + 1);
                            lemma_predicates_error_stays(params_lowered(all_params), all_preds);
                        }
                        return Err(e);
                    },
                    Ok(t) => {
                        let default = match default {
                            Some(tokens) => Some(ConstExpr(tokens)),
                            None => None,
                        };
                        g.const_params.push(ConstParameter { name, type_: t, default });
                    },
                }
            },
        }
        proof {
            assert(Ok::<GenericsView<T, B>, LowerError>(g@) == add_param(before, all_params[k as int]));
        }
        k = k + 1;
    }
    proof {
        assert(all_params.take(k as int) =~= all_params);
        assert(all_preds.take(0) =~= Seq::<WherePredicateSyntax<T, B>>::empty());
        assert(rest_preds@ =~= all_preds.skip(0));
    }
    let mut j: usize = 0;
    while rest_preds.len() > 0
        invariant
            all_params == params@,
            all_preds == where_clause@,
            j <= all_preds.len(),
            all_preds.len() == n_preds,
            rest_preds@ == all_preds.skip(j as int),
            predicates_lowered(params_lowered(all_params), all_preds.take(j as int)) == Ok::<GenericsView<T, B>, LowerError>(g@),
        decreases rest_preds.len(),
    {
        let p = rest_preds.remove(0);
        proof {
            assert(p == all_preds[j as int]);
            assert(all_preds.take(j + 1).drop_last() =~= all_preds.take(j as int));
            assert(all_preds.take(j + 1).last() == p);
            assert(rest_preds@ =~= all_preds.skip(j + 1));
        }
        let ghost before = g@;
        match p {
            WherePredicateSyntax::Lifetime { lifetime, bounds } => {
                g.lifetime_bounds.push((lifetime, LifetimeBounds { lifetimes: bounds }));
            },
            WherePredicateSyntax::Type { tokens, for_lifetimes, bounded, bounds } => {
                if for_lifetimes {
                    let r = Err(LowerError::NoHRTBsYet(tokens));
                    proof {
                        lemma_predicates_rest_error(params_lowered(all_params), all_preds, j as int + 1);
                    }
                    return r;
                }
                match bounded {
                    Err(e) => {
                        proof {
                            lemma_predicates_rest_error(params_lowered(all_params), all_preds, j as int + 1);
                        }
                        return Err(e);
                    },
                    Ok(t) => match bounds {
                        Err(e) => {
                            proof {
                                lemma_predicates_rest_error(params_lowered(all_params), all_preds, j as int + 1);
                            }
                            return Err(e);
                        },
                        Ok(b) => {
                            g.type_bounds.push((BoundedType::Type(t), b));
                        },
                    },
                }
            },
            WherePredicateSyntax::Other { tokens } => {
                proof {
                    lemma_predicates_rest_error(params_lowered(all_params), all_preds, j as int + 1);
                }
                return Err(LowerError::MalformedPredicate(tokens));
            },
        }
        proof {
            assert(Ok::<GenericsView<T, B>, LowerError>(g@) == add_predicate(before, all_preds[j as int]));
        }
        j = j + 1;
    }
    proof {
        assert(all_preds.take(j as int) =~= all_preds);
    }
    Ok(g)
}

/// Once lowering the first `k` parameters fails, lowering all of them fails the same way.
proof fn lemma_params_error_stays<T, B>(params: Seq<GenericParamSyntax<T, B>>, k: int)
    requires
        0 <= k <= params.len(),
        params_lowered(params.take(k)) is Err,
    ensures
        params_lowered(params) == params_lowered(params.take(k)),
    decreases params.len() - k,
{
    if k < params.len() {
        assert(params.take(k + 1).drop_last() =~= params.take(k));
        lemma_params_error_stays(params, k + 1);
    } else {
        assert(params.take(k) =~= params);
    }
}

/// A failure before the `where` clause is the result.
proof fn lemma_predicates_error_stays<T, B>(start: Result<GenericsView<T, B>, LowerError>, preds: Seq<WherePredicateSyntax<T, B>>)
    requires
        start is Err,
    ensures
        predicates_lowered(start, preds) == start,
    decreases preds.len(),
{
    if preds.len() > 0 {
        lemma_predicates_error_stays(start, preds.drop_last());
    }
}

/// Once lowering the first `k` predicates fails, lowering all of them fails the same way.
proof fn lemma_predicates_rest_error<T, B>(start: Result<GenericsView<T, B>, LowerError>, preds: Seq<WherePredicateSyntax<T, B>>, k: int)
    requires
        0 <= k <= preds.len(),
        predicates_lowered(start, preds.take(k)) is Err,
    ensures
        predicates_lowered(start, preds) == predicates_lowered(start, preds.take(k)),
    decreases preds.len() - k,
{
    if k < preds.len() {
        assert(preds.take(k + 1).drop_last() =~= preds.take(k));
        lemma_predicates_rest_error(start, preds, k + 1);
    } else {
        assert(preds.take(k) =~= preds);
    }
}

} // verus!
