use tendon::attributes::Tokens;
use tendon::generics::{
    lower_generics, BoundedType, GenericParamSyntax, Lifetime, WherePredicateSyntax,
};
use tendon::lower::LowerError;

type Param = GenericParamSyntax<String, Vec<String>>;
type Pred = WherePredicateSyntax<String, Vec<String>>;

fn lt(name: &str) -> Lifetime {
    Lifetime(name.to_string())
}

fn tok(s: &str) -> Tokens {
    Tokens { text: s.to_string() }
}

fn ty(s: &str) -> Result<String, LowerError> {
    Ok(s.to_string())
}

fn bounds(bs: &[&str]) -> Result<Vec<String>, LowerError> {
    Ok(bs.iter().map(|b| b.to_string()).collect())
}

fn type_param(name: &str, default: Option<&str>, bs: &[&str]) -> Param {
    GenericParamSyntax::Type {
        name: name.to_string(),
        default: default.map(ty),
        bounds: if bs.is_empty() { None } else { Some(bounds(bs)) },
    }
}

fn type_pred(text: &str, bounded: &str, bs: &[&str]) -> Pred {
    WherePredicateSyntax::Type { tokens: tok(text), for_lifetimes: false, bounded: ty(bounded), bounds: bounds(bs) }
}

/// `type T<'a: 'b, 'b, 'c, T, S: Copy, V=U, const WIDTH: usize = 3, const HEIGHT: usize>
///     where 'b: 'c, T: Q, F: M<T>, S: Clone = !;`
#[test]
fn generics() {
    let params: Vec<Param> = vec![
        GenericParamSyntax::Lifetime { lifetime: lt("a"), bounds: vec![lt("b")] },
        GenericParamSyntax::Lifetime { lifetime: lt("b"), bounds: vec![] },
        GenericParamSyntax::Lifetime { lifetime: lt("c"), bounds: vec![] },
        type_param("T", None, &[]),
        type_param("S", None, &["Copy"]),
        type_param("V", Some("U"), &[]),
        GenericParamSyntax::Const { name: "WIDTH".to_string(), type_: ty("usize"), default: Some(tok("3")) },
        GenericParamSyntax::Const { name: "HEIGHT".to_string(), type_: ty("usize"), default: None },
    ];
    let preds: Vec<Pred> = vec![
        WherePredicateSyntax::Lifetime { lifetime: lt("b"), bounds: vec![lt("c")] },
        type_pred("T: Q", "T", &["Q"]),
        type_pred("F: M<T>", "F", &["M<T>"]),
        type_pred("S: Clone", "S", &["Clone"]),
    ];
    let generics = lower_generics(params, preds).unwrap();
    assert_eq!(generics.type_params.len(), 3);
    assert_eq!(generics.lifetime_params.len(), 3);
    assert_eq!(generics.const_params.len(), 2);
    assert_eq!(generics.lifetime_bounds.len(), 2);
    assert_eq!(generics.type_bounds.len(), 4);
    assert!(generics.type_params[2].default.is_some());
    assert!(generics.const_params[0].default.is_some());
}

#[test]
fn generics_keep_their_order() {
    let params: Vec<Param> = vec![type_param("S", None, &["Copy"]), type_param("V", Some("U"), &[])];
    let preds: Vec<Pred> = vec![type_pred("T: Q", "T", &["Q"])];
    let g = lower_generics(params, preds).unwrap();
    assert_eq!(g.type_params[0].name, "S");
    assert_eq!(g.type_params[0].default, None);
    assert_eq!(g.type_params[1].default, Some("U".to_string()));
    assert!(matches!(&g.type_bounds[0], (BoundedType::Param(name), b) if name == "S" && b == &vec!["Copy".to_string()]));
    assert!(matches!(&g.type_bounds[1], (BoundedType::Type(t), b) if t == "T" && b == &vec!["Q".to_string()]));
    assert!(lower_generics::<String, Vec<String>>(vec![], vec![]).unwrap().type_params.is_empty());
}

#[test]
fn higher_ranked_bounds_are_refused() {
    let preds: Vec<Pred> = vec![WherePredicateSyntax::Type {
        tokens: tok("for<'a> F: Fn(&'a u8)"),
        for_lifetimes: true,
        bounded: ty("F"),
        bounds: bounds(&["Fn(&'a u8)"]),
    }];
    assert_eq!(lower_generics(vec![], preds).err(), Some(LowerError::NoHRTBsYet(tok("for<'a> F: Fn(&'a u8)"))));
}

#[test]
fn equality_predicates_are_refused() {
    let preds: Vec<Pred> = vec![
        type_pred("T: Q", "T", &["Q"]),
        WherePredicateSyntax::Other { tokens: tok("T = U") },
    ];
    assert_eq!(lower_generics(vec![], preds).err(), Some(LowerError::MalformedPredicate(tok("T = U"))));
}

#[test]
fn the_first_type_that_fails_to_lower_is_the_error() {
    let params: Vec<Param> = vec![
        GenericParamSyntax::Type { name: "T".to_string(), default: Some(Err(LowerError::UnhandledType(tok("impl A")))), bounds: None },
        GenericParamSyntax::Const { name: "N".to_string(), type_: Err(LowerError::TypePositionMacro), default: None },
    ];
    assert_eq!(lower_generics(params, vec![]).err(), Some(LowerError::UnhandledType(tok("impl A"))));
    let params: Vec<Param> = vec![type_param("T", None, &[])];
    let preds: Vec<Pred> = vec![WherePredicateSyntax::Other { tokens: tok("T = U") }];
    let failing: Vec<Param> = vec![GenericParamSyntax::Const { name: "N".to_string(), type_: Err(LowerError::TypePositionMacro), default: None }];
    assert_eq!(lower_generics(failing, preds).err(), Some(LowerError::TypePositionMacro));
    assert!(lower_generics(params, vec![]).is_ok());
}
