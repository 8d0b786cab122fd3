use mimas::annotation::{from_annotation, Annotation, AnnotationList, Prim, Scope, TyError, TyModel, Tys};

fn bx(a: Annotation) -> Box<Annotation> {
    Box::new(a)
}

fn name(n: &str) -> Annotation {
    Annotation::Name(n.to_string())
}

fn list(v: Vec<Annotation>) -> AnnotationList {
    v.into_iter().rev().fold(AnnotationList::Nil, |rest, a| AnnotationList::Cons(Box::new(a), Box::new(rest)))
}

/// `fn f<T>` inside a program declaring `Pair<A, B>`, `Interval` and a type named `m`.
fn scope() -> Scope {
    Scope {
        params: vec!["T".to_string()],
        types: vec![("Pair".to_string(), 2), ("Interval".to_string(), 0), ("m".to_string(), 0)],
    }
}

#[test]
fn keywords_and_brackets() {
    let s = scope();
    let t = from_annotation(&Annotation::Array(bx(Annotation::Option(bx(Annotation::Kw(Prim::Int))))), &s).unwrap();
    assert!(matches!(t, TyModel::Array(inner) if matches!(*inner, TyModel::Option(ref x) if matches!(**x, TyModel::Int))));
    let f = Annotation::Function(list(vec![Annotation::Kw(Prim::Str)]), bx(Annotation::Unit));
    assert!(matches!(from_annotation(&f, &s).unwrap(), TyModel::Fn(Tys::Cons(..), r) if matches!(*r, TyModel::Unit)));
}

#[test]
fn params_win_units_are_floats_declared_types_shadow_units() {
    let s = scope();
    assert!(matches!(from_annotation(&name("T"), &s).unwrap(), TyModel::Param(0)));
    assert!(matches!(from_annotation(&name("kW"), &s).unwrap(), TyModel::Float));
    // the program's own `m` wins over the metre
    assert!(matches!(from_annotation(&name("m"), &s).unwrap(), TyModel::Adt(2, Tys::Nil)));
    assert_eq!(from_annotation(&name("Nope"), &s).unwrap_err(), TyError::UnknownType("Nope".to_string()));
}

#[test]
fn applied_types_need_their_arity() {
    let s = scope();
    let ok = Annotation::Applied("Pair".to_string(), list(vec![Annotation::Kw(Prim::Int), Annotation::Kw(Prim::Str)]));
    assert!(matches!(from_annotation(&ok, &s).unwrap(), TyModel::Adt(0, Tys::Cons(..))));
    let short = Annotation::Applied("Pair".to_string(), list(vec![Annotation::Kw(Prim::Int)]));
    assert_eq!(
        from_annotation(&short, &s).unwrap_err(),
        TyError::GenericArity("Pair".to_string(), 2, 1)
    );
    // the older unit spelling on a non-generic type
    let iv = Annotation::Applied("Interval".to_string(), list(vec![name("kW")]));
    assert!(matches!(from_annotation(&iv, &s).unwrap(), TyModel::Adt(1, Tys::Nil)));
    let bad = Annotation::Applied("Interval".to_string(), list(vec![Annotation::Kw(Prim::Int)]));
    assert_eq!(from_annotation(&bad, &s).unwrap_err(), TyError::NotGeneric("Interval".to_string()));
    let not_a_type = Annotation::Applied("T".to_string(), list(vec![Annotation::Kw(Prim::Int)]));
    assert_eq!(from_annotation(&not_a_type, &s).unwrap_err(), TyError::NotGeneric("T".to_string()));
}

#[test]
fn compound_units_name_known_units() {
    let s = scope();
    let q = Annotation::Quantity(vec!["usd".to_string(), "kWh".to_string()]);
    assert!(matches!(from_annotation(&q, &s).unwrap(), TyModel::Float));
    let q = Annotation::Quantity(vec!["usd".to_string(), "quux".to_string()]);
    assert_eq!(from_annotation(&q, &s).unwrap_err(), TyError::UnknownUnit("quux".to_string()));
}
