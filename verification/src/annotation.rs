//! Reading a type annotation against the names in scope: keywords and brackets map to
//! their types, a declared type parameter wins over everything, a unit written where a
//! type goes (`kW`, `usd`) is a float unless the program declares a type by that name, and
//! a generic type applied to arguments must get as many as it declares (a non-generic type
//! takes `<...>` only as the older spelling of a unit, every argument a unit).

use vstd::prelude::*;
use crate::units::{lookup_dim, unit_spec};
use crate::text::same_text;
use vstd::string::StringSliceAdditionalSpecFns;
use vstd::utf8::encode_utf8;

verus! {

/// The keyword types.
#[derive(Debug, Clone, Copy, PartialEq, Eq)]
pub enum Prim {
    Int,
    Float,
    Str,
    Bool,
}

/// A type annotation as written.
#[derive(Debug)]
pub enum Annotation {
    /// `()`.
    Unit,
    /// `int`, `float`, `str`, `bool`.
    Kw(Prim),
    /// `T?`.
    Option(Box<Annotation>),
    /// `T!`.
    Result(Box<Annotation>),
    /// `[T]`.
    Array(Box<Annotation>),
    /// `{T}`.
    Dict(Box<Annotation>),
    /// `fn(params) -> ret`.
    Function(AnnotationList, Box<Annotation>),
    /// `(a, b, ...)`.
    Tuple(AnnotationList),
    /// A name: a type parameter, a declared type, or a unit.
    Name(String),
    /// `Name<args>`.
    Applied(String, AnnotationList),
    /// A compound unit such as `usd/kWh`, by the unit names it uses.
    Quantity(Vec<String>),
}

/// A list of annotations.
#[derive(Debug)]
pub enum AnnotationList {
    Nil,
    Cons(Box<Annotation>, Box<AnnotationList>),
}

/// A type the annotation stands for.
#[derive(Debug)]
pub enum TyModel {
    Unit,
    Int,
    Float,
    Str,
    Bool,
    Option(Box<TyModel>),
    Result(Box<TyModel>),
    Array(Box<TyModel>),
    Dict(Box<TyModel>),
    Fn(Tys, Box<TyModel>),
    Tuple(Tys),
    /// The type parameter in this place of the scope's list.
    Param(usize),
    /// The declared type in this place of the scope's list, applied to its arguments.
    Adt(usize, Tys),
}

/// A list of types.
#[derive(Debug)]
pub enum Tys {
    Nil,
    Cons(Box<TyModel>, Box<Tys>),
}

/// The names in scope: the type parameters, and the declared types with the number of
/// type parameters each declares.
#[derive(Debug)]
pub struct Scope {
    pub params: Vec<String>,
    pub types: Vec<(String, usize)>,
}

/// Why an annotation is refused.
#[derive(Debug, PartialEq, Eq)]
pub enum TyError {
    /// A name that is no type in scope and no unit.
    UnknownType(String),
    /// `<...>` on a type that takes no arguments, or on something that is no type.
    NotGeneric(String),
    /// A generic type with the wrong number of arguments: its name, the number it
    /// declares, the number given (`usize::MAX` for more).
    GenericArity(String, usize, usize),
    /// A unit name no unit has.
    UnknownUnit(String),
}

/// What the contracts see of a refusal.
pub enum TyFault {
    UnknownType(Seq<char>),
    NotGeneric(Seq<char>),
    GenericArity(Seq<char>, nat, nat),
    UnknownUnit(Seq<char>),
}

pub open spec fn ty_fault(e: TyError) -> TyFault {
    match e {
        TyError::UnknownType(n) => TyFault::UnknownType(n@),
        TyError::NotGeneric(n) => TyFault::NotGeneric(n@),
        TyError::GenericArity(n, a, b) => TyFault::GenericArity(n@, a as nat, b as nat),
        TyError::UnknownUnit(n) => TyFault::UnknownUnit(n@),
    }
}

pub open spec fn ty_result_view(r: Result<TyModel, TyError>) -> Result<TyModel, TyFault> {
    match r {
        Ok(t) => Ok(t),
        Err(e) => Err(ty_fault(e)),
    }
}

pub open spec fn tys_result_view(r: Result<Tys, TyError>) -> Result<Tys, TyFault> {
    match r {
        Ok(t) => Ok(t),
        Err(e) => Err(ty_fault(e)),
    }
}

/// The first place in `names` that holds `n`.
pub open spec fn index_of(names: Seq<Seq<char>>, n: Seq<char>, k: int) -> Option<int>
    decreases names.len() - k,
{
    if k < 0 || k >= names.len() {
        None
    } else if names[k] == n {
        Some(k)
    } else {
        index_of(names, n, k + 1)
    }
}

/// The scope's type parameter names.
pub open spec fn param_names(s: Scope) -> Seq<Seq<char>> {
    s.params@.map_values(|p: String| p@)
}

/// The scope's declared type names.
pub open spec fn type_names(s: Scope) -> Seq<Seq<char>> {
    s.types@.map_values(|t: (String, usize)| t.0@)
}

/// `n` is a unit the program does not shadow with a type of its own.
pub open spec fn is_free_unit(s: Scope, n: Seq<char>) -> bool {
    index_of(type_names(s), n, 0) is None && unit_spec(encode_utf8(n)) is Some
}

/// The type a bare name stands for.
pub open spec fn name_spec(s: Scope, n: Seq<char>) -> Result<TyModel, TyFault> {
    match index_of(param_names(s), n, 0) {
        Some(k) => Ok(TyModel::Param(k as usize)),
        None => if is_free_unit(s, n) {
            Ok(TyModel::Float)
        } else {
            match index_of(type_names(s), n, 0) {
                Some(k) => Ok(TyModel::Adt(k as usize, Tys::Nil)),
                None => Err(TyFault::UnknownType(n)),
            }
        },
    }
}

/// The number of annotations in a list.
pub open spec fn anns_len(l: AnnotationList) -> nat
    decreases l,
{
    match l {
        AnnotationList::Nil => 0,
        AnnotationList::Cons(_, rest) => 1 + anns_len(*rest),
    }
}

/// `a` is a unit written as a name, or a compound unit.
pub open spec fn unit_ann(s: Scope, a: Annotation) -> bool {
    match a {
        Annotation::Name(n) => is_free_unit(s, n@),
        Annotation::Quantity(_) => true,
        _ => false,
    }
}

/// Every annotation of the list is a unit written as a name or a compound unit.
pub open spec fn all_units(s: Scope, l: AnnotationList) -> bool
    decreases l,
{
    match l {
        AnnotationList::Nil => true,
        AnnotationList::Cons(a, rest) => unit_ann(s, *a) && all_units(s, *rest),
    }
}

/// The first unit name of `us` no unit has.
pub open spec fn unknown_unit(us: Seq<String>, k: int) -> Option<Seq<char>>
    decreases us.len() - k,
{
    if k < 0 || k >= us.len() {
        None
    } else if unit_spec(encode_utf8(us[k]@)) is None {
        Some(us[k]@)
    } else {
        unknown_unit(us, k + 1)
    }
}

/// The type `a` stands for in scope `s`, or the first refusal met.
pub open spec fn ann_spec(a: Annotation, s: Scope) -> Result<TyModel, TyFault>
    decreases a,
{
    match a {
        Annotation::Unit => Ok(TyModel::Unit),
        Annotation::Kw(p) => Ok(
            match p {
                Prim::Int => TyModel::Int,
                Prim::Float => TyModel::Float,
                Prim::Str => TyModel::Str,
                Prim::Bool => TyModel::Bool,
            },
        ),
        Annotation::Option(x) => match ann_spec(*x, s) {
            Ok(t) => Ok(TyModel::Option(Box::new(t))),
            Err(e) => Err(e),
        },
        Annotation::Result(x) => match ann_spec(*x, s) {
            Ok(t) => Ok(TyModel::Result(Box::new(t))),
            Err(e) => Err(e),
        },
        Annotation::Array(x) => match ann_spec(*x, s) {
            Ok(t) => Ok(TyModel::Array(Box::new(t))),
            Err(e) => Err(e),
        },
        Annotation::Dict(x) => match ann_spec(*x, s) {
            Ok(t) => Ok(TyModel::Dict(Box::new(t))),
            Err(e) => Err(e),
        },
        Annotation::Function(ps, r) => match anns_spec(ps, s) {
            Err(e) => Err(e),
            Ok(pt) => match ann_spec(*r, s) {
                Err(e) => Err(e),
                Ok(rt) => Ok(TyModel::Fn(pt, Box::new(rt))),
            },
        },
        Annotation::Tuple(ms) => match anns_spec(ms, s) {
            Err(e) => Err(e),
            Ok(ts) => Ok(TyModel::Tuple(ts)),
        },
        Annotation::Name(n) => name_spec(s, n@),
        Annotation::Applied(n, args) => match name_spec(s, n@) {
            Err(e) => Err(e),
            Ok(TyModel::Adt(k, _)) => {
                let expected = s.types@[k as int].1;
                if expected == 0 {
                    if all_units(s, args) {
                        Ok(TyModel::Adt(k, Tys::Nil))
                    } else {
                        Err(TyFault::NotGeneric(n@))
                    }
                } else if anns_len(args) != expected {
                    Err(TyFault::GenericArity(s.types@[k as int].0@, expected as nat, capped_len(args)))
                } else {
                    match anns_spec(args, s) {
                        Err(e) => Err(e),
                        Ok(ts) => Ok(TyModel::Adt(k, ts)),
                    }
                }
            },
            Ok(_) => Err(TyFault::NotGeneric(n@)),
        },
        Annotation::Quantity(us) => match unknown_unit(us@, 0) {
            Some(u) => Err(TyFault::UnknownUnit(u)),
            None => Ok(TyModel::Float),
        },
    }
}

/// The types a list of annotations stands for, or the first refusal met.
pub open spec fn anns_spec(l: AnnotationList, s: Scope) -> Result<Tys, TyFault>
    decreases l,
{
    match l {
        AnnotationList::Nil => Ok(Tys::Nil),
        AnnotationList::Cons(a, rest) => match ann_spec(*a, s) {
            Err(e) => Err(e),
            Ok(t) => match anns_spec(*rest, s) {
                Err(e) => Err(e),
                Ok(ts) => Ok(Tys::Cons(Box::new(t), Box::new(ts))),
            },
        },
    }
}

/// The list's length, or `usize::MAX` for a longer one.
pub open spec fn capped_len(l: AnnotationList) -> nat {
    if anns_len(l) < usize::MAX {
        anns_len(l)
    } else {
        usize::MAX as nat
    }
}

fn count_anns(l: &AnnotationList) -> (r: usize)
    ensures
        r as nat == capped_len(*l),
    decreases l,
{
    match l {
        AnnotationList::Nil => 0,
        AnnotationList::Cons(_, rest) => {
            let c = count_anns(rest);
            if c < usize::MAX {
                c + 1
            } else {
                c
            }
        },
    }
}

fn len_is(l: &AnnotationList, n: usize) -> (r: bool)
    ensures
        r == (anns_len(*l) == n),
    decreases l,
{
    match l {
        AnnotationList::Nil => n == 0,
        AnnotationList::Cons(_, rest) => n > 0 && len_is(rest, n - 1),
    }
}

fn index_in(names: &Vec<String>, n: &str) -> (r: Option<usize>)
    ensures
        match index_of(names@.map_values(|p: String| p@), n@, 0) {
            Some(k) => r == Some(k as usize),
            None => r is None,
        },
{
    let ghost v = names@.map_values(|p: String| p@);
    let mut k: usize = 0;
    while k < names.len()
        invariant
            k <= names@.len(),
            v == names@.map_values(|p: String| p@),
            index_of(v, n@, k as int) == index_of(v, n@, 0),
        decreases names@.len() - k,
    {
        if same_text(names[k].as_str(), n) {
            return Some(k);
        }
        k += 1;
    }
    None
}

fn type_index(s: &Scope, n: &str) -> (r: Option<usize>)
    ensures
        match index_of(type_names(*s), n@, 0) {
            Some(k) => r == Some(k as usize) && k < s.types@.len(),
            None => r is None,
        },
{
    let ghost v = type_names(*s);
    let mut k: usize = 0;
    while k < s.types.len()
        invariant
            k <= s.types@.len(),
            v == type_names(*s),
            index_of(v, n@, k as int) == index_of(v, n@, 0),
        decreases s.types@.len() - k,
    {
        if same_text(s.types[k].0.as_str(), n) {
            return Some(k);
        }
        k += 1;
    }
    proof {
        lemma_index_of_range(v, n@, 0);
    }
    None
}

proof fn lemma_index_of_range(names: Seq<Seq<char>>, n: Seq<char>, k: int)
    requires
        0 <= k,
    ensures
        index_of(names, n, k) matches Some(j) ==> k <= j < names.len(),
    decreases names.len() - k,
{
    if k < names.len() && names[k] != n {
        lemma_index_of_range(names, n, k + 1);
    }
}

fn free_unit(s: &Scope, n: &str) -> (r: bool)
    ensures
        r == is_free_unit(*s, n@),
{
    type_index(s, n).is_none() && lookup_dim(n).is_some()
}

fn resolve_name(s: &Scope, n: &str) -> (r: Result<TyModel, TyError>)
    ensures
        ty_result_view(r) == name_spec(*s, n@),
{
    match index_in(&s.params, n) {
        Some(k) => return Ok(TyModel::Param(k)),
        None => {},
    }
    if free_unit(s, n) {
        return Ok(TyModel::Float);
    }
    match type_index(s, n) {
        Some(k) => Ok(TyModel::Adt(k, Tys::Nil)),
        None => Err(TyError::UnknownType(n.to_string())),
    }
}

fn units_only(s: &Scope, l: &AnnotationList) -> (r: bool)
    ensures
        r == all_units(*s, *l),
    decreases l,
{
    match l {
        AnnotationList::Nil => true,
        AnnotationList::Cons(a, rest) => {
            let here = match &**a {
                Annotation::Name(n) => free_unit(s, n.as_str()),
                Annotation::Quantity(_) => true,
                _ => false,
            };
            here && units_only(s, rest)
        },
    }
}

fn first_unknown_unit(us: &Vec<String>) -> (r: Option<usize>)
    ensures
        match unknown_unit(us@, 0) {
            Some(u) => r matches Some(k) && k < us@.len() && us@[k as int]@ == u,
            None => r is None,
        },
{
    let mut k: usize = 0;
    while k < us.len()
        invariant
            k <= us@.len(),
            unknown_unit(us@, k as int) == unknown_unit(us@, 0),
        decreases us@.len() - k,
    {
        if lookup_dim(us[k].as_str()).is_none() {
            return Some(k);
        }
        k += 1;
    }
    None
}

fn ann_applied(a: &Annotation, s: &Scope) -> (r: Result<TyModel, TyError>)
    requires
        *a is Applied,
    ensures
        ty_result_view(r) == ann_spec(*a, *s),
    decreases a, 0nat,
{
    match a {
        Annotation::Applied(n, args) => {
            let head = match resolve_name(s, n.as_str()) {
                Ok(t) => t,
                Err(e) => return Err(e),
            };
            match head {
                TyModel::Adt(k, _) => {
                    proof {
                        lemma_index_of_range(type_names(*s), n@, 0);
                        lemma_index_of_range(param_names(*s), n@, 0);
                    }
                    let expected = s.types[k].1;
                    if expected == 0 {
                        if units_only(s, args) {
                            Ok(TyModel::Adt(k, Tys::Nil))
                        } else {
                            Err(TyError::NotGeneric(n.clone()))
                        }
                    } else if !len_is(args, expected) {
                        Err(TyError::GenericArity(s.types[k].0.clone(), expected, count_anns(args)))
                    } else {
                        match anns_to_tys(args, s) {
                            Ok(ts) => Ok(TyModel::Adt(k, ts)),
                            Err(e) => Err(e),
                        }
                    }
                },
                _ => Err(TyError::NotGeneric(n.clone())),
            }
        },
        _ => Err(TyError::NotGeneric(String::new())),
    }
}

/// The type the annotation `a` stands for in scope `s`, or the first refusal met: a name
/// that is no type in scope and no unit, `<...>` on a type that takes no arguments (but for
/// units), a generic type given the wrong number of arguments, an unknown unit.
pub fn from_annotation(a: &Annotation, s: &Scope) -> (r: Result<TyModel, TyError>)
    ensures
        ty_result_view(r) == ann_spec(*a, *s),
    decreases a, 1nat,
{
    match a {
        Annotation::Unit => Ok(TyModel::Unit),
        Annotation::Kw(p) => Ok(
            match p {
                Prim::Int => TyModel::Int,
                Prim::Float => TyModel::Float,
                Prim::Str => TyModel::Str,
                Prim::Bool => TyModel::Bool,
            },
        ),
        Annotation::Option(x) => match from_annotation(x, s) {
            Ok(t) => Ok(TyModel::Option(Box::new(t))),
            Err(e) => Err(e),
        },
        Annotation::Result(x) => match from_annotation(x, s) {
            Ok(t) => Ok(TyModel::Result(Box::new(t))),
            Err(e) => Err(e),
        },
        Annotation::Array(x) => match from_annotation(x, s) {
            Ok(t) => Ok(TyModel::Array(Box::new(t))),
            Err(e) => Err(e),
        },
        Annotation::Dict(x) => match from_annotation(x, s) {
            Ok(t) => Ok(TyModel::Dict(Box::new(t))),
            Err(e) => Err(e),
        },
        Annotation::Function(ps, r) => {
            let pt = match anns_to_tys(ps, s) {
                Ok(t) => t,
                Err(e) => return Err(e),
            };
            match from_annotation(r, s) {
                Ok(rt) => Ok(TyModel::Fn(pt, Box::new(rt))),
                Err(e) => Err(e),
            }
        },
        Annotation::Tuple(ms) => match anns_to_tys(ms, s) {
            Ok(ts) => Ok(TyModel::Tuple(ts)),
            Err(e) => Err(e),
        },
        Annotation::Name(n) => resolve_name(s, n.as_str()),
        Annotation::Applied(..) => ann_applied(a, s),
        Annotation::Quantity(us) => match first_unknown_unit(us) {
            Some(k) => Err(TyError::UnknownUnit(us[k].clone())),
            None => Ok(TyModel::Float),
        },
    }
}

/// The types a list of annotations stands for, or the first refusal met.
pub fn anns_to_tys(l: &AnnotationList, s: &Scope) -> (r: Result<Tys, TyError>)
    ensures
        tys_result_view(r) == anns_spec(*l, *s),
    decreases l, 1nat,
{
    match l {
        AnnotationList::Nil => Ok(Tys::Nil),
        AnnotationList::Cons(a, rest) => {
            let t = match from_annotation(a, s) {
                Ok(t) => t,
                Err(e) => return Err(e),
            };
            match anns_to_tys(rest, s) {
                Ok(ts) => Ok(Tys::Cons(Box::new(t), Box::new(ts))),
                Err(e) => Err(e),
            }
        },
    }
}

/// A declared type parameter wins over a type or a unit of the same name.
pub proof fn lemma_type_params_win(s: Scope, n: String)
    ensures
        index_of(param_names(s), n@, 0) matches Some(k) ==> ann_spec(Annotation::Name(n), s) == Ok::<
            TyModel,
            TyFault,
        >(TyModel::Param(k as usize)),
{
}

/// A unit written where a type goes is a float, unless a type parameter or a declared type
/// has its name.
pub proof fn lemma_units_are_floats(s: Scope, n: String)
    requires
        index_of(param_names(s), n@, 0) is None,
        index_of(type_names(s), n@, 0) is None,
        unit_spec(encode_utf8(n@)) is Some,
    ensures
        ann_spec(Annotation::Name(n), s) == Ok::<TyModel, TyFault>(TyModel::Float),
{
}

} // verus!
