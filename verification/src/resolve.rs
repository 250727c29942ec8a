//! What written types and type names stand for.

use crate::authored::{Type, TypeTerm, path_text, type_terms};
use crate::checked::BindingId;
use crate::declare::{
    Body, Concrete, ConcreteBody, ConcreteConstructor, ConcreteNamedBody, ConcreteType,
    Constructor, ConstructorDecl, Decl, TypeDecl, TypeDeclBody, concrete_fields, concretes,
    constructors, field_types, payloads,
};
use crate::env::{Env, World, candidates, decl_of, looked_up, ready_value};
use crate::error::{Failure, MagError};
use crate::text::{cat2, cat5, count_text, decimal, same_text, texts};
use crate::types::{
    MagType, Names, Subst, Ty, substitute, substituted, ty_text, tys, zip_types, zipped,
};
use crate::value::{Val, Value};
use vstd::prelude::*;

verus! {

/// How deeply the declarations behind a type are followed. No type is nested that deeply: a
/// declaration refers only to declarations before it.
pub const TYPE_DEPTH_LIMIT: u32 = u32::MAX;

pub open spec fn depth_failure() -> Failure {
    Failure::Type("type nesting limit reached"@)
}

pub(crate) fn depth_error() -> (error: MagError)
    ensures
        error@ == depth_failure(),
{
    MagError::Type("type nesting limit reached".to_owned())
}

pub open spec fn unknown_type(name: Seq<char>) -> Failure {
    Failure::Type("unknown nominal type "@ + name)
}

pub open spec fn wrong_count(name: Seq<char>, expected: nat, got: nat) -> Failure {
    Failure::Type(
        name + " expects "@ + decimal(expected) + " type arguments, got "@ + decimal(got),
    )
}

pub fn unknown_type_error(name: &str) -> (error: MagError)
    ensures
        error@ == unknown_type(name@),
{
    MagError::Type(cat2("unknown nominal type ", name))
}

pub fn wrong_count_error(name: &str, expected: usize, got: usize) -> (error: MagError)
    ensures
        error@ == wrong_count(name@, expected as nat, got as nat),
{
    let expected = count_text(expected);
    let got = count_text(got);
    MagError::Type(
        cat5(name, " expects ", expected.as_str(), " type arguments, got ", got.as_str()),
    )
}

/// What checking for a type gives.
pub open spec fn typing(result: Result<MagType, MagError>) -> Result<Ty, Failure> {
    match result {
        Ok(ty) => Ok(ty@),
        Err(error) => Err(error@),
    }
}

// ---------------------------------------------------------------------------
// Concrete types
// ---------------------------------------------------------------------------

/// A type with its declarations resolved. Types with variables, functions and
/// types of the compiler itself have no such form.
pub open spec fn concrete(world: World, ty: Ty, fuel: nat) -> Result<Concrete, Failure>
    decreases fuel, 0int,
{
    if fuel == 0 {
        Err(depth_failure())
    } else {
        let less = (fuel - 1) as nat;
        match ty {
            Ty::JsonValue => Ok(Concrete::JsonValue),
            Ty::Unit => Ok(Concrete::Unit),
            Ty::Bool => Ok(Concrete::Bool),
            Ty::Int => Ok(Concrete::Int),
            Ty::Float => Ok(Concrete::Float),
            Ty::String => Ok(Concrete::String),
            Ty::List(item) => match concrete(world, *item, less) {
                Ok(item) => Ok(Concrete::List(Box::new(item))),
                Err(failure) => Err(failure),
            },
            Ty::SetOf(item) => match concrete(world, *item, less) {
                Ok(item) => Ok(Concrete::SetOf(Box::new(item))),
                Err(failure) => Err(failure),
            },
            Ty::MapOf(key, value) => match concrete(world, *key, less) {
                Err(failure) => Err(failure),
                Ok(key) => match concrete(world, *value, less) {
                    Ok(value) => Ok(Concrete::MapOf(Box::new(key), Box::new(value))),
                    Err(failure) => Err(failure),
                },
            },
            Ty::Product(items) => match concrete_from(world, items, 0, less) {
                Ok(items) => Ok(Concrete::Product(items)),
                Err(failure) => Err(failure),
            },
            Ty::Named(name, arguments) => match decl_of(world, name) {
                None => Err(unknown_type(name)),
                Some(declaration) => if declaration.params.len() != arguments.len() {
                    Err(wrong_count(name, declaration.params.len(), arguments.len()))
                } else {
                    match concrete_from(world, arguments, 0, less) {
                        Err(failure) => Err(failure),
                        Ok(resolved) => concrete_body(
                            world,
                            name,
                            resolved,
                            declaration.body,
                            zipped(declaration.params, arguments),
                            less,
                        ),
                    }
                },
            },
            other => Err(Failure::Type(ty_text(other) + " is not a concrete type"@)),
        }
    }
}

pub open spec fn concrete_body(
    world: World,
    name: Seq<char>,
    arguments: Seq<Concrete>,
    body: Body,
    subst: Map<Seq<char>, Ty>,
    fuel: nat,
) -> Result<Concrete, Failure>
    decreases fuel, 2int,
{
    match body {
        Body::Fields(fields) => match concrete_fields_from(world, fields, subst, 0, fuel) {
            Ok(fields) => Ok(Concrete::Named(name, arguments, ConcreteBody::Fields(fields))),
            Err(failure) => Err(failure),
        },
        Body::TransparentAlias(ty) => concrete(world, substituted(ty, subst), fuel),
        Body::Alias(ty) => match concrete(world, substituted(ty, subst), fuel) {
            Ok(ty) => Ok(Concrete::Named(name, arguments, ConcreteBody::Alias(Box::new(ty)))),
            Err(failure) => Err(failure),
        },
        Body::Adt(list) => match concrete_payloads_from(world, list, subst, 0, fuel) {
            Ok(list) => Ok(Concrete::Adt(name, arguments, list)),
            Err(failure) => Err(failure),
        },
        Body::Native => Err(Failure::Type(name + " is not a concrete type"@)),
    }
}

pub open spec fn concrete_from(world: World, types: Seq<Ty>, i: int, fuel: nat) -> Result<
    Seq<Concrete>,
    Failure,
>
    decreases fuel, 1int, types.len() - i,
{
    if i < 0 || i >= types.len() {
        Ok(Seq::empty())
    } else {
        match concrete(world, types[i], fuel) {
            Err(failure) => Err(failure),
            Ok(first) => match concrete_from(world, types, i + 1, fuel) {
                Err(failure) => Err(failure),
                Ok(rest) => Ok(seq![first] + rest),
            },
        }
    }
}

pub open spec fn concrete_fields_from(
    world: World,
    fields: Seq<(Seq<char>, Ty)>,
    subst: Map<Seq<char>, Ty>,
    i: int,
    fuel: nat,
) -> Result<Seq<(Seq<char>, Concrete)>, Failure>
    decreases fuel, 1int, fields.len() - i,
{
    if i < 0 || i >= fields.len() {
        Ok(Seq::empty())
    } else {
        match concrete(world, substituted(fields[i].1, subst), fuel) {
            Err(failure) => Err(failure),
            Ok(first) => match concrete_fields_from(world, fields, subst, i + 1, fuel) {
                Err(failure) => Err(failure),
                Ok(rest) => Ok(seq![(fields[i].0, first)] + rest),
            },
        }
    }
}

pub open spec fn concrete_payloads_from(
    world: World,
    list: Seq<Constructor>,
    subst: Map<Seq<char>, Ty>,
    i: int,
    fuel: nat,
) -> Result<Seq<(Seq<char>, Concrete)>, Failure>
    decreases fuel, 1int, list.len() - i,
{
    if i < 0 || i >= list.len() {
        Ok(Seq::empty())
    } else {
        match concrete(world, substituted(list[i].payload, subst), fuel) {
            Err(failure) => Err(failure),
            Ok(first) => match concrete_payloads_from(world, list, subst, i + 1, fuel) {
                Err(failure) => Err(failure),
                Ok(rest) => Ok(seq![(list[i].id.name, first)] + rest),
            },
        }
    }
}

/// The concrete form of a type.
pub open spec fn concrete_type(world: World, ty: Ty) -> Result<Concrete, Failure> {
    concrete(world, ty, TYPE_DEPTH_LIMIT as nat)
}

pub open spec fn concretion(result: Result<ConcreteType, MagError>) -> Result<Concrete, Failure> {
    match result {
        Ok(ty) => Ok(ty@),
        Err(error) => Err(error@),
    }
}

fn not_concrete(text: String) -> (error: MagError)
    ensures
        error@ == Failure::Type(text@ + " is not a concrete type"@),
{
    MagError::Type(cat2(text.as_str(), " is not a concrete type"))
}

fn resolve_in(env: &Env, ty: &MagType, fuel: u32) -> (result: Result<ConcreteType, MagError>)
    ensures
        concretion(result) == concrete(env@, ty@, fuel as nat),
    decreases fuel, 0int,
{
    if fuel == 0 {
        return Err(depth_error());
    }
    match ty {
        MagType::JsonValue => Ok(ConcreteType::JsonValue),
        MagType::Unit => Ok(ConcreteType::Unit),
        MagType::Bool => Ok(ConcreteType::Bool),
        MagType::Int => Ok(ConcreteType::Int),
        MagType::Float => Ok(ConcreteType::Float),
        MagType::String => Ok(ConcreteType::String),
        MagType::List(item) => match resolve_in(env, item, fuel - 1) {
            Ok(item) => Ok(ConcreteType::List { item: Box::new(item) }),
            Err(error) => Err(error),
        },
        MagType::SetOf(item) => match resolve_in(env, item, fuel - 1) {
            Ok(item) => Ok(ConcreteType::SetOf { item: Box::new(item) }),
            Err(error) => Err(error),
        },
        MagType::MapOf(key, value) => match resolve_in(env, key, fuel - 1) {
            Err(error) => Err(error),
            Ok(key) => match resolve_in(env, value, fuel - 1) {
                Ok(value) => Ok(
                    ConcreteType::MapOf { key: Box::new(key), value: Box::new(value) },
                ),
                Err(error) => Err(error),
            },
        },
        MagType::Product(items) => match resolve_list(env, items, fuel - 1) {
            Ok(items) => Ok(ConcreteType::Product { items }),
            Err(error) => Err(error),
        },
        MagType::Named(name, arguments) => match env.type_decl(name.as_str()) {
            None => Err(unknown_type_error(name.as_str())),
            Some(declaration) => {
                assert(texts(declaration.params@).len() == declaration.params@.len());
                assert(tys(arguments@).len() == arguments@.len());
                if declaration.params.len() != arguments.len() {
                    Err(
                        wrong_count_error(name.as_str(), declaration.params.len(), arguments.len()),
                    )
                } else {
                    match resolve_list(env, arguments, fuel - 1) {
                        Err(error) => Err(error),
                        Ok(resolved) => {
                            let subst = zip_types(&declaration.params, arguments);
                            resolve_body(env, name, resolved, &declaration.body, &subst, fuel - 1)
                        },
                    }
                }
            },
        },
        other => Err(not_concrete(other.text())),
    }
}

fn resolve_body(
    env: &Env,
    name: &String,
    arguments: Vec<ConcreteType>,
    body: &TypeDeclBody,
    subst: &Subst,
    fuel: u32,
) -> (result: Result<ConcreteType, MagError>)
    ensures
        concretion(result) == concrete_body(
            env@,
            name@,
            concretes(arguments@),
            body@,
            subst@,
            fuel as nat,
        ),
    decreases fuel, 2int,
{
    match body {
        TypeDeclBody::Fields(fields) => match resolve_fields(env, fields, subst, fuel) {
            Ok(fields) => {
                let ghost view = concrete_fields(fields@);
                let body = ConcreteNamedBody::Fields { fields };
                assert(body@ == ConcreteBody::Fields(view));
                Ok(ConcreteType::Named { name: name.clone(), arguments, body })
            },
            Err(error) => Err(error),
        },
        TypeDeclBody::TransparentAlias(ty) => {
            let ty = substitute(ty, subst);
            resolve_in(env, &ty, fuel)
        },
        TypeDeclBody::Alias(ty) => {
            let ty = substitute(ty, subst);
            match resolve_in(env, &ty, fuel) {
                Ok(ty) => {
                    let ghost view = ty@;
                    let body = ConcreteNamedBody::Alias { ty: Box::new(ty) };
                    assert(body@ == ConcreteBody::Alias(Box::new(view)));
                    Ok(ConcreteType::Named { name: name.clone(), arguments, body })
                },
                Err(error) => Err(error),
            }
        },
        TypeDeclBody::Adt(list) => match resolve_payloads(env, list, subst, fuel) {
            Ok(constructors) => Ok(
                ConcreteType::Adt { name: name.clone(), arguments, constructors },
            ),
            Err(error) => Err(error),
        },
        TypeDeclBody::Native => Err(not_concrete(name.clone())),
    }
}

fn resolve_list(env: &Env, types: &Vec<MagType>, fuel: u32) -> (result: Result<
    Vec<ConcreteType>,
    MagError,
>)
    ensures
        match (result, concrete_from(env@, tys(types@), 0, fuel as nat)) {
            (Ok(list), Ok(view)) => concretes(list@) == view,
            (Err(error), Err(failure)) => error@ == failure,
            _ => false,
        },
    decreases fuel, 1int,
{
    let ghost all = tys(types@);
    let mut list: Vec<ConcreteType> = Vec::new();
    let mut i: usize = 0;
    while i < types.len()
        invariant
            i <= types@.len(),
            all == tys(types@),
            match concrete_from(env@, all, 0, fuel as nat) {
                Ok(view) => match concrete_from(env@, all, i as int, fuel as nat) {
                    Ok(rest) => view == concretes(list@) + rest,
                    Err(_) => false,
                },
                Err(failure) => concrete_from(env@, all, i as int, fuel as nat) == Err::<
                    Seq<Concrete>,
                    Failure,
                >(failure),
            },
        decreases types@.len() - i,
    {
        assert(all[i as int] == types@[i as int]@);
        match resolve_in(env, &types[i], fuel) {
            Err(error) => return Err(error),
            Ok(ty) => {
                let ghost before = concretes(list@);
                let ghost added = ty@;
                list.push(ty);
                proof {
                    assert(concretes(list@) =~= before.push(added));
                    if let Ok(rest) = concrete_from(env@, all, i + 1, fuel as nat) {
                        assert(before + (seq![added] + rest) =~= before.push(added) + rest);
                    }
                }
            },
        }
        i = i + 1;
    }
    assert(concretes(list@) + Seq::<Concrete>::empty() =~= concretes(list@));
    Ok(list)
}

fn resolve_fields(
    env: &Env,
    fields: &Vec<(String, MagType)>,
    subst: &Subst,
    fuel: u32,
) -> (result: Result<Vec<(String, ConcreteType)>, MagError>)
    ensures
        match (
            result,
            concrete_fields_from(env@, field_types(fields@), subst@, 0, fuel as nat),
        ) {
            (Ok(list), Ok(view)) => concrete_fields(list@) == view,
            (Err(error), Err(failure)) => error@ == failure,
            _ => false,
        },
    decreases fuel, 1int,
{
    let ghost all = field_types(fields@);
    let mut list: Vec<(String, ConcreteType)> = Vec::new();
    let mut i: usize = 0;
    while i < fields.len()
        invariant
            i <= fields@.len(),
            all == field_types(fields@),
            match concrete_fields_from(env@, all, subst@, 0, fuel as nat) {
                Ok(view) => match concrete_fields_from(env@, all, subst@, i as int, fuel as nat) {
                    Ok(rest) => view == concrete_fields(list@) + rest,
                    Err(_) => false,
                },
                Err(failure) => concrete_fields_from(env@, all, subst@, i as int, fuel as nat)
                    == Err::<Seq<(Seq<char>, Concrete)>, Failure>(failure),
            },
        decreases fields@.len() - i,
    {
        let field = &fields[i];
        assert(all[i as int] == (field.0@, field.1@));
        let ty = substitute(&field.1, subst);
        match resolve_in(env, &ty, fuel) {
            Err(error) => return Err(error),
            Ok(ty) => {
                let ghost before = concrete_fields(list@);
                let ghost added = (field.0@, ty@);
                list.push((field.0.clone(), ty));
                proof {
                    assert(concrete_fields(list@) =~= before.push(added));
                    if let Ok(rest) = concrete_fields_from(env@, all, subst@, i + 1, fuel as nat) {
                        assert(before + (seq![added] + rest) =~= before.push(added) + rest);
                    }
                }
            },
        }
        i = i + 1;
    }
    assert(concrete_fields(list@) + Seq::<(Seq<char>, Concrete)>::empty() =~= concrete_fields(
        list@,
    ));
    Ok(list)
}

fn resolve_payloads(env: &Env, list: &Vec<ConstructorDecl>, subst: &Subst, fuel: u32) -> (result:
    Result<Vec<ConcreteConstructor>, MagError>)
    ensures
        match (
            result,
            concrete_payloads_from(env@, constructors(list@), subst@, 0, fuel as nat),
        ) {
            (Ok(list), Ok(view)) => payloads(list@) == view,
            (Err(error), Err(failure)) => error@ == failure,
            _ => false,
        },
    decreases fuel, 1int,
{
    let ghost all = constructors(list@);
    let mut found: Vec<ConcreteConstructor> = Vec::new();
    let mut i: usize = 0;
    while i < list.len()
        invariant
            i <= list@.len(),
            all == constructors(list@),
            match concrete_payloads_from(env@, all, subst@, 0, fuel as nat) {
                Ok(view) => match concrete_payloads_from(env@, all, subst@, i as int, fuel as nat) {
                    Ok(rest) => view == payloads(found@) + rest,
                    Err(_) => false,
                },
                Err(failure) => concrete_payloads_from(env@, all, subst@, i as int, fuel as nat)
                    == Err::<Seq<(Seq<char>, Concrete)>, Failure>(failure),
            },
        decreases list@.len() - i,
    {
        assert(all[i as int] == list@[i as int]@);
        let ty = substitute(&list[i].payload, subst);
        match resolve_in(env, &ty, fuel) {
            Err(error) => return Err(error),
            Ok(ty) => {
                let ghost before = payloads(found@);
                let ghost added = (list@[i as int].id.name@, ty@);
                found.push(ConcreteConstructor { name: list[i].id.name.clone(), payload: ty });
                proof {
                    assert(payloads(found@) =~= before.push(added));
                    if let Ok(rest) = concrete_payloads_from(
                        env@,
                        all,
                        subst@,
                        i + 1,
                        fuel as nat,
                    ) {
                        assert(before + (seq![added] + rest) =~= before.push(added) + rest);
                    }
                }
            },
        }
        i = i + 1;
    }
    assert(payloads(found@) + Seq::<(Seq<char>, Concrete)>::empty() =~= payloads(found@));
    Ok(found)
}

impl ConcreteType {
    pub fn resolve(env: &Env, ty: &MagType) -> (result: Result<ConcreteType, MagError>)
        ensures
            concretion(result) == concrete_type(env@, ty@),
    {
        resolve_in(env, ty, TYPE_DEPTH_LIMIT)
    }

    /// Whether a value of another concrete type is one of this type.
    pub fn accepts(&self, source: &ConcreteType) -> (taken: bool)
        ensures
            taken == (self@ == source@),
    {
        self.same(source)
    }
}

// ---------------------------------------------------------------------------
// Aliases
// ---------------------------------------------------------------------------

/// A type with the transparent aliases at its head replaced by what they stand
/// for.
pub open spec fn unaliased(world: World, ty: Ty, fuel: nat) -> Result<Ty, Failure>
    decreases fuel,
{
    match ty {
        Ty::Named(name, arguments) => match decl_of(world, name) {
            Some(declaration) => match declaration.body {
                Body::TransparentAlias(body) => if fuel == 0 {
                    Err(depth_failure())
                } else {
                    unaliased(
                        world,
                        substituted(body, zipped(declaration.params, arguments)),
                        (fuel - 1) as nat,
                    )
                },
                _ => Ok(ty),
            },
            None => Ok(ty),
        },
        _ => Ok(ty),
    }
}

fn expand_alias(env: &Env, ty: &MagType, fuel: u32) -> (result: Result<MagType, MagError>)
    ensures
        typing(result) == unaliased(env@, ty@, fuel as nat),
    decreases fuel,
{
    match ty {
        MagType::Named(name, arguments) => match env.type_decl(name.as_str()) {
            Some(declaration) => match &declaration.body {
                TypeDeclBody::TransparentAlias(body) => {
                    if fuel == 0 {
                        return Err(depth_error());
                    }
                    let subst = zip_types(&declaration.params, arguments);
                    let expanded = substitute(body, &subst);
                    expand_alias(env, &expanded, fuel - 1)
                },
                _ => Ok(ty.copy()),
            },
            None => Ok(ty.copy()),
        },
        _ => Ok(ty.copy()),
    }
}

pub open spec fn expanded(world: World, ty: Ty) -> Result<Ty, Failure> {
    unaliased(world, ty, TYPE_DEPTH_LIMIT as nat)
}

pub fn expand_transparent_alias(env: &Env, ty: &MagType) -> (result: Result<MagType, MagError>)
    ensures
        typing(result) == expanded(env@, ty@),
{
    expand_alias(env, ty, TYPE_DEPTH_LIMIT)
}

// ---------------------------------------------------------------------------
// Written types
// ---------------------------------------------------------------------------

/// The type that a value names.
pub open spec fn named_type(value: Val) -> Option<Ty> {
    match value {
        Val::Type(ty) => Some(ty),
        Val::TypeDecl(declaration) => Some(Ty::Named(declaration.name, Seq::empty())),
        _ => None,
    }
}

/// The types that the first `n` of some ready bindings name.
pub open spec fn types_among(world: World, ids: Seq<BindingId>, n: int) -> Seq<Ty>
    decreases n,
{
    if n <= 0 {
        Seq::empty()
    } else {
        match ready_value(world, ids[n - 1]) {
            Some(value) => match named_type(value) {
                Some(ty) => types_among(world, ids, n - 1).push(ty),
                None => types_among(world, ids, n - 1),
            },
            None => types_among(world, ids, n - 1),
        }
    }
}

/// The type that a name stands for.
pub open spec fn type_named(world: World, name: Seq<char>) -> Result<Ty, Failure> {
    let ids = candidates(world, name);
    let types = types_among(world, ids, ids.len() as int);
    if types.len() == 1 {
        expanded(world, types[0])
    } else if types.len() > 1 {
        Err(Failure::Type("ambiguous type name "@ + name))
    } else if ids.len() == 0 {
        Err(Failure::Unresolved(name))
    } else {
        Err(Failure::Type(name + " is not a type"@))
    }
}

/// What a declared type gives when it is applied to arguments.
pub open spec fn applied(world: World, declaration: Decl, arguments: Seq<Ty>) -> Result<Ty, Failure> {
    match declaration.body {
        Body::Native => if declaration.name == "core.List"@ && arguments.len() == 1 {
            Ok(Ty::List(Box::new(arguments[0])))
        } else if declaration.name == "core.Map"@ && arguments.len() == 2 {
            Ok(Ty::MapOf(Box::new(arguments[0]), Box::new(arguments[1])))
        } else if declaration.name == "core.Set"@ && arguments.len() == 1 {
            Ok(Ty::SetOf(Box::new(arguments[0])))
        } else {
            Err(Failure::Type("unsupported native type application "@ + declaration.name))
        },
        Body::TransparentAlias(body) => expanded(
            world,
            substituted(body, zipped(declaration.params, arguments)),
        ),
        _ => Ok(Ty::Named(declaration.name, arguments)),
    }
}

/// The type that a written type stands for, where some variables are in scope.
pub open spec fn resolved(world: World, term: TypeTerm, scope: Set<Seq<char>>) -> Result<Ty, Failure>
    decreases term, 0int,
{
    match term {
        TypeTerm::Name(path) => if scope.contains(path_text(path)) {
            Ok(Ty::Var(path_text(path)))
        } else {
            type_named(world, path_text(path))
        },
        TypeTerm::Product(items) => match resolved_from(world, items, scope, 0) {
            Ok(items) => Ok(Ty::Product(items)),
            Err(failure) => Err(failure),
        },
        TypeTerm::Tag(value) => match resolved(world, *value, scope) {
            Ok(value) => Ok(Ty::TypeTag(Box::new(value))),
            Err(failure) => Err(failure),
        },
        TypeTerm::Function(params, result) => match resolved_from(world, params, scope, 0) {
            Err(failure) => Err(failure),
            Ok(params) => match resolved(world, *result, scope) {
                Ok(result) => Ok(Ty::Function(params, Box::new(result))),
                Err(failure) => Err(failure),
            },
        },
        TypeTerm::Apply(path, arguments) => match looked_up(world, path_text(path)) {
            None => Err(Failure::Unresolved(path_text(path))),
            Some(Val::TypeDecl(declaration)) => {
                if declaration.params.len() != arguments.len() {
                    Err(
                        wrong_count(
                            declaration.name,
                            declaration.params.len(),
                            arguments.len(),
                        ),
                    )
                } else {
                    match resolved_from(world, arguments, scope, 0) {
                        Err(failure) => Err(failure),
                        Ok(arguments) => applied(world, declaration, arguments),
                    }
                }
            },
            Some(_) => Err(Failure::Type(path_text(path) + " is not a declared type"@)),
        },
        TypeTerm::Invalid(message) => Err(Failure::Type(message)),
    }
}

/// The types that written types from index `i` on stand for.
pub open spec fn resolved_from(world: World, list: Seq<TypeTerm>, scope: Set<Seq<char>>, i: int) -> Result<
    Seq<Ty>,
    Failure,
>
    decreases list, list.len() - i,
{
    if i < 0 || i >= list.len() {
        Ok(Seq::empty())
    } else {
        match resolved(world, list[i], scope) {
            Err(failure) => Err(failure),
            Ok(first) => match resolved_from(world, list, scope, i + 1) {
                Err(failure) => Err(failure),
                Ok(rest) => Ok(seq![first] + rest),
            },
        }
    }
}

fn name_type(env: &Env, name: &str) -> (result: Result<MagType, MagError>)
    ensures
        typing(result) == type_named(env@, name@),
{
    let ids = env.lookup_candidates(name);
    let mut types: Vec<MagType> = Vec::new();
    assert(tys(types@) =~= types_among(env@, ids@, 0));
    let mut i: usize = 0;
    while i < ids.len()
        invariant
            i <= ids@.len(),
            tys(types@) == types_among(env@, ids@, i as int),
        decreases ids@.len() - i,
    {
        let ghost before = tys(types@);
        match env.ready_binding(ids[i]) {
            Some(Value::Type(ty)) => {
                let ty = ty.copy();
                let ghost added = ty@;
                types.push(ty);
                assert(tys(types@) =~= before.push(added));
            },
            Some(Value::TypeDecl(declaration)) => {
                let none: Vec<MagType> = Vec::new();
                assert(tys(none@) =~= Seq::empty());
                let ty = MagType::Named(declaration.name.clone(), none);
                let ghost added = ty@;
                types.push(ty);
                assert(tys(types@) =~= before.push(added));
            },
            _ => {},
        }
        i = i + 1;
    }
    assert(tys(types@).len() == types@.len());
    if types.len() == 1 {
        assert(tys(types@)[0] == types@[0]@);
        expand_transparent_alias(env, &types[0])
    } else if types.len() > 1 {
        Err(MagError::Type(cat2("ambiguous type name ", name)))
    } else if ids.len() == 0 {
        Err(MagError::Unresolved(name.to_owned()))
    } else {
        Err(MagError::Type(cat2(name, " is not a type")))
    }
}

fn apply_type(env: &Env, declaration: &TypeDecl, arguments: Vec<MagType>) -> (result: Result<
    MagType,
    MagError,
>)
    ensures
        typing(result) == applied(env@, declaration@, tys(arguments@)),
{
    assert(tys(arguments@).len() == arguments@.len());
    match &declaration.body {
        TypeDeclBody::Native => {
            if same_text(declaration.name.as_str(), "core.List") && arguments.len() == 1 {
                assert(tys(arguments@)[0] == arguments@[0]@);
                Ok(MagType::List(Box::new(arguments[0].copy())))
            } else if same_text(declaration.name.as_str(), "core.Map") && arguments.len() == 2 {
                assert(tys(arguments@)[0] == arguments@[0]@);
                assert(tys(arguments@)[1] == arguments@[1]@);
                Ok(MagType::MapOf(Box::new(arguments[0].copy()), Box::new(arguments[1].copy())))
            } else if same_text(declaration.name.as_str(), "core.Set") && arguments.len() == 1 {
                assert(tys(arguments@)[0] == arguments@[0]@);
                Ok(MagType::SetOf(Box::new(arguments[0].copy())))
            } else {
                Err(
                    MagError::Type(
                        cat2("unsupported native type application ", declaration.name.as_str()),
                    ),
                )
            }
        },
        TypeDeclBody::TransparentAlias(body) => {
            let subst = zip_types(&declaration.params, &arguments);
            let expanded = substitute(body, &subst);
            expand_transparent_alias(env, &expanded)
        },
        _ => Ok(MagType::Named(declaration.name.clone(), arguments)),
    }
}

pub fn resolve_type(env: &Env, authored: &Type, vars: &Names) -> (result: Result<MagType, MagError>)
    ensures
        typing(result) == resolved(env@, authored@, vars@),
    decreases authored,
{
    match authored {
        Type::Name(path) => {
            let name = path.text();
            if vars.contains(name.as_str()) {
                Ok(MagType::Var(name))
            } else {
                name_type(env, name.as_str())
            }
        },
        Type::Product(items) => match resolve_types(env, items, vars) {
            Ok(items) => Ok(MagType::Product(items)),
            Err(error) => Err(error),
        },
        Type::Tag(value) => match resolve_type(env, value, vars) {
            Ok(value) => Ok(MagType::TypeTag(Box::new(value))),
            Err(error) => Err(error),
        },
        Type::Function { params, result } => match resolve_types(env, params, vars) {
            Err(error) => Err(error),
            Ok(params) => match resolve_type(env, result, vars) {
                Ok(result) => Ok(MagType::Function(params, Box::new(result))),
                Err(error) => Err(error),
            },
        },
        Type::Apply { constructor, arguments } => {
            let name = constructor.text();
            match env.lookup(name.as_str()) {
                Err(error) => Err(error),
                Ok(Value::TypeDecl(declaration)) => {
                    assert(texts(declaration.params@).len() == declaration.params@.len());
                    assert(type_terms(arguments@).len() == arguments@.len());
                    if declaration.params.len() != arguments.len() {
                        Err(
                            wrong_count_error(
                                declaration.name.as_str(),
                                declaration.params.len(),
                                arguments.len(),
                            ),
                        )
                    } else {
                        match resolve_types(env, arguments, vars) {
                            Err(error) => Err(error),
                            Ok(arguments) => apply_type(env, declaration, arguments),
                        }
                    }
                },
                Ok(_) => Err(MagError::Type(cat2(name.as_str(), " is not a declared type"))),
            }
        },
        Type::Invalid(message) => Err(MagError::Type(message.clone())),
    }
}

pub fn resolve_types(env: &Env, list: &Vec<Type>, vars: &Names) -> (result: Result<
    Vec<MagType>,
    MagError,
>)
    ensures
        match (result, resolved_from(env@, type_terms(list@), vars@, 0)) {
            (Ok(types), Ok(view)) => tys(types@) == view,
            (Err(error), Err(failure)) => error@ == failure,
            _ => false,
        },
    decreases list,
{
    let ghost all = type_terms(list@);
    let mut types: Vec<MagType> = Vec::new();
    let mut i: usize = 0;
    while i < list.len()
        invariant
            i <= list@.len(),
            all == type_terms(list@),
            match resolved_from(env@, all, vars@, 0) {
                Ok(view) => match resolved_from(env@, all, vars@, i as int) {
                    Ok(rest) => view == tys(types@) + rest,
                    Err(_) => false,
                },
                Err(failure) => resolved_from(env@, all, vars@, i as int) == Err::<
                    Seq<Ty>,
                    Failure,
                >(failure),
            },
        decreases list@.len() - i,
    {
        assert(all[i as int] == list@[i as int]@);
        match resolve_type(env, &list[i], vars) {
            Err(error) => return Err(error),
            Ok(ty) => {
                let ghost before = tys(types@);
                let ghost added = ty@;
                types.push(ty);
                proof {
                    assert(tys(types@) =~= before.push(added));
                    if let Ok(rest) = resolved_from(env@, all, vars@, i + 1) {
                        assert(before + (seq![added] + rest) =~= before.push(added) + rest);
                    }
                }
            },
        }
        i = i + 1;
    }
    assert(tys(types@) + Seq::<Ty>::empty() =~= tys(types@));
    Ok(types)
}

} // verus!
