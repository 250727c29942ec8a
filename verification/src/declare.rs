//! Declarations of types, and types with their declarations resolved.

use crate::text::{copy_texts, same_text, texts};
use crate::types::{MagType, Ty, tys};
use vstd::prelude::*;

verus! {

/// The identity of a constructor: the type that owns it, and its name.
#[derive(Debug)]
pub struct ConstructorDeclarationId {
    pub owner: String,
    pub name: String,
}

pub ghost struct ConstructorId {
    pub owner: Seq<char>,
    pub name: Seq<char>,
}

impl ConstructorDeclarationId {
    pub open spec fn view(&self) -> ConstructorId {
        ConstructorId { owner: self.owner@, name: self.name@ }
    }

    pub fn copy(&self) -> (copy: Self)
        ensures
            copy@ == self@,
    {
        ConstructorDeclarationId { owner: self.owner.clone(), name: self.name.clone() }
    }

    pub fn same(&self, other: &Self) -> (same: bool)
        ensures
            same == (self@ == other@),
    {
        same_text(self.owner.as_str(), other.owner.as_str()) && same_text(
            self.name.as_str(),
            other.name.as_str(),
        )
    }
}

#[derive(Debug)]
pub struct ConstructorDecl {
    pub id: ConstructorDeclarationId,
    pub payload: MagType,
}

pub ghost struct Constructor {
    pub id: ConstructorId,
    pub payload: Ty,
}

impl ConstructorDecl {
    pub open spec fn view(&self) -> Constructor {
        Constructor { id: self.id@, payload: self.payload@ }
    }
}

pub open spec fn constructors(list: Seq<ConstructorDecl>) -> Seq<Constructor> {
    Seq::new(list.len(), |i: int| list[i].view())
}

/// Field types in ascending order of the field names.
pub open spec fn field_types(fields: Seq<(String, MagType)>) -> Seq<(Seq<char>, Ty)> {
    Seq::new(fields.len(), |i: int| (fields[i].0@, fields[i].1@))
}

#[derive(Debug)]
pub enum TypeDeclBody {
    /// A record, with its fields in ascending order of their names.
    Fields(Vec<(String, MagType)>),
    /// Another name for a type.
    TransparentAlias(MagType),
    /// A type of its own with the values of another one.
    Alias(MagType),
    Adt(Vec<ConstructorDecl>),
    Native,
}

pub ghost enum Body {
    Fields(Seq<(Seq<char>, Ty)>),
    TransparentAlias(Ty),
    Alias(Ty),
    Adt(Seq<Constructor>),
    Native,
}

impl TypeDeclBody {
    pub open spec fn view(&self) -> Body {
        match self {
            TypeDeclBody::Fields(fields) => Body::Fields(field_types(fields@)),
            TypeDeclBody::TransparentAlias(ty) => Body::TransparentAlias(ty@),
            TypeDeclBody::Alias(ty) => Body::Alias(ty@),
            TypeDeclBody::Adt(list) => Body::Adt(constructors(list@)),
            TypeDeclBody::Native => Body::Native,
        }
    }
}

#[derive(Debug)]
pub struct TypeDecl {
    pub name: String,
    pub params: Vec<String>,
    pub body: TypeDeclBody,
}

pub ghost struct Decl {
    pub name: Seq<char>,
    pub params: Seq<Seq<char>>,
    pub body: Body,
}

impl TypeDecl {
    pub open spec fn view(&self) -> Decl {
        Decl { name: self.name@, params: texts(self.params@), body: self.body@ }
    }

    pub fn copy(&self) -> (copy: Self)
        ensures
            copy@ == self@,
    {
        TypeDecl {
            name: self.name.clone(),
            params: copy_texts(&self.params),
            body: self.body.copy(),
        }
    }

    pub fn same(&self, other: &Self) -> (same: bool)
        ensures
            same == (self@ == other@),
    {
        same_text(self.name.as_str(), other.name.as_str()) && same_names(&self.params, &other.params)
            && self.body.same(&other.body)
    }
}

pub fn same_names(left: &Vec<String>, right: &Vec<String>) -> (same: bool)
    ensures
        same == (texts(left@) == texts(right@)),
{
    if left.len() != right.len() {
        assert(texts(left@).len() != texts(right@).len());
        return false;
    }
    let mut i: usize = 0;
    while i < left.len()
        invariant
            i <= left@.len() == right@.len(),
            forall|j: int| 0 <= j < i ==> #[trigger] texts(left@)[j] == texts(right@)[j],
        decreases left@.len() - i,
    {
        if !same_text(left[i].as_str(), right[i].as_str()) {
            assert(texts(left@)[i as int] != texts(right@)[i as int]);
            return false;
        }
        i = i + 1;
    }
    assert(texts(left@) =~= texts(right@));
    true
}

pub fn copy_fields(fields: &Vec<(String, MagType)>) -> (copy: Vec<(String, MagType)>)
    ensures
        field_types(copy@) == field_types(fields@),
{
    let mut copy: Vec<(String, MagType)> = Vec::new();
    let mut i: usize = 0;
    while i < fields.len()
        invariant
            i <= fields@.len(),
            copy@.len() == i,
            forall|j: int|
                0 <= j < i ==> (#[trigger] copy@[j]).0@ == fields@[j].0@ && copy@[j].1@
                    == fields@[j].1@,
        decreases fields@.len() - i,
    {
        let field = &fields[i];
        copy.push((field.0.clone(), field.1.copy()));
        i = i + 1;
    }
    assert(field_types(copy@) =~= field_types(fields@));
    copy
}

fn same_fields(left: &Vec<(String, MagType)>, right: &Vec<(String, MagType)>) -> (same: bool)
    ensures
        same == (field_types(left@) == field_types(right@)),
{
    if left.len() != right.len() {
        assert(field_types(left@).len() != field_types(right@).len());
        return false;
    }
    let mut i: usize = 0;
    while i < left.len()
        invariant
            i <= left@.len() == right@.len(),
            forall|j: int| 0 <= j < i ==> #[trigger] field_types(left@)[j] == field_types(right@)[j],
        decreases left@.len() - i,
    {
        if !same_text(left[i].0.as_str(), right[i].0.as_str()) || !left[i].1.same(&right[i].1) {
            assert(field_types(left@)[i as int] != field_types(right@)[i as int]);
            return false;
        }
        i = i + 1;
    }
    assert(field_types(left@) =~= field_types(right@));
    true
}

pub fn copy_constructors(list: &Vec<ConstructorDecl>) -> (copy: Vec<ConstructorDecl>)
    ensures
        constructors(copy@) == constructors(list@),
{
    let mut copy: Vec<ConstructorDecl> = Vec::new();
    let mut i: usize = 0;
    while i < list.len()
        invariant
            i <= list@.len(),
            copy@.len() == i,
            forall|j: int| 0 <= j < i ==> (#[trigger] copy@[j])@ == list@[j]@,
        decreases list@.len() - i,
    {
        copy.push(ConstructorDecl { id: list[i].id.copy(), payload: list[i].payload.copy() });
        i = i + 1;
    }
    assert(constructors(copy@) =~= constructors(list@));
    copy
}

fn same_constructors(left: &Vec<ConstructorDecl>, right: &Vec<ConstructorDecl>) -> (same: bool)
    ensures
        same == (constructors(left@) == constructors(right@)),
{
    if left.len() != right.len() {
        assert(constructors(left@).len() != constructors(right@).len());
        return false;
    }
    let mut i: usize = 0;
    while i < left.len()
        invariant
            i <= left@.len() == right@.len(),
            forall|j: int|
                0 <= j < i ==> #[trigger] constructors(left@)[j] == constructors(right@)[j],
        decreases left@.len() - i,
    {
        if !left[i].id.same(&right[i].id) || !left[i].payload.same(&right[i].payload) {
            assert(constructors(left@)[i as int] != constructors(right@)[i as int]);
            return false;
        }
        i = i + 1;
    }
    assert(constructors(left@) =~= constructors(right@));
    true
}

impl TypeDeclBody {
    pub fn copy(&self) -> (copy: Self)
        ensures
            copy@ == self@,
    {
        match self {
            TypeDeclBody::Fields(fields) => TypeDeclBody::Fields(copy_fields(fields)),
            TypeDeclBody::TransparentAlias(ty) => TypeDeclBody::TransparentAlias(ty.copy()),
            TypeDeclBody::Alias(ty) => TypeDeclBody::Alias(ty.copy()),
            TypeDeclBody::Adt(list) => TypeDeclBody::Adt(copy_constructors(list)),
            TypeDeclBody::Native => TypeDeclBody::Native,
        }
    }

    pub fn same(&self, other: &Self) -> (same: bool)
        ensures
            same == (self@ == other@),
    {
        match (self, other) {
            (TypeDeclBody::Fields(left), TypeDeclBody::Fields(right)) => same_fields(left, right),
            (TypeDeclBody::TransparentAlias(left), TypeDeclBody::TransparentAlias(right)) => {
                left.same(right)
            },
            (TypeDeclBody::Alias(left), TypeDeclBody::Alias(right)) => left.same(right),
            (TypeDeclBody::Adt(left), TypeDeclBody::Adt(right)) => same_constructors(left, right),
            (TypeDeclBody::Native, TypeDeclBody::Native) => true,
            _ => false,
        }
    }
}

// ---------------------------------------------------------------------------
// Concrete types
// ---------------------------------------------------------------------------

/// A type without variables, with what its names stand for.
#[derive(Debug)]
pub enum ConcreteType {
    JsonValue,
    Unit,
    Bool,
    Int,
    Float,
    String,
    Named { name: String, arguments: Vec<ConcreteType>, body: ConcreteNamedBody },
    Adt { name: String, arguments: Vec<ConcreteType>, constructors: Vec<ConcreteConstructor> },
    List { item: Box<ConcreteType> },
    SetOf { item: Box<ConcreteType> },
    MapOf { key: Box<ConcreteType>, value: Box<ConcreteType> },
    Product { items: Vec<ConcreteType> },
}

#[derive(Debug)]
pub enum ConcreteNamedBody {
    Fields { fields: Vec<(String, ConcreteType)> },
    Alias { ty: Box<ConcreteType> },
}

#[derive(Debug)]
pub struct ConcreteConstructor {
    pub name: String,
    pub payload: ConcreteType,
}

pub ghost enum Concrete {
    JsonValue,
    Unit,
    Bool,
    Int,
    Float,
    String,
    Named(Seq<char>, Seq<Concrete>, ConcreteBody),
    Adt(Seq<char>, Seq<Concrete>, Seq<(Seq<char>, Concrete)>),
    List(Box<Concrete>),
    SetOf(Box<Concrete>),
    MapOf(Box<Concrete>, Box<Concrete>),
    Product(Seq<Concrete>),
}

pub ghost enum ConcreteBody {
    Fields(Seq<(Seq<char>, Concrete)>),
    Alias(Box<Concrete>),
}

impl ConcreteType {
    pub open spec fn view(&self) -> Concrete
        decreases self,
    {
        match self {
            ConcreteType::JsonValue => Concrete::JsonValue,
            ConcreteType::Unit => Concrete::Unit,
            ConcreteType::Bool => Concrete::Bool,
            ConcreteType::Int => Concrete::Int,
            ConcreteType::Float => Concrete::Float,
            ConcreteType::String => Concrete::String,
            ConcreteType::Named { name, arguments, body } => Concrete::Named(
                name@,
                concretes(arguments@),
                body.view(),
            ),
            ConcreteType::Adt { name, arguments, constructors } => Concrete::Adt(
                name@,
                concretes(arguments@),
                payloads(constructors@),
            ),
            ConcreteType::List { item } => Concrete::List(Box::new((*item).view())),
            ConcreteType::SetOf { item } => Concrete::SetOf(Box::new((*item).view())),
            ConcreteType::MapOf { key, value } => Concrete::MapOf(
                Box::new((*key).view()),
                Box::new((*value).view()),
            ),
            ConcreteType::Product { items } => Concrete::Product(concretes(items@)),
        }
    }
}

impl ConcreteNamedBody {
    pub open spec fn view(&self) -> ConcreteBody
        decreases self,
    {
        match self {
            ConcreteNamedBody::Fields { fields } => ConcreteBody::Fields(concrete_fields(fields@)),
            ConcreteNamedBody::Alias { ty } => ConcreteBody::Alias(Box::new((*ty).view())),
        }
    }
}

pub open spec fn concretes(types: Seq<ConcreteType>) -> Seq<Concrete>
    decreases types,
{
    Seq::new(
        types.len(),
        |i: int|
            if 0 <= i < types.len() {
                types[i].view()
            } else {
                arbitrary()
            },
    )
}

pub open spec fn concrete_fields(fields: Seq<(String, ConcreteType)>) -> Seq<(Seq<char>, Concrete)>
    decreases fields,
{
    Seq::new(
        fields.len(),
        |i: int|
            if 0 <= i < fields.len() {
                (fields[i].0@, fields[i].1.view())
            } else {
                arbitrary()
            },
    )
}

pub open spec fn payloads(list: Seq<ConcreteConstructor>) -> Seq<(Seq<char>, Concrete)>
    decreases list,
{
    Seq::new(
        list.len(),
        |i: int|
            if 0 <= i < list.len() {
                (list[i].name@, list[i].payload.view())
            } else {
                arbitrary()
            },
    )
}

impl ConcreteType {
    pub fn copy(&self) -> (copy: Self)
        ensures
            copy@ == self@,
        decreases self,
    {
        match self {
            ConcreteType::JsonValue => ConcreteType::JsonValue,
            ConcreteType::Unit => ConcreteType::Unit,
            ConcreteType::Bool => ConcreteType::Bool,
            ConcreteType::Int => ConcreteType::Int,
            ConcreteType::Float => ConcreteType::Float,
            ConcreteType::String => ConcreteType::String,
            ConcreteType::Named { name, arguments, body } => ConcreteType::Named {
                name: name.clone(),
                arguments: copy_concretes(arguments),
                body: body.copy(),
            },
            ConcreteType::Adt { name, arguments, constructors } => ConcreteType::Adt {
                name: name.clone(),
                arguments: copy_concretes(arguments),
                constructors: copy_payloads(constructors),
            },
            ConcreteType::List { item } => ConcreteType::List { item: Box::new(item.copy()) },
            ConcreteType::SetOf { item } => ConcreteType::SetOf { item: Box::new(item.copy()) },
            ConcreteType::MapOf { key, value } => ConcreteType::MapOf {
                key: Box::new(key.copy()),
                value: Box::new(value.copy()),
            },
            ConcreteType::Product { items } => ConcreteType::Product {
                items: copy_concretes(items),
            },
        }
    }

    pub fn same(&self, other: &Self) -> (same: bool)
        ensures
            same == (self@ == other@),
        decreases self,
    {
        match (self, other) {
            (ConcreteType::JsonValue, ConcreteType::JsonValue) => true,
            (ConcreteType::Unit, ConcreteType::Unit) => true,
            (ConcreteType::Bool, ConcreteType::Bool) => true,
            (ConcreteType::Int, ConcreteType::Int) => true,
            (ConcreteType::Float, ConcreteType::Float) => true,
            (ConcreteType::String, ConcreteType::String) => true,
            (
                ConcreteType::Named { name: left, arguments: left_args, body: left_body },
                ConcreteType::Named { name: right, arguments: right_args, body: right_body },
            ) => same_text(left.as_str(), right.as_str()) && same_concretes(left_args, right_args)
                && left_body.same(right_body),
            (
                ConcreteType::Adt { name: left, arguments: left_args, constructors: left_list },
                ConcreteType::Adt { name: right, arguments: right_args, constructors: right_list },
            ) => same_text(left.as_str(), right.as_str()) && same_concretes(left_args, right_args)
                && same_payloads(left_list, right_list),
            (ConcreteType::List { item: left }, ConcreteType::List { item: right }) => left.same(
                right,
            ),
            (ConcreteType::SetOf { item: left }, ConcreteType::SetOf { item: right }) => left.same(
                right,
            ),
            (
                ConcreteType::MapOf { key: left_key, value: left },
                ConcreteType::MapOf { key: right_key, value: right },
            ) => left_key.same(right_key) && left.same(right),
            (ConcreteType::Product { items: left }, ConcreteType::Product { items: right }) => {
                same_concretes(left, right)
            },
            _ => false,
        }
    }
}

impl ConcreteNamedBody {
    pub fn copy(&self) -> (copy: Self)
        ensures
            copy@ == self@,
        decreases self,
    {
        match self {
            ConcreteNamedBody::Fields { fields } => ConcreteNamedBody::Fields {
                fields: copy_concrete_fields(fields),
            },
            ConcreteNamedBody::Alias { ty } => ConcreteNamedBody::Alias {
                ty: Box::new(ty.copy()),
            },
        }
    }

    pub fn same(&self, other: &Self) -> (same: bool)
        ensures
            same == (self@ == other@),
        decreases self,
    {
        match (self, other) {
            (
                ConcreteNamedBody::Fields { fields: left },
                ConcreteNamedBody::Fields { fields: right },
            ) => same_concrete_fields(left, right),
            (ConcreteNamedBody::Alias { ty: left }, ConcreteNamedBody::Alias { ty: right }) => {
                left.same(right)
            },
            _ => false,
        }
    }
}

pub fn copy_concretes(types: &Vec<ConcreteType>) -> (copy: Vec<ConcreteType>)
    ensures
        concretes(copy@) == concretes(types@),
    decreases types,
{
    let mut copy: Vec<ConcreteType> = Vec::new();
    let mut i: usize = 0;
    while i < types.len()
        invariant
            i <= types@.len(),
            copy@.len() == i,
            forall|j: int| 0 <= j < i ==> (#[trigger] copy@[j])@ == types@[j]@,
        decreases types@.len() - i,
    {
        copy.push(types[i].copy());
        i = i + 1;
    }
    assert(concretes(copy@) =~= concretes(types@));
    copy
}

pub fn same_concretes(left: &Vec<ConcreteType>, right: &Vec<ConcreteType>) -> (same: bool)
    ensures
        same == (concretes(left@) == concretes(right@)),
    decreases left,
{
    if left.len() != right.len() {
        assert(concretes(left@).len() != concretes(right@).len());
        return false;
    }
    let mut i: usize = 0;
    while i < left.len()
        invariant
            i <= left@.len() == right@.len(),
            forall|j: int| 0 <= j < i ==> #[trigger] concretes(left@)[j] == concretes(right@)[j],
        decreases left@.len() - i,
    {
        if !left[i].same(&right[i]) {
            assert(concretes(left@)[i as int] != concretes(right@)[i as int]);
            return false;
        }
        i = i + 1;
    }
    assert(concretes(left@) =~= concretes(right@));
    true
}

pub fn copy_concrete_fields(fields: &Vec<(String, ConcreteType)>) -> (copy: Vec<
    (String, ConcreteType),
>)
    ensures
        concrete_fields(copy@) == concrete_fields(fields@),
    decreases fields,
{
    let mut copy: Vec<(String, ConcreteType)> = Vec::new();
    let mut i: usize = 0;
    while i < fields.len()
        invariant
            i <= fields@.len(),
            copy@.len() == i,
            forall|j: int|
                0 <= j < i ==> (#[trigger] copy@[j]).0@ == fields@[j].0@ && copy@[j].1@
                    == fields@[j].1@,
        decreases fields@.len() - i,
    {
        let field = &fields[i];
        copy.push((field.0.clone(), field.1.copy()));
        i = i + 1;
    }
    assert(concrete_fields(copy@) =~= concrete_fields(fields@));
    copy
}

fn same_concrete_fields(
    left: &Vec<(String, ConcreteType)>,
    right: &Vec<(String, ConcreteType)>,
) -> (same: bool)
    ensures
        same == (concrete_fields(left@) == concrete_fields(right@)),
    decreases left,
{
    if left.len() != right.len() {
        assert(concrete_fields(left@).len() != concrete_fields(right@).len());
        return false;
    }
    let mut i: usize = 0;
    while i < left.len()
        invariant
            i <= left@.len() == right@.len(),
            forall|j: int|
                0 <= j < i ==> #[trigger] concrete_fields(left@)[j] == concrete_fields(right@)[j],
        decreases left@.len() - i,
    {
        let l = &left[i];
        let r = &right[i];
        if !same_text(l.0.as_str(), r.0.as_str()) || !l.1.same(&r.1) {
            assert(concrete_fields(left@)[i as int] != concrete_fields(right@)[i as int]);
            return false;
        }
        i = i + 1;
    }
    assert(concrete_fields(left@) =~= concrete_fields(right@));
    true
}

pub fn copy_payloads(list: &Vec<ConcreteConstructor>) -> (copy: Vec<ConcreteConstructor>)
    ensures
        payloads(copy@) == payloads(list@),
    decreases list,
{
    let mut copy: Vec<ConcreteConstructor> = Vec::new();
    let mut i: usize = 0;
    while i < list.len()
        invariant
            i <= list@.len(),
            copy@.len() == i,
            forall|j: int|
                0 <= j < i ==> (#[trigger] copy@[j]).name@ == list@[j].name@ && copy@[j].payload@
                    == list@[j].payload@,
        decreases list@.len() - i,
    {
        let constructor = &list[i];
        copy.push(
            ConcreteConstructor {
                name: constructor.name.clone(),
                payload: constructor.payload.copy(),
            },
        );
        i = i + 1;
    }
    assert(payloads(copy@) =~= payloads(list@));
    copy
}

fn same_payloads(left: &Vec<ConcreteConstructor>, right: &Vec<ConcreteConstructor>) -> (same: bool)
    ensures
        same == (payloads(left@) == payloads(right@)),
    decreases left,
{
    if left.len() != right.len() {
        assert(payloads(left@).len() != payloads(right@).len());
        return false;
    }
    let mut i: usize = 0;
    while i < left.len()
        invariant
            i <= left@.len() == right@.len(),
            forall|j: int| 0 <= j < i ==> #[trigger] payloads(left@)[j] == payloads(right@)[j],
        decreases left@.len() - i,
    {
        let l = &left[i];
        let r = &right[i];
        if !same_text(l.name.as_str(), r.name.as_str()) || !l.payload.same(&r.payload) {
            assert(payloads(left@)[i as int] != payloads(right@)[i as int]);
            return false;
        }
        i = i + 1;
    }
    assert(payloads(left@) =~= payloads(right@));
    true
}

/// The type that a concrete type was resolved from, up to other names.
pub open spec fn abstracted(concrete: Concrete) -> Ty
    decreases concrete,
{
    match concrete {
        Concrete::JsonValue => Ty::JsonValue,
        Concrete::Unit => Ty::Unit,
        Concrete::Bool => Ty::Bool,
        Concrete::Int => Ty::Int,
        Concrete::Float => Ty::Float,
        Concrete::String => Ty::String,
        Concrete::Named(name, arguments, _) => Ty::Named(name, abstracted_all(arguments)),
        Concrete::Adt(name, arguments, _) => Ty::Named(name, abstracted_all(arguments)),
        Concrete::List(item) => Ty::List(Box::new(abstracted(*item))),
        Concrete::SetOf(item) => Ty::SetOf(Box::new(abstracted(*item))),
        Concrete::MapOf(key, value) => Ty::MapOf(
            Box::new(abstracted(*key)),
            Box::new(abstracted(*value)),
        ),
        Concrete::Product(items) => Ty::Product(abstracted_all(items)),
    }
}

pub open spec fn abstracted_all(types: Seq<Concrete>) -> Seq<Ty>
    decreases types,
{
    Seq::new(
        types.len(),
        |i: int|
            if 0 <= i < types.len() {
                abstracted(types[i])
            } else {
                arbitrary()
            },
    )
}

impl ConcreteType {
    pub fn to_mag_type(&self) -> (ty: MagType)
        ensures
            ty@ == abstracted(self@),
        decreases self,
    {
        match self {
            ConcreteType::JsonValue => MagType::JsonValue,
            ConcreteType::Unit => MagType::Unit,
            ConcreteType::Bool => MagType::Bool,
            ConcreteType::Int => MagType::Int,
            ConcreteType::Float => MagType::Float,
            ConcreteType::String => MagType::String,
            ConcreteType::Named { name, arguments, .. } => MagType::Named(
                name.clone(),
                to_mag_types(arguments),
            ),
            ConcreteType::Adt { name, arguments, .. } => MagType::Named(
                name.clone(),
                to_mag_types(arguments),
            ),
            ConcreteType::List { item } => MagType::List(Box::new(item.to_mag_type())),
            ConcreteType::SetOf { item } => MagType::SetOf(Box::new(item.to_mag_type())),
            ConcreteType::MapOf { key, value } => MagType::MapOf(
                Box::new(key.to_mag_type()),
                Box::new(value.to_mag_type()),
            ),
            ConcreteType::Product { items } => MagType::Product(to_mag_types(items)),
        }
    }
}

fn to_mag_types(types: &Vec<ConcreteType>) -> (results: Vec<MagType>)
    ensures
        tys(results@) == abstracted_all(concretes(types@)),
    decreases types,
{
    let mut results: Vec<MagType> = Vec::new();
    let mut i: usize = 0;
    while i < types.len()
        invariant
            i <= types@.len(),
            results@.len() == i,
            forall|j: int| 0 <= j < i ==> (#[trigger] results@[j])@ == abstracted(types@[j]@),
        decreases types@.len() - i,
    {
        results.push(types[i].to_mag_type());
        i = i + 1;
    }
    assert(tys(results@) =~= abstracted_all(concretes(types@)));
    results
}

} // verus!
