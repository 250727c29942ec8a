//! The values of programs.

use crate::checked::{BindingId, CheckedFn, Typed, TypedFn, copy_name, option_name};
use crate::declare::{
    Concrete, ConcreteType, ConstructorDeclarationId, ConstructorId, Decl, TypeDecl, abstracted,
};
use crate::env::{Named, Slot, copy_scopes, scope_views};
use crate::json::{Data, Float, Json, Num};
use crate::text::{copy_texts, texts};
use crate::types::{MagType, Ty, copy_types, tys};
use vstd::prelude::*;

verus! {

#[derive(Debug)]
pub struct FnValue {
    /// A binding of its own, by which the function is told apart from others.
    pub id: BindingId,
    pub name: Option<String>,
    pub type_params: Vec<String>,
    pub equality_params: Vec<String>,
    pub params: Vec<String>,
    pub param_types: Vec<MagType>,
    pub return_type: MagType,
    pub checked: CheckedFn,
    /// The scopes that the function was made in.
    pub closure: Vec<Vec<Slot>>,
}

#[derive(Debug)]
pub enum Value {
    Unit,
    Str(String),
    Int(i64),
    Float(Float),
    Bool(bool),
    Keyword(String),
    Symbol(String),
    List(Vec<Value>),
    /// An ordered product; each position keeps its own type.
    Product(Vec<Value>),
    /// Named fields, in ascending order of their names.
    Fields(Vec<(String, Value)>),
    MapOf(Vec<(Value, Value)>),
    SetOf(Vec<Value>),
    Fn(Box<FnValue>),
    BuiltinFn(String),
    Type(MagType),
    TypeDecl(TypeDecl),
    TypeTag(ConcreteType),
    TypeDescriptor(ConcreteType),
    TypeSchema(Json),
    SemanticTypeId(String),
    PackedValue(Box<Value>),
    JsonValue(Json),
    HostInputs(Json),
    Artifact(Json),
    Adt { owner: MagType, constructor: ConstructorDeclarationId, payload: Box<Value> },
    ModuleNamespace(Vec<(String, Value)>),
    Typed(Box<Value>, MagType),
}

pub ghost struct FnVal {
    pub id: BindingId,
    pub name: Option<Seq<char>>,
    pub type_params: Seq<Seq<char>>,
    pub equality_params: Seq<Seq<char>>,
    pub params: Seq<Seq<char>>,
    pub param_types: Seq<Ty>,
    pub return_type: Ty,
    pub checked: TypedFn,
    pub closure: Seq<Seq<Named>>,
}

pub ghost enum Val {
    Unit,
    Str(Seq<char>),
    Int(int),
    Float(Num),
    Bool(bool),
    Keyword(Seq<char>),
    Symbol(Seq<char>),
    List(Seq<Val>),
    Product(Seq<Val>),
    Fields(Seq<(Seq<char>, Val)>),
    MapOf(Seq<(Val, Val)>),
    SetOf(Seq<Val>),
    Fn(Box<FnVal>),
    BuiltinFn(Seq<char>),
    Type(Ty),
    TypeDecl(Decl),
    TypeTag(Concrete),
    TypeDescriptor(Concrete),
    TypeSchema(Data),
    SemanticTypeId(Seq<char>),
    PackedValue(Box<Val>),
    JsonValue(Data),
    HostInputs(Data),
    Artifact(Data),
    Adt(Ty, ConstructorId, Box<Val>),
    ModuleNamespace(Seq<(Seq<char>, Val)>),
    Typed(Box<Val>, Ty),
}

impl FnValue {
    pub open spec fn view(&self) -> FnVal
        decreases self,
    {
        FnVal {
            id: self.id,
            name: option_name(self.name),
            type_params: texts(self.type_params@),
            equality_params: texts(self.equality_params@),
            params: texts(self.params@),
            param_types: tys(self.param_types@),
            return_type: self.return_type@,
            checked: self.checked@,
            closure: scope_views(self.closure@),
        }
    }
}

impl Value {
    pub open spec fn view(&self) -> Val
        decreases self,
    {
        match self {
            Value::Unit => Val::Unit,
            Value::Str(value) => Val::Str(value@),
            Value::Int(value) => Val::Int(*value as int),
            Value::Float(value) => Val::Float(value@),
            Value::Bool(value) => Val::Bool(*value),
            Value::Keyword(name) => Val::Keyword(name@),
            Value::Symbol(name) => Val::Symbol(name@),
            Value::List(items) => Val::List(vals(items@)),
            Value::Product(items) => Val::Product(vals(items@)),
            Value::Fields(fields) => Val::Fields(val_fields(fields@)),
            Value::MapOf(entries) => Val::MapOf(val_entries(entries@)),
            Value::SetOf(items) => Val::SetOf(vals(items@)),
            Value::Fn(function) => Val::Fn(Box::new((*function).view())),
            Value::BuiltinFn(name) => Val::BuiltinFn(name@),
            Value::Type(ty) => Val::Type(ty@),
            Value::TypeDecl(declaration) => Val::TypeDecl(declaration@),
            Value::TypeTag(ty) => Val::TypeTag(ty@),
            Value::TypeDescriptor(ty) => Val::TypeDescriptor(ty@),
            Value::TypeSchema(schema) => Val::TypeSchema(schema@),
            Value::SemanticTypeId(id) => Val::SemanticTypeId(id@),
            Value::PackedValue(value) => Val::PackedValue(Box::new((*value).view())),
            Value::JsonValue(json) => Val::JsonValue(json@),
            Value::HostInputs(json) => Val::HostInputs(json@),
            Value::Artifact(json) => Val::Artifact(json@),
            Value::Adt { owner, constructor, payload } => Val::Adt(
                owner@,
                constructor@,
                Box::new((*payload).view()),
            ),
            Value::ModuleNamespace(members) => Val::ModuleNamespace(val_fields(members@)),
            Value::Typed(value, ty) => Val::Typed(Box::new((*value).view()), ty@),
        }
    }
}

pub open spec fn vals(items: Seq<Value>) -> Seq<Val>
    decreases items,
{
    Seq::new(
        items.len(),
        |i: int|
            if 0 <= i < items.len() {
                items[i].view()
            } else {
                arbitrary()
            },
    )
}

pub open spec fn val_fields(fields: Seq<(String, Value)>) -> Seq<(Seq<char>, Val)>
    decreases fields,
{
    Seq::new(
        fields.len(),
        |i: int|
            if 0 <= i < fields.len() {
                (fields[i].0@, fields[i].1.view())
            } else {
                arbitrary()
            },
    )
}

pub open spec fn val_entries(entries: Seq<(Value, Value)>) -> Seq<(Val, Val)>
    decreases entries,
{
    Seq::new(
        entries.len(),
        |i: int|
            if 0 <= i < entries.len() {
                (entries[i].0.view(), entries[i].1.view())
            } else {
                arbitrary()
            },
    )
}

impl FnValue {
    pub fn copy(&self) -> (copy: Self)
        ensures
            copy@ == self@,
        decreases self,
    {
        FnValue {
            id: self.id,
            name: copy_name(&self.name),
            type_params: copy_texts(&self.type_params),
            equality_params: copy_texts(&self.equality_params),
            params: copy_texts(&self.params),
            param_types: copy_types(&self.param_types),
            return_type: self.return_type.copy(),
            checked: self.checked.copy(),
            closure: copy_scopes(&self.closure),
        }
    }
}

impl Value {
    pub fn copy(&self) -> (copy: Self)
        ensures
            copy@ == self@,
        decreases self,
    {
        match self {
            Value::Unit => Value::Unit,
            Value::Str(value) => Value::Str(value.clone()),
            Value::Int(value) => Value::Int(*value),
            Value::Float(value) => Value::Float(value.copy()),
            Value::Bool(value) => Value::Bool(*value),
            Value::Keyword(name) => Value::Keyword(name.clone()),
            Value::Symbol(name) => Value::Symbol(name.clone()),
            Value::List(items) => Value::List(copy_values(items)),
            Value::Product(items) => Value::Product(copy_values(items)),
            Value::Fields(fields) => Value::Fields(copy_val_fields(fields)),
            Value::MapOf(entries) => Value::MapOf(copy_entries(entries)),
            Value::SetOf(items) => Value::SetOf(copy_values(items)),
            Value::Fn(function) => Value::Fn(Box::new(function.copy())),
            Value::BuiltinFn(name) => Value::BuiltinFn(name.clone()),
            Value::Type(ty) => Value::Type(ty.copy()),
            Value::TypeDecl(declaration) => Value::TypeDecl(declaration.copy()),
            Value::TypeTag(ty) => Value::TypeTag(ty.copy()),
            Value::TypeDescriptor(ty) => Value::TypeDescriptor(ty.copy()),
            Value::TypeSchema(schema) => Value::TypeSchema(schema.copy()),
            Value::SemanticTypeId(id) => Value::SemanticTypeId(id.clone()),
            Value::PackedValue(value) => Value::PackedValue(Box::new(value.copy())),
            Value::JsonValue(json) => Value::JsonValue(json.copy()),
            Value::HostInputs(json) => Value::HostInputs(json.copy()),
            Value::Artifact(json) => Value::Artifact(json.copy()),
            Value::Adt { owner, constructor, payload } => Value::Adt {
                owner: owner.copy(),
                constructor: constructor.copy(),
                payload: Box::new(payload.copy()),
            },
            Value::ModuleNamespace(members) => Value::ModuleNamespace(copy_val_fields(members)),
            Value::Typed(value, ty) => Value::Typed(Box::new(value.copy()), ty.copy()),
        }
    }
}

pub fn copy_values(items: &Vec<Value>) -> (copy: Vec<Value>)
    ensures
        vals(copy@) == vals(items@),
    decreases items,
{
    let mut copy: Vec<Value> = Vec::new();
    let mut i: usize = 0;
    while i < items.len()
        invariant
            i <= items@.len(),
            copy@.len() == i,
            forall|j: int| 0 <= j < i ==> (#[trigger] copy@[j])@ == items@[j]@,
        decreases items@.len() - i,
    {
        copy.push(items[i].copy());
        i = i + 1;
    }
    assert(vals(copy@) =~= vals(items@));
    copy
}

pub fn copy_val_fields(fields: &Vec<(String, Value)>) -> (copy: Vec<(String, Value)>)
    ensures
        val_fields(copy@) == val_fields(fields@),
    decreases fields,
{
    let mut copy: Vec<(String, Value)> = Vec::new();
    let mut i: usize = 0;
    while i < fields.len()
        invariant
            i <= fields@.len(),
            copy@.len() == i,
            forall|j: int|
                0 <= j < i ==> (#[trigger] copy@[j]).0@ == fields@[j].0@ && copy@[j].1@
                    == fields@[j].1@,
        decreases fields@.len() - i,
    {
        let field = &fields[i];
        copy.push((field.0.clone(), field.1.copy()));
        i = i + 1;
    }
    assert(val_fields(copy@) =~= val_fields(fields@));
    copy
}

pub fn copy_entries(entries: &Vec<(Value, Value)>) -> (copy: Vec<(Value, Value)>)
    ensures
        val_entries(copy@) == val_entries(entries@),
    decreases entries,
{
    let mut copy: Vec<(Value, Value)> = Vec::new();
    let mut i: usize = 0;
    while i < entries.len()
        invariant
            i <= entries@.len(),
            copy@.len() == i,
            forall|j: int|
                0 <= j < i ==> (#[trigger] copy@[j]).0@ == entries@[j].0@ && copy@[j].1@
                    == entries@[j].1@,
        decreases entries@.len() - i,
    {
        let entry = &entries[i];
        copy.push((entry.0.copy(), entry.1.copy()));
        i = i + 1;
    }
    assert(val_entries(copy@) =~= val_entries(entries@));
    copy
}

// ---------------------------------------------------------------------------
// Kinds and types of values
// ---------------------------------------------------------------------------

/// The kind of a value, as messages name it.
pub open spec fn val_kind(value: Val) -> Seq<char>
    decreases value,
{
    match value {
        Val::Unit => "unit"@,
        Val::Str(_) => "string"@,
        Val::Int(_) => "int"@,
        Val::Float(_) => "float"@,
        Val::Bool(_) => "bool"@,
        Val::Keyword(_) => "keyword"@,
        Val::Symbol(_) => "symbol"@,
        Val::List(_) => "list"@,
        Val::Product(_) => "product"@,
        Val::Fields(_) => "fields"@,
        Val::MapOf(_) => "map"@,
        Val::SetOf(_) => "set"@,
        Val::Fn(_) => "fn"@,
        Val::BuiltinFn(_) => "builtin-fn"@,
        Val::Type(_) => "type"@,
        Val::TypeDecl(_) => "type"@,
        Val::TypeTag(_) => "type-tag"@,
        Val::TypeDescriptor(_) => "type-descriptor"@,
        Val::TypeSchema(_) => "type-schema"@,
        Val::SemanticTypeId(_) => "semantic-type-id"@,
        Val::PackedValue(_) => "packed-value"@,
        Val::JsonValue(_) => "json-value"@,
        Val::HostInputs(_) => "host-inputs"@,
        Val::Artifact(_) => "artifact"@,
        Val::Adt(_, _, _) => "adt"@,
        Val::ModuleNamespace(_) => "module"@,
        Val::Typed(value, _) => val_kind(*value),
    }
}

/// The text that a value holds, under any type that it was given.
pub open spec fn val_text(value: Val) -> Option<Seq<char>>
    decreases value,
{
    match value {
        Val::Str(text) => Some(text),
        Val::Typed(value, _) => val_text(*value),
        _ => None,
    }
}

/// A value without the types that it was given.
pub open spec fn bare(value: Val) -> Val
    decreases value,
{
    match value {
        Val::Typed(value, _) => bare(*value),
        other => other,
    }
}

impl Value {
    pub fn as_str(&self) -> (text: Option<&str>)
        ensures
            match (text, val_text(self@)) {
                (Some(text), Some(view)) => text@ == view,
                (None, None) => true,
                _ => false,
            },
        decreases self,
    {
        match self {
            Value::Str(text) => Some(text.as_str()),
            Value::Typed(value, _) => value.as_str(),
            _ => None,
        }
    }

    pub fn kind_name(&self) -> (name: &'static str)
        ensures
            name@ == val_kind(self@),
        decreases self,
    {
        match self {
            Value::Unit => "unit",
            Value::Str(_) => "string",
            Value::Int(_) => "int",
            Value::Float(_) => "float",
            Value::Bool(_) => "bool",
            Value::Keyword(_) => "keyword",
            Value::Symbol(_) => "symbol",
            Value::List(_) => "list",
            Value::Product(_) => "product",
            Value::Fields(_) => "fields",
            Value::MapOf(_) => "map",
            Value::SetOf(_) => "set",
            Value::Fn(_) => "fn",
            Value::BuiltinFn(_) => "builtin-fn",
            Value::Type(_) => "type",
            Value::TypeDecl(_) => "type",
            Value::TypeTag(_) => "type-tag",
            Value::TypeDescriptor(_) => "type-descriptor",
            Value::TypeSchema(_) => "type-schema",
            Value::SemanticTypeId(_) => "semantic-type-id",
            Value::PackedValue(_) => "packed-value",
            Value::JsonValue(_) => "json-value",
            Value::HostInputs(_) => "host-inputs",
            Value::Artifact(_) => "artifact",
            Value::Adt { .. } => "adt",
            Value::ModuleNamespace(_) => "module",
            Value::Typed(value, _) => value.kind_name(),
        }
    }
}

/// Strips the types that a value was given.
pub fn raw(value: &Value) -> (inner: &Value)
    ensures
        inner@ == bare(value@),
        !(inner is Typed),
    decreases value,
{
    match value {
        Value::Typed(inner, _) => raw(inner),
        other => other,
    }
}

/// The type of a value, as far as the value alone tells.
pub open spec fn type_of(value: Val) -> Option<Ty>
    decreases value, 0int,
{
    match value {
        Val::Unit => Some(Ty::Unit),
        Val::Bool(_) => Some(Ty::Bool),
        Val::Int(_) => Some(Ty::Int),
        Val::Float(_) => Some(Ty::Float),
        Val::Str(_) | Val::Keyword(_) | Val::Symbol(_) => Some(Ty::String),
        Val::List(items) => if items.len() == 0 {
            Some(Ty::EmptyList)
        } else {
            match type_of(items[0]) {
                Some(item) => Some(Ty::List(Box::new(item))),
                None => None,
            }
        },
        Val::Product(items) => match types_from(items, 0) {
            Some(types) => Some(Ty::Product(types)),
            None => None,
        },
        Val::Fields(_) | Val::ModuleNamespace(_) => None,
        Val::MapOf(entries) => if entries.len() == 0 {
            None
        } else {
            match (type_of(entries[0].0), type_of(entries[0].1)) {
                (Some(key), Some(value)) => Some(Ty::MapOf(Box::new(key), Box::new(value))),
                _ => None,
            }
        },
        Val::SetOf(items) => if items.len() == 0 {
            None
        } else {
            match type_of(items[0]) {
                Some(item) => Some(Ty::SetOf(Box::new(item))),
                None => None,
            }
        },
        Val::Fn(function) => Some(
            Ty::Function(function.param_types, Box::new(function.return_type)),
        ),
        Val::Type(ty) => Some(ty),
        Val::TypeDecl(declaration) => Some(Ty::Named(declaration.name, Seq::empty())),
        Val::TypeTag(ty) => Some(Ty::TypeTag(Box::new(abstracted(ty)))),
        Val::TypeDescriptor(_) => Some(Ty::TypeDescriptor),
        Val::TypeSchema(_) => Some(Ty::TypeSchema),
        Val::SemanticTypeId(_) => Some(Ty::SemanticTypeId),
        Val::PackedValue(_) => Some(Ty::PackedValue),
        Val::JsonValue(_) => Some(Ty::JsonValue),
        Val::HostInputs(_) => Some(Ty::HostInputs),
        Val::Artifact(_) => Some(Ty::Artifact),
        Val::Adt(owner, _, _) => Some(owner),
        Val::Typed(_, ty) => Some(ty),
        Val::BuiltinFn(_) => None,
    }
}

/// The types of the items from index `i` on.
pub open spec fn types_from(items: Seq<Val>, i: int) -> Option<Seq<Ty>>
    decreases items, items.len() - i,
{
    if i < 0 || i >= items.len() {
        Some(Seq::empty())
    } else {
        match (type_of(items[i]), types_from(items, i + 1)) {
            (Some(first), Some(rest)) => Some(seq![first] + rest),
            _ => None,
        }
    }
}

/// The view of an optional type.
pub open spec fn option_ty(ty: Option<MagType>) -> Option<Ty> {
    match ty {
        Some(ty) => Some(ty@),
        None => None,
    }
}

pub fn value_type(value: &Value) -> (ty: Option<MagType>)
    ensures
        option_ty(ty) == type_of(value@),
    decreases value,
{
    match value {
        Value::Unit => Some(MagType::Unit),
        Value::Bool(_) => Some(MagType::Bool),
        Value::Int(_) => Some(MagType::Int),
        Value::Float(_) => Some(MagType::Float),
        Value::Str(_) | Value::Keyword(_) | Value::Symbol(_) => Some(MagType::String),
        Value::List(items) => {
            assert(vals(items@).len() == items@.len());
            if items.len() == 0 {
                Some(MagType::EmptyList)
            } else {
                match first_type(items) {
                    Some(item) => Some(MagType::List(Box::new(item))),
                    None => None,
                }
            }
        },
        Value::Product(items) => match value_types(items) {
            Some(types) => Some(MagType::Product(types)),
            None => None,
        },
        Value::Fields(_) | Value::ModuleNamespace(_) => None,
        Value::MapOf(entries) => {
            assert(val_entries(entries@).len() == entries@.len());
            if entries.len() == 0 {
                None
            } else {
                first_entry_type(entries)
            }
        },
        Value::SetOf(items) => {
            assert(vals(items@).len() == items@.len());
            if items.len() == 0 {
                None
            } else {
                match first_type(items) {
                    Some(item) => Some(MagType::SetOf(Box::new(item))),
                    None => None,
                }
            }
        },
        Value::Fn(function) => {
            let function: &FnValue = function;
            assert(function@.param_types == tys(function.param_types@));
            Some(
                MagType::Function(
                    copy_types(&function.param_types),
                    Box::new(function.return_type.copy()),
                ),
            )
        },
        Value::Type(ty) => Some(ty.copy()),
        Value::TypeDecl(declaration) => {
            let none: Vec<MagType> = Vec::new();
            assert(tys(none@) =~= Seq::empty());
            Some(MagType::Named(declaration.name.clone(), none))
        },
        Value::TypeTag(ty) => Some(MagType::TypeTag(Box::new(ty.to_mag_type()))),
        Value::TypeDescriptor(_) => Some(MagType::TypeDescriptor),
        Value::TypeSchema(_) => Some(MagType::TypeSchema),
        Value::SemanticTypeId(_) => Some(MagType::SemanticTypeId),
        Value::PackedValue(_) => Some(MagType::PackedValue),
        Value::JsonValue(_) => Some(MagType::JsonValue),
        Value::HostInputs(_) => Some(MagType::HostInputs),
        Value::Artifact(_) => Some(MagType::Artifact),
        Value::Adt { owner, .. } => Some(owner.copy()),
        Value::Typed(_, ty) => Some(ty.copy()),
        Value::BuiltinFn(_) => None,
    }
}

fn first_type(items: &Vec<Value>) -> (ty: Option<MagType>)
    requires
        items@.len() > 0,
    ensures
        option_ty(ty) == type_of(vals(items@)[0]),
    decreases items,
{
    assert(vals(items@)[0] == items@[0]@);
    value_type(&items[0])
}

fn first_entry_type(entries: &Vec<(Value, Value)>) -> (ty: Option<MagType>)
    requires
        entries@.len() > 0,
    ensures
        option_ty(ty) == (match (
            type_of(val_entries(entries@)[0].0),
            type_of(val_entries(entries@)[0].1),
        ) {
            (Some(key), Some(value)) => Some(Ty::MapOf(Box::new(key), Box::new(value))),
            _ => None,
        }),
    decreases entries,
{
    let entry = &entries[0];
    assert(val_entries(entries@)[0] == (entry.0@, entry.1@));
    match (value_type(&entry.0), value_type(&entry.1)) {
        (Some(key), Some(value)) => Some(MagType::MapOf(Box::new(key), Box::new(value))),
        _ => None,
    }
}

pub fn value_types(items: &Vec<Value>) -> (types: Option<Vec<MagType>>)
    ensures
        match (types, types_from(vals(items@), 0)) {
            (Some(types), Some(views)) => tys(types@) == views,
            (None, None) => true,
            _ => false,
        },
    decreases items,
{
    let ghost all = vals(items@);
    let mut types: Vec<MagType> = Vec::new();
    let mut i: usize = 0;
    while i < items.len()
        invariant
            i <= items@.len(),
            all == vals(items@),
            match types_from(all, 0) {
                Some(views) => match types_from(all, i as int) {
                    Some(rest) => views == tys(types@) + rest,
                    None => false,
                },
                None => types_from(all, i as int) is None,
            },
        decreases items@.len() - i,
    {
        assert(all[i as int] == items@[i as int]@);
        match value_type(&items[i]) {
            Some(ty) => {
                let ghost before = tys(types@);
                let ghost added = ty@;
                types.push(ty);
                proof {
                    assert(tys(types@) =~= before.push(added));
                    if let Some(rest) = types_from(all, i + 1) {
                        assert(before + (seq![added] + rest) =~= before.push(added) + rest);
                    }
                }
            },
            None => return None,
        }
        i = i + 1;
    }
    assert(tys(types@) + Seq::<Ty>::empty() =~= tys(types@));
    Some(types)
}

} // verus!
