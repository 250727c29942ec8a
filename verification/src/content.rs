//! Values as JSON documents, and documents as values.

use crate::compat::{substitute_fields, substituted_fields};
use crate::declare::{
    Body, Concrete, ConcreteBody, ConcreteNamedBody, ConcreteType, TypeDeclBody, concrete_fields,
    concretes, field_types,
};
use crate::env::{Env, World, decl_of};
use crate::error::{Failure, MagError};
use crate::json::{Data, Json, data_items, data_members};
use crate::order::{map_entries, mapped, precedes, text_before};
use crate::resolve::{TYPE_DEPTH_LIMIT, depth_error, depth_failure};
use crate::text::{cat2, cat3, cat4, cat6, count_text, decimal, same_text};
use crate::types::{MagType, Ty, substitute, substituted, ty_text, tys, zip_types, zipped};
use crate::value::{Val, Value, bare, raw, val_entries, val_fields, val_kind, vals};
use vstd::prelude::*;

verus! {

pub open spec fn documented(result: Result<Json, MagError>) -> Result<Data, Failure> {
    match result {
        Ok(json) => Ok(json@),
        Err(error) => Err(error@),
    }
}

pub open spec fn valued(result: Result<Value, MagError>) -> Result<Val, Failure> {
    match result {
        Ok(value) => Ok(value@),
        Err(error) => Err(error@),
    }
}

// ---------------------------------------------------------------------------
// Types
// ---------------------------------------------------------------------------

/// A document with two members.
pub open spec fn pair_object(
    first: Seq<char>,
    first_value: Data,
    second: Seq<char>,
    second_value: Data,
) -> Data {
    Data::Object(seq![(first, first_value), (second, second_value)])
}

pub open spec fn triple_object(
    first: Seq<char>,
    first_value: Data,
    second: Seq<char>,
    second_value: Data,
    third: Seq<char>,
    third_value: Data,
) -> Data {
    Data::Object(seq![(first, first_value), (second, second_value), (third, third_value)])
}

fn pair_json(first: &str, first_value: Json, second: &str, second_value: Json) -> (json: Json)
    ensures
        json@ == pair_object(first@, first_value@, second@, second_value@),
{
    let members = vec![(first.to_owned(), first_value), (second.to_owned(), second_value)];
    assert(data_members(members@) =~= seq![(first@, first_value@), (second@, second_value@)]);
    Json::Object(members)
}

fn triple_json(
    first: &str,
    first_value: Json,
    second: &str,
    second_value: Json,
    third: &str,
    third_value: Json,
) -> (json: Json)
    ensures
        json@ == triple_object(
            first@,
            first_value@,
            second@,
            second_value@,
            third@,
            third_value@,
        ),
{
    let members = vec![
        (first.to_owned(), first_value),
        (second.to_owned(), second_value),
        (third.to_owned(), third_value),
    ];
    assert(data_members(members@) =~= seq![
        (first@, first_value@),
        (second@, second_value@),
        (third@, third_value@),
    ]);
    Json::Object(members)
}

pub open spec fn primitive_json(name: Seq<char>) -> Data {
    pair_object("kind"@, Data::Str("primitive"@), "name"@, Data::Str(name))
}

pub open spec fn named_json(name: Seq<char>, arguments: Seq<Data>) -> Data {
    triple_object(
        "kind"@,
        Data::Str("named"@),
        "name"@,
        Data::Str(name),
        "arguments"@,
        Data::Array(arguments),
    )
}

/// The document that describes a type.
pub open spec fn concrete_json(ty: Concrete) -> Data
    decreases ty,
{
    match ty {
        Concrete::JsonValue => primitive_json("JsonValue"@),
        Concrete::Unit => primitive_json("Unit"@),
        Concrete::Bool => primitive_json("Bool"@),
        Concrete::Int => primitive_json("Int"@),
        Concrete::Float => primitive_json("Float"@),
        Concrete::String => primitive_json("String"@),
        Concrete::Named(name, arguments, body) => Data::Object(
            seq![
                ("kind"@, Data::Str("named"@)),
                ("name"@, Data::Str(name)),
                ("arguments"@, Data::Array(concrete_jsons(arguments))),
                ("body"@, body_json(body)),
            ],
        ),
        Concrete::Adt(name, arguments, _) => named_json(name, concrete_jsons(arguments)),
        Concrete::List(item) => pair_object(
            "kind"@,
            Data::Str("list"@),
            "item"@,
            concrete_json(*item),
        ),
        Concrete::SetOf(item) => pair_object(
            "kind"@,
            Data::Str("set"@),
            "item"@,
            concrete_json(*item),
        ),
        Concrete::MapOf(key, value) => triple_object(
            "kind"@,
            Data::Str("map"@),
            "key"@,
            concrete_json(*key),
            "value"@,
            concrete_json(*value),
        ),
        Concrete::Product(items) => pair_object(
            "kind"@,
            Data::Str("product"@),
            "items"@,
            Data::Array(concrete_jsons(items)),
        ),
    }
}

/// The document that describes what a named type stands for.
pub open spec fn body_json(body: ConcreteBody) -> Data
    decreases body,
{
    match body {
        ConcreteBody::Fields(fields) => pair_object(
            "kind"@,
            Data::Str("record"@),
            "fields"@,
            Data::Array(field_descriptions(fields)),
        ),
        ConcreteBody::Alias(ty) => pair_object(
            "kind"@,
            Data::Str("alias"@),
            "type"@,
            concrete_json(*ty),
        ),
    }
}

pub open spec fn field_descriptions(fields: Seq<(Seq<char>, Concrete)>) -> Seq<Data>
    decreases fields,
{
    Seq::new(
        fields.len(),
        |i: int|
            if 0 <= i < fields.len() {
                pair_object(
                    "name"@,
                    Data::Str(fields[i].0),
                    "type"@,
                    concrete_json(fields[i].1),
                )
            } else {
                arbitrary()
            },
    )
}

pub open spec fn concrete_jsons(types: Seq<Concrete>) -> Seq<Data>
    decreases types,
{
    Seq::new(
        types.len(),
        |i: int|
            if 0 <= i < types.len() {
                concrete_json(types[i])
            } else {
                arbitrary()
            },
    )
}

fn text_json(text: &str) -> (json: Json)
    ensures
        json@ == Data::Str(text@),
{
    Json::Str(text.to_owned())
}

fn primitive(name: &str) -> (json: Json)
    ensures
        json@ == primitive_json(name@),
{
    pair_json("kind", text_json("primitive"), "name", text_json(name))
}

pub fn concrete_type_to_json(ty: &ConcreteType) -> (json: Json)
    ensures
        json@ == concrete_json(ty@),
    decreases ty,
{
    match ty {
        ConcreteType::JsonValue => primitive("JsonValue"),
        ConcreteType::Unit => primitive("Unit"),
        ConcreteType::Bool => primitive("Bool"),
        ConcreteType::Int => primitive("Int"),
        ConcreteType::Float => primitive("Float"),
        ConcreteType::String => primitive("String"),
        ConcreteType::Named { name, arguments, body } => {
            let list = Json::Array(concrete_types_to_json(arguments));
            let described = describe_body(body);
            let ghost view = seq![
                ("kind"@, Data::Str("named"@)),
                ("name"@, Data::Str(name@)),
                ("arguments"@, list@),
                ("body"@, described@),
            ];
            let members = vec![
                ("kind".to_owned(), text_json("named")),
                ("name".to_owned(), text_json(name.as_str())),
                ("arguments".to_owned(), list),
                ("body".to_owned(), described),
            ];
            assert(data_members(members@) =~= view);
            Json::Object(members)
        },
        ConcreteType::Adt { name, arguments, .. } => {
            let arguments = concrete_types_to_json(arguments);
            triple_json(
                "kind",
                text_json("named"),
                "name",
                text_json(name.as_str()),
                "arguments",
                Json::Array(arguments),
            )
        },
        ConcreteType::List { item } => {
            let item = concrete_type_to_json(item);
            pair_json("kind", text_json("list"), "item", item)
        },
        ConcreteType::SetOf { item } => {
            let item = concrete_type_to_json(item);
            pair_json("kind", text_json("set"), "item", item)
        },
        ConcreteType::MapOf { key, value } => {
            let key = concrete_type_to_json(key);
            let value = concrete_type_to_json(value);
            triple_json("kind", text_json("map"), "key", key, "value", value)
        },
        ConcreteType::Product { items } => {
            let items = concrete_types_to_json(items);
            pair_json("kind", text_json("product"), "items", Json::Array(items))
        },
    }
}

fn describe_body(body: &ConcreteNamedBody) -> (json: Json)
    ensures
        json@ == body_json(body@),
    decreases body,
{
    match body {
        ConcreteNamedBody::Fields { fields } => {
            let list = Json::Array(describe_fields(fields));
            pair_json("kind", text_json("record"), "fields", list)
        },
        ConcreteNamedBody::Alias { ty } => {
            let described = concrete_type_to_json(ty);
            pair_json("kind", text_json("alias"), "type", described)
        },
    }
}

fn describe_fields(fields: &Vec<(String, ConcreteType)>) -> (list: Vec<Json>)
    ensures
        data_items(list@) == field_descriptions(concrete_fields(fields@)),
    decreases fields,
{
    let ghost all = concrete_fields(fields@);
    let mut list: Vec<Json> = Vec::new();
    let mut i: usize = 0;
    while i < fields.len()
        invariant
            i <= fields@.len(),
            list@.len() == i,
            all == concrete_fields(fields@),
            forall|j: int|
                0 <= j < i ==> (#[trigger] list@[j])@ == pair_object(
                    "name"@,
                    Data::Str(all[j].0),
                    "type"@,
                    concrete_json(all[j].1),
                ),
        decreases fields@.len() - i,
    {
        let field = &fields[i];
        assert(all[i as int] == (field.0@, field.1@));
        let ty = concrete_type_to_json(&field.1);
        list.push(pair_json("name", text_json(field.0.as_str()), "type", ty));
        i = i + 1;
    }
    assert(data_items(list@) =~= field_descriptions(all));
    list
}

pub fn concrete_types_to_json(types: &Vec<ConcreteType>) -> (list: Vec<Json>)
    ensures
        data_items(list@) == concrete_jsons(concretes(types@)),
    decreases types,
{
    let ghost all = concretes(types@);
    let mut list: Vec<Json> = Vec::new();
    let mut i: usize = 0;
    while i < types.len()
        invariant
            i <= types@.len(),
            list@.len() == i,
            all == concretes(types@),
            forall|j: int| 0 <= j < i ==> (#[trigger] list@[j])@ == concrete_json(all[j]),
        decreases types@.len() - i,
    {
        assert(all[i as int] == types@[i as int]@);
        list.push(concrete_type_to_json(&types[i]));
        i = i + 1;
    }
    assert(data_items(list@) =~= concrete_jsons(all));
    list
}

// ---------------------------------------------------------------------------
// Values to documents
// ---------------------------------------------------------------------------

pub open spec fn unserializable(value: Val) -> Failure {
    Failure::Eval("cannot serialize "@ + val_kind(value) + " to JSON"@)
}

/// The document that a value is written as.
pub open spec fn val_json(value: Val) -> Result<Data, Failure>
    decreases value, 0int,
{
    match value {
        Val::Unit => Ok(Data::Null),
        Val::Str(text) => Ok(Data::Str(text)),
        Val::Int(number) => Ok(Data::Int(number)),
        Val::Float(number) => if number.text == "null"@ {
            Ok(Data::Null)
        } else {
            Ok(Data::Float(number))
        },
        Val::Bool(flag) => Ok(Data::Bool(flag)),
        Val::Keyword(name) => Ok(Data::Str(":"@ + name)),
        Val::Symbol(name) => Ok(Data::Str(name)),
        Val::TypeTag(ty) => Ok(concrete_json(ty)),
        Val::TypeDescriptor(ty) => Ok(concrete_json(ty)),
        Val::TypeSchema(schema) => Ok(schema),
        Val::SemanticTypeId(id) => Ok(Data::Str(id)),
        Val::PackedValue(inner) => val_json(*inner),
        Val::JsonValue(data) => Ok(data),
        Val::HostInputs(_) => Err(
            Failure::Eval("compiler host inputs cannot enter an artifact"@),
        ),
        Val::List(items) => match val_jsons(items, 0) {
            Ok(items) => Ok(Data::Array(items)),
            Err(failure) => Err(failure),
        },
        Val::Product(items) => match val_jsons(items, 0) {
            Ok(items) => Ok(Data::Array(items)),
            Err(failure) => Err(failure),
        },
        Val::SetOf(items) => match val_jsons(items, 0) {
            Ok(items) => Ok(Data::Array(items)),
            Err(failure) => Err(failure),
        },
        Val::Fields(fields) => match field_jsons(fields, 0) {
            Ok(members) => Ok(Data::Object(members)),
            Err(failure) => Err(failure),
        },
        Val::MapOf(entries) => match entry_jsons(value, entries, 0) {
            Ok(members) => Ok(Data::Object(members)),
            Err(failure) => Err(failure),
        },
        Val::Artifact(data) => Ok(data),
        Val::Typed(inner, _) => val_json(*inner),
        _ => Err(unserializable(value)),
    }
}

pub open spec fn val_jsons(items: Seq<Val>, i: int) -> Result<Seq<Data>, Failure>
    decreases items, items.len() - i,
{
    if i < 0 || i >= items.len() {
        Ok(Seq::empty())
    } else {
        match val_json(items[i]) {
            Err(failure) => Err(failure),
            Ok(first) => match val_jsons(items, i + 1) {
                Err(failure) => Err(failure),
                Ok(rest) => Ok(seq![first] + rest),
            },
        }
    }
}

pub open spec fn field_jsons(fields: Seq<(Seq<char>, Val)>, i: int) -> Result<
    Seq<(Seq<char>, Data)>,
    Failure,
>
    decreases fields, fields.len() - i,
{
    if i < 0 || i >= fields.len() {
        Ok(Seq::empty())
    } else {
        match val_json(fields[i].1) {
            Err(failure) => Err(failure),
            Ok(first) => match field_jsons(fields, i + 1) {
                Err(failure) => Err(failure),
                Ok(rest) => Ok(seq![(fields[i].0, first)] + rest),
            },
        }
    }
}

/// The members of a map whose keys are texts.
pub open spec fn entry_jsons(whole: Val, entries: Seq<(Val, Val)>, i: int) -> Result<
    Seq<(Seq<char>, Data)>,
    Failure,
>
    decreases entries, entries.len() - i,
{
    if i < 0 || i >= entries.len() {
        Ok(Seq::empty())
    } else {
        match bare(entries[i].0) {
            Val::Str(key) => match val_json(entries[i].1) {
                Err(failure) => Err(failure),
                Ok(first) => match entry_jsons(whole, entries, i + 1) {
                    Err(failure) => Err(failure),
                    Ok(rest) => Ok(seq![(key, first)] + rest),
                },
            },
            _ => Err(unserializable(whole)),
        }
    }
}

pub fn value_to_json(value: &Value) -> (result: Result<Json, MagError>)
    ensures
        documented(result) == val_json(value@),
    decreases value, 0int,
{
    match value {
        Value::Unit => Ok(Json::Null),
        Value::Str(text) => Ok(Json::Str(text.clone())),
        Value::Int(number) => Ok(Json::Int(*number)),
        Value::Float(number) => {
            if same_text(number.text.as_str(), "null") {
                Ok(Json::Null)
            } else {
                Ok(Json::Float(number.copy()))
            }
        },
        Value::Bool(flag) => Ok(Json::Bool(*flag)),
        Value::Keyword(name) => Ok(Json::Str(cat2(":", name.as_str()))),
        Value::Symbol(name) => Ok(Json::Str(name.clone())),
        Value::TypeTag(ty) => Ok(concrete_type_to_json(ty)),
        Value::TypeDescriptor(ty) => Ok(concrete_type_to_json(ty)),
        Value::TypeSchema(schema) => Ok(schema.copy()),
        Value::SemanticTypeId(id) => Ok(Json::Str(id.clone())),
        Value::PackedValue(inner) => value_to_json(inner),
        Value::JsonValue(data) => Ok(data.copy()),
        Value::HostInputs(_) => Err(
            MagError::Eval("compiler host inputs cannot enter an artifact".to_owned()),
        ),
        Value::List(items) => match values_to_json(items) {
            Ok(items) => Ok(Json::Array(items)),
            Err(error) => Err(error),
        },
        Value::Product(items) => match values_to_json(items) {
            Ok(items) => Ok(Json::Array(items)),
            Err(error) => Err(error),
        },
        Value::SetOf(items) => match values_to_json(items) {
            Ok(items) => Ok(Json::Array(items)),
            Err(error) => Err(error),
        },
        Value::Fields(fields) => match fields_to_json(fields) {
            Ok(members) => Ok(Json::Object(members)),
            Err(error) => Err(error),
        },
        Value::MapOf(entries) => match entries_to_json(entries) {
            Ok(members) => Ok(Json::Object(members)),
            Err(error) => Err(error),
        },
        Value::Artifact(data) => Ok(data.copy()),
        Value::Typed(inner, _) => value_to_json(inner),
        _ => Err(MagError::Eval(cat3("cannot serialize ", value.kind_name(), " to JSON"))),
    }
}

fn values_to_json(items: &Vec<Value>) -> (result: Result<Vec<Json>, MagError>)
    ensures
        match (result, val_jsons(vals(items@), 0)) {
            (Ok(list), Ok(view)) => data_items(list@) == view,
            (Err(error), Err(failure)) => error@ == failure,
            _ => false,
        },
    decreases items, 0int,
{
    let ghost all = vals(items@);
    let mut list: Vec<Json> = Vec::new();
    let mut i: usize = 0;
    while i < items.len()
        invariant
            i <= items@.len(),
            all == vals(items@),
            match val_jsons(all, 0) {
                Ok(view) => match val_jsons(all, i as int) {
                    Ok(rest) => view == data_items(list@) + rest,
                    Err(_) => false,
                },
                Err(failure) => val_jsons(all, i as int) == Err::<Seq<Data>, Failure>(failure),
            },
        decreases items@.len() - i,
    {
        assert(all[i as int] == items@[i as int]@);
        match value_to_json(&items[i]) {
            Err(error) => return Err(error),
            Ok(json) => {
                let ghost before = data_items(list@);
                let ghost added = json@;
                list.push(json);
                proof {
                    assert(data_items(list@) =~= before.push(added));
                    if let Ok(rest) = val_jsons(all, i + 1) {
                        assert(before + (seq![added] + rest) =~= before.push(added) + rest);
                    }
                }
            },
        }
        i = i + 1;
    }
    assert(data_items(list@) + Seq::<Data>::empty() =~= data_items(list@));
    Ok(list)
}

fn fields_to_json(fields: &Vec<(String, Value)>) -> (result: Result<Vec<(String, Json)>, MagError>)
    ensures
        match (result, field_jsons(val_fields(fields@), 0)) {
            (Ok(list), Ok(view)) => data_members(list@) == view,
            (Err(error), Err(failure)) => error@ == failure,
            _ => false,
        },
    decreases fields, 0int,
{
    let ghost all = val_fields(fields@);
    let mut list: Vec<(String, Json)> = Vec::new();
    let mut i: usize = 0;
    while i < fields.len()
        invariant
            i <= fields@.len(),
            all == val_fields(fields@),
            match field_jsons(all, 0) {
                Ok(view) => match field_jsons(all, i as int) {
                    Ok(rest) => view == data_members(list@) + rest,
                    Err(_) => false,
                },
                Err(failure) => field_jsons(all, i as int) == Err::<
                    Seq<(Seq<char>, Data)>,
                    Failure,
                >(failure),
            },
        decreases fields@.len() - i,
    {
        let field = &fields[i];
        assert(all[i as int] == (field.0@, field.1@));
        match value_to_json(&field.1) {
            Err(error) => return Err(error),
            Ok(json) => {
                let ghost before = data_members(list@);
                let ghost added = (field.0@, json@);
                list.push((field.0.clone(), json));
                proof {
                    assert(data_members(list@) =~= before.push(added));
                    if let Ok(rest) = field_jsons(all, i + 1) {
                        assert(before + (seq![added] + rest) =~= before.push(added) + rest);
                    }
                }
            },
        }
        i = i + 1;
    }
    assert(data_members(list@) + Seq::<(Seq<char>, Data)>::empty() =~= data_members(list@));
    Ok(list)
}

fn entries_to_json(entries: &Vec<(Value, Value)>) -> (result: Result<Vec<(String, Json)>, MagError>)
    ensures
        match (result, entry_jsons(Val::MapOf(val_entries(entries@)), val_entries(entries@), 0)) {
            (Ok(list), Ok(view)) => data_members(list@) == view,
            (Err(error), Err(failure)) => error@ == failure,
            _ => false,
        },
    decreases entries, 0int,
{
    let ghost all = val_entries(entries@);
    let ghost whole = Val::MapOf(all);
    let mut list: Vec<(String, Json)> = Vec::new();
    let mut i: usize = 0;
    while i < entries.len()
        invariant
            i <= entries@.len(),
            all == val_entries(entries@),
            whole == Val::MapOf(all),
            match entry_jsons(whole, all, 0) {
                Ok(view) => match entry_jsons(whole, all, i as int) {
                    Ok(rest) => view == data_members(list@) + rest,
                    Err(_) => false,
                },
                Err(failure) => entry_jsons(whole, all, i as int) == Err::<
                    Seq<(Seq<char>, Data)>,
                    Failure,
                >(failure),
            },
        decreases entries@.len() - i,
    {
        let entry = &entries[i];
        assert(all[i as int] == (entry.0@, entry.1@));
        match raw(&entry.0) {
            Value::Str(key) => match value_to_json(&entry.1) {
                Err(error) => return Err(error),
                Ok(json) => {
                    let ghost before = data_members(list@);
                    let ghost added = (key@, json@);
                    list.push((key.clone(), json));
                    proof {
                        assert(data_members(list@) =~= before.push(added));
                        if let Ok(rest) = entry_jsons(whole, all, i + 1) {
                            assert(before + (seq![added] + rest) =~= before.push(added) + rest);
                        }
                    }
                },
            },
            _ => {
                return Err(MagError::Eval(cat3("cannot serialize ", "map", " to JSON")));
            },
        }
        i = i + 1;
    }
    assert(data_members(list@) + Seq::<(Seq<char>, Data)>::empty() =~= data_members(list@));
    Ok(list)
}

// ---------------------------------------------------------------------------
// Fields in ascending order of their names
// ---------------------------------------------------------------------------

/// Fields with one more; a field of the same name is replaced.
pub open spec fn put_field(fields: Seq<(Seq<char>, Val)>, name: Seq<char>, value: Val) -> Seq<
    (Seq<char>, Val),
>
    decreases fields.len(),
{
    if fields.len() == 0 {
        seq![(name, value)]
    } else if fields.last().0 == name {
        fields.drop_last().push((name, value))
    } else if text_before(fields.last().0, name) {
        fields.push((name, value))
    } else {
        put_field(fields.drop_last(), name, value).push(fields.last())
    }
}

pub fn insert_field(fields: &mut Vec<(String, Value)>, name: String, value: Value)
    ensures
        val_fields(final(fields)@) == put_field(val_fields(old(fields)@), name@, value@),
{
    let ghost all = val_fields(fields@);
    let mut at: usize = fields.len();
    assert(all.take(at as int) =~= all);
    assert(put_field(all, name@, value@) =~= put_field(all.take(at as int), name@, value@)
        + all.skip(at as int));
    while at > 0 && !same_text(fields[at - 1].0.as_str(), name.as_str()) && !precedes(
        fields[at - 1].0.as_str(),
        name.as_str(),
    )
        invariant
            at <= fields@.len(),
            fields@ == old(fields)@,
            all == val_fields(fields@),
            put_field(all, name@, value@) == put_field(all.take(at as int), name@, value@)
                + all.skip(at as int),
        decreases at,
    {
        proof {
            let shorter = all.take(at as int);
            assert(shorter.last() == all[at - 1]);
            assert(shorter.drop_last() =~= all.take(at - 1));
            assert(put_field(all.take(at - 1), name@, value@).push(all[at - 1]) + all.skip(
                at as int,
            ) =~= put_field(all.take(at - 1), name@, value@) + all.skip(at - 1));
        }
        at = at - 1;
    }
    let ghost view = (name@, value@);
    if at > 0 && same_text(fields[at - 1].0.as_str(), name.as_str()) {
        fields.set(at - 1, (name, value));
        proof {
            let shorter = all.take(at as int);
            assert(shorter.last() == all[at - 1]);
            assert(shorter.drop_last() =~= all.take(at - 1));
            assert(val_fields(fields@) =~= all.take(at - 1).push(view) + all.skip(at as int));
        }
    } else {
        fields.insert(at, (name, value));
        proof {
            let shorter = all.take(at as int);
            if at > 0 {
                assert(shorter.last() == all[at - 1]);
                assert(val_fields(fields@) =~= shorter.push(view) + all.skip(at as int));
            } else {
                assert(shorter =~= Seq::empty());
                assert(val_fields(fields@) =~= seq![view] + all.skip(0));
            }
        }
    }
}

/// The value of a field, from index `i` on.
pub open spec fn field_value(fields: Seq<(Seq<char>, Val)>, name: Seq<char>, i: int) -> Option<Val>
    decreases fields.len() - i,
{
    if i < 0 || i >= fields.len() {
        None
    } else if fields[i].0 == name {
        Some(fields[i].1)
    } else {
        field_value(fields, name, i + 1)
    }
}

pub fn find_value<'a>(fields: &'a Vec<(String, Value)>, name: &str) -> (value: Option<&'a Value>)
    ensures
        match (value, field_value(val_fields(fields@), name@, 0)) {
            (Some(value), Some(view)) => value@ == view,
            (None, None) => true,
            _ => false,
        },
{
    let ghost all = val_fields(fields@);
    let mut i: usize = 0;
    while i < fields.len()
        invariant
            i <= fields@.len(),
            all == val_fields(fields@),
            field_value(all, name@, 0) == field_value(all, name@, i as int),
        decreases fields@.len() - i,
    {
        assert(all[i as int] == (fields@[i as int].0@, fields@[i as int].1@));
        if same_text(fields[i].0.as_str(), name) {
            return Some(&fields[i].1);
        }
        i = i + 1;
    }
    None
}

// ---------------------------------------------------------------------------
// Documents to values
// ---------------------------------------------------------------------------

/// The value that a document stands for where no type is known.
pub open spec fn json_val(data: Data) -> Val
    decreases data, 0int,
{
    match data {
        Data::Null => Val::Unit,
        Data::Bool(flag) => Val::Bool(flag),
        Data::Int(number) => Val::Int(number),
        Data::Large(_, nearest) => Val::Float(nearest),
        Data::Float(number) => Val::Float(number),
        Data::Str(text) => Val::Str(text),
        Data::Array(items) => Val::List(json_vals(items, 0)),
        Data::Object(members) => Val::Fields(json_fields(members, members.len() as int)),
    }
}

pub open spec fn json_vals(items: Seq<Data>, i: int) -> Seq<Val>
    decreases items, items.len() - i,
{
    if i < 0 || i >= items.len() {
        Seq::empty()
    } else {
        seq![json_val(items[i])] + json_vals(items, i + 1)
    }
}

/// The fields that the first `n` members stand for.
pub open spec fn json_fields(members: Seq<(Seq<char>, Data)>, n: int) -> Seq<(Seq<char>, Val)>
    decreases members, n,
{
    if n <= 0 || n > members.len() {
        Seq::empty()
    } else {
        put_field(json_fields(members, n - 1), members[n - 1].0, json_val(members[n - 1].1))
    }
}

pub fn json_to_value(json: &Json) -> (value: Value)
    ensures
        value@ == json_val(json@),
    decreases json, 0int,
{
    match json {
        Json::Null => Value::Unit,
        Json::Bool(flag) => Value::Bool(*flag),
        Json::Int(number) => Value::Int(*number),
        Json::Large(_, nearest) => Value::Float(nearest.copy()),
        Json::Float(number) => Value::Float(number.copy()),
        Json::Str(text) => Value::Str(text.clone()),
        Json::Array(items) => Value::List(items_to_values(items)),
        Json::Object(members) => {
            assert(data_members(members@).len() == members@.len());
            Value::Fields(members_to_fields(members))
        },
    }
}

fn items_to_values(items: &Vec<Json>) -> (values: Vec<Value>)
    ensures
        vals(values@) == json_vals(data_items(items@), 0),
    decreases items, 0int,
{
    let ghost all = data_items(items@);
    let mut values: Vec<Value> = Vec::new();
    assert(vals(values@) + json_vals(all, 0) =~= json_vals(all, 0));
    let mut i: usize = 0;
    while i < items.len()
        invariant
            i <= items@.len(),
            all == data_items(items@),
            json_vals(all, 0) == vals(values@) + json_vals(all, i as int),
        decreases items@.len() - i,
    {
        assert(all[i as int] == items@[i as int]@);
        let ghost before = vals(values@);
        let value = json_to_value(&items[i]);
        let ghost added = value@;
        values.push(value);
        proof {
            assert(vals(values@) =~= before.push(added));
            let rest = json_vals(all, i + 1);
            assert(before + (seq![added] + rest) =~= before.push(added) + rest);
        }
        i = i + 1;
    }
    assert(vals(values@) + Seq::<Val>::empty() =~= vals(values@));
    values
}

fn members_to_fields(members: &Vec<(String, Json)>) -> (fields: Vec<(String, Value)>)
    ensures
        val_fields(fields@) == json_fields(data_members(members@), members@.len() as int),
    decreases members, 0int,
{
    let ghost all = data_members(members@);
    let mut fields: Vec<(String, Value)> = Vec::new();
    assert(val_fields(fields@) =~= Seq::<(Seq<char>, Val)>::empty());
    let mut i: usize = 0;
    while i < members.len()
        invariant
            i <= members@.len(),
            all == data_members(members@),
            all.len() == members@.len(),
            val_fields(fields@) == json_fields(all, i as int),
        decreases members@.len() - i,
    {
        let member = &members[i];
        assert(all[i as int] == (member.0@, member.1@));
        let value = json_to_value(&member.1);
        insert_field(&mut fields, member.0.clone(), value);
        i = i + 1;
    }
    fields
}

/// The member of an object with a name, from index `i` on.
pub open spec fn member_at(members: Seq<(Seq<char>, Data)>, name: Seq<char>, i: int) -> Option<Data>
    decreases members.len() - i,
{
    if i < 0 || i >= members.len() {
        None
    } else if members[i].0 == name {
        Some(members[i].1)
    } else {
        member_at(members, name, i + 1)
    }
}

pub fn find_member<'a>(members: &'a Vec<(String, Json)>, name: &str) -> (json: Option<&'a Json>)
    ensures
        match (json, member_at(data_members(members@), name@, 0)) {
            (Some(json), Some(view)) => json@ == view,
            (None, None) => true,
            _ => false,
        },
        json matches Some(json) ==> exists|j: int|
            0 <= j < members@.len() && (#[trigger] members@[j]).1 == *json,
{
    let ghost all = data_members(members@);
    let mut i: usize = 0;
    while i < members.len()
        invariant
            i <= members@.len(),
            all == data_members(members@),
            member_at(all, name@, 0) == member_at(all, name@, i as int),
        decreases members@.len() - i,
    {
        assert(all[i as int] == (members@[i as int].0@, members@[i as int].1@));
        if same_text(members[i].0.as_str(), name) {
            return Some(&members[i].1);
        }
        i = i + 1;
    }
    None
}

pub open spec fn expected_failure(ty: Ty) -> Failure {
    Failure::Type("expected "@ + ty_text(ty))
}

pub open spec fn unrepresentable(ty: Ty) -> Failure {
    Failure::Type(ty_text(ty) + " is not representable as rule input JSON"@)
}

/// The index of the member with a name, from index `i` on.
pub open spec fn member_index(members: Seq<(Seq<char>, Data)>, name: Seq<char>, i: int) -> int
    decreases members.len() - i,
{
    if i < 0 || i >= members.len() {
        -1
    } else if members[i].0 == name {
        i
    } else {
        member_index(members, name, i + 1)
    }
}

/// Whether a document without parts stands for a value of a type without parts.
pub open spec fn scalar_fits(data: Data, ty: Ty) -> bool {
    match ty {
        Ty::Unit => data is Null,
        Ty::Bool => data is Bool,
        Ty::Int => data is Int,
        Ty::Float => data is Float || data is Large,
        Ty::String => data is Str,
        _ => false,
    }
}

fn fits_scalar(json: &Json, ty: &MagType) -> (fits: bool)
    ensures
        fits == scalar_fits(json@, ty@),
{
    match (ty, json) {
        (MagType::Unit, Json::Null) => true,
        (MagType::Bool, Json::Bool(_)) => true,
        (MagType::Int, Json::Int(_)) => true,
        (MagType::Float, Json::Float(_)) => true,
        (MagType::Float, Json::Large(_, _)) => true,
        (MagType::String, Json::Str(_)) => true,
        _ => false,
    }
}

/// The value of a type that a document stands for. `fuel` bounds how many names
/// of types are looked through before a part of the document is reached. Where
/// `strict`, the parts without parts of their own have to be of their types.
pub open spec fn typed_val(world: World, strict: bool, data: Data, ty: Ty, fuel: nat) -> Result<Val, Failure>
    decreases data, fuel, 0int,
{
    match ty {
        Ty::Named(name, arguments) => match decl_of(world, name) {
            None => Err(Failure::Type("unknown nominal type "@ + name)),
            Some(declaration) => {
                let subst = zipped(declaration.params, arguments);
                match declaration.body {
                    Body::Fields(fields) => match data {
                        Data::Object(members) => match typed_members_val(
                            world, strict,
                            members,
                            substituted_fields(fields, subst),
                            ty,
                            0,
                        ) {
                            Err(failure) => Err(failure),
                            Ok(values) => Ok(Val::Typed(Box::new(Val::Fields(values)), ty)),
                        },
                        _ => Err(expected_failure(ty)),
                    },
                    Body::TransparentAlias(body) | Body::Alias(body) => if fuel == 0 {
                        Err(depth_failure())
                    } else {
                        match typed_val(
                            world, strict,
                            data,
                            substituted(body, subst),
                            (fuel - 1) as nat,
                        ) {
                            Err(failure) => Err(failure),
                            Ok(value) => Ok(Val::Typed(Box::new(value), ty)),
                        }
                    },
                    _ => Err(unrepresentable(ty)),
                }
            },
        },
        Ty::List(item) => match data {
            Data::Array(items) => match typed_items_val(world, strict, items, *item, 0) {
                Err(failure) => Err(failure),
                Ok(values) => Ok(Val::List(values)),
            },
            _ => Err(expected_failure(ty)),
        },
        Ty::MapOf(_, item) => match data {
            Data::Object(members) => match typed_entries_val(world, strict, members, *item, 0) {
                Err(failure) => Err(failure),
                Ok(entries) => Ok(Val::MapOf(entries)),
            },
            _ => Err(expected_failure(ty)),
        },
        Ty::Product(components) => match data {
            Data::Array(items) => if items.len() != components.len() {
                Err(
                    Failure::Type(
                        "expected "@ + decimal(components.len()) + " tuple positions for "@
                            + ty_text(ty) + ", got "@ + decimal(items.len()),
                    ),
                )
            } else {
                match typed_positions_val(world, strict, items, components, 0) {
                    Err(failure) => Err(failure),
                    Ok(values) => Ok(Val::Product(values)),
                }
            },
            _ => Err(Failure::Type("expected ordered tuple "@ + ty_text(ty))),
        },
        Ty::JsonValue => Ok(Val::JsonValue(data)),
        Ty::Unit | Ty::Bool | Ty::Int | Ty::Float | Ty::String => if strict && !scalar_fits(
            data,
            ty,
        ) {
            Err(expected_failure(ty))
        } else {
            Ok(json_val(data))
        },
        _ => Err(unrepresentable(ty)),
    }
}

pub open spec fn typed_items_val(world: World, strict: bool, items: Seq<Data>, ty: Ty, i: int) -> Result<
    Seq<Val>,
    Failure,
>
    decreases items, 0nat, items.len() - i,
{
    if i < 0 || i >= items.len() {
        Ok(Seq::empty())
    } else {
        match typed_val(world, strict, items[i], ty, TYPE_DEPTH_LIMIT as nat) {
            Err(failure) => Err(failure),
            Ok(first) => match typed_items_val(world, strict, items, ty, i + 1) {
                Err(failure) => Err(failure),
                Ok(rest) => Ok(seq![first] + rest),
            },
        }
    }
}

pub open spec fn typed_positions_val(world: World, strict: bool, items: Seq<Data>, types: Seq<Ty>, i: int) -> Result<
    Seq<Val>,
    Failure,
>
    decreases items, 0nat, items.len() - i,
{
    if i < 0 || i >= items.len() {
        Ok(Seq::empty())
    } else {
        match typed_val(world, strict, items[i], types[i], TYPE_DEPTH_LIMIT as nat) {
            Err(failure) => Err(failure),
            Ok(first) => match typed_positions_val(world, strict, items, types, i + 1) {
                Err(failure) => Err(failure),
                Ok(rest) => Ok(seq![first] + rest),
            },
        }
    }
}

pub open spec fn typed_entries_val(
    world: World, strict: bool,
    members: Seq<(Seq<char>, Data)>,
    ty: Ty,
    i: int,
) -> Result<Seq<(Val, Val)>, Failure>
    decreases members, 0nat, members.len() - i,
{
    if i < 0 || i >= members.len() {
        Ok(Seq::empty())
    } else {
        match typed_val(world, strict, members[i].1, ty, TYPE_DEPTH_LIMIT as nat) {
            Err(failure) => Err(failure),
            Ok(first) => match typed_entries_val(world, strict, members, ty, i + 1) {
                Err(failure) => Err(failure),
                Ok(rest) => Ok(seq![(Val::Str(members[i].0), first)] + rest),
            },
        }
    }
}

/// The fields of a record from the `i`th declared one on.
pub open spec fn typed_members_val(
    world: World, strict: bool,
    members: Seq<(Seq<char>, Data)>,
    fields: Seq<(Seq<char>, Ty)>,
    ty: Ty,
    i: int,
) -> Result<Seq<(Seq<char>, Val)>, Failure>
    decreases members, 0nat, fields.len() - i,
{
    if i < 0 || i >= fields.len() {
        Ok(Seq::empty())
    } else {
        let at = member_index(members, fields[i].0, 0);
        if 0 <= at < members.len() {
            match typed_val(world, strict, members[at].1, fields[i].1, TYPE_DEPTH_LIMIT as nat) {
                Err(failure) => Err(failure),
                Ok(first) => match typed_members_val(world, strict, members, fields, ty, i + 1) {
                    Err(failure) => Err(failure),
                    Ok(rest) => Ok(seq![(fields[i].0, first)] + rest),
                },
            }
        } else {
            Err(Failure::Type("missing field "@ + fields[i].0 + " for "@ + ty_text(ty)))
        }
    }
}

fn expected_error(ty: &MagType) -> (error: MagError)
    ensures
        error@ == expected_failure(ty@),
{
    let text = ty.text();
    MagError::Type(cat2("expected ", text.as_str()))
}

fn unrepresentable_error(ty: &MagType) -> (error: MagError)
    ensures
        error@ == unrepresentable(ty@),
{
    let text = ty.text();
    MagError::Type(cat2(text.as_str(), " is not representable as rule input JSON"))
}

fn json_to_typed(env: &Env, strict: bool, json: &Json, ty: &MagType, fuel: u32) -> (result: Result<Value, MagError>)
    ensures
        valued(result) == typed_val(env@, strict, json@, ty@, fuel as nat),
    decreases json, fuel, 0int,
{
    match ty {
        MagType::Named(name, arguments) => match env.type_decl(name.as_str()) {
            None => Err(MagError::Type(cat2("unknown nominal type ", name.as_str()))),
            Some(declaration) => {
                let subst = zip_types(&declaration.params, arguments);
                match &declaration.body {
                    TypeDeclBody::Fields(fields) => match json {
                        Json::Object(members) => {
                            let fields = substitute_fields(fields, &subst);
                            match json_to_members(env, strict, members, &fields, ty) {
                                Err(error) => Err(error),
                                Ok(values) => {
                                    let record = Value::Fields(values);
                                    assert(record@ == Val::Fields(val_fields(values@)));
                                    Ok(Value::Typed(Box::new(record), ty.copy()))
                                },
                            }
                        },
                        _ => Err(expected_error(ty)),
                    },
                    TypeDeclBody::TransparentAlias(body) | TypeDeclBody::Alias(body) => {
                        if fuel == 0 {
                            return Err(depth_error());
                        }
                        let body = substitute(body, &subst);
                        match json_to_typed(env, strict, json, &body, fuel - 1) {
                            Err(error) => Err(error),
                            Ok(value) => Ok(Value::Typed(Box::new(value), ty.copy())),
                        }
                    },
                    _ => Err(unrepresentable_error(ty)),
                }
            },
        },
        MagType::List(item) => match json {
            Json::Array(items) => match json_to_items(env, strict, items, item) {
                Err(error) => Err(error),
                Ok(values) => Ok(Value::List(values)),
            },
            _ => Err(expected_error(ty)),
        },
        MagType::MapOf(_, item) => match json {
            Json::Object(members) => match json_to_entries(env, strict, members, item) {
                Err(error) => Err(error),
                Ok(entries) => Ok(Value::MapOf(entries)),
            },
            _ => Err(expected_error(ty)),
        },
        MagType::Product(components) => match json {
            Json::Array(items) => {
                assert(tys(components@).len() == components@.len());
                assert(data_items(items@).len() == items@.len());
                if items.len() != components.len() {
                    let expected = count_text(components.len());
                    let got = count_text(items.len());
                    let text = ty.text();
                    return Err(
                        MagError::Type(
                            cat6(
                                "expected ",
                                expected.as_str(),
                                " tuple positions for ",
                                text.as_str(),
                                ", got ",
                                got.as_str(),
                            ),
                        ),
                    );
                }
                match json_to_positions(env, strict, items, components) {
                    Err(error) => Err(error),
                    Ok(values) => Ok(Value::Product(values)),
                }
            },
            _ => {
                let text = ty.text();
                Err(MagError::Type(cat2("expected ordered tuple ", text.as_str())))
            },
        },
        MagType::JsonValue => Ok(Value::JsonValue(json.copy())),
        MagType::Unit | MagType::Bool | MagType::Int | MagType::Float | MagType::String => {
            if strict && !fits_scalar(json, ty) {
                return Err(expected_error(ty));
            }
            Ok(json_to_value(json))
        },
        _ => Err(unrepresentable_error(ty)),
    }
}

fn json_to_items(env: &Env, strict: bool, items: &Vec<Json>, ty: &MagType) -> (result: Result<
    Vec<Value>,
    MagError,
>)
    ensures
        match (result, typed_items_val(env@, strict, data_items(items@), ty@, 0)) {
            (Ok(values), Ok(view)) => vals(values@) == view,
            (Err(error), Err(failure)) => error@ == failure,
            _ => false,
        },
    decreases items, 0nat, 1int,
{
    let ghost all = data_items(items@);
    let mut values: Vec<Value> = Vec::new();
    let mut i: usize = 0;
    while i < items.len()
        invariant
            i <= items@.len(),
            all == data_items(items@),
            match typed_items_val(env@, strict, all, ty@, 0) {
                Ok(view) => match typed_items_val(env@, strict, all, ty@, i as int) {
                    Ok(rest) => view == vals(values@) + rest,
                    Err(_) => false,
                },
                Err(failure) => typed_items_val(env@, strict, all, ty@, i as int) == Err::<
                    Seq<Val>,
                    Failure,
                >(failure),
            },
        decreases items@.len() - i,
    {
        assert(all[i as int] == items@[i as int]@);
        match json_to_typed(env, strict, &items[i], ty, TYPE_DEPTH_LIMIT) {
            Err(error) => return Err(error),
            Ok(value) => {
                let ghost before = vals(values@);
                let ghost added = value@;
                values.push(value);
                proof {
                    assert(vals(values@) =~= before.push(added));
                    if let Ok(rest) = typed_items_val(env@, strict, all, ty@, i + 1) {
                        assert(before + (seq![added] + rest) =~= before.push(added) + rest);
                    }
                }
            },
        }
        i = i + 1;
    }
    assert(vals(values@) + Seq::<Val>::empty() =~= vals(values@));
    Ok(values)
}

fn json_to_positions(env: &Env, strict: bool, items: &Vec<Json>, types: &Vec<MagType>) -> (result: Result<
    Vec<Value>,
    MagError,
>)
    requires
        items@.len() == types@.len(),
    ensures
        match (result, typed_positions_val(env@, strict, data_items(items@), tys(types@), 0)) {
            (Ok(values), Ok(view)) => vals(values@) == view,
            (Err(error), Err(failure)) => error@ == failure,
            _ => false,
        },
    decreases items, 0nat, 1int,
{
    let ghost all = data_items(items@);
    let ghost views = tys(types@);
    let mut values: Vec<Value> = Vec::new();
    let mut i: usize = 0;
    while i < items.len()
        invariant
            i <= items@.len() == types@.len(),
            all == data_items(items@),
            views == tys(types@),
            match typed_positions_val(env@, strict, all, views, 0) {
                Ok(view) => match typed_positions_val(env@, strict, all, views, i as int) {
                    Ok(rest) => view == vals(values@) + rest,
                    Err(_) => false,
                },
                Err(failure) => typed_positions_val(env@, strict, all, views, i as int) == Err::<
                    Seq<Val>,
                    Failure,
                >(failure),
            },
        decreases items@.len() - i,
    {
        assert(all[i as int] == items@[i as int]@);
        assert(views[i as int] == types@[i as int]@);
        match json_to_typed(env, strict, &items[i], &types[i], TYPE_DEPTH_LIMIT) {
            Err(error) => return Err(error),
            Ok(value) => {
                let ghost before = vals(values@);
                let ghost added = value@;
                values.push(value);
                proof {
                    assert(vals(values@) =~= before.push(added));
                    if let Ok(rest) = typed_positions_val(env@, strict, all, views, i + 1) {
                        assert(before + (seq![added] + rest) =~= before.push(added) + rest);
                    }
                }
            },
        }
        i = i + 1;
    }
    assert(vals(values@) + Seq::<Val>::empty() =~= vals(values@));
    Ok(values)
}

fn json_to_entries(env: &Env, strict: bool, members: &Vec<(String, Json)>, ty: &MagType) -> (result: Result<
    Vec<(Value, Value)>,
    MagError,
>)
    ensures
        match (result, typed_entries_val(env@, strict, data_members(members@), ty@, 0)) {
            (Ok(entries), Ok(view)) => val_entries(entries@) == view,
            (Err(error), Err(failure)) => error@ == failure,
            _ => false,
        },
    decreases members, 0nat, 1int,
{
    let ghost all = data_members(members@);
    let mut entries: Vec<(Value, Value)> = Vec::new();
    let mut i: usize = 0;
    while i < members.len()
        invariant
            i <= members@.len(),
            all == data_members(members@),
            match typed_entries_val(env@, strict, all, ty@, 0) {
                Ok(view) => match typed_entries_val(env@, strict, all, ty@, i as int) {
                    Ok(rest) => view == val_entries(entries@) + rest,
                    Err(_) => false,
                },
                Err(failure) => typed_entries_val(env@, strict, all, ty@, i as int) == Err::<
                    Seq<(Val, Val)>,
                    Failure,
                >(failure),
            },
        decreases members@.len() - i,
    {
        let member = &members[i];
        assert(all[i as int] == (member.0@, member.1@));
        match json_to_typed(env, strict, &member.1, ty, TYPE_DEPTH_LIMIT) {
            Err(error) => return Err(error),
            Ok(value) => {
                let ghost before = val_entries(entries@);
                let key = Value::Str(member.0.clone());
                assert(key@ == Val::Str(member.0@));
                let ghost added = (key@, value@);
                entries.push((key, value));
                proof {
                    assert(val_entries(entries@) =~= before.push(added));
                    if let Ok(rest) = typed_entries_val(env@, strict, all, ty@, i + 1) {
                        assert(before + (seq![added] + rest) =~= before.push(added) + rest);
                    }
                }
            },
        }
        i = i + 1;
    }
    assert(val_entries(entries@) + Seq::<(Val, Val)>::empty() =~= val_entries(entries@));
    Ok(entries)
}

fn find_index(members: &Vec<(String, Json)>, name: &str) -> (at: Option<usize>)
    ensures
        match at {
            Some(at) => at < members@.len() && member_index(data_members(members@), name@, 0)
                == at,
            None => member_index(data_members(members@), name@, 0) == -1,
        },
{
    let ghost all = data_members(members@);
    let mut i: usize = 0;
    while i < members.len()
        invariant
            i <= members@.len(),
            all == data_members(members@),
            member_index(all, name@, 0) == member_index(all, name@, i as int),
        decreases members@.len() - i,
    {
        assert(all[i as int] == (members@[i as int].0@, members@[i as int].1@));
        if same_text(members[i].0.as_str(), name) {
            return Some(i);
        }
        i = i + 1;
    }
    None
}

fn json_to_members(
    env: &Env, strict: bool,
    members: &Vec<(String, Json)>,
    fields: &Vec<(String, MagType)>,
    ty: &MagType,
) -> (result: Result<Vec<(String, Value)>, MagError>)
    ensures
        match (
            result,
            typed_members_val(env@, strict, data_members(members@), field_types(fields@), ty@, 0),
        ) {
            (Ok(values), Ok(view)) => val_fields(values@) == view,
            (Err(error), Err(failure)) => error@ == failure,
            _ => false,
        },
    decreases members, 0nat, 1int,
{
    let ghost all = data_members(members@);
    let ghost types = field_types(fields@);
    let mut values: Vec<(String, Value)> = Vec::new();
    let mut i: usize = 0;
    while i < fields.len()
        invariant
            i <= fields@.len(),
            all == data_members(members@),
            all.len() == members@.len(),
            types == field_types(fields@),
            match typed_members_val(env@, strict, all, types, ty@, 0) {
                Ok(view) => match typed_members_val(env@, strict, all, types, ty@, i as int) {
                    Ok(rest) => view == val_fields(values@) + rest,
                    Err(_) => false,
                },
                Err(failure) => typed_members_val(env@, strict, all, types, ty@, i as int) == Err::<
                    Seq<(Seq<char>, Val)>,
                    Failure,
                >(failure),
            },
        decreases fields@.len() - i,
    {
        let field = &fields[i];
        assert(types[i as int] == (field.0@, field.1@));
        match find_index(members, field.0.as_str()) {
            None => {
                let text = ty.text();
                return Err(
                    MagError::Type(
                        cat4("missing field ", field.0.as_str(), " for ", text.as_str()),
                    ),
                );
            },
            Some(at) => {
                let member = &members[at];
                assert(all[at as int] == (member.0@, member.1@));
                match json_to_typed(env, strict, &member.1, &field.1, TYPE_DEPTH_LIMIT) {
                    Err(error) => return Err(error),
                    Ok(value) => {
                        let ghost before = val_fields(values@);
                        let ghost added = (field.0@, value@);
                        values.push((field.0.clone(), value));
                        proof {
                            assert(val_fields(values@) =~= before.push(added));
                            if let Ok(rest) = typed_members_val(env@, strict, all, types, ty@, i + 1) {
                                assert(before + (seq![added] + rest) =~= before.push(added)
                                    + rest);
                            }
                        }
                    },
                }
            },
        }
        i = i + 1;
    }
    assert(val_fields(values@) + Seq::<(Seq<char>, Val)>::empty() =~= val_fields(values@));
    Ok(values)
}

/// Reads a document as a value of a type. Numbers, texts and truth values are taken
/// as they come.
pub fn json_to_typed_value(env: &Env, json: &Json, ty: &MagType) -> (result: Result<Value, MagError>)
    ensures
        valued(result) == typed_val(env@, false, json@, ty@, TYPE_DEPTH_LIMIT as nat),
{
    json_to_typed(env, false, json, ty, TYPE_DEPTH_LIMIT)
}

/// Reads a document as a value of a type to which all of its parts belong.
pub fn project_typed_value(env: &Env, json: &Json, ty: &MagType) -> (result: Result<Value, MagError>)
    ensures
        valued(result) == typed_val(env@, true, json@, ty@, TYPE_DEPTH_LIMIT as nat),
{
    json_to_typed(env, true, json, ty, TYPE_DEPTH_LIMIT)
}

// ---------------------------------------------------------------------------
// Canonical documents
// ---------------------------------------------------------------------------

/// A document whose objects list their members in ascending order.
pub open spec fn ordered_json(data: Data) -> Data
    decreases data,
{
    match data {
        Data::Array(items) => Data::Array(ordered_items(items)),
        Data::Object(members) => Data::Object(mapped(ordered_members(members))),
        _ => data,
    }
}

pub open spec fn ordered_items(items: Seq<Data>) -> Seq<Data>
    decreases items,
{
    Seq::new(
        items.len(),
        |i: int|
            if 0 <= i < items.len() {
                ordered_json(items[i])
            } else {
                arbitrary()
            },
    )
}

pub open spec fn ordered_members(members: Seq<(Seq<char>, Data)>) -> Seq<(Seq<char>, Data)>
    decreases members,
{
    Seq::new(
        members.len(),
        |i: int|
            if 0 <= i < members.len() {
                (members[i].0, ordered_json(members[i].1))
            } else {
                arbitrary()
            },
    )
}

pub fn canonical_json(json: &Json) -> (result: Json)
    ensures
        result@ == ordered_json(json@),
    decreases json,
{
    match json {
        Json::Array(items) => Json::Array(canonical_items(items)),
        Json::Object(members) => {
            let members = canonical_members(members);
            Json::Object(map_entries(&members))
        },
        _ => json.copy(),
    }
}

fn canonical_items(items: &Vec<Json>) -> (results: Vec<Json>)
    ensures
        data_items(results@) == ordered_items(data_items(items@)),
    decreases items,
{
    let ghost all = data_items(items@);
    let mut results: Vec<Json> = Vec::new();
    let mut i: usize = 0;
    while i < items.len()
        invariant
            i <= items@.len(),
            results@.len() == i,
            all == data_items(items@),
            forall|j: int| 0 <= j < i ==> (#[trigger] results@[j])@ == ordered_json(all[j]),
        decreases items@.len() - i,
    {
        assert(all[i as int] == items@[i as int]@);
        results.push(canonical_json(&items[i]));
        i = i + 1;
    }
    assert(data_items(results@) =~= ordered_items(all));
    results
}

fn canonical_members(members: &Vec<(String, Json)>) -> (results: Vec<(String, Json)>)
    ensures
        data_members(results@) == ordered_members(data_members(members@)),
    decreases members,
{
    let ghost all = data_members(members@);
    let mut results: Vec<(String, Json)> = Vec::new();
    let mut i: usize = 0;
    while i < members.len()
        invariant
            i <= members@.len(),
            results@.len() == i,
            all == data_members(members@),
            forall|j: int|
                0 <= j < i ==> (#[trigger] results@[j]).0@ == all[j].0 && results@[j].1@
                    == ordered_json(all[j].1),
        decreases members@.len() - i,
    {
        let member = &members[i];
        assert(all[i as int] == (member.0@, member.1@));
        results.push((member.0.clone(), canonical_json(&member.1)));
        i = i + 1;
    }
    assert(data_members(results@) =~= ordered_members(all));
    results
}

} // verus!
