//! The functions of the language on type descriptors and packed values.

use crate::builtins::Builtin;
use crate::calls::{id_by_type, lookup_by_type};
use crate::content::{
    field_value, find_member, find_value, member_at, project_typed_value, typed_val, valued,
};
use crate::declare::{
    Concrete, ConcreteBody, ConcreteConstructor, ConcreteNamedBody, ConcreteType, abstracted,
    concrete_fields, concretes, copy_concretes, payloads,
};
use crate::env::{Env, World, ready_value};
use crate::error::{Failure, MagError, failure_text};
use crate::json::{Data, Json};
use crate::primitives::{type_error, type_failure};
use crate::resolve::TYPE_DEPTH_LIMIT;
use crate::rules::takes_exactly;
use crate::text::{
    cat2, cat3, cat4, contains_text, debug_shown, debug_text, join_texts, joined, same_text,
    texts,
};
use crate::types::{MagType, Ty};
use crate::validity::{validate_value, validation};
use crate::value::{Val, Value, bare, raw, val_fields, val_kind, val_text, vals};
use vstd::prelude::*;

verus! {

// ---------------------------------------------------------------------------
// Descriptors
// ---------------------------------------------------------------------------

pub open spec fn descriptor_vals(types: Seq<Concrete>) -> Seq<Val> {
    Seq::new(types.len(), |i: int| Val::TypeDescriptor(types[i]))
}

/// The name of a declared type; nothing for another one.
pub open spec fn constructor_name(ty: Concrete) -> Seq<char> {
    match ty {
        Concrete::Named(name, _, _) => name,
        Concrete::Adt(name, _, _) => name,
        _ => Seq::empty(),
    }
}

pub open spec fn arguments_of(ty: Concrete) -> Seq<Concrete> {
    match ty {
        Concrete::Named(_, arguments, _) => arguments,
        Concrete::Adt(_, arguments, _) => arguments,
        _ => Seq::empty(),
    }
}

/// The types in a list of names with types.
pub open spec fn seconds(list: Seq<(Seq<char>, Concrete)>) -> Seq<Concrete> {
    Seq::new(list.len(), |i: int| list[i].1)
}

/// The types that a type is made of.
pub open spec fn components_of(ty: Concrete) -> Seq<Concrete> {
    match ty {
        Concrete::Named(_, arguments, ConcreteBody::Fields(fields)) => arguments + seconds(fields),
        Concrete::Named(_, arguments, ConcreteBody::Alias(ty)) => arguments.push(*ty),
        Concrete::Adt(_, arguments, constructors) => arguments + seconds(constructors),
        Concrete::List(item) => seq![*item],
        Concrete::SetOf(item) => seq![*item],
        Concrete::MapOf(key, value) => seq![*key, *value],
        Concrete::Product(items) => items,
        _ => Seq::empty(),
    }
}

/// The payload of the first constructor of a name, from index `i` on.
pub open spec fn payload_of(list: Seq<(Seq<char>, Concrete)>, name: Seq<char>, i: int) -> Option<
    Concrete,
>
    decreases list.len() - i,
{
    if i < 0 || i >= list.len() {
        None
    } else if list[i].0 == name {
        Some(list[i].1)
    } else {
        payload_of(list, name, i + 1)
    }
}

/// The types that the values of a list describe, from index `i` on.
pub open spec fn described_types(items: Seq<Val>, message: Seq<char>, i: int) -> Result<
    Seq<Concrete>,
    Failure,
>
    decreases items.len() - i,
{
    if i < 0 || i >= items.len() {
        Ok(Seq::empty())
    } else {
        match bare(items[i]) {
            Val::TypeDescriptor(ty) => match described_types(items, message, i + 1) {
                Ok(rest) => Ok(seq![ty] + rest),
                Err(failure) => Err(failure),
            },
            _ => Err(Failure::Type(message)),
        }
    }
}

/// The types that a list value describes.
pub open spec fn descriptors_in(value: Val, message: Seq<char>) -> Result<Seq<Concrete>, Failure> {
    match bare(value) {
        Val::List(items) => described_types(items, message, 0),
        _ => Err(Failure::Type(message)),
    }
}

pub open spec fn descriptor_listing(result: Result<Vec<ConcreteType>, MagError>) -> Result<
    Seq<Concrete>,
    Failure,
> {
    match result {
        Ok(types) => Ok(concretes(types@)),
        Err(error) => Err(error@),
    }
}

pub fn descriptor_list(value: &Value, message: &str) -> (result: Result<Vec<ConcreteType>, MagError>)
    ensures
        descriptor_listing(result) == descriptors_in(value@, message@),
{
    match raw(value) {
        Value::List(items) => {
            let ghost all = vals(items@);
            let mut types: Vec<ConcreteType> = Vec::new();
            proof {
                assert(concretes(types@) =~= Seq::<Concrete>::empty());
                if let Ok(rest) = described_types(all, message@, 0) {
                    assert(concretes(types@) + rest =~= rest);
                }
            }
            let mut i: usize = 0;
            while i < items.len()
                invariant
                    i <= items@.len(),
                    all == vals(items@),
                    bare(value@) == Val::List(all),
                    match described_types(all, message@, 0) {
                        Ok(view) => match described_types(all, message@, i as int) {
                            Ok(rest) => view == concretes(types@) + rest,
                            Err(_) => false,
                        },
                        Err(failure) => described_types(all, message@, i as int) == Err::<
                            Seq<Concrete>,
                            Failure,
                        >(failure),
                    },
                decreases items@.len() - i,
            {
                assert(all[i as int] == items@[i as int]@);
                match raw(&items[i]) {
                    Value::TypeDescriptor(ty) => {
                        let ghost before = concretes(types@);
                        types.push(ty.copy());
                        proof {
                            assert(concretes(types@) =~= before.push(ty@));
                            if let Ok(rest) = described_types(all, message@, i + 1) {
                                assert(before + (seq![ty@] + rest) =~= before.push(ty@) + rest);
                            }
                        }
                    },
                    _ => return Err(MagError::Type(message.to_owned())),
                }
                i = i + 1;
            }
            assert(concretes(types@) + Seq::<Concrete>::empty() =~= concretes(types@));
            Ok(types)
        },
        _ => Err(MagError::Type(message.to_owned())),
    }
}

fn describe_all(types: &Vec<ConcreteType>) -> (values: Vec<Value>)
    ensures
        vals(values@) == descriptor_vals(concretes(types@)),
{
    let mut values: Vec<Value> = Vec::new();
    let mut i: usize = 0;
    while i < types.len()
        invariant
            i <= types@.len(),
            values@.len() == i,
            forall|j: int|
                0 <= j < i ==> (#[trigger] values@[j])@ == Val::TypeDescriptor(types@[j]@),
        decreases types@.len() - i,
    {
        let value = Value::TypeDescriptor(types[i].copy());
        assert(value@ == Val::TypeDescriptor(types@[i as int]@));
        values.push(value);
        i = i + 1;
    }
    assert(vals(values@) =~= descriptor_vals(concretes(types@)));
    values
}

fn add_fields(types: &mut Vec<ConcreteType>, fields: &Vec<(String, ConcreteType)>)
    ensures
        concretes(final(types)@) == concretes(old(types)@) + seconds(concrete_fields(fields@)),
{
    let ghost start = concretes(types@);
    let ghost all = seconds(concrete_fields(fields@));
    assert(start + all.take(0) =~= start);
    let mut i: usize = 0;
    while i < fields.len()
        invariant
            i <= fields@.len(),
            all == seconds(concrete_fields(fields@)),
            all.len() == fields@.len(),
            concretes(types@) == start + all.take(i as int),
        decreases fields@.len() - i,
    {
        let field = &fields[i];
        assert(concrete_fields(fields@)[i as int] == (field.0@, field.1@));
        let ghost before = concretes(types@);
        types.push(field.1.copy());
        assert(concretes(types@) =~= before.push(all[i as int]));
        assert(before.push(all[i as int]) =~= start + all.take(i + 1));
        i = i + 1;
    }
    assert(all.take(all.len() as int) =~= all);
}

fn add_payloads(types: &mut Vec<ConcreteType>, list: &Vec<ConcreteConstructor>)
    ensures
        concretes(final(types)@) == concretes(old(types)@) + seconds(payloads(list@)),
{
    let ghost start = concretes(types@);
    let ghost all = seconds(payloads(list@));
    assert(start + all.take(0) =~= start);
    let mut i: usize = 0;
    while i < list.len()
        invariant
            i <= list@.len(),
            all == seconds(payloads(list@)),
            all.len() == list@.len(),
            concretes(types@) == start + all.take(i as int),
        decreases list@.len() - i,
    {
        let constructor = &list[i];
        assert(payloads(list@)[i as int] == (constructor.name@, constructor.payload@));
        let ghost before = concretes(types@);
        types.push(constructor.payload.copy());
        assert(concretes(types@) =~= before.push(all[i as int]));
        assert(before.push(all[i as int]) =~= start + all.take(i + 1));
        i = i + 1;
    }
    assert(all.take(all.len() as int) =~= all);
}

fn collect_components(ty: &ConcreteType) -> (types: Vec<ConcreteType>)
    ensures
        concretes(types@) == components_of(ty@),
{
    match ty {
        ConcreteType::Named { name: _, arguments, body } => {
            let mut types = copy_concretes(arguments);
            match body {
                ConcreteNamedBody::Fields { fields } => {
                    assert(body@ == ConcreteBody::Fields(concrete_fields(fields@)));
                    add_fields(&mut types, fields);
                },
                ConcreteNamedBody::Alias { ty } => {
                    let ghost before = concretes(types@);
                    let inner: &ConcreteType = ty;
                    types.push(inner.copy());
                    assert(body@ == ConcreteBody::Alias(Box::new(inner@)));
                    assert(concretes(types@) =~= before.push(inner@));
                },
            }
            types
        },
        ConcreteType::Adt { name: _, arguments, constructors } => {
            let mut types = copy_concretes(arguments);
            add_payloads(&mut types, constructors);
            types
        },
        ConcreteType::List { item } | ConcreteType::SetOf { item } => {
            let inner: &ConcreteType = item;
            let mut types: Vec<ConcreteType> = Vec::new();
            types.push(inner.copy());
            assert(concretes(types@) =~= seq![inner@]);
            types
        },
        ConcreteType::MapOf { key, value } => {
            let key: &ConcreteType = key;
            let value: &ConcreteType = value;
            let mut types: Vec<ConcreteType> = Vec::new();
            types.push(key.copy());
            types.push(value.copy());
            assert(concretes(types@) =~= seq![key@, value@]);
            types
        },
        ConcreteType::Product { items } => copy_concretes(items),
        _ => {
            let types: Vec<ConcreteType> = Vec::new();
            assert(concretes(types@) =~= Seq::<Concrete>::empty());
            types
        },
    }
}

fn collect_arguments(ty: &ConcreteType) -> (types: Vec<ConcreteType>)
    ensures
        concretes(types@) == arguments_of(ty@),
{
    match ty {
        ConcreteType::Named { name: _, arguments, body: _ } => copy_concretes(arguments),
        ConcreteType::Adt { name: _, arguments, constructors: _ } => copy_concretes(arguments),
        _ => {
            let types: Vec<ConcreteType> = Vec::new();
            assert(concretes(types@) =~= Seq::<Concrete>::empty());
            types
        },
    }
}

fn find_payload<'a>(list: &'a Vec<ConcreteConstructor>, name: &str) -> (payload: Option<
    &'a ConcreteType,
>)
    ensures
        match (payload, payload_of(payloads(list@), name@, 0)) {
            (Some(ty), Some(view)) => ty@ == view,
            (None, None) => true,
            _ => false,
        },
{
    let ghost all = payloads(list@);
    let mut i: usize = 0;
    while i < list.len()
        invariant
            i <= list@.len(),
            all == payloads(list@),
            payload_of(all, name@, 0) == payload_of(all, name@, i as int),
        decreases list@.len() - i,
    {
        let constructor = &list[i];
        assert(all[i as int] == (constructor.name@, constructor.payload@));
        if same_text(constructor.name.as_str(), name) {
            return Some(&constructor.payload);
        }
        i = i + 1;
    }
    None
}

/// The functions that take a type descriptor apart or make one.
pub open spec fn descriptor_result(builtin: Builtin, args: Seq<Val>) -> Result<Val, Failure> {
    match builtin {
        Builtin::TypeEvidence => match bare(args[0]) {
            Val::TypeTag(ty) => Ok(Val::TypeDescriptor(ty)),
            other => Err(Failure::Type("type_evidence expects TypeTag, got "@ + val_kind(other))),
        },
        Builtin::ValueTypeEvidence => match bare(args[1]) {
            Val::TypeDescriptor(ty) => Ok(Val::TypeDescriptor(ty)),
            _ => Err(type_failure(builtin, " expects a TypeDescriptor"@)),
        },
        Builtin::DescriptorAcceptsValue => match (bare(args[0]), bare(args[1])) {
            (Val::TypeDescriptor(target), Val::TypeDescriptor(source)) => Ok(
                Val::Bool(target == source),
            ),
            _ => Err(type_failure(builtin, " expects TypeDescriptor arguments"@)),
        },
        _ => match bare(args[0]) {
            Val::TypeDescriptor(ty) => match builtin {
                Builtin::TypeConstructor => Ok(Val::Str(constructor_name(ty))),
                Builtin::TypeArguments => Ok(Val::List(descriptor_vals(arguments_of(ty)))),
                Builtin::TypeComponents => Ok(Val::List(descriptor_vals(components_of(ty)))),
                Builtin::ListType => Ok(Val::TypeDescriptor(Concrete::List(Box::new(ty)))),
                _ => match bare(args[1]) {
                    Val::Str(name) => match ty {
                        Concrete::Adt(_, _, constructors) => match payload_of(
                            constructors,
                            name,
                            0,
                        ) {
                            Some(payload) => Ok(Val::TypeDescriptor(payload)),
                            None => Err(
                                Failure::Type(
                                    "constructor "@ + name + " is not a member of this ADT"@,
                                ),
                            ),
                        },
                        _ => Err(type_failure(builtin, " requires an ADT owner"@)),
                    },
                    _ => Err(type_failure(builtin, " expects a constructor name"@)),
                },
            },
            _ => Err(type_failure(builtin, " expects a TypeDescriptor"@)),
        },
    }
}

#[verifier::rlimit(40)]
pub(crate) fn compute_descriptor(builtin: Builtin, args: &Vec<Value>) -> (result: Result<
    Value,
    MagError,
>)
    requires
        args@.len() == takes_exactly(builtin),
        builtin is TypeEvidence || builtin is ValueTypeEvidence || builtin is DescriptorAcceptsValue
            || builtin is TypeConstructor || builtin is TypeArguments || builtin is TypeComponents
            || builtin is ListType || builtin is AdtConstructorPayload,
    ensures
        valued(result) == descriptor_result(builtin, vals(args@)),
{
    let ghost all = vals(args@);
    assert(all[0] == args@[0]@);
    assert(args@.len() > 1 ==> all[1] == args@[1]@);
    match builtin {
        Builtin::TypeEvidence => match raw(&args[0]) {
            Value::TypeTag(ty) => Ok(Value::TypeDescriptor(ty.copy())),
            other => Err(
                MagError::Type(cat2("type_evidence expects TypeTag, got ", other.kind_name())),
            ),
        },
        Builtin::ValueTypeEvidence => match raw(&args[1]) {
            Value::TypeDescriptor(ty) => Ok(Value::TypeDescriptor(ty.copy())),
            _ => Err(type_error(builtin, " expects a TypeDescriptor")),
        },
        Builtin::DescriptorAcceptsValue => match (raw(&args[0]), raw(&args[1])) {
            (Value::TypeDescriptor(target), Value::TypeDescriptor(source)) => Ok(
                Value::Bool(target.accepts(source)),
            ),
            _ => Err(type_error(builtin, " expects TypeDescriptor arguments")),
        },
        _ => match raw(&args[0]) {
            Value::TypeDescriptor(ty) => match builtin {
                Builtin::TypeConstructor => match ty {
                    ConcreteType::Named { name, arguments: _, body: _ } => Ok(
                        Value::Str(name.clone()),
                    ),
                    ConcreteType::Adt { name, arguments: _, constructors: _ } => Ok(
                        Value::Str(name.clone()),
                    ),
                    _ => {
                        proof {
                            reveal_strlit("");
                            assert(""@ =~= Seq::<char>::empty());
                        }
                        Ok(Value::Str("".to_owned()))
                    },
                },
                Builtin::TypeArguments => {
                    let types = collect_arguments(ty);
                    Ok(Value::List(describe_all(&types)))
                },
                Builtin::TypeComponents => {
                    let types = collect_components(ty);
                    Ok(Value::List(describe_all(&types)))
                },
                Builtin::ListType => {
                    let list = ConcreteType::List { item: Box::new(ty.copy()) };
                    assert(list@ == Concrete::List(Box::new(ty@)));
                    Ok(Value::TypeDescriptor(list))
                },
                _ => match raw(&args[1]) {
                    Value::Str(name) => match ty {
                        ConcreteType::Adt { name: _, arguments: _, constructors } => match find_payload(
                            constructors,
                            name.as_str(),
                        ) {
                            Some(payload) => Ok(Value::TypeDescriptor(payload.copy())),
                            None => Err(
                                MagError::Type(
                                    cat3(
                                        "constructor ",
                                        name.as_str(),
                                        " is not a member of this ADT",
                                    ),
                                ),
                            ),
                        },
                        _ => Err(type_error(builtin, " requires an ADT owner")),
                    },
                    _ => Err(type_error(builtin, " expects a constructor name")),
                },
            },
            _ => Err(type_error(builtin, " expects a TypeDescriptor")),
        },
    }
}

// ---------------------------------------------------------------------------
// Packed values
// ---------------------------------------------------------------------------

/// The texts in a list, from index `i` on; `None` if an item is no text.
pub open spec fn texts_of(items: Seq<Val>, i: int) -> Option<Seq<Seq<char>>>
    decreases items.len() - i,
{
    if i < 0 || i >= items.len() {
        Some(Seq::empty())
    } else {
        match val_text(items[i]) {
            Some(text) => match texts_of(items, i + 1) {
                Some(rest) => Some(seq![text] + rest),
                None => None,
            },
            None => None,
        }
    }
}

fn collect_texts(items: &Vec<Value>) -> (result: Option<Vec<String>>)
    ensures
        match (result, texts_of(vals(items@), 0)) {
            (Some(list), Some(view)) => texts(list@) == view,
            (None, None) => true,
            _ => false,
        },
{
    let ghost all = vals(items@);
    let mut list: Vec<String> = Vec::new();
    proof {
        assert(texts(list@) =~= Seq::<Seq<char>>::empty());
        if let Some(rest) = texts_of(all, 0) {
            assert(texts(list@) + rest =~= rest);
        }
    }
    let mut i: usize = 0;
    while i < items.len()
        invariant
            i <= items@.len(),
            all == vals(items@),
            match texts_of(all, 0) {
                Some(view) => match texts_of(all, i as int) {
                    Some(rest) => view == texts(list@) + rest,
                    None => false,
                },
                None => texts_of(all, i as int) is None,
            },
        decreases items@.len() - i,
    {
        assert(all[i as int] == items@[i as int]@);
        match items[i].as_str() {
            None => return None,
            Some(text) => {
                let ghost before = texts(list@);
                list.push(text.to_owned());
                proof {
                    assert(texts(list@) =~= before.push(text@));
                    if let Some(rest) = texts_of(all, i + 1) {
                        assert(before + (seq![text@] + rest) =~= before.push(text@) + rest);
                    }
                }
            },
        }
        i = i + 1;
    }
    assert(texts(list@) + Seq::<Seq<char>>::empty() =~= texts(list@));
    Some(list)
}

/// A path of field names as messages show it.
pub open spec fn path_shown(path: Seq<Seq<char>>) -> Seq<char> {
    if path.len() == 0 {
        "<root>"@
    } else {
        joined(path, "."@)
    }
}

/// The value at the end of a path of field names, from segment `i` on.
pub open spec fn value_at(value: Val, path: Seq<Seq<char>>, i: int) -> Result<Val, Failure>
    decreases path.len() - i,
{
    if i < 0 || i >= path.len() {
        Ok(value)
    } else {
        match bare(value) {
            Val::Fields(fields) => match field_value(fields, path[i], 0) {
                Some(field) => value_at(field, path, i + 1),
                None => Err(
                    Failure::Eval(
                        "packed_path_strings path "@ + path_shown(path.take(i)) + " has no field "@
                            + debug_shown(path[i]),
                    ),
                ),
            },
            other => Err(
                Failure::Eval(
                    "packed_path_strings cannot traverse "@ + path_shown(path.take(i))
                        + ": expected record, got "@ + val_kind(other),
                ),
            ),
        }
    }
}

/// The first item from index `i` on that is no text.
pub open spec fn first_other(items: Seq<Val>, i: int) -> Val
    decreases items.len() - i,
{
    if i < 0 || i >= items.len() {
        Val::Unit
    } else if val_text(items[i]) is None {
        items[i]
    } else {
        first_other(items, i + 1)
    }
}

pub open spec fn text_vals(list: Seq<Seq<char>>) -> Seq<Val> {
    Seq::new(list.len(), |i: int| Val::Str(list[i]))
}

/// The texts at the end of a path in a packed value.
pub open spec fn path_strings(value: Val, path: Seq<Seq<char>>, expect_list: bool) -> Result<
    Val,
    Failure,
> {
    match value_at(value, path, 0) {
        Err(failure) => Err(failure),
        Ok(selected) => if expect_list {
            match bare(selected) {
                Val::List(items) => match texts_of(items, 0) {
                    Some(list) => Ok(Val::List(text_vals(list))),
                    None => Err(
                        Failure::Eval(
                            "packed_path_strings expected List<String> at "@ + path_shown(path)
                                + ", got list containing "@ + val_kind(
                                bare(first_other(items, 0)),
                            ),
                        ),
                    ),
                },
                other => Err(
                    Failure::Eval(
                        "packed_path_strings expected List<String> at "@ + path_shown(path)
                            + ", got "@ + val_kind(other),
                    ),
                ),
            }
        } else {
            match val_text(selected) {
                Some(text) => Ok(Val::List(seq![Val::Str(text)])),
                None => Err(
                    Failure::Eval(
                        "packed_path_strings expected String at "@ + path_shown(path) + ", got "@
                            + val_kind(bare(selected)),
                    ),
                ),
            }
        },
    }
}

fn prefix_text(path: &Vec<String>, n: usize) -> (text: String)
    requires
        n <= path@.len(),
    ensures
        text@ == path_shown(texts(path@).take(n as int)),
{
    if n == 0 {
        return "<root>".to_owned();
    }
    let ghost all = texts(path@);
    let mut prefix: Vec<String> = Vec::new();
    assert(texts(prefix@) =~= all.take(0));
    let mut i: usize = 0;
    while i < n
        invariant
            i <= n <= path@.len(),
            all == texts(path@),
            all.len() == path@.len(),
            texts(prefix@) == all.take(i as int),
        decreases n - i,
    {
        let ghost before = texts(prefix@);
        prefix.push(path[i].clone());
        assert(texts(prefix@) =~= before.push(all[i as int]));
        assert(before.push(all[i as int]) =~= all.take(i + 1));
        i = i + 1;
    }
    join_texts(&prefix, ".")
}

fn find_at<'a>(value: &'a Value, path: &Vec<String>) -> (result: Result<&'a Value, MagError>)
    ensures
        match (result, value_at(value@, texts(path@), 0)) {
            (Ok(found), Ok(view)) => found@ == view,
            (Err(error), Err(failure)) => error@ == failure,
            _ => false,
        },
{
    let ghost all = texts(path@);
    let mut selected = value;
    let mut i: usize = 0;
    while i < path.len()
        invariant
            i <= path@.len(),
            all == texts(path@),
            all.len() == path@.len(),
            value_at(value@, all, 0) == value_at(selected@, all, i as int),
        decreases path@.len() - i,
    {
        assert(all[i as int] == path@[i as int]@);
        match raw(selected) {
            Value::Fields(fields) => match find_value(fields, path[i].as_str()) {
                Some(field) => {
                    selected = field;
                },
                None => {
                    let parent = prefix_text(path, i);
                    let name = debug_text(path[i].as_str());
                    return Err(
                        MagError::Eval(
                            cat4(
                                "packed_path_strings path ",
                                parent.as_str(),
                                " has no field ",
                                name.as_str(),
                            ),
                        ),
                    );
                },
            },
            other => {
                let parent = prefix_text(path, i);
                return Err(
                    MagError::Eval(
                        cat4(
                            "packed_path_strings cannot traverse ",
                            parent.as_str(),
                            ": expected record, got ",
                            other.kind_name(),
                        ),
                    ),
                );
            },
        }
        i = i + 1;
    }
    Ok(selected)
}

fn find_other(items: &Vec<Value>) -> (kind: &'static str)
    ensures
        kind@ == val_kind(bare(first_other(vals(items@), 0))),
{
    let ghost all = vals(items@);
    let mut i: usize = 0;
    while i < items.len()
        invariant
            i <= items@.len(),
            all == vals(items@),
            first_other(all, 0) == first_other(all, i as int),
        decreases items@.len() - i,
    {
        assert(all[i as int] == items@[i as int]@);
        if items[i].as_str().is_none() {
            return raw(&items[i]).kind_name();
        }
        i = i + 1;
    }
    Value::Unit.kind_name()
}

fn text_values(list: &Vec<String>) -> (values: Vec<Value>)
    ensures
        vals(values@) == text_vals(texts(list@)),
{
    let mut values: Vec<Value> = Vec::new();
    let mut i: usize = 0;
    while i < list.len()
        invariant
            i <= list@.len(),
            values@.len() == i,
            forall|j: int| 0 <= j < i ==> (#[trigger] values@[j])@ == Val::Str(list@[j]@),
        decreases list@.len() - i,
    {
        let value = Value::Str(list[i].clone());
        assert(value@ == Val::Str(list@[i as int]@));
        values.push(value);
        i = i + 1;
    }
    assert(vals(values@) =~= text_vals(texts(list@)));
    values
}

fn find_path_strings(value: &Value, path: &Vec<String>, expect_list: bool) -> (result: Result<
    Value,
    MagError,
>)
    ensures
        valued(result) == path_strings(value@, texts(path@), expect_list),
{
    let selected = match find_at(value, path) {
        Ok(selected) => selected,
        Err(error) => return Err(error),
    };
    let place = prefix_text(path, path.len());
    assert(texts(path@).take(path@.len() as int) =~= texts(path@));
    if expect_list {
        match raw(selected) {
            Value::List(items) => match collect_texts(items) {
                Some(list) => Ok(Value::List(text_values(&list))),
                None => {
                    let kind = find_other(items);
                    Err(
                        MagError::Eval(
                            cat4(
                                "packed_path_strings expected List<String> at ",
                                place.as_str(),
                                ", got list containing ",
                                kind,
                            ),
                        ),
                    )
                },
            },
            other => Err(
                MagError::Eval(
                    cat4(
                        "packed_path_strings expected List<String> at ",
                        place.as_str(),
                        ", got ",
                        other.kind_name(),
                    ),
                ),
            ),
        }
    } else {
        match selected.as_str() {
            Some(text) => {
                let mut values: Vec<Value> = Vec::new();
                let value = Value::Str(text.to_owned());
                assert(value@ == Val::Str(text@));
                values.push(value);
                assert(vals(values@) =~= seq![Val::Str(text@)]);
                Ok(Value::List(values))
            },
            None => Err(
                MagError::Eval(
                    cat4(
                        "packed_path_strings expected String at ",
                        place.as_str(),
                        ", got ",
                        raw(selected).kind_name(),
                    ),
                ),
            ),
        }
    }
}

/// The different names among the first `n` names of a list.
pub open spec fn distinct(list: Seq<Seq<char>>, n: int) -> Seq<Seq<char>>
    decreases n,
{
    if n <= 0 {
        Seq::empty()
    } else if distinct(list, n - 1).contains(list[n - 1]) {
        distinct(list, n - 1)
    } else {
        distinct(list, n - 1).push(list[n - 1])
    }
}

/// Whether a value is a record with exactly the fields that a list names.
pub open spec fn has_only(value: Val, keys: Seq<Seq<char>>) -> bool {
    match bare(value) {
        Val::Fields(fields) => fields.len() == distinct(keys, keys.len() as int).len() && (forall|
            i: int,
        |
            0 <= i < fields.len() ==> keys.contains((#[trigger] fields[i]).0)),
        _ => false,
    }
}

proof fn lemma_distinct_members(list: Seq<Seq<char>>, n: int)
    requires
        0 <= n <= list.len(),
    ensures
        forall|text: Seq<char>|
            #[trigger] distinct(list, n).contains(text) <==> list.take(n).contains(text),
    decreases n,
{
    if n > 0 {
        lemma_distinct_members(list, n - 1);
        let before = distinct(list, n - 1);
        let last = list[n - 1];
        let shorter = list.take(n - 1);
        assert(list.take(n) =~= shorter.push(last));
        assert forall|text: Seq<char>| #[trigger]
            distinct(list, n).contains(text) <==> list.take(n).contains(text) by {
            assert(before.contains(text) <==> shorter.contains(text));
            lemma_push_contains(shorter, last, text);
            lemma_push_contains(before, last, text);
        }
    }
}

proof fn lemma_push_contains(list: Seq<Seq<char>>, last: Seq<char>, text: Seq<char>)
    ensures
        list.push(last).contains(text) <==> list.contains(text) || text == last,
{
    let longer = list.push(last);
    if list.contains(text) {
        let k = list.index_of(text);
        assert(longer[k] == text);
    }
    if text == last {
        assert(longer[list.len() as int] == text);
    }
    if longer.contains(text) && text != last {
        let k = longer.index_of(text);
        assert(list[k] == text);
    }
}

fn distinct_texts(list: &Vec<String>) -> (result: Vec<String>)
    ensures
        texts(result@) == distinct(texts(list@), list@.len() as int),
{
    let ghost all = texts(list@);
    let mut result: Vec<String> = Vec::new();
    assert(texts(result@) =~= Seq::<Seq<char>>::empty());
    let mut i: usize = 0;
    while i < list.len()
        invariant
            i <= list@.len(),
            all == texts(list@),
            all.len() == list@.len(),
            texts(result@) == distinct(all, i as int),
        decreases list@.len() - i,
    {
        assert(all[i as int] == list@[i as int]@);
        if !contains_text(&result, list[i].as_str()) {
            let ghost before = texts(result@);
            result.push(list[i].clone());
            assert(texts(result@) =~= before.push(all[i as int]));
        }
        i = i + 1;
    }
    result
}

fn has_only_keys(value: &Value, keys: &Vec<String>) -> (yes: bool)
    ensures
        yes == has_only(value@, texts(keys@)),
{
    match raw(value) {
        Value::Fields(fields) => {
            let ghost all = val_fields(fields@);
            let ghost names = texts(keys@);
            let different = distinct_texts(keys);
            proof {
                lemma_distinct_members(names, names.len() as int);
                assert(names.take(names.len() as int) =~= names);
                assert(all.len() == fields@.len());
                assert(texts(different@).len() == different@.len());
            }
            if fields.len() != different.len() {
                return false;
            }
            let mut i: usize = 0;
            while i < fields.len()
                invariant
                    i <= fields@.len(),
                    all == val_fields(fields@),
                    names == texts(keys@),
                    bare(value@) == Val::Fields(all),
                    forall|j: int| 0 <= j < i ==> names.contains((#[trigger] all[j]).0),
                decreases fields@.len() - i,
            {
                let field = &fields[i];
                assert(all[i as int] == (field.0@, field.1@));
                if !contains_text(keys, field.0.as_str()) {
                    assert(!names.contains(all[i as int].0));
                    return false;
                }
                i = i + 1;
            }
            true
        },
        _ => false,
    }
}

/// The functions that look into a packed value.
pub open spec fn packed_result(world: World, builtin: Builtin, args: Seq<Val>) -> Result<
    Val,
    Failure,
> {
    match bare(args[0]) {
        Val::PackedValue(value) => match builtin {
            Builtin::PackedEmptyRecord => Ok(
                Val::Bool(
                    match bare(*value) {
                        Val::Fields(fields) => fields.len() == 0,
                        _ => false,
                    },
                ),
            ),
            Builtin::PackedPathStrings => match bare(args[1]) {
                Val::List(segments) => match texts_of(segments, 0) {
                    Some(path) => match bare(args[2]) {
                        Val::Bool(expect_list) => path_strings(*value, path, expect_list),
                        _ => Err(type_failure(builtin, " expects Bool as its third argument"@)),
                    },
                    None => Err(type_failure(builtin, " expects a String path"@)),
                },
                _ => Err(type_failure(builtin, " expects a String path"@)),
            },
            Builtin::PackedRecordHasOnlyKey => match val_text(args[1]) {
                Some(key) => Ok(Val::Bool(has_only(*value, seq![key]))),
                None => Err(Failure::Type("packed record key must be String"@)),
            },
            Builtin::PackedRecordHasOnlyKeys => match bare(args[1]) {
                Val::List(items) => match texts_of(items, 0) {
                    Some(keys) => Ok(Val::Bool(has_only(*value, keys))),
                    None => Err(type_failure(builtin, " expects a String list"@)),
                },
                _ => Err(type_failure(builtin, " expects a String list"@)),
            },
            _ => match val_text(args[1]) {
                Some(key) => match bare(args[2]) {
                    Val::TypeDescriptor(ty) => Ok(
                        Val::Bool(
                            match bare(*value) {
                                Val::Fields(fields) => match field_value(fields, key, 0) {
                                    Some(field) => validation(world, field, abstracted(ty)) is Ok,
                                    None => false,
                                },
                                _ => false,
                            },
                        ),
                    ),
                    _ => Err(type_failure(builtin, " expects TypeDescriptor"@)),
                },
                None => Err(Failure::Type("packed record key must be String"@)),
            },
        },
        _ => Err(type_failure(builtin, " expects PackedValue"@)),
    }
}

#[verifier::rlimit(40)]
pub(crate) fn compute_packed(env: &Env, builtin: Builtin, args: &Vec<Value>) -> (result: Result<
    Value,
    MagError,
>)
    requires
        args@.len() == takes_exactly(builtin),
        builtin is PackedEmptyRecord || builtin is PackedPathStrings
            || builtin is PackedRecordHasOnlyKey || builtin is PackedRecordHasOnlyKeys
            || builtin is PackedFieldConforms,
    ensures
        valued(result) == packed_result(env@, builtin, vals(args@)),
{
    let ghost all = vals(args@);
    assert(all[0] == args@[0]@);
    assert(args@.len() > 1 ==> all[1] == args@[1]@);
    assert(args@.len() > 2 ==> all[2] == args@[2]@);
    let value: &Value = match raw(&args[0]) {
        Value::PackedValue(value) => value,
        _ => return Err(type_error(builtin, " expects PackedValue")),
    };
    match builtin {
        Builtin::PackedEmptyRecord => Ok(
            Value::Bool(
                match raw(value) {
                    Value::Fields(fields) => {
                        assert(val_fields(fields@).len() == fields@.len());
                        fields.len() == 0
                    },
                    _ => false,
                },
            ),
        ),
        Builtin::PackedPathStrings => match raw(&args[1]) {
            Value::List(segments) => match collect_texts(segments) {
                Some(path) => match raw(&args[2]) {
                    Value::Bool(expect_list) => find_path_strings(value, &path, *expect_list),
                    _ => Err(type_error(builtin, " expects Bool as its third argument")),
                },
                None => Err(type_error(builtin, " expects a String path")),
            },
            _ => Err(type_error(builtin, " expects a String path")),
        },
        Builtin::PackedRecordHasOnlyKey => match args[1].as_str() {
            Some(key) => {
                let mut keys: Vec<String> = Vec::new();
                keys.push(key.to_owned());
                assert(texts(keys@) =~= seq![key@]);
                Ok(Value::Bool(has_only_keys(value, &keys)))
            },
            None => Err(MagError::Type("packed record key must be String".to_owned())),
        },
        Builtin::PackedRecordHasOnlyKeys => match raw(&args[1]) {
            Value::List(items) => match collect_texts(items) {
                Some(keys) => Ok(Value::Bool(has_only_keys(value, &keys))),
                None => Err(type_error(builtin, " expects a String list")),
            },
            _ => Err(type_error(builtin, " expects a String list")),
        },
        _ => match args[1].as_str() {
            Some(key) => match raw(&args[2]) {
                Value::TypeDescriptor(ty) => {
                    let valid = match raw(value) {
                        Value::Fields(fields) => match find_value(fields, key) {
                            Some(field) => {
                                let ty = ty.to_mag_type();
                                validate_value(env, field, &ty).is_ok()
                            },
                            None => false,
                        },
                        _ => false,
                    };
                    Ok(Value::Bool(valid))
                },
                _ => Err(type_error(builtin, " expects TypeDescriptor")),
            },
            None => Err(MagError::Type("packed record key must be String".to_owned())),
        },
    }
}

// ---------------------------------------------------------------------------
// Host inputs
// ---------------------------------------------------------------------------

/// What the host supplied under a key, read as a value of a type.
pub open spec fn host_input(world: World, args: Seq<Val>) -> Result<Val, Failure> {
    match val_text(args[0]) {
        None => Err(Failure::Type("host_input key must be a String"@)),
        Some(key) => match bare(args[1]) {
            Val::TypeTag(expected) => match id_by_type(world, "inputs"@, Ty::HostInputs) {
                Err(failure) => Err(failure),
                Ok(id) => match ready_value(world, id) {
                    Some(value) => match bare(value) {
                        Val::HostInputs(Data::Object(members)) => match member_at(members, key, 0) {
                            None => Err(
                                Failure::Type(
                                    "host input "@ + debug_shown(key) + " is not present"@,
                                ),
                            ),
                            Some(data) => match typed_val(
                                world,
                                true,
                                data,
                                abstracted(expected),
                                TYPE_DEPTH_LIMIT as nat,
                            ) {
                                Ok(value) => Ok(value),
                                Err(failure) => Err(
                                    Failure::Type(
                                        "host input "@ + debug_shown(key) + ": "@ + failure_text(
                                            failure,
                                        ),
                                    ),
                                ),
                            },
                        },
                        Val::HostInputs(_) => Err(
                            Failure::Type("host input "@ + debug_shown(key) + " is not present"@),
                        ),
                        _ => Err(Failure::Type("host_input requires compiler host inputs"@)),
                    },
                    None => Err(Failure::Type("host_input requires compiler host inputs"@)),
                },
            },
            _ => Err(Failure::Type("host_input expects a TypeTag"@)),
        },
    }
}

fn absent_input(key: &str) -> (error: MagError)
    ensures
        error@ == Failure::Type("host input "@ + debug_shown(key@) + " is not present"@),
{
    let shown = debug_text(key);
    MagError::Type(cat3("host input ", shown.as_str(), " is not present"))
}

#[verifier::rlimit(40)]
pub(crate) fn compute_host_input(env: &Env, args: &Vec<Value>) -> (result: Result<Value, MagError>)
    requires
        args@.len() == 2,
    ensures
        valued(result) == host_input(env@, vals(args@)),
{
    let ghost all = vals(args@);
    assert(all[0] == args@[0]@ && all[1] == args@[1]@);
    let key = match args[0].as_str() {
        None => return Err(MagError::Type("host_input key must be a String".to_owned())),
        Some(key) => key,
    };
    let expected = match raw(&args[1]) {
        Value::TypeTag(expected) => expected,
        _ => return Err(MagError::Type("host_input expects a TypeTag".to_owned())),
    };
    let id = match lookup_by_type(env, "inputs", &MagType::HostInputs) {
        Err(error) => return Err(error),
        Ok(id) => id,
    };
    match env.ready_binding(id) {
        Some(value) => match raw(value) {
            Value::HostInputs(json) => match json {
                Json::Object(members) => match find_member(members, key) {
                    None => Err(absent_input(key)),
                    Some(member) => {
                        let ty = expected.to_mag_type();
                        match project_typed_value(env, member, &ty) {
                            Ok(value) => Ok(value),
                            Err(error) => {
                                let shown = debug_text(key);
                                let message = error.message();
                                Err(
                                    MagError::Type(
                                        cat4(
                                            "host input ",
                                            shown.as_str(),
                                            ": ",
                                            message.as_str(),
                                        ),
                                    ),
                                )
                            },
                        }
                    },
                },
                _ => Err(absent_input(key)),
            },
            _ => Err(MagError::Type("host_input requires compiler host inputs".to_owned())),
        },
        None => Err(MagError::Type("host_input requires compiler host inputs".to_owned())),
    }
}

} // verus!
