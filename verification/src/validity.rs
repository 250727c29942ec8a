//! Values held to types, and values compared with each other.

use crate::compat::{
    field_at, find_field, named_field_types, record_fields, substitute_fields, substituted_fields,
};
use crate::content::{field_value, find_member, find_value, member_at, valued};
use crate::declare::{Body, Concrete, ConcreteType, TypeDeclBody, abstracted, field_types};
use crate::env::{Env, World, decl_of, looked_up};
use crate::error::{Failure, MagError, verdict};
use crate::json::{Data, Json, data_items, data_members};
use crate::resolve::{TYPE_DEPTH_LIMIT, concrete_type};
use crate::text::{
    cat2, cat3, cat4, cat5, cat6, count_text, debug_shown, debug_text, decimal, join_texts,
    joined, same_text, signed_decimal, signed_text, texts,
};
use crate::types::{MagType, Ty, substitute, substituted, ty_text, tys, zip_types, zipped};
use crate::value::{
    Val, Value, bare, raw, type_of, val_entries, val_fields, val_kind, vals, value_type,
};
use vstd::prelude::*;

verus! {

// ---------------------------------------------------------------------------
// Documents
// ---------------------------------------------------------------------------

/// Whether two documents are the same: numbers with a fraction by their bits,
/// objects whatever the order of their members.
pub open spec fn data_equal(left: Data, right: Data) -> bool
    decreases left, 0int,
{
    match (left, right) {
        (Data::Float(a), Data::Float(b)) => a.bits == b.bits,
        (Data::Large(a, _), Data::Large(b, _)) => a == b,
        (Data::Array(a), Data::Array(b)) => a.len() == b.len() && items_equal(a, b, 0),
        (Data::Object(a), Data::Object(b)) => a.len() == b.len() && members_equal(a, b, 0),
        (Data::Null, Data::Null) => true,
        (Data::Bool(a), Data::Bool(b)) => a == b,
        (Data::Int(a), Data::Int(b)) => a == b,
        (Data::Str(a), Data::Str(b)) => a == b,
        _ => false,
    }
}

pub open spec fn items_equal(left: Seq<Data>, right: Seq<Data>, i: int) -> bool
    decreases left, left.len() - i,
{
    0 <= i < left.len() ==> (data_equal(left[i], right[i]) && items_equal(left, right, i + 1))
}

pub open spec fn members_equal(
    left: Seq<(Seq<char>, Data)>,
    right: Seq<(Seq<char>, Data)>,
    i: int,
) -> bool
    decreases left, left.len() - i,
{
    0 <= i < left.len() ==> ((match member_at(right, left[i].0, 0) {
        Some(other) => data_equal(left[i].1, other),
        None => false,
    }) && members_equal(left, right, i + 1))
}

pub fn json_equal(left: &Json, right: &Json) -> (same: bool)
    ensures
        same == data_equal(left@, right@),
    decreases left, 0int,
{
    match (left, right) {
        (Json::Float(a), Json::Float(b)) => a.bits == b.bits,
        (Json::Large(a, _), Json::Large(b, _)) => *a == *b,
        (Json::Array(a), Json::Array(b)) => {
            assert(data_items(a@).len() == a@.len());
            assert(data_items(b@).len() == b@.len());
            a.len() == b.len() && json_items_equal(a, b)
        },
        (Json::Object(a), Json::Object(b)) => {
            assert(data_members(a@).len() == a@.len());
            assert(data_members(b@).len() == b@.len());
            a.len() == b.len() && json_members_equal(a, b)
        },
        (Json::Null, Json::Null) => true,
        (Json::Bool(a), Json::Bool(b)) => *a == *b,
        (Json::Int(a), Json::Int(b)) => *a == *b,
        (Json::Str(a), Json::Str(b)) => same_text(a.as_str(), b.as_str()),
        _ => false,
    }
}

fn json_items_equal(left: &Vec<Json>, right: &Vec<Json>) -> (same: bool)
    requires
        left@.len() == right@.len(),
    ensures
        same == items_equal(data_items(left@), data_items(right@), 0),
    decreases left, 1int,
{
    let ghost a = data_items(left@);
    let ghost b = data_items(right@);
    let mut i: usize = 0;
    while i < left.len()
        invariant
            i <= left@.len() == right@.len(),
            a == data_items(left@),
            b == data_items(right@),
            items_equal(a, b, 0) == items_equal(a, b, i as int),
        decreases left@.len() - i,
    {
        assert(a[i as int] == left@[i as int]@);
        assert(b[i as int] == right@[i as int]@);
        if !json_equal(&left[i], &right[i]) {
            return false;
        }
        i = i + 1;
    }
    true
}

fn json_members_equal(left: &Vec<(String, Json)>, right: &Vec<(String, Json)>) -> (same: bool)
    ensures
        same == members_equal(data_members(left@), data_members(right@), 0),
    decreases left, 1int,
{
    let ghost a = data_members(left@);
    let ghost b = data_members(right@);
    let mut i: usize = 0;
    while i < left.len()
        invariant
            i <= left@.len(),
            a == data_members(left@),
            b == data_members(right@),
            members_equal(a, b, 0) == members_equal(a, b, i as int),
        decreases left@.len() - i,
    {
        let member = &left[i];
        assert(a[i as int] == (member.0@, member.1@));
        match find_member(right, member.0.as_str()) {
            None => return false,
            Some(other) => {
                if !json_equal(&member.1, other) {
                    return false;
                }
            },
        }
        i = i + 1;
    }
    true
}

// ---------------------------------------------------------------------------
// Equal values
// ---------------------------------------------------------------------------

/// The named type that a value carries, with the value below it.
pub open spec fn nominal(world: World, value: Val) -> Option<(Concrete, Val)>
    decreases value,
{
    match value {
        Val::Typed(inner, ty) => match concrete_type(world, ty) {
            Ok(Concrete::Named(name, arguments, body)) => Some(
                (Concrete::Named(name, arguments, body), *inner),
            ),
            _ => nominal(world, *inner),
        },
        _ => None,
    }
}

/// Whether two values are equal. Values of named types are equal only at the
/// same type; numbers with a fraction are compared by their bits.
pub open spec fn equals(world: World, left: Val, right: Val) -> bool
    decreases left, 0int,
{
    match left {
        Val::Typed(inner, ty) => match concrete_type(world, ty) {
            Ok(Concrete::Named(name, arguments, body)) => match nominal(world, right) {
                Some((other, below)) => Concrete::Named(name, arguments, body) == other && equals(
                    world,
                    *inner,
                    below,
                ),
                None => false,
            },
            _ => equals(world, *inner, right),
        },
        _ => if nominal(world, right) is Some {
            false
        } else {
            match (left, bare(right)) {
                (Val::Unit, Val::Unit) => true,
                (Val::Str(a), Val::Str(b)) => a == b,
                (Val::Int(a), Val::Int(b)) => a == b,
                (Val::Float(a), Val::Float(b)) => a.bits == b.bits,
                (Val::Bool(a), Val::Bool(b)) => a == b,
                (Val::Keyword(a), Val::Keyword(b)) => a == b,
                (Val::Symbol(a), Val::Symbol(b)) => a == b,
                (Val::List(a), Val::List(b)) => a.len() == b.len() && equal_items(world, a, b, 0),
                (Val::Product(a), Val::Product(b)) => a.len() == b.len() && equal_items(
                    world,
                    a,
                    b,
                    0,
                ),
                (Val::MapOf(a), Val::MapOf(b)) => a.len() == b.len() && equal_entries(
                    world,
                    a,
                    b,
                    0,
                ),
                (Val::SetOf(a), Val::SetOf(b)) => a.len() == b.len() && equal_members(
                    world,
                    a,
                    b,
                    0,
                ),
                (Val::Fields(a), Val::Fields(b)) => a.len() == b.len() && equal_fields(
                    world,
                    a,
                    b,
                    0,
                ),
                (Val::Adt(a_owner, a_id, a), Val::Adt(b_owner, b_id, b)) => {
                    &&& concrete_type(world, a_owner) is Ok
                    &&& concrete_type(world, b_owner) is Ok
                    &&& concrete_type(world, a_owner)->Ok_0 == concrete_type(world, b_owner)->Ok_0
                    &&& a_id == b_id
                    &&& equals(world, *a, *b)
                },
                (Val::JsonValue(a), Val::JsonValue(b)) => data_equal(a, b),
                _ => false,
            }
        },
    }
}

pub open spec fn equal_items(world: World, left: Seq<Val>, right: Seq<Val>, i: int) -> bool
    decreases left, left.len() - i,
{
    0 <= i < left.len() ==> (equals(world, left[i], right[i]) && equal_items(
        world,
        left,
        right,
        i + 1,
    ))
}

/// Whether a value equals one of some others, from index `j` on.
pub open spec fn equal_any(world: World, item: Val, others: Seq<Val>, j: int) -> bool
    decreases item, 1int, others.len() - j,
{
    0 <= j < others.len() && (equals(world, item, others[j]) || equal_any(
        world,
        item,
        others,
        j + 1,
    ))
}

pub open spec fn equal_members(world: World, left: Seq<Val>, right: Seq<Val>, i: int) -> bool
    decreases left, left.len() - i,
{
    0 <= i < left.len() ==> (equal_any(world, left[i], right, 0) && equal_members(
        world,
        left,
        right,
        i + 1,
    ))
}

/// Whether an entry equals one of some others, from index `j` on.
pub open spec fn equal_entry(world: World, entry: (Val, Val), others: Seq<(Val, Val)>, j: int) -> bool
    decreases entry, 1int, others.len() - j,
{
    0 <= j < others.len() && ((equals(world, entry.0, others[j].0) && equals(
        world,
        entry.1,
        others[j].1,
    )) || equal_entry(world, entry, others, j + 1))
}

pub open spec fn equal_entries(
    world: World,
    left: Seq<(Val, Val)>,
    right: Seq<(Val, Val)>,
    i: int,
) -> bool
    decreases left, left.len() - i,
{
    0 <= i < left.len() ==> (equal_entry(world, left[i], right, 0) && equal_entries(
        world,
        left,
        right,
        i + 1,
    ))
}

pub open spec fn equal_fields(
    world: World,
    left: Seq<(Seq<char>, Val)>,
    right: Seq<(Seq<char>, Val)>,
    i: int,
) -> bool
    decreases left, left.len() - i,
{
    0 <= i < left.len() ==> ((match field_value(right, left[i].0, 0) {
        Some(other) => equals(world, left[i].1, other),
        None => false,
    }) && equal_fields(world, left, right, i + 1))
}

fn named_type(env: &Env, ty: &MagType) -> (named: Option<ConcreteType>)
    ensures
        match (named, concrete_type(env@, ty@)) {
            (Some(named), Ok(view)) => view is Named && named@ == view,
            (None, Ok(view)) => !(view is Named),
            (None, Err(_)) => true,
            _ => false,
        },
{
    match ConcreteType::resolve(env, ty) {
        Ok(concrete) => {
            let is_named = match &concrete {
                ConcreteType::Named { .. } => true,
                _ => false,
            };
            if is_named {
                Some(concrete)
            } else {
                None
            }
        },
        Err(_) => None,
    }
}

fn find_nominal<'a>(env: &Env, value: &'a Value) -> (found: Option<(ConcreteType, &'a Value)>)
    ensures
        match (found, nominal(env@, value@)) {
            (Some((named, below)), Some((view, inner))) => named@ == view && below@ == inner,
            (None, None) => true,
            _ => false,
        },
    decreases value,
{
    match value {
        Value::Typed(inner, ty) => match named_type(env, ty) {
            Some(named) => Some((named, inner)),
            None => find_nominal(env, inner),
        },
        _ => None,
    }
}

pub fn equal(env: &Env, left: &Value, right: &Value) -> (same: bool)
    ensures
        same == equals(env@, left@, right@),
    decreases left, 0int,
{
    if let Value::Typed(inner, ty) = left {
        return match named_type(env, ty) {
            Some(named) => match find_nominal(env, right) {
                Some((other, below)) => named.same(&other) && equal(env, inner, below),
                None => false,
            },
            None => equal(env, inner, right),
        };
    }
    if find_nominal(env, right).is_some() {
        return false;
    }
    match (left, raw(right)) {
        (Value::Unit, Value::Unit) => true,
        (Value::Str(a), Value::Str(b)) => same_text(a.as_str(), b.as_str()),
        (Value::Int(a), Value::Int(b)) => *a == *b,
        (Value::Float(a), Value::Float(b)) => a.bits == b.bits,
        (Value::Bool(a), Value::Bool(b)) => *a == *b,
        (Value::Keyword(a), Value::Keyword(b)) => same_text(a.as_str(), b.as_str()),
        (Value::Symbol(a), Value::Symbol(b)) => same_text(a.as_str(), b.as_str()),
        (Value::List(a), Value::List(b)) => {
            assert(vals(a@).len() == a@.len());
            assert(vals(b@).len() == b@.len());
            a.len() == b.len() && items_are_equal(env, a, b)
        },
        (Value::Product(a), Value::Product(b)) => {
            assert(vals(a@).len() == a@.len());
            assert(vals(b@).len() == b@.len());
            a.len() == b.len() && items_are_equal(env, a, b)
        },
        (Value::MapOf(a), Value::MapOf(b)) => {
            assert(val_entries(a@).len() == a@.len());
            assert(val_entries(b@).len() == b@.len());
            a.len() == b.len() && entries_are_equal(env, a, b)
        },
        (Value::SetOf(a), Value::SetOf(b)) => {
            assert(vals(a@).len() == a@.len());
            assert(vals(b@).len() == b@.len());
            a.len() == b.len() && members_are_equal(env, a, b)
        },
        (Value::Fields(a), Value::Fields(b)) => {
            assert(val_fields(a@).len() == a@.len());
            assert(val_fields(b@).len() == b@.len());
            a.len() == b.len() && fields_are_equal(env, a, b)
        },
        (
            Value::Adt { owner: a_owner, constructor: a_id, payload: a },
            Value::Adt { owner: b_owner, constructor: b_id, payload: b },
        ) => {
            let same_owner = match (
                ConcreteType::resolve(env, a_owner),
                ConcreteType::resolve(env, b_owner),
            ) {
                (Ok(l), Ok(r)) => l.same(&r),
                _ => false,
            };
            same_owner && a_id.same(b_id) && equal(env, a, b)
        },
        (Value::JsonValue(a), Value::JsonValue(b)) => json_equal(a, b),
        _ => false,
    }
}

fn items_are_equal(env: &Env, left: &Vec<Value>, right: &Vec<Value>) -> (same: bool)
    requires
        left@.len() == right@.len(),
    ensures
        same == equal_items(env@, vals(left@), vals(right@), 0),
    decreases left, 2int,
{
    let ghost a = vals(left@);
    let ghost b = vals(right@);
    let mut i: usize = 0;
    while i < left.len()
        invariant
            i <= left@.len() == right@.len(),
            a == vals(left@),
            b == vals(right@),
            equal_items(env@, a, b, 0) == equal_items(env@, a, b, i as int),
        decreases left@.len() - i,
    {
        assert(a[i as int] == left@[i as int]@);
        assert(b[i as int] == right@[i as int]@);
        if !equal(env, &left[i], &right[i]) {
            return false;
        }
        i = i + 1;
    }
    true
}

fn equals_any(env: &Env, item: &Value, others: &Vec<Value>) -> (found: bool)
    ensures
        found == equal_any(env@, item@, vals(others@), 0),
    decreases item, 1int,
{
    let ghost all = vals(others@);
    let mut j: usize = 0;
    while j < others.len()
        invariant
            j <= others@.len(),
            all == vals(others@),
            equal_any(env@, item@, all, 0) == equal_any(env@, item@, all, j as int),
        decreases others@.len() - j,
    {
        assert(all[j as int] == others@[j as int]@);
        if equal(env, item, &others[j]) {
            return true;
        }
        j = j + 1;
    }
    false
}

fn members_are_equal(env: &Env, left: &Vec<Value>, right: &Vec<Value>) -> (same: bool)
    ensures
        same == equal_members(env@, vals(left@), vals(right@), 0),
    decreases left, 2int,
{
    let ghost a = vals(left@);
    let ghost b = vals(right@);
    let mut i: usize = 0;
    while i < left.len()
        invariant
            i <= left@.len(),
            a == vals(left@),
            b == vals(right@),
            equal_members(env@, a, b, 0) == equal_members(env@, a, b, i as int),
        decreases left@.len() - i,
    {
        assert(a[i as int] == left@[i as int]@);
        if !equals_any(env, &left[i], right) {
            return false;
        }
        i = i + 1;
    }
    true
}

fn entry_is_equal(env: &Env, entry: &(Value, Value), others: &Vec<(Value, Value)>) -> (found: bool)
    ensures
        found == equal_entry(env@, (entry.0@, entry.1@), val_entries(others@), 0),
    decreases entry, 1int,
{
    let ghost all = val_entries(others@);
    let ghost view = (entry.0@, entry.1@);
    let mut j: usize = 0;
    while j < others.len()
        invariant
            j <= others@.len(),
            all == val_entries(others@),
            view == (entry.0@, entry.1@),
            equal_entry(env@, view, all, 0) == equal_entry(env@, view, all, j as int),
        decreases others@.len() - j,
    {
        let other = &others[j];
        assert(all[j as int] == (other.0@, other.1@));
        if equal(env, &entry.0, &other.0) && equal(env, &entry.1, &other.1) {
            return true;
        }
        j = j + 1;
    }
    false
}

fn entries_are_equal(env: &Env, left: &Vec<(Value, Value)>, right: &Vec<(Value, Value)>) -> (same:
    bool)
    ensures
        same == equal_entries(env@, val_entries(left@), val_entries(right@), 0),
    decreases left, 2int,
{
    let ghost a = val_entries(left@);
    let ghost b = val_entries(right@);
    let mut i: usize = 0;
    while i < left.len()
        invariant
            i <= left@.len(),
            a == val_entries(left@),
            b == val_entries(right@),
            equal_entries(env@, a, b, 0) == equal_entries(env@, a, b, i as int),
        decreases left@.len() - i,
    {
        let entry = &left[i];
        assert(a[i as int] == (entry.0@, entry.1@));
        if !entry_is_equal(env, entry, right) {
            return false;
        }
        i = i + 1;
    }
    true
}

fn fields_are_equal(env: &Env, left: &Vec<(String, Value)>, right: &Vec<(String, Value)>) -> (same:
    bool)
    ensures
        same == equal_fields(env@, val_fields(left@), val_fields(right@), 0),
    decreases left, 2int,
{
    let ghost a = val_fields(left@);
    let ghost b = val_fields(right@);
    let mut i: usize = 0;
    while i < left.len()
        invariant
            i <= left@.len(),
            a == val_fields(left@),
            b == val_fields(right@),
            equal_fields(env@, a, b, 0) == equal_fields(env@, a, b, i as int),
        decreases left@.len() - i,
    {
        let field = &left[i];
        assert(a[i as int] == (field.0@, field.1@));
        match find_value(right, field.0.as_str()) {
            None => return false,
            Some(other) => {
                if !equal(env, &field.1, other) {
                    return false;
                }
            },
        }
        i = i + 1;
    }
    true
}

// ---------------------------------------------------------------------------
// Values of a type
// ---------------------------------------------------------------------------

/// The index of the field with a name, from index `i` on.
pub open spec fn field_index(fields: Seq<(Seq<char>, Val)>, name: Seq<char>, i: int) -> int
    decreases fields.len() - i,
{
    if i < 0 || i >= fields.len() {
        -1
    } else if fields[i].0 == name {
        i
    } else {
        field_index(fields, name, i + 1)
    }
}

/// Whether the type that a value carries is proof enough.
pub open spec fn evident(world: World, value: Val, ty: Ty) -> bool {
    match value {
        Val::Typed(_, evidence) => evidence == ty || (concrete_type(world, ty) is Ok
            && concrete_type(world, evidence) is Ok && concrete_type(world, ty)->Ok_0
            == concrete_type(world, evidence)->Ok_0),
        _ => false,
    }
}

/// Whether a value belongs to a type. `fuel` bounds how many names of types are
/// looked through before a part of the value is reached.
pub open spec fn conforms(world: World, value: Val, ty: Ty, fuel: nat) -> bool
    decreases value, fuel, 2int,
{
    evident(world, value, ty) || conforms_bare(world, value, ty, fuel)
}

/// Whether a value belongs to a type, whatever types it carries.
pub open spec fn conforms_bare(world: World, value: Val, ty: Ty, fuel: nat) -> bool
    decreases value, fuel, 1int,
{
    match value {
        Val::Typed(inner, _) => conforms_bare(world, *inner, ty, fuel),
        _ => match ty {
            Ty::Artifact => value is Artifact,
            Ty::JsonValue => value is JsonValue,
            Ty::TypeDescriptor => value is TypeDescriptor,
            Ty::TypeSchema => value is TypeSchema,
            Ty::SemanticTypeId => value is SemanticTypeId,
            Ty::PackedValue => value is PackedValue,
            Ty::HostInputs => value is HostInputs,
            Ty::Never => false,
            Ty::Unit => value is Unit,
            Ty::Bool => value is Bool,
            Ty::Int => value is Int,
            Ty::Float => value is Float,
            Ty::String => value is Str,
            Ty::List(item) => match value {
                Val::List(items) => conforms_items(world, items, *item, 0),
                _ => false,
            },
            Ty::EmptyList => match value {
                Val::List(items) => items.len() == 0,
                _ => false,
            },
            Ty::MapOf(key, item) => match value {
                Val::MapOf(entries) => conforms_entries(world, entries, *key, *item, 0),
                _ => false,
            },
            Ty::SetOf(item) => match value {
                Val::SetOf(items) => conforms_items(world, items, *item, 0),
                _ => false,
            },
            Ty::Named(name, arguments) => match decl_of(world, name) {
                None => false,
                Some(declaration) => {
                    let subst = zipped(declaration.params, arguments);
                    match declaration.body {
                        Body::Fields(fields) => match value {
                            Val::Fields(values) => values.len() == fields.len()
                                && conforms_fields(
                                world,
                                values,
                                substituted_fields(fields, subst),
                                0,
                            ),
                            _ => false,
                        },
                        Body::TransparentAlias(body) | Body::Alias(body) => fuel > 0 && conforms(
                            world,
                            value,
                            substituted(body, subst),
                            (fuel - 1) as nat,
                        ),
                        Body::Adt(_) => match value {
                            Val::Adt(owner, _, _) => owner == ty,
                            _ => false,
                        },
                        Body::Native => false,
                    }
                },
            },
            Ty::TypeTag(expected) => match value {
                Val::TypeTag(actual) => concrete_type(world, *expected) is Ok && concrete_type(
                    world,
                    *expected,
                )->Ok_0 == actual,
                _ => false,
            },
            Ty::Product(types) => match value {
                Val::List(items) => items.len() == types.len() && conforms_positions(
                    world,
                    items,
                    types,
                    0,
                ),
                Val::Product(items) => items.len() == types.len() && conforms_positions(
                    world,
                    items,
                    types,
                    0,
                ),
                _ => false,
            },
            Ty::Function(_, _) => value is Fn,
            Ty::Var(_) => true,
        },
    }
}

pub open spec fn conforms_items(world: World, items: Seq<Val>, ty: Ty, i: int) -> bool
    decreases items, 0nat, items.len() - i,
{
    0 <= i < items.len() ==> (conforms(world, items[i], ty, TYPE_DEPTH_LIMIT as nat)
        && conforms_items(world, items, ty, i + 1))
}

pub open spec fn conforms_positions(world: World, items: Seq<Val>, types: Seq<Ty>, i: int) -> bool
    decreases items, 0nat, items.len() - i,
{
    0 <= i < items.len() ==> (conforms(world, items[i], types[i], TYPE_DEPTH_LIMIT as nat)
        && conforms_positions(world, items, types, i + 1))
}

pub open spec fn conforms_entries(
    world: World,
    entries: Seq<(Val, Val)>,
    key: Ty,
    item: Ty,
    i: int,
) -> bool
    decreases entries, 0nat, entries.len() - i,
{
    0 <= i < entries.len() ==> (conforms(world, entries[i].0, key, TYPE_DEPTH_LIMIT as nat)
        && conforms(world, entries[i].1, item, TYPE_DEPTH_LIMIT as nat) && conforms_entries(
        world,
        entries,
        key,
        item,
        i + 1,
    ))
}

pub open spec fn conforms_fields(
    world: World,
    values: Seq<(Seq<char>, Val)>,
    fields: Seq<(Seq<char>, Ty)>,
    i: int,
) -> bool
    decreases values, 0nat, fields.len() - i,
{
    0 <= i < fields.len() ==> ({
        let at = field_index(values, fields[i].0, 0);
        &&& 0 <= at < values.len()
        &&& conforms(world, values[at].1, fields[i].1, TYPE_DEPTH_LIMIT as nat)
        &&& conforms_fields(world, values, fields, i + 1)
    })
}

fn is_evident(env: &Env, value: &Value, ty: &MagType) -> (yes: bool)
    ensures
        yes == evident(env@, value@, ty@),
{
    match value {
        Value::Typed(_, evidence) => {
            if evidence.same(ty) {
                return true;
            }
            match (ConcreteType::resolve(env, ty), ConcreteType::resolve(env, evidence)) {
                (Ok(expected), Ok(actual)) => expected.same(&actual),
                _ => false,
            }
        },
        _ => false,
    }
}

pub fn conforms_to(env: &Env, value: &Value, ty: &MagType, fuel: u32) -> (yes: bool)
    ensures
        yes == conforms(env@, value@, ty@, fuel as nat),
    decreases value, fuel, 2int,
{
    is_evident(env, value, ty) || conforms_inside(env, value, ty, fuel)
}

fn conforms_inside(env: &Env, value: &Value, ty: &MagType, fuel: u32) -> (yes: bool)
    ensures
        yes == conforms_bare(env@, value@, ty@, fuel as nat),
    decreases value, fuel, 1int,
{
    if let Value::Typed(inner, _) = value {
        return conforms_inside(env, inner, ty, fuel);
    }
    match (ty, value) {
        (MagType::Artifact, Value::Artifact(_)) => true,
        (MagType::JsonValue, Value::JsonValue(_)) => true,
        (MagType::TypeDescriptor, Value::TypeDescriptor(_)) => true,
        (MagType::TypeSchema, Value::TypeSchema(_)) => true,
        (MagType::SemanticTypeId, Value::SemanticTypeId(_)) => true,
        (MagType::PackedValue, Value::PackedValue(_)) => true,
        (MagType::HostInputs, Value::HostInputs(_)) => true,
        (MagType::Unit, Value::Unit) => true,
        (MagType::Bool, Value::Bool(_)) => true,
        (MagType::Int, Value::Int(_)) => true,
        (MagType::Float, Value::Float(_)) => true,
        (MagType::String, Value::Str(_)) => true,
        (MagType::List(item), Value::List(items)) => items_conform(env, items, item),
        (MagType::EmptyList, Value::List(items)) => {
            assert(vals(items@).len() == items@.len());
            items.len() == 0
        },
        (MagType::MapOf(key, item), Value::MapOf(entries)) => entries_conform(
            env,
            entries,
            key,
            item,
        ),
        (MagType::SetOf(item), Value::SetOf(items)) => items_conform(env, items, item),
        (MagType::Named(name, arguments), _) => match env.type_decl(name.as_str()) {
            None => false,
            Some(declaration) => {
                let subst = zip_types(&declaration.params, arguments);
                match &declaration.body {
                    TypeDeclBody::Fields(fields) => match value {
                        Value::Fields(values) => {
                            assert(val_fields(values@).len() == values@.len());
                            assert(field_types(fields@).len() == fields@.len());
                            if values.len() != fields.len() {
                                return false;
                            }
                            let fields = substitute_fields(fields, &subst);
                            fields_conform(env, values, &fields)
                        },
                        _ => false,
                    },
                    TypeDeclBody::TransparentAlias(body) | TypeDeclBody::Alias(body) => {
                        if fuel == 0 {
                            return false;
                        }
                        let body = substitute(body, &subst);
                        conforms_to(env, value, &body, fuel - 1)
                    },
                    TypeDeclBody::Adt(_) => match value {
                        Value::Adt { owner, .. } => owner.same(ty),
                        _ => false,
                    },
                    TypeDeclBody::Native => false,
                }
            },
        },
        (MagType::TypeTag(expected), Value::TypeTag(actual)) => match ConcreteType::resolve(
            env,
            expected,
        ) {
            Ok(expected) => expected.same(actual),
            Err(_) => false,
        },
        (MagType::Product(types), Value::List(items)) => {
            assert(vals(items@).len() == items@.len());
            assert(tys(types@).len() == types@.len());
            items.len() == types.len() && positions_conform(env, items, types)
        },
        (MagType::Product(types), Value::Product(items)) => {
            assert(vals(items@).len() == items@.len());
            assert(tys(types@).len() == types@.len());
            items.len() == types.len() && positions_conform(env, items, types)
        },
        (MagType::Function(_, _), Value::Fn(_)) => true,
        (MagType::Var(_), _) => true,
        _ => false,
    }
}

fn items_conform(env: &Env, items: &Vec<Value>, ty: &MagType) -> (yes: bool)
    ensures
        yes == conforms_items(env@, vals(items@), ty@, 0),
    decreases items, 0nat, 3int,
{
    let ghost all = vals(items@);
    let mut i: usize = 0;
    while i < items.len()
        invariant
            i <= items@.len(),
            all == vals(items@),
            conforms_items(env@, all, ty@, 0) == conforms_items(env@, all, ty@, i as int),
        decreases items@.len() - i,
    {
        assert(all[i as int] == items@[i as int]@);
        if !conforms_to(env, &items[i], ty, TYPE_DEPTH_LIMIT) {
            return false;
        }
        i = i + 1;
    }
    true
}

fn positions_conform(env: &Env, items: &Vec<Value>, types: &Vec<MagType>) -> (yes: bool)
    requires
        items@.len() == types@.len(),
    ensures
        yes == conforms_positions(env@, vals(items@), tys(types@), 0),
    decreases items, 0nat, 3int,
{
    let ghost all = vals(items@);
    let ghost views = tys(types@);
    let mut i: usize = 0;
    while i < items.len()
        invariant
            i <= items@.len() == types@.len(),
            all == vals(items@),
            views == tys(types@),
            conforms_positions(env@, all, views, 0) == conforms_positions(
                env@,
                all,
                views,
                i as int,
            ),
        decreases items@.len() - i,
    {
        assert(all[i as int] == items@[i as int]@);
        assert(views[i as int] == types@[i as int]@);
        if !conforms_to(env, &items[i], &types[i], TYPE_DEPTH_LIMIT) {
            return false;
        }
        i = i + 1;
    }
    true
}

fn entries_conform(env: &Env, entries: &Vec<(Value, Value)>, key: &MagType, item: &MagType) -> (yes:
    bool)
    ensures
        yes == conforms_entries(env@, val_entries(entries@), key@, item@, 0),
    decreases entries, 0nat, 3int,
{
    let ghost all = val_entries(entries@);
    let mut i: usize = 0;
    while i < entries.len()
        invariant
            i <= entries@.len(),
            all == val_entries(entries@),
            conforms_entries(env@, all, key@, item@, 0) == conforms_entries(
                env@,
                all,
                key@,
                item@,
                i as int,
            ),
        decreases entries@.len() - i,
    {
        let entry = &entries[i];
        assert(all[i as int] == (entry.0@, entry.1@));
        if !conforms_to(env, &entry.0, key, TYPE_DEPTH_LIMIT) || !conforms_to(
            env,
            &entry.1,
            item,
            TYPE_DEPTH_LIMIT,
        ) {
            return false;
        }
        i = i + 1;
    }
    true
}

fn find_field_index(fields: &Vec<(String, Value)>, name: &str) -> (at: Option<usize>)
    ensures
        match at {
            Some(at) => at < fields@.len() && field_index(val_fields(fields@), name@, 0) == at,
            None => field_index(val_fields(fields@), name@, 0) == -1,
        },
{
    let ghost all = val_fields(fields@);
    let mut i: usize = 0;
    while i < fields.len()
        invariant
            i <= fields@.len(),
            all == val_fields(fields@),
            field_index(all, name@, 0) == field_index(all, name@, i as int),
        decreases fields@.len() - i,
    {
        assert(all[i as int] == (fields@[i as int].0@, fields@[i as int].1@));
        if same_text(fields[i].0.as_str(), name) {
            return Some(i);
        }
        i = i + 1;
    }
    None
}

fn fields_conform(env: &Env, values: &Vec<(String, Value)>, fields: &Vec<(String, MagType)>) -> (yes:
    bool)
    ensures
        yes == conforms_fields(env@, val_fields(values@), field_types(fields@), 0),
    decreases values, 0nat, 3int,
{
    let ghost all = val_fields(values@);
    let ghost types = field_types(fields@);
    let mut i: usize = 0;
    while i < fields.len()
        invariant
            i <= fields@.len(),
            all == val_fields(values@),
            all.len() == values@.len(),
            types == field_types(fields@),
            conforms_fields(env@, all, types, 0) == conforms_fields(env@, all, types, i as int),
        decreases fields@.len() - i,
    {
        let field = &fields[i];
        assert(types[i as int] == (field.0@, field.1@));
        match find_field_index(values, field.0.as_str()) {
            None => return false,
            Some(at) => {
                let value = &values[at];
                assert(all[at as int] == (value.0@, value.1@));
                if !conforms_to(env, &value.1, &field.1, TYPE_DEPTH_LIMIT) {
                    return false;
                }
            },
        }
        i = i + 1;
    }
    true
}

/// Whether a value belongs to a type.
pub open spec fn of_type(world: World, value: Val, ty: Ty) -> bool {
    conforms(world, value, ty, TYPE_DEPTH_LIMIT as nat)
}

/// The names of those of the first `n` expected fields that are not there.
pub open spec fn missing_fields(
    expected: Seq<(Seq<char>, Ty)>,
    actual: Seq<(Seq<char>, Val)>,
    n: int,
) -> Seq<Seq<char>>
    decreases n,
{
    if n <= 0 {
        Seq::empty()
    } else if field_value(actual, expected[n - 1].0, 0) is None {
        missing_fields(expected, actual, n - 1).push(expected[n - 1].0)
    } else {
        missing_fields(expected, actual, n - 1)
    }
}

/// The names of those of the first `n` fields that are not expected.
pub open spec fn unexpected_fields(
    expected: Seq<(Seq<char>, Ty)>,
    actual: Seq<(Seq<char>, Val)>,
    n: int,
) -> Seq<Seq<char>>
    decreases n,
{
    if n <= 0 {
        Seq::empty()
    } else if field_at(expected, actual[n - 1].0, 0) is None {
        unexpected_fields(expected, actual, n - 1).push(actual[n - 1].0)
    } else {
        unexpected_fields(expected, actual, n - 1)
    }
}

/// What a value is: its type, or else its kind.
pub open spec fn described(value: Val) -> Seq<char> {
    match type_of(value) {
        Some(ty) => ty_text(ty),
        None => val_kind(value),
    }
}

/// What is wrong with those of the first `n` expected fields that are there.
pub open spec fn invalid_fields(
    world: World,
    expected: Seq<(Seq<char>, Ty)>,
    actual: Seq<(Seq<char>, Val)>,
    n: int,
) -> Seq<Seq<char>>
    decreases n,
{
    if n <= 0 {
        Seq::empty()
    } else {
        let before = invalid_fields(world, expected, actual, n - 1);
        match field_value(actual, expected[n - 1].0, 0) {
            Some(value) => if of_type(world, value, expected[n - 1].1) {
                before
            } else {
                before.push(
                    expected[n - 1].0 + ": expected "@ + ty_text(expected[n - 1].1) + ", got "@
                        + described(value),
                )
            },
            None => before,
        }
    }
}

pub open spec fn with_detail(
    details: Seq<Seq<char>>,
    label: Seq<char>,
    parts: Seq<Seq<char>>,
) -> Seq<Seq<char>> {
    if parts.len() == 0 {
        details
    } else {
        details.push(label + joined(parts, ", "@))
    }
}

/// How the fields of a record differ from those that its type declares.
pub open spec fn record_diff(world: World, value: Val, ty: Ty) -> Option<Seq<char>> {
    match bare(value) {
        Val::Fields(actual) => match record_fields(world, ty) {
            None => None,
            Some(expected) => {
                let missing = missing_fields(expected, actual, expected.len() as int);
                let unexpected = unexpected_fields(expected, actual, actual.len() as int);
                let invalid = invalid_fields(world, expected, actual, expected.len() as int);
                if missing.len() == 0 && unexpected.len() == 0 && invalid.len() == 0 {
                    None
                } else {
                    Some(
                        joined(
                            with_detail(
                                with_detail(
                                    with_detail(Seq::empty(), "missing fields: "@, missing),
                                    "unexpected fields: "@,
                                    unexpected,
                                ),
                                "invalid fields: "@,
                                invalid,
                            ),
                            "; "@,
                        ),
                    )
                }
            },
        },
        _ => None,
    }
}

/// The verdict on a value where a type is expected.
pub open spec fn validation(world: World, value: Val, ty: Ty) -> Result<(), Failure> {
    if of_type(world, value, ty) {
        Ok(())
    } else {
        match record_diff(world, value, ty) {
            Some(diff) => Err(
                Failure::Type("value does not conform to "@ + ty_text(ty) + ": "@ + diff),
            ),
            None => Err(Failure::Type("value does not conform to "@ + ty_text(ty))),
        }
    }
}

fn describe(value: &Value) -> (text: String)
    ensures
        text@ == described(value@),
{
    match value_type(value) {
        Some(ty) => ty.text(),
        None => value.kind_name().to_owned(),
    }
}

fn add_detail(details: &mut Vec<String>, label: &str, parts: &Vec<String>)
    ensures
        texts(final(details)@) == with_detail(texts(old(details)@), label@, texts(parts@)),
{
    assert(texts(parts@).len() == parts@.len());
    if parts.len() != 0 {
        let ghost before = texts(details@);
        let list = join_texts(parts, ", ");
        let detail = cat2(label, list.as_str());
        details.push(detail);
        assert(texts(details@) =~= before.push(detail@));
    }
}

fn record_field_diff(env: &Env, value: &Value, ty: &MagType) -> (diff: Option<String>)
    ensures
        (match diff {
            Some(diff) => Some(diff@),
            None => None,
        }) == record_diff(env@, value@, ty@),
{
    let actual = match raw(value) {
        Value::Fields(actual) => actual,
        _ => return None,
    };
    let expected = match named_field_types(env, ty) {
        None => return None,
        Some(expected) => expected,
    };
    let ghost types = field_types(expected@);
    let ghost values = val_fields(actual@);
    assert(types.len() == expected@.len());
    assert(values.len() == actual@.len());
    let mut missing: Vec<String> = Vec::new();
    let mut invalid: Vec<String> = Vec::new();
    proof {
        assert(texts(missing@) =~= missing_fields(types, values, 0));
        assert(texts(invalid@) =~= invalid_fields(env@, types, values, 0));
    }
    let mut i: usize = 0;
    while i < expected.len()
        invariant
            i <= expected@.len(),
            types == field_types(expected@),
            values == val_fields(actual@),
            texts(missing@) == missing_fields(types, values, i as int),
            texts(invalid@) == invalid_fields(env@, types, values, i as int),
        decreases expected@.len() - i,
    {
        let field = &expected[i];
        assert(types[i as int] == (field.0@, field.1@));
        match find_value(actual, field.0.as_str()) {
            None => {
                let ghost before = texts(missing@);
                missing.push(field.0.clone());
                assert(texts(missing@) =~= before.push(field.0@));
            },
            Some(found) => {
                if !conforms_to(env, found, &field.1, TYPE_DEPTH_LIMIT) {
                    let ghost before = texts(invalid@);
                    let wanted = field.1.text();
                    let got = describe(found);
                    let text = cat5(
                        field.0.as_str(),
                        ": expected ",
                        wanted.as_str(),
                        ", got ",
                        got.as_str(),
                    );
                    invalid.push(text);
                    assert(texts(invalid@) =~= before.push(text@));
                }
            },
        }
        i = i + 1;
    }
    let mut unexpected: Vec<String> = Vec::new();
    assert(texts(unexpected@) =~= unexpected_fields(types, values, 0));
    let mut i: usize = 0;
    while i < actual.len()
        invariant
            i <= actual@.len(),
            types == field_types(expected@),
            values == val_fields(actual@),
            texts(unexpected@) == unexpected_fields(types, values, i as int),
        decreases actual@.len() - i,
    {
        let field = &actual[i];
        assert(values[i as int] == (field.0@, field.1@));
        if find_field(&expected, field.0.as_str()).is_none() {
            let ghost before = texts(unexpected@);
            unexpected.push(field.0.clone());
            assert(texts(unexpected@) =~= before.push(field.0@));
        }
        i = i + 1;
    }
    assert(texts(missing@).len() == missing@.len());
    assert(texts(unexpected@).len() == unexpected@.len());
    assert(texts(invalid@).len() == invalid@.len());
    if missing.len() == 0 && unexpected.len() == 0 && invalid.len() == 0 {
        return None;
    }
    let mut details: Vec<String> = Vec::new();
    assert(texts(details@) =~= Seq::<Seq<char>>::empty());
    add_detail(&mut details, "missing fields: ", &missing);
    add_detail(&mut details, "unexpected fields: ", &unexpected);
    add_detail(&mut details, "invalid fields: ", &invalid);
    Some(join_texts(&details, "; "))
}

pub fn validate_value(env: &Env, value: &Value, ty: &MagType) -> (result: Result<(), MagError>)
    ensures
        verdict(result) == validation(env@, value@, ty@),
{
    if conforms_to(env, value, ty, TYPE_DEPTH_LIMIT) {
        return Ok(());
    }
    let text = ty.text();
    match record_field_diff(env, value, ty) {
        Some(diff) => Err(
            MagError::Type(
                cat4("value does not conform to ", text.as_str(), ": ", diff.as_str()),
            ),
        ),
        None => Err(MagError::Type(cat2("value does not conform to ", text.as_str()))),
    }
}

/// A value marked with the type that it was checked against; the positions of a
/// product are marked one by one.
pub open spec fn marked(world: World, value: Val, ty: Ty) -> Result<Val, Failure>
    decreases ty, 0int,
{
    match ty {
        Ty::Product(components) => match bare(value) {
            Val::List(values) => marked_positions(world, values, components, ty),
            Val::Product(values) => marked_positions(world, values, components, ty),
            _ => Err(
                Failure::Type(
                    "value does not conform to "@ + ty_text(ty) + ": expected an ordered tuple"@,
                ),
            ),
        },
        _ => match validation(world, value, ty) {
            Err(failure) => Err(failure),
            Ok(_) => Ok(Val::Typed(Box::new(value), ty)),
        },
    }
}

pub open spec fn marked_positions(world: World, values: Seq<Val>, components: Seq<Ty>, ty: Ty) -> Result<
    Val,
    Failure,
>
    decreases components, 1int,
{
    if values.len() != components.len() {
        Err(
            Failure::Type(
                "value does not conform to "@ + ty_text(ty) + ": expected "@ + decimal(
                    components.len(),
                ) + " tuple positions, got "@ + decimal(values.len()),
            ),
        )
    } else {
        match marked_from(world, values, components, 0) {
            Err(failure) => Err(failure),
            Ok(positions) => Ok(Val::Product(positions)),
        }
    }
}

pub open spec fn marked_from(world: World, values: Seq<Val>, components: Seq<Ty>, i: int) -> Result<
    Seq<Val>,
    Failure,
>
    decreases components, 0int, components.len() - i,
{
    if i < 0 || i >= components.len() {
        Ok(Seq::empty())
    } else {
        match marked(world, values[i], components[i]) {
            Err(failure) => Err(failure),
            Ok(first) => match marked_from(world, values, components, i + 1) {
                Err(failure) => Err(failure),
                Ok(rest) => Ok(seq![first] + rest),
            },
        }
    }
}

pub fn checked_typed_value(env: &Env, value: Value, ty: &MagType) -> (result: Result<
    Value,
    MagError,
>)
    ensures
        valued(result) == marked(env@, value@, ty@),
    decreases ty, 0int,
{
    match ty {
        MagType::Product(components) => match raw(&value) {
            Value::List(values) => mark_positions(env, values, components, ty),
            Value::Product(values) => mark_positions(env, values, components, ty),
            _ => {
                let text = ty.text();
                Err(
                    MagError::Type(
                        cat3(
                            "value does not conform to ",
                            text.as_str(),
                            ": expected an ordered tuple",
                        ),
                    ),
                )
            },
        },
        _ => match validate_value(env, &value, ty) {
            Err(error) => Err(error),
            Ok(_) => Ok(Value::Typed(Box::new(value), ty.copy())),
        },
    }
}

fn mark_positions(env: &Env, values: &Vec<Value>, components: &Vec<MagType>, ty: &MagType) -> (result:
    Result<Value, MagError>)
    ensures
        valued(result) == marked_positions(env@, vals(values@), tys(components@), ty@),
    decreases components, 1int,
{
    let ghost all = vals(values@);
    let ghost types = tys(components@);
    assert(all.len() == values@.len());
    assert(types.len() == components@.len());
    if values.len() != components.len() {
        let text = ty.text();
        let expected = count_text(components.len());
        let got = count_text(values.len());
        return Err(
            MagError::Type(
                cat6(
                    "value does not conform to ",
                    text.as_str(),
                    ": expected ",
                    expected.as_str(),
                    " tuple positions, got ",
                    got.as_str(),
                ),
            ),
        );
    }
    let mut positions: Vec<Value> = Vec::new();
    let mut i: usize = 0;
    while i < components.len()
        invariant
            i <= components@.len() == values@.len(),
            all == vals(values@),
            types == tys(components@),
            all.len() == types.len(),
            match marked_from(env@, all, types, 0) {
                Ok(view) => match marked_from(env@, all, types, i as int) {
                    Ok(rest) => view == vals(positions@) + rest,
                    Err(_) => false,
                },
                Err(failure) => marked_from(env@, all, types, i as int) == Err::<
                    Seq<Val>,
                    Failure,
                >(failure),
            },
        decreases components@.len() - i,
    {
        assert(all[i as int] == values@[i as int]@);
        assert(types[i as int] == components@[i as int]@);
        match checked_typed_value(env, values[i].copy(), &components[i]) {
            Err(error) => return Err(error),
            Ok(position) => {
                let ghost before = vals(positions@);
                let ghost added = position@;
                positions.push(position);
                proof {
                    assert(vals(positions@) =~= before.push(added));
                    if let Ok(rest) = marked_from(env@, all, types, i + 1) {
                        assert(before + (seq![added] + rest) =~= before.push(added) + rest);
                    }
                }
            },
        }
        i = i + 1;
    }
    assert(vals(positions@) + Seq::<Val>::empty() =~= vals(positions@));
    Ok(Value::Product(positions))
}

// ---------------------------------------------------------------------------
// Types and texts at run time
// ---------------------------------------------------------------------------

/// A type whose variables stand for the types that are bound to their names.
pub open spec fn at_run_time(world: World, ty: Ty) -> Ty
    decreases ty,
{
    match ty {
        Ty::Var(name) => match looked_up(world, name) {
            Some(Val::Type(bound)) => bound,
            _ => ty,
        },
        Ty::Named(name, arguments) => Ty::Named(name, all_at_run_time(world, arguments)),
        Ty::TypeTag(inner) => Ty::TypeTag(Box::new(at_run_time(world, *inner))),
        Ty::List(inner) => Ty::List(Box::new(at_run_time(world, *inner))),
        Ty::SetOf(inner) => Ty::SetOf(Box::new(at_run_time(world, *inner))),
        Ty::MapOf(key, value) => Ty::MapOf(
            Box::new(at_run_time(world, *key)),
            Box::new(at_run_time(world, *value)),
        ),
        Ty::Product(items) => Ty::Product(all_at_run_time(world, items)),
        Ty::Function(params, result) => Ty::Function(
            all_at_run_time(world, params),
            Box::new(at_run_time(world, *result)),
        ),
        _ => ty,
    }
}

pub open spec fn all_at_run_time(world: World, types: Seq<Ty>) -> Seq<Ty>
    decreases types,
{
    Seq::new(
        types.len(),
        |i: int|
            if 0 <= i < types.len() {
                at_run_time(world, types[i])
            } else {
                arbitrary()
            },
    )
}

pub fn runtime_type(env: &Env, ty: &MagType) -> (result: MagType)
    ensures
        result@ == at_run_time(env@, ty@),
    decreases ty,
{
    match ty {
        MagType::Var(name) => match env.find(name.as_str()) {
            Some(Value::Type(bound)) => bound.copy(),
            _ => ty.copy(),
        },
        MagType::Named(name, arguments) => MagType::Named(
            name.clone(),
            runtime_types(env, arguments),
        ),
        MagType::TypeTag(inner) => MagType::TypeTag(Box::new(runtime_type(env, inner))),
        MagType::List(inner) => MagType::List(Box::new(runtime_type(env, inner))),
        MagType::SetOf(inner) => MagType::SetOf(Box::new(runtime_type(env, inner))),
        MagType::MapOf(key, value) => MagType::MapOf(
            Box::new(runtime_type(env, key)),
            Box::new(runtime_type(env, value)),
        ),
        MagType::Product(items) => MagType::Product(runtime_types(env, items)),
        MagType::Function(params, result) => MagType::Function(
            runtime_types(env, params),
            Box::new(runtime_type(env, result)),
        ),
        _ => ty.copy(),
    }
}

fn runtime_types(env: &Env, types: &Vec<MagType>) -> (results: Vec<MagType>)
    ensures
        tys(results@) == all_at_run_time(env@, tys(types@)),
    decreases types,
{
    let ghost all = tys(types@);
    let mut results: Vec<MagType> = Vec::new();
    let mut i: usize = 0;
    while i < types.len()
        invariant
            i <= types@.len(),
            results@.len() == i,
            all == tys(types@),
            forall|j: int| 0 <= j < i ==> (#[trigger] results@[j])@ == at_run_time(env@, all[j]),
        decreases types@.len() - i,
    {
        assert(all[i as int] == types@[i as int]@);
        results.push(runtime_type(env, &types[i]));
        i = i + 1;
    }
    assert(tys(results@) =~= all_at_run_time(env@, all));
    results
}

/// Whether a value counts as true.
pub open spec fn is_true(value: Val) -> bool {
    match bare(value) {
        Val::Unit => false,
        Val::Bool(flag) => flag,
        _ => true,
    }
}

pub fn truthy(value: &Value) -> (yes: bool)
    ensures
        yes == is_true(value@),
{
    match raw(value) {
        Value::Unit => false,
        Value::Bool(flag) => *flag,
        _ => true,
    }
}

/// The text that a value is shown as.
pub open spec fn shown(value: Val) -> Seq<char> {
    match bare(value) {
        Val::Unit => "()"@,
        Val::Str(text) => text,
        Val::Symbol(name) => name,
        Val::Keyword(name) => ":"@ + name,
        Val::Int(number) => signed_decimal(number),
        Val::Float(number) => number.shown,
        Val::Bool(flag) => if flag {
            "true"@
        } else {
            "false"@
        },
        Val::Type(ty) => ty_text(ty),
        Val::TypeDecl(declaration) => declaration.name,
        Val::TypeTag(ty) => ty_text(abstracted(ty)),
        _ => "<"@ + debug_shown(val_kind(value)) + ">"@,
    }
}

pub fn value_string(value: &Value) -> (text: String)
    ensures
        text@ == shown(value@),
{
    match raw(value) {
        Value::Unit => "()".to_owned(),
        Value::Str(text) => text.clone(),
        Value::Symbol(name) => name.clone(),
        Value::Keyword(name) => cat2(":", name.as_str()),
        Value::Int(number) => signed_text(*number),
        Value::Float(number) => number.shown.clone(),
        Value::Bool(flag) => if *flag {
            "true".to_owned()
        } else {
            "false".to_owned()
        },
        Value::Type(ty) => ty.text(),
        Value::TypeDecl(declaration) => declaration.name.clone(),
        Value::TypeTag(ty) => ty.to_mag_type().text(),
        _ => {
            let kind = debug_text(value.kind_name());
            cat3("<", kind.as_str(), ">")
        },
    }
}

} // verus!
