//! What the functions of the language compute, as far as they call nothing back.

use crate::builtins::{Builtin, builtin_name};
use crate::checked::option_name;
use crate::content::{
    canonical_json, field_value, find_member, find_value, insert_field, json_to_value, json_val,
    member_at, ordered_json, put_field, val_json, value_to_json, valued,
};
use crate::env::{Env, World};
use crate::error::{Failure, MagError, verdict};
use crate::json::{Data, Json, json_text};
use crate::rules::takes_exactly;
use crate::sameness::{lemma_equal_to_the_same, orderly};
use crate::strings::{replace_text, replaced, strip_margin, stripped, trim_colons, without_colons};
use crate::text::{
    cat2, cat4, cat5, count_text, decimal, decimal_text, signed_decimal, signed_text, text_chars,
};
use crate::validity::{equal, equals, is_true, shown, truthy, value_string};
use crate::value::{
    FnValue, Val, Value, bare, copy_entries, copy_val_fields, copy_values, raw, val_entries,
    val_fields, val_text, vals,
};
use vstd::prelude::*;

verus! {

/// Checks the number of arguments.
pub fn arity(args: &Vec<Value>, expected: usize) -> (result: Result<(), MagError>)
    ensures
        verdict(result) == (if args@.len() == expected {
            Ok::<(), Failure>(())
        } else {
            Err(Failure::Arity { expected: expected as nat, got: args@.len() })
        }),
{
    if args.len() == expected {
        Ok(())
    } else {
        Err(MagError::Arity { expected, got: args.len() })
    }
}

pub open spec fn type_failure(builtin: Builtin, what: Seq<char>) -> Failure {
    Failure::Type(builtin_name(builtin) + what)
}

pub(crate) fn type_error(builtin: Builtin, what: &str) -> (error: MagError)
    ensures
        error@ == type_failure(builtin, what@),
{
    MagError::Type(cat2(builtin.name(), what))
}

pub(crate) fn eval_error(message: &str) -> (error: MagError)
    ensures
        error@ == Failure::Eval(message@),
{
    MagError::Eval(message.to_owned())
}

// ---------------------------------------------------------------------------
// Maps and sets
// ---------------------------------------------------------------------------

/// The first entry from index `i` on whose key equals a value, or -1.
pub open spec fn key_index(world: World, entries: Seq<(Val, Val)>, key: Val, i: int) -> int
    decreases entries.len() - i,
{
    if i < 0 || i >= entries.len() {
        -1
    } else if equals(world, entries[i].0, key) {
        i
    } else {
        key_index(world, entries, key, i + 1)
    }
}

/// The first item from index `i` on that equals a value, or -1.
pub open spec fn item_index(world: World, items: Seq<Val>, item: Val, i: int) -> int
    decreases items.len() - i,
{
    if i < 0 || i >= items.len() {
        -1
    } else if equals(world, items[i], item) {
        i
    } else {
        item_index(world, items, item, i + 1)
    }
}

/// A map with those of the first `n` entries of another one whose keys it lacks.
pub open spec fn united(world: World, left: Seq<(Val, Val)>, right: Seq<(Val, Val)>, n: int) -> Seq<
    (Val, Val),
>
    decreases n,
{
    if n <= 0 {
        left
    } else {
        let before = united(world, left, right, n - 1);
        if key_index(world, before, right[n - 1].0, 0) == -1 {
            before.push(right[n - 1])
        } else {
            before
        }
    }
}

fn find_key(env: &Env, entries: &Vec<(Value, Value)>, key: &Value) -> (at: Option<usize>)
    ensures
        match at {
            Some(at) => at < entries@.len() && key_index(
                env@,
                val_entries(entries@),
                key@,
                0,
            ) == at,
            None => key_index(env@, val_entries(entries@), key@, 0) == -1,
        },
{
    let ghost all = val_entries(entries@);
    let mut i: usize = 0;
    while i < entries.len()
        invariant
            i <= entries@.len(),
            all == val_entries(entries@),
            key_index(env@, all, key@, 0) == key_index(env@, all, key@, i as int),
        decreases entries@.len() - i,
    {
        let entry = &entries[i];
        assert(all[i as int] == (entry.0@, entry.1@));
        if equal(env, &entry.0, key) {
            return Some(i);
        }
        i = i + 1;
    }
    None
}

fn find_item(env: &Env, items: &Vec<Value>, item: &Value) -> (at: Option<usize>)
    ensures
        match at {
            Some(at) => at < items@.len() && item_index(env@, vals(items@), item@, 0) == at,
            None => item_index(env@, vals(items@), item@, 0) == -1,
        },
{
    let ghost all = vals(items@);
    let mut i: usize = 0;
    while i < items.len()
        invariant
            i <= items@.len(),
            all == vals(items@),
            item_index(env@, all, item@, 0) == item_index(env@, all, item@, i as int),
        decreases items@.len() - i,
    {
        assert(all[i as int] == items@[i as int]@);
        if equal(env, &items[i], item) {
            return Some(i);
        }
        i = i + 1;
    }
    None
}

fn unite(env: &Env, left: &Vec<(Value, Value)>, right: &Vec<(Value, Value)>) -> (entries: Vec<
    (Value, Value),
>)
    ensures
        val_entries(entries@) == united(
            env@,
            val_entries(left@),
            val_entries(right@),
            right@.len() as int,
        ),
{
    let ghost start = val_entries(left@);
    let ghost all = val_entries(right@);
    let mut entries = copy_entries(left);
    let mut i: usize = 0;
    while i < right.len()
        invariant
            i <= right@.len(),
            all == val_entries(right@),
            val_entries(entries@) == united(env@, start, all, i as int),
        decreases right@.len() - i,
    {
        let entry = &right[i];
        assert(all[i as int] == (entry.0@, entry.1@));
        if find_key(env, &entries, &entry.0).is_none() {
            let ghost before = val_entries(entries@);
            entries.push((entry.0.copy(), entry.1.copy()));
            assert(val_entries(entries@) =~= before.push(all[i as int]));
        }
        i = i + 1;
    }
    entries
}

/// How many there are, as a number of the language.
pub open spec fn length_val(length: nat) -> Val {
    Val::Int((length as i64) as int)
}

/// The functions on maps.
pub open spec fn map_result(world: World, builtin: Builtin, args: Seq<Val>) -> Result<Val, Failure> {
    match bare(args[0]) {
        Val::MapOf(entries) => match builtin {
            Builtin::MapCount => Ok(length_val(entries.len())),
            Builtin::MapUnionLeft => match bare(args[1]) {
                Val::MapOf(right) => Ok(
                    Val::MapOf(united(world, entries, right, right.len() as int)),
                ),
                _ => Err(type_failure(builtin, " expects Map arguments"@)),
            },
            _ => {
                let at = key_index(world, entries, args[1], 0);
                match builtin {
                    Builtin::MapInsert => if at != -1 {
                        Err(Failure::Eval("duplicate Map key"@))
                    } else {
                        Ok(Val::MapOf(entries.push((args[1], args[2]))))
                    },
                    Builtin::MapPut => if at != -1 {
                        Ok(Val::MapOf(entries.update(at, (entries[at].0, args[2]))))
                    } else {
                        Ok(Val::MapOf(entries.push((args[1], args[2]))))
                    },
                    Builtin::MapGetOr => if at != -1 {
                        Ok(entries[at].1)
                    } else {
                        Ok(args[2])
                    },
                    Builtin::MapContains => Ok(Val::Bool(at != -1)),
                    _ => if at != -1 {
                        Ok(entries[at].1)
                    } else {
                        Err(Failure::Eval("Map key not found"@))
                    },
                }
            },
        },
        _ => match builtin {
            Builtin::MapCount => Err(
                Failure::Type("invalid collection for "@ + builtin_name(builtin)),
            ),
            Builtin::MapUnionLeft => Err(type_failure(builtin, " expects Map arguments"@)),
            _ => Err(type_failure(builtin, " expects Map"@)),
        },
    }
}

pub(crate) fn compute_map(env: &Env, builtin: Builtin, args: &Vec<Value>) -> (result: Result<Value, MagError>)
    requires
        args@.len() == takes_exactly(builtin),
        builtin is MapInsert || builtin is MapPut || builtin is MapGetOr || builtin is MapGet
            || builtin is MapContains || builtin is MapUnionLeft || builtin is MapCount,
    ensures
        valued(result) == map_result(env@, builtin, vals(args@)),
{
    let ghost all = vals(args@);
    assert(all[0] == args@[0]@);
    assert(args@.len() > 1 ==> all[1] == args@[1]@);
    assert(args@.len() > 2 ==> all[2] == args@[2]@);
    match raw(&args[0]) {
        Value::MapOf(entries) => {
            let ghost views = val_entries(entries@);
            assert(views.len() == entries@.len());
            match builtin {
                Builtin::MapCount => return Ok(Value::Int(entries.len() as i64)),
                Builtin::MapUnionLeft => {
                    return match raw(&args[1]) {
                        Value::MapOf(right) => {
                            assert(val_entries(right@).len() == right@.len());
                            Ok(Value::MapOf(unite(env, entries, right)))
                        },
                        _ => Err(type_error(builtin, " expects Map arguments")),
                    };
                },
                _ => {},
            }
            let found = find_key(env, entries, &args[1]);
            match builtin {
                Builtin::MapInsert => match found {
                    Some(_) => Err(eval_error("duplicate Map key")),
                    None => {
                        let mut entries = copy_entries(entries);
                        entries.push((args[1].copy(), args[2].copy()));
                        assert(val_entries(entries@) =~= views.push((all[1], all[2])));
                        Ok(Value::MapOf(entries))
                    },
                },
                Builtin::MapPut => match found {
                    Some(at) => {
                        let mut entries = copy_entries(entries);
                        assert(val_entries(entries@).len() == entries@.len());
                        let entry = &entries[at];
                        assert(val_entries(entries@)[at as int] == (entry.0@, entry.1@));
                        let key = entry.0.copy();
                        entries.set(at, (key, args[2].copy()));
                        assert(val_entries(entries@) =~= views.update(
                            at as int,
                            (views[at as int].0, all[2]),
                        ));
                        Ok(Value::MapOf(entries))
                    },
                    None => {
                        let mut entries = copy_entries(entries);
                        entries.push((args[1].copy(), args[2].copy()));
                        assert(val_entries(entries@) =~= views.push((all[1], all[2])));
                        Ok(Value::MapOf(entries))
                    },
                },
                Builtin::MapGetOr => match found {
                    Some(at) => {
                        let entry = &entries[at];
                        assert(views[at as int] == (entry.0@, entry.1@));
                        Ok(entry.1.copy())
                    },
                    None => Ok(args[2].copy()),
                },
                Builtin::MapContains => Ok(Value::Bool(found.is_some())),
                _ => match found {
                    Some(at) => {
                        let entry = &entries[at];
                        assert(views[at as int] == (entry.0@, entry.1@));
                        Ok(entry.1.copy())
                    },
                    None => Err(eval_error("Map key not found")),
                },
            }
        },
        _ => match builtin {
            Builtin::MapCount => Err(
                MagError::Type(cat2("invalid collection for ", builtin.name())),
            ),
            Builtin::MapUnionLeft => Err(type_error(builtin, " expects Map arguments")),
            _ => Err(type_error(builtin, " expects Map")),
        },
    }
}

/// The functions on sets.
pub open spec fn set_result(world: World, builtin: Builtin, args: Seq<Val>) -> Result<Val, Failure> {
    match bare(args[0]) {
        Val::SetOf(items) => match builtin {
            Builtin::SetCount => Ok(length_val(items.len())),
            Builtin::SetContains => Ok(Val::Bool(item_index(world, items, args[1], 0) != -1)),
            _ => if item_index(world, items, args[1], 0) != -1 {
                Err(Failure::Eval("duplicate Set member"@))
            } else {
                Ok(Val::SetOf(items.push(args[1])))
            },
        },
        _ => if builtin is SetCount {
            Err(Failure::Type("invalid collection for "@ + builtin_name(builtin)))
        } else {
            Err(type_failure(builtin, " expects Set"@))
        },
    }
}

pub(crate) fn compute_set(env: &Env, builtin: Builtin, args: &Vec<Value>) -> (result: Result<Value, MagError>)
    requires
        args@.len() == takes_exactly(builtin),
        builtin is SetInsert || builtin is SetContains || builtin is SetCount,
    ensures
        valued(result) == set_result(env@, builtin, vals(args@)),
{
    let ghost all = vals(args@);
    assert(all[0] == args@[0]@);
    assert(args@.len() > 1 ==> all[1] == args@[1]@);
    match raw(&args[0]) {
        Value::SetOf(items) => {
            let ghost views = vals(items@);
            assert(views.len() == items@.len());
            match builtin {
                Builtin::SetCount => Ok(Value::Int(items.len() as i64)),
                Builtin::SetContains => Ok(
                    Value::Bool(find_item(env, items, &args[1]).is_some()),
                ),
                _ => match find_item(env, items, &args[1]) {
                    Some(_) => Err(eval_error("duplicate Set member")),
                    None => {
                        let mut items = copy_values(items);
                        items.push(args[1].copy());
                        assert(vals(items@) =~= views.push(all[1]));
                        Ok(Value::SetOf(items))
                    },
                },
            }
        },
        _ => match builtin {
            Builtin::SetCount => Err(
                MagError::Type(cat2("invalid collection for ", builtin.name())),
            ),
            _ => Err(type_error(builtin, " expects Set")),
        },
    }
}

// ---------------------------------------------------------------------------
// Texts and numbers
// ---------------------------------------------------------------------------

/// The texts that values are shown as, one after another, from index `i` on.
pub open spec fn shown_all(args: Seq<Val>, i: int) -> Seq<char>
    decreases args.len() - i,
{
    if i < 0 || i >= args.len() {
        Seq::empty()
    } else {
        shown(args[i]) + shown_all(args, i + 1)
    }
}

fn show_all(args: &Vec<Value>) -> (text: String)
    ensures
        text@ == shown_all(vals(args@), 0),
{
    let ghost all = vals(args@);
    let mut text = "".to_owned();
    proof {
        reveal_strlit("");
        assert(text@ + shown_all(all, 0) =~= shown_all(all, 0));
    }
    let mut i: usize = 0;
    while i < args.len()
        invariant
            i <= args@.len(),
            all == vals(args@),
            shown_all(all, 0) == text@ + shown_all(all, i as int),
        decreases args@.len() - i,
    {
        assert(all[i as int] == args@[i as int]@);
        let ghost before = text@;
        let part = value_string(&args[i]);
        text = cat2(text.as_str(), part.as_str());
        proof {
            let rest = shown_all(all, i + 1);
            assert(before + (part@ + rest) =~= text@ + rest);
        }
        i = i + 1;
    }
    assert(text@ + Seq::<char>::empty() =~= text@);
    text
}

/// The functions on texts and numbers.
pub open spec fn text_result(builtin: Builtin, args: Seq<Val>) -> Result<Val, Failure> {
    match builtin {
        Builtin::Str => Ok(Val::Str(shown_all(args, 0))),
        Builtin::StripMargin => match val_text(args[0]) {
            Some(text) => Ok(Val::Str(stripped(text))),
            None => Err(type_failure(builtin, " expects a String"@)),
        },
        Builtin::Replace => match val_text(args[0]) {
            None => Err(type_failure(builtin, " expects a String"@)),
            Some(text) => match val_text(args[1]) {
                None => Err(type_failure(builtin, " expects a String pattern"@)),
                Some(pattern) => match val_text(args[2]) {
                    None => Err(type_failure(builtin, " expects a String replacement"@)),
                    Some(with) => Ok(Val::Str(replaced(text, pattern, with))),
                },
            },
        },
        Builtin::Canonical => match val_json(args[0]) {
            Err(failure) => Err(failure),
            Ok(data) => Ok(Val::Str(json_text(ordered_json(data)))),
        },
        Builtin::Fail => match val_json(args[0]) {
            Err(failure) => Err(failure),
            Ok(data) => Err(Failure::Eval("validation failed: "@ + json_text(data))),
        },
        Builtin::Artifact => match val_json(args[0]) {
            Err(failure) => Err(failure),
            Ok(data) => Ok(Val::Artifact(data)),
        },
        Builtin::IntMul => match (bare(args[0]), bare(args[1])) {
            (Val::Int(left), Val::Int(right)) => if i64::MIN <= left * right <= i64::MAX {
                Ok(Val::Int(left * right))
            } else {
                Err(
                    Failure::Eval(
                        "int_mul overflow: "@ + signed_decimal(left) + " * "@ + signed_decimal(
                            right,
                        ),
                    ),
                )
            },
            _ => Err(type_failure(builtin, " expects Int arguments"@)),
        },
        Builtin::IntGt => match (bare(args[0]), bare(args[1])) {
            (Val::Int(left), Val::Int(right)) => Ok(Val::Bool(left > right)),
            _ => Err(type_failure(builtin, " expects Int arguments"@)),
        },
        Builtin::Not => Ok(Val::Bool(!is_true(args[0]))),
        Builtin::Or => if is_true(args[0]) {
            Ok(args[0])
        } else {
            Ok(args[1])
        },
        Builtin::FunctionName => match bare(args[0]) {
            Val::Fn(function) => match function.name {
                Some(name) => Ok(Val::Str(name)),
                None => Err(
                    Failure::Eval(
                        "function_name requires a function bound by let; anonymous closures have no authored identity"@,
                    ),
                ),
            },
            _ => Err(type_failure(builtin, " expects a function"@)),
        },
        _ => Ok(Val::PackedValue(Box::new(args[0]))),
    }
}

pub(crate) fn compute_text(builtin: Builtin, args: &Vec<Value>) -> (result: Result<Value, MagError>)
    requires
        builtin is Str || args@.len() == takes_exactly(builtin),
        builtin is Str || builtin is StripMargin || builtin is Replace || builtin is Canonical
            || builtin is Fail || builtin is Artifact || builtin is IntMul || builtin is IntGt
            || builtin is Not || builtin is Or || builtin is FunctionName || builtin is Pack,
    ensures
        valued(result) == text_result(builtin, vals(args@)),
{
    let ghost all = vals(args@);
    assert(args@.len() > 0 ==> all[0] == args@[0]@);
    assert(args@.len() > 1 ==> all[1] == args@[1]@);
    assert(args@.len() > 2 ==> all[2] == args@[2]@);
    match builtin {
        Builtin::Str => Ok(Value::Str(show_all(args))),
        Builtin::StripMargin => match args[0].as_str() {
            Some(text) => Ok(Value::Str(strip_margin(text))),
            None => Err(type_error(builtin, " expects a String")),
        },
        Builtin::Replace => match args[0].as_str() {
            None => Err(type_error(builtin, " expects a String")),
            Some(text) => match args[1].as_str() {
                None => Err(type_error(builtin, " expects a String pattern")),
                Some(pattern) => match args[2].as_str() {
                    None => Err(type_error(builtin, " expects a String replacement")),
                    Some(with) => Ok(Value::Str(replace_text(text, pattern, with))),
                },
            },
        },
        Builtin::Canonical => match value_to_json(&args[0]) {
            Err(error) => Err(error),
            Ok(json) => Ok(Value::Str(canonical_json(&json).to_text())),
        },
        Builtin::Fail => match value_to_json(&args[0]) {
            Err(error) => Err(error),
            Ok(json) => {
                let text = json.to_text();
                Err(MagError::Eval(cat2("validation failed: ", text.as_str())))
            },
        },
        Builtin::Artifact => match value_to_json(&args[0]) {
            Err(error) => Err(error),
            Ok(json) => Ok(Value::Artifact(json)),
        },
        Builtin::IntMul => match (raw(&args[0]), raw(&args[1])) {
            (Value::Int(left), Value::Int(right)) => match left.checked_mul(*right) {
                Some(product) => Ok(Value::Int(product)),
                None => {
                    let left = signed_text(*left);
                    let right = signed_text(*right);
                    Err(
                        MagError::Eval(
                            cat4("int_mul overflow: ", left.as_str(), " * ", right.as_str()),
                        ),
                    )
                },
            },
            _ => Err(type_error(builtin, " expects Int arguments")),
        },
        Builtin::IntGt => match (raw(&args[0]), raw(&args[1])) {
            (Value::Int(left), Value::Int(right)) => Ok(Value::Bool(*left > *right)),
            _ => Err(type_error(builtin, " expects Int arguments")),
        },
        Builtin::Not => Ok(Value::Bool(!truthy(&args[0]))),
        Builtin::Or => if truthy(&args[0]) {
            Ok(args[0].copy())
        } else {
            Ok(args[1].copy())
        },
        Builtin::FunctionName => match raw(&args[0]) {
            Value::Fn(function) => {
                let f: &FnValue = function;
                assert(f@.name == option_name(f.name));
                match &f.name {
                    Some(name) => Ok(Value::Str(name.clone())),
                    None => Err(
                        eval_error(
                            "function_name requires a function bound by let; anonymous closures have no authored identity",
                        ),
                    ),
                }
            },
            _ => Err(type_error(builtin, " expects a function")),
        },
        _ => {
            let value = args[0].copy();
            Ok(Value::PackedValue(Box::new(value)))
        },
    }
}

// ---------------------------------------------------------------------------
// Lists and records
// ---------------------------------------------------------------------------

/// The names of fields as values, from index `i` on.
pub open spec fn name_vals(fields: Seq<(Seq<char>, Val)>) -> Seq<Val> {
    Seq::new(fields.len(), |i: int| Val::Str(fields[i].0))
}

/// The functions on lists and records.
pub open spec fn record_result(world: World, builtin: Builtin, args: Seq<Val>) -> Result<
    Val,
    Failure,
> {
    match builtin {
        Builtin::Count => match bare(args[0]) {
            Val::List(items) => Ok(length_val(items.len())),
            Val::Fields(fields) => Ok(length_val(fields.len())),
            Val::Str(text) => Ok(length_val(text.len())),
            _ => Err(Failure::Eval("count expects a collection"@)),
        },
        Builtin::RemoveAt => match bare(args[0]) {
            Val::List(items) => match bare(args[1]) {
                Val::Int(index) => if index < 0 {
                    Err(Failure::Eval("remove_at index must be non-negative Int"@))
                } else if index >= items.len() {
                    Err(
                        Failure::Eval(
                            "remove_at index "@ + decimal(index as nat) + " is out of bounds for "@
                                + decimal(items.len()) + " values"@,
                        ),
                    )
                } else {
                    Ok(Val::List(items.remove(index)))
                },
                _ => Err(Failure::Eval("remove_at index must be non-negative Int"@)),
            },
            _ => Err(Failure::Eval("remove_at expects List"@)),
        },
        Builtin::Get => {
            let key = without_colons(shown(args[1]));
            match bare(args[0]) {
                Val::Fields(fields) => Ok(
                    match field_value(fields, key, 0) {
                        Some(value) => value,
                        None => Val::Unit,
                    },
                ),
                Val::JsonValue(Data::Object(members)) => Ok(
                    match member_at(members, key, 0) {
                        Some(data) => json_val(data),
                        None => Val::Unit,
                    },
                ),
                _ => Err(Failure::Eval("get expects named fields or a JSON object"@)),
            }
        },
        Builtin::Assoc => match bare(args[0]) {
            Val::Fields(fields) => Ok(
                Val::Fields(put_field(fields, without_colons(shown(args[1])), args[2])),
            ),
            _ => Err(Failure::Eval("assoc expects a map"@)),
        },
        Builtin::Keys => match bare(args[0]) {
            Val::Fields(fields) => Ok(Val::List(name_vals(fields))),
            _ => Err(Failure::Eval("keys expects a map"@)),
        },
        Builtin::First => match bare(args[0]) {
            Val::List(items) => if items.len() == 0 {
                Err(Failure::Eval("first expects a non-empty List"@))
            } else {
                Ok(items[0])
            },
            _ => Err(Failure::Eval("first expects a List"@)),
        },
        Builtin::Concat => match (bare(args[0]), bare(args[1])) {
            (Val::Str(left), Val::Str(right)) => Ok(Val::Str(left + right)),
            (Val::List(left), Val::List(right)) => Ok(Val::List(left + right)),
            _ => Err(Failure::Eval("concat expects matching strings or collections"@)),
        },
        _ => Ok(Val::Bool(equals(world, args[0], args[1]))),
    }
}

fn collect_name_values(fields: &Vec<(String, Value)>) -> (values: Vec<Value>)
    ensures
        vals(values@) == name_vals(val_fields(fields@)),
{
    let ghost all = val_fields(fields@);
    let mut values: Vec<Value> = Vec::new();
    let mut i: usize = 0;
    while i < fields.len()
        invariant
            i <= fields@.len(),
            values@.len() == i,
            all == val_fields(fields@),
            forall|j: int| 0 <= j < i ==> (#[trigger] values@[j])@ == Val::Str(all[j].0),
        decreases fields@.len() - i,
    {
        let field = &fields[i];
        assert(all[i as int] == (field.0@, field.1@));
        let value = Value::Str(field.0.clone());
        assert(value@ == Val::Str(field.0@));
        values.push(value);
        i = i + 1;
    }
    assert(vals(values@) =~= name_vals(all));
    values
}

fn concat_values(left: &Vec<Value>, right: &Vec<Value>) -> (values: Vec<Value>)
    ensures
        vals(values@) == vals(left@) + vals(right@),
{
    let mut values = copy_values(left);
    let ghost first = vals(left@);
    let ghost all = vals(right@);
    assert(first + all.take(0) =~= first);
    let mut i: usize = 0;
    while i < right.len()
        invariant
            i <= right@.len(),
            all == vals(right@),
            all.len() == right@.len(),
            vals(values@) == first + all.take(i as int),
        decreases right@.len() - i,
    {
        assert(all[i as int] == right@[i as int]@);
        let ghost before = vals(values@);
        values.push(right[i].copy());
        assert(vals(values@) =~= before.push(all[i as int]));
        assert(before.push(all[i as int]) =~= first + all.take(i + 1));
        i = i + 1;
    }
    assert(all.take(all.len() as int) =~= all);
    values
}

fn remove_value(items: &Vec<Value>, index: usize) -> (values: Vec<Value>)
    requires
        index < items@.len(),
    ensures
        vals(values@) == vals(items@).remove(index as int),
{
    let mut values = copy_values(items);
    assert(vals(values@).len() == values@.len());
    let ghost before = values@;
    let _ = values.remove(index);
    assert(vals(values@) =~= vals(before).remove(index as int));
    values
}

fn char_count(text: &str) -> (count: usize)
    ensures
        count == text@.len(),
{
    text_chars(text).len()
}

#[verifier::rlimit(40)]
pub(crate) fn compute_record(env: &Env, builtin: Builtin, args: &Vec<Value>) -> (result: Result<
    Value,
    MagError,
>)
    requires
        args@.len() == takes_exactly(builtin),
        builtin is Count || builtin is RemoveAt || builtin is Get || builtin is Assoc
            || builtin is Keys || builtin is First || builtin is Concat || builtin is Equal,
    ensures
        valued(result) == record_result(env@, builtin, vals(args@)),
{
    let ghost all = vals(args@);
    assert(all[0] == args@[0]@);
    assert(args@.len() > 1 ==> all[1] == args@[1]@);
    assert(args@.len() > 2 ==> all[2] == args@[2]@);
    match builtin {
        Builtin::Count => match raw(&args[0]) {
            Value::List(items) => {
                assert(vals(items@).len() == items@.len());
                Ok(Value::Int(items.len() as i64))
            },
            Value::Fields(fields) => {
                assert(val_fields(fields@).len() == fields@.len());
                Ok(Value::Int(fields.len() as i64))
            },
            Value::Str(text) => Ok(Value::Int(char_count(text.as_str()) as i64)),
            _ => Err(eval_error("count expects a collection")),
        },
        Builtin::RemoveAt => match raw(&args[0]) {
            Value::List(items) => match raw(&args[1]) {
                Value::Int(index) => {
                    assert(vals(items@).len() == items@.len());
                    if *index < 0 {
                        return Err(eval_error("remove_at index must be non-negative Int"));
                    }
                    let place = *index as u64;
                    let length = items.len();
                    if place >= length as u64 {
                        let index = decimal_text(place);
                        let length = count_text(length);
                        return Err(
                            MagError::Eval(
                                cat5(
                                    "remove_at index ",
                                    index.as_str(),
                                    " is out of bounds for ",
                                    length.as_str(),
                                    " values",
                                ),
                            ),
                        );
                    }
                    Ok(Value::List(remove_value(items, place as usize)))
                },
                _ => Err(eval_error("remove_at index must be non-negative Int")),
            },
            _ => Err(eval_error("remove_at expects List")),
        },
        Builtin::Get => {
            let key = value_string(&args[1]);
            let key = trim_colons(key.as_str());
            match raw(&args[0]) {
                Value::Fields(fields) => match find_value(fields, key.as_str()) {
                    Some(value) => Ok(value.copy()),
                    None => Ok(Value::Unit),
                },
                Value::JsonValue(json) => match json {
                    Json::Object(members) => match find_member(members, key.as_str()) {
                        Some(member) => Ok(json_to_value(member)),
                        None => Ok(Value::Unit),
                    },
                    _ => Err(eval_error("get expects named fields or a JSON object")),
                },
                _ => Err(eval_error("get expects named fields or a JSON object")),
            }
        },
        Builtin::Assoc => match raw(&args[0]) {
            Value::Fields(fields) => {
                let key = value_string(&args[1]);
                let key = trim_colons(key.as_str());
                let mut fields = copy_val_fields(fields);
                insert_field(&mut fields, key, args[2].copy());
                Ok(Value::Fields(fields))
            },
            _ => Err(eval_error("assoc expects a map")),
        },
        Builtin::Keys => match raw(&args[0]) {
            Value::Fields(fields) => Ok(Value::List(collect_name_values(fields))),
            _ => Err(eval_error("keys expects a map")),
        },
        Builtin::First => match raw(&args[0]) {
            Value::List(items) => {
                assert(vals(items@).len() == items@.len());
                if items.len() == 0 {
                    Err(eval_error("first expects a non-empty List"))
                } else {
                    assert(vals(items@)[0] == items@[0]@);
                    Ok(items[0].copy())
                }
            },
            _ => Err(eval_error("first expects a List")),
        },
        Builtin::Concat => match (raw(&args[0]), raw(&args[1])) {
            (Value::Str(left), Value::Str(right)) => Ok(
                Value::Str(cat2(left.as_str(), right.as_str())),
            ),
            (Value::List(left), Value::List(right)) => Ok(
                Value::List(concat_values(left, right)),
            ),
            _ => Err(eval_error("concat expects matching strings or collections")),
        },
        _ => Ok(Value::Bool(equal(env, &args[0], &args[1]))),
    }
}

// ---------------------------------------------------------------------------
// Laws
// ---------------------------------------------------------------------------

/// The keys of a map, in its order.
pub open spec fn map_keys(entries: Seq<(Val, Val)>) -> Seq<Val> {
    Seq::new(entries.len(), |i: int| entries[i].0)
}

/// A key that is not equal to another one, nor equal to a key of a map that is equal to
/// that other one.
pub open spec fn told_apart(world: World, entries: Seq<(Val, Val)>, key: Val, other: Val) -> bool {
    &&& !equals(world, key, other)
    &&& forall|i: int|
        0 <= i < entries.len() ==> !(equals(world, (#[trigger] entries[i]).0, key) && equals(
            world,
            entries[i].0,
            other,
        ))
}

pub(crate) proof fn lemma_key_index(world: World, entries: Seq<(Val, Val)>, key: Val, i: int)
    requires
        0 <= i,
    ensures
        ({
            let at = key_index(world, entries, key, i);
            &&& at == -1 || (i <= at < entries.len() && equals(world, entries[at].0, key))
            &&& at == -1 ==> forall|k: int|
                i <= k < entries.len() ==> !equals(world, (#[trigger] entries[k]).0, key)
        }),
    decreases entries.len() - i,
{
    if i < entries.len() {
        lemma_key_index(world, entries, key, i + 1);
    }
}

/// Where a key is found depends only on the keys.
proof fn lemma_index_by_keys(
    world: World,
    left: Seq<(Val, Val)>,
    right: Seq<(Val, Val)>,
    key: Val,
    i: int,
)
    requires
        map_keys(left) == map_keys(right),
    ensures
        key_index(world, left, key, i) == key_index(world, right, key, i),
    decreases left.len() - i,
{
    assert(map_keys(left).len() == left.len() && map_keys(right).len() == right.len());
    if 0 <= i < left.len() {
        assert(map_keys(left)[i] == left[i].0 && map_keys(right)[i] == right[i].0);
        assert(left[i].0 == right[i].0);
        lemma_index_by_keys(world, left, right, key, i + 1);
    }
}

proof fn lemma_index_pushed(
    world: World,
    entries: Seq<(Val, Val)>,
    entry: (Val, Val),
    key: Val,
    i: int,
)
    requires
        0 <= i <= entries.len(),
    ensures
        key_index(world, entries.push(entry), key, i) == (if key_index(world, entries, key, i)
            != -1 {
            key_index(world, entries, key, i)
        } else if equals(world, entry.0, key) {
            entries.len() as int
        } else {
            -1
        }),
    decreases entries.len() - i,
{
    let more = entries.push(entry);
    if i < entries.len() {
        assert(more[i] == entries[i]);
        lemma_index_pushed(world, entries, entry, key, i + 1);
    } else {
        assert(key_index(world, more, key, i + 1) == -1);
    }
}

/// After a value has been put under a key that equals itself, the key gives that value.
/// Keys that are told apart from it give what they gave before, and where the keys of the map
/// hold nothing twice, these are all keys that are not equal to it. The keys keep their places;
/// one that is new stands behind the others.
pub proof fn lemma_put_then_get(world: World, map: Val, key: Val, value: Val, other: Val)
    requires
        bare(map) is MapOf,
        equals(world, key, key),
    ensures
        ({
            let entries = bare(map)->MapOf_0;
            let put = map_result(world, Builtin::MapPut, seq![map, key, value]);
            &&& put matches Ok(Val::MapOf(after)) && {
                &&& map_keys(after) == if key_index(world, entries, key, 0) == -1 {
                    map_keys(entries).push(key)
                } else {
                    map_keys(entries)
                }
                &&& map_result(world, Builtin::MapGet, seq![Val::MapOf(after), key]) == Ok::<
                    Val,
                    Failure,
                >(value)
                &&& told_apart(world, entries, key, other) ==> map_result(
                    world,
                    Builtin::MapGet,
                    seq![Val::MapOf(after), other],
                ) == map_result(world, Builtin::MapGet, seq![map, other])
                &&& (forall|i: int|
                    0 <= i < entries.len() ==> orderly(world, (#[trigger] entries[i]).0))
                    && !equals(world, key, other) ==> map_result(
                    world,
                    Builtin::MapGet,
                    seq![Val::MapOf(after), other],
                ) == map_result(world, Builtin::MapGet, seq![map, other])
            }
        }),
{
    let entries = bare(map)->MapOf_0;
    let at = key_index(world, entries, key, 0);
    lemma_key_index(world, entries, key, 0);
    lemma_key_index(world, entries, other, 0);
    let there = key_index(world, entries, other, 0);
    if forall|i: int| 0 <= i < entries.len() ==> orderly(world, (#[trigger] entries[i]).0) {
        lemma_keys_told_apart(world, entries, key, other);
    }
    if at == -1 {
        let after = entries.push((key, value));
        lemma_index_pushed(world, entries, (key, value), key, 0);
        lemma_index_pushed(world, entries, (key, value), other, 0);
        assert(map_keys(after) =~= map_keys(entries).push(key));
        if there != -1 {
            assert(after[there] == entries[there]);
        }
    } else {
        let after = entries.update(at, (entries[at].0, value));
        assert(map_keys(after) =~= map_keys(entries));
        lemma_index_by_keys(world, after, entries, key, 0);
        lemma_index_by_keys(world, after, entries, other, 0);
        if there != -1 && there != at {
            assert(after[there] == entries[there]);
        }
    }
}

/// In a map whose keys hold nothing twice, keys that are not equal are told apart.
pub proof fn lemma_keys_told_apart(
    world: World,
    entries: Seq<(Val, Val)>,
    key: Val,
    other: Val,
)
    requires
        forall|i: int| 0 <= i < entries.len() ==> orderly(world, (#[trigger] entries[i]).0),
    ensures
        !equals(world, key, other) ==> told_apart(world, entries, key, other),
{
    assert forall|i: int| 0 <= i < entries.len() && !equals(world, key, other) implies !(equals(
        world,
        (#[trigger] entries[i]).0,
        key,
    ) && equals(world, entries[i].0, other)) by {
        if equals(world, entries[i].0, key) && equals(world, entries[i].0, other) {
            lemma_equal_to_the_same(world, entries[i].0, key, other);
        }
    }
}

proof fn lemma_entry_added(world: World, entries: Seq<(Val, Val)>, entry: (Val, Val))
    requires
        orderly(world, Val::MapOf(entries)),
        orderly(world, entry.0),
        orderly(world, entry.1),
        key_index(world, entries, entry.0, 0) == -1,
    ensures
        orderly(world, Val::MapOf(entries.push(entry))),
{
    let after = entries.push(entry);
    let map = Val::MapOf(entries);
    assert(orderly(world, map) && map->MapOf_0 == entries);
    lemma_key_index(world, entries, entry.0, 0);
    assert forall|i: int, j: int| 0 <= i < j < after.len() implies !equals(
        world,
        (#[trigger] after[i]).0,
        (#[trigger] after[j]).0,
    ) by {
        assert(after[i] == entries[i]);
        if j < entries.len() {
            assert(after[j] == entries[j]);
        }
    }
    assert forall|i: int| 0 <= i < after.len() implies orderly(world, (#[trigger] after[i]).0)
        && orderly(world, after[i].1) by {
        if i < entries.len() {
            assert(after[i] == entries[i]);
        }
    }
}

proof fn lemma_united_orderly(
    world: World,
    left: Seq<(Val, Val)>,
    right: Seq<(Val, Val)>,
    n: int,
)
    requires
        orderly(world, Val::MapOf(left)),
        orderly(world, Val::MapOf(right)),
        0 <= n <= right.len(),
    ensures
        orderly(world, Val::MapOf(united(world, left, right, n))),
    decreases n,
{
    if n > 0 {
        let before = united(world, left, right, n - 1);
        lemma_united_orderly(world, left, right, n - 1);
        let map = Val::MapOf(right);
        assert(orderly(world, map) && map->MapOf_0 == right);
        assert(orderly(world, right[n - 1].0) && orderly(world, right[n - 1].1));
        if key_index(world, before, right[n - 1].0, 0) == -1 {
            lemma_entry_added(world, before, right[n - 1]);
        }
    }
}

/// Maps that are made of values that hold nothing twice hold no key twice.
pub proof fn lemma_maps_stay_orderly(world: World, builtin: Builtin, args: Seq<Val>)
    requires
        builtin is MapInsert || builtin is MapPut || builtin is MapUnionLeft,
        args.len() == takes_exactly(builtin),
        forall|i: int| 0 <= i < args.len() ==> orderly(world, #[trigger] args[i]),
    ensures
        map_result(world, builtin, args) matches Ok(map) ==> orderly(world, map),
{
    assert(orderly(world, args[0]));
    assert(orderly(world, args[1]));
    lemma_bare_orderly(world, args[0]);
    if let Val::MapOf(entries) = bare(args[0]) {
        if builtin is MapUnionLeft {
            lemma_bare_orderly(world, args[1]);
            if let Val::MapOf(right) = bare(args[1]) {
                lemma_united_orderly(world, entries, right, right.len() as int);
            }
        } else {
            assert(orderly(world, args[2]));
            let at = key_index(world, entries, args[1], 0);
            lemma_key_index(world, entries, args[1], 0);
            if at == -1 {
                lemma_entry_added(world, entries, (args[1], args[2]));
            } else {
                let after = entries.update(at, (entries[at].0, args[2]));
                assert forall|i: int, j: int| 0 <= i < j < after.len() implies !equals(
                    world,
                    (#[trigger] after[i]).0,
                    (#[trigger] after[j]).0,
                ) by {
                    assert(after[i].0 == entries[i].0 && after[j].0 == entries[j].0);
                }
                assert forall|i: int| 0 <= i < after.len() implies orderly(
                    world,
                    (#[trigger] after[i]).0,
                ) && orderly(world, after[i].1) by {
                    assert(orderly(world, entries[i].0) && orderly(world, entries[i].1));
                }
            }
        }
    }
}

proof fn lemma_item_index(world: World, items: Seq<Val>, item: Val, i: int)
    requires
        0 <= i,
        item_index(world, items, item, i) == -1,
    ensures
        forall|k: int| i <= k < items.len() ==> !equals(world, #[trigger] items[k], item),
    decreases items.len() - i,
{
    if i < items.len() {
        lemma_item_index(world, items, item, i + 1);
    }
}

/// Sets that are made of values that hold nothing twice hold no member twice.
pub proof fn lemma_sets_stay_orderly(world: World, set: Val, item: Val)
    requires
        orderly(world, set),
        orderly(world, item),
    ensures
        set_result(world, Builtin::SetInsert, seq![set, item]) matches Ok(after) ==> orderly(
            world,
            after,
        ),
{
    lemma_bare_orderly(world, set);
    if let Val::SetOf(items) = bare(set) {
        if item_index(world, items, item, 0) == -1 {
            lemma_item_index(world, items, item, 0);
            let after = items.push(item);
            assert forall|i: int, j: int| 0 <= i < j < after.len() implies !equals(
                world,
                #[trigger] after[i],
                #[trigger] after[j],
            ) by {
                assert(after[i] == items[i]);
            }
        }
    }
}

proof fn lemma_bare_orderly(world: World, value: Val)
    ensures
        orderly(world, value) == orderly(world, bare(value)),
    decreases value,
{
    if let Val::Typed(inner, _) = value {
        lemma_bare_orderly(world, *inner);
    }
}

} // verus!
