//! Laws of the functions of the language that call nothing, and of which values belong to
//! which types.

use crate::asking::Halt;
use crate::builtins::Builtin;
use crate::compat::substituted_fields;
use crate::content::put_field;
use crate::env::{World, decl_of};
use crate::machine::{At, Done, Run, builtin_applied};
use crate::primitives::{item_index, key_index, shown_all, united};
use crate::sameness::{
    holds_entry, holds_field, holds_item, lemma_all_entries, lemma_all_fields, lemma_all_items,
    lemma_all_members,
};
use crate::selection::{lemma_put_field, lemma_value_present, names_rise};
use crate::strings::{colons_end, without_colons};
use crate::types::{Ty, substituted, zipped};
use crate::validity::{
    conforms_entries, conforms_fields, conforms_items, conforms_positions, equals, evident,
    field_index, of_type,
};
use crate::value::{Val, bare};
use vstd::prelude::*;

verus! {

/// A call of a function of the language that changes nothing returns a value.
pub open spec fn gives(run: Run, builtin: Builtin, args: Seq<Val>, at: At, value: Val) -> bool {
    builtin_applied(run, builtin, args, at) == (Done { run, result: Ok(value) })
}

/// A call of a function of the language changes nothing and fails.
pub open spec fn refuses(run: Run, builtin: Builtin, args: Seq<Val>, at: At) -> bool {
    let done = builtin_applied(run, builtin, args, at);
    done.run == run && (done.result matches Err(Halt::Failed(_)))
}

// ---------------------------------------------------------------------------
// Numbers and truth
// ---------------------------------------------------------------------------

/// `int_mul` returns the product where it is a number of the language and fails elsewhere,
/// and `int_gt` says whether the first number is the greater one.
pub proof fn lemma_numbers(run: Run, left: Val, right: Val, a: int, b: int, at: At)
    requires
        bare(left) == Val::Int(a),
        bare(right) == Val::Int(b),
    ensures
        -0x8000_0000_0000_0000 <= a * b <= 0x7fff_ffff_ffff_ffff ==> gives(
            run,
            Builtin::IntMul,
            seq![left, right],
            at,
            Val::Int(a * b),
        ),
        !(-0x8000_0000_0000_0000 <= a * b <= 0x7fff_ffff_ffff_ffff) ==> refuses(
            run,
            Builtin::IntMul,
            seq![left, right],
            at,
        ),
        gives(run, Builtin::IntGt, seq![left, right], at, Val::Bool(a > b)),
{
}

/// `not` turns truth around, and `or` returns its first argument where that is true and the
/// second one where it is not.
pub proof fn lemma_truth(run: Run, left: Val, right: Val, flag: bool, at: At)
    requires
        bare(left) == Val::Bool(flag),
    ensures
        gives(run, Builtin::Not, seq![left], at, Val::Bool(!flag)),
        gives(
            run,
            Builtin::Or,
            seq![left, right],
            at,
            if flag {
                left
            } else {
                right
            },
        ),
{
}

// ---------------------------------------------------------------------------
// Lists and texts
// ---------------------------------------------------------------------------

/// `concat` puts the second list behind the first, `count` says how many items there are, and
/// `first` returns the first of them.
pub proof fn lemma_lists(run: Run, left: Val, right: Val, a: Seq<Val>, b: Seq<Val>, at: At)
    requires
        bare(left) == Val::List(a),
        bare(right) == Val::List(b),
    ensures
        gives(run, Builtin::Concat, seq![left, right], at, Val::List(a + b)),
        a.len() <= i64::MAX ==> gives(
            run,
            Builtin::Count,
            seq![left],
            at,
            Val::Int(a.len() as int),
        ),
        a.len() > 0 ==> gives(run, Builtin::First, seq![left], at, a[0]),
        a.len() == 0 ==> refuses(run, Builtin::First, seq![left], at),
{
}

/// `concat` and `str` put the second text behind the first, and `count` says how many
/// characters a text has.
pub proof fn lemma_texts(run: Run, left: Val, right: Val, a: Seq<char>, b: Seq<char>, at: At)
    requires
        bare(left) == Val::Str(a),
        bare(right) == Val::Str(b),
    ensures
        gives(run, Builtin::Concat, seq![left, right], at, Val::Str(a + b)),
        gives(run, Builtin::Str, seq![left, right], at, Val::Str(a + b)),
        a.len() <= i64::MAX ==> gives(
            run,
            Builtin::Count,
            seq![left],
            at,
            Val::Int(a.len() as int),
        ),
{
    let args = seq![left, right];
    assert(shown_all(args, 2) =~= Seq::<char>::empty());
    assert(shown_all(args, 1) =~= b);
    assert(shown_all(args, 0) =~= a + b);
}

/// `remove_at` leaves out the item at an index and keeps all others in their order; it fails
/// where there is no such item.
pub proof fn lemma_remove_at(run: Run, list: Val, index: Val, items: Seq<Val>, i: int, at: At)
    requires
        bare(list) == Val::List(items),
        bare(index) == Val::Int(i),
    ensures
        0 <= i < items.len() ==> gives(
            run,
            Builtin::RemoveAt,
            seq![list, index],
            at,
            Val::List(items.take(i) + items.skip(i + 1)),
        ),
        !(0 <= i < items.len()) ==> refuses(run, Builtin::RemoveAt, seq![list, index], at),
{
    if 0 <= i < items.len() {
        assert(items.remove(i) =~= items.take(i) + items.skip(i + 1));
    }
}

// ---------------------------------------------------------------------------
// Records
// ---------------------------------------------------------------------------

proof fn lemma_no_colons(key: Seq<char>)
    requires
        key.len() > 0 ==> key[0] != ':',
    ensures
        without_colons(key) == key,
{
    assert(colons_end(key, 0) == 0);
    assert(key.skip(0) =~= key);
}

/// After `assoc` has put a value under a name, `get` returns it under that name, and under
/// every other name what it returned before.
pub proof fn lemma_assoc_then_get(
    run: Run,
    record: Val,
    fields: Seq<(Seq<char>, Val)>,
    key: Seq<char>,
    value: Val,
    other: Seq<char>,
    at: At,
)
    requires
        bare(record) == Val::Fields(fields),
        names_rise(fields),
        key.len() > 0 ==> key[0] != ':',
        other.len() > 0 ==> other[0] != ':',
    ensures
        builtin_applied(
            run,
            Builtin::Assoc,
            seq![record, Val::Str(key), value],
            at,
        ).result matches Ok(Val::Fields(after)) && {
                &&& names_rise(after)
                &&& gives(run, Builtin::Get, seq![Val::Fields(after), Val::Str(key)], at, value)
                &&& other != key ==> builtin_applied(
                    run,
                    Builtin::Get,
                    seq![Val::Fields(after), Val::Str(other)],
                    at,
                ) == builtin_applied(run, Builtin::Get, seq![record, Val::Str(other)], at)
            },
{
    let after = put_field(fields, key, value);
    lemma_no_colons(key);
    lemma_no_colons(other);
    lemma_put_field(fields, key, value, other);
}

/// `get` returns what stands under a name, and the unit where nothing does. `keys` lists the
/// names of all fields.
#[verifier::rlimit(30)]
pub proof fn lemma_get(
    run: Run,
    record: Val,
    fields: Seq<(Seq<char>, Val)>,
    key: Seq<char>,
    n: int,
    at: At,
)
    requires
        bare(record) == Val::Fields(fields),
        names_rise(fields),
        key.len() > 0 ==> key[0] != ':',
    ensures
        0 <= n < fields.len() && fields[n].0 == key ==> gives(
            run,
            Builtin::Get,
            seq![record, Val::Str(key)],
            at,
            fields[n].1,
        ),
        (forall|i: int| 0 <= i < fields.len() ==> (#[trigger] fields[i]).0 != key) ==> gives(
            run,
            Builtin::Get,
            seq![record, Val::Str(key)],
            at,
            Val::Unit,
        ),
        builtin_applied(run, Builtin::Keys, seq![record], at).result matches Ok(Val::List(names))
            && names.len() == fields.len() && forall|i: int|
            0 <= i < fields.len() ==> #[trigger] names[i] == Val::Str(fields[i].0),
{
    lemma_no_colons(key);
    lemma_value_present(fields, key, 0);
}

// ---------------------------------------------------------------------------
// Maps and sets
// ---------------------------------------------------------------------------

proof fn lemma_first_index(world: World, entries: Seq<(Val, Val)>, key: Val, i: int)
    requires
        0 <= i,
    ensures
        key_index(world, entries, key, i) != -1 <==> exists|k: int|
            i <= k < entries.len() && equals(world, (#[trigger] entries[k]).0, key),
    decreases entries.len() - i,
{
    if i < entries.len() {
        lemma_first_index(world, entries, key, i + 1);
    }
}

proof fn lemma_first_item(world: World, items: Seq<Val>, item: Val, i: int)
    requires
        0 <= i,
    ensures
        item_index(world, items, item, i) != -1 <==> exists|k: int|
            i <= k < items.len() && equals(world, #[trigger] items[k], item),
    decreases items.len() - i,
{
    if i < items.len() {
        lemma_first_item(world, items, item, i + 1);
    }
}

/// A map contains a key exactly where one of its keys equals it. Inserting a new key puts it
/// behind the others, and inserting one that is there already fails.
#[verifier::rlimit(30)]
pub proof fn lemma_map_keys(
    run: Run,
    map: Val,
    entries: Seq<(Val, Val)>,
    key: Val,
    value: Val,
    at: At,
)
    requires
        bare(map) == Val::MapOf(entries),
    ensures
        ({
            let there = exists|i: int|
                0 <= i < entries.len() && equals(run.world, (#[trigger] entries[i]).0, key);
            &&& gives(run, Builtin::MapContains, seq![map, key], at, Val::Bool(there))
            &&& there ==> refuses(run, Builtin::MapInsert, seq![map, key, value], at)
            &&& !there ==> gives(
                run,
                Builtin::MapInsert,
                seq![map, key, value],
                at,
                Val::MapOf(entries.push((key, value))),
            )
            &&& !there ==> refuses(run, Builtin::MapGet, seq![map, key], at)
            &&& !there ==> gives(run, Builtin::MapGetOr, seq![map, key, value], at, value)
            &&& there ==> builtin_applied(run, Builtin::MapGetOr, seq![map, key, value], at)
                == builtin_applied(run, Builtin::MapGet, seq![map, key], at)
            &&& entries.len() <= i64::MAX ==> gives(
                run,
                Builtin::MapCount,
                seq![map],
                at,
                Val::Int(entries.len() as int),
            )
        }),
{
    lemma_first_index(run.world, entries, key, 0);
}

proof fn lemma_united_keys(
    world: World,
    left: Seq<(Val, Val)>,
    right: Seq<(Val, Val)>,
    n: int,
)
    requires
        0 <= n <= right.len(),
    ensures
        united(world, left, right, n).len() >= left.len(),
        forall|i: int| 0 <= i < left.len() ==> united(world, left, right, n)[i] == left[i],
        forall|i: int|
            left.len() <= i < united(world, left, right, n).len() ==> right.take(n).contains(
                #[trigger] united(world, left, right, n)[i],
            ),
        forall|j: int|
            0 <= j < n ==> exists|i: int|
                0 <= i < united(world, left, right, n).len() && (equals(
                    world,
                    (#[trigger] united(world, left, right, n)[i]).0,
                    (#[trigger] right[j]).0,
                ) || united(world, left, right, n)[i] == right[j]),
    decreases n,
{
    if n > 0 {
        lemma_united_keys(world, left, right, n - 1);
        let before = united(world, left, right, n - 1);
        let after = united(world, left, right, n);
        lemma_first_index(world, before, right[n - 1].0, 0);
        assert forall|i: int| left.len() <= i < after.len() implies right.take(n).contains(
            #[trigger] after[i],
        ) by {
            if i < before.len() {
                assert(after[i] == before[i]);
                assert(right.take(n - 1).contains(before[i]));
                let k = choose|k: int|
                    0 <= k < right.take(n - 1).len() && #[trigger] right.take(n - 1)[k]
                        == before[i];
                assert(right.take(n)[k] == after[i]);
            } else {
                assert(right.take(n)[n - 1] == after[i]);
            }
        }
        assert forall|j: int| 0 <= j < n implies exists|i: int|
            0 <= i < after.len() && (equals(
                world,
                (#[trigger] after[i]).0,
                (#[trigger] right[j]).0,
            ) || after[i] == right[j]) by {
            if j < n - 1 {
                let i = choose|i: int|
                    0 <= i < before.len() && (equals(
                        world,
                        (#[trigger] before[i]).0,
                        right[j].0,
                    ) || before[i] == right[j]);
                assert(after[i] == before[i]);
            } else if after.len() == before.len() {
                let i = choose|i: int|
                    0 <= i < before.len() && equals(
                        world,
                        (#[trigger] before[i]).0,
                        right[n - 1].0,
                    );
                assert(after[i] == before[i]);
            } else {
                assert(after[before.len() as int] == right[n - 1]);
            }
        }
    }
}

/// The union of two maps has the entries of the first one, and behind them only entries of
/// the second. Every key of the second one is among its keys.
pub proof fn lemma_map_union(
    run: Run,
    left: Val,
    right: Val,
    a: Seq<(Val, Val)>,
    b: Seq<(Val, Val)>,
    at: At,
)
    requires
        bare(left) == Val::MapOf(a),
        bare(right) == Val::MapOf(b),
    ensures
        builtin_applied(
            run,
            Builtin::MapUnionLeft,
            seq![left, right],
            at,
        ).result matches Ok(Val::MapOf(all)) && {
                &&& all.len() >= a.len()
                &&& forall|i: int| 0 <= i < a.len() ==> all[i] == a[i]
                &&& forall|i: int| a.len() <= i < all.len() ==> b.contains(#[trigger] all[i])
                &&& forall|j: int|
                    0 <= j < b.len() ==> exists|i: int|
                        0 <= i < all.len() && (equals(
                            run.world,
                            (#[trigger] all[i]).0,
                            (#[trigger] b[j]).0,
                        ) || all[i] == b[j])
            },
{
    let all = united(run.world, a, b, b.len() as int);
    lemma_united_keys(run.world, a, b, b.len() as int);
    assert(b.take(b.len() as int) =~= b);
}

/// A set contains what equals one of its members. Inserting something new puts it behind the
/// others, and inserting something that is there already fails.
pub proof fn lemma_set_members(run: Run, set: Val, items: Seq<Val>, item: Val, at: At)
    requires
        bare(set) == Val::SetOf(items),
    ensures
        ({
            let there = exists|i: int|
                0 <= i < items.len() && equals(run.world, #[trigger] items[i], item);
            &&& gives(run, Builtin::SetContains, seq![set, item], at, Val::Bool(there))
            &&& there ==> refuses(run, Builtin::SetInsert, seq![set, item], at)
            &&& !there ==> gives(
                run,
                Builtin::SetInsert,
                seq![set, item],
                at,
                Val::SetOf(items.push(item)),
            )
            &&& items.len() <= i64::MAX ==> gives(
                run,
                Builtin::SetCount,
                seq![set],
                at,
                Val::Int(items.len() as int),
            )
        }),
{
    lemma_first_item(run.world, items, item, 0);
}

// ---------------------------------------------------------------------------
// Values of types
// ---------------------------------------------------------------------------

proof fn lemma_each_item_of(world: World, items: Seq<Val>, ty: Ty, i: int)
    requires
        0 <= i,
    ensures
        conforms_items(world, items, ty, i) <==> forall|k: int|
            i <= k < items.len() ==> of_type(world, #[trigger] items[k], ty),
    decreases items.len() - i,
{
    if i < items.len() {
        lemma_each_item_of(world, items, ty, i + 1);
    }
}

proof fn lemma_each_position_of(world: World, items: Seq<Val>, types: Seq<Ty>, i: int)
    requires
        0 <= i,
    ensures
        conforms_positions(world, items, types, i) <==> forall|k: int|
            i <= k < items.len() ==> of_type(world, #[trigger] items[k], types[k]),
    decreases items.len() - i,
{
    if i < items.len() {
        lemma_each_position_of(world, items, types, i + 1);
    }
}

proof fn lemma_each_entry_of(world: World, entries: Seq<(Val, Val)>, key: Ty, item: Ty, i: int)
    requires
        0 <= i,
    ensures
        conforms_entries(world, entries, key, item, i) <==> forall|k: int|
            i <= k < entries.len() ==> of_type(world, (#[trigger] entries[k]).0, key) && of_type(
                world,
                entries[k].1,
                item,
            ),
    decreases entries.len() - i,
{
    if i < entries.len() {
        lemma_each_entry_of(world, entries, key, item, i + 1);
    }
}

/// A value without a mark belongs to a simple type exactly where it is of that kind.
pub proof fn lemma_simple_types(world: World, value: Val)
    requires
        !(value is Typed),
    ensures
        of_type(world, value, Ty::Unit) <==> value is Unit,
        of_type(world, value, Ty::Bool) <==> value is Bool,
        of_type(world, value, Ty::Int) <==> value is Int,
        of_type(world, value, Ty::Float) <==> value is Float,
        of_type(world, value, Ty::String) <==> value is Str,
        of_type(world, value, Ty::JsonValue) <==> value is JsonValue,
        of_type(world, value, Ty::Artifact) <==> value is Artifact,
        !of_type(world, value, Ty::Never),
{
}

/// A value without a mark belongs to a type of lists, sets, maps or tuples exactly where it is
/// such a value and all of its parts belong to the types of the parts.
pub proof fn lemma_compound_types(
    world: World,
    value: Val,
    item: Ty,
    key: Ty,
    types: Seq<Ty>,
)
    requires
        !(value is Typed),
    ensures
        of_type(world, value, Ty::List(Box::new(item))) <==> (value matches Val::List(items)
            && forall|i: int| 0 <= i < items.len() ==> of_type(world, #[trigger] items[i], item)),
        of_type(world, value, Ty::SetOf(Box::new(item))) <==> (value matches Val::SetOf(items)
            && forall|i: int| 0 <= i < items.len() ==> of_type(world, #[trigger] items[i], item)),
        of_type(world, value, Ty::MapOf(Box::new(key), Box::new(item))) <==> (
        value matches Val::MapOf(entries) && forall|i: int|
            0 <= i < entries.len() ==> of_type(world, (#[trigger] entries[i]).0, key) && of_type(
                world,
                entries[i].1,
                item,
            )),
        value matches Val::Product(items) ==> (of_type(world, value, Ty::Product(types)) <==> (
        items.len() == types.len() && forall|i: int|
            0 <= i < items.len() ==> of_type(world, #[trigger] items[i], types[i]))),
{
    match value {
        Val::List(items) => {
            lemma_each_item_of(world, items, item, 0);
        },
        Val::SetOf(items) => {
            lemma_each_item_of(world, items, item, 0);
        },
        Val::MapOf(entries) => {
            lemma_each_entry_of(world, entries, key, item, 0);
        },
        Val::Product(items) => {
            lemma_each_position_of(world, items, types, 0);
        },
        _ => {},
    }
}

/// Some field has a name and a value of a type.
pub open spec fn has_field_of(
    world: World,
    values: Seq<(Seq<char>, Val)>,
    name: Seq<char>,
    ty: Ty,
) -> bool {
    exists|n: int|
        0 <= n < values.len() && (#[trigger] values[n]).0 == name && of_type(world, values[n].1, ty)
}

proof fn lemma_each_field_of(
    world: World,
    values: Seq<(Seq<char>, Val)>,
    fields: Seq<(Seq<char>, Ty)>,
    i: int,
)
    requires
        0 <= i,
        conforms_fields(world, values, fields, i),
    ensures
        forall|k: int|
            i <= k < fields.len() ==> has_field_of(
                world,
                values,
                (#[trigger] fields[k]).0,
                fields[k].1,
            ),
    decreases fields.len() - i,
{
    if i < fields.len() {
        lemma_each_field_of(world, values, fields, i + 1);
        let n = field_index(values, fields[i].0, 0);
        lemma_index_names(values, fields[i].0, 0);
        assert(values[n].0 == fields[i].0 && of_type(world, values[n].1, fields[i].1));
    }
}

proof fn lemma_index_names(values: Seq<(Seq<char>, Val)>, name: Seq<char>, i: int)
    requires
        0 <= i,
    ensures
        field_index(values, name, i) != -1 ==> i <= field_index(values, name, i) < values.len()
            && values[field_index(values, name, i)].0 == name,
    decreases values.len() - i,
{
    if i < values.len() {
        lemma_index_names(values, name, i + 1);
    }
}

/// A record without a mark that belongs to a named type has as many fields as the type
/// declares, and for each of them one of its name that belongs to its type.
pub proof fn lemma_record_types(world: World, value: Val, name: Seq<char>, arguments: Seq<Ty>)
    requires
        !(value is Typed),
        decl_of(world, name) matches Some(declaration) && declaration.body is Fields,
        of_type(world, value, Ty::Named(name, arguments)),
    ensures
        ({
            let declaration = decl_of(world, name)->Some_0;
            let fields = declaration.body->Fields_0;
            let subst = zipped(declaration.params, arguments);
            value matches Val::Fields(values) && values.len() == fields.len() && forall|k: int|
                0 <= k < fields.len() ==> has_field_of(
                    world,
                    values,
                    (#[trigger] fields[k]).0,
                    substituted(fields[k].1, subst),
                )
        }),
{
    let declaration = decl_of(world, name)->Some_0;
    let fields = declaration.body->Fields_0;
    let subst = zipped(declaration.params, arguments);
    let wanted = substituted_fields(fields, subst);
    assert(!evident(world, value, Ty::Named(name, arguments)));
    if let Val::Fields(values) = value {
        lemma_each_field_of(world, values, wanted, 0);
        assert forall|k: int| 0 <= k < fields.len() implies has_field_of(
            world,
            values,
            (#[trigger] fields[k]).0,
            substituted(fields[k].1, subst),
        ) by {
            assert(wanted[k] == (fields[k].0, substituted(fields[k].1, subst)));
        }
    }
}

// ---------------------------------------------------------------------------
// Equal values
// ---------------------------------------------------------------------------

/// The function `=` returns whether its arguments are equal. Plain values are equal exactly
/// where they are the same; numbers with a fraction where they have the same bits.
pub proof fn lemma_plain_equal(run: Run, left: Val, right: Val, at: At)
    requires
        left is Unit || left is Str || left is Int || left is Bool || left is Float,
        !(right is Typed),
    ensures
        ({
            let same = match (left, right) {
                (Val::Float(a), Val::Float(b)) => a.bits == b.bits,
                _ => left == right,
            };
            &&& equals(run.world, left, right) <==> same
            &&& gives(run, Builtin::Equal, seq![left, right], at, Val::Bool(same))
        }),
{
    assert(bare(right) == right);
}

/// Lists and tuples are equal exactly where they are equal item by item, sets where they have
/// equal members, and records where they have equal values under the same names.
pub proof fn lemma_compound_equal(world: World, left: Val, right: Val)
    requires
        !(left is Typed),
        !(right is Typed),
    ensures
        left matches Val::List(a) ==> (equals(world, left, right) <==> (right matches Val::List(b)
            && a.len() == b.len() && forall|i: int|
            0 <= i < a.len() ==> equals(world, #[trigger] a[i], b[i]))),
        left matches Val::Product(a) ==> (equals(world, left, right) <==> (
        right matches Val::Product(b) && a.len() == b.len() && forall|i: int|
            0 <= i < a.len() ==> equals(world, #[trigger] a[i], b[i]))),
        left matches Val::SetOf(a) ==> (equals(world, left, right) <==> (right matches Val::SetOf(
            b,
        ) && a.len() == b.len() && forall|i: int|
            0 <= i < a.len() ==> holds_item(world, #[trigger] a[i], b))),
        left matches Val::MapOf(a) ==> (equals(world, left, right) <==> (right matches Val::MapOf(
            b,
        ) && a.len() == b.len() && forall|i: int|
            0 <= i < a.len() ==> holds_entry(world, #[trigger] a[i], b))),
        left matches Val::Fields(a) ==> (equals(world, left, right) <==> (
        right matches Val::Fields(b) && a.len() == b.len() && forall|i: int|
            0 <= i < a.len() ==> holds_field(world, (#[trigger] a[i]).0, a[i].1, b))),
{
    assert(bare(right) == right);
    match (left, right) {
        (Val::List(a), Val::List(b)) => {
            lemma_all_items(world, a, b, 0);
        },
        (Val::Product(a), Val::Product(b)) => {
            lemma_all_items(world, a, b, 0);
        },
        (Val::SetOf(a), Val::SetOf(b)) => {
            lemma_all_members(world, a, b, 0);
        },
        (Val::MapOf(a), Val::MapOf(b)) => {
            lemma_all_entries(world, a, b, 0);
        },
        (Val::Fields(a), Val::Fields(b)) => {
            lemma_all_fields(world, a, b, 0);
        },
        _ => {},
    }
}

} // verus!
