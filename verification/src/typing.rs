//! Laws of substitution and renaming, of fitting types, and of values that belong to types.

use crate::compat::{actual_binds, expected_binds, fit, fit_from, fit_parts, fits};
use crate::content::{typed_entries_val, typed_items_val, typed_positions_val, typed_val};
use crate::env::World;
use crate::json::Data;
use crate::resolve::TYPE_DEPTH_LIMIT;
use crate::scope::{canonical, numbered, numbered_from, place_of};
use crate::types::{Ty, substituted, substituted_all, vars, vars_from};
use crate::validity::{
    conforms_entries, conforms_items, conforms_positions, marked, marked_from, of_type,
};
use crate::value::{Val, bare};
use vstd::prelude::*;

verus! {

proof fn lemma_vars_from(types: Seq<Ty>, i: int, n: int)
    requires
        0 <= i <= n < types.len(),
    ensures
        vars(types[n]).subset_of(vars_from(types, i)),
    decreases n - i,
{
    if i < n {
        lemma_vars_from(types, i + 1, n);
    }
}

/// Replacing variables that do not occur in a type leaves the type as it is.
pub proof fn lemma_substituted_absent(ty: Ty, subst: Map<Seq<char>, Ty>)
    requires
        vars(ty).disjoint(subst.dom()),
    ensures
        substituted(ty, subst) == ty,
    decreases ty, 0int,
{
    match ty {
        Ty::Var(name) => {
            assert(vars(ty).contains(name));
        },
        Ty::Named(_, arguments) => {
            lemma_all_absent(arguments, subst);
        },
        Ty::Product(items) => {
            lemma_all_absent(items, subst);
        },
        Ty::List(item) => {
            lemma_substituted_absent(*item, subst);
        },
        Ty::SetOf(item) => {
            lemma_substituted_absent(*item, subst);
        },
        Ty::TypeTag(value) => {
            lemma_substituted_absent(*value, subst);
        },
        Ty::MapOf(key, value) => {
            lemma_substituted_absent(*key, subst);
            lemma_substituted_absent(*value, subst);
        },
        Ty::Function(params, result) => {
            lemma_all_absent(params, subst);
            lemma_substituted_absent(*result, subst);
        },
        _ => {},
    }
}

proof fn lemma_all_absent(types: Seq<Ty>, subst: Map<Seq<char>, Ty>)
    requires
        vars_from(types, 0).disjoint(subst.dom()),
    ensures
        substituted_all(types, subst) == types,
    decreases types, 1int,
{
    assert forall|i: int| 0 <= i < types.len() implies substituted_all(types, subst)[i]
        == types[i] by {
        lemma_vars_from(types, 0, i);
        lemma_substituted_absent(types[i], subst);
    }
    assert(substituted_all(types, subst) =~= types);
}

/// The empty substitution changes nothing.
pub proof fn lemma_substituted_empty(ty: Ty)
    ensures
        substituted(ty, Map::empty()) == ty,
{
    lemma_substituted_absent(ty, Map::empty());
}

// ---------------------------------------------------------------------------
// Renaming
// ---------------------------------------------------------------------------

/// A substitution takes each of some variables to a variable of its own.
pub open spec fn renames(subst: Map<Seq<char>, Ty>, names: Set<Seq<char>>) -> bool {
    &&& forall|name: Seq<char>| #[trigger]
        names.contains(name) ==> subst.dom().contains(name) && subst[name] is Var
    &&& forall|a: Seq<char>, b: Seq<char>|
        names.contains(a) && names.contains(b) && #[trigger] subst[a] == #[trigger] subst[b] ==> a
            == b
}

/// Names after a renaming.
pub open spec fn renamed(list: Seq<Seq<char>>, subst: Map<Seq<char>, Ty>) -> Seq<Seq<char>> {
    Seq::new(list.len(), |i: int| subst[list[i]]->Var_0)
}

/// Names that are all among others.
pub open spec fn all_within(list: Seq<Seq<char>>, names: Set<Seq<char>>) -> bool {
    forall|i: int| 0 <= i < list.len() ==> names.contains(#[trigger] list[i])
}

proof fn lemma_renamed_place(
    seen: Seq<Seq<char>>,
    subst: Map<Seq<char>, Ty>,
    names: Set<Seq<char>>,
    name: Seq<char>,
    i: int,
)
    requires
        renames(subst, names),
        all_within(seen, names),
        names.contains(name),
    ensures
        place_of(renamed(seen, subst), subst[name]->Var_0, i) == place_of(seen, name, i),
    decreases seen.len() - i,
{
    if 0 <= i < seen.len() {
        assert(names.contains(seen[i]));
        if subst[seen[i]]->Var_0 == subst[name]->Var_0 {
            assert(subst[seen[i]] == subst[name]);
        }
        lemma_renamed_place(seen, subst, names, name, i + 1);
    }
}

proof fn lemma_numbered_renamed(
    ty: Ty,
    seen: Seq<Seq<char>>,
    subst: Map<Seq<char>, Ty>,
    names: Set<Seq<char>>,
)
    requires
        renames(subst, names),
        all_within(seen, names),
        vars(ty).subset_of(names),
    ensures
        numbered(substituted(ty, subst), renamed(seen, subst)) == (
            numbered(ty, seen).0,
            renamed(numbered(ty, seen).1, subst),
        ),
        all_within(numbered(ty, seen).1, names),
    decreases ty, 0int, 0int,
{
    match ty {
        Ty::Var(name) => {
            assert(vars(ty).contains(name));
            assert(names.contains(name));
            lemma_renamed_place(seen, subst, names, name, 0);
            let after = numbered(ty, seen).1;
            assert(renamed(seen.push(name), subst) =~= renamed(seen, subst).push(
                subst[name]->Var_0,
            ));
            assert forall|i: int| 0 <= i < after.len() implies names.contains(
                #[trigger] after[i],
            ) by {
                if i < seen.len() {
                    assert(after[i] == seen[i]);
                }
            }
        },
        Ty::Named(_, arguments) => {
            lemma_numbered_all_renamed(arguments, seen, subst, names, 0);
        },
        Ty::Product(items) => {
            lemma_numbered_all_renamed(items, seen, subst, names, 0);
        },
        Ty::TypeTag(item) => {
            lemma_numbered_renamed(*item, seen, subst, names);
        },
        Ty::List(item) => {
            lemma_numbered_renamed(*item, seen, subst, names);
        },
        Ty::SetOf(item) => {
            lemma_numbered_renamed(*item, seen, subst, names);
        },
        Ty::MapOf(key, value) => {
            assert(vars(*key).subset_of(vars(ty)));
            assert(vars(*value).subset_of(vars(ty)));
            lemma_numbered_renamed(*key, seen, subst, names);
            lemma_numbered_renamed(*value, numbered(*key, seen).1, subst, names);
        },
        Ty::Function(params, result) => {
            assert(vars_from(params, 0).subset_of(vars(ty)));
            assert(vars(*result).subset_of(vars(ty)));
            lemma_numbered_all_renamed(params, seen, subst, names, 0);
            lemma_numbered_renamed(*result, numbered_from(params, seen, 0).1, subst, names);
        },
        _ => {},
    }
}

proof fn lemma_numbered_all_renamed(
    types: Seq<Ty>,
    seen: Seq<Seq<char>>,
    subst: Map<Seq<char>, Ty>,
    names: Set<Seq<char>>,
    i: int,
)
    requires
        renames(subst, names),
        all_within(seen, names),
        vars_from(types, i).subset_of(names),
        0 <= i,
    ensures
        numbered_from(substituted_all(types, subst), renamed(seen, subst), i) == (
            numbered_from(types, seen, i).0,
            renamed(numbered_from(types, seen, i).1, subst),
        ),
        all_within(numbered_from(types, seen, i).1, names),
    decreases types, 1int, types.len() - i,
{
    if i < types.len() {
        assert(vars(types[i]).subset_of(vars_from(types, i)));
        assert(vars_from(types, i + 1).subset_of(vars_from(types, i)));
        lemma_numbered_renamed(types[i], seen, subst, names);
        let between = numbered(types[i], seen).1;
        lemma_numbered_all_renamed(types, between, subst, names, i + 1);
    }
}

/// Renaming the variables of a type one for one leaves its canonical text as it is.
pub proof fn lemma_canonical_renamed(ty: Ty, subst: Map<Seq<char>, Ty>)
    requires
        renames(subst, vars(ty)),
    ensures
        canonical(substituted(ty, subst)) == canonical(ty),
{
    lemma_numbered_renamed(ty, Seq::empty(), subst, vars(ty));
    assert(renamed(Seq::empty(), subst) =~= Seq::<Seq<char>>::empty());
}

// ---------------------------------------------------------------------------
// Fitting
// ---------------------------------------------------------------------------

/// A type fits where it is expected itself, and nothing is learnt from that.
pub proof fn lemma_fit_reflexive(
    world: World,
    ty: Ty,
    subst: Map<Seq<char>, Ty>,
    bindable: Option<Set<Seq<char>>>,
    fuel: nat,
)
    ensures
        fit(world, ty, ty, subst, bindable, fuel) == fits(subst),
{
}

/// One substitution holds all that another one holds.
pub open spec fn extends(later: Map<Seq<char>, Ty>, earlier: Map<Seq<char>, Ty>) -> bool {
    forall|name: Seq<char>| #[trigger]
        earlier.dom().contains(name) ==> later.dom().contains(name) && later[name] == earlier[name]
}

/// Fitting types never changes what a variable already stands for, whether it succeeds or
/// fails.
pub proof fn lemma_fit_extends(
    world: World,
    actual: Ty,
    expected: Ty,
    subst: Map<Seq<char>, Ty>,
    bindable: Option<Set<Seq<char>>>,
    fuel: nat,
)
    ensures
        extends(fit(world, actual, expected, subst, bindable, fuel).subst, subst),
    decreases fuel, 1int,
{
    if actual == expected || fuel == 0 {
    } else if expected is Var && expected_binds(bindable, expected->Var_0) {
        let name = expected->Var_0;
        if subst.dom().contains(name) {
            lemma_fit_extends(world, actual, subst[name], subst, bindable, (fuel - 1) as nat);
        }
    } else if actual is Var && actual_binds(bindable, actual->Var_0) {
        let name = actual->Var_0;
        if subst.dom().contains(name) {
            lemma_fit_extends(world, subst[name], expected, subst, bindable, (fuel - 1) as nat);
        }
    } else {
        lemma_parts_extend(world, actual, expected, subst, bindable, fuel);
    }
}

proof fn lemma_parts_extend(
    world: World,
    actual: Ty,
    expected: Ty,
    subst: Map<Seq<char>, Ty>,
    bindable: Option<Set<Seq<char>>>,
    fuel: nat,
)
    requires
        fuel > 0,
    ensures
        extends(fit_parts(world, actual, expected, subst, bindable, fuel).subst, subst),
    decreases fuel, 0int,
{
    let less = (fuel - 1) as nat;
    match (expected, actual) {
        (Ty::Named(_, wanted), Ty::Named(_, given)) => {
            lemma_each_extends(world, given, wanted, 0, subst, bindable, less);
        },
        (Ty::TypeTag(wanted), Ty::TypeTag(given)) => {
            lemma_fit_extends(world, *given, *wanted, subst, bindable, less);
        },
        (Ty::List(wanted), Ty::List(given)) => {
            lemma_fit_extends(world, *given, *wanted, subst, bindable, less);
        },
        (Ty::SetOf(wanted), Ty::SetOf(given)) => {
            lemma_fit_extends(world, *given, *wanted, subst, bindable, less);
        },
        (Ty::MapOf(wanted_key, wanted), Ty::MapOf(given_key, given)) => {
            let keys = fit(world, *given_key, *wanted_key, subst, bindable, less);
            lemma_fit_extends(world, *given_key, *wanted_key, subst, bindable, less);
            lemma_fit_extends(world, *given, *wanted, keys.subst, bindable, less);
        },
        (Ty::Product(wanted), Ty::Product(given)) => {
            lemma_each_extends(world, given, wanted, 0, subst, bindable, less);
        },
        (Ty::Function(wanted, wanted_result), Ty::Function(given, given_result)) => {
            let params = fit_from(world, given, wanted, 0, subst, bindable, less);
            lemma_each_extends(world, given, wanted, 0, subst, bindable, less);
            lemma_fit_extends(world, *given_result, *wanted_result, params.subst, bindable, less);
        },
        _ => {},
    }
}

proof fn lemma_each_extends(
    world: World,
    actuals: Seq<Ty>,
    expecteds: Seq<Ty>,
    i: int,
    subst: Map<Seq<char>, Ty>,
    bindable: Option<Set<Seq<char>>>,
    fuel: nat,
)
    ensures
        extends(fit_from(world, actuals, expecteds, i, subst, bindable, fuel).subst, subst),
    decreases fuel, 2int, actuals.len() - i,
{
    if 0 <= i < actuals.len() && i < expecteds.len() {
        let first = fit(world, actuals[i], expecteds[i], subst, bindable, fuel);
        lemma_fit_extends(world, actuals[i], expecteds[i], subst, bindable, fuel);
        lemma_each_extends(world, actuals, expecteds, i + 1, first.subst, bindable, fuel);
    }
}

// ---------------------------------------------------------------------------
// Values of types
// ---------------------------------------------------------------------------

/// Each of some values, from index `i` on, belongs to the type at its position.
proof fn lemma_positions_conform(world: World, items: Seq<Val>, types: Seq<Ty>, i: int)
    requires
        0 <= i,
        items.len() == types.len(),
        forall|k: int|
            0 <= k < items.len() ==> of_type(world, #[trigger] items[k], types[k]),
    ensures
        conforms_positions(world, items, types, i),
    decreases items.len() - i,
{
    if i < items.len() {
        assert(of_type(world, items[i], types[i]));
        lemma_positions_conform(world, items, types, i + 1);
    }
}

proof fn lemma_items_conform(world: World, items: Seq<Val>, ty: Ty, i: int)
    requires
        0 <= i,
        forall|k: int| 0 <= k < items.len() ==> of_type(world, #[trigger] items[k], ty),
    ensures
        conforms_items(world, items, ty, i),
    decreases items.len() - i,
{
    if i < items.len() {
        assert(of_type(world, items[i], ty));
        lemma_items_conform(world, items, ty, i + 1);
    }
}

proof fn lemma_entries_conform(
    world: World,
    entries: Seq<(Val, Val)>,
    key: Ty,
    item: Ty,
    i: int,
)
    requires
        0 <= i,
        forall|k: int|
            0 <= k < entries.len() ==> of_type(world, (#[trigger] entries[k]).0, key) && of_type(
                world,
                entries[k].1,
                item,
            ),
    ensures
        conforms_entries(world, entries, key, item, i),
    decreases entries.len() - i,
{
    if i < entries.len() {
        assert(of_type(world, entries[i].0, key));
        lemma_entries_conform(world, entries, key, item, i + 1);
    }
}

/// A value that is marked with a type belongs to it.
pub proof fn lemma_marked_conforms(world: World, value: Val, ty: Ty)
    ensures
        marked(world, value, ty) matches Ok(result) ==> of_type(world, result, ty),
    decreases ty, 0int,
{
    if let Ty::Product(components) = ty {
        let values = match bare(value) {
            Val::List(values) => values,
            Val::Product(values) => values,
            _ => Seq::empty(),
        };
        if values.len() == components.len() {
            lemma_marked_from(world, values, components, 0);
            if let Ok(positions) = marked_from(world, values, components, 0) {
                lemma_positions_conform(world, positions, components, 0);
            }
        }
    }
}

proof fn lemma_marked_from(world: World, values: Seq<Val>, components: Seq<Ty>, i: int)
    requires
        values.len() == components.len(),
        0 <= i <= components.len(),
    ensures
        marked_from(world, values, components, i) matches Ok(positions) ==> {
            &&& positions.len() == components.len() - i
            &&& forall|k: int|
                0 <= k < positions.len() ==> of_type(
                    world,
                    #[trigger] positions[k],
                    components[i + k],
                )
        },
    decreases components, 0int, components.len() - i,
{
    if i < components.len() {
        lemma_marked_conforms(world, values[i], components[i]);
        lemma_marked_from(world, values, components, i + 1);
        if let Ok(positions) = marked_from(world, values, components, i) {
            let rest = marked_from(world, values, components, i + 1)->Ok_0;
            assert forall|k: int| 0 <= k < positions.len() implies of_type(
                world,
                #[trigger] positions[k],
                components[i + k],
            ) by {
                if k > 0 {
                    assert(positions[k] == rest[k - 1]);
                    assert(i + 1 + (k - 1) == i + k);
                }
            }
        }
    }
}

/// The maps in a type have texts as their keys, as the members of a document have.
pub open spec fn text_keys(ty: Ty) -> bool
    decreases ty,
{
    match ty {
        Ty::List(item) => text_keys(*item),
        Ty::MapOf(key, item) => *key == Ty::String && text_keys(*item),
        Ty::Product(items) => forall|i: int| 0 <= i < items.len() ==> text_keys(#[trigger] items[i]),
        _ => true,
    }
}

/// What a document is projected to belongs to the type that it was projected onto.
pub proof fn lemma_projected_conforms(world: World, data: Data, ty: Ty, fuel: nat)
    requires
        text_keys(ty),
    ensures
        typed_val(world, true, data, ty, fuel) matches Ok(value) ==> of_type(world, value, ty),
    decreases data, fuel, 0int,
{
    match ty {
        Ty::List(item) => {
            if let Data::Array(items) = data {
                lemma_projected_items(world, items, *item, 0);
                if let Ok(values) = typed_items_val(world, true, items, *item, 0) {
                    lemma_items_conform(world, values, *item, 0);
                }
            }
        },
        Ty::MapOf(key, item) => {
            if let Data::Object(members) = data {
                lemma_projected_entries(world, members, *item, 0);
                if let Ok(entries) = typed_entries_val(world, true, members, *item, 0) {
                    lemma_entries_conform(world, entries, *key, *item, 0);
                }
            }
        },
        Ty::Product(components) => {
            if let Data::Array(items) = data {
                if items.len() == components.len() {
                    lemma_projected_positions(world, items, components, 0);
                    if let Ok(values) = typed_positions_val(world, true, items, components, 0) {
                        lemma_positions_conform(world, values, components, 0);
                    }
                }
            }
        },
        _ => {},
    }
}

proof fn lemma_projected_items(world: World, items: Seq<Data>, ty: Ty, i: int)
    requires
        text_keys(ty),
        0 <= i <= items.len(),
    ensures
        typed_items_val(world, true, items, ty, i) matches Ok(values) ==> forall|k: int|
            0 <= k < values.len() ==> of_type(world, #[trigger] values[k], ty),
    decreases items, 0nat, items.len() - i,
{
    if i < items.len() {
        lemma_projected_conforms(world, items[i], ty, TYPE_DEPTH_LIMIT as nat);
        lemma_projected_items(world, items, ty, i + 1);
        if let Ok(values) = typed_items_val(world, true, items, ty, i) {
            let rest = typed_items_val(world, true, items, ty, i + 1)->Ok_0;
            assert forall|k: int| 0 <= k < values.len() implies of_type(
                world,
                #[trigger] values[k],
                ty,
            ) by {
                if k > 0 {
                    assert(values[k] == rest[k - 1]);
                }
            }
        }
    }
}

proof fn lemma_projected_positions(world: World, items: Seq<Data>, types: Seq<Ty>, i: int)
    requires
        items.len() == types.len(),
        forall|i: int| 0 <= i < types.len() ==> text_keys(#[trigger] types[i]),
        0 <= i <= items.len(),
    ensures
        typed_positions_val(world, true, items, types, i) matches Ok(values) ==> {
            &&& values.len() == items.len() - i
            &&& forall|k: int|
                0 <= k < values.len() ==> of_type(world, #[trigger] values[k], types[i + k])
        },
    decreases items, 0nat, items.len() - i,
{
    if i < items.len() {
        lemma_projected_conforms(world, items[i], types[i], TYPE_DEPTH_LIMIT as nat);
        lemma_projected_positions(world, items, types, i + 1);
        if let Ok(values) = typed_positions_val(world, true, items, types, i) {
            let rest = typed_positions_val(world, true, items, types, i + 1)->Ok_0;
            assert forall|k: int| 0 <= k < values.len() implies of_type(
                world,
                #[trigger] values[k],
                types[i + k],
            ) by {
                if k > 0 {
                    assert(values[k] == rest[k - 1]);
                    assert(i + 1 + (k - 1) == i + k);
                }
            }
        }
    }
}

proof fn lemma_projected_entries(
    world: World,
    members: Seq<(Seq<char>, Data)>,
    ty: Ty,
    i: int,
)
    requires
        text_keys(ty),
        0 <= i <= members.len(),
    ensures
        typed_entries_val(world, true, members, ty, i) matches Ok(entries) ==> forall|k: int|
            0 <= k < entries.len() ==> of_type(world, (#[trigger] entries[k]).0, Ty::String)
                && of_type(world, entries[k].1, ty),
    decreases members, 0nat, members.len() - i,
{
    if i < members.len() {
        lemma_projected_conforms(world, members[i].1, ty, TYPE_DEPTH_LIMIT as nat);
        lemma_projected_entries(world, members, ty, i + 1);
        if let Ok(entries) = typed_entries_val(world, true, members, ty, i) {
            let rest = typed_entries_val(world, true, members, ty, i + 1)->Ok_0;
            assert forall|k: int| 0 <= k < entries.len() implies of_type(
                world,
                (#[trigger] entries[k]).0,
                Ty::String,
            ) && of_type(world, entries[k].1, ty) by {
                if k > 0 {
                    assert(entries[k] == rest[k - 1]);
                } else {
                    assert(entries[0].0 == Val::Str(members[i].0));
                }
            }
        }
    }
}

} // verus!
