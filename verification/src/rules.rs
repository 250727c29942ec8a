//! The typing rules of the functions that the language provides.

use crate::builtins::{
    Builtin, builtin_name, list, map_type, open_var, set_type, ty_list, ty_map, ty_set, variable,
};
use crate::compat::{
    Step, check_compatible, equality_required, field_type, fits_alone, named_field_types,
    record_fields, require_equality_admissible, selected, stepped,
};
use crate::env::{Env, World};
use crate::error::{Failure, MagError, verdict};
use crate::text::{cat2, cat3, cat4, cat5, count_text, debug_option, decimal, option_shown};
use crate::types::{MagType, Ty, ty_text, tys};
use vstd::prelude::*;

verus! {

/// A state of checking and the type that it came to.
pub ghost struct Typing {
    pub world: World,
    pub result: Result<Ty, Failure>,
}

pub open spec fn typed(world: World, result: Result<MagType, MagError>) -> Typing {
    Typing {
        world,
        result: match result {
            Ok(ty) => Ok(ty@),
            Err(error) => Err(error@),
        },
    }
}

// ---------------------------------------------------------------------------
// How many arguments
// ---------------------------------------------------------------------------

pub open spec fn takes_exactly(builtin: Builtin) -> nat {
    match builtin {
        Builtin::MapInsert | Builtin::MapPut | Builtin::MapGetOr | Builtin::Assoc
        | Builtin::PackedPathStrings | Builtin::PackedFieldConforms | Builtin::Replace
        | Builtin::Fold => 3,
        Builtin::MapGet | Builtin::MapContains | Builtin::MapUnionLeft | Builtin::SetInsert
        | Builtin::SetContains | Builtin::Get | Builtin::Equal | Builtin::IntMul | Builtin::IntGt
        | Builtin::HostInput | Builtin::AdtConstructorPayload | Builtin::ValueTypeId
        | Builtin::ValueTypeEvidence | Builtin::Or | Builtin::Conforms
        | Builtin::PackedRecordHasOnlyKey | Builtin::PackedRecordHasOnlyKeys
        | Builtin::DescriptorAccepts | Builtin::DescriptorAcceptsValue
        | Builtin::DescriptorInputCoveredBy | Builtin::DescriptorInputAssignments
        | Builtin::DescriptorOutputCoveredBy | Builtin::Concat | Builtin::RemoveAt
        | Builtin::MapList | Builtin::Filter | Builtin::FlatMap | Builtin::SortBy
        | Builtin::GroupBy | Builtin::IndexedMap => 2,
        _ => 1,
    }
}

/// How many arguments are typed, or the reason why their number does not fit.
pub open spec fn typed_arguments(builtin: Builtin, count: nat) -> Result<nat, Failure> {
    match builtin {
        Builtin::Str => Ok(0),
        Builtin::Require => Err(Failure::Type("no type rule for builtin "@ + builtin_name(builtin))),
        Builtin::MapEmpty | Builtin::Read => if 1 <= count <= 2 {
            Ok(count)
        } else {
            Err(
                Failure::Type(
                    builtin_name(builtin) + " expects 1-2 arguments, got "@ + decimal(count),
                ),
            )
        },
        _ => if count != takes_exactly(builtin) {
            Err(
                Failure::Type(
                    builtin_name(builtin) + " expects "@ + decimal(takes_exactly(builtin))
                        + " arguments, got "@ + decimal(count),
                ),
            )
        } else if builtin is Artifact {
            Ok(0)
        } else {
            Ok(count)
        },
    }
}

pub(crate) fn exact_count(builtin: Builtin) -> (count: usize)
    ensures
        count == takes_exactly(builtin),
{
    match builtin {
        Builtin::MapInsert | Builtin::MapPut | Builtin::MapGetOr | Builtin::Assoc
        | Builtin::PackedPathStrings | Builtin::PackedFieldConforms | Builtin::Replace
        | Builtin::Fold => 3,
        Builtin::MapGet | Builtin::MapContains | Builtin::MapUnionLeft | Builtin::SetInsert
        | Builtin::SetContains | Builtin::Get | Builtin::Equal | Builtin::IntMul | Builtin::IntGt
        | Builtin::HostInput | Builtin::AdtConstructorPayload | Builtin::ValueTypeId
        | Builtin::ValueTypeEvidence | Builtin::Or | Builtin::Conforms
        | Builtin::PackedRecordHasOnlyKey | Builtin::PackedRecordHasOnlyKeys
        | Builtin::DescriptorAccepts | Builtin::DescriptorAcceptsValue
        | Builtin::DescriptorInputCoveredBy | Builtin::DescriptorInputAssignments
        | Builtin::DescriptorOutputCoveredBy | Builtin::Concat | Builtin::RemoveAt
        | Builtin::MapList | Builtin::Filter | Builtin::FlatMap | Builtin::SortBy
        | Builtin::GroupBy | Builtin::IndexedMap => 2,
        _ => 1,
    }
}

/// Checks the number of arguments of a function that the language provides.
pub fn builtin_arity(builtin: Builtin, count: usize) -> (result: Result<usize, MagError>)
    ensures
        match (result, typed_arguments(builtin, count as nat)) {
            (Ok(typed), Ok(view)) => typed == view,
            (Err(error), Err(failure)) => error@ == failure,
            _ => false,
        },
{
    match builtin {
        Builtin::Str => Ok(0),
        Builtin::Require => Err(
            MagError::Type(cat2("no type rule for builtin ", builtin.name())),
        ),
        Builtin::MapEmpty | Builtin::Read => if 1 <= count && count <= 2 {
            Ok(count)
        } else {
            let got = count_text(count);
            Err(MagError::Type(cat3(builtin.name(), " expects 1-2 arguments, got ", got.as_str())))
        },
        _ => {
            let expected = exact_count(builtin);
            if count != expected {
                let expected = count_text(expected);
                let got = count_text(count);
                return Err(
                    MagError::Type(
                        cat5(
                            builtin.name(),
                            " expects ",
                            expected.as_str(),
                            " arguments, got ",
                            got.as_str(),
                        ),
                    ),
                );
            }
            match builtin {
                Builtin::Artifact => Ok(0),
                _ => Ok(count),
            }
        },
    }
}

// ---------------------------------------------------------------------------
// Arguments of a fixed type
// ---------------------------------------------------------------------------

/// The type that an argument has to have whatever the other ones are.
pub open spec fn fixed_argument(builtin: Builtin, i: int) -> Option<Ty> {
    match builtin {
        Builtin::Not => Some(Ty::Bool),
        Builtin::IntMul | Builtin::IntGt => Some(Ty::Int),
        Builtin::Replace | Builtin::StripMargin | Builtin::ReadJson => Some(Ty::String),
        Builtin::HostInput | Builtin::Read => if i == 0 {
            Some(Ty::String)
        } else {
            None
        },
        Builtin::Get | Builtin::Assoc => if i == 1 {
            Some(Ty::String)
        } else {
            None
        },
        Builtin::RemoveAt => if i == 1 {
            Some(Ty::Int)
        } else {
            None
        },
        Builtin::TypeConstructor | Builtin::TypeArguments | Builtin::TypeComponents
        | Builtin::ListType | Builtin::DescriptorSchema | Builtin::TypeId
        | Builtin::DescriptorAccepts | Builtin::DescriptorAcceptsValue => Some(Ty::TypeDescriptor),
        Builtin::AdtConstructorPayload => if i == 0 {
            Some(Ty::TypeDescriptor)
        } else {
            Some(Ty::String)
        },
        Builtin::ValueTypeEvidence | Builtin::Conforms => if i == 1 {
            Some(Ty::TypeDescriptor)
        } else {
            None
        },
        Builtin::PackedEmptyRecord => Some(Ty::PackedValue),
        Builtin::PackedPathStrings => if i == 0 {
            Some(Ty::PackedValue)
        } else if i == 1 {
            Some(ty_list(Ty::String))
        } else {
            Some(Ty::Bool)
        },
        Builtin::PackedRecordHasOnlyKey => if i == 0 {
            Some(Ty::PackedValue)
        } else {
            Some(Ty::String)
        },
        Builtin::PackedRecordHasOnlyKeys => if i == 0 {
            Some(Ty::PackedValue)
        } else {
            Some(ty_list(Ty::String))
        },
        Builtin::PackedFieldConforms => if i == 0 {
            Some(Ty::PackedValue)
        } else if i == 1 {
            Some(Ty::String)
        } else {
            Some(Ty::TypeDescriptor)
        },
        Builtin::DescriptorInputCoveredBy | Builtin::DescriptorInputAssignments
        | Builtin::DescriptorOutputCoveredBy => if i == 0 {
            Some(Ty::TypeDescriptor)
        } else {
            Some(ty_list(Ty::TypeDescriptor))
        },
        Builtin::DescriptorTable => Some(ty_list(Ty::TypeDescriptor)),
        _ => None,
    }
}

fn fixed_argument_type(builtin: Builtin, i: usize) -> (ty: Option<MagType>)
    ensures
        match (ty, fixed_argument(builtin, i as int)) {
            (Some(ty), Some(view)) => ty@ == view,
            (None, None) => true,
            _ => false,
        },
{
    match builtin {
        Builtin::Not => Some(MagType::Bool),
        Builtin::IntMul | Builtin::IntGt => Some(MagType::Int),
        Builtin::Replace | Builtin::StripMargin | Builtin::ReadJson => Some(MagType::String),
        Builtin::HostInput | Builtin::Read => if i == 0 {
            Some(MagType::String)
        } else {
            None
        },
        Builtin::Get | Builtin::Assoc => if i == 1 {
            Some(MagType::String)
        } else {
            None
        },
        Builtin::RemoveAt => if i == 1 {
            Some(MagType::Int)
        } else {
            None
        },
        Builtin::TypeConstructor | Builtin::TypeArguments | Builtin::TypeComponents
        | Builtin::ListType | Builtin::DescriptorSchema | Builtin::TypeId
        | Builtin::DescriptorAccepts | Builtin::DescriptorAcceptsValue => Some(
            MagType::TypeDescriptor,
        ),
        Builtin::AdtConstructorPayload => if i == 0 {
            Some(MagType::TypeDescriptor)
        } else {
            Some(MagType::String)
        },
        Builtin::ValueTypeEvidence | Builtin::Conforms => if i == 1 {
            Some(MagType::TypeDescriptor)
        } else {
            None
        },
        Builtin::PackedEmptyRecord => Some(MagType::PackedValue),
        Builtin::PackedPathStrings => if i == 0 {
            Some(MagType::PackedValue)
        } else if i == 1 {
            Some(list(MagType::String))
        } else {
            Some(MagType::Bool)
        },
        Builtin::PackedRecordHasOnlyKey => if i == 0 {
            Some(MagType::PackedValue)
        } else {
            Some(MagType::String)
        },
        Builtin::PackedRecordHasOnlyKeys => if i == 0 {
            Some(MagType::PackedValue)
        } else {
            Some(list(MagType::String))
        },
        Builtin::PackedFieldConforms => if i == 0 {
            Some(MagType::PackedValue)
        } else if i == 1 {
            Some(MagType::String)
        } else {
            Some(MagType::TypeDescriptor)
        },
        Builtin::DescriptorInputCoveredBy | Builtin::DescriptorInputAssignments
        | Builtin::DescriptorOutputCoveredBy => if i == 0 {
            Some(MagType::TypeDescriptor)
        } else {
            Some(list(MagType::TypeDescriptor))
        },
        Builtin::DescriptorTable => Some(list(MagType::TypeDescriptor)),
        _ => None,
    }
}

// ---------------------------------------------------------------------------
// Arguments that depend on each other
// ---------------------------------------------------------------------------

/// The verdict on a type where another one is expected.
pub open spec fn fitted(world: World, actual: Ty, expected: Ty) -> Result<(), Failure> {
    match fits_alone(world, actual, expected) {
        Ok(_) => Ok(()),
        Err(message) => Err(Failure::Type(message)),
    }
}

pub open spec fn unchanged(world: World, result: Result<(), Failure>) -> Step {
    Step { world, result }
}

pub open spec fn refused(world: World, message: Seq<char>) -> Step {
    Step { world, result: Err(Failure::Type(message)) }
}

pub open spec fn expects(builtin: Builtin, what: Seq<char>, got: Ty) -> Seq<char> {
    builtin_name(builtin) + " expects "@ + what + ", got "@ + ty_text(got)
}

/// The rules on maps and sets.
pub open spec fn container_step(world: World, builtin: Builtin, i: int, types: Seq<Ty>) -> Step {
    match builtin {
        Builtin::MapEmpty => match types[i] {
            Ty::TypeTag(inner) => if i == 0 {
                equality_required(world, *inner)
            } else {
                unchanged(world, Ok(()))
            },
            _ => refused(
                world,
                expects(
                    builtin,
                    if i == 0 {
                        "TypeTag keys"@
                    } else {
                        "TypeTag values"@
                    },
                    types[i],
                ),
            ),
        },
        Builtin::MapInsert | Builtin::MapPut | Builtin::MapGetOr | Builtin::MapGet
        | Builtin::MapContains => match types[0] {
            Ty::MapOf(key, value) => if i == 0 {
                equality_required(world, *key)
            } else if i == 1 {
                unchanged(world, fitted(world, types[1], *key))
            } else {
                unchanged(world, fitted(world, types[2], *value))
            },
            _ => refused(world, expects(builtin, "Map"@, types[0])),
        },
        Builtin::MapUnionLeft => if i == 0 {
            unchanged(world, Ok(()))
        } else {
            match fitted(world, types[1], types[0]) {
                Err(failure) => unchanged(world, Err(failure)),
                Ok(_) => match types[0] {
                    Ty::MapOf(key, _) => equality_required(world, *key),
                    _ => refused(world, expects(builtin, "Map"@, types[0])),
                },
            }
        },
        Builtin::MapCount => match types[0] {
            Ty::MapOf(key, _) => equality_required(world, *key),
            _ => refused(world, expects(builtin, "Map"@, types[0])),
        },
        Builtin::SetEmpty => match types[0] {
            Ty::TypeTag(item) => equality_required(world, *item),
            _ => refused(world, expects(builtin, "TypeTag"@, types[0])),
        },
        Builtin::SetInsert | Builtin::SetContains | Builtin::SetCount => match types[0] {
            Ty::SetOf(item) => if i == 0 {
                equality_required(world, *item)
            } else {
                unchanged(world, fitted(world, types[1], *item))
            },
            _ => refused(world, expects(builtin, "Set"@, types[0])),
        },
        _ => unchanged(world, Ok(())),
    }
}

pub(crate) fn refuse(builtin: Builtin, what: &str, got: &MagType) -> (error: MagError)
    ensures
        error@ == Failure::Type(expects(builtin, what@, got@)),
{
    let got = got.text();
    MagError::Type(cat5(builtin.name(), " expects ", what, ", got ", got.as_str()))
}

fn check_container(env: &mut Env, builtin: Builtin, i: usize, types: &Vec<MagType>) -> (result:
    Result<(), MagError>)
    requires
        types@.len() == i + 1,
        i < 3,
    ensures
        stepped(final(env)@, result) == container_step(old(env)@, builtin, i as int, tys(types@)),
{
    let ghost all = tys(types@);
    assert(all[0] == types@[0]@);
    assert(all[i as int] == types@[i as int]@);
    match builtin {
        Builtin::MapEmpty => match &types[i] {
            MagType::TypeTag(inner) => if i == 0 {
                require_equality_admissible(env, inner)
            } else {
                Ok(())
            },
            _ => Err(
                refuse(
                    builtin,
                    if i == 0 {
                        "TypeTag keys"
                    } else {
                        "TypeTag values"
                    },
                    &types[i],
                ),
            ),
        },
        Builtin::MapInsert | Builtin::MapPut | Builtin::MapGetOr | Builtin::MapGet
        | Builtin::MapContains => match &types[0] {
            MagType::MapOf(key, value) => if i == 0 {
                require_equality_admissible(env, key)
            } else if i == 1 {
                check_compatible(env, &types[1], key)
            } else {
                check_compatible(env, &types[2], value)
            },
            _ => Err(refuse(builtin, "Map", &types[0])),
        },
        Builtin::MapUnionLeft => if i == 0 {
            Ok(())
        } else {
            match check_compatible(env, &types[1], &types[0]) {
                Err(error) => Err(error),
                Ok(_) => match &types[0] {
                    MagType::MapOf(key, _) => require_equality_admissible(env, key),
                    _ => Err(refuse(builtin, "Map", &types[0])),
                },
            }
        },
        Builtin::MapCount => match &types[0] {
            MagType::MapOf(key, _) => require_equality_admissible(env, key),
            _ => Err(refuse(builtin, "Map", &types[0])),
        },
        Builtin::SetEmpty => match &types[0] {
            MagType::TypeTag(item) => require_equality_admissible(env, item),
            _ => Err(refuse(builtin, "TypeTag", &types[0])),
        },
        Builtin::SetInsert | Builtin::SetContains | Builtin::SetCount => match &types[0] {
            MagType::SetOf(item) => if i == 0 {
                require_equality_admissible(env, item)
            } else {
                check_compatible(env, &types[1], item)
            },
            _ => Err(refuse(builtin, "Set", &types[0])),
        },
        _ => Ok(()),
    }
}

/// The rules on records, values and evidence of types.
pub open spec fn value_step(
    world: World,
    builtin: Builtin,
    i: int,
    types: Seq<Ty>,
    key: Option<Seq<char>>,
) -> Step {
    match builtin {
        Builtin::Get => if i == 0 {
            match types[0] {
                Ty::HostInputs | Ty::MapOf(_, _) => refused(
                    world,
                    expects(builtin, "a record"@, types[0]),
                ),
                _ => unchanged(world, Ok(())),
            }
        } else {
            match selected(world, types[0], key) {
                Some(_) => unchanged(world, Ok(())),
                None => refused(
                    world,
                    "cannot get "@ + option_shown(key) + " from "@ + ty_text(types[0]),
                ),
            }
        },
        Builtin::Assoc => if i == 0 {
            match types[0] {
                Ty::MapOf(_, _) => refused(world, "assoc expects a record"@),
                _ => unchanged(world, Ok(())),
            }
        } else {
            match selected(world, types[0], key) {
                Some(expected) => if i == 1 {
                    unchanged(world, Ok(()))
                } else {
                    unchanged(world, fitted(world, types[2], expected))
                },
                None => refused(
                    world,
                    "cannot assoc "@ + option_shown(key) + " into "@ + ty_text(types[0]),
                ),
            }
        },
        Builtin::Count => match types[0] {
            Ty::List(_) | Ty::String => unchanged(world, Ok(())),
            _ => if record_fields(world, types[0]) is Some {
                unchanged(world, Ok(()))
            } else {
                refused(world, expects(builtin, "a collection"@, types[0]))
            },
        },
        Builtin::Keys => if record_fields(world, types[0]) is Some {
            unchanged(world, Ok(()))
        } else {
            refused(world, expects(builtin, "a named value"@, types[0]))
        },
        Builtin::Equal => if i == 0 {
            unchanged(world, Ok(()))
        } else {
            match fitted(world, types[0], types[1]) {
                Err(failure) => unchanged(world, Err(failure)),
                Ok(_) => {
                    let left = equality_required(world, types[0]);
                    match left.result {
                        Err(_) => left,
                        Ok(_) => equality_required(left.world, types[1]),
                    }
                },
            }
        },
        Builtin::Or => if i == 0 {
            unchanged(world, Ok(()))
        } else {
            match fitted(world, types[0], types[1]) {
                Ok(_) => unchanged(world, Ok(())),
                Err(_) => refused(
                    world,
                    "or operands must return one compatible type, got "@ + ty_text(types[0])
                        + " and "@ + ty_text(types[1]),
                ),
            }
        },
        Builtin::Concat => if i == 0 {
            unchanged(world, Ok(()))
        } else {
            unchanged(world, fitted(world, types[0], types[1]))
        },
        Builtin::RemoveAt => if i == 0 || types[0] is List {
            unchanged(world, Ok(()))
        } else {
            refused(world, expects(builtin, "List"@, types[0]))
        },
        Builtin::First => if types[0] is List {
            unchanged(world, Ok(()))
        } else {
            refused(world, expects(builtin, "List"@, types[0]))
        },
        Builtin::FunctionName => if types[0] is Function {
            unchanged(world, Ok(()))
        } else {
            refused(world, expects(builtin, "a function"@, types[0]))
        },
        Builtin::TypeEvidence | Builtin::TypeSchema => if types[0] is TypeTag {
            unchanged(world, Ok(()))
        } else {
            refused(world, expects(builtin, "TypeTag"@, types[0]))
        },
        Builtin::HostInput => if i == 0 || types[1] is TypeTag {
            unchanged(world, Ok(()))
        } else {
            refused(world, expects(builtin, "TypeTag"@, types[1]))
        },
        Builtin::ValueTypeId => if i == 0 {
            unchanged(world, Ok(()))
        } else {
            match types[1] {
                Ty::TypeTag(expected) => unchanged(world, fitted(world, *expected, types[0])),
                Ty::TypeDescriptor => unchanged(world, Ok(())),
                _ => refused(
                    world,
                    "value_type_id expects TypeTag or TypeDescriptor evidence"@,
                ),
            }
        },
        _ => unchanged(world, Ok(())),
    }
}

fn check_value(
    env: &mut Env,
    builtin: Builtin,
    i: usize,
    types: &Vec<MagType>,
    key: Option<&str>,
) -> (result: Result<(), MagError>)
    requires
        types@.len() == i + 1,
        i < 3,
    ensures
        stepped(final(env)@, result) == value_step(
            old(env)@,
            builtin,
            i as int,
            tys(types@),
            match key {
                Some(key) => Some(key@),
                None => None,
            },
        ),
{
    let ghost all = tys(types@);
    assert(all[0] == types@[0]@);
    assert(all[i as int] == types@[i as int]@);
    match builtin {
        Builtin::Get => if i == 0 {
            match &types[0] {
                MagType::HostInputs | MagType::MapOf(_, _) => Err(
                    refuse(builtin, "a record", &types[0]),
                ),
                _ => Ok(()),
            }
        } else {
            match field_type(env, &types[0], key) {
                Some(_) => Ok(()),
                None => {
                    let key = debug_option(key);
                    let target = types[0].text();
                    Err(MagError::Type(cat4("cannot get ", key.as_str(), " from ", target.as_str())))
                },
            }
        },
        Builtin::Assoc => if i == 0 {
            match &types[0] {
                MagType::MapOf(_, _) => Err(MagError::Type("assoc expects a record".to_owned())),
                _ => Ok(()),
            }
        } else {
            match field_type(env, &types[0], key) {
                Some(expected) => if i == 1 {
                    Ok(())
                } else {
                    check_compatible(env, &types[2], &expected)
                },
                None => {
                    let key = debug_option(key);
                    let target = types[0].text();
                    Err(
                        MagError::Type(
                            cat4("cannot assoc ", key.as_str(), " into ", target.as_str()),
                        ),
                    )
                },
            }
        },
        Builtin::Count => match &types[0] {
            MagType::List(_) | MagType::String => Ok(()),
            _ => if named_field_types(env, &types[0]).is_some() {
                Ok(())
            } else {
                Err(refuse(builtin, "a collection", &types[0]))
            },
        },
        Builtin::Keys => if named_field_types(env, &types[0]).is_some() {
            Ok(())
        } else {
            Err(refuse(builtin, "a named value", &types[0]))
        },
        Builtin::Equal => if i == 0 {
            Ok(())
        } else {
            match check_compatible(env, &types[0], &types[1]) {
                Err(error) => Err(error),
                Ok(_) => match require_equality_admissible(env, &types[0]) {
                    Err(error) => Err(error),
                    Ok(_) => require_equality_admissible(env, &types[1]),
                },
            }
        },
        Builtin::Or => if i == 0 {
            Ok(())
        } else {
            match check_compatible(env, &types[0], &types[1]) {
                Ok(_) => Ok(()),
                Err(_) => {
                    let left = types[0].text();
                    let right = types[1].text();
                    Err(
                        MagError::Type(
                            cat4(
                                "or operands must return one compatible type, got ",
                                left.as_str(),
                                " and ",
                                right.as_str(),
                            ),
                        ),
                    )
                },
            }
        },
        Builtin::Concat => if i == 0 {
            Ok(())
        } else {
            check_compatible(env, &types[0], &types[1])
        },
        Builtin::RemoveAt => match &types[0] {
            MagType::List(_) => Ok(()),
            _ => if i == 0 {
                Ok(())
            } else {
                Err(refuse(builtin, "List", &types[0]))
            },
        },
        Builtin::First => match &types[0] {
            MagType::List(_) => Ok(()),
            _ => Err(refuse(builtin, "List", &types[0])),
        },
        Builtin::FunctionName => match &types[0] {
            MagType::Function(_, _) => Ok(()),
            _ => Err(refuse(builtin, "a function", &types[0])),
        },
        Builtin::TypeEvidence | Builtin::TypeSchema => match &types[0] {
            MagType::TypeTag(_) => Ok(()),
            _ => Err(refuse(builtin, "TypeTag", &types[0])),
        },
        Builtin::HostInput => if i == 0 {
            Ok(())
        } else {
            match &types[1] {
                MagType::TypeTag(_) => Ok(()),
                _ => Err(refuse(builtin, "TypeTag", &types[1])),
            }
        },
        Builtin::ValueTypeId => if i == 0 {
            Ok(())
        } else {
            match &types[1] {
                MagType::TypeTag(expected) => check_compatible(env, expected, &types[0]),
                MagType::TypeDescriptor => Ok(()),
                _ => Err(
                    MagError::Type(
                        "value_type_id expects TypeTag or TypeDescriptor evidence".to_owned(),
                    ),
                ),
            }
        },
        _ => Ok(()),
    }
}

pub open spec fn says(builtin: Builtin, what: Seq<char>) -> Failure {
    Failure::Type(builtin_name(builtin) + what)
}

/// What a walk over a list asks of the function that it calls for an item.
pub open spec fn callback_verdict(world: World, builtin: Builtin, item: Ty, callback: Ty) -> Result<
    (),
    Failure,
> {
    match callback {
        Ty::Function(params, result) => if params.len() != 1 {
            Err(says(builtin, " callback expects 1 parameter"@))
        } else {
            match fitted(world, item, params[0]) {
                Err(failure) => Err(failure),
                Ok(_) => match builtin {
                    Builtin::Filter => fitted(world, *result, Ty::Bool),
                    Builtin::SortBy | Builtin::GroupBy => fitted(world, *result, Ty::String),
                    Builtin::FlatMap => if *result is List {
                        Ok(())
                    } else {
                        Err(
                            says(
                                builtin,
                                " callback must return List, got "@ + ty_text(*result),
                            ),
                        )
                    },
                    _ => Ok(()),
                },
            }
        },
        _ => Err(says(builtin, " expects function"@)),
    }
}

pub open spec fn fold_verdict(world: World, initial: Ty, item: Ty, callback: Ty) -> Result<
    (),
    Failure,
> {
    match callback {
        Ty::Function(params, result) => if params.len() != 2 {
            Err(says(Builtin::Fold, " callback expects 2 parameters"@))
        } else {
            match fitted(world, initial, params[0]) {
                Err(failure) => Err(failure),
                Ok(_) => match fitted(world, item, params[1]) {
                    Err(failure) => Err(failure),
                    Ok(_) => fitted(world, *result, params[0]),
                },
            }
        },
        _ => Err(says(Builtin::Fold, " expects function"@)),
    }
}

pub open spec fn indexed_verdict(world: World, item: Ty, callback: Ty) -> Result<(), Failure> {
    match callback {
        Ty::Function(params, result) => if params.len() != 2 {
            Err(says(Builtin::IndexedMap, " callback expects 2 parameters"@))
        } else {
            match fitted(world, Ty::Int, params[0]) {
                Err(failure) => Err(failure),
                Ok(_) => fitted(world, item, params[1]),
            }
        },
        _ => Err(says(Builtin::IndexedMap, " expects function"@)),
    }
}

/// The rules on functions that walk over a list.
pub open spec fn walk_step(world: World, builtin: Builtin, i: int, types: Seq<Ty>) -> Step {
    match builtin {
        Builtin::MapList | Builtin::Filter | Builtin::FlatMap | Builtin::SortBy
        | Builtin::GroupBy => if i == 0 {
            unchanged(world, Ok(()))
        } else {
            match types[1] {
                Ty::List(item) => unchanged(
                    world,
                    callback_verdict(world, builtin, *item, types[0]),
                ),
                _ => unchanged(world, Err(says(builtin, " expects List"@))),
            }
        },
        Builtin::IndexedMap => if i == 0 {
            unchanged(world, Ok(()))
        } else {
            match types[1] {
                Ty::List(item) => unchanged(world, indexed_verdict(world, *item, types[0])),
                _ => unchanged(world, Err(says(builtin, " expects List"@))),
            }
        },
        Builtin::Fold => if i < 2 {
            unchanged(world, Ok(()))
        } else {
            match types[2] {
                Ty::List(item) => unchanged(
                    world,
                    fold_verdict(world, types[1], *item, types[0]),
                ),
                _ => unchanged(world, Err(says(builtin, " expects List"@))),
            }
        },
        _ => unchanged(world, Ok(())),
    }
}

pub(crate) fn say(builtin: Builtin, what: &str) -> (error: MagError)
    ensures
        error@ == says(builtin, what@),
{
    MagError::Type(cat2(builtin.name(), what))
}

fn check_callback(env: &Env, builtin: Builtin, item: &MagType, callback: &MagType) -> (result:
    Result<(), MagError>)
    ensures
        verdict(result) == callback_verdict(env@, builtin, item@, callback@),
{
    match callback {
        MagType::Function(params, result) => {
            assert(tys(params@).len() == params@.len());
            if params.len() != 1 {
                return Err(say(builtin, " callback expects 1 parameter"));
            }
            assert(tys(params@)[0] == params@[0]@);
            match check_compatible(env, item, &params[0]) {
                Err(error) => Err(error),
                Ok(_) => match builtin {
                    Builtin::Filter => check_compatible(env, result, &MagType::Bool),
                    Builtin::SortBy | Builtin::GroupBy => check_compatible(
                        env,
                        result,
                        &MagType::String,
                    ),
                    Builtin::FlatMap => match &**result {
                        MagType::List(_) => Ok(()),
                        _ => {
                            let actual = result.text();
                            let what = cat2(" callback must return List, got ", actual.as_str());
                            Err(say(builtin, what.as_str()))
                        },
                    },
                    _ => Ok(()),
                },
            }
        },
        _ => Err(say(builtin, " expects function")),
    }
}

fn check_fold(env: &Env, initial: &MagType, item: &MagType, callback: &MagType) -> (result: Result<
    (),
    MagError,
>)
    ensures
        verdict(result) == fold_verdict(env@, initial@, item@, callback@),
{
    match callback {
        MagType::Function(params, result) => {
            assert(tys(params@).len() == params@.len());
            if params.len() != 2 {
                return Err(say(Builtin::Fold, " callback expects 2 parameters"));
            }
            assert(tys(params@)[0] == params@[0]@);
            assert(tys(params@)[1] == params@[1]@);
            match check_compatible(env, initial, &params[0]) {
                Err(error) => Err(error),
                Ok(_) => match check_compatible(env, item, &params[1]) {
                    Err(error) => Err(error),
                    Ok(_) => check_compatible(env, result, &params[0]),
                },
            }
        },
        _ => Err(say(Builtin::Fold, " expects function")),
    }
}

fn check_indexed(env: &Env, item: &MagType, callback: &MagType) -> (result: Result<(), MagError>)
    ensures
        verdict(result) == indexed_verdict(env@, item@, callback@),
{
    match callback {
        MagType::Function(params, _) => {
            assert(tys(params@).len() == params@.len());
            if params.len() != 2 {
                return Err(say(Builtin::IndexedMap, " callback expects 2 parameters"));
            }
            assert(tys(params@)[0] == params@[0]@);
            assert(tys(params@)[1] == params@[1]@);
            match check_compatible(env, &MagType::Int, &params[0]) {
                Err(error) => Err(error),
                Ok(_) => check_compatible(env, item, &params[1]),
            }
        },
        _ => Err(say(Builtin::IndexedMap, " expects function")),
    }
}

fn check_walk(env: &Env, builtin: Builtin, i: usize, types: &Vec<MagType>) -> (result: Result<
    (),
    MagError,
>)
    requires
        types@.len() == i + 1,
        i < 3,
    ensures
        stepped(env@, result) == walk_step(env@, builtin, i as int, tys(types@)),
{
    let ghost all = tys(types@);
    assert(all[0] == types@[0]@);
    assert(all[i as int] == types@[i as int]@);
    match builtin {
        Builtin::MapList | Builtin::Filter | Builtin::FlatMap | Builtin::SortBy
        | Builtin::GroupBy => if i == 0 {
            Ok(())
        } else {
            assert(all[1] == types@[1]@);
            match &types[1] {
                MagType::List(item) => check_callback(env, builtin, item, &types[0]),
                _ => Err(say(builtin, " expects List")),
            }
        },
        Builtin::IndexedMap => if i == 0 {
            Ok(())
        } else {
            assert(all[1] == types@[1]@);
            match &types[1] {
                MagType::List(item) => check_indexed(env, item, &types[0]),
                _ => Err(say(builtin, " expects List")),
            }
        },
        Builtin::Fold => if i < 2 {
            Ok(())
        } else {
            assert(all[1] == types@[1]@);
            match &types[2] {
                MagType::List(item) => check_fold(env, &types[1], item, &types[0]),
                _ => Err(say(builtin, " expects List")),
            }
        },
        _ => Ok(()),
    }
}

/// The rule on the argument at index `i`, once the types up to it are known.
/// `key` is the text of the second argument where it is a literal.
pub open spec fn rule_step(
    world: World,
    builtin: Builtin,
    i: int,
    types: Seq<Ty>,
    key: Option<Seq<char>>,
) -> Step {
    let fixed = match fixed_argument(builtin, i) {
        Some(expected) => fitted(world, types[i], expected),
        None => Ok(()),
    };
    match fixed {
        Err(failure) => unchanged(world, Err(failure)),
        Ok(_) => match builtin {
            Builtin::MapEmpty | Builtin::MapInsert | Builtin::MapPut | Builtin::MapGetOr
            | Builtin::MapGet | Builtin::MapContains | Builtin::MapUnionLeft | Builtin::MapCount
            | Builtin::SetEmpty | Builtin::SetInsert | Builtin::SetContains | Builtin::SetCount =>
            container_step(world, builtin, i, types),
            Builtin::MapList | Builtin::Filter | Builtin::FlatMap | Builtin::SortBy
            | Builtin::GroupBy | Builtin::IndexedMap | Builtin::Fold => walk_step(
                world,
                builtin,
                i,
                types,
            ),
            _ => value_step(world, builtin, i, types, key),
        },
    }
}

/// Checks the argument at index `i`, the last one in `types`.
pub fn builtin_step(
    env: &mut Env,
    builtin: Builtin,
    i: usize,
    types: &Vec<MagType>,
    key: Option<&str>,
) -> (result: Result<(), MagError>)
    requires
        types@.len() == i + 1,
        i < 3,
    ensures
        stepped(final(env)@, result) == rule_step(
            old(env)@,
            builtin,
            i as int,
            tys(types@),
            match key {
                Some(key) => Some(key@),
                None => None,
            },
        ),
{
    assert(tys(types@)[i as int] == types@[i as int]@);
    if let Some(expected) = fixed_argument_type(builtin, i) {
        match check_compatible(env, &types[i], &expected) {
            Err(error) => return Err(error),
            Ok(_) => {},
        }
    }
    match builtin {
        Builtin::MapEmpty | Builtin::MapInsert | Builtin::MapPut | Builtin::MapGetOr
        | Builtin::MapGet | Builtin::MapContains | Builtin::MapUnionLeft | Builtin::MapCount
        | Builtin::SetEmpty | Builtin::SetInsert | Builtin::SetContains | Builtin::SetCount =>
        check_container(env, builtin, i, types),
        Builtin::MapList | Builtin::Filter | Builtin::FlatMap | Builtin::SortBy | Builtin::GroupBy
        | Builtin::IndexedMap | Builtin::Fold => check_walk(env, builtin, i, types),
        _ => check_value(env, builtin, i, types, key),
    }
}

// ---------------------------------------------------------------------------
// Results
// ---------------------------------------------------------------------------

/// The type of a call whose arguments have passed.
pub open spec fn rule_result(builtin: Builtin, types: Seq<Ty>) -> Ty {
    match builtin {
        Builtin::MapEmpty => match types[0] {
            Ty::TypeTag(key) => if types.len() > 1 {
                match types[1] {
                    Ty::TypeTag(value) => ty_map(*key, *value),
                    _ => Ty::Never,
                }
            } else {
                ty_map(*key, open_var("value"@))
            },
            _ => Ty::Never,
        },
        Builtin::MapGet | Builtin::MapGetOr => match types[0] {
            Ty::MapOf(_, value) => *value,
            _ => Ty::Never,
        },
        Builtin::MapInsert | Builtin::MapPut | Builtin::MapUnionLeft | Builtin::SetInsert
        | Builtin::Assoc | Builtin::Concat | Builtin::RemoveAt => types[0],
        Builtin::SetEmpty => match types[0] {
            Ty::TypeTag(item) => ty_set(*item),
            _ => Ty::Never,
        },
        Builtin::MapContains | Builtin::SetContains | Builtin::Equal | Builtin::Not
        | Builtin::IntGt | Builtin::Conforms | Builtin::PackedEmptyRecord
        | Builtin::PackedRecordHasOnlyKey | Builtin::PackedRecordHasOnlyKeys
        | Builtin::PackedFieldConforms | Builtin::DescriptorAccepts
        | Builtin::DescriptorAcceptsValue | Builtin::DescriptorInputCoveredBy
        | Builtin::DescriptorOutputCoveredBy => Ty::Bool,
        Builtin::MapCount | Builtin::SetCount | Builtin::Count | Builtin::IntMul => Ty::Int,
        Builtin::HostInput => match types[1] {
            Ty::TypeTag(expected) => *expected,
            _ => Ty::Never,
        },
        Builtin::TypeEvidence | Builtin::AdtConstructorPayload | Builtin::ListType
        | Builtin::ValueTypeEvidence => Ty::TypeDescriptor,
        Builtin::TypeSchema | Builtin::DescriptorSchema => Ty::TypeSchema,
        Builtin::TypeArguments | Builtin::TypeComponents => ty_list(Ty::TypeDescriptor),
        Builtin::TypeId | Builtin::ValueTypeId => Ty::SemanticTypeId,
        Builtin::Or => types[1],
        Builtin::Str | Builtin::Canonical | Builtin::FunctionName | Builtin::TypeConstructor
        | Builtin::Read | Builtin::StripMargin | Builtin::Replace => Ty::String,
        Builtin::Fail | Builtin::Require => Ty::Never,
        Builtin::Pack => Ty::PackedValue,
        Builtin::PackedPathStrings | Builtin::Keys => ty_list(Ty::String),
        Builtin::DescriptorInputAssignments => ty_list(Ty::Int),
        Builtin::DescriptorTable => ty_map(Ty::String, Ty::TypeDescriptor),
        Builtin::ReadJson => Ty::JsonValue,
        Builtin::Artifact => Ty::Artifact,
        Builtin::First => match types[0] {
            Ty::List(item) => *item,
            _ => Ty::Never,
        },
        Builtin::Filter | Builtin::SortBy => types[1],
        Builtin::GroupBy => ty_map(Ty::String, types[1]),
        Builtin::MapList | Builtin::IndexedMap => match types[0] {
            Ty::Function(_, result) => ty_list(*result),
            _ => Ty::Never,
        },
        Builtin::FlatMap | Builtin::Fold => match types[0] {
            Ty::Function(_, result) => *result,
            _ => Ty::Never,
        },
        // `get` selects by its key: see `call_result`.
        Builtin::Get => Ty::Never,
    }
}

/// The type of a call whose arguments have passed, also where a key selects it.
pub open spec fn call_result(
    world: World,
    builtin: Builtin,
    types: Seq<Ty>,
    key: Option<Seq<char>>,
) -> Ty {
    match builtin {
        Builtin::Get => match selected(world, types[0], key) {
            Some(ty) => ty,
            None => Ty::Never,
        },
        _ => rule_result(builtin, types),
    }
}

/// The type of a call whose arguments have passed.
pub fn builtin_result(env: &Env, builtin: Builtin, types: &Vec<MagType>, key: Option<&str>) -> (ty:
    MagType)
    requires
        match typed_arguments(builtin, types@.len()) {
            Ok(count) => true,
            Err(_) => false,
        } || builtin is Artifact || builtin is Str,
    ensures
        ty@ == call_result(
            env@,
            builtin,
            tys(types@),
            match key {
                Some(key) => Some(key@),
                None => None,
            },
        ),
{
    let ghost all = tys(types@);
    assert(types@.len() > 0 ==> all[0] == types@[0]@);
    assert(types@.len() > 1 ==> all[1] == types@[1]@);
    match builtin {
        Builtin::MapEmpty => match &types[0] {
            MagType::TypeTag(key) => if types.len() > 1 {
                match &types[1] {
                    MagType::TypeTag(value) => map_type(key.copy(), value.copy()),
                    _ => MagType::Never,
                }
            } else {
                map_type(key.copy(), variable("value"))
            },
            _ => MagType::Never,
        },
        Builtin::MapGet | Builtin::MapGetOr => match &types[0] {
            MagType::MapOf(_, value) => value.copy(),
            _ => MagType::Never,
        },
        Builtin::MapInsert | Builtin::MapPut | Builtin::MapUnionLeft | Builtin::SetInsert
        | Builtin::Assoc | Builtin::Concat | Builtin::RemoveAt => types[0].copy(),
        Builtin::SetEmpty => match &types[0] {
            MagType::TypeTag(item) => set_type(item.copy()),
            _ => MagType::Never,
        },
        Builtin::MapContains | Builtin::SetContains | Builtin::Equal | Builtin::Not
        | Builtin::IntGt | Builtin::Conforms | Builtin::PackedEmptyRecord
        | Builtin::PackedRecordHasOnlyKey | Builtin::PackedRecordHasOnlyKeys
        | Builtin::PackedFieldConforms | Builtin::DescriptorAccepts
        | Builtin::DescriptorAcceptsValue | Builtin::DescriptorInputCoveredBy
        | Builtin::DescriptorOutputCoveredBy => MagType::Bool,
        Builtin::MapCount | Builtin::SetCount | Builtin::Count | Builtin::IntMul => MagType::Int,
        Builtin::HostInput => match &types[1] {
            MagType::TypeTag(expected) => expected.copy(),
            _ => MagType::Never,
        },
        Builtin::TypeEvidence | Builtin::AdtConstructorPayload | Builtin::ListType
        | Builtin::ValueTypeEvidence => MagType::TypeDescriptor,
        Builtin::TypeSchema | Builtin::DescriptorSchema => MagType::TypeSchema,
        Builtin::TypeArguments | Builtin::TypeComponents => list(MagType::TypeDescriptor),
        Builtin::TypeId | Builtin::ValueTypeId => MagType::SemanticTypeId,
        Builtin::Or => types[1].copy(),
        Builtin::Str | Builtin::Canonical | Builtin::FunctionName | Builtin::TypeConstructor
        | Builtin::Read | Builtin::StripMargin | Builtin::Replace => MagType::String,
        Builtin::Fail | Builtin::Require => MagType::Never,
        Builtin::Pack => MagType::PackedValue,
        Builtin::PackedPathStrings | Builtin::Keys => list(MagType::String),
        Builtin::DescriptorInputAssignments => list(MagType::Int),
        Builtin::DescriptorTable => map_type(MagType::String, MagType::TypeDescriptor),
        Builtin::ReadJson => MagType::JsonValue,
        Builtin::Artifact => MagType::Artifact,
        Builtin::First => match &types[0] {
            MagType::List(item) => item.copy(),
            _ => MagType::Never,
        },
        Builtin::Filter | Builtin::SortBy => types[1].copy(),
        Builtin::GroupBy => map_type(MagType::String, types[1].copy()),
        Builtin::MapList | Builtin::IndexedMap => match &types[0] {
            MagType::Function(_, result) => list(result.copy()),
            _ => MagType::Never,
        },
        Builtin::FlatMap | Builtin::Fold => match &types[0] {
            MagType::Function(_, result) => result.copy(),
            _ => MagType::Never,
        },
        Builtin::Get => match field_type(env, &types[0], key) {
            Some(ty) => ty,
            None => MagType::Never,
        },
    }
}

} // verus!
