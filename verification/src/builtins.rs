//! The functions that the language itself provides: their names and their
//! signatures.

use crate::compat::{compatible_with_bindable, fit_binding};
use crate::env::{Env, World};
use crate::text::{cat2, same_text};
use crate::types::{MagType, Subst, Ty, copy_types, internal_type_variables, internal_vars, tys};
use vstd::prelude::*;

verus! {

/// A function that the language provides.
#[derive(Clone, Copy, Debug, PartialEq, Eq, Structural)]
pub enum Builtin {
    MapEmpty,
    MapInsert,
    MapPut,
    MapGet,
    MapGetOr,
    MapContains,
    MapCount,
    MapUnionLeft,
    SetEmpty,
    SetInsert,
    SetContains,
    SetCount,
    Str,
    StripMargin,
    Replace,
    MapList,
    GroupBy,
    IndexedMap,
    Filter,
    FlatMap,
    Fold,
    Concat,
    Get,
    Assoc,
    Keys,
    Count,
    First,
    Canonical,
    FunctionName,
    SortBy,
    RemoveAt,
    Conforms,
    Or,
    Not,
    IntMul,
    IntGt,
    Equal,
    Fail,
    TypeEvidence,
    Read,
    ReadJson,
    Require,
    Artifact,
    TypeSchema,
    TypeConstructor,
    AdtConstructorPayload,
    TypeArguments,
    TypeComponents,
    ListType,
    DescriptorSchema,
    TypeId,
    ValueTypeId,
    ValueTypeEvidence,
    Pack,
    PackedEmptyRecord,
    PackedPathStrings,
    PackedRecordHasOnlyKey,
    PackedRecordHasOnlyKeys,
    PackedFieldConforms,
    DescriptorAccepts,
    DescriptorAcceptsValue,
    DescriptorInputCoveredBy,
    DescriptorInputAssignments,
    DescriptorOutputCoveredBy,
    DescriptorTable,
    HostInput,
}

pub open spec fn builtin_name(builtin: Builtin) -> Seq<char> {
    match builtin {
        Builtin::MapEmpty => "__map_empty"@,
        Builtin::MapInsert => "__map_insert"@,
        Builtin::MapPut => "__map_put"@,
        Builtin::MapGet => "__map_get"@,
        Builtin::MapGetOr => "__map_get_or"@,
        Builtin::MapContains => "__map_contains"@,
        Builtin::MapCount => "__map_count"@,
        Builtin::MapUnionLeft => "__map_union_left"@,
        Builtin::SetEmpty => "__set_empty"@,
        Builtin::SetInsert => "__set_insert"@,
        Builtin::SetContains => "__set_contains"@,
        Builtin::SetCount => "__set_count"@,
        Builtin::Str => "str"@,
        Builtin::StripMargin => "strip_margin"@,
        Builtin::Replace => "replace"@,
        Builtin::MapList => "map"@,
        Builtin::GroupBy => "group_by"@,
        Builtin::IndexedMap => "indexed_map"@,
        Builtin::Filter => "filter"@,
        Builtin::FlatMap => "flat_map"@,
        Builtin::Fold => "fold"@,
        Builtin::Concat => "concat"@,
        Builtin::Get => "get"@,
        Builtin::Assoc => "assoc"@,
        Builtin::Keys => "keys"@,
        Builtin::Count => "count"@,
        Builtin::First => "first"@,
        Builtin::Canonical => "canonical"@,
        Builtin::FunctionName => "function_name"@,
        Builtin::SortBy => "sort_by"@,
        Builtin::RemoveAt => "remove_at"@,
        Builtin::Conforms => "conforms"@,
        Builtin::Or => "or"@,
        Builtin::Not => "not"@,
        Builtin::IntMul => "int_mul"@,
        Builtin::IntGt => "int_gt"@,
        Builtin::Equal => "="@,
        Builtin::Fail => "fail"@,
        Builtin::TypeEvidence => "type_evidence"@,
        Builtin::Read => "read"@,
        Builtin::ReadJson => "read_json"@,
        Builtin::Require => "require"@,
        Builtin::Artifact => "artifact"@,
        Builtin::TypeSchema => "type_schema"@,
        Builtin::TypeConstructor => "type_constructor"@,
        Builtin::AdtConstructorPayload => "adt_constructor_payload"@,
        Builtin::TypeArguments => "type_arguments"@,
        Builtin::TypeComponents => "type_components"@,
        Builtin::ListType => "list_type"@,
        Builtin::DescriptorSchema => "descriptor_schema"@,
        Builtin::TypeId => "type_id"@,
        Builtin::ValueTypeId => "value_type_id"@,
        Builtin::ValueTypeEvidence => "value_type_evidence"@,
        Builtin::Pack => "pack"@,
        Builtin::PackedEmptyRecord => "packed_empty_record"@,
        Builtin::PackedPathStrings => "packed_path_strings"@,
        Builtin::PackedRecordHasOnlyKey => "packed_record_has_only_key"@,
        Builtin::PackedRecordHasOnlyKeys => "packed_record_has_only_keys"@,
        Builtin::PackedFieldConforms => "packed_field_conforms"@,
        Builtin::DescriptorAccepts => "descriptor_accepts"@,
        Builtin::DescriptorAcceptsValue => "descriptor_accepts_value"@,
        Builtin::DescriptorInputCoveredBy => "descriptor_input_covered_by"@,
        Builtin::DescriptorInputAssignments => "descriptor_input_assignments"@,
        Builtin::DescriptorOutputCoveredBy => "descriptor_output_covered_by"@,
        Builtin::DescriptorTable => "descriptor_table"@,
        Builtin::HostInput => "host_input"@,
    }
}

/// All of them, in the order in which they are listed.
pub open spec fn all_builtins() -> Seq<Builtin> {
    seq![
        Builtin::MapEmpty,
        Builtin::MapInsert,
        Builtin::MapPut,
        Builtin::MapGet,
        Builtin::MapGetOr,
        Builtin::MapContains,
        Builtin::MapCount,
        Builtin::MapUnionLeft,
        Builtin::SetEmpty,
        Builtin::SetInsert,
        Builtin::SetContains,
        Builtin::SetCount,
        Builtin::Str,
        Builtin::StripMargin,
        Builtin::Replace,
        Builtin::MapList,
        Builtin::GroupBy,
        Builtin::IndexedMap,
        Builtin::Filter,
        Builtin::FlatMap,
        Builtin::Fold,
        Builtin::Concat,
        Builtin::Get,
        Builtin::Assoc,
        Builtin::Keys,
        Builtin::Count,
        Builtin::First,
        Builtin::Canonical,
        Builtin::FunctionName,
        Builtin::SortBy,
        Builtin::RemoveAt,
        Builtin::Conforms,
        Builtin::Or,
        Builtin::Not,
        Builtin::IntMul,
        Builtin::IntGt,
        Builtin::Equal,
        Builtin::Fail,
        Builtin::TypeEvidence,
        Builtin::Read,
        Builtin::ReadJson,
        Builtin::Require,
        Builtin::Artifact,
        Builtin::TypeSchema,
        Builtin::TypeConstructor,
        Builtin::AdtConstructorPayload,
        Builtin::TypeArguments,
        Builtin::TypeComponents,
        Builtin::ListType,
        Builtin::DescriptorSchema,
        Builtin::TypeId,
        Builtin::ValueTypeId,
        Builtin::ValueTypeEvidence,
        Builtin::Pack,
        Builtin::PackedEmptyRecord,
        Builtin::PackedPathStrings,
        Builtin::PackedRecordHasOnlyKey,
        Builtin::PackedRecordHasOnlyKeys,
        Builtin::PackedFieldConforms,
        Builtin::DescriptorAccepts,
        Builtin::DescriptorAcceptsValue,
        Builtin::DescriptorInputCoveredBy,
        Builtin::DescriptorInputAssignments,
        Builtin::DescriptorOutputCoveredBy,
        Builtin::DescriptorTable,
        Builtin::HostInput,
    ]
}

/// The first of the functions from index `i` on that has a name.
pub open spec fn builtin_from(name: Seq<char>, i: int) -> Option<Builtin>
    decreases all_builtins().len() - i,
{
    if i < 0 || i >= all_builtins().len() {
        None
    } else if builtin_name(all_builtins()[i]) == name {
        Some(all_builtins()[i])
    } else {
        builtin_from(name, i + 1)
    }
}

/// The function with a name.
pub open spec fn builtin_of(name: Seq<char>) -> Option<Builtin> {
    builtin_from(name, 0)
}

impl Builtin {
    pub fn name(self) -> (name: &'static str)
        ensures
            name@ == builtin_name(self),
    {
        match self {
            Builtin::MapEmpty => "__map_empty",
            Builtin::MapInsert => "__map_insert",
            Builtin::MapPut => "__map_put",
            Builtin::MapGet => "__map_get",
            Builtin::MapGetOr => "__map_get_or",
            Builtin::MapContains => "__map_contains",
            Builtin::MapCount => "__map_count",
            Builtin::MapUnionLeft => "__map_union_left",
            Builtin::SetEmpty => "__set_empty",
            Builtin::SetInsert => "__set_insert",
            Builtin::SetContains => "__set_contains",
            Builtin::SetCount => "__set_count",
            Builtin::Str => "str",
            Builtin::StripMargin => "strip_margin",
            Builtin::Replace => "replace",
            Builtin::MapList => "map",
            Builtin::GroupBy => "group_by",
            Builtin::IndexedMap => "indexed_map",
            Builtin::Filter => "filter",
            Builtin::FlatMap => "flat_map",
            Builtin::Fold => "fold",
            Builtin::Concat => "concat",
            Builtin::Get => "get",
            Builtin::Assoc => "assoc",
            Builtin::Keys => "keys",
            Builtin::Count => "count",
            Builtin::First => "first",
            Builtin::Canonical => "canonical",
            Builtin::FunctionName => "function_name",
            Builtin::SortBy => "sort_by",
            Builtin::RemoveAt => "remove_at",
            Builtin::Conforms => "conforms",
            Builtin::Or => "or",
            Builtin::Not => "not",
            Builtin::IntMul => "int_mul",
            Builtin::IntGt => "int_gt",
            Builtin::Equal => "=",
            Builtin::Fail => "fail",
            Builtin::TypeEvidence => "type_evidence",
            Builtin::Read => "read",
            Builtin::ReadJson => "read_json",
            Builtin::Require => "require",
            Builtin::Artifact => "artifact",
            Builtin::TypeSchema => "type_schema",
            Builtin::TypeConstructor => "type_constructor",
            Builtin::AdtConstructorPayload => "adt_constructor_payload",
            Builtin::TypeArguments => "type_arguments",
            Builtin::TypeComponents => "type_components",
            Builtin::ListType => "list_type",
            Builtin::DescriptorSchema => "descriptor_schema",
            Builtin::TypeId => "type_id",
            Builtin::ValueTypeId => "value_type_id",
            Builtin::ValueTypeEvidence => "value_type_evidence",
            Builtin::Pack => "pack",
            Builtin::PackedEmptyRecord => "packed_empty_record",
            Builtin::PackedPathStrings => "packed_path_strings",
            Builtin::PackedRecordHasOnlyKey => "packed_record_has_only_key",
            Builtin::PackedRecordHasOnlyKeys => "packed_record_has_only_keys",
            Builtin::PackedFieldConforms => "packed_field_conforms",
            Builtin::DescriptorAccepts => "descriptor_accepts",
            Builtin::DescriptorAcceptsValue => "descriptor_accepts_value",
            Builtin::DescriptorInputCoveredBy => "descriptor_input_covered_by",
            Builtin::DescriptorInputAssignments => "descriptor_input_assignments",
            Builtin::DescriptorOutputCoveredBy => "descriptor_output_covered_by",
            Builtin::DescriptorTable => "descriptor_table",
            Builtin::HostInput => "host_input",
        }
    }

    pub fn all() -> (list: Vec<Builtin>)
        ensures
            list@ == all_builtins(),
    {
        let list = vec![
            Builtin::MapEmpty,
            Builtin::MapInsert,
            Builtin::MapPut,
            Builtin::MapGet,
            Builtin::MapGetOr,
            Builtin::MapContains,
            Builtin::MapCount,
            Builtin::MapUnionLeft,
            Builtin::SetEmpty,
            Builtin::SetInsert,
            Builtin::SetContains,
            Builtin::SetCount,
            Builtin::Str,
            Builtin::StripMargin,
            Builtin::Replace,
            Builtin::MapList,
            Builtin::GroupBy,
            Builtin::IndexedMap,
            Builtin::Filter,
            Builtin::FlatMap,
            Builtin::Fold,
            Builtin::Concat,
            Builtin::Get,
            Builtin::Assoc,
            Builtin::Keys,
            Builtin::Count,
            Builtin::First,
            Builtin::Canonical,
            Builtin::FunctionName,
            Builtin::SortBy,
            Builtin::RemoveAt,
            Builtin::Conforms,
            Builtin::Or,
            Builtin::Not,
            Builtin::IntMul,
            Builtin::IntGt,
            Builtin::Equal,
            Builtin::Fail,
            Builtin::TypeEvidence,
            Builtin::Read,
            Builtin::ReadJson,
            Builtin::Require,
            Builtin::Artifact,
            Builtin::TypeSchema,
            Builtin::TypeConstructor,
            Builtin::AdtConstructorPayload,
            Builtin::TypeArguments,
            Builtin::TypeComponents,
            Builtin::ListType,
            Builtin::DescriptorSchema,
            Builtin::TypeId,
            Builtin::ValueTypeId,
            Builtin::ValueTypeEvidence,
            Builtin::Pack,
            Builtin::PackedEmptyRecord,
            Builtin::PackedPathStrings,
            Builtin::PackedRecordHasOnlyKey,
            Builtin::PackedRecordHasOnlyKeys,
            Builtin::PackedFieldConforms,
            Builtin::DescriptorAccepts,
            Builtin::DescriptorAcceptsValue,
            Builtin::DescriptorInputCoveredBy,
            Builtin::DescriptorInputAssignments,
            Builtin::DescriptorOutputCoveredBy,
            Builtin::DescriptorTable,
            Builtin::HostInput,
        ];
        assert(list@ =~= all_builtins());
        list
    }

    pub fn named(name: &str) -> (found: Option<Builtin>)
        ensures
            found == builtin_of(name@),
    {
        let list = Builtin::all();
        let mut i: usize = 0;
        while i < list.len()
            invariant
                i <= list@.len(),
                list@ == all_builtins(),
                builtin_from(name@, 0) == builtin_from(name@, i as int),
            decreases list@.len() - i,
        {
            if same_text(list[i].name(), name) {
                return Some(list[i]);
            }
            i = i + 1;
        }
        None
    }
}

/// The names of all of them.
pub fn builtin_names() -> (names: Vec<&'static str>)
    ensures
        names@.len() == all_builtins().len(),
        forall|i: int| 0 <= i < names@.len() ==> (#[trigger] names@[i])@ == builtin_name(
            all_builtins()[i],
        ),
{
    let list = Builtin::all();
    let mut names: Vec<&'static str> = Vec::new();
    let mut i: usize = 0;
    while i < list.len()
        invariant
            i <= list@.len(),
            list@ == all_builtins(),
            names@.len() == i,
            forall|j: int| 0 <= j < i ==> (#[trigger] names@[j])@ == builtin_name(
                all_builtins()[j],
            ),
        decreases list@.len() - i,
    {
        names.push(list[i].name());
        i = i + 1;
    }
    names
}

// ---------------------------------------------------------------------------
// Signatures
// ---------------------------------------------------------------------------

/// A variable of a signature.
pub open spec fn open_var(name: Seq<char>) -> Ty {
    Ty::Var("\0builtin."@ + name)
}

pub open spec fn ty_list(item: Ty) -> Ty {
    Ty::List(Box::new(item))
}

pub open spec fn ty_set(item: Ty) -> Ty {
    Ty::SetOf(Box::new(item))
}

pub open spec fn ty_map(key: Ty, value: Ty) -> Ty {
    Ty::MapOf(Box::new(key), Box::new(value))
}

pub open spec fn ty_tag(value: Ty) -> Ty {
    Ty::TypeTag(Box::new(value))
}

pub open spec fn ty_function(params: Seq<Ty>, result: Ty) -> Ty {
    Ty::Function(params, Box::new(result))
}

pub fn variable(name: &str) -> (ty: MagType)
    ensures
        ty@ == open_var(name@),
{
    MagType::Var(cat2("\0builtin.", name))
}

pub fn list(item: MagType) -> (ty: MagType)
    ensures
        ty@ == ty_list(item@),
{
    MagType::List(Box::new(item))
}

pub fn set_type(item: MagType) -> (ty: MagType)
    ensures
        ty@ == ty_set(item@),
{
    MagType::SetOf(Box::new(item))
}

pub fn map_type(key: MagType, value: MagType) -> (ty: MagType)
    ensures
        ty@ == ty_map(key@, value@),
{
    MagType::MapOf(Box::new(key), Box::new(value))
}

pub fn tag(value: MagType) -> (ty: MagType)
    ensures
        ty@ == ty_tag(value@),
{
    MagType::TypeTag(Box::new(value))
}

pub fn function(params: Vec<MagType>, result: MagType) -> (ty: MagType)
    ensures
        ty@ == ty_function(tys(params@), result@),
{
    MagType::Function(params, Box::new(result))
}

pub fn one(first: MagType) -> (types: Vec<MagType>)
    ensures
        tys(types@) == seq![first@],
{
    let types = vec![first];
    assert(tys(types@) =~= seq![first@]);
    types
}

pub fn two(first: MagType, second: MagType) -> (types: Vec<MagType>)
    ensures
        tys(types@) == seq![first@, second@],
{
    let types = vec![first, second];
    assert(tys(types@) =~= seq![first@, second@]);
    types
}

pub fn three(first: MagType, second: MagType, third: MagType) -> (types: Vec<MagType>)
    ensures
        tys(types@) == seq![first@, second@, third@],
{
    let types = vec![first, second, third];
    assert(tys(types@) =~= seq![first@, second@, third@]);
    types
}

/// The signatures of a function, whatever it is used as.
pub open spec fn fixed_signatures(builtin: Builtin) -> Seq<Ty> {
    match builtin {
        Builtin::Str => Seq::empty(),
        Builtin::MapEmpty => seq![
            ty_function(
                seq![ty_tag(open_var("key"@))],
                ty_map(open_var("key"@), open_var("value"@)),
            ),
            ty_function(
                seq![ty_tag(open_var("key"@)), ty_tag(open_var("value"@))],
                ty_map(open_var("key"@), open_var("value"@)),
            ),
        ],
        Builtin::MapInsert | Builtin::MapPut => seq![
            ty_function(
                seq![
                    ty_map(
                        open_var("key"@),
                        open_var("value"@),
                    ),
                    open_var("key"@),
                    open_var("value"@),
                ],
                ty_map(
                    open_var("key"@),
                    open_var("value"@),
                ),
            ),
        ],
        Builtin::MapGet => seq![
            ty_function(
                seq![
                    ty_map(open_var("key"@), open_var("value"@)),
                    open_var("key"@),
                ],
                open_var("value"@),
            ),
        ],
        Builtin::MapGetOr => seq![
            ty_function(
                seq![
                    ty_map(open_var("key"@), open_var("value"@)),
                    open_var("key"@),
                    open_var("value"@),
                ],
                open_var("value"@),
            ),
        ],
        Builtin::MapContains => seq![
            ty_function(
                seq![
                    ty_map(open_var("key"@), open_var("value"@)),
                    open_var("key"@),
                ],
                Ty::Bool,
            ),
        ],
        Builtin::MapCount => seq![
            ty_function(
                seq![ty_map(open_var("key"@), open_var("value"@))],
                Ty::Int,
            ),
        ],
        Builtin::MapUnionLeft => seq![
            ty_function(
                seq![
                    ty_map(open_var("key"@), open_var("value"@)),
                    ty_map(open_var("key"@), open_var("value"@)),
                ],
                ty_map(open_var("key"@), open_var("value"@)),
            ),
        ],
        Builtin::SetEmpty => seq![
            ty_function(
                seq![ty_tag(open_var("item"@))],
                ty_set(open_var("item"@)),
            ),
        ],
        Builtin::SetInsert => seq![
            ty_function(
                seq![ty_set(open_var("item"@)), open_var("item"@)],
                ty_set(open_var("item"@)),
            ),
        ],
        Builtin::SetContains => seq![
            ty_function(
                seq![ty_set(open_var("item"@)), open_var("item"@)],
                Ty::Bool,
            ),
        ],
        Builtin::SetCount => seq![ty_function(seq![ty_set(open_var("item"@))], Ty::Int)],
        Builtin::StripMargin => seq![ty_function(seq![Ty::String], Ty::String)],
        Builtin::Replace => seq![ty_function(seq![Ty::String, Ty::String, Ty::String], Ty::String)],
        Builtin::MapList => seq![
            ty_function(
                seq![
                    ty_function(seq![open_var("item"@)], open_var("result"@)),
                    ty_list(open_var("item"@)),
                ],
                ty_list(open_var("result"@)),
            ),
        ],
        Builtin::GroupBy => seq![
            ty_function(
                seq![
                    ty_function(seq![open_var("item"@)], Ty::String),
                    ty_list(open_var("item"@)),
                ],
                ty_map(Ty::String, ty_list(open_var("item"@))),
            ),
        ],
        Builtin::IndexedMap => seq![
            ty_function(
                seq![
                    ty_function(
                        seq![Ty::Int, open_var("item"@)],
                        open_var("result"@),
                    ),
                    ty_list(open_var("item"@)),
                ],
                ty_list(open_var("result"@)),
            ),
        ],
        Builtin::Filter => seq![
            ty_function(
                seq![
                    ty_function(seq![open_var("item"@)], Ty::Bool),
                    ty_list(open_var("item"@)),
                ],
                ty_list(open_var("item"@)),
            ),
        ],
        Builtin::FlatMap => seq![
            ty_function(
                seq![
                    ty_function(
                        seq![open_var("item"@)],
                        ty_list(open_var("result"@)),
                    ),
                    ty_list(open_var("item"@)),
                ],
                ty_list(open_var("result"@)),
            ),
        ],
        Builtin::Fold => seq![
            ty_function(
                seq![
                    ty_function(
                        seq![open_var("state"@), open_var("item"@)],
                        open_var("state"@),
                    ),
                    open_var("state"@),
                    ty_list(open_var("item"@)),
                ],
                open_var("state"@),
            ),
        ],
        Builtin::Concat => seq![
            ty_function(
                seq![ty_list(open_var("item"@)), ty_list(open_var("item"@))],
                ty_list(open_var("item"@)),
            ),
            ty_function(seq![Ty::String, Ty::String], Ty::String),
        ],
        Builtin::Get => seq![ty_function(seq![open_var("named"@), Ty::String], open_var("field"@))],
        Builtin::Assoc => seq![
            ty_function(
                seq![open_var("named"@), Ty::String, open_var("field"@)],
                open_var("named"@),
            ),
        ],
        Builtin::Keys => seq![ty_function(seq![open_var("named"@)], ty_list(Ty::String))],
        Builtin::Count => seq![
            ty_function(seq![ty_list(open_var("item"@))], Ty::Int),
            ty_function(seq![Ty::String], Ty::Int),
        ],
        Builtin::First => seq![ty_function(seq![ty_list(open_var("item"@))], open_var("item"@))],
        Builtin::Canonical => seq![ty_function(seq![open_var("value"@)], Ty::String)],
        Builtin::FunctionName => seq![
            ty_function(
                seq![
                    ty_function(
                        seq![open_var("input"@)],
                        open_var("output"@),
                    ),
                ],
                Ty::String,
            ),
        ],
        Builtin::SortBy => seq![
            ty_function(
                seq![
                    ty_function(seq![open_var("item"@)], Ty::String),
                    ty_list(open_var("item"@)),
                ],
                ty_list(open_var("item"@)),
            ),
        ],
        Builtin::RemoveAt => seq![
            ty_function(
                seq![ty_list(open_var("item"@)), Ty::Int],
                ty_list(open_var("item"@)),
            ),
        ],
        Builtin::Conforms => seq![
            ty_function(
                seq![open_var("value"@), Ty::TypeDescriptor],
                Ty::Bool,
            ),
        ],
        Builtin::Or => seq![
            ty_function(
                seq![open_var("value"@), open_var("value"@)],
                open_var("value"@),
            ),
        ],
        Builtin::Not => seq![ty_function(seq![Ty::Bool], Ty::Bool)],
        Builtin::IntMul => seq![ty_function(seq![Ty::Int, Ty::Int], Ty::Int)],
        Builtin::IntGt => seq![ty_function(seq![Ty::Int, Ty::Int], Ty::Bool)],
        Builtin::Equal => seq![ty_function(seq![open_var("value"@), open_var("value"@)], Ty::Bool)],
        Builtin::Fail => seq![ty_function(seq![open_var("value"@)], Ty::Never)],
        Builtin::TypeEvidence => seq![
            ty_function(
                seq![ty_tag(open_var("value"@))],
                Ty::TypeDescriptor,
            ),
        ],
        Builtin::Read => seq![
            ty_function(seq![Ty::String], Ty::String),
            ty_function(seq![Ty::String, open_var("fallback"@)], Ty::String),
        ],
        Builtin::ReadJson => seq![ty_function(seq![Ty::String], Ty::JsonValue)],
        Builtin::Require => seq![ty_function(seq![Ty::String], Ty::Unit)],
        Builtin::Artifact => seq![ty_function(seq![open_var("value"@)], Ty::Artifact)],
        Builtin::TypeSchema => seq![ty_function(seq![ty_tag(open_var("value"@))], Ty::TypeSchema)],
        Builtin::TypeConstructor => seq![ty_function(seq![Ty::TypeDescriptor], Ty::String)],
        Builtin::AdtConstructorPayload => seq![
            ty_function(
                seq![Ty::TypeDescriptor, Ty::String],
                Ty::TypeDescriptor,
            ),
        ],
        Builtin::TypeArguments | Builtin::TypeComponents => seq![
            ty_function(
                seq![Ty::TypeDescriptor],
                ty_list(Ty::TypeDescriptor),
            ),
        ],
        Builtin::ListType => seq![ty_function(seq![Ty::TypeDescriptor], Ty::TypeDescriptor)],
        Builtin::DescriptorSchema => seq![ty_function(seq![Ty::TypeDescriptor], Ty::TypeSchema)],
        Builtin::TypeId => seq![ty_function(seq![Ty::TypeDescriptor], Ty::SemanticTypeId)],
        Builtin::ValueTypeId => seq![
            ty_function(
                seq![open_var("value"@), ty_tag(open_var("value"@))],
                Ty::SemanticTypeId,
            ),
            ty_function(
                seq![open_var("value"@), Ty::TypeDescriptor],
                Ty::SemanticTypeId,
            ),
        ],
        Builtin::ValueTypeEvidence => seq![
            ty_function(
                seq![open_var("value"@), Ty::TypeDescriptor],
                Ty::TypeDescriptor,
            ),
        ],
        Builtin::Pack => seq![ty_function(seq![open_var("value"@)], Ty::PackedValue)],
        Builtin::PackedEmptyRecord => seq![ty_function(seq![Ty::PackedValue], Ty::Bool)],
        Builtin::PackedPathStrings => seq![
            ty_function(
                seq![Ty::PackedValue, ty_list(Ty::String), Ty::Bool],
                ty_list(Ty::String),
            ),
        ],
        Builtin::PackedRecordHasOnlyKey => seq![
            ty_function(
                seq![Ty::PackedValue, Ty::String],
                Ty::Bool,
            ),
        ],
        Builtin::PackedRecordHasOnlyKeys => seq![
            ty_function(
                seq![Ty::PackedValue, ty_list(Ty::String)],
                Ty::Bool,
            ),
        ],
        Builtin::PackedFieldConforms => seq![
            ty_function(
                seq![
                    Ty::PackedValue,
                    Ty::String,
                    Ty::TypeDescriptor,
                ],
                Ty::Bool,
            ),
        ],
        Builtin::DescriptorAccepts | Builtin::DescriptorAcceptsValue => seq![
            ty_function(
                seq![
                    Ty::TypeDescriptor,
                    Ty::TypeDescriptor,
                ],
                Ty::Bool,
            ),
        ],
        Builtin::DescriptorInputCoveredBy | Builtin::DescriptorOutputCoveredBy => seq![
            ty_function(
                seq![
                    Ty::TypeDescriptor,
                    ty_list(
                        Ty::TypeDescriptor,
                    ),
                ],
                Ty::Bool,
            ),
        ],
        Builtin::DescriptorInputAssignments => seq![
            ty_function(
                seq![
                    Ty::TypeDescriptor,
                    ty_list(Ty::TypeDescriptor),
                ],
                ty_list(Ty::Int),
            ),
        ],
        Builtin::DescriptorTable => seq![
            ty_function(
                seq![ty_list(Ty::TypeDescriptor)],
                ty_map(Ty::String, Ty::TypeDescriptor),
            ),
        ],
        Builtin::HostInput => seq![
            ty_function(
                seq![Ty::String, ty_tag(open_var("value"@))],
                open_var("value"@),
            ),
        ],
    }
}

/// The signatures of a function that may matter to a candidate of its name.
pub open spec fn signatures(builtin: Builtin, candidate: Option<Ty>) -> Seq<Ty> {
    match candidate {
        Some(Ty::Function(params, _)) => match builtin {
            Builtin::Str => seq![ty_function(params, Ty::String)],
            Builtin::Or => if params.len() == 2 && params[0] == params[1] {
                fixed_signatures(builtin).push(ty_function(params, params[0]))
            } else {
                fixed_signatures(builtin)
            },
            _ => fixed_signatures(builtin),
        },
        _ => fixed_signatures(builtin),
    }
}

fn listed_signatures(builtin: Builtin) -> (types: Vec<MagType>)
    ensures
        tys(types@) == fixed_signatures(builtin),
{
    match builtin {
        Builtin::Str => {
            let types: Vec<MagType> = Vec::new();
            assert(tys(types@) =~= Seq::<Ty>::empty());
            types
        },
        Builtin::MapEmpty => two(
            function(
                one(tag(variable("key"))),
                map_type(variable("key"), variable("value")),
            ),
            function(
                two(tag(variable("key")), tag(variable("value"))),
                map_type(variable("key"), variable("value")),
            ),
        ),
        Builtin::MapInsert | Builtin::MapPut => one(
            function(
                three(
                    map_type(
                        variable("key"),
                        variable("value"),
                    ),
                    variable("key"),
                    variable("value"),
                ),
                map_type(
                    variable("key"),
                    variable("value"),
                ),
            ),
        ),
        Builtin::MapGet => one(
            function(
                two(
                    map_type(variable("key"), variable("value")),
                    variable("key"),
                ),
                variable("value"),
            ),
        ),
        Builtin::MapGetOr => one(
            function(
                three(
                    map_type(variable("key"), variable("value")),
                    variable("key"),
                    variable("value"),
                ),
                variable("value"),
            ),
        ),
        Builtin::MapContains => one(
            function(
                two(
                    map_type(variable("key"), variable("value")),
                    variable("key"),
                ),
                MagType::Bool,
            ),
        ),
        Builtin::MapCount => one(
            function(
                one(map_type(variable("key"), variable("value"))),
                MagType::Int,
            ),
        ),
        Builtin::MapUnionLeft => one(
            function(
                two(
                    map_type(variable("key"), variable("value")),
                    map_type(variable("key"), variable("value")),
                ),
                map_type(variable("key"), variable("value")),
            ),
        ),
        Builtin::SetEmpty => one(function(one(tag(variable("item"))), set_type(variable("item")))),
        Builtin::SetInsert => one(
            function(
                two(set_type(variable("item")), variable("item")),
                set_type(variable("item")),
            ),
        ),
        Builtin::SetContains => one(
            function(
                two(set_type(variable("item")), variable("item")),
                MagType::Bool,
            ),
        ),
        Builtin::SetCount => one(function(one(set_type(variable("item"))), MagType::Int)),
        Builtin::StripMargin => one(function(one(MagType::String), MagType::String)),
        Builtin::Replace => one(
            function(
                three(MagType::String, MagType::String, MagType::String),
                MagType::String,
            ),
        ),
        Builtin::MapList => one(
            function(
                two(
                    function(one(variable("item")), variable("result")),
                    list(variable("item")),
                ),
                list(variable("result")),
            ),
        ),
        Builtin::GroupBy => one(
            function(
                two(
                    function(one(variable("item")), MagType::String),
                    list(variable("item")),
                ),
                map_type(MagType::String, list(variable("item"))),
            ),
        ),
        Builtin::IndexedMap => one(
            function(
                two(
                    function(
                        two(MagType::Int, variable("item")),
                        variable("result"),
                    ),
                    list(variable("item")),
                ),
                list(variable("result")),
            ),
        ),
        Builtin::Filter => one(
            function(
                two(
                    function(one(variable("item")), MagType::Bool),
                    list(variable("item")),
                ),
                list(variable("item")),
            ),
        ),
        Builtin::FlatMap => one(
            function(
                two(
                    function(one(variable("item")), list(variable("result"))),
                    list(variable("item")),
                ),
                list(variable("result")),
            ),
        ),
        Builtin::Fold => one(
            function(
                three(
                    function(
                        two(variable("state"), variable("item")),
                        variable("state"),
                    ),
                    variable("state"),
                    list(variable("item")),
                ),
                variable("state"),
            ),
        ),
        Builtin::Concat => two(
            function(
                two(list(variable("item")), list(variable("item"))),
                list(variable("item")),
            ),
            function(two(MagType::String, MagType::String), MagType::String),
        ),
        Builtin::Get => one(function(two(variable("named"), MagType::String), variable("field"))),
        Builtin::Assoc => one(
            function(
                three(variable("named"), MagType::String, variable("field")),
                variable("named"),
            ),
        ),
        Builtin::Keys => one(function(one(variable("named")), list(MagType::String))),
        Builtin::Count => two(
            function(one(list(variable("item"))), MagType::Int),
            function(one(MagType::String), MagType::Int),
        ),
        Builtin::First => one(function(one(list(variable("item"))), variable("item"))),
        Builtin::Canonical => one(function(one(variable("value")), MagType::String)),
        Builtin::FunctionName => one(
            function(
                one(function(one(variable("input")), variable("output"))),
                MagType::String,
            ),
        ),
        Builtin::SortBy => one(
            function(
                two(
                    function(one(variable("item")), MagType::String),
                    list(variable("item")),
                ),
                list(variable("item")),
            ),
        ),
        Builtin::RemoveAt => one(
            function(
                two(list(variable("item")), MagType::Int),
                list(variable("item")),
            ),
        ),
        Builtin::Conforms => one(
            function(
                two(variable("value"), MagType::TypeDescriptor),
                MagType::Bool,
            ),
        ),
        Builtin::Or => one(function(two(variable("value"), variable("value")), variable("value"))),
        Builtin::Not => one(function(one(MagType::Bool), MagType::Bool)),
        Builtin::IntMul => one(function(two(MagType::Int, MagType::Int), MagType::Int)),
        Builtin::IntGt => one(function(two(MagType::Int, MagType::Int), MagType::Bool)),
        Builtin::Equal => one(function(two(variable("value"), variable("value")), MagType::Bool)),
        Builtin::Fail => one(function(one(variable("value")), MagType::Never)),
        Builtin::TypeEvidence => one(
            function(one(tag(variable("value"))), MagType::TypeDescriptor),
        ),
        Builtin::Read => two(
            function(one(MagType::String), MagType::String),
            function(two(MagType::String, variable("fallback")), MagType::String),
        ),
        Builtin::ReadJson => one(function(one(MagType::String), MagType::JsonValue)),
        Builtin::Require => one(function(one(MagType::String), MagType::Unit)),
        Builtin::Artifact => one(function(one(variable("value")), MagType::Artifact)),
        Builtin::TypeSchema => one(function(one(tag(variable("value"))), MagType::TypeSchema)),
        Builtin::TypeConstructor => one(function(one(MagType::TypeDescriptor), MagType::String)),
        Builtin::AdtConstructorPayload => one(
            function(
                two(MagType::TypeDescriptor, MagType::String),
                MagType::TypeDescriptor,
            ),
        ),
        Builtin::TypeArguments | Builtin::TypeComponents => one(
            function(
                one(MagType::TypeDescriptor),
                list(MagType::TypeDescriptor),
            ),
        ),
        Builtin::ListType => one(function(one(MagType::TypeDescriptor), MagType::TypeDescriptor)),
        Builtin::DescriptorSchema => one(
            function(
                one(MagType::TypeDescriptor),
                MagType::TypeSchema,
            ),
        ),
        Builtin::TypeId => one(function(one(MagType::TypeDescriptor), MagType::SemanticTypeId)),
        Builtin::ValueTypeId => two(
            function(
                two(variable("value"), tag(variable("value"))),
                MagType::SemanticTypeId,
            ),
            function(
                two(variable("value"), MagType::TypeDescriptor),
                MagType::SemanticTypeId,
            ),
        ),
        Builtin::ValueTypeEvidence => one(
            function(
                two(variable("value"), MagType::TypeDescriptor),
                MagType::TypeDescriptor,
            ),
        ),
        Builtin::Pack => one(function(one(variable("value")), MagType::PackedValue)),
        Builtin::PackedEmptyRecord => one(function(one(MagType::PackedValue), MagType::Bool)),
        Builtin::PackedPathStrings => one(
            function(
                three(
                    MagType::PackedValue,
                    list(MagType::String),
                    MagType::Bool,
                ),
                list(MagType::String),
            ),
        ),
        Builtin::PackedRecordHasOnlyKey => one(
            function(
                two(MagType::PackedValue, MagType::String),
                MagType::Bool,
            ),
        ),
        Builtin::PackedRecordHasOnlyKeys => one(
            function(
                two(
                    MagType::PackedValue,
                    list(MagType::String),
                ),
                MagType::Bool,
            ),
        ),
        Builtin::PackedFieldConforms => one(
            function(
                three(
                    MagType::PackedValue,
                    MagType::String,
                    MagType::TypeDescriptor,
                ),
                MagType::Bool,
            ),
        ),
        Builtin::DescriptorAccepts | Builtin::DescriptorAcceptsValue => one(
            function(
                two(
                    MagType::TypeDescriptor,
                    MagType::TypeDescriptor,
                ),
                MagType::Bool,
            ),
        ),
        Builtin::DescriptorInputCoveredBy | Builtin::DescriptorOutputCoveredBy => one(
            function(
                two(
                    MagType::TypeDescriptor,
                    list(
                        MagType::TypeDescriptor,
                    ),
                ),
                MagType::Bool,
            ),
        ),
        Builtin::DescriptorInputAssignments => one(
            function(
                two(
                    MagType::TypeDescriptor,
                    list(MagType::TypeDescriptor),
                ),
                list(MagType::Int),
            ),
        ),
        Builtin::DescriptorTable => one(
            function(
                one(list(MagType::TypeDescriptor)),
                map_type(MagType::String, MagType::TypeDescriptor),
            ),
        ),
        Builtin::HostInput => one(
            function(
                two(MagType::String, tag(variable("value"))),
                variable("value"),
            ),
        ),
    }
}

/// The signatures of the function with a name that may matter to a candidate of
/// that name.
pub fn builtin_overload_types(name: &str, candidate: Option<&MagType>) -> (types: Vec<MagType>)
    ensures
        tys(types@) == overload_types(
            name@,
            match candidate {
                Some(candidate) => Some(candidate@),
                None => None,
            },
        ),
{
    let builtin = match Builtin::named(name) {
        Some(builtin) => builtin,
        None => {
            let types: Vec<MagType> = Vec::new();
            assert(tys(types@) =~= Seq::<Ty>::empty());
            return types;
        },
    };
    if let Some(MagType::Function(params, _)) = candidate {
        assert(tys(params@).len() == params@.len());
        match builtin {
            Builtin::Str => {
                return one(function(copy_types(params), MagType::String));
            },
            Builtin::Or => {
                let mut types = listed_signatures(builtin);
                if params.len() == 2 && params[0].same(&params[1]) {
                    let ghost before = tys(types@);
                    let added = function(copy_types(params), params[0].copy());
                    types.push(added);
                    assert(tys(types@) =~= before.push(added@));
                }
                return types;
            },
            _ => {},
        }
    }
    listed_signatures(builtin)
}

pub open spec fn overload_types(name: Seq<char>, candidate: Option<Ty>) -> Seq<Ty> {
    match builtin_of(name) {
        Some(builtin) => signatures(builtin, candidate),
        None => Seq::empty(),
    }
}

/// Whether a candidate fits one of some signatures, from index `i` on.
pub open spec fn collides_from(world: World, candidate: Ty, types: Seq<Ty>, i: int) -> bool
    decreases types.len() - i,
{
    0 <= i < types.len() && (fit_binding(
        world,
        candidate,
        types[i],
        Map::empty(),
        internal_vars(types[i]),
    ).result is Ok || collides_from(world, candidate, types, i + 1))
}

/// Whether a candidate stands for the same calls as the function that the
/// language provides under its name.
pub open spec fn collides(world: World, name: Seq<char>, candidate: Ty) -> bool {
    collides_from(world, candidate, overload_types(name, Some(candidate)), 0)
}

pub fn collides_with_builtin(env: &Env, name: &str, candidate: &MagType) -> (yes: bool)
    ensures
        yes == collides(env@, name@, candidate@),
{
    let types = builtin_overload_types(name, Some(candidate));
    let ghost all = tys(types@);
    let mut i: usize = 0;
    while i < types.len()
        invariant
            i <= types@.len(),
            all == tys(types@),
            all == overload_types(name@, Some(candidate@)),
            collides_from(env@, candidate@, all, 0) == collides_from(
                env@,
                candidate@,
                all,
                i as int,
            ),
        decreases types@.len() - i,
    {
        assert(all[i as int] == types@[i as int]@);
        let bindable = internal_type_variables(&types[i]);
        let mut subst = Subst::new();
        if compatible_with_bindable(env, candidate, &types[i], &mut subst, &bindable).is_ok() {
            return true;
        }
        i = i + 1;
    }
    false
}

// ---------------------------------------------------------------------------
// Laws
// ---------------------------------------------------------------------------

proof fn lemma_collides_at(world: World, candidate: Ty, types: Seq<Ty>, n: int, i: int)
    requires
        0 <= i <= n < types.len(),
        types[n] == candidate,
    ensures
        collides_from(world, candidate, types, i),
    decreases n - i,
{
    if i < n {
        lemma_collides_at(world, candidate, types, n, i + 1);
    }
}

/// Every function of the language but `str`, whose signature follows the call, has
/// signatures.
pub proof fn lemma_signatures_listed(builtin: Builtin)
    requires
        !(builtin is Str),
    ensures
        fixed_signatures(builtin).len() > 0,
{
}

/// A candidate with a signature of the function that the language provides under its name
/// collides with it.
pub proof fn lemma_own_signatures_collide(world: World, name: Seq<char>, i: int)
    requires
        0 <= i < overload_types(name, None).len(),
    ensures
        collides(world, name, overload_types(name, None)[i]),
{
    let builtin = builtin_of(name)->Some_0;
    let candidate = fixed_signatures(builtin)[i];
    let types = signatures(builtin, Some(candidate));
    assert(types[i] == candidate);
    lemma_collides_at(world, candidate, types, i, 0);
}

/// Every function that returns a text collides with `str`.
pub proof fn lemma_str_collides(world: World, name: Seq<char>, params: Seq<Ty>)
    requires
        builtin_of(name) == Some(Builtin::Str),
    ensures
        collides(world, name, ty_function(params, Ty::String)),
{
    let candidate = ty_function(params, Ty::String);
    lemma_collides_at(world, candidate, signatures(Builtin::Str, Some(candidate)), 0, 0);
}

} // verus!
