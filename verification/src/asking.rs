//! What an evaluation has to ask its host, and the functions that do so.

use crate::builtins::{Builtin, builtin_name};
use crate::collections::{Kept, entries_of, group_entries};
use crate::content::{
    field_value, find_value, insert_field, put_field, val_json, value_to_json, valued,
};
use crate::declare::{Concrete, ConcreteType, concretes, copy_concretes, same_concretes};
use crate::descriptors::{
    compute_descriptor, compute_host_input, compute_packed, descriptor_list, descriptor_result,
    descriptors_in, host_input, packed_result,
};
use crate::env::{Env, World};
use crate::error::{Failure, MagError, verdict};
use crate::files::reads;
use crate::json::json_text;
use crate::primitives::{
    arity, compute_map, compute_record, compute_set, compute_text, eval_error, map_result,
    record_result, set_result, text_result, type_error, type_failure,
};
use crate::rules::{exact_count, takes_exactly};
use crate::strings::{replace_text, replaced};
use crate::text::{cat2, cat3, same_text};
use crate::validity::{shown, value_string};
use crate::value::{Val, Value, bare, raw, val_entries, val_fields, val_kind, vals};
use vstd::prelude::*;

verus! {

/// A question for the host.
#[derive(Debug)]
pub enum Question {
    /// The value of a decimal notation.
    Number(String),
    /// The schema of a type.
    Schema(ConcreteType),
    /// Whether a document in the form of a text fits the schema of a type: any value says
    /// that it does, and an ill reply why it does not.
    Valid(ConcreteType, String),
    /// The stable identity of a type.
    TypeId(ConcreteType),
    /// Whether an edge can lead from a source type, the second one, to a target.
    Accepts(ConcreteType, ConcreteType),
    /// Whether source types supply everything that a target type takes.
    InputCovered(ConcreteType, Vec<ConcreteType>),
    /// Which position of a target type each source type supplies.
    Assignments(ConcreteType, Vec<ConcreteType>),
    /// Whether handlers take everything that a target type yields.
    OutputCovered(ConcreteType, Vec<ConcreteType>),
    /// The declarations that a type consists of: a map from their identities to their
    /// descriptors.
    Declarations(ConcreteType),
    /// Where a file of the workspace lies: the text of its full path.
    Locate(String),
    /// Where a document of the workspace or of the modules lies: the text of its full path.
    LocateJson(String),
    /// The text of a file at a full path.
    File(String),
    /// The document that a text stands for.
    Document(String),
    /// The source text of a module.
    Module(String),
    /// The imports that would define a name: a list of texts.
    Imports(String),
}

pub ghost enum Query {
    Number(Seq<char>),
    Schema(Concrete),
    Valid(Concrete, Seq<char>),
    TypeId(Concrete),
    Accepts(Concrete, Concrete),
    InputCovered(Concrete, Seq<Concrete>),
    Assignments(Concrete, Seq<Concrete>),
    OutputCovered(Concrete, Seq<Concrete>),
    Declarations(Concrete),
    Locate(Seq<char>),
    LocateJson(Seq<char>),
    File(Seq<char>),
    Document(Seq<char>),
    Module(Seq<char>),
    Imports(Seq<char>),
}

impl Question {
    pub open spec fn view(&self) -> Query {
        match self {
            Question::Number(notation) => Query::Number(notation@),
            Question::Schema(ty) => Query::Schema(ty@),
            Question::Valid(ty, text) => Query::Valid(ty@, text@),
            Question::TypeId(ty) => Query::TypeId(ty@),
            Question::Accepts(target, source) => Query::Accepts(target@, source@),
            Question::InputCovered(target, list) => Query::InputCovered(
                target@,
                concretes(list@),
            ),
            Question::Assignments(target, list) => Query::Assignments(target@, concretes(list@)),
            Question::OutputCovered(target, list) => Query::OutputCovered(
                target@,
                concretes(list@),
            ),
            Question::Declarations(ty) => Query::Declarations(ty@),
            Question::Locate(path) => Query::Locate(path@),
            Question::LocateJson(path) => Query::LocateJson(path@),
            Question::File(path) => Query::File(path@),
            Question::Document(text) => Query::Document(text@),
            Question::Module(name) => Query::Module(name@),
            Question::Imports(name) => Query::Imports(name@),
        }
    }

    pub fn copy(&self) -> (copy: Self)
        ensures
            copy@ == self@,
    {
        match self {
            Question::Number(notation) => Question::Number(notation.clone()),
            Question::Schema(ty) => Question::Schema(ty.copy()),
            Question::Valid(ty, text) => Question::Valid(ty.copy(), text.clone()),
            Question::TypeId(ty) => Question::TypeId(ty.copy()),
            Question::Accepts(target, source) => Question::Accepts(target.copy(), source.copy()),
            Question::InputCovered(target, list) => Question::InputCovered(
                target.copy(),
                copy_concretes(list),
            ),
            Question::Assignments(target, list) => Question::Assignments(
                target.copy(),
                copy_concretes(list),
            ),
            Question::OutputCovered(target, list) => Question::OutputCovered(
                target.copy(),
                copy_concretes(list),
            ),
            Question::Declarations(ty) => Question::Declarations(ty.copy()),
            Question::Locate(path) => Question::Locate(path.clone()),
            Question::LocateJson(path) => Question::LocateJson(path.clone()),
            Question::File(path) => Question::File(path.clone()),
            Question::Document(text) => Question::Document(text.clone()),
            Question::Module(name) => Question::Module(name.clone()),
            Question::Imports(name) => Question::Imports(name.clone()),
        }
    }

    /// Whether two questions are the same.
    pub fn same(&self, other: &Question) -> (same: bool)
        ensures
            same == (self@ == other@),
    {
        match (self, other) {
            (Question::Number(left), Question::Number(right)) => same_text(
                left.as_str(),
                right.as_str(),
            ),
            (Question::Schema(left), Question::Schema(right)) => left.same(right),
            (Question::Valid(ty, text), Question::Valid(other_ty, other_text)) => ty.same(other_ty)
                && same_text(text.as_str(), other_text.as_str()),
            (Question::TypeId(left), Question::TypeId(right)) => left.same(right),
            (Question::Accepts(target, source), Question::Accepts(other_target, other_source)) =>
            target.same(other_target) && source.same(other_source),
            (Question::InputCovered(target, list), Question::InputCovered(other_target, others)) =>
            target.same(other_target) && same_concretes(list, others),
            (Question::Assignments(target, list), Question::Assignments(other_target, others)) =>
            target.same(other_target) && same_concretes(list, others),
            (Question::OutputCovered(target, list), Question::OutputCovered(other_target, others))
            => target.same(other_target) && same_concretes(list, others),
            (Question::Declarations(left), Question::Declarations(right)) => left.same(right),
            (Question::Locate(left), Question::Locate(right)) => same_text(
                left.as_str(),
                right.as_str(),
            ),
            (Question::LocateJson(left), Question::LocateJson(right)) => same_text(
                left.as_str(),
                right.as_str(),
            ),
            (Question::File(left), Question::File(right)) => same_text(
                left.as_str(),
                right.as_str(),
            ),
            (Question::Document(left), Question::Document(right)) => same_text(
                left.as_str(),
                right.as_str(),
            ),
            (Question::Module(left), Question::Module(right)) => same_text(
                left.as_str(),
                right.as_str(),
            ),
            (Question::Imports(left), Question::Imports(right)) => same_text(
                left.as_str(),
                right.as_str(),
            ),
            _ => false,
        }
    }
}

/// The host's answer: a value, or the reason why there is none.
#[derive(Debug)]
pub enum Reply {
    Value(Value),
    Ill(String),
    Failed(String),
}

impl Reply {
    pub open spec fn view(&self) -> Result<Val, Failure> {
        match self {
            Reply::Value(value) => Ok(value@),
            Reply::Ill(message) => Err(Failure::Type(message@)),
            Reply::Failed(message) => Err(Failure::Eval(message@)),
        }
    }

    pub fn copy(&self) -> (copy: Self)
        ensures
            copy@ == self@,
    {
        match self {
            Reply::Value(value) => Reply::Value(value.copy()),
            Reply::Ill(message) => Reply::Ill(message.clone()),
            Reply::Failed(message) => Reply::Failed(message.clone()),
        }
    }
}

pub open spec fn reply_views(replies: Seq<(Question, Reply)>) -> Seq<
    (Query, Result<Val, Failure>),
> {
    Seq::new(replies.len(), |i: int| (replies[i].0.view(), replies[i].1.view()))
}

/// Why an evaluation stops: it failed, or it needs an answer.
#[derive(Debug)]
pub enum Stop {
    Failed(MagError),
    Ask(Question),
}

pub ghost enum Halt {
    Failed(Failure),
    Asked(Query),
}

impl Stop {
    pub open spec fn view(&self) -> Halt {
        match self {
            Stop::Failed(error) => Halt::Failed(error@),
            Stop::Ask(question) => Halt::Asked(question@),
        }
    }
}

/// The view of what an evaluation came to.
pub open spec fn came_to(result: Result<Value, Stop>) -> Result<Val, Halt> {
    match result {
        Ok(value) => Ok(value@),
        Err(stop) => Err(stop@),
    }
}

pub open spec fn failing(result: Result<Val, Failure>) -> Result<Val, Halt> {
    match result {
        Ok(value) => Ok(value),
        Err(failure) => Err(Halt::Failed(failure)),
    }
}

pub fn stopping(result: Result<Value, MagError>) -> (stopped: Result<Value, Stop>)
    ensures
        came_to(stopped) == failing(valued(result)),
{
    match result {
        Ok(value) => Ok(value),
        Err(error) => Err(Stop::Failed(error)),
    }
}

/// The first answer to a question, from index `i` on.
pub open spec fn answered_from(
    replies: Seq<(Query, Result<Val, Failure>)>,
    query: Query,
    i: int,
) -> Result<Val, Halt>
    decreases replies.len() - i,
{
    if i < 0 || i >= replies.len() {
        Err(Halt::Asked(query))
    } else if replies[i].0 == query {
        failing(replies[i].1)
    } else {
        answered_from(replies, query, i + 1)
    }
}

pub open spec fn answered(replies: Seq<(Query, Result<Val, Failure>)>, query: Query) -> Result<
    Val,
    Halt,
> {
    answered_from(replies, query, 0)
}

pub fn answer(replies: &Vec<(Question, Reply)>, question: Question) -> (result: Result<Value, Stop>)
    ensures
        came_to(result) == answered(reply_views(replies@), question@),
{
    let ghost all = reply_views(replies@);
    let mut i: usize = 0;
    while i < replies.len()
        invariant
            i <= replies@.len(),
            all == reply_views(replies@),
            answered(all, question@) == answered_from(all, question@, i as int),
        decreases replies@.len() - i,
    {
        let entry = &replies[i];
        assert(all[i as int] == (entry.0@, entry.1@));
        if entry.0.same(&question) {
            return match &entry.1 {
                Reply::Value(value) => Ok(value.copy()),
                Reply::Ill(message) => Err(Stop::Failed(MagError::Type(message.clone()))),
                Reply::Failed(message) => Err(Stop::Failed(MagError::Eval(message.clone()))),
            };
        }
        i = i + 1;
    }
    Err(Stop::Ask(question))
}

// ---------------------------------------------------------------------------
// Functions that ask
// ---------------------------------------------------------------------------

pub open spec fn halted(failure: Failure) -> Result<Val, Halt> {
    Err(Halt::Failed(failure))
}

/// A text with the values of named fields in place of `{{name}}`.
pub open spec fn interpolated(text: Seq<char>, fields: Seq<(Seq<char>, Val)>, i: int) -> Seq<char>
    decreases fields.len() - i,
{
    if i < 0 || i >= fields.len() {
        text
    } else {
        interpolated(
            replaced(text, "{{"@ + fields[i].0 + "}}"@, shown(fields[i].1)),
            fields,
            i + 1,
        )
    }
}

pub fn interpolate(text: String, fields: &Vec<(String, Value)>) -> (result: String)
    ensures
        result@ == interpolated(text@, val_fields(fields@), 0),
{
    let ghost all = val_fields(fields@);
    let ghost start = text@;
    let mut text = text;
    let mut i: usize = 0;
    while i < fields.len()
        invariant
            i <= fields@.len(),
            all == val_fields(fields@),
            interpolated(start, all, 0) == interpolated(text@, all, i as int),
        decreases fields@.len() - i,
    {
        let field = &fields[i];
        assert(all[i as int] == (field.0@, field.1@));
        let pattern = cat3("{{", field.0.as_str(), "}}");
        let with = value_string(&field.1);
        text = replace_text(text.as_str(), pattern.as_str(), with.as_str());
        i = i + 1;
    }
    text
}

/// The functions that ask about one type.
pub open spec fn single_question(builtin: Builtin, args: Seq<Val>) -> Result<Query, Failure> {
    match builtin {
        Builtin::TypeSchema => match bare(args[0]) {
            Val::TypeTag(ty) => Ok(Query::Schema(ty)),
            other => Err(Failure::Type("type_schema expects TypeTag, got "@ + val_kind(other))),
        },
        Builtin::DescriptorSchema => match bare(args[0]) {
            Val::TypeDescriptor(ty) => Ok(Query::Schema(ty)),
            _ => Err(type_failure(builtin, " expects a TypeDescriptor"@)),
        },
        Builtin::TypeId => match bare(args[0]) {
            Val::TypeDescriptor(ty) => Ok(Query::TypeId(ty)),
            _ => Err(type_failure(builtin, " expects a TypeDescriptor"@)),
        },
        Builtin::ValueTypeId => match bare(args[1]) {
            Val::TypeTag(ty) => Ok(Query::TypeId(ty)),
            Val::TypeDescriptor(ty) => Ok(Query::TypeId(ty)),
            _ => Err(Failure::Type("value type evidence must be TypeTag or TypeDescriptor"@)),
        },
        _ => match (bare(args[0]), bare(args[1])) {
            (Val::TypeDescriptor(target), Val::TypeDescriptor(source)) => Ok(
                Query::Accepts(target, source),
            ),
            _ => Err(type_failure(builtin, " expects TypeDescriptor arguments"@)),
        },
    }
}

/// The functions that ask about a list of types.
pub open spec fn list_question(builtin: Builtin, args: Seq<Val>) -> Result<Query, Failure> {
    let message = builtin_name(builtin) + " expects a descriptor list"@;
    match bare(args[0]) {
        Val::TypeDescriptor(target) => match descriptors_in(args[1], message) {
            Ok(list) => Ok(
                match builtin {
                    Builtin::DescriptorInputCoveredBy => Query::InputCovered(target, list),
                    Builtin::DescriptorInputAssignments => Query::Assignments(target, list),
                    _ => Query::OutputCovered(target, list),
                },
            ),
            Err(failure) => Err(failure),
        },
        _ => Err(type_failure(builtin, " expects a TypeDescriptor target"@)),
    }
}

pub open spec fn questioned(result: Result<Question, MagError>) -> Result<Query, Failure> {
    match result {
        Ok(question) => Ok(question@),
        Err(error) => Err(error@),
    }
}

fn pose_single(builtin: Builtin, args: &Vec<Value>) -> (result: Result<Question, MagError>)
    requires
        args@.len() == takes_exactly(builtin),
        builtin is TypeSchema || builtin is DescriptorSchema || builtin is TypeId
            || builtin is ValueTypeId || builtin is DescriptorAccepts,
    ensures
        questioned(result) == single_question(builtin, vals(args@)),
{
    let ghost all = vals(args@);
    assert(all[0] == args@[0]@);
    assert(args@.len() > 1 ==> all[1] == args@[1]@);
    match builtin {
        Builtin::TypeSchema => match raw(&args[0]) {
            Value::TypeTag(ty) => Ok(Question::Schema(ty.copy())),
            other => Err(
                MagError::Type(cat2("type_schema expects TypeTag, got ", other.kind_name())),
            ),
        },
        Builtin::DescriptorSchema => match raw(&args[0]) {
            Value::TypeDescriptor(ty) => Ok(Question::Schema(ty.copy())),
            _ => Err(type_error(builtin, " expects a TypeDescriptor")),
        },
        Builtin::TypeId => match raw(&args[0]) {
            Value::TypeDescriptor(ty) => Ok(Question::TypeId(ty.copy())),
            _ => Err(type_error(builtin, " expects a TypeDescriptor")),
        },
        Builtin::ValueTypeId => match raw(&args[1]) {
            Value::TypeTag(ty) => Ok(Question::TypeId(ty.copy())),
            Value::TypeDescriptor(ty) => Ok(Question::TypeId(ty.copy())),
            _ => Err(
                MagError::Type(
                    "value type evidence must be TypeTag or TypeDescriptor".to_owned(),
                ),
            ),
        },
        _ => match (raw(&args[0]), raw(&args[1])) {
            (Value::TypeDescriptor(target), Value::TypeDescriptor(source)) => Ok(
                Question::Accepts(target.copy(), source.copy()),
            ),
            _ => Err(type_error(builtin, " expects TypeDescriptor arguments")),
        },
    }
}

fn pose_list(builtin: Builtin, args: &Vec<Value>) -> (result: Result<Question, MagError>)
    requires
        args@.len() == takes_exactly(builtin),
        builtin is DescriptorInputCoveredBy || builtin is DescriptorInputAssignments
            || builtin is DescriptorOutputCoveredBy,
    ensures
        questioned(result) == list_question(builtin, vals(args@)),
{
    let ghost all = vals(args@);
    assert(all[0] == args@[0]@);
    assert(args@.len() > 1 ==> all[1] == args@[1]@);
    let message = cat2(builtin.name(), " expects a descriptor list");
    match raw(&args[0]) {
        Value::TypeDescriptor(target) => match descriptor_list(&args[1], message.as_str()) {
            Ok(list) => Ok(
                match builtin {
                    Builtin::DescriptorInputCoveredBy => Question::InputCovered(
                        target.copy(),
                        list,
                    ),
                    Builtin::DescriptorInputAssignments => Question::Assignments(
                        target.copy(),
                        list,
                    ),
                    _ => Question::OutputCovered(target.copy(), list),
                },
            ),
            Err(error) => Err(error),
        },
        _ => Err(type_error(builtin, " expects a TypeDescriptor target")),
    }
}

/// The function `conforms`: whether a value, as a document, fits the schema of a
/// type; nothing fits a type that has none.
pub open spec fn conformity(replies: Seq<(Query, Result<Val, Failure>)>, args: Seq<Val>) -> Result<
    Val,
    Halt,
> {
    match bare(args[1]) {
        Val::TypeDescriptor(ty) => match answered(replies, Query::Schema(ty)) {
            Err(Halt::Failed(_)) => Ok(Val::Bool(false)),
            Err(halt) => Err(halt),
            Ok(_) => match val_json(args[0]) {
                Err(failure) => halted(failure),
                Ok(data) => match answered(replies, Query::Valid(ty, json_text(data))) {
                    Ok(_) => Ok(Val::Bool(true)),
                    Err(Halt::Failed(Failure::Type(_))) => Ok(Val::Bool(false)),
                    Err(halt) => Err(halt),
                },
            },
        },
        _ => halted(Failure::Type("conforms expects a TypeDescriptor"@)),
    }
}

fn compute_conformity(replies: &Vec<(Question, Reply)>, args: &Vec<Value>) -> (result: Result<
    Value,
    Stop,
>)
    requires
        args@.len() == 2,
    ensures
        came_to(result) == conformity(reply_views(replies@), vals(args@)),
{
    let ghost all = vals(args@);
    assert(all[0] == args@[0]@ && all[1] == args@[1]@);
    let ty = match raw(&args[1]) {
        Value::TypeDescriptor(ty) => ty,
        _ => return Err(
            Stop::Failed(MagError::Type("conforms expects a TypeDescriptor".to_owned())),
        ),
    };
    match answer(replies, Question::Schema(ty.copy())) {
        Err(Stop::Failed(_)) => return Ok(Value::Bool(false)),
        Err(stop) => return Err(stop),
        Ok(_) => {},
    }
    match value_to_json(&args[0]) {
        Err(error) => Err(Stop::Failed(error)),
        Ok(json) => match answer(replies, Question::Valid(ty.copy(), json.to_text())) {
            Ok(_) => Ok(Value::Bool(true)),
            Err(Stop::Failed(MagError::Type(_))) => Ok(Value::Bool(false)),
            Err(stop) => Err(stop),
        },
    }
}

pub open spec fn malformed_declarations() -> Failure {
    Failure::Eval("the declarations of a type are malformed"@)
}

/// A table of declarations with more of them, from index `i` on. One identity cannot stand
/// for two declarations.
pub open spec fn declared_into(table: Kept, entries: Seq<(Val, Val)>, i: int) -> Result<Kept, Failure>
    decreases entries.len() - i,
{
    if i < 0 || i >= entries.len() {
        Ok(table)
    } else {
        match entries[i] {
            (Val::Str(id), Val::TypeDescriptor(ty)) => match field_value(table, id, 0) {
                None => declared_into(
                    put_field(table, id, Val::TypeDescriptor(ty)),
                    entries,
                    i + 1,
                ),
                Some(existing) => if existing == Val::TypeDescriptor(ty) {
                    declared_into(table, entries, i + 1)
                } else {
                    Err(Failure::Type("semantic type identity collision at "@ + id))
                },
            },
            _ => Err(malformed_declarations()),
        }
    }
}

/// A table with the declarations of types, from index `i` on.
pub open spec fn table_from(
    replies: Seq<(Query, Result<Val, Failure>)>,
    list: Seq<Concrete>,
    i: int,
    table: Kept,
) -> Result<Kept, Halt>
    decreases list.len() - i,
{
    if i < 0 || i >= list.len() {
        Ok(table)
    } else {
        match answered(replies, Query::Declarations(list[i])) {
            Err(halt) => Err(halt),
            Ok(value) => match value {
                Val::MapOf(entries) => match declared_into(table, entries, 0) {
                    Err(failure) => Err(Halt::Failed(failure)),
                    Ok(more) => table_from(replies, list, i + 1, more),
                },
                _ => Err(Halt::Failed(malformed_declarations())),
            },
        }
    }
}

/// The function `descriptor_table`: the declarations that types consist of, by their
/// identities.
pub open spec fn descriptor_table(
    replies: Seq<(Query, Result<Val, Failure>)>,
    args: Seq<Val>,
) -> Result<Val, Halt> {
    match descriptors_in(args[0], "descriptor_table expects a descriptor list"@) {
        Err(failure) => halted(failure),
        Ok(list) => match table_from(replies, list, 0, Seq::empty()) {
            Err(halt) => Err(halt),
            Ok(table) => Ok(Val::MapOf(group_entries(table))),
        },
    }
}

fn malformed() -> (error: MagError)
    ensures
        error@ == malformed_declarations(),
{
    eval_error("the declarations of a type are malformed")
}

fn add_declarations(table: &mut Vec<(String, Value)>, entries: &Vec<(Value, Value)>) -> (result:
    Result<(), MagError>)
    ensures
        match declared_into(val_fields(old(table)@), val_entries(entries@), 0) {
            Ok(view) => result is Ok && val_fields(final(table)@) == view,
            Err(failure) => verdict(result) == Err::<(), Failure>(failure),
        },
{
    let ghost all = val_entries(entries@);
    let ghost whole = declared_into(val_fields(table@), all, 0);
    let mut i: usize = 0;
    while i < entries.len()
        invariant
            i <= entries@.len(),
            all == val_entries(entries@),
            all.len() == entries@.len(),
            whole == declared_into(val_fields(old(table)@), all, 0),
            whole == declared_into(val_fields(table@), all, i as int),
        decreases entries@.len() - i,
    {
        let entry = &entries[i];
        assert(all[i as int] == (entry.0@, entry.1@));
        match (&entry.0, &entry.1) {
            (Value::Str(id), Value::TypeDescriptor(ty)) => {
                let known = match find_value(table, id.as_str()) {
                    None => None,
                    Some(Value::TypeDescriptor(existing)) => Some(existing.same(ty)),
                    Some(_) => Some(false),
                };
                match known {
                    None => {
                        let value = Value::TypeDescriptor(ty.copy());
                        assert(value@ == Val::TypeDescriptor(ty@));
                        insert_field(table, id.clone(), value);
                    },
                    Some(true) => {},
                    Some(false) => {
                        return Err(
                            MagError::Type(
                                cat2("semantic type identity collision at ", id.as_str()),
                            ),
                        );
                    },
                }
            },
            _ => {
                return Err(malformed());
            },
        }
        i = i + 1;
    }
    Ok(())
}

fn compute_table(replies: &Vec<(Question, Reply)>, args: &Vec<Value>) -> (result: Result<Value, Stop>)
    requires
        args@.len() == 1,
    ensures
        came_to(result) == descriptor_table(reply_views(replies@), vals(args@)),
{
    let ghost given = vals(args@);
    let ghost answers = reply_views(replies@);
    assert(given[0] == args@[0]@);
    let list = match descriptor_list(&args[0], "descriptor_table expects a descriptor list") {
        Err(error) => return Err(Stop::Failed(error)),
        Ok(list) => list,
    };
    let ghost all = concretes(list@);
    let mut table: Vec<(String, Value)> = Vec::new();
    assert(val_fields(table@) =~= Seq::<(Seq<char>, Val)>::empty());
    let ghost whole = table_from(answers, all, 0, Seq::empty());
    let mut i: usize = 0;
    while i < list.len()
        invariant
            i <= list@.len(),
            all == concretes(list@),
            all.len() == list@.len(),
            answers == reply_views(replies@),
            given == vals(args@),
            descriptors_in(given[0], "descriptor_table expects a descriptor list"@) == Ok::<
                Seq<Concrete>,
                Failure,
            >(all),
            whole == table_from(answers, all, 0, Seq::empty()),
            whole == table_from(answers, all, i as int, val_fields(table@)),
        decreases list@.len() - i,
    {
        assert(all[i as int] == list@[i as int]@);
        match answer(replies, Question::Declarations(list[i].copy())) {
            Err(stop) => return Err(stop),
            Ok(value) => match &value {
                Value::MapOf(entries) => match add_declarations(&mut table, entries) {
                    Err(error) => return Err(Stop::Failed(error)),
                    Ok(_) => {},
                },
                _ => return Err(Stop::Failed(malformed())),
            },
        }
        i = i + 1;
    }
    Ok(Value::MapOf(entries_of(&table)))
}

/// The functions that ask the host.
pub open spec fn asking_result(
    replies: Seq<(Query, Result<Val, Failure>)>,
    builtin: Builtin,
    args: Seq<Val>,
) -> Result<Val, Halt> {
    match builtin {
        Builtin::Conforms => conformity(replies, args),
        Builtin::DescriptorTable => descriptor_table(replies, args),
        Builtin::DescriptorInputCoveredBy
        | Builtin::DescriptorInputAssignments
        | Builtin::DescriptorOutputCoveredBy => match list_question(builtin, args) {
            Ok(query) => answered(replies, query),
            Err(failure) => halted(failure),
        },
        _ => match single_question(builtin, args) {
            Ok(query) => answered(replies, query),
            Err(failure) => halted(failure),
        },
    }
}

pub(crate) fn compute_asking(
    replies: &Vec<(Question, Reply)>,
    builtin: Builtin,
    args: &Vec<Value>,
) -> (result: Result<Value, Stop>)
    requires
        args@.len() == takes_exactly(builtin),
        builtin is Conforms || builtin is DescriptorInputCoveredBy
            || builtin is DescriptorInputAssignments || builtin is DescriptorOutputCoveredBy
            || builtin is DescriptorTable || builtin is TypeSchema || builtin is DescriptorSchema
            || builtin is TypeId || builtin is ValueTypeId || builtin is DescriptorAccepts,
    ensures
        came_to(result) == asking_result(reply_views(replies@), builtin, vals(args@)),
{
    match builtin {
        Builtin::Conforms => compute_conformity(replies, args),
        Builtin::DescriptorTable => compute_table(replies, args),
        Builtin::DescriptorInputCoveredBy
        | Builtin::DescriptorInputAssignments
        | Builtin::DescriptorOutputCoveredBy => match pose_list(builtin, args) {
            Ok(question) => answer(replies, question),
            Err(error) => Err(Stop::Failed(error)),
        },
        _ => match pose_single(builtin, args) {
            Ok(question) => answer(replies, question),
            Err(error) => Err(Stop::Failed(error)),
        },
    }
}

// ---------------------------------------------------------------------------
// All functions that call nothing back and read no file
// ---------------------------------------------------------------------------

/// Whether a function calls one of its arguments.
pub open spec fn calls_back(builtin: Builtin) -> bool {
    builtin is MapList || builtin is GroupBy || builtin is IndexedMap || builtin is Filter
        || builtin is FlatMap || builtin is Fold || builtin is SortBy
}

/// What a function makes of arguments of the right number.
pub open spec fn made(
    world: World,
    replies: Seq<(Query, Result<Val, Failure>)>,
    builtin: Builtin,
    args: Seq<Val>,
) -> Result<Val, Halt> {
    match builtin {
        Builtin::SetEmpty => Ok(Val::SetOf(Seq::empty())),
        Builtin::MapInsert
        | Builtin::MapPut
        | Builtin::MapGet
        | Builtin::MapGetOr
        | Builtin::MapContains
        | Builtin::MapCount
        | Builtin::MapUnionLeft => failing(map_result(world, builtin, args)),
        Builtin::SetInsert | Builtin::SetContains | Builtin::SetCount => failing(
            set_result(world, builtin, args),
        ),
        Builtin::StripMargin
        | Builtin::Replace
        | Builtin::Canonical
        | Builtin::FunctionName
        | Builtin::Or
        | Builtin::Not
        | Builtin::IntMul
        | Builtin::IntGt
        | Builtin::Fail
        | Builtin::Artifact
        | Builtin::Pack => failing(text_result(builtin, args)),
        Builtin::Concat
        | Builtin::Get
        | Builtin::Assoc
        | Builtin::Keys
        | Builtin::Count
        | Builtin::First
        | Builtin::RemoveAt
        | Builtin::Equal => failing(record_result(world, builtin, args)),
        Builtin::TypeEvidence
        | Builtin::TypeConstructor
        | Builtin::AdtConstructorPayload
        | Builtin::TypeArguments
        | Builtin::TypeComponents
        | Builtin::ListType
        | Builtin::ValueTypeEvidence
        | Builtin::DescriptorAcceptsValue => failing(descriptor_result(builtin, args)),
        Builtin::PackedEmptyRecord
        | Builtin::PackedPathStrings
        | Builtin::PackedRecordHasOnlyKey
        | Builtin::PackedRecordHasOnlyKeys
        | Builtin::PackedFieldConforms => failing(packed_result(world, builtin, args)),
        Builtin::HostInput => failing(host_input(world, args)),
        _ => asking_result(replies, builtin, args),
    }
}

/// What a function that calls nothing back makes of arguments.
pub open spec fn computed(
    world: World,
    replies: Seq<(Query, Result<Val, Failure>)>,
    builtin: Builtin,
    args: Seq<Val>,
) -> Result<Val, Halt> {
    match builtin {
        Builtin::MapEmpty => if 1 <= args.len() <= 2 {
            Ok(Val::MapOf(Seq::empty()))
        } else {
            halted(Failure::Arity { expected: 1, got: args.len() })
        },
        Builtin::Str => failing(text_result(builtin, args)),
        Builtin::Require => halted(Failure::Eval("require is a special form"@)),
        _ => if args.len() == takes_exactly(builtin) {
            made(world, replies, builtin, args)
        } else {
            halted(Failure::Arity { expected: takes_exactly(builtin), got: args.len() })
        },
    }
}

fn make(env: &Env, replies: &Vec<(Question, Reply)>, builtin: Builtin, args: &Vec<Value>) -> (result:
    Result<Value, Stop>)
    requires
        args@.len() == takes_exactly(builtin),
        !calls_back(builtin),
        !reads(builtin),
        !(builtin is MapEmpty || builtin is Str || builtin is Require),
    ensures
        came_to(result) == made(env@, reply_views(replies@), builtin, vals(args@)),
{
    match builtin {
        Builtin::SetEmpty => {
            let items: Vec<Value> = Vec::new();
            assert(vals(items@) =~= Seq::<Val>::empty());
            Ok(Value::SetOf(items))
        },
        Builtin::MapInsert
        | Builtin::MapPut
        | Builtin::MapGet
        | Builtin::MapGetOr
        | Builtin::MapContains
        | Builtin::MapCount
        | Builtin::MapUnionLeft => stopping(compute_map(env, builtin, args)),
        Builtin::SetInsert | Builtin::SetContains | Builtin::SetCount => stopping(
            compute_set(env, builtin, args),
        ),
        Builtin::StripMargin
        | Builtin::Replace
        | Builtin::Canonical
        | Builtin::FunctionName
        | Builtin::Or
        | Builtin::Not
        | Builtin::IntMul
        | Builtin::IntGt
        | Builtin::Fail
        | Builtin::Artifact
        | Builtin::Pack => stopping(compute_text(builtin, args)),
        Builtin::Concat
        | Builtin::Get
        | Builtin::Assoc
        | Builtin::Keys
        | Builtin::Count
        | Builtin::First
        | Builtin::RemoveAt
        | Builtin::Equal => stopping(compute_record(env, builtin, args)),
        Builtin::TypeEvidence
        | Builtin::TypeConstructor
        | Builtin::AdtConstructorPayload
        | Builtin::TypeArguments
        | Builtin::TypeComponents
        | Builtin::ListType
        | Builtin::ValueTypeEvidence
        | Builtin::DescriptorAcceptsValue => stopping(compute_descriptor(builtin, args)),
        Builtin::PackedEmptyRecord
        | Builtin::PackedPathStrings
        | Builtin::PackedRecordHasOnlyKey
        | Builtin::PackedRecordHasOnlyKeys
        | Builtin::PackedFieldConforms => stopping(compute_packed(env, builtin, args)),
        Builtin::HostInput => stopping(compute_host_input(env, args)),
        _ => compute_asking(replies, builtin, args),
    }
}

/// Evaluates a function that calls nothing back.
pub fn builtin(
    env: &Env,
    replies: &Vec<(Question, Reply)>,
    function: Builtin,
    args: &Vec<Value>,
) -> (result: Result<Value, Stop>)
    requires
        !calls_back(function),
        !reads(function),
    ensures
        came_to(result) == computed(env@, reply_views(replies@), function, vals(args@)),
{
    assert(vals(args@).len() == args@.len());
    match function {
        Builtin::MapEmpty => {
            if args.len() < 1 || args.len() > 2 {
                return Err(Stop::Failed(MagError::Arity { expected: 1, got: args.len() }));
            }
            let entries: Vec<(Value, Value)> = Vec::new();
            assert(val_entries(entries@) =~= Seq::<(Val, Val)>::empty());
            Ok(Value::MapOf(entries))
        },
        Builtin::Str => stopping(compute_text(function, args)),
        Builtin::Require => Err(Stop::Failed(eval_error("require is a special form"))),
        _ => match arity(args, exact_count(function)) {
            Ok(_) => make(env, replies, function, args),
            Err(error) => Err(Stop::Failed(error)),
        },
    }
}

} // verus!
