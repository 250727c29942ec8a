//! The contracts that a compilation is given, and how its failures are classified.

use crate::content::{find_member, member_at};
use crate::error::{Failure, MagError};
use crate::json::{Data, Json, copy_items, data_items, data_members};
use crate::text::same_text;
use vstd::prelude::*;

verus! {

/// The contracts in a registry snapshot: a list, or an object that has one under
/// `foreign_contracts`.
pub open spec fn contracts_in(data: Data) -> Option<Seq<Data>> {
    match data {
        Data::Array(items) => Some(items),
        Data::Object(members) => match member_at(members, "foreign_contracts"@, 0) {
            Some(Data::Array(items)) => Some(items),
            _ => None,
        },
        _ => None,
    }
}

pub open spec fn option_data(items: Option<Vec<Json>>) -> Option<Seq<Data>> {
    match items {
        Some(items) => Some(data_items(items@)),
        None => None,
    }
}

/// Finds the contracts in a registry snapshot.
pub fn snapshot_contracts(document: &Json) -> (contracts: Option<Vec<Json>>)
    ensures
        option_data(contracts) == contracts_in(document@),
{
    match document {
        Json::Array(items) => Some(copy_items(items)),
        Json::Object(members) => match find_member(members, "foreign_contracts") {
            Some(Json::Array(items)) => Some(copy_items(items)),
            _ => None,
        },
        _ => None,
    }
}

/// The inputs of a compilation with some contracts.
pub open spec fn contract_inputs(contracts: Seq<Data>) -> Data {
    Data::Object(seq![("foreign_contracts"@, Data::Array(contracts))])
}

/// Makes the inputs of a compilation with some contracts.
pub fn inputs_with_contracts(contracts: Vec<Json>) -> (inputs: Json)
    ensures
        inputs@ == contract_inputs(data_items(contracts@)),
{
    let ghost all = data_items(contracts@);
    let list = Json::Array(contracts);
    assert(list@ == Data::Array(all));
    let mut members: Vec<(String, Json)> = Vec::new();
    members.push(("foreign_contracts".to_owned(), list));
    assert(data_members(members@) =~= seq![("foreign_contracts"@, Data::Array(all))]);
    Json::Object(members)
}

/// The code of a failure, and the stage of a compilation that it belongs to.
pub open spec fn failure_class(failure: Failure) -> (Seq<char>, Seq<char>) {
    match failure {
        Failure::Lex(_) => ("syntax_lex"@, "lex"@),
        Failure::Parse(_) => ("syntax_parse"@, "parse"@),
        Failure::Syntax(diagnostic) => if diagnostic.stage == "lexer"@ {
            ("syntax_lex"@, "lex"@)
        } else {
            ("syntax_parse"@, "parse"@)
        },
        Failure::Type(_) => ("type_error"@, "typecheck"@),
        Failure::Unresolved(_) => ("type_error"@, "typecheck"@),
        Failure::Arity { .. } => ("type_error"@, "typecheck"@),
        Failure::Budget(_) => ("evaluation_budget"@, "evaluate"@),
        _ => ("evaluation_error"@, "evaluate"@),
    }
}

/// Classifies an error.
pub fn error_class(error: &MagError) -> (class: (&'static str, &'static str))
    ensures
        (class.0@, class.1@) == failure_class(error@),
{
    match error {
        MagError::Lex(_) => ("syntax_lex", "lex"),
        MagError::Parse(_) => ("syntax_parse", "parse"),
        MagError::Syntax(diagnostic) => if same_text(diagnostic.stage.as_str(), "lexer") {
            ("syntax_lex", "lex")
        } else {
            ("syntax_parse", "parse")
        },
        MagError::Type(_) => ("type_error", "typecheck"),
        MagError::Unresolved(_) => ("type_error", "typecheck"),
        MagError::Arity { .. } => ("type_error", "typecheck"),
        MagError::Budget(_) => ("evaluation_budget", "evaluate"),
        _ => ("evaluation_error", "evaluate"),
    }
}

} // verus!
