//! Declarations of what is implemented outside of MAG, and evidence of their types.

use crate::content::{concrete_json, concrete_jsons, concrete_type_to_json, concrete_types_to_json};
use crate::declare::{Concrete, ConcreteType, concretes, same_concretes, same_names};
use crate::json::{Data, Json, data_members};
use crate::text::{same_text, texts};
use crate::types::{MagType, Ty, same_types, tys};
use vstd::prelude::*;

verus! {

/// A foreign declaration, with the types that it was specialised to.
#[derive(Debug)]
pub struct ForeignDecl {
    pub name: String,
    pub type_params: Vec<String>,
    pub specialization: Vec<MagType>,
    pub params: MagType,
    pub input: MagType,
    pub output: MagType,
}

pub ghost struct Foreign {
    pub name: Seq<char>,
    pub type_params: Seq<Seq<char>>,
    pub specialization: Seq<Ty>,
    pub params: Ty,
    pub input: Ty,
    pub output: Ty,
}

impl ForeignDecl {
    pub open spec fn view(&self) -> Foreign {
        Foreign {
            name: self.name@,
            type_params: texts(self.type_params@),
            specialization: tys(self.specialization@),
            params: self.params@,
            input: self.input@,
            output: self.output@,
        }
    }

    /// Whether two declarations are the same.
    pub fn same(&self, other: &Self) -> (same: bool)
        ensures
            same == (self@ == other@),
    {
        same_text(self.name.as_str(), other.name.as_str()) && same_names(
            &self.type_params,
            &other.type_params,
        ) && same_types(&self.specialization, &other.specialization) && self.params.same(
            &other.params,
        ) && self.input.same(&other.input) && self.output.same(&other.output)
    }
}

/// Evidence of the types that a foreign declaration is used at.
#[derive(Debug)]
pub struct ForeignEvidence {
    pub identity: String,
    pub arguments: Vec<ConcreteType>,
    pub input: ConcreteType,
    pub output: ConcreteType,
}

pub ghost struct Evidence {
    pub identity: Seq<char>,
    pub arguments: Seq<Concrete>,
    pub input: Concrete,
    pub output: Concrete,
}

/// The document that evidence is written as.
pub open spec fn evidence_json(evidence: Evidence) -> Data {
    Data::Object(
        seq![
            ("version"@, Data::Int(2)),
            ("identity"@, Data::Str(evidence.identity)),
            ("arguments"@, Data::Array(concrete_jsons(evidence.arguments))),
            ("input"@, concrete_json(evidence.input)),
            ("output"@, concrete_json(evidence.output)),
        ],
    )
}

impl ForeignEvidence {
    pub open spec fn view(&self) -> Evidence {
        Evidence {
            identity: self.identity@,
            arguments: concretes(self.arguments@),
            input: self.input@,
            output: self.output@,
        }
    }

    /// Whether two pieces of evidence are the same.
    pub fn same(&self, other: &Self) -> (same: bool)
        ensures
            same == (self@ == other@),
    {
        same_text(self.identity.as_str(), other.identity.as_str()) && same_concretes(
            &self.arguments,
            &other.arguments,
        ) && self.input.same(&other.input) && self.output.same(&other.output)
    }

    /// Writes the evidence as a document.
    pub fn to_json(&self) -> (json: Json)
        ensures
            json@ == evidence_json(self@),
    {
        let arguments = Json::Array(concrete_types_to_json(&self.arguments));
        let input = concrete_type_to_json(&self.input);
        let output = concrete_type_to_json(&self.output);
        let ghost view = seq![
            ("version"@, Data::Int(2)),
            ("identity"@, Data::Str(self.identity@)),
            ("arguments"@, arguments@),
            ("input"@, input@),
            ("output"@, output@),
        ];
        let members = vec![
            ("version".to_owned(), Json::Int(2)),
            ("identity".to_owned(), Json::Str(self.identity.clone())),
            ("arguments".to_owned(), arguments),
            ("input".to_owned(), input),
            ("output".to_owned(), output),
        ];
        assert(data_members(members@) =~= view);
        Json::Object(members)
    }
}

} // verus!
