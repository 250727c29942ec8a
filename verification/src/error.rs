//! The ways in which compilation fails.

use crate::contract::{MagType, Shape, shapes};
use crate::diagnostic::{Diagnostic, SyntaxDiagnostic, diagnostic_text};
use crate::text::{cat2, cat3, cat4, cat6, count_text, decimal, join_texts, joined, texts};
use vstd::prelude::*;

verus! {

#[derive(Debug)]
pub enum MagError {
    Lex(String),
    Parse(String),
    Eval(String),
    Budget(String),
    Type(String),
    Unresolved(String),
    Arity { expected: usize, got: usize },
    Syntax(Box<SyntaxDiagnostic>),
    Graph(String),
    NoTerminal,
    Disconnected { node: String },
    DeadBranch { node: String, variant: MagType, source_type: MagType },
    EdgeTypeMismatch { from: String, to: String, output: MagType, input: MagType },
}

/// What an error says.
pub ghost enum Failure {
    Lex(Seq<char>),
    Parse(Seq<char>),
    Eval(Seq<char>),
    Budget(Seq<char>),
    Type(Seq<char>),
    Unresolved(Seq<char>),
    Arity { expected: nat, got: nat },
    Syntax(Diagnostic),
    Graph(Seq<char>),
    NoTerminal,
    Disconnected { node: Seq<char> },
    DeadBranch { node: Seq<char>, variant: Shape, source_type: Shape },
    EdgeTypeMismatch { from: Seq<char>, to: Seq<char>, output: Shape, input: Shape },
}

impl MagError {
    pub open spec fn view(&self) -> Failure {
        match self {
            MagError::Lex(message) => Failure::Lex(message@),
            MagError::Parse(message) => Failure::Parse(message@),
            MagError::Eval(message) => Failure::Eval(message@),
            MagError::Budget(message) => Failure::Budget(message@),
            MagError::Type(message) => Failure::Type(message@),
            MagError::Unresolved(name) => Failure::Unresolved(name@),
            MagError::Arity { expected, got } => Failure::Arity {
                expected: *expected as nat,
                got: *got as nat,
            },
            MagError::Syntax(diagnostic) => Failure::Syntax((**diagnostic).view()),
            MagError::Graph(message) => Failure::Graph(message@),
            MagError::NoTerminal => Failure::NoTerminal,
            MagError::Disconnected { node } => Failure::Disconnected { node: node@ },
            MagError::DeadBranch { node, variant, source_type } => Failure::DeadBranch {
                node: node@,
                variant: variant.view(),
                source_type: source_type.view(),
            },
            MagError::EdgeTypeMismatch { from, to, output, input } => Failure::EdgeTypeMismatch {
                from: from@,
                to: to@,
                output: output.view(),
                input: input.view(),
            },
        }
    }
}

/// What a check reports.
pub open spec fn verdict(result: Result<(), MagError>) -> Result<(), Failure> {
    match result {
        Ok(_) => Ok(()),
        Err(error) => Err(error.view()),
    }
}

/// A port type as it is written in messages.
pub open spec fn shape_text(shape: Shape) -> Seq<char>
    decreases shape,
{
    match shape {
        Shape::Named(name) => name,
        Shape::Var(name) => name,
        Shape::Union(types) => "("@ + joined(shape_texts(types), " | "@) + ")"@,
        Shape::Intersection(types) => "("@ + joined(shape_texts(types), " + "@) + ")"@,
    }
}

pub open spec fn shape_texts(types: Seq<Shape>) -> Seq<Seq<char>>
    decreases types,
{
    Seq::new(
        types.len(),
        |i: int|
            if 0 <= i < types.len() {
                shape_text(types[i])
            } else {
                arbitrary()
            },
    )
}

/// The message of an error.
pub open spec fn failure_text(failure: Failure) -> Seq<char> {
    match failure {
        Failure::Lex(message) => "lexer: "@ + message,
        Failure::Parse(message) => "parse: "@ + message,
        Failure::Eval(message) => "eval: "@ + message,
        Failure::Budget(message) => "evaluation budget exceeded: "@ + message,
        Failure::Type(message) => "type error: "@ + message,
        Failure::Unresolved(name) => "unresolved symbol: "@ + name,
        Failure::Arity { expected, got } => "arity: expected "@ + decimal(expected) + ", got "@
            + decimal(got),
        Failure::Syntax(diagnostic) => diagnostic_text(diagnostic),
        Failure::Graph(message) => "graph: "@ + message,
        Failure::NoTerminal => "graph: no terminal declared"@,
        Failure::Disconnected { node } => "graph: node '"@ + node + "' is disconnected"@,
        Failure::DeadBranch { node, variant, source_type } => "graph: node '"@ + node
            + "' has no destination for "@ + shape_text(variant) + " of "@ + shape_text(source_type),
        Failure::EdgeTypeMismatch { from, to, output, input } => "graph: edge "@ + from + " -> "@
            + to + " carries "@ + shape_text(output) + (", expected "@ + shape_text(input)),
    }
}

pub fn contract_text(ty: &MagType) -> (text: String)
    ensures
        text@ == shape_text(ty@),
    decreases ty,
{
    match ty {
        MagType::Named(name) => name.clone(),
        MagType::Var(name) => name.clone(),
        MagType::Union(types) => {
            let parts = contract_texts(types);
            let body = join_texts(&parts, " | ");
            cat3("(", body.as_str(), ")")
        },
        MagType::Intersection(types) => {
            let parts = contract_texts(types);
            let body = join_texts(&parts, " + ");
            cat3("(", body.as_str(), ")")
        },
    }
}

fn contract_texts(types: &Vec<MagType>) -> (parts: Vec<String>)
    ensures
        texts(parts@) == shape_texts(shapes(types@)),
    decreases types,
{
    let mut parts: Vec<String> = Vec::new();
    let mut i: usize = 0;
    while i < types.len()
        invariant
            i <= types@.len(),
            parts@.len() == i,
            forall|j: int| 0 <= j < i ==> (#[trigger] parts@[j])@ == shape_text(types@[j]@),
        decreases types@.len() - i,
    {
        parts.push(contract_text(&types[i]));
        i = i + 1;
    }
    assert(texts(parts@) =~= shape_texts(shapes(types@)));
    parts
}

impl MagError {
    /// The message that is shown to an author.
    pub fn message(&self) -> (text: String)
        ensures
            text@ == failure_text(self@),
    {
        match self {
            MagError::Lex(message) => cat2("lexer: ", message.as_str()),
            MagError::Parse(message) => cat2("parse: ", message.as_str()),
            MagError::Eval(message) => cat2("eval: ", message.as_str()),
            MagError::Budget(message) => cat2("evaluation budget exceeded: ", message.as_str()),
            MagError::Type(message) => cat2("type error: ", message.as_str()),
            MagError::Unresolved(name) => cat2("unresolved symbol: ", name.as_str()),
            MagError::Arity { expected, got } => {
                let expected = count_text(*expected);
                let got = count_text(*got);
                cat4("arity: expected ", expected.as_str(), ", got ", got.as_str())
            },
            MagError::Syntax(diagnostic) => diagnostic.message_text(),
            MagError::Graph(message) => cat2("graph: ", message.as_str()),
            MagError::NoTerminal => "graph: no terminal declared".to_owned(),
            MagError::Disconnected { node } => cat3(
                "graph: node '",
                node.as_str(),
                "' is disconnected",
            ),
            MagError::DeadBranch { node, variant, source_type } => {
                let variant = contract_text(variant);
                let source_type = contract_text(source_type);
                cat6(
                    "graph: node '",
                    node.as_str(),
                    "' has no destination for ",
                    variant.as_str(),
                    " of ",
                    source_type.as_str(),
                )
            },
            MagError::EdgeTypeMismatch { from, to, output, input } => {
                let output = contract_text(output);
                let input = contract_text(input);
                let edge = cat6(
                    "graph: edge ",
                    from.as_str(),
                    " -> ",
                    to.as_str(),
                    " carries ",
                    output.as_str(),
                );
                let expected = cat2(", expected ", input.as_str());
                cat2(edge.as_str(), expected.as_str())
            },
        }
    }
}

} // verus!
