//! Verified core of MAG.

pub mod acceptance;
pub mod admission;
pub mod agreement;
pub mod answers;
pub mod asking;
pub mod associativity;
pub mod ast;
pub mod authored;
pub mod basics;
pub mod block;
pub mod builtins;
pub mod calls;
pub mod check;
pub mod checked;
pub mod checking;
pub mod collections;
pub mod collisions;
pub mod combinators;
pub mod comparison;
pub mod compat;
pub mod compile;
pub mod constancy;
pub mod content;
pub mod contract;
pub mod cursor;
pub mod declare;
pub mod descriptors;
pub mod diagnostic;
pub mod driver;
pub mod env;
pub mod equality;
pub mod error;
pub mod evaluate;
pub mod expr_parser;
pub mod expr_syntax;
pub mod files;
pub mod fitting;
pub mod fixity;
pub mod flow;
pub mod foreign;
pub mod frames;
pub mod fuel;
pub mod graph;
pub mod imports;
pub mod infer;
pub mod invariance;
pub mod ir;
pub mod json;
pub mod lexer;
pub mod loader;
pub mod lowering;
pub mod machine;
pub mod meaning;
pub mod memo;
pub mod order;
pub mod outcomes;
pub mod overload;
pub mod parser;
pub mod primitives;
pub mod profile;
pub mod program;
pub mod reading;
pub mod registry;
pub mod resolve;
pub mod roundtrip;
pub mod rules;
pub mod sameness;
pub mod scope;
pub mod soundness;
pub mod selection;
pub mod session;
pub mod strings;
pub mod surface;
pub mod telling;
pub mod text;
pub mod tokens;
pub mod type_syntax;
pub mod types;
pub mod typing;
pub mod validity;
pub mod value;
pub mod wording;
