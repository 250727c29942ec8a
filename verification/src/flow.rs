//! Authoring values of a graph program: nodes, edges, and what nodes are given.

use crate::ast::{Expr, Form, forms};
use crate::contract::{MagType, Shape};
use crate::json::{Float, Num};
use crate::text::texts;
use vstd::prelude::*;

verus! {

#[derive(Debug)]
pub enum Value {
    Str(String),
    Int(i64),
    Float(Float),
    Bool(bool),
    Nil,
    Keyword(String),
    Symbol(String),
    List(Vec<Value>),
    Vector(Vec<Value>),
    /// Entries in ascending order of their keys.
    MapOf(Vec<(String, Value)>),
    Node(NodeValue),
    Graph(GraphValue),
    Subgraph(SubgraphValue),
    Fn(FnValue),
    BuiltinFn(String),
    TypeDecl(String),
}

#[derive(Debug)]
pub struct FnValue {
    pub params: Vec<String>,
    pub body: Vec<Expr>,
    pub closure: Vec<(String, Value)>,
}

#[derive(Debug)]
pub struct NodeValue {
    pub id: String,
    pub node_type: String,
    /// Arguments in ascending order of their names.
    pub args: Vec<(String, Value)>,
    pub input_type: MagType,
    pub output_type: MagType,
}

#[derive(Debug)]
pub struct EdgeValue {
    pub from: String,
    pub to: String,
}

/// An output of an actor and the type that it carries.
#[derive(Debug)]
pub struct Port {
    pub actor: String,
    pub ty: MagType,
}

#[derive(Debug)]
pub struct GraphValue {
    pub nodes: Vec<NodeValue>,
    pub edges: Vec<EdgeValue>,
    pub terminal: String,
}

#[derive(Debug)]
pub struct SubgraphValue {
    pub nodes: Vec<NodeValue>,
    pub edges: Vec<EdgeValue>,
    pub outputs: Vec<Port>,
}

pub ghost enum Datum {
    Str(Seq<char>),
    Int(int),
    Float(Num),
    Bool(bool),
    Nil,
    Keyword(Seq<char>),
    Symbol(Seq<char>),
    List(Seq<Datum>),
    Vector(Seq<Datum>),
    MapOf(Seq<(Seq<char>, Datum)>),
    Node(Box<Node>),
    Graph(Box<Graph>),
    Subgraph(Box<Subgraph>),
    Fn(Box<Function>),
    BuiltinFn(Seq<char>),
    TypeDecl(Seq<char>),
}

pub ghost struct Function {
    pub params: Seq<Seq<char>>,
    pub body: Seq<Form>,
    pub closure: Seq<(Seq<char>, Datum)>,
}

pub ghost struct Node {
    pub id: Seq<char>,
    pub node_type: Seq<char>,
    pub args: Seq<(Seq<char>, Datum)>,
    pub input_type: Shape,
    pub output_type: Shape,
}

pub ghost struct Edge {
    pub from: Seq<char>,
    pub to: Seq<char>,
}

pub ghost struct Outlet {
    pub actor: Seq<char>,
    pub ty: Shape,
}

pub ghost struct Graph {
    pub nodes: Seq<Node>,
    pub edges: Seq<Edge>,
    pub terminal: Seq<char>,
}

pub ghost struct Subgraph {
    pub nodes: Seq<Node>,
    pub edges: Seq<Edge>,
    pub outputs: Seq<Outlet>,
}

impl Value {
    pub open spec fn view(&self) -> Datum
        decreases self,
    {
        match self {
            Value::Str(value) => Datum::Str(value@),
            Value::Int(value) => Datum::Int(*value as int),
            Value::Float(value) => Datum::Float(value@),
            Value::Bool(value) => Datum::Bool(*value),
            Value::Nil => Datum::Nil,
            Value::Keyword(name) => Datum::Keyword(name@),
            Value::Symbol(name) => Datum::Symbol(name@),
            Value::List(items) => Datum::List(datums(items@)),
            Value::Vector(items) => Datum::Vector(datums(items@)),
            Value::MapOf(entries) => Datum::MapOf(entry_views(entries@)),
            Value::Node(node) => Datum::Node(Box::new(node.view())),
            Value::Graph(graph) => Datum::Graph(Box::new(graph.view())),
            Value::Subgraph(graph) => Datum::Subgraph(Box::new(graph.view())),
            Value::Fn(function) => Datum::Fn(Box::new(function.view())),
            Value::BuiltinFn(name) => Datum::BuiltinFn(name@),
            Value::TypeDecl(name) => Datum::TypeDecl(name@),
        }
    }
}

pub open spec fn datums(items: Seq<Value>) -> Seq<Datum>
    decreases items,
{
    Seq::new(
        items.len(),
        |i: int|
            if 0 <= i < items.len() {
                items[i].view()
            } else {
                arbitrary()
            },
    )
}

pub open spec fn entry_views(entries: Seq<(String, Value)>) -> Seq<(Seq<char>, Datum)>
    decreases entries,
{
    Seq::new(
        entries.len(),
        |i: int|
            if 0 <= i < entries.len() {
                (entries[i].0@, entries[i].1.view())
            } else {
                arbitrary()
            },
    )
}

impl FnValue {
    pub open spec fn view(&self) -> Function
        decreases self,
    {
        Function {
            params: texts(self.params@),
            body: forms(self.body@),
            closure: entry_views(self.closure@),
        }
    }
}

impl NodeValue {
    pub open spec fn view(&self) -> Node
        decreases self,
    {
        Node {
            id: self.id@,
            node_type: self.node_type@,
            args: entry_views(self.args@),
            input_type: self.input_type.view(),
            output_type: self.output_type.view(),
        }
    }
}

impl EdgeValue {
    pub open spec fn view(&self) -> Edge {
        Edge { from: self.from@, to: self.to@ }
    }
}

impl Port {
    pub open spec fn view(&self) -> Outlet {
        Outlet { actor: self.actor@, ty: self.ty.view() }
    }
}

pub open spec fn node_views(nodes: Seq<NodeValue>) -> Seq<Node>
    decreases nodes,
{
    Seq::new(
        nodes.len(),
        |i: int|
            if 0 <= i < nodes.len() {
                nodes[i].view()
            } else {
                arbitrary()
            },
    )
}

pub open spec fn edge_views(edges: Seq<EdgeValue>) -> Seq<Edge> {
    Seq::new(edges.len(), |i: int| edges[i].view())
}

pub open spec fn port_views(ports: Seq<Port>) -> Seq<Outlet> {
    Seq::new(ports.len(), |i: int| ports[i].view())
}

impl GraphValue {
    pub open spec fn view(&self) -> Graph
        decreases self,
    {
        Graph {
            nodes: node_views(self.nodes@),
            edges: edge_views(self.edges@),
            terminal: self.terminal@,
        }
    }
}

impl SubgraphValue {
    pub open spec fn view(&self) -> Subgraph
        decreases self,
    {
        Subgraph {
            nodes: node_views(self.nodes@),
            edges: edge_views(self.edges@),
            outputs: port_views(self.outputs@),
        }
    }
}

/// The kind of a value, as messages name it.
pub open spec fn datum_kind(datum: Datum) -> Seq<char> {
    match datum {
        Datum::Str(_) => "string"@,
        Datum::Int(_) => "int"@,
        Datum::Float(_) => "float"@,
        Datum::Bool(_) => "bool"@,
        Datum::Nil => "nil"@,
        Datum::Keyword(_) => "keyword"@,
        Datum::Symbol(_) => "symbol"@,
        Datum::List(_) => "list"@,
        Datum::Vector(_) => "vector"@,
        Datum::MapOf(_) => "map"@,
        Datum::Node(_) => "node"@,
        Datum::Graph(_) => "graph"@,
        Datum::Subgraph(_) => "subgraph"@,
        Datum::Fn(_) => "fn"@,
        Datum::BuiltinFn(_) => "builtin-fn"@,
        Datum::TypeDecl(_) => "type"@,
    }
}

impl Value {
    pub fn kind_name(&self) -> (name: &'static str)
        ensures
            name@ == datum_kind(self@),
    {
        match self {
            Value::Str(_) => "string",
            Value::Int(_) => "int",
            Value::Float(_) => "float",
            Value::Bool(_) => "bool",
            Value::Nil => "nil",
            Value::Keyword(_) => "keyword",
            Value::Symbol(_) => "symbol",
            Value::List(_) => "list",
            Value::Vector(_) => "vector",
            Value::MapOf(_) => "map",
            Value::Node(_) => "node",
            Value::Graph(_) => "graph",
            Value::Subgraph(_) => "subgraph",
            Value::Fn(_) => "fn",
            Value::BuiltinFn(_) => "builtin-fn",
            Value::TypeDecl(_) => "type",
        }
    }
}

} // verus!
