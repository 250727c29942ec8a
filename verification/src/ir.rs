//! Graph modifications: the form in which a runtime takes a program graph.

use crate::contract::{MagType, Shape, accepts, shapes, variants};
use crate::error::{Failure, MagError};
use crate::flow::{
    Datum, Edge, EdgeValue, Graph, GraphValue, Node, NodeValue, Value, datum_kind, datums,
    entry_views, node_views,
};
use crate::graph::sink_id;
use crate::json::{Data, Json, data_items, data_members, json_text};
use crate::order::{Entry, documents, map_entries, mapped, sort_entries, sorted};
use crate::text::{
    cat2, cat3, cat5, contains_text, copy_texts, join_texts, joined, same_text, text_chars, texts,
};
use sha2::Digest;
use sha2::Sha256;
use vstd::prelude::*;

verus! {

/// A graph modification. Edges are dissolved into the routes of the actors, and
/// the end of the program is the actor named `sink`.
#[derive(Debug)]
pub struct ModificationIr {
    pub actors: Vec<ActorIr>,
    pub messages: Vec<MessageIr>,
    pub kills: Vec<String>,
    pub rules: Vec<RuleIr>,
    /// A hash of the canonical notation of the rest.
    pub hash: String,
}

#[derive(Debug)]
pub struct ActorIr {
    pub id: String,
    pub factory: String,
    pub params: Json,
    /// Destinations by qualified output type, in order of first use.
    pub routes: Vec<(String, Vec<String>)>,
}

#[derive(Debug)]
pub struct MessageIr {
    pub to: String,
    pub content: Json,
}

#[derive(Debug)]
pub struct RuleIr {
    pub on: String,
    pub fn_name: String,
}

pub ghost struct Modification {
    pub actors: Seq<Actor>,
    pub messages: Seq<Message>,
    pub kills: Seq<Seq<char>>,
    pub rules: Seq<Rule>,
    pub hash: Seq<char>,
}

pub type Route = (Seq<char>, Seq<Seq<char>>);

pub ghost struct Actor {
    pub id: Seq<char>,
    pub factory: Seq<char>,
    pub params: Data,
    pub routes: Seq<Route>,
}

pub ghost struct Message {
    pub to: Seq<char>,
    pub content: Data,
}

pub ghost struct Rule {
    pub on: Seq<char>,
    pub fn_name: Seq<char>,
}

pub open spec fn route_views(routes: Seq<(String, Vec<String>)>) -> Seq<Route> {
    Seq::new(routes.len(), |i: int| (routes[i].0@, texts(routes[i].1@)))
}

impl ActorIr {
    pub open spec fn view(&self) -> Actor {
        Actor {
            id: self.id@,
            factory: self.factory@,
            params: self.params.view(),
            routes: route_views(self.routes@),
        }
    }
}

impl MessageIr {
    pub open spec fn view(&self) -> Message {
        Message { to: self.to@, content: self.content.view() }
    }
}

impl RuleIr {
    pub open spec fn view(&self) -> Rule {
        Rule { on: self.on@, fn_name: self.fn_name@ }
    }
}

pub open spec fn actor_views(actors: Seq<ActorIr>) -> Seq<Actor> {
    Seq::new(actors.len(), |i: int| actors[i].view())
}

pub open spec fn message_views(messages: Seq<MessageIr>) -> Seq<Message> {
    Seq::new(messages.len(), |i: int| messages[i].view())
}

pub open spec fn rule_views(rules: Seq<RuleIr>) -> Seq<Rule> {
    Seq::new(rules.len(), |i: int| rules[i].view())
}

impl ModificationIr {
    pub open spec fn view(&self) -> Modification {
        Modification {
            actors: actor_views(self.actors@),
            messages: message_views(self.messages@),
            kills: texts(self.kills@),
            rules: rule_views(self.rules@),
            hash: self.hash@,
        }
    }
}

// ---------------------------------------------------------------------------
// Type tags and parameters
// ---------------------------------------------------------------------------

/// The qualified tag of a type: dotted names stand as they are, other names are
/// taken from `mag`.
pub open spec fn qualified(shape: Shape) -> Seq<char>
    decreases shape,
{
    match shape {
        Shape::Named(name) => if name.contains('.') {
            name
        } else {
            "mag."@ + name
        },
        Shape::Var(name) => "mag."@ + name,
        Shape::Union(types) => joined(qualified_all(types), "|"@),
        Shape::Intersection(types) => joined(qualified_all(types), "+"@),
    }
}

pub open spec fn qualified_all(types: Seq<Shape>) -> Seq<Seq<char>>
    decreases types,
{
    Seq::new(
        types.len(),
        |i: int|
            if 0 <= i < types.len() {
                qualified(types[i])
            } else {
                arbitrary()
            },
    )
}

fn contains_char(text: &str, wanted: char) -> (found: bool)
    ensures
        found == text@.contains(wanted),
{
    let chars = text_chars(text);
    let mut i: usize = 0;
    while i < chars.len()
        invariant
            i <= chars@.len(),
            chars@ == text@,
            forall|j: int| 0 <= j < i ==> chars@[j] != wanted,
        decreases chars@.len() - i,
    {
        if chars[i] == wanted {
            assert(text@[i as int] == wanted);
            return true;
        }
        i = i + 1;
    }
    false
}

pub fn qualify_type(ty: &MagType) -> (tag: String)
    ensures
        tag@ == qualified(ty@),
    decreases ty,
{
    match ty {
        MagType::Named(name) => if contains_char(name.as_str(), '.') {
            name.clone()
        } else {
            cat2("mag.", name.as_str())
        },
        MagType::Var(name) => cat2("mag.", name.as_str()),
        MagType::Union(types) => {
            let parts = qualify_types(types);
            join_texts(&parts, "|")
        },
        MagType::Intersection(types) => {
            let parts = qualify_types(types);
            join_texts(&parts, "+")
        },
    }
}

fn qualify_types(types: &Vec<MagType>) -> (tags: Vec<String>)
    ensures
        texts(tags@) == qualified_all(shapes(types@)),
    decreases types,
{
    let mut tags: Vec<String> = Vec::new();
    let mut i: usize = 0;
    while i < types.len()
        invariant
            i <= types@.len(),
            tags@.len() == i,
            forall|j: int| 0 <= j < i ==> (#[trigger] tags@[j])@ == qualified(types@[j]@),
        decreases types@.len() - i,
    {
        tags.push(qualify_type(&types[i]));
        i = i + 1;
    }
    assert(texts(tags@) =~= qualified_all(shapes(types@)));
    tags
}

/// The JSON form of an authoring value. Nodes, graphs, functions and types have
/// none; the first of them that is met is reported.
pub open spec fn datum_json(datum: Datum) -> Result<Data, Failure>
    decreases datum,
{
    match datum {
        Datum::Str(value) => Ok(Data::Str(value)),
        Datum::Int(value) => Ok(Data::Int(value)),
        Datum::Float(value) => Ok(Data::Float(value)),
        Datum::Bool(value) => Ok(Data::Bool(value)),
        Datum::Nil => Ok(Data::Null),
        Datum::Keyword(name) => Ok(Data::Str(":"@ + name)),
        Datum::Symbol(name) => Ok(Data::Str(name)),
        Datum::List(items) | Datum::Vector(items) => match datum_items_json(items, 0) {
            Ok(items) => Ok(Data::Array(items)),
            Err(failure) => Err(failure),
        },
        Datum::MapOf(entries) => match datum_members_json(entries, 0) {
            Ok(members) => Ok(Data::Object(members)),
            Err(failure) => Err(failure),
        },
        other => Err(
            Failure::Eval(
                "cannot serialize "@ + datum_kind(other) + " to JSON in node args"@,
            ),
        ),
    }
}

/// The JSON forms of the items from index `i` on.
pub open spec fn datum_items_json(items: Seq<Datum>, i: int) -> Result<Seq<Data>, Failure>
    decreases items, items.len() - i,
{
    if i < 0 || i >= items.len() {
        Ok(Seq::empty())
    } else {
        match datum_json(items[i]) {
            Err(failure) => Err(failure),
            Ok(first) => match datum_items_json(items, i + 1) {
                Err(failure) => Err(failure),
                Ok(rest) => Ok(seq![first] + rest),
            },
        }
    }
}

/// The JSON forms of the entries from index `i` on.
pub open spec fn datum_members_json(entries: Seq<(Seq<char>, Datum)>, i: int) -> Result<
    Seq<(Seq<char>, Data)>,
    Failure,
>
    decreases entries, entries.len() - i,
{
    if i < 0 || i >= entries.len() {
        Ok(Seq::empty())
    } else {
        match datum_json(entries[i].1) {
            Err(failure) => Err(failure),
            Ok(first) => match datum_members_json(entries, i + 1) {
                Err(failure) => Err(failure),
                Ok(rest) => Ok(seq![(entries[i].0, first)] + rest),
            },
        }
    }
}

pub open spec fn json_outcome(result: Result<Json, MagError>) -> Result<Data, Failure> {
    match result {
        Ok(json) => Ok(json@),
        Err(error) => Err(error@),
    }
}

pub fn value_to_json(value: &Value) -> (json: Result<Json, MagError>)
    ensures
        json_outcome(json) == datum_json(value@),
    decreases value,
{
    match value {
        Value::Str(value) => Ok(Json::Str(value.clone())),
        Value::Int(value) => Ok(Json::Int(*value)),
        Value::Float(value) => Ok(Json::Float(value.copy())),
        Value::Bool(value) => Ok(Json::Bool(*value)),
        Value::Nil => Ok(Json::Null),
        Value::Keyword(name) => Ok(Json::Str(cat2(":", name.as_str()))),
        Value::Symbol(name) => Ok(Json::Str(name.clone())),
        Value::List(items) | Value::Vector(items) => match items_to_json(items) {
            Ok(items) => Ok(Json::Array(items)),
            Err(error) => Err(error),
        },
        Value::MapOf(entries) => match entries_to_json(entries) {
            Ok(members) => Ok(Json::Object(members)),
            Err(error) => Err(error),
        },
        _ => Err(
            MagError::Eval(
                cat3("cannot serialize ", value.kind_name(), " to JSON in node args"),
            ),
        ),
    }
}

fn items_to_json(items: &Vec<Value>) -> (json: Result<Vec<Json>, MagError>)
    ensures
        match (json, datum_items_json(datums(items@), 0)) {
            (Ok(json), Ok(data)) => data_items(json@) == data,
            (Err(error), Err(failure)) => error@ == failure,
            _ => false,
        },
    decreases items,
{
    let mut json: Vec<Json> = Vec::new();
    let ghost all = datums(items@);
    let mut i: usize = 0;
    while i < items.len()
        invariant
            i <= items@.len(),
            all == datums(items@),
            match datum_items_json(all, 0) {
                Ok(data) => match datum_items_json(all, i as int) {
                    Ok(rest) => data == data_items(json@) + rest,
                    Err(_) => false,
                },
                Err(failure) => datum_items_json(all, i as int) == Err::<Seq<Data>, Failure>(
                    failure,
                ),
            },
        decreases items@.len() - i,
    {
        assert(all[i as int] == items@[i as int]@);
        match value_to_json(&items[i]) {
            Ok(item) => {
                let ghost before = data_items(json@);
                let ghost view = item@;
                json.push(item);
                proof {
                    assert(data_items(json@) =~= before.push(view));
                    if let Ok(rest) = datum_items_json(all, i + 1) {
                        assert(before + (seq![view] + rest) =~= before.push(view) + rest);
                    }
                }
            },
            Err(error) => return Err(error),
        }
        i = i + 1;
    }
    assert(data_items(json@) + Seq::<Data>::empty() =~= data_items(json@));
    Ok(json)
}

fn entries_to_json(entries: &Vec<(String, Value)>) -> (json: Result<Vec<(String, Json)>, MagError>)
    ensures
        match (json, datum_members_json(entry_views(entries@), 0)) {
            (Ok(json), Ok(data)) => data_members(json@) == data,
            (Err(error), Err(failure)) => error@ == failure,
            _ => false,
        },
    decreases entries,
{
    let mut json: Vec<(String, Json)> = Vec::new();
    let ghost all = entry_views(entries@);
    let mut i: usize = 0;
    while i < entries.len()
        invariant
            i <= entries@.len(),
            all == entry_views(entries@),
            match datum_members_json(all, 0) {
                Ok(data) => match datum_members_json(all, i as int) {
                    Ok(rest) => data == data_members(json@) + rest,
                    Err(_) => false,
                },
                Err(failure) => datum_members_json(all, i as int) == Err::<
                    Seq<(Seq<char>, Data)>,
                    Failure,
                >(failure),
            },
        decreases entries@.len() - i,
    {
        let entry = &entries[i];
        assert(all[i as int] == (entry.0@, entry.1@));
        match value_to_json(&entry.1) {
            Ok(item) => {
                let ghost before = data_members(json@);
                let ghost view = (entry.0@, item@);
                json.push((entry.0.clone(), item));
                proof {
                    assert(data_members(json@) =~= before.push(view));
                    if let Ok(rest) = datum_members_json(all, i + 1) {
                        assert(before + (seq![view] + rest) =~= before.push(view) + rest);
                    }
                }
            },
            Err(error) => return Err(error),
        }
        i = i + 1;
    }
    assert(data_members(json@) + Seq::<(Seq<char>, Data)>::empty() =~= data_members(json@));
    Ok(json)
}

/// The parameters of the actor that a node becomes.
pub open spec fn params_of(node: Node) -> Result<Data, Failure> {
    match datum_members_json(node.args, 0) {
        Ok(members) => Ok(Data::Object(members)),
        Err(failure) => Err(failure),
    }
}

pub fn node_params(node: &NodeValue) -> (json: Result<Json, MagError>)
    ensures
        json_outcome(json) == params_of(node@),
{
    match entries_to_json(&node.args) {
        Ok(members) => Ok(Json::Object(members)),
        Err(error) => Err(error),
    }
}

/// The first alternative from index `j` on that a target accepts.
pub open spec fn first_accepted(target: Shape, offered: Seq<Shape>, j: int) -> Option<Shape>
    decreases offered.len() - j,
{
    if j < 0 || j >= offered.len() {
        None
    } else if accepts(target, offered[j]) {
        Some(offered[j])
    } else {
        first_accepted(target, offered, j + 1)
    }
}

/// The type that an edge carries.
pub open spec fn route_type(from: Node, to: Node) -> Option<Shape> {
    first_accepted(to.input_type, variants(from.output_type), 0)
}

pub fn edge_route_type(from: &NodeValue, to: &NodeValue) -> (found: Option<MagType>)
    ensures
        match (found, route_type(from@, to@)) {
            (Some(ty), Some(shape)) => ty@ == shape,
            (None, None) => true,
            _ => false,
        },
{
    let offered = from.output_type.variants();
    let ghost all = variants(from@.output_type);
    let mut j: usize = 0;
    while j < offered.len()
        invariant
            j <= offered@.len(),
            all == variants(from@.output_type),
            offered@.len() == all.len(),
            forall|k: int| 0 <= k < offered@.len() ==> (#[trigger] offered@[k])@ == all[k],
            first_accepted(to@.input_type, all, 0) == first_accepted(
                to@.input_type,
                all,
                j as int,
            ),
        decreases offered@.len() - j,
    {
        assert(offered@[j as int]@ == all[j as int]);
        if to.input_type.accepts(offered[j]) {
            return Some(offered[j].copy());
        }
        j = j + 1;
    }
    None
}

/// What a source actor is first sent.
pub open spec fn activation() -> Data {
    Data::Object(
        seq![("kind"@, Data::Str("task"@)), ("prompt"@, Data::Str("<initial task text>"@))],
    )
}

pub fn initial_activation_content() -> (content: Json)
    ensures
        content@ == activation(),
{
    let mut members: Vec<(String, Json)> = Vec::new();
    members.push(("kind".to_owned(), Json::Str("task".to_owned())));
    members.push(("prompt".to_owned(), Json::Str("<initial task text>".to_owned())));
    assert(data_members(members@) =~= seq![
        ("kind"@, Data::Str("task"@)),
        ("prompt"@, Data::Str("<initial task text>"@)),
    ]);
    Json::Object(members)
}

// ---------------------------------------------------------------------------
// Lowering
// ---------------------------------------------------------------------------

/// The id under which a node is emitted: the terminal becomes the sink.
pub open spec fn emitted_id(terminal: Seq<char>, id: Seq<char>) -> Seq<char> {
    if terminal.len() > 0 && id == terminal {
        sink_id()
    } else {
        id
    }
}

/// The actors of the nodes from index `i` on, without routes.
pub open spec fn bare_actors(graph: Graph, i: int) -> Result<Seq<Actor>, Failure>
    decreases graph.nodes.len() - i,
{
    if i < 0 || i >= graph.nodes.len() {
        Ok(Seq::empty())
    } else {
        match params_of(graph.nodes[i]) {
            Err(failure) => Err(failure),
            Ok(params) => match bare_actors(graph, i + 1) {
                Err(failure) => Err(failure),
                Ok(rest) => Ok(
                    seq![
                        Actor {
                            id: emitted_id(graph.terminal, graph.nodes[i].id),
                            factory: graph.nodes[i].node_type,
                            params,
                            routes: Seq::empty(),
                        },
                    ] + rest,
                ),
            },
        }
    }
}

/// The index of the last node among the first `n` that bears an id.
pub open spec fn index_named(nodes: Seq<Node>, id: Seq<char>, n: int) -> Option<int>
    decreases n,
{
    if n <= 0 {
        None
    } else if nodes[n - 1].id == id {
        Some(n - 1)
    } else {
        index_named(nodes, id, n - 1)
    }
}

/// Routes with a destination under a key: each destination stands once.
pub open spec fn routed(routes: Seq<Route>, key: Seq<char>, to: Seq<char>) -> Seq<Route>
    decreases routes.len(),
{
    if routes.len() == 0 {
        seq![(key, seq![to])]
    } else if routes[0].0 == key {
        if routes[0].1.contains(to) {
            routes
        } else {
            seq![(key, routes[0].1.push(to))] + routes.drop_first()
        }
    } else {
        seq![routes[0]] + routed(routes.drop_first(), key, to)
    }
}

/// Whether an edge starts at the terminal, which emits nothing.
pub open spec fn leaves_terminal(graph: Graph, edge: Edge) -> bool {
    graph.terminal.len() > 0 && edge.from == graph.terminal
}

/// What one edge adds to the actors: a route of the actor that it starts from, unless that
/// one is the sink.
pub open spec fn edge_routed(graph: Graph, actors: Seq<Actor>, edge: Edge) -> Result<
    Seq<Actor>,
    Failure,
> {
    let nodes = graph.nodes;
    match (
        index_named(nodes, edge.from, nodes.len() as int),
        index_named(nodes, edge.to, nodes.len() as int),
    ) {
        (None, _) => Err(
            Failure::Graph("edge references unknown source node '"@ + edge.from + "'"@),
        ),
        (Some(_), None) => Err(
            Failure::Graph("edge references unknown target node '"@ + edge.to + "'"@),
        ),
        (Some(from), Some(to)) => match route_type(nodes[from], nodes[to]) {
            None => Err(
                Failure::Graph(
                    "edge "@ + edge.from + " -> "@ + edge.to
                        + " carries no type compatible with the destination"@,
                ),
            ),
            Some(ty) => if leaves_terminal(graph, edge) {
                Ok(actors)
            } else {
                Ok(
                    actors.update(
                        from,
                        Actor {
                            routes: routed(
                                actors[from].routes,
                                qualified(ty),
                                emitted_id(graph.terminal, edge.to),
                            ),
                            ..actors[from]
                        },
                    ),
                )
            },
        },
    }
}

/// The actors with the routes of the edges from index `k` on.
pub open spec fn edges_routed(graph: Graph, actors: Seq<Actor>, k: int) -> Result<
    Seq<Actor>,
    Failure,
>
    decreases graph.edges.len() - k,
{
    if k < 0 || k >= graph.edges.len() {
        Ok(actors)
    } else {
        match edge_routed(graph, actors, graph.edges[k]) {
            Err(failure) => Err(failure),
            Ok(actors) => edges_routed(graph, actors, k + 1),
        }
    }
}

pub open spec fn has_inbound(graph: Graph, id: Seq<char>) -> bool {
    exists|k: int| 0 <= k < graph.edges.len() && (#[trigger] graph.edges[k]).to == id
}

/// The activations of the sources among the first `n` nodes.
pub open spec fn activations(graph: Graph, n: int) -> Seq<Message>
    decreases n,
{
    if n <= 0 {
        Seq::empty()
    } else if has_inbound(graph, graph.nodes[n - 1].id) {
        activations(graph, n - 1)
    } else {
        activations(graph, n - 1).push(
            Message {
                to: emitted_id(graph.terminal, graph.nodes[n - 1].id),
                content: activation(),
            },
        )
    }
}

/// The modification that a graph is lowered to.
pub open spec fn lowered(graph: Graph) -> Result<Modification, Failure> {
    match bare_actors(graph, 0) {
        Err(failure) => Err(failure),
        Ok(bare) => match edges_routed(graph, bare, 0) {
            Err(failure) => Err(failure),
            Ok(actors) => {
                let messages = activations(graph, graph.nodes.len() as int);
                Ok(
                    Modification {
                        actors,
                        messages,
                        kills: Seq::empty(),
                        rules: Seq::empty(),
                        hash: hash_of(actors, messages, Seq::empty(), Seq::empty()),
                    },
                )
            },
        },
    }
}

pub open spec fn lowering(result: Result<ModificationIr, MagError>) -> Result<
    Modification,
    Failure,
> {
    match result {
        Ok(ir) => Ok(ir@),
        Err(error) => Err(error@),
    }
}

fn emit_id(terminal: &str, id: &str) -> (emitted: String)
    ensures
        emitted@ == emitted_id(terminal@, id@),
{
    if !terminal.is_empty() && same_text(id, terminal) {
        "sink".to_owned()
    } else {
        id.to_owned()
    }
}

fn make_actors(graph: &GraphValue) -> (actors: Result<Vec<ActorIr>, MagError>)
    ensures
        match (actors, bare_actors(graph@, 0)) {
            (Ok(actors), Ok(bare)) => {
                &&& actor_views(actors@) == bare
                &&& actors@.len() == graph.nodes@.len()
            },
            (Err(error), Err(failure)) => error@ == failure,
            _ => false,
        },
{
    let mut actors: Vec<ActorIr> = Vec::new();
    let ghost view = graph@;
    let mut i: usize = 0;
    while i < graph.nodes.len()
        invariant
            i <= graph.nodes@.len(),
            view == graph@,
            actors@.len() == i,
            match bare_actors(view, 0) {
                Ok(bare) => match bare_actors(view, i as int) {
                    Ok(rest) => bare == actor_views(actors@) + rest,
                    Err(_) => false,
                },
                Err(failure) => bare_actors(view, i as int) == Err::<Seq<Actor>, Failure>(failure),
            },
        decreases graph.nodes@.len() - i,
    {
        let node = &graph.nodes[i];
        assert(view.nodes[i as int] == node@);
        match node_params(node) {
            Err(error) => return Err(error),
            Ok(params) => {
                let ghost before = actor_views(actors@);
                let actor = ActorIr {
                    id: emit_id(graph.terminal.as_str(), node.id.as_str()),
                    factory: node.node_type.clone(),
                    params,
                    routes: Vec::new(),
                };
                let ghost added = actor@;
                assert(added.routes =~= Seq::empty());
                actors.push(actor);
                proof {
                    assert(actor_views(actors@) =~= before.push(added));
                    if let Ok(rest) = bare_actors(view, i + 1) {
                        assert(before + (seq![added] + rest) =~= before.push(added) + rest);
                    }
                }
            },
        }
        i = i + 1;
    }
    assert(actor_views(actors@) + Seq::<Actor>::empty() =~= actor_views(actors@));
    Ok(actors)
}

fn find_index(nodes: &Vec<NodeValue>, id: &str) -> (found: Option<usize>)
    ensures
        match (found, index_named(node_views(nodes@), id@, nodes@.len() as int)) {
            (Some(i), Some(j)) => i == j && i < nodes@.len(),
            (None, None) => true,
            _ => false,
        },
{
    let mut i: usize = nodes.len();
    while i > 0
        invariant
            i <= nodes@.len(),
            index_named(node_views(nodes@), id@, nodes@.len() as int) == index_named(
                node_views(nodes@),
                id@,
                i as int,
            ),
        decreases i,
    {
        i = i - 1;
        assert(node_views(nodes@)[i as int] == nodes@[i as int]@);
        if same_text(nodes[i].id.as_str(), id) {
            return Some(i);
        }
    }
    None
}

fn add_route(routes: &mut Vec<(String, Vec<String>)>, key: String, to: String)
    ensures
        route_views(final(routes)@) == routed(route_views(old(routes)@), key@, to@),
{
    let ghost before = route_views(routes@);
    let mut i: usize = 0;
    proof {
        assert(before.skip(0) =~= before);
        assert(before.take(0) + routed(before, key@, to@) =~= routed(before, key@, to@));
    }
    while i < routes.len()
        invariant
            i <= routes@.len(),
            before == route_views(routes@),
            before == route_views(old(routes)@),
            routed(before, key@, to@) == before.take(i as int) + routed(
                before.skip(i as int),
                key@,
                to@,
            ),
        decreases routes@.len() - i,
    {
        let ghost rest = before.skip(i as int);
        assert(rest[0] == (routes@[i as int].0@, texts(routes@[i as int].1@)));
        if same_text(routes[i].0.as_str(), key.as_str()) {
            if !contains_text(&routes[i].1, to.as_str()) {
                let mut destinations = copy_texts(&routes[i].1);
                let ghost earlier = texts(destinations@);
                let ghost dest = to@;
                destinations.push(to);
                assert(texts(destinations@) =~= earlier.push(dest));
                let name = routes[i].0.clone();
                routes.set(i, (name, destinations));
                proof {
                    let new = (key@, earlier.push(dest));
                    assert(route_views(routes@) =~= before.take(i as int) + (seq![new]
                        + rest.drop_first()));
                }
            } else {
                assert(before =~= before.take(i as int) + rest);
            }
            return;
        }
        proof {
            assert(rest.drop_first() =~= before.skip(i + 1));
            assert(before.take(i as int) + (seq![rest[0]] + routed(rest.drop_first(), key@, to@))
                =~= before.take(i + 1) + routed(before.skip(i + 1), key@, to@));
        }
        i = i + 1;
    }
    let mut destinations: Vec<String> = Vec::new();
    let ghost new = (key@, seq![to@]);
    destinations.push(to);
    proof {
        assert(texts(destinations@) =~= new.1);
        assert(before.skip(i as int) =~= Seq::empty());
    }
    routes.push((key, destinations));
    assert(route_views(routes@) =~= before.take(i as int) + seq![new]);
}

fn route_edge(graph: &GraphValue, actors: &mut Vec<ActorIr>, edge: &EdgeValue) -> (result: Result<
    (),
    MagError,
>)
    requires
        old(actors)@.len() == graph.nodes@.len(),
    ensures
        final(actors)@.len() == old(actors)@.len(),
        match (result, edge_routed(graph@, actor_views(old(actors)@), edge@)) {
            (Ok(_), Ok(view)) => actor_views(final(actors)@) == view,
            (Err(error), Err(failure)) => error@ == failure,
            _ => false,
        },
{
    let from = match find_index(&graph.nodes, edge.from.as_str()) {
        Some(from) => from,
        None => return Err(
            MagError::Graph(
                cat3("edge references unknown source node '", edge.from.as_str(), "'"),
            ),
        ),
    };
    let to = match find_index(&graph.nodes, edge.to.as_str()) {
        Some(to) => to,
        None => return Err(
            MagError::Graph(
                cat3("edge references unknown target node '", edge.to.as_str(), "'"),
            ),
        ),
    };
    assert(graph@.nodes[from as int] == graph.nodes@[from as int]@);
    assert(graph@.nodes[to as int] == graph.nodes@[to as int]@);
    match edge_route_type(&graph.nodes[from], &graph.nodes[to]) {
        None => Err(
            MagError::Graph(
                cat5(
                    "edge ",
                    edge.from.as_str(),
                    " -> ",
                    edge.to.as_str(),
                    " carries no type compatible with the destination",
                ),
            ),
        ),
        Some(ty) => {
            if !graph.terminal.as_str().is_empty() && same_text(
                edge.from.as_str(),
                graph.terminal.as_str(),
            ) {
                return Ok(());
            }
            let key = qualify_type(&ty);
            let destination = emit_id(graph.terminal.as_str(), edge.to.as_str());
            let ghost before = actor_views(actors@);
            let ghost old_actor = actors@[from as int]@;
            let ghost routes = routed(old_actor.routes, key@, destination@);
            assert(before[from as int] == old_actor);
            add_route(&mut actors[from].routes, key, destination);
            proof {
                let new = Actor { routes, ..old_actor };
                assert(actors@[from as int]@ == new);
                assert(actor_views(actors@) =~= before.update(from as int, new));
            }
            Ok(())
        },
    }
}

fn is_inbound(graph: &GraphValue, id: &str) -> (found: bool)
    ensures
        found == has_inbound(graph@, id@),
{
    let mut k: usize = 0;
    while k < graph.edges.len()
        invariant
            k <= graph.edges@.len(),
            forall|j: int| 0 <= j < k ==> (#[trigger] graph@.edges[j]).to != id@,
        decreases graph.edges@.len() - k,
    {
        if same_text(graph.edges[k].to.as_str(), id) {
            assert(graph@.edges[k as int].to == id@);
            return true;
        }
        k = k + 1;
    }
    false
}

fn activate_sources(graph: &GraphValue) -> (messages: Vec<MessageIr>)
    ensures
        message_views(messages@) == activations(graph@, graph.nodes@.len() as int),
{
    let mut messages: Vec<MessageIr> = Vec::new();
    let mut i: usize = 0;
    assert(message_views(messages@) =~= activations(graph@, 0));
    while i < graph.nodes.len()
        invariant
            i <= graph.nodes@.len(),
            message_views(messages@) == activations(graph@, i as int),
        decreases graph.nodes@.len() - i,
    {
        let node = &graph.nodes[i];
        assert(graph@.nodes[i as int] == node@);
        if !is_inbound(graph, node.id.as_str()) {
            let ghost before = message_views(messages@);
            let message = MessageIr {
                to: emit_id(graph.terminal.as_str(), node.id.as_str()),
                content: initial_activation_content(),
            };
            let ghost added = message@;
            messages.push(message);
            assert(message_views(messages@) =~= before.push(added));
        }
        i = i + 1;
    }
    messages
}

/// Lowers a graph into a modification. Edges become routes of the actors that
/// they start from, the terminal becomes the sink with empty routes, and actors
/// without inbound edges are activated.
pub fn lower(graph: GraphValue) -> (result: Result<ModificationIr, MagError>)
    ensures
        lowering(result) == lowered(graph@),
{
    let mut actors = match make_actors(&graph) {
        Ok(actors) => actors,
        Err(error) => return Err(error),
    };
    let ghost view = graph@;
    let ghost bare = actor_views(actors@);
    let mut k: usize = 0;
    while k < graph.edges.len()
        invariant
            k <= graph.edges@.len(),
            view == graph@,
            actors@.len() == graph.nodes@.len(),
            bare_actors(view, 0) == Ok::<Seq<Actor>, Failure>(bare),
            edges_routed(view, bare, 0) == edges_routed(view, actor_views(actors@), k as int),
        decreases graph.edges@.len() - k,
    {
        assert(view.edges[k as int] == graph.edges@[k as int]@);
        match route_edge(&graph, &mut actors, &graph.edges[k]) {
            Ok(_) => {},
            Err(error) => return Err(error),
        }
        k = k + 1;
    }
    let messages = activate_sources(&graph);
    let kills: Vec<String> = Vec::new();
    let rules: Vec<RuleIr> = Vec::new();
    assert(texts(kills@) =~= Seq::empty());
    assert(rule_views(rules@) =~= Seq::empty());
    let hash = hash_modification(&actors, &messages, &kills, &rules);
    Ok(ModificationIr { actors, messages, kills, rules, hash })
}

// ---------------------------------------------------------------------------
// The hash
// ---------------------------------------------------------------------------

/// A SHA-256 digest in lower-case hexadecimal notation.
pub uninterp spec fn sha256_text(bytes: Seq<u8>) -> Seq<char>;

/// Trusted: `sha2::Sha256::digest` depends on the bytes alone, and `{:x}` writes
/// a digest in hexadecimal notation; `sha256_text` names the result.
#[verifier::external_body]
pub(crate) fn sha256_hex(bytes: &[u8]) -> (digest: String)
    ensures
        digest@ == sha256_text(bytes@),
{
    format!("{:x}", Sha256::digest(bytes))
}

/// Texts as JSON strings under themselves.
pub open spec fn text_entries(parts: Seq<Seq<char>>) -> Seq<Entry> {
    Seq::new(parts.len(), |i: int| (parts[i], Data::Str(parts[i])))
}

/// Texts in ascending order, as JSON strings.
pub open spec fn sorted_texts(parts: Seq<Seq<char>>) -> Data {
    Data::Array(documents(sorted(text_entries(parts))))
}

pub open spec fn route_entries(routes: Seq<Route>) -> Seq<Entry> {
    Seq::new(routes.len(), |i: int| (routes[i].0, sorted_texts(routes[i].1)))
}

pub open spec fn actor_document(actor: Actor) -> Data {
    Data::Object(
        seq![
            ("id"@, Data::Str(actor.id)),
            ("factory"@, Data::Str(actor.factory)),
            ("params"@, actor.params),
            ("routes"@, Data::Object(mapped(route_entries(actor.routes)))),
        ],
    )
}

pub open spec fn message_document(message: Message) -> Data {
    Data::Object(seq![("to"@, Data::Str(message.to)), ("content"@, message.content)])
}

pub open spec fn rule_document(rule: Rule) -> Data {
    Data::Object(seq![("on"@, Data::Str(rule.on)), ("fn"@, Data::Str(rule.fn_name))])
}

pub open spec fn actor_entries(actors: Seq<Actor>) -> Seq<Entry> {
    Seq::new(actors.len(), |i: int| (actors[i].id, actor_document(actors[i])))
}

/// Documents under their own notation.
pub open spec fn self_keyed(data: Data) -> Entry {
    (json_text(data), data)
}

pub open spec fn message_entries(messages: Seq<Message>) -> Seq<Entry> {
    Seq::new(messages.len(), |i: int| self_keyed(message_document(messages[i])))
}

pub open spec fn rule_entries(rules: Seq<Rule>) -> Seq<Entry> {
    Seq::new(rules.len(), |i: int| self_keyed(rule_document(rules[i])))
}

/// The canonical form of a modification: actors by id, routes by key,
/// destinations and kills in order, messages and rules by their notation.
pub open spec fn canonical(
    actors: Seq<Actor>,
    messages: Seq<Message>,
    kills: Seq<Seq<char>>,
    rules: Seq<Rule>,
) -> Data {
    Data::Object(
        seq![
            ("actors"@, Data::Array(documents(sorted(actor_entries(actors))))),
            ("messages"@, Data::Array(documents(sorted(message_entries(messages))))),
            ("kills"@, sorted_texts(kills)),
            ("rules"@, Data::Array(documents(sorted(rule_entries(rules))))),
        ],
    )
}

/// The hash of a modification.
pub open spec fn hash_of(
    actors: Seq<Actor>,
    messages: Seq<Message>,
    kills: Seq<Seq<char>>,
    rules: Seq<Rule>,
) -> Seq<char> {
    "sha256:"@ + sha256_text(
        vstd::utf8::encode_utf8(json_text(canonical(actors, messages, kills, rules))),
    )
}

fn strip_keys(entries: Vec<(String, Json)>) -> (items: Vec<Json>)
    ensures
        data_items(items@) == documents(data_members(entries@)),
{
    let mut items: Vec<Json> = Vec::new();
    let mut i: usize = 0;
    while i < entries.len()
        invariant
            i <= entries@.len(),
            items@.len() == i,
            forall|j: int| 0 <= j < i ==> (#[trigger] items@[j])@ == entries@[j].1@,
        decreases entries@.len() - i,
    {
        items.push(entries[i].1.copy());
        i = i + 1;
    }
    assert(data_items(items@) =~= documents(data_members(entries@)));
    items
}

fn sorted_strings(parts: &Vec<String>) -> (json: Json)
    ensures
        json@ == sorted_texts(texts(parts@)),
{
    let mut entries: Vec<(String, Json)> = Vec::new();
    let mut i: usize = 0;
    while i < parts.len()
        invariant
            i <= parts@.len(),
            entries@.len() == i,
            forall|j: int|
                0 <= j < i ==> (#[trigger] entries@[j]).0@ == parts@[j]@ && entries@[j].1@
                    == Data::Str(parts@[j]@),
        decreases parts@.len() - i,
    {
        entries.push((parts[i].clone(), Json::Str(parts[i].clone())));
        i = i + 1;
    }
    assert(data_members(entries@) =~= text_entries(texts(parts@)));
    Json::Array(strip_keys(sort_entries(entries)))
}

fn object2(a: &str, first: Json, b: &str, second: Json) -> (json: Json)
    ensures
        json@ == Data::Object(seq![(a@, first@), (b@, second@)]),
{
    let ghost view = seq![(a@, first@), (b@, second@)];
    let mut members: Vec<(String, Json)> = Vec::new();
    members.push((a.to_owned(), first));
    members.push((b.to_owned(), second));
    assert(data_members(members@) =~= view);
    Json::Object(members)
}

fn object4(
    a: &str,
    first: Json,
    b: &str,
    second: Json,
    c: &str,
    third: Json,
    d: &str,
    fourth: Json,
) -> (json: Json)
    ensures
        json@ == Data::Object(
            seq![(a@, first@), (b@, second@), (c@, third@), (d@, fourth@)],
        ),
{
    let ghost view = seq![(a@, first@), (b@, second@), (c@, third@), (d@, fourth@)];
    let mut members: Vec<(String, Json)> = Vec::new();
    members.push((a.to_owned(), first));
    members.push((b.to_owned(), second));
    members.push((c.to_owned(), third));
    members.push((d.to_owned(), fourth));
    assert(data_members(members@) =~= view);
    Json::Object(members)
}

fn actor_json(actor: &ActorIr) -> (json: Json)
    ensures
        json@ == actor_document(actor@),
{
    let mut routes: Vec<(String, Json)> = Vec::new();
    let mut i: usize = 0;
    while i < actor.routes.len()
        invariant
            i <= actor.routes@.len(),
            routes@.len() == i,
            forall|j: int|
                0 <= j < i ==> (#[trigger] routes@[j]).0@ == actor.routes@[j].0@ && routes@[j].1@
                    == sorted_texts(texts(actor.routes@[j].1@)),
        decreases actor.routes@.len() - i,
    {
        let route = &actor.routes[i];
        routes.push((route.0.clone(), sorted_strings(&route.1)));
        i = i + 1;
    }
    assert(data_members(routes@) =~= route_entries(actor@.routes));
    object4(
        "id",
        Json::Str(actor.id.clone()),
        "factory",
        Json::Str(actor.factory.clone()),
        "params",
        actor.params.copy(),
        "routes",
        Json::Object(map_entries(&routes)),
    )
}

fn actors_json(actors: &Vec<ActorIr>) -> (json: Json)
    ensures
        json@ == Data::Array(documents(sorted(actor_entries(actor_views(actors@))))),
{
    let mut entries: Vec<(String, Json)> = Vec::new();
    let mut i: usize = 0;
    while i < actors.len()
        invariant
            i <= actors@.len(),
            entries@.len() == i,
            forall|j: int|
                0 <= j < i ==> (#[trigger] entries@[j]).0@ == actors@[j].id@ && entries@[j].1@
                    == actor_document(actors@[j]@),
        decreases actors@.len() - i,
    {
        entries.push((actors[i].id.clone(), actor_json(&actors[i])));
        i = i + 1;
    }
    assert(data_members(entries@) =~= actor_entries(actor_views(actors@)));
    Json::Array(strip_keys(sort_entries(entries)))
}

fn messages_json(messages: &Vec<MessageIr>) -> (json: Json)
    ensures
        json@ == Data::Array(documents(sorted(message_entries(message_views(messages@))))),
{
    let mut entries: Vec<(String, Json)> = Vec::new();
    let mut i: usize = 0;
    while i < messages.len()
        invariant
            i <= messages@.len(),
            entries@.len() == i,
            forall|j: int|
                0 <= j < i ==> ((#[trigger] entries@[j]).0@, entries@[j].1@) == self_keyed(
                    message_document(messages@[j]@),
                ),
        decreases messages@.len() - i,
    {
        let message = &messages[i];
        let document = object2(
            "to",
            Json::Str(message.to.clone()),
            "content",
            message.content.copy(),
        );
        let key = document.to_text();
        entries.push((key, document));
        i = i + 1;
    }
    assert(data_members(entries@) =~= message_entries(message_views(messages@)));
    Json::Array(strip_keys(sort_entries(entries)))
}

fn rules_json(rules: &Vec<RuleIr>) -> (json: Json)
    ensures
        json@ == Data::Array(documents(sorted(rule_entries(rule_views(rules@))))),
{
    let mut entries: Vec<(String, Json)> = Vec::new();
    let mut i: usize = 0;
    while i < rules.len()
        invariant
            i <= rules@.len(),
            entries@.len() == i,
            forall|j: int|
                0 <= j < i ==> ((#[trigger] entries@[j]).0@, entries@[j].1@) == self_keyed(
                    rule_document(rules@[j]@),
                ),
        decreases rules@.len() - i,
    {
        let rule = &rules[i];
        let document = object2(
            "on",
            Json::Str(rule.on.clone()),
            "fn",
            Json::Str(rule.fn_name.clone()),
        );
        let key = document.to_text();
        entries.push((key, document));
        i = i + 1;
    }
    assert(data_members(entries@) =~= rule_entries(rule_views(rules@)));
    Json::Array(strip_keys(sort_entries(entries)))
}

/// Hashes the canonical form of a modification.
pub fn hash_modification(
    actors: &Vec<ActorIr>,
    messages: &Vec<MessageIr>,
    kills: &Vec<String>,
    rules: &Vec<RuleIr>,
) -> (hash: String)
    ensures
        hash@ == hash_of(
            actor_views(actors@),
            message_views(messages@),
            texts(kills@),
            rule_views(rules@),
        ),
{
    let document = object4(
        "actors",
        actors_json(actors),
        "messages",
        messages_json(messages),
        "kills",
        sorted_strings(kills),
        "rules",
        rules_json(rules),
    );
    let text = document.to_text();
    let digest = sha256_hex(text.as_str().as_bytes());
    cat2("sha256:", digest.as_str())
}

} // verus!
