//! Program graphs: where they end, and whether they are well formed.

use crate::contract::{MagType, Shape, accepts, shapes, united, variants};
use crate::error::{Failure, MagError, verdict};
use crate::flow::{
    Datum, Edge, EdgeValue, Graph, GraphValue, Node, NodeValue, Outlet, Port, Value, datum_kind,
    edge_views, entry_views, node_views, port_views,
};
use crate::text::{
    cat2, cat3, cat5, contains_text, count_text, decimal, join_texts, joined, same_text, texts,
};
use vstd::prelude::*;

verus! {

/// The id under which the program sink is appended.
pub open spec fn sink_id() -> Seq<char> {
    "sink"@
}

// ---------------------------------------------------------------------------
// Reachability
// ---------------------------------------------------------------------------

/// An edge leads from `a` to `b` against its direction or, where `both` is set,
/// along it.
pub open spec fn joins(edge: Edge, both: bool, a: Seq<char>, b: Seq<char>) -> bool {
    ||| edge.to == a && edge.from == b
    ||| both && edge.from == a && edge.to == b
}

pub open spec fn linked(edges: Seq<Edge>, both: bool, a: Seq<char>, b: Seq<char>) -> bool {
    exists|k: int| 0 <= k < edges.len() && joins(#[trigger] edges[k], both, a, b)
}

pub open spec fn is_walk(edges: Seq<Edge>, both: bool, path: Seq<Seq<char>>) -> bool {
    &&& path.len() > 0
    &&& forall|i: int| 0 < i < path.len() ==> linked(edges, both, path[i - 1], #[trigger] path[i])
}

pub open spec fn walks_between(
    edges: Seq<Edge>,
    both: bool,
    a: Seq<char>,
    b: Seq<char>,
    path: Seq<Seq<char>>,
) -> bool {
    is_walk(edges, both, path) && path[0] == a && path.last() == b
}

/// Some walk leads from `a` to `b`.
pub open spec fn reachable(edges: Seq<Edge>, both: bool, a: Seq<char>, b: Seq<char>) -> bool {
    exists|path: Seq<Seq<char>>| #[trigger] walks_between(edges, both, a, b, path)
}

/// The graph holds together when edges are taken in both directions.
pub open spec fn connected(graph: Graph, a: Seq<char>, b: Seq<char>) -> bool {
    reachable(graph.edges, true, a, b)
}

/// Edges lead from `id` to the terminal.
pub open spec fn reaches_terminal(graph: Graph, id: Seq<char>) -> bool {
    reachable(graph.edges, false, graph.terminal, id)
}

proof fn lemma_reaches_itself(edges: Seq<Edge>, both: bool, a: Seq<char>)
    ensures
        reachable(edges, both, a, a),
{
    assert(walks_between(edges, both, a, a, seq![a]));
}

proof fn lemma_one_more_step(
    edges: Seq<Edge>,
    both: bool,
    a: Seq<char>,
    b: Seq<char>,
    c: Seq<char>,
    k: int,
)
    requires
        reachable(edges, both, a, b),
        0 <= k < edges.len(),
        joins(edges[k], both, b, c),
    ensures
        reachable(edges, both, a, c),
{
    let path = choose|path: Seq<Seq<char>>| #[trigger] walks_between(edges, both, a, b, path);
    let longer = path.push(c);
    assert forall|i: int| 0 < i < longer.len() implies linked(
        edges,
        both,
        longer[i - 1],
        #[trigger] longer[i],
    ) by {
        if i < path.len() {
            assert(linked(edges, both, path[i - 1], path[i]));
        } else {
            assert(longer[i - 1] == b && longer[i] == c);
            assert(joins(edges[k], both, b, c));
        }
    }
    assert(walks_between(edges, both, a, c, longer));
}

/// What is closed under links holds every end of a walk that starts in it.
proof fn lemma_closed_set(
    edges: Seq<Edge>,
    both: bool,
    members: Seq<Seq<char>>,
    path: Seq<Seq<char>>,
    i: int,
)
    requires
        is_walk(edges, both, path),
        members.contains(path[0]),
        forall|a: Seq<char>, b: Seq<char>|
            members.contains(a) && #[trigger] linked(edges, both, a, b) ==> members.contains(b),
        0 <= i < path.len(),
    ensures
        members.contains(path[i]),
    decreases i,
{
    if i > 0 {
        lemma_closed_set(edges, both, members, path, i - 1);
        assert(linked(edges, both, path[i - 1], path[i]));
    }
}

/// The edges that are still to be followed.
spec fn open_count(done: Seq<bool>) -> nat
    decreases done.len(),
{
    if done.len() == 0 {
        0
    } else {
        open_count(done.drop_last()) + if done.last() {
            0nat
        } else {
            1nat
        }
    }
}

proof fn lemma_close_one(done: Seq<bool>, k: int)
    requires
        0 <= k < done.len(),
        !done[k],
    ensures
        open_count(done.update(k, true)) == open_count(done) - 1,
    decreases done.len(),
{
    let after = done.update(k, true);
    if k == done.len() - 1 {
        assert(after.drop_last() =~= done.drop_last());
    } else {
        lemma_close_one(done.drop_last(), k);
        assert(after.drop_last() =~= done.drop_last().update(k, true));
    }
}

fn add_absent(members: &mut Vec<String>, id: &String)
    ensures
        forall|x: Seq<char>|
            #![trigger texts(final(members)@).contains(x)]
            texts(final(members)@).contains(x) <==> texts(old(members)@).contains(x) || x == id@,
        final(members)@.len() >= old(members)@.len(),
        forall|j: int| 0 <= j < old(members)@.len() ==> final(members)@[j] == old(members)@[j],
{
    let ghost before = texts(members@);
    if !contains_text(members, id.as_str()) {
        members.push(id.clone());
        assert(texts(members@) =~= before.push(id@));
        assert forall|x: Seq<char>| #[trigger] texts(members@).contains(x) <==> before.contains(x)
            || x == id@ by {
            if before.contains(x) {
                let j = before.index_of(x);
                assert(texts(members@)[j] == x);
            }
            if x == id@ {
                assert(texts(members@)[before.len() as int] == x);
            }
            if texts(members@).contains(x) {
                let j = texts(members@).index_of(x);
                if j < before.len() {
                    assert(before[j] == x);
                }
            }
        }
    }
}

/// The ids that walks from `start` lead to.
fn reach(edges: &Vec<EdgeValue>, both: bool, start: &str) -> (members: Vec<String>)
    ensures
        forall|x: Seq<char>|
            #![trigger texts(members@).contains(x)]
            texts(members@).contains(x) <==> reachable(edge_views(edges@), both, start@, x),
{
    let ghost all = edge_views(edges@);
    let mut members: Vec<String> = Vec::new();
    members.push(start.to_owned());
    let mut done: Vec<bool> = Vec::new();
    let mut e: usize = 0;
    while e < edges.len()
        invariant
            e <= edges@.len(),
            done@.len() == e,
            forall|j: int| 0 <= j < e ==> !(#[trigger] done@[j]),
        decreases edges@.len() - e,
    {
        done.push(false);
        e = e + 1;
    }
    proof {
        lemma_reaches_itself(all, both, start@);
        assert(texts(members@)[0] == start@);
        assert forall|x: Seq<char>| #[trigger] texts(members@).contains(x) implies reachable(
            all,
            both,
            start@,
            x,
        ) by {}
    }
    let mut k: usize = 0;
    while k < members.len()
        invariant
            all == edge_views(edges@),
            k <= members@.len(),
            done@.len() == edges@.len(),
            texts(members@).contains(start@),
            forall|x: Seq<char>| #[trigger]
                texts(members@).contains(x) ==> reachable(all, both, start@, x),
            forall|i: int|
                0 <= i < done@.len() && #[trigger] done@[i] ==> texts(members@).contains(all[i].from)
                    && texts(members@).contains(all[i].to),
            forall|j: int, i: int, b: Seq<char>|
                #![trigger members@[j], joins(all[i], both, members@[j]@, b)]
                0 <= j < k && 0 <= i < all.len() && joins(all[i], both, members@[j]@, b)
                    ==> texts(members@).contains(b),
        decreases open_count(done@), members@.len() - k,
    {
        let node = members[k].clone();
        let ghost members_before = members@;
        let ghost open_before = open_count(done@);
        assert(texts(members@)[k as int] == node@);
        let mut e: usize = 0;
        while e < edges.len()
            invariant
                all == edge_views(edges@),
                k < members_before.len() <= members@.len(),
                done@.len() == edges@.len(),
                e <= edges@.len(),
                forall|j: int|
                    0 <= j < members_before.len() ==> members@[j] == #[trigger] members_before[j],
                members_before[k as int]@ == node@,
                texts(members@).contains(node@),
                forall|x: Seq<char>| #[trigger]
                    texts(members_before).contains(x) ==> texts(members@).contains(x),
                forall|x: Seq<char>| #[trigger]
                    texts(members@).contains(x) ==> reachable(all, both, start@, x),
                forall|i: int|
                    0 <= i < done@.len() && #[trigger] done@[i] ==> texts(members@).contains(
                        all[i].from,
                    ) && texts(members@).contains(all[i].to),
                forall|i: int, b: Seq<char>|
                    #![trigger joins(all[i], both, node@, b)]
                    0 <= i < e && joins(all[i], both, node@, b) ==> texts(members@).contains(b),
                open_count(done@) <= open_before,
                members@.len() > members_before.len() ==> open_count(done@) < open_before,
            decreases edges@.len() - e,
        {
            let edge = &edges[e];
            assert(all[e as int] == edge@);
            if !done[e] && (same_text(edge.to.as_str(), node.as_str()) || (both && same_text(
                edge.from.as_str(),
                node.as_str(),
            ))) {
                proof {
                    lemma_close_one(done@, e as int);
                    if edge.to@ == node@ {
                        lemma_one_more_step(all, both, start@, node@, edge.from@, e as int);
                    } else {
                        lemma_one_more_step(all, both, start@, node@, edge.to@, e as int);
                    }
                }
                add_absent(&mut members, &edge.from);
                add_absent(&mut members, &edge.to);
                done.set(e, true);
            }
            e = e + 1;
        }
        proof {
            assert forall|j: int, i: int, b: Seq<char>|
                #![trigger members@[j], joins(all[i], both, members@[j]@, b)]
                0 <= j < k + 1 && 0 <= i < all.len() && joins(
                    all[i],
                    both,
                    members@[j]@,
                    b,
                ) implies texts(members@).contains(b) by {
                assert(members@[j] == members_before[j]);
                if j < k {
                    assert(joins(all[i], both, members_before[j]@, b));
                    assert(texts(members_before).contains(b));
                } else {
                    assert(joins(all[i], both, node@, b));
                }
            }
        }
        k = k + 1;
    }
    proof {
        let found = texts(members@);
        assert forall|a: Seq<char>, b: Seq<char>|
            found.contains(a) && #[trigger] linked(all, both, a, b) implies found.contains(b) by {
            let j = found.index_of(a);
            let i = choose|i: int| 0 <= i < all.len() && joins(#[trigger] all[i], both, a, b);
            assert(members@[j]@ == a);
            assert(joins(all[i], both, members@[j]@, b));
        }
        assert forall|x: Seq<char>| #[trigger] found.contains(x) <==> reachable(
            all,
            both,
            start@,
            x,
        ) by {
            if reachable(all, both, start@, x) {
                let path = choose|path: Seq<Seq<char>>| #[trigger]
                    walks_between(all, both, start@, x, path);
                lemma_closed_set(all, both, found, path, path.len() - 1);
            }
        }
    }
    members
}

// ---------------------------------------------------------------------------
// The terminal
// ---------------------------------------------------------------------------

/// The ids of the first `n` nodes that are made by the sink factory.
pub open spec fn sinks(nodes: Seq<Node>, n: int) -> Seq<Seq<char>>
    decreases n,
{
    if n <= 0 {
        Seq::empty()
    } else if nodes[n - 1].node_type == "sink"@ {
        sinks(nodes, n - 1).push(nodes[n - 1].id)
    } else {
        sinks(nodes, n - 1)
    }
}

pub open spec fn has_node(nodes: Seq<Node>, id: Seq<char>) -> bool {
    exists|i: int| 0 <= i < nodes.len() && (#[trigger] nodes[i]).id == id
}

pub open spec fn has_edge(edges: Seq<Edge>, from: Seq<char>, to: Seq<char>) -> bool {
    exists|i: int|
        0 <= i < edges.len() && (#[trigger] edges[i]).from == from && edges[i].to == to
}

/// The edges with one to the sink from each of the first `n` outputs that had none.
pub open spec fn wired(edges: Seq<Edge>, outputs: Seq<Outlet>, n: int) -> Seq<Edge>
    decreases n,
{
    if n <= 0 {
        edges
    } else {
        let earlier = wired(edges, outputs, n - 1);
        if has_edge(earlier, outputs[n - 1].actor, sink_id()) {
            earlier
        } else {
            earlier.push(Edge { from: outputs[n - 1].actor, to: sink_id() })
        }
    }
}

pub open spec fn outlet_types(outputs: Seq<Outlet>) -> Seq<Shape> {
    Seq::new(outputs.len(), |i: int| outputs[i].ty)
}

/// The type that a sink behind some outputs takes.
pub open spec fn sink_type(outputs: Seq<Outlet>) -> Shape {
    if outputs.len() == 1 {
        outputs[0].ty
    } else {
        united(outlet_types(outputs))
    }
}

/// A graph with the sink behind its outputs.
pub open spec fn with_sink(nodes: Seq<Node>, edges: Seq<Edge>, outputs: Seq<Outlet>) -> Result<
    Graph,
    Failure,
> {
    if outputs.len() == 0 {
        Err(
            Failure::Eval(
                "graph has no nodes to derive a terminal from — a program needs at least one node"@,
            ),
        )
    } else if has_node(nodes, sink_id()) {
        Err(
            Failure::Graph(
                "actor id 'sink' is taken by a non-sink node; name the terminal explicitly with :terminal"@,
            ),
        )
    } else {
        Ok(
            Graph {
                nodes: nodes.push(
                    Node {
                        id: sink_id(),
                        node_type: "sink"@,
                        args: Seq::empty(),
                        input_type: sink_type(outputs),
                        output_type: sink_type(outputs),
                    },
                ),
                edges: wired(edges, outputs, outputs.len() as int),
                terminal: sink_id(),
            },
        )
    }
}

/// Where a graph without a declared terminal ends: at its only sink node, or
/// else at a sink behind its last outputs.
pub open spec fn terminated(nodes: Seq<Node>, edges: Seq<Edge>, outputs: Seq<Outlet>) -> Result<
    Graph,
    Failure,
> {
    let found = sinks(nodes, nodes.len() as int);
    if found.len() == 0 {
        with_sink(nodes, edges, outputs)
    } else if found.len() == 1 {
        Ok(Graph { nodes, edges, terminal: found[0] })
    } else {
        Err(
            Failure::Eval(
                "graph has "@ + decimal(found.len()) + " sink nodes ("@ + joined(found, ", "@)
                    + "); exactly one is required"@,
            ),
        )
    }
}

fn contains_node(nodes: &Vec<NodeValue>, id: &str) -> (found: bool)
    ensures
        found == has_node(node_views(nodes@), id@),
{
    let mut i: usize = 0;
    while i < nodes.len()
        invariant
            i <= nodes@.len(),
            forall|j: int| 0 <= j < i ==> (#[trigger] node_views(nodes@)[j]).id != id@,
        decreases nodes@.len() - i,
    {
        if same_text(nodes[i].id.as_str(), id) {
            assert(node_views(nodes@)[i as int].id == id@);
            return true;
        }
        i = i + 1;
    }
    false
}

fn contains_edge(edges: &Vec<EdgeValue>, from: &str, to: &str) -> (found: bool)
    ensures
        found == has_edge(edge_views(edges@), from@, to@),
{
    let mut i: usize = 0;
    while i < edges.len()
        invariant
            i <= edges@.len(),
            forall|j: int|
                0 <= j < i ==> !((#[trigger] edge_views(edges@)[j]).from == from@ && edge_views(
                    edges@,
                )[j].to == to@),
        decreases edges@.len() - i,
    {
        if same_text(edges[i].from.as_str(), from) && same_text(edges[i].to.as_str(), to) {
            assert(edge_views(edges@)[i as int].from == from@);
            return true;
        }
        i = i + 1;
    }
    false
}

/// Appends the program sink behind some outputs. Where that fails, nothing is
/// changed.
pub fn append_implicit_sink(
    nodes: &mut Vec<NodeValue>,
    edges: &mut Vec<EdgeValue>,
    outputs: &[Port],
) -> (terminal: Result<String, MagError>)
    ensures
        match (
            terminal,
            with_sink(node_views(old(nodes)@), edge_views(old(edges)@), port_views(outputs@)),
        ) {
            (Ok(terminal), Ok(graph)) => {
                &&& node_views(final(nodes)@) == graph.nodes
                &&& edge_views(final(edges)@) == graph.edges
                &&& terminal@ == graph.terminal
            },
            (Err(error), Err(failure)) => {
                &&& error@ == failure
                &&& *final(nodes) == *old(nodes)
                &&& *final(edges) == *old(edges)
            },
            _ => false,
        },
{
    let ghost ports = port_views(outputs@);
    if outputs.len() == 0 {
        return Err(
            MagError::Eval(
                "graph has no nodes to derive a terminal from — a program needs at least one node".to_owned(),
            ),
        );
    }
    if contains_node(nodes, "sink") {
        return Err(
            MagError::Graph(
                "actor id 'sink' is taken by a non-sink node; name the terminal explicitly with :terminal".to_owned(),
            ),
        );
    }
    let ty = if outputs.len() == 1 {
        assert(ports[0].ty == outputs@[0].ty@);
        outputs[0].ty.copy()
    } else {
        let mut types: Vec<MagType> = Vec::new();
        let mut i: usize = 0;
        while i < outputs.len()
            invariant
                i <= outputs@.len(),
                types@.len() == i,
                forall|j: int| 0 <= j < i ==> (#[trigger] types@[j])@ == outputs@[j].ty@,
            decreases outputs@.len() - i,
        {
            types.push(outputs[i].ty.copy());
            i = i + 1;
        }
        assert(shapes(types@) =~= outlet_types(ports));
        MagType::union(types)
    };
    let ghost nodes_before = node_views(nodes@);
    nodes.push(
        NodeValue {
            id: "sink".to_owned(),
            node_type: "sink".to_owned(),
            args: Vec::new(),
            input_type: ty.copy(),
            output_type: ty,
        },
    );
    proof {
        let added = nodes@.last();
        assert(entry_views(added.args@) =~= Seq::empty());
        assert(node_views(nodes@) =~= nodes_before.push(added@));
    }
    let ghost edges_before = edge_views(edges@);
    let mut i: usize = 0;
    while i < outputs.len()
        invariant
            i <= outputs@.len(),
            ports == port_views(outputs@),
            edge_views(edges@) == wired(edges_before, ports, i as int),
        decreases outputs@.len() - i,
    {
        assert(ports[i as int].actor == outputs@[i as int].actor@);
        if !contains_edge(edges, outputs[i].actor.as_str(), "sink") {
            let ghost earlier = edge_views(edges@);
            edges.push(EdgeValue { from: outputs[i].actor.clone(), to: "sink".to_owned() });
            assert(edge_views(edges@) =~= earlier.push(edges@.last()@));
        }
        i = i + 1;
    }
    Ok("sink".to_owned())
}

/// Finds or appends the terminal of a graph for which none was declared. Where
/// that fails, nothing is changed.
pub fn resolve_terminal(
    nodes: &mut Vec<NodeValue>,
    edges: &mut Vec<EdgeValue>,
    last_outputs: &[Port],
) -> (terminal: Result<String, MagError>)
    ensures
        match (
            terminal,
            terminated(node_views(old(nodes)@), edge_views(old(edges)@), port_views(last_outputs@)),
        ) {
            (Ok(terminal), Ok(graph)) => {
                &&& node_views(final(nodes)@) == graph.nodes
                &&& edge_views(final(edges)@) == graph.edges
                &&& terminal@ == graph.terminal
            },
            (Err(error), Err(failure)) => {
                &&& error@ == failure
                &&& *final(nodes) == *old(nodes)
                &&& *final(edges) == *old(edges)
            },
            _ => false,
        },
{
    let mut found: Vec<String> = Vec::new();
    let ghost all = node_views(nodes@);
    let mut i: usize = 0;
    while i < nodes.len()
        invariant
            i <= nodes@.len(),
            all == node_views(nodes@),
            texts(found@) == sinks(all, i as int),
        decreases nodes@.len() - i,
    {
        assert(all[i as int] == nodes@[i as int]@);
        if same_text(nodes[i].node_type.as_str(), "sink") {
            let ghost before = texts(found@);
            found.push(nodes[i].id.clone());
            assert(texts(found@) =~= before.push(nodes@[i as int].id@));
        }
        i = i + 1;
    }
    assert(texts(found@).len() == found@.len());
    if found.len() == 0 {
        append_implicit_sink(nodes, edges, last_outputs)
    } else if found.len() == 1 {
        assert(texts(found@)[0] == found@[0]@);
        Ok(found[0].clone())
    } else {
        let count = count_text(found.len());
        let names = join_texts(&found, ", ");
        Err(
            MagError::Eval(
                cat5(
                    "graph has ",
                    count.as_str(),
                    " sink nodes (",
                    names.as_str(),
                    "); exactly one is required",
                ),
            ),
        )
    }
}

/// The program graph that a program's final value stands for.
pub open spec fn extracted(value: Datum) -> Result<Graph, Failure> {
    match value {
        Datum::Graph(graph) => Ok(*graph),
        Datum::Node(node) => terminated(
            seq![*node],
            Seq::empty(),
            seq![Outlet { actor: node.id, ty: node.output_type }],
        ),
        Datum::Subgraph(graph) => terminated(graph.nodes, graph.edges, graph.outputs),
        other => Err(Failure::Graph("expected graph value, got "@ + datum_kind(other))),
    }
}

/// The view of an extracted graph.
pub open spec fn graph_outcome(result: Result<GraphValue, MagError>) -> Result<Graph, Failure> {
    match result {
        Ok(graph) => Ok(graph@),
        Err(error) => Err(error@),
    }
}

/// Extracts the program graph from a program's final value.
pub fn extract_graph(value: Value) -> (graph: Result<GraphValue, MagError>)
    ensures
        graph_outcome(graph) == extracted(value@),
{
    match value {
        Value::Graph(graph) => Ok(graph),
        Value::Node(node) => {
            let mut outputs: Vec<Port> = Vec::new();
            outputs.push(Port { actor: node.id.clone(), ty: node.output_type.copy() });
            let mut nodes: Vec<NodeValue> = Vec::new();
            let ghost view = node@;
            nodes.push(node);
            let mut edges: Vec<EdgeValue> = Vec::new();
            proof {
                assert(node_views(nodes@) =~= seq![view]);
                assert(edge_views(edges@) =~= Seq::empty());
                assert(port_views(outputs@) =~= seq![
                    Outlet { actor: view.id, ty: view.output_type },
                ]);
            }
            match resolve_terminal(&mut nodes, &mut edges, outputs.as_slice()) {
                Ok(terminal) => Ok(GraphValue { nodes, edges, terminal }),
                Err(error) => Err(error),
            }
        },
        Value::Subgraph(graph) => {
            let mut nodes = graph.nodes;
            let mut edges = graph.edges;
            match resolve_terminal(&mut nodes, &mut edges, graph.outputs.as_slice()) {
                Ok(terminal) => Ok(GraphValue { nodes, edges, terminal }),
                Err(error) => Err(error),
            }
        },
        other => Err(MagError::Graph(cat2("expected graph value, got ", other.kind_name()))),
    }
}

// ---------------------------------------------------------------------------
// Validation
// ---------------------------------------------------------------------------

/// The node that an id stands for: the last one that bears it among the first `n`.
pub open spec fn node_named(nodes: Seq<Node>, id: Seq<char>, n: int) -> Option<Node>
    decreases n,
{
    if n <= 0 {
        None
    } else if nodes[n - 1].id == id {
        Some(nodes[n - 1])
    } else {
        node_named(nodes, id, n - 1)
    }
}

pub open spec fn node_of(graph: Graph, id: Seq<char>) -> Option<Node> {
    node_named(graph.nodes, id, graph.nodes.len() as int)
}

/// The first node from index `i` on that a walk from `start` does not reach.
pub open spec fn first_unreached(graph: Graph, both: bool, start: Seq<char>, i: int) -> Option<
    Seq<char>,
>
    decreases graph.nodes.len() - i,
{
    if i < 0 || i >= graph.nodes.len() {
        None
    } else if !reachable(graph.edges, both, start, graph.nodes[i].id) {
        Some(graph.nodes[i].id)
    } else {
        first_unreached(graph, both, start, i + 1)
    }
}

/// Some edge from index `k` on takes a type from a node to one that accepts it.
pub open spec fn carried(graph: Graph, from: Seq<char>, ty: Shape, k: int) -> bool
    decreases graph.edges.len() - k,
{
    0 <= k < graph.edges.len() && (carries(graph, graph.edges[k], from, ty) || carried(
        graph,
        from,
        ty,
        k + 1,
    ))
}

pub open spec fn carries(graph: Graph, edge: Edge, from: Seq<char>, ty: Shape) -> bool {
    edge.from == from && match node_of(graph, edge.to) {
        Some(node) => accepts(node.input_type, ty),
        None => false,
    }
}

/// The first of a node's alternatives from index `j` on that no edge carries.
pub open spec fn first_dead(graph: Graph, node: Node, j: int) -> Option<Shape>
    decreases variants(node.output_type).len() - j,
{
    if j < 0 || j >= variants(node.output_type).len() {
        None
    } else if !carried(graph, node.id, variants(node.output_type)[j], 0) {
        Some(variants(node.output_type)[j])
    } else {
        first_dead(graph, node, j + 1)
    }
}

/// The report on the first node from index `i` on with an alternative that
/// leads nowhere.
pub open spec fn dead_branch(graph: Graph, i: int) -> Result<(), Failure>
    decreases graph.nodes.len() - i,
{
    if i < 0 || i >= graph.nodes.len() {
        Ok(())
    } else if variants(graph.nodes[i].output_type).len() <= 1 {
        dead_branch(graph, i + 1)
    } else {
        match first_dead(graph, graph.nodes[i], 0) {
            Some(variant) => Err(
                Failure::DeadBranch {
                    node: graph.nodes[i].id,
                    variant,
                    source_type: graph.nodes[i].output_type,
                },
            ),
            None => dead_branch(graph, i + 1),
        }
    }
}

/// Some alternative from index `j` on is accepted.
pub open spec fn some_accepted(target: Shape, offered: Seq<Shape>, j: int) -> bool
    decreases offered.len() - j,
{
    0 <= j < offered.len() && (accepts(target, offered[j]) || some_accepted(
        target,
        offered,
        j + 1,
    ))
}

/// What is wrong with one edge.
pub open spec fn edge_fault(graph: Graph, edge: Edge) -> Result<(), Failure> {
    match (node_of(graph, edge.from), node_of(graph, edge.to)) {
        (None, _) => Err(
            Failure::Graph("edge references unknown source node '"@ + edge.from + "'"@),
        ),
        (Some(_), None) => Err(
            Failure::Graph("edge references unknown target node '"@ + edge.to + "'"@),
        ),
        (Some(from), Some(to)) => if some_accepted(to.input_type, variants(from.output_type), 0) {
            Ok(())
        } else {
            Err(
                Failure::EdgeTypeMismatch {
                    from: edge.from,
                    to: edge.to,
                    output: from.output_type,
                    input: to.input_type,
                },
            )
        },
    }
}

/// The report on the first faulty edge from index `k` on.
pub open spec fn edge_faults(graph: Graph, k: int) -> Result<(), Failure>
    decreases graph.edges.len() - k,
{
    if k < 0 || k >= graph.edges.len() {
        Ok(())
    } else {
        match edge_fault(graph, graph.edges[k]) {
            Err(failure) => Err(failure),
            Ok(_) => edge_faults(graph, k + 1),
        }
    }
}

pub open spec fn unreached_fault(found: Option<Seq<char>>) -> Result<(), Failure> {
    match found {
        Some(node) => Err(Failure::Disconnected { node }),
        None => Ok(()),
    }
}

pub open spec fn connection_fault(graph: Graph) -> Result<(), Failure> {
    if graph.nodes.len() == 0 {
        Ok(())
    } else {
        unreached_fault(first_unreached(graph, true, graph.nodes[0].id, 0))
    }
}

pub open spec fn path_fault(graph: Graph) -> Result<(), Failure> {
    unreached_fault(first_unreached(graph, false, graph.terminal, 0))
}

/// The report on a graph: a declared terminal that exists, one connected
/// whole, a path from each node to the terminal, a destination for each
/// alternative, and edges whose ends fit, in this order.
pub open spec fn validation(graph: Graph) -> Result<(), Failure> {
    if graph.terminal.len() == 0 {
        Err(Failure::NoTerminal)
    } else if !has_node(graph.nodes, graph.terminal) {
        Err(
            Failure::Graph(
                "terminal '"@ + graph.terminal + "' does not reference an existing node"@,
            ),
        )
    } else if connection_fault(graph) is Err {
        connection_fault(graph)
    } else if path_fault(graph) is Err {
        path_fault(graph)
    } else if dead_branch(graph, 0) is Err {
        dead_branch(graph, 0)
    } else {
        edge_faults(graph, 0)
    }
}

fn first_outside(nodes: &Vec<NodeValue>, members: &Vec<String>, Ghost(graph): Ghost<Graph>, both: bool, Ghost(start): Ghost<Seq<char>>) -> (found: Result<(), MagError>)
    requires
        graph.nodes == node_views(nodes@),
        forall|x: Seq<char>|
            #![trigger texts(members@).contains(x)]
            texts(members@).contains(x) <==> reachable(graph.edges, both, start, x),
    ensures
        verdict(found) == unreached_fault(first_unreached(graph, both, start, 0)),
{
    let mut i: usize = 0;
    while i < nodes.len()
        invariant
            i <= nodes@.len(),
            graph.nodes == node_views(nodes@),
            forall|x: Seq<char>|
                #![trigger texts(members@).contains(x)]
                texts(members@).contains(x) <==> reachable(graph.edges, both, start, x),
            first_unreached(graph, both, start, 0) == first_unreached(
                graph,
                both,
                start,
                i as int,
            ),
        decreases nodes@.len() - i,
    {
        assert(graph.nodes[i as int].id == nodes@[i as int].id@);
        if !contains_text(members, nodes[i].id.as_str()) {
            return Err(MagError::Disconnected { node: nodes[i].id.clone() });
        }
        i = i + 1;
    }
    Ok(())
}

fn validate_has_terminals(graph: &GraphValue) -> (result: Result<(), MagError>)
    ensures
        verdict(result) == (if graph@.terminal.len() == 0 {
            Err::<(), Failure>(Failure::NoTerminal)
        } else {
            Ok(())
        }),
{
    if graph.terminal.as_str().is_empty() {
        return Err(MagError::NoTerminal);
    }
    Ok(())
}

fn validate_terminals_exist(graph: &GraphValue) -> (result: Result<(), MagError>)
    ensures
        verdict(result) == (if has_node(graph@.nodes, graph@.terminal) {
            Ok::<(), Failure>(())
        } else {
            Err(
                Failure::Graph(
                    "terminal '"@ + graph@.terminal + "' does not reference an existing node"@,
                ),
            )
        }),
{
    if !contains_node(&graph.nodes, graph.terminal.as_str()) {
        return Err(
            MagError::Graph(
                cat3("terminal '", graph.terminal.as_str(), "' does not reference an existing node"),
            ),
        );
    }
    Ok(())
}

fn validate_connected(graph: &GraphValue) -> (result: Result<(), MagError>)
    ensures
        verdict(result) == connection_fault(graph@),
{
    if graph.nodes.len() == 0 {
        return Ok(());
    }
    let start = graph.nodes[0].id.clone();
    assert(graph@.nodes[0].id == start@);
    let members = reach(&graph.edges, true, start.as_str());
    first_outside(&graph.nodes, &members, Ghost(graph@), true, Ghost(start@))
}

fn validate_path_to_terminal(graph: &GraphValue) -> (result: Result<(), MagError>)
    ensures
        verdict(result) == path_fault(graph@),
{
    let members = reach(&graph.edges, false, graph.terminal.as_str());
    first_outside(&graph.nodes, &members, Ghost(graph@), false, Ghost(graph@.terminal))
}

/// Finds the node that an id stands for.
pub(crate) fn find_node<'a>(nodes: &'a Vec<NodeValue>, id: &str) -> (found: Option<&'a NodeValue>)
    ensures
        match (found, node_named(node_views(nodes@), id@, nodes@.len() as int)) {
            (Some(node), Some(view)) => node@ == view,
            (None, None) => true,
            _ => false,
        },
{
    let mut i: usize = nodes.len();
    while i > 0
        invariant
            i <= nodes@.len(),
            node_named(node_views(nodes@), id@, nodes@.len() as int) == node_named(
                node_views(nodes@),
                id@,
                i as int,
            ),
        decreases i,
    {
        i = i - 1;
        assert(node_views(nodes@)[i as int] == nodes@[i as int]@);
        if same_text(nodes[i].id.as_str(), id) {
            return Some(&nodes[i]);
        }
    }
    None
}

fn has_destination(graph: &GraphValue, from: &str, ty: &MagType) -> (found: bool)
    ensures
        found == carried(graph@, from@, ty@, 0),
{
    let ghost view = graph@;
    let mut k: usize = 0;
    while k < graph.edges.len()
        invariant
            k <= graph.edges@.len(),
            view == graph@,
            carried(view, from@, ty@, 0) == carried(view, from@, ty@, k as int),
        decreases graph.edges@.len() - k,
    {
        let edge = &graph.edges[k];
        assert(view.edges[k as int] == edge@);
        if same_text(edge.from.as_str(), from) {
            match find_node(&graph.nodes, edge.to.as_str()) {
                Some(node) => {
                    if node.input_type.accepts(ty) {
                        return true;
                    }
                },
                None => {},
            }
        }
        k = k + 1;
    }
    false
}

fn first_dead_variant<'a>(graph: &GraphValue, node: &'a NodeValue) -> (found: Option<&'a MagType>)
    ensures
        match (found, first_dead(graph@, node@, 0)) {
            (Some(ty), Some(shape)) => ty@ == shape,
            (None, None) => true,
            _ => false,
        },
{
    let offered = node.output_type.variants();
    let mut j: usize = 0;
    while j < offered.len()
        invariant
            j <= offered@.len(),
            offered@.len() == variants(node@.output_type).len(),
            forall|k: int|
                0 <= k < offered@.len() ==> (#[trigger] offered@[k])@ == variants(
                    node@.output_type,
                )[k],
            first_dead(graph@, node@, 0) == first_dead(graph@, node@, j as int),
        decreases offered@.len() - j,
    {
        assert(offered@[j as int]@ == variants(node@.output_type)[j as int]);
        if !has_destination(graph, node.id.as_str(), offered[j]) {
            return Some(offered[j]);
        }
        j = j + 1;
    }
    None
}

fn validate_dead_branches(graph: &GraphValue) -> (result: Result<(), MagError>)
    ensures
        verdict(result) == dead_branch(graph@, 0),
{
    let mut i: usize = 0;
    while i < graph.nodes.len()
        invariant
            i <= graph.nodes@.len(),
            dead_branch(graph@, 0) == dead_branch(graph@, i as int),
        decreases graph.nodes@.len() - i,
    {
        let node = &graph.nodes[i];
        assert(graph@.nodes[i as int] == node@);
        if node.output_type.variants().len() > 1 {
            match first_dead_variant(graph, node) {
                Some(variant) => {
                    return Err(
                        MagError::DeadBranch {
                            node: node.id.clone(),
                            variant: variant.copy(),
                            source_type: node.output_type.copy(),
                        },
                    );
                },
                None => {},
            }
        }
        i = i + 1;
    }
    Ok(())
}

fn any_accepted(target: &MagType, source: &MagType) -> (found: bool)
    ensures
        found == some_accepted(target@, variants(source@), 0),
{
    let offered = source.variants();
    let mut j: usize = 0;
    while j < offered.len()
        invariant
            j <= offered@.len(),
            offered@.len() == variants(source@).len(),
            forall|k: int|
                0 <= k < offered@.len() ==> (#[trigger] offered@[k])@ == variants(source@)[k],
            some_accepted(target@, variants(source@), 0) == some_accepted(
                target@,
                variants(source@),
                j as int,
            ),
        decreases offered@.len() - j,
    {
        assert(offered@[j as int]@ == variants(source@)[j as int]);
        if target.accepts(offered[j]) {
            return true;
        }
        j = j + 1;
    }
    false
}

fn validate_edge(graph: &GraphValue, edge: &EdgeValue) -> (result: Result<(), MagError>)
    ensures
        verdict(result) == edge_fault(graph@, edge@),
{
    match find_node(&graph.nodes, edge.from.as_str()) {
        None => Err(
            MagError::Graph(
                cat3("edge references unknown source node '", edge.from.as_str(), "'"),
            ),
        ),
        Some(from) => match find_node(&graph.nodes, edge.to.as_str()) {
            None => Err(
                MagError::Graph(
                    cat3("edge references unknown target node '", edge.to.as_str(), "'"),
                ),
            ),
            Some(to) => {
                if any_accepted(&to.input_type, &from.output_type) {
                    Ok(())
                } else {
                    Err(
                        MagError::EdgeTypeMismatch {
                            from: edge.from.clone(),
                            to: edge.to.clone(),
                            output: from.output_type.copy(),
                            input: to.input_type.copy(),
                        },
                    )
                }
            },
        },
    }
}

fn validate_edge_types(graph: &GraphValue) -> (result: Result<(), MagError>)
    ensures
        verdict(result) == edge_faults(graph@, 0),
{
    let mut k: usize = 0;
    while k < graph.edges.len()
        invariant
            k <= graph.edges@.len(),
            edge_faults(graph@, 0) == edge_faults(graph@, k as int),
        decreases graph.edges@.len() - k,
    {
        assert(graph@.edges[k as int] == graph.edges@[k as int]@);
        match validate_edge(graph, &graph.edges[k]) {
            Err(error) => {
                return Err(error);
            },
            Ok(_) => {},
        }
        k = k + 1;
    }
    Ok(())
}

/// Checks a program graph.
pub fn validate(graph: &GraphValue) -> (result: Result<(), MagError>)
    ensures
        verdict(result) == validation(graph@),
{
    match validate_has_terminals(graph) {
        Err(error) => return Err(error),
        Ok(_) => {},
    }
    match validate_terminals_exist(graph) {
        Err(error) => return Err(error),
        Ok(_) => {},
    }
    match validate_connected(graph) {
        Err(error) => return Err(error),
        Ok(_) => {},
    }
    match validate_path_to_terminal(graph) {
        Err(error) => return Err(error),
        Ok(_) => {},
    }
    match validate_dead_branches(graph) {
        Err(error) => return Err(error),
        Ok(_) => {},
    }
    validate_edge_types(graph)
}

} // verus!
