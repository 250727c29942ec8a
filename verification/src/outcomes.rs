//! What reports on a graph say, how a graph gets its end, and what its lowering sends.

use crate::contract::{Shape, variants};
use crate::error::Failure;
use crate::flow::{Edge, Graph, Node, Outlet};
use crate::graph::{
    carried, connected, dead_branch, edge_fault, edge_faults, first_dead, first_unreached,
    has_edge, has_node, node_of, reachable, reaches_terminal, sinks, terminated, validation,
    wired,
};
use crate::ir::{activations, lowered, qualified, qualified_all};
use crate::json::Data;
use crate::soundness::{
    edge_fits, leads_on, lemma_carried, lemma_edge_fault, lemma_sink_emits_nothing,
};
use crate::text::joined;
use vstd::prelude::*;

verus! {

// ---------------------------------------------------------------------------
// Reports
// ---------------------------------------------------------------------------

proof fn lemma_unreached(graph: Graph, both: bool, start: Seq<char>, i: int)
    requires
        0 <= i,
    ensures
        first_unreached(graph, both, start, i) matches Some(id) ==> exists|n: int|
            {
                &&& i <= n < graph.nodes.len()
                &&& (#[trigger] graph.nodes[n]).id == id
                &&& !reachable(graph.edges, both, start, id)
            },
    decreases graph.nodes.len() - i,
{
    if i < graph.nodes.len() {
        if !reachable(graph.edges, both, start, graph.nodes[i].id) {
            assert(graph.nodes[i].id == first_unreached(graph, both, start, i)->Some_0);
        } else {
            lemma_unreached(graph, both, start, i + 1);
        }
    }
}

proof fn lemma_dead(graph: Graph, node: Node, j: int)
    requires
        0 <= j,
    ensures
        first_dead(graph, node, j) matches Some(variant) ==> variants(node.output_type).contains(
            variant,
        ) && !leads_on(graph, node.id, variant),
    decreases variants(node.output_type).len() - j,
{
    if j < variants(node.output_type).len() {
        let variant = variants(node.output_type)[j];
        lemma_carried(graph, node.id, variant, 0);
        if carried(graph, node.id, variant, 0) {
            lemma_dead(graph, node, j + 1);
        }
    }
}

proof fn lemma_dead_branch(graph: Graph, i: int)
    requires
        0 <= i,
    ensures
        dead_branch(graph, i) matches Err(failure) ==> (failure matches Failure::DeadBranch {
            node,
            variant,
            source_type,
        } && exists|n: int|
            {
                &&& i <= n < graph.nodes.len()
                &&& (#[trigger] graph.nodes[n]).id == node
                &&& graph.nodes[n].output_type == source_type
                &&& variants(source_type).len() > 1
                &&& variants(source_type).contains(variant)
                &&& !leads_on(graph, node, variant)
            }),
    decreases graph.nodes.len() - i,
{
    if i < graph.nodes.len() {
        lemma_dead_branch(graph, i + 1);
        lemma_dead(graph, graph.nodes[i], 0);
        if variants(graph.nodes[i].output_type).len() > 1 {
            if let Some(variant) = first_dead(graph, graph.nodes[i], 0) {
                assert(graph.nodes[i].output_type == graph.nodes[i].output_type);
            }
        }
    }
}

proof fn lemma_edge_report(graph: Graph, k: int)
    requires
        0 <= k,
    ensures
        edge_faults(graph, k) matches Err(failure) ==> exists|n: int|
            k <= n < graph.edges.len() && !edge_fits(graph, #[trigger] graph.edges[n]) && (
            failure matches Failure::EdgeTypeMismatch { from, to, output, input } ==> from
                == graph.edges[n].from && to == graph.edges[n].to && node_of(graph, from) is Some
                && node_of(graph, to) is Some && output == node_of(graph, from)->Some_0.output_type
                && input == node_of(graph, to)->Some_0.input_type),
        edge_faults(graph, k) matches Err(failure) ==> failure is EdgeTypeMismatch
            || failure is Graph,
    decreases graph.edges.len() - k,
{
    if k < graph.edges.len() {
        lemma_edge_report(graph, k + 1);
        lemma_edge_fault(graph, graph.edges[k]);
        if edge_fault(graph, graph.edges[k]) is Err {
            assert(!edge_fits(graph, graph.edges[k]));
        }
    }
}

/// A report on a graph is true of it. A missing terminal means that none is declared. A node
/// that is disconnected has no connection with the first one, or no path to the terminal. A
/// dead branch is one of several alternatives of a node that no edge takes to a node which
/// accepts it. An edge with a mismatch takes nothing that its target accepts.
pub proof fn lemma_reports_are_true(graph: Graph)
    ensures
        validation(graph) matches Err(failure) ==> match failure {
            Failure::NoTerminal => graph.terminal.len() == 0,
            Failure::Disconnected { node } => exists|n: int|
                {
                    &&& 0 <= n < graph.nodes.len()
                    &&& (#[trigger] graph.nodes[n]).id == node
                    &&& !connected(graph, graph.nodes[0].id, node) || !reaches_terminal(graph, node)
                },
            Failure::DeadBranch { node, variant, source_type } => exists|n: int|
                {
                    &&& 0 <= n < graph.nodes.len()
                    &&& (#[trigger] graph.nodes[n]).id == node
                    &&& graph.nodes[n].output_type == source_type
                    &&& variants(source_type).len() > 1
                    &&& variants(source_type).contains(variant)
                    &&& !leads_on(graph, node, variant)
                },
            Failure::EdgeTypeMismatch { from, to, output, input } => exists|n: int|
                {
                    &&& 0 <= n < graph.edges.len()
                    &&& (#[trigger] graph.edges[n]).from == from
                    &&& graph.edges[n].to == to
                    &&& !edge_fits(graph, graph.edges[n])
                    &&& output == node_of(graph, from)->Some_0.output_type
                    &&& input == node_of(graph, to)->Some_0.input_type
                },
            Failure::Graph(_) => !has_node(graph.nodes, graph.terminal) || exists|n: int|
                0 <= n < graph.edges.len() && !edge_fits(graph, #[trigger] graph.edges[n]),
            _ => false,
        },
        graph.terminal.len() == 0 ==> validation(graph) == Err::<(), Failure>(Failure::NoTerminal),
{
    if graph.nodes.len() > 0 {
        lemma_unreached(graph, true, graph.nodes[0].id, 0);
    }
    lemma_unreached(graph, false, graph.terminal, 0);
    lemma_dead_branch(graph, 0);
    lemma_edge_report(graph, 0);
}

// ---------------------------------------------------------------------------
// The end of a graph
// ---------------------------------------------------------------------------

proof fn lemma_wired(edges: Seq<Edge>, outputs: Seq<Outlet>, n: int)
    requires
        0 <= n <= outputs.len(),
    ensures
        wired(edges, outputs, n).len() >= edges.len(),
        forall|k: int| 0 <= k < edges.len() ==> wired(edges, outputs, n)[k] == edges[k],
        forall|k: int|
            edges.len() <= k < wired(edges, outputs, n).len() ==> (#[trigger] wired(
                edges,
                outputs,
                n,
            )[k]).to == "sink"@,
        forall|i: int|
            0 <= i < n ==> has_edge(
                wired(edges, outputs, n),
                (#[trigger] outputs[i]).actor,
                "sink"@,
            ),
    decreases n,
{
    if n > 0 {
        lemma_wired(edges, outputs, n - 1);
        let before = wired(edges, outputs, n - 1);
        let after = wired(edges, outputs, n);
        assert forall|i: int| 0 <= i < n implies has_edge(
            after,
            (#[trigger] outputs[i]).actor,
            "sink"@,
        ) by {
            if i < n - 1 || after.len() == before.len() {
                assert(has_edge(before, outputs[i].actor, "sink"@));
                let k = choose|k: int|
                    0 <= k < before.len() && (#[trigger] before[k]).from == outputs[i].actor
                        && before[k].to == "sink"@;
                assert(after[k] == before[k]);
            } else {
                let last = after[before.len() as int];
                assert(last.from == outputs[i].actor && last.to == "sink"@);
            }
        }
    }
}

proof fn lemma_sinks_found(nodes: Seq<Node>, n: int)
    requires
        0 <= n <= nodes.len(),
    ensures
        sinks(nodes, n).len() == 0 <==> forall|i: int|
            0 <= i < n ==> (#[trigger] nodes[i]).node_type != "sink"@,
        forall|i: int|
            0 <= i < n && (#[trigger] nodes[i]).node_type == "sink"@ ==> sinks(nodes, n).contains(
                nodes[i].id,
            ),
    decreases n,
{
    if n > 0 {
        lemma_sinks_found(nodes, n - 1);
        let before = sinks(nodes, n - 1);
        let after = sinks(nodes, n);
        assert forall|i: int|
            0 <= i < n && (#[trigger] nodes[i]).node_type == "sink"@ implies after.contains(
            nodes[i].id,
        ) by {
            if i < n - 1 {
                let k = choose|k: int| 0 <= k < before.len() && before[k] == nodes[i].id;
                assert(after[k] == nodes[i].id);
            } else {
                assert(after[before.len() as int] == nodes[i].id);
            }
        }
        if nodes[n - 1].node_type == "sink"@ {
            assert(after.len() > 0);
        }
    }
}

/// A graph that gets its end keeps its nodes and edges. Where a node is a sink already, that
/// one is the end and nothing is added. Elsewhere a sink is added behind the nodes, and each
/// output leads to it.
pub proof fn lemma_graph_gets_end(nodes: Seq<Node>, edges: Seq<Edge>, outputs: Seq<Outlet>)
    ensures
        terminated(nodes, edges, outputs) matches Ok(graph) ==> {
            &&& (exists|i: int|
                0 <= i < nodes.len() && (#[trigger] nodes[i]).node_type == "sink"@) ==> {
                &&& graph.nodes == nodes
                &&& graph.edges == edges
                &&& forall|i: int|
                    0 <= i < nodes.len() && (#[trigger] nodes[i]).node_type == "sink"@
                        ==> nodes[i].id == graph.terminal
            }
            &&& (forall|i: int|
                0 <= i < nodes.len() ==> (#[trigger] nodes[i]).node_type != "sink"@) ==> {
                &&& graph.terminal == "sink"@
                &&& graph.nodes.len() == nodes.len() + 1
                &&& graph.nodes.take(nodes.len() as int) == nodes
                &&& graph.nodes.last().id == "sink"@
                &&& graph.nodes.last().node_type == "sink"@
                &&& graph.nodes.last().args.len() == 0
                &&& graph.edges.len() >= edges.len()
                &&& graph.edges.take(edges.len() as int) == edges
                &&& forall|k: int|
                    edges.len() <= k < graph.edges.len() ==> (#[trigger] graph.edges[k]).to
                        == "sink"@
                &&& forall|i: int|
                    0 <= i < outputs.len() ==> has_edge(
                        graph.edges,
                        (#[trigger] outputs[i]).actor,
                        "sink"@,
                    )
                &&& outputs.len() == 1 ==> graph.nodes.last().input_type == outputs[0].ty
            }
        },
{
    lemma_sinks_found(nodes, nodes.len() as int);
    lemma_wired(edges, outputs, outputs.len() as int);
    let found = sinks(nodes, nodes.len() as int);
    if let Ok(graph) = terminated(nodes, edges, outputs) {
        if found.len() == 0 {
            assert(graph.nodes.take(nodes.len() as int) =~= nodes);
            assert(graph.edges.take(edges.len() as int) =~= edges);
        } else {
            assert forall|i: int|
                0 <= i < nodes.len() && (#[trigger] nodes[i]).node_type == "sink"@ implies nodes[i].id
                == graph.terminal by {
                assert(found.contains(nodes[i].id));
                let k = choose|k: int| 0 <= k < found.len() && found[k] == nodes[i].id;
                assert(k == 0);
            }
        }
    }
}

// ---------------------------------------------------------------------------
// What lowering makes
// ---------------------------------------------------------------------------

/// How many of the first `n` nodes no edge leads to.
pub open spec fn sources_among(graph: Graph, n: int) -> int
    decreases n,
{
    if n <= 0 {
        0
    } else if exists|k: int|
        0 <= k < graph.edges.len() && (#[trigger] graph.edges[k]).to == graph.nodes[n - 1].id {
        sources_among(graph, n - 1)
    } else {
        sources_among(graph, n - 1) + 1
    }
}

proof fn lemma_activations(graph: Graph, n: int)
    requires
        0 <= n <= graph.nodes.len(),
    ensures
        activations(graph, n).len() == sources_among(graph, n),
        forall|k: int|
            0 <= k < activations(graph, n).len() ==> (#[trigger] activations(graph, n)[k]).content
                == Data::Object(
                seq![
                    ("kind"@, Data::Str("task"@)),
                    ("prompt"@, Data::Str("<initial task text>"@)),
                ],
            ),
    decreases n,
{
    if n > 0 {
        lemma_activations(graph, n - 1);
        let before = activations(graph, n - 1);
        let after = activations(graph, n);
        assert forall|k: int| 0 <= k < after.len() implies (#[trigger] after[k]).content
            == Data::Object(
            seq![
                ("kind"@, Data::Str("task"@)),
                ("prompt"@, Data::Str("<initial task text>"@)),
            ],
        ) by {
            if k < before.len() {
                assert(after[k] == before[k]);
            }
        }
    }
}

/// A lowered graph sends one task to each node that no edge leads to, kills nothing and has
/// no rules. Its sink is called `sink`.
pub proof fn lemma_lowered_messages(graph: Graph)
    ensures
        lowered(graph) matches Ok(modification) ==> {
            &&& modification.messages.len() == sources_among(graph, graph.nodes.len() as int)
            &&& forall|k: int|
                0 <= k < modification.messages.len() ==> (
                #[trigger] modification.messages[k]).content == Data::Object(
                    seq![
                        ("kind"@, Data::Str("task"@)),
                        ("prompt"@, Data::Str("<initial task text>"@)),
                    ],
                )
            &&& modification.kills.len() == 0
            &&& modification.rules.len() == 0
            &&& forall|i: int|
                0 <= i < graph.nodes.len() && (#[trigger] graph.nodes[i]).id == graph.terminal
                    && graph.terminal.len() > 0 ==> modification.actors[i].id == "sink"@
        },
{
    lemma_activations(graph, graph.nodes.len() as int);
    lemma_sink_emits_nothing(graph);
}

/// A name with a dot is its own tag, and any other name stands behind `mag.`. The tags of the
/// alternatives of a union are separated by bars, those of the parts of an intersection by
/// plus signs.
pub proof fn lemma_type_tags(name: Seq<char>, first: Shape, second: Shape)
    ensures
        name.contains('.') ==> qualified(Shape::Named(name)) == name,
        !name.contains('.') ==> qualified(Shape::Named(name)) == "mag."@ + name,
        qualified(Shape::Union(seq![first, second])) == qualified(first) + "|"@ + qualified(second),
        qualified(Shape::Intersection(seq![first, second])) == qualified(first) + "+"@ + qualified(
            second,
        ),
{
    let types = seq![first, second];
    let tags = qualified_all(types);
    assert(tags =~= seq![qualified(first), qualified(second)]);
    lemma_two_joined(qualified(first), qualified(second), "|"@);
    lemma_two_joined(qualified(first), qualified(second), "+"@);
}

proof fn lemma_two_joined(first: Seq<char>, second: Seq<char>, between: Seq<char>)
    ensures
        joined(seq![first, second], between) == first + between + second,
{
    let parts = seq![first, second];
    assert(parts.drop_last() =~= seq![first]);
    assert(parts.drop_last().drop_last() =~= Seq::<Seq<char>>::empty());
    assert(joined(seq![first], between) =~= first);
    assert(joined(parts, between) =~= first + between + second);
}

} // verus!
