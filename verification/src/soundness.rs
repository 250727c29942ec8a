//! What a graph that passes validation is like, and what becomes of its edges when it
//! is lowered.

use crate::contract::{Shape, accepts, variants};
use crate::driver::{actor_known, lemma_modification_valid, modification_valid};
use crate::env::World;
use crate::error::Failure;
use crate::flow::{Datum, Edge, Graph, Node, Outlet};
use crate::graph::{
    carried, carries, connected, dead_branch, edge_fault, edge_faults, first_dead,
    first_unreached, has_node, node_named, node_of, reachable, reaches_terminal, sink_id, sinks,
    some_accepted, terminated, validation, with_sink,
};
use crate::invariance::{
    actors_within, has_counterpart, ids_differ, lemma_hash_ignores_order, routes_differ,
    routes_within, same_actor,
};
use crate::ir::{
    Actor, Message, Route, activation, activations, bare_actors, datum_items_json, datum_json,
    datum_members_json, edge_routed, edges_routed, emitted_id, first_accepted, has_inbound,
    index_named, leaves_terminal, lowered, params_of, qualified, route_type, routed,
};
use crate::json::Data;
use vstd::prelude::*;

verus! {

// ---------------------------------------------------------------------------
// Validation
// ---------------------------------------------------------------------------

/// Some alternative of what a node puts out is accepted by another node.
pub open spec fn ends_fit(from: Node, to: Node) -> bool {
    exists|j: int|
        0 <= j < variants(from.output_type).len() && accepts(
            to.input_type,
            #[trigger] variants(from.output_type)[j],
        )
}

/// Both ends of an edge exist and fit.
pub open spec fn edge_fits(graph: Graph, edge: Edge) -> bool {
    match (node_of(graph, edge.from), node_of(graph, edge.to)) {
        (Some(from), Some(to)) => ends_fit(from, to),
        _ => false,
    }
}

/// Some edge takes a type from a node to one that accepts it.
pub open spec fn leads_on(graph: Graph, from: Seq<char>, ty: Shape) -> bool {
    exists|k: int|
        0 <= k < graph.edges.len() && carries(graph, #[trigger] graph.edges[k], from, ty)
}

/// Each of several alternatives that a node puts out leads on to some node.
pub open spec fn branches_live(graph: Graph, node: Node) -> bool {
    variants(node.output_type).len() > 1 ==> forall|j: int|
        0 <= j < variants(node.output_type).len() ==> leads_on(
            graph,
            node.id,
            #[trigger] variants(node.output_type)[j],
        )
}

/// A graph that ends in an existing node, holds together, leads from every node to its
/// end, has no dead branch, and joins only what fits.
pub open spec fn sound(graph: Graph) -> bool {
    &&& graph.terminal.len() > 0
    &&& has_node(graph.nodes, graph.terminal)
    &&& forall|i: int|
        0 <= i < graph.nodes.len() ==> connected(
            graph,
            graph.nodes[0].id,
            (#[trigger] graph.nodes[i]).id,
        )
    &&& forall|i: int|
        0 <= i < graph.nodes.len() ==> reaches_terminal(graph, (#[trigger] graph.nodes[i]).id)
    &&& forall|i: int|
        0 <= i < graph.nodes.len() ==> branches_live(graph, #[trigger] graph.nodes[i])
    &&& forall|k: int| 0 <= k < graph.edges.len() ==> edge_fits(graph, #[trigger] graph.edges[k])
}

proof fn lemma_all_reached(graph: Graph, both: bool, start: Seq<char>, i: int)
    requires
        0 <= i,
    ensures
        first_unreached(graph, both, start, i) is None <==> forall|n: int|
            i <= n < graph.nodes.len() ==> reachable(
                graph.edges,
                both,
                start,
                (#[trigger] graph.nodes[n]).id,
            ),
    decreases graph.nodes.len() - i,
{
    if i < graph.nodes.len() {
        lemma_all_reached(graph, both, start, i + 1);
    }
}

pub(crate) proof fn lemma_carried(graph: Graph, from: Seq<char>, ty: Shape, k: int)
    requires
        0 <= k,
    ensures
        carried(graph, from, ty, k) <==> exists|n: int|
            k <= n < graph.edges.len() && carries(graph, #[trigger] graph.edges[n], from, ty),
    decreases graph.edges.len() - k,
{
    if k < graph.edges.len() {
        lemma_carried(graph, from, ty, k + 1);
    }
}

proof fn lemma_none_dead(graph: Graph, node: Node, j: int)
    requires
        0 <= j,
    ensures
        first_dead(graph, node, j) is None <==> forall|n: int|
            j <= n < variants(node.output_type).len() ==> leads_on(
                graph,
                node.id,
                #[trigger] variants(node.output_type)[n],
            ),
    decreases variants(node.output_type).len() - j,
{
    if j < variants(node.output_type).len() {
        lemma_none_dead(graph, node, j + 1);
        lemma_carried(graph, node.id, variants(node.output_type)[j], 0);
    }
}

proof fn lemma_no_dead_branch(graph: Graph, i: int)
    requires
        0 <= i,
    ensures
        dead_branch(graph, i) is Ok <==> forall|n: int|
            i <= n < graph.nodes.len() ==> branches_live(graph, #[trigger] graph.nodes[n]),
    decreases graph.nodes.len() - i,
{
    if i < graph.nodes.len() {
        lemma_no_dead_branch(graph, i + 1);
        lemma_none_dead(graph, graph.nodes[i], 0);
    }
}

proof fn lemma_some_accepted(target: Shape, offered: Seq<Shape>, j: int)
    requires
        0 <= j,
    ensures
        some_accepted(target, offered, j) <==> exists|n: int|
            j <= n < offered.len() && accepts(target, #[trigger] offered[n]),
    decreases offered.len() - j,
{
    if j < offered.len() {
        lemma_some_accepted(target, offered, j + 1);
    }
}

pub(crate) proof fn lemma_edge_fault(graph: Graph, edge: Edge)
    ensures
        edge_fault(graph, edge) is Ok <==> edge_fits(graph, edge),
{
    match (node_of(graph, edge.from), node_of(graph, edge.to)) {
        (Some(from), Some(to)) => {
            lemma_some_accepted(to.input_type, variants(from.output_type), 0);
        },
        _ => {},
    }
}

proof fn lemma_no_edge_fault(graph: Graph, k: int)
    requires
        0 <= k,
    ensures
        edge_faults(graph, k) is Ok <==> forall|n: int|
            k <= n < graph.edges.len() ==> edge_fits(graph, #[trigger] graph.edges[n]),
    decreases graph.edges.len() - k,
{
    if k < graph.edges.len() {
        lemma_no_edge_fault(graph, k + 1);
        lemma_edge_fault(graph, graph.edges[k]);
    }
}

/// Exactly the sound graphs pass validation.
pub proof fn lemma_validation_sound(graph: Graph)
    ensures
        validation(graph) is Ok <==> sound(graph),
{
    if graph.nodes.len() > 0 {
        lemma_all_reached(graph, true, graph.nodes[0].id, 0);
    }
    lemma_all_reached(graph, false, graph.terminal, 0);
    lemma_no_dead_branch(graph, 0);
    lemma_no_edge_fault(graph, 0);
}

// ---------------------------------------------------------------------------
// The terminal
// ---------------------------------------------------------------------------

/// A graph whose terminal was found or appended has that terminal among its nodes.
pub proof fn lemma_terminal_exists(nodes: Seq<Node>, edges: Seq<Edge>, outputs: Seq<Outlet>)
    ensures
        terminated(nodes, edges, outputs) matches Ok(graph) ==> has_node(
            graph.nodes,
            graph.terminal,
        ),
{
    lemma_sinks_exist(nodes, nodes.len() as int);
    let found = sinks(nodes, nodes.len() as int);
    if found.len() == 1 {
        assert(has_node(nodes, found[0]));
    }
    if let Ok(graph) = with_sink(nodes, edges, outputs) {
        assert(graph.nodes.last().id == graph.terminal);
        assert(graph.nodes[graph.nodes.len() - 1].id == graph.terminal);
    }
}

proof fn lemma_sinks_exist(nodes: Seq<Node>, n: int)
    requires
        n <= nodes.len(),
    ensures
        forall|i: int|
            0 <= i < sinks(nodes, n).len() ==> has_node(nodes, #[trigger] sinks(nodes, n)[i]),
    decreases n,
{
    if n > 0 {
        lemma_sinks_exist(nodes, n - 1);
        assert(has_node(nodes, nodes[n - 1].id));
        let earlier = sinks(nodes, n - 1);
        assert forall|i: int| 0 <= i < sinks(nodes, n).len() implies has_node(
            nodes,
            #[trigger] sinks(nodes, n)[i],
        ) by {
            if i < earlier.len() {
                assert(sinks(nodes, n)[i] == earlier[i]);
            }
        }
    }
}

// ---------------------------------------------------------------------------
// Edges and routes
// ---------------------------------------------------------------------------

proof fn lemma_first_accepted(target: Shape, offered: Seq<Shape>, j: int)
    requires
        0 <= j,
    ensures
        first_accepted(target, offered, j) is Some <==> some_accepted(target, offered, j),
    decreases offered.len() - j,
{
    if j < offered.len() {
        lemma_first_accepted(target, offered, j + 1);
    }
}

/// An edge carries a type exactly where its ends fit.
pub proof fn lemma_fitting_edge_carries(from: Node, to: Node)
    ensures
        route_type(from, to) is Some <==> ends_fit(from, to),
{
    lemma_first_accepted(to.input_type, variants(from.output_type), 0);
    lemma_some_accepted(to.input_type, variants(from.output_type), 0);
}

/// An edge carries the first alternative of what its source puts out that its target accepts.
pub proof fn lemma_edge_carries_first(from: Node, to: Node)
    ensures
        match route_type(from, to) {
            Some(ty) => exists|j: int|
                {
                    &&& 0 <= j < variants(from.output_type).len()
                    &&& #[trigger] variants(from.output_type)[j] == ty
                    &&& accepts(to.input_type, ty)
                    &&& forall|k: int|
                        0 <= k < j ==> !accepts(
                            to.input_type,
                            #[trigger] variants(from.output_type)[k],
                        )
                },
            None => forall|k: int|
                0 <= k < variants(from.output_type).len() ==> !accepts(
                    to.input_type,
                    #[trigger] variants(from.output_type)[k],
                ),
        },
{
    lemma_first_accepted_at(to.input_type, variants(from.output_type), 0);
}

proof fn lemma_first_accepted_at(target: Shape, offered: Seq<Shape>, i: int)
    requires
        0 <= i,
    ensures
        match first_accepted(target, offered, i) {
            Some(ty) => exists|j: int|
                {
                    &&& i <= j < offered.len()
                    &&& #[trigger] offered[j] == ty
                    &&& accepts(target, ty)
                    &&& forall|k: int| i <= k < j ==> !accepts(target, #[trigger] offered[k])
                },
            None => forall|k: int| i <= k < offered.len() ==> !accepts(target, #[trigger] offered[k]),
        },
    decreases offered.len() - i,
{
    if i < offered.len() {
        if accepts(target, offered[i]) {
            assert(offered[i] == offered[i]);
        } else {
            lemma_first_accepted_at(target, offered, i + 1);
        }
    }
}

proof fn lemma_index_named(nodes: Seq<Node>, id: Seq<char>, n: int)
    requires
        n <= nodes.len(),
    ensures
        match index_named(nodes, id, n) {
            Some(i) => 0 <= i < n && nodes[i].id == id && node_named(nodes, id, n) == Some(
                nodes[i],
            ),
            None => node_named(nodes, id, n) is None,
        },
    decreases n,
{
    if n > 0 {
        lemma_index_named(nodes, id, n - 1);
    }
}

/// The edge of a graph with an index starts at a node other than the terminal and takes a
/// type to a destination.
pub open spec fn edge_gives(graph: Graph, k: int, from: int, key: Seq<char>, to: Seq<char>) -> bool {
    let edge = graph.edges[k];
    let nodes = graph.nodes;
    !leaves_terminal(graph, edge) && index_named(nodes, edge.from, nodes.len() as int) == Some(
        from,
    ) && match index_named(
        nodes,
        edge.to,
        nodes.len() as int,
    ) {
        Some(target) => match route_type(nodes[from], nodes[target]) {
            Some(ty) => key == qualified(ty) && to == emitted_id(graph.terminal, edge.to),
            None => false,
        },
        None => false,
    }
}

/// A destination stands under a key.
pub open spec fn has_route(routes: Seq<Route>, key: Seq<char>, to: Seq<char>) -> bool {
    exists|i: int|
        0 <= i < routes.len() && (#[trigger] routes[i]).0 == key && routes[i].1.contains(to)
}

/// Each key stands once, with some destinations, each of them once.
pub open spec fn tidy(routes: Seq<Route>) -> bool {
    &&& routes_differ(routes)
    &&& forall|i: int|
        0 <= i < routes.len() ==> (#[trigger] routes[i]).1.len() > 0 && routes[i].1.no_duplicates()
}

proof fn lemma_routed(routes: Seq<Route>, key: Seq<char>, to: Seq<char>)
    requires
        tidy(routes),
    ensures
        tidy(routed(routes, key, to)),
        forall|k: Seq<char>, t: Seq<char>| #[trigger]
            has_route(routed(routes, key, to), k, t) <==> has_route(routes, k, t) || (k == key && t
                == to),
        forall|i: int|
            0 <= i < routed(routes, key, to).len() ==> (#[trigger] routed(routes, key, to)[i]).0
                == key || exists|j: int|
                0 <= j < routes.len() && (#[trigger] routes[j]).0 == routed(routes, key, to)[i].0,
    decreases routes.len(),
{
    let result = routed(routes, key, to);
    if routes.len() == 0 {
        assert(result[0].1[0] == to);
        assert forall|k: Seq<char>, t: Seq<char>| #[trigger] has_route(result, k, t) <==> has_route(
            routes,
            k,
            t,
        ) || (k == key && t == to) by {
            if k == key && t == to {
                assert(result[0].1.contains(t));
            }
        }
    } else if routes[0].0 == key {
        if routes[0].1.contains(to) {
            assert(has_route(routes, key, to));
            assert forall|i: int| 0 <= i < result.len() implies (#[trigger] result[i]).0 == key
                || exists|j: int|
                0 <= j < routes.len() && (#[trigger] routes[j]).0 == result[i].0 by {
                assert(routes[i].0 == result[i].0);
            }
        } else {
            let longer = routes[0].1.push(to);
            let rest = routes.drop_first();
            assert(result =~= seq![(key, longer)] + rest);
            assert(longer.no_duplicates());
            assert forall|i: int| 0 < i < result.len() implies result[i] == routes[i] by {}
            assert forall|i: int, j: int| 0 <= i < j < result.len() implies (
            #[trigger] result[i]).0 != (#[trigger] result[j]).0 by {
                assert(routes[i].0 != routes[j].0);
            }
            assert forall|k: Seq<char>, t: Seq<char>| #[trigger]
                has_route(result, k, t) <==> has_route(routes, k, t) || (k == key && t == to) by {
                if has_route(result, k, t) {
                    let i = choose|i: int|
                        0 <= i < result.len() && (#[trigger] result[i]).0 == k
                            && result[i].1.contains(t);
                    if i > 0 {
                        assert(routes[i].0 == k && routes[i].1.contains(t));
                    } else if t != to {
                        let n = choose|n: int| 0 <= n < longer.len() && longer[n] == t;
                        assert(routes[0].1[n] == t);
                        assert(routes[0].0 == k && routes[0].1.contains(t));
                    }
                }
                if has_route(routes, k, t) {
                    let i = choose|i: int|
                        0 <= i < routes.len() && (#[trigger] routes[i]).0 == k
                            && routes[i].1.contains(t);
                    if i > 0 {
                        assert(result[i].0 == k && result[i].1.contains(t));
                    } else {
                        let n = choose|n: int| 0 <= n < routes[0].1.len() && routes[0].1[n] == t;
                        assert(longer[n] == t);
                        assert(result[0].0 == k && result[0].1.contains(t));
                    }
                }
                if k == key && t == to {
                    assert(longer[longer.len() - 1] == to);
                    assert(result[0].0 == k && result[0].1.contains(t));
                }
            }
            assert forall|i: int| 0 <= i < result.len() implies (#[trigger] result[i]).0 == key
                || exists|j: int|
                0 <= j < routes.len() && (#[trigger] routes[j]).0 == result[i].0 by {
                assert(routes[i].0 == result[i].0);
            }
        }
    } else {
        let rest = routes.drop_first();
        assert forall|i: int, j: int| 0 <= i < j < rest.len() implies (#[trigger] rest[i]).0 != (
        #[trigger] rest[j]).0 by {
            assert(routes[i + 1].0 != routes[j + 1].0);
        }
        assert forall|i: int| 0 <= i < rest.len() implies (#[trigger] rest[i]).1.len() > 0
            && rest[i].1.no_duplicates() by {
            assert(routes[i + 1].1.len() > 0);
        }
        lemma_routed(rest, key, to);
        let after = routed(rest, key, to);
        assert(result =~= seq![routes[0]] + after);
        assert forall|i: int| 0 <= i < after.len() implies result[i + 1] == after[i] by {}
        assert forall|i: int, j: int| 0 <= i < j < result.len() implies (#[trigger] result[i]).0
            != (#[trigger] result[j]).0 by {
            assert(result[j] == after[j - 1]);
            if i > 0 {
                assert(result[i] == after[i - 1]);
            } else if after[j - 1].0 != key {
                let n = choose|n: int|
                    0 <= n < rest.len() && (#[trigger] rest[n]).0 == after[j - 1].0;
                assert(routes[0].0 != routes[n + 1].0);
            }
        }
        assert forall|i: int| 0 <= i < result.len() implies (#[trigger] result[i]).1.len() > 0
            && result[i].1.no_duplicates() by {
            if i > 0 {
                assert(result[i] == after[i - 1]);
            }
        }
        assert forall|k: Seq<char>, t: Seq<char>| #[trigger] has_route(result, k, t) <==> has_route(
            routes,
            k,
            t,
        ) || (k == key && t == to) by {
            assert(has_route(after, k, t) <==> has_route(rest, k, t) || (k == key && t == to));
            if has_route(result, k, t) {
                let i = choose|i: int|
                    0 <= i < result.len() && (#[trigger] result[i]).0 == k && result[i].1.contains(
                        t,
                    );
                if i > 0 {
                    assert(after[i - 1].0 == k && after[i - 1].1.contains(t));
                    if has_route(rest, k, t) {
                        let n = choose|n: int|
                            0 <= n < rest.len() && (#[trigger] rest[n]).0 == k
                                && rest[n].1.contains(t);
                        assert(routes[n + 1].0 == k && routes[n + 1].1.contains(t));
                    }
                } else {
                    assert(routes[0].0 == k && routes[0].1.contains(t));
                }
            }
            if has_route(routes, k, t) {
                let i = choose|i: int|
                    0 <= i < routes.len() && (#[trigger] routes[i]).0 == k && routes[i].1.contains(
                        t,
                    );
                if i > 0 {
                    assert(rest[i - 1].0 == k && rest[i - 1].1.contains(t));
                } else {
                    assert(result[0].0 == k && result[0].1.contains(t));
                }
            }
            if has_route(after, k, t) {
                let n = choose|n: int|
                    0 <= n < after.len() && (#[trigger] after[n]).0 == k && after[n].1.contains(t);
                assert(result[n + 1].0 == k && result[n + 1].1.contains(t));
            }
        }
        assert forall|i: int| 0 <= i < result.len() implies (#[trigger] result[i]).0 == key
            || exists|j: int| 0 <= j < routes.len() && (#[trigger] routes[j]).0 == result[i].0 by {
            if i == 0 {
                assert(routes[0].0 == result[0].0);
            } else {
                assert(result[i] == after[i - 1]);
                if after[i - 1].0 != key {
                    let n = choose|n: int|
                        0 <= n < rest.len() && (#[trigger] rest[n]).0 == after[i - 1].0;
                    assert(routes[n + 1].0 == result[i].0);
                }
            }
        }
    }
}

/// The actors of a graph bear the ids under which its nodes are emitted.
pub open spec fn actors_of(graph: Graph, actors: Seq<Actor>) -> bool {
    &&& actors.len() == graph.nodes.len()
    &&& forall|i: int|
        0 <= i < actors.len() ==> {
            &&& (#[trigger] actors[i]).id == emitted_id(graph.terminal, graph.nodes[i].id)
            &&& actors[i].factory == graph.nodes[i].node_type
            &&& params_of(graph.nodes[i]) == Ok::<Data, Failure>(actors[i].params)
            &&& tidy(actors[i].routes)
        }
}

proof fn lemma_bare_actors(graph: Graph, i: int)
    requires
        0 <= i <= graph.nodes.len(),
    ensures
        bare_actors(graph, i) matches Ok(actors) ==> {
            &&& actors.len() == graph.nodes.len() - i
            &&& forall|n: int|
                0 <= n < actors.len() ==> {
                    &&& (#[trigger] actors[n]).id == emitted_id(
                        graph.terminal,
                        graph.nodes[i + n].id,
                    )
                    &&& actors[n].factory == graph.nodes[i + n].node_type
                    &&& params_of(graph.nodes[i + n]) == Ok::<Data, Failure>(actors[n].params)
                    &&& actors[n].routes == Seq::<Route>::empty()
                }
        },
    decreases graph.nodes.len() - i,
{
    if i < graph.nodes.len() {
        lemma_bare_actors(graph, i + 1);
        if let Ok(actors) = bare_actors(graph, i) {
            let rest = bare_actors(graph, i + 1)->Ok_0;
            assert forall|n: int| 0 < n < actors.len() implies actors[n] == rest[n - 1] by {}
            assert forall|n: int| 0 <= n < actors.len() implies {
                &&& (#[trigger] actors[n]).id == emitted_id(graph.terminal, graph.nodes[i + n].id)
                &&& actors[n].factory == graph.nodes[i + n].node_type
                &&& params_of(graph.nodes[i + n]) == Ok::<Data, Failure>(actors[n].params)
                &&& actors[n].routes == Seq::<Route>::empty()
            } by {
                if n > 0 {
                    assert(actors[n] == rest[n - 1]);
                    assert(i + 1 + (n - 1) == i + n);
                }
            }
        }
    }
}

/// An edge from index `k` on starts at a node and takes a type to a destination.
pub open spec fn some_edge_gives(
    graph: Graph,
    k: int,
    from: int,
    key: Seq<char>,
    to: Seq<char>,
) -> bool {
    exists|n: int| k <= n < graph.edges.len() && #[trigger] edge_gives(graph, n, from, key, to)
}

proof fn lemma_edges_routed(graph: Graph, actors: Seq<Actor>, k: int)
    requires
        0 <= k,
        actors_of(graph, actors),
    ensures
        edges_routed(graph, actors, k) matches Ok(result) ==> {
            &&& actors_of(graph, result)
            &&& forall|i: int, key: Seq<char>, to: Seq<char>|
                0 <= i < result.len() ==> (#[trigger] has_route(result[i].routes, key, to)
                    <==> has_route(actors[i].routes, key, to) || some_edge_gives(
                    graph,
                    k,
                    i,
                    key,
                    to,
                ))
        },
    decreases graph.edges.len() - k,
{
    if k < graph.edges.len() {
        let edge = graph.edges[k];
        let nodes = graph.nodes;
        lemma_index_named(nodes, edge.from, nodes.len() as int);
        lemma_index_named(nodes, edge.to, nodes.len() as int);
        if let Ok(next) = edge_routed(graph, actors, edge) {
            let from = index_named(nodes, edge.from, nodes.len() as int)->Some_0;
            let target = index_named(nodes, edge.to, nodes.len() as int)->Some_0;
            let ty = route_type(nodes[from], nodes[target])->Some_0;
            let key = qualified(ty);
            let to = emitted_id(graph.terminal, edge.to);
            assert(tidy(actors[from].routes));
            lemma_routed(actors[from].routes, key, to);
            assert forall|i: int| 0 <= i < next.len() implies {
                &&& (#[trigger] next[i]).id == emitted_id(graph.terminal, graph.nodes[i].id)
                &&& next[i].factory == graph.nodes[i].node_type
                &&& params_of(graph.nodes[i]) == Ok::<Data, Failure>(next[i].params)
                &&& tidy(next[i].routes)
            } by {
                assert(actors[i].id == emitted_id(graph.terminal, graph.nodes[i].id));
            }
            lemma_edges_routed(graph, next, k + 1);
            if let Ok(result) = edges_routed(graph, next, k + 1) {
                assert forall|i: int, name: Seq<char>, dest: Seq<char>|
                    0 <= i < result.len() implies (#[trigger] has_route(
                    result[i].routes,
                    name,
                    dest,
                ) <==> has_route(actors[i].routes, name, dest) || some_edge_gives(
                    graph,
                    k,
                    i,
                    name,
                    dest,
                )) by {
                    let later = some_edge_gives(graph, k + 1, i, name, dest);
                    let now = edge_gives(graph, k, i, name, dest);
                    assert(some_edge_gives(graph, k, i, name, dest) <==> now || later) by {
                        if some_edge_gives(graph, k, i, name, dest) {
                            let n = choose|n: int|
                                k <= n < graph.edges.len() && #[trigger] edge_gives(
                                    graph,
                                    n,
                                    i,
                                    name,
                                    dest,
                                );
                            assert(n == k || k + 1 <= n);
                        }
                    }
                    assert(has_route(result[i].routes, name, dest) <==> has_route(
                        next[i].routes,
                        name,
                        dest,
                    ) || later);
                    if i == from && !leaves_terminal(graph, edge) {
                        assert(has_route(next[i].routes, name, dest) <==> has_route(
                            actors[i].routes,
                            name,
                            dest,
                        ) || (name == key && dest == to));
                    }
                }
            }
        }
    }
}

/// A lowered graph has one actor for each of its nodes, in the same order. An actor has a
/// destination under a key exactly where some edge starts at its node, which is not the
/// terminal, and carries that type there, and no key and no destination stands twice.
pub proof fn lemma_lowered_routes(graph: Graph)
    ensures
        lowered(graph) matches Ok(modification) ==> {
            &&& actors_of(graph, modification.actors)
            &&& forall|i: int, key: Seq<char>, to: Seq<char>|
                0 <= i < graph.nodes.len() ==> (#[trigger] has_route(
                    modification.actors[i].routes,
                    key,
                    to,
                ) <==> some_edge_gives(graph, 0, i, key, to))
        },
{
    lemma_bare_actors(graph, 0);
    if let Ok(bare) = bare_actors(graph, 0) {
        assert forall|i: int| 0 <= i < bare.len() implies {
            &&& (#[trigger] bare[i]).id == emitted_id(graph.terminal, graph.nodes[i].id)
            &&& bare[i].factory == graph.nodes[i].node_type
            &&& params_of(graph.nodes[i]) == Ok::<Data, Failure>(bare[i].params)
            &&& tidy(bare[i].routes)
        } by {
            assert(bare[i].id == emitted_id(graph.terminal, graph.nodes[0 + i].id));
        }
        lemma_edges_routed(graph, bare, 0);
    }
}

proof fn lemma_members_written(entries: Seq<(Seq<char>, Datum)>, i: int)
    requires
        0 <= i <= entries.len(),
    ensures
        match datum_members_json(entries, i) {
            Ok(members) => members.len() == entries.len() - i && forall|k: int|
                0 <= k < members.len() ==> {
                    &&& (#[trigger] members[k]).0 == entries[i + k].0
                    &&& datum_json(entries[i + k].1) == Ok::<Data, Failure>(members[k].1)
                },
            Err(_) => exists|k: int|
                i <= k < entries.len() && datum_json((#[trigger] entries[k]).1) is Err,
        },
    decreases entries.len() - i,
{
    if i < entries.len() {
        lemma_members_written(entries, i + 1);
        if let Ok(first) = datum_json(entries[i].1) {
            if let Ok(rest) = datum_members_json(entries, i + 1) {
                let members = seq![(entries[i].0, first)] + rest;
                assert forall|k: int| 0 <= k < members.len() implies {
                    &&& (#[trigger] members[k]).0 == entries[i + k].0
                    &&& datum_json(entries[i + k].1) == Ok::<Data, Failure>(members[k].1)
                } by {
                    if k > 0 {
                        assert(members[k] == rest[k - 1]);
                        assert(entries[i + 1 + (k - 1)] == entries[i + k]);
                    }
                }
            }
        }
    }
}

proof fn lemma_items_written(items: Seq<Datum>, i: int)
    requires
        0 <= i <= items.len(),
    ensures
        match datum_items_json(items, i) {
            Ok(list) => list.len() == items.len() - i && forall|k: int|
                0 <= k < list.len() ==> datum_json(items[i + k]) == Ok::<Data, Failure>(
                    #[trigger] list[k],
                ),
            Err(_) => exists|k: int|
                i <= k < items.len() && datum_json(#[trigger] items[k]) is Err,
        },
    decreases items.len() - i,
{
    if i < items.len() {
        lemma_items_written(items, i + 1);
        if let Ok(first) = datum_json(items[i]) {
            if let Ok(rest) = datum_items_json(items, i + 1) {
                let list = seq![first] + rest;
                assert forall|k: int| 0 <= k < list.len() implies datum_json(items[i + k]) == Ok::<
                    Data,
                    Failure,
                >(#[trigger] list[k]) by {
                    if k > 0 {
                        assert(list[k] == rest[k - 1]);
                        assert(items[i + 1 + (k - 1)] == items[i + k]);
                    }
                }
            }
        }
    }
}

/// A document says what an authoring value says: plain values stand for themselves, lists
/// hold what stands for their items, and maps what stands for their entries under the same
/// names, all in their order.
pub open spec fn says(data: Data, datum: Datum) -> bool
    decreases datum,
{
    match datum {
        Datum::Str(text) => data == Data::Str(text),
        Datum::Int(number) => data == Data::Int(number),
        Datum::Float(number) => data == Data::Float(number),
        Datum::Bool(flag) => data == Data::Bool(flag),
        Datum::Nil => data == Data::Null,
        Datum::Keyword(name) => data == Data::Str(seq![':'] + name),
        Datum::Symbol(name) => data == Data::Str(name),
        Datum::List(items) | Datum::Vector(items) => data matches Data::Array(list) && list.len()
            == items.len() && forall|k: int|
            0 <= k < items.len() ==> says(list[k], #[trigger] items[k]),
        Datum::MapOf(entries) => data matches Data::Object(members) && members.len()
            == entries.len() && forall|k: int|
            0 <= k < entries.len() ==> members[k].0 == (#[trigger] entries[k]).0 && says(
                members[k].1,
                entries[k].1,
            ),
        _ => false,
    }
}

/// What an authoring value is written as says what the value says.
pub proof fn lemma_datum_said(datum: Datum)
    ensures
        datum_json(datum) matches Ok(data) ==> says(data, datum),
    decreases datum,
{
    match datum {
        Datum::Keyword(_) => {
            reveal_strlit(":");
            assert(":"@ =~= seq![':']);
        },
        Datum::List(items) | Datum::Vector(items) => {
            lemma_items_written(items, 0);
            if let Ok(list) = datum_items_json(items, 0) {
                assert forall|k: int| 0 <= k < items.len() implies says(
                    list[k],
                    #[trigger] items[k],
                ) by {
                    assert(datum_json(items[0 + k]) == Ok::<Data, Failure>(list[k]));
                    lemma_datum_said(items[k]);
                }
            }
        },
        Datum::MapOf(entries) => {
            lemma_members_written(entries, 0);
            if let Ok(members) = datum_members_json(entries, 0) {
                assert forall|k: int| 0 <= k < entries.len() implies members[k].0 == (
                #[trigger] entries[k]).0 && says(members[k].1, entries[k].1) by {
                    assert(members[k].0 == entries[0 + k].0);
                    lemma_datum_said(entries[k].1);
                }
            }
        },
        _ => {},
    }
}

/// Each actor has the factory of its node, and as parameters an object with exactly the
/// arguments of the node, in their order.
pub proof fn lemma_actors_keep_arguments(graph: Graph, i: int)
    requires
        0 <= i < graph.nodes.len(),
    ensures
        lowered(graph) matches Ok(modification) ==> {
            &&& modification.actors.len() == graph.nodes.len()
            &&& modification.actors[i].factory == graph.nodes[i].node_type
            &&& graph.nodes[i].id != graph.terminal ==> modification.actors[i].id
                == graph.nodes[i].id
            &&& modification.actors[i].params matches Data::Object(members) && members.len()
                == graph.nodes[i].args.len() && forall|k: int|
                0 <= k < members.len() ==> {
                    &&& (#[trigger] members[k]).0 == graph.nodes[i].args[k].0
                    &&& datum_json(graph.nodes[i].args[k].1) == Ok::<Data, Failure>(members[k].1)
                    &&& says(members[k].1, graph.nodes[i].args[k].1)
                }
        },
{
    lemma_lowered_routes(graph);
    if let Ok(modification) = lowered(graph) {
        let args = graph.nodes[i].args;
        let actor = modification.actors[i];
        assert(params_of(graph.nodes[i]) == Ok::<Data, Failure>(actor.params));
        lemma_members_written(args, 0);
        let members = datum_members_json(args, 0)->Ok_0;
        assert forall|k: int| 0 <= k < members.len() implies {
            &&& (#[trigger] members[k]).0 == args[k].0
            &&& datum_json(args[k].1) == Ok::<Data, Failure>(members[k].1)
            &&& says(members[k].1, args[k].1)
        } by {
            assert(args[0 + k] == args[k]);
            lemma_datum_said(args[k].1);
        }
    }
}

/// The terminal becomes the sink, and the sink has no routes.
pub proof fn lemma_sink_emits_nothing(graph: Graph)
    ensures
        lowered(graph) matches Ok(modification) ==> forall|i: int|
            0 <= i < graph.nodes.len() && graph.terminal.len() > 0 && (#[trigger] graph.nodes[i]).id
                == graph.terminal ==> modification.actors[i].id == sink_id()
                && modification.actors[i].routes == Seq::<Route>::empty(),
{
    lemma_lowered_routes(graph);
    if let Ok(modification) = lowered(graph) {
        assert forall|i: int|
            0 <= i < graph.nodes.len() && graph.terminal.len() > 0 && (#[trigger] graph.nodes[i]).id
                == graph.terminal implies modification.actors[i].id == sink_id()
            && modification.actors[i].routes == Seq::<Route>::empty() by {
            let actor = modification.actors[i];
            assert(actor.id == sink_id());
            let routes = actor.routes;
            if routes.len() > 0 {
                assert(routes[0].1.len() > 0);
                assert(routes[0].1.contains(routes[0].1[0]));
                assert(has_route(routes, routes[0].0, routes[0].1[0]));
                assert(some_edge_gives(graph, 0, i, routes[0].0, routes[0].1[0]));
                let k = choose|k: int|
                    0 <= k < graph.edges.len() && #[trigger] edge_gives(
                        graph,
                        k,
                        i,
                        routes[0].0,
                        routes[0].1[0],
                    );
                lemma_index_named(graph.nodes, graph.edges[k].from, graph.nodes.len() as int);
            }
            assert(routes =~= Seq::empty());
        }
    }
}

proof fn lemma_edges_lower(graph: Graph, actors: Seq<Actor>, k: int)
    requires
        0 <= k,
        forall|n: int| k <= n < graph.edges.len() ==> edge_fits(graph, #[trigger] graph.edges[n]),
    ensures
        edges_routed(graph, actors, k) is Ok,
    decreases graph.edges.len() - k,
{
    if k < graph.edges.len() {
        let edge = graph.edges[k];
        let nodes = graph.nodes;
        lemma_index_named(nodes, edge.from, nodes.len() as int);
        lemma_index_named(nodes, edge.to, nodes.len() as int);
        assert(edge_fits(graph, edge));
        let from = node_of(graph, edge.from)->Some_0;
        let to = node_of(graph, edge.to)->Some_0;
        lemma_fitting_edge_carries(from, to);
        lemma_edges_lower(graph, edge_routed(graph, actors, edge)->Ok_0, k + 1);
    }
}

/// A graph that passes validation is lowered unless the arguments of some node cannot be
/// written as a document.
pub proof fn lemma_valid_graph_lowers(graph: Graph)
    requires
        validation(graph) is Ok,
    ensures
        lowered(graph) is Ok <==> bare_actors(graph, 0) is Ok,
{
    lemma_validation_sound(graph);
    if let Ok(bare) = bare_actors(graph, 0) {
        lemma_edges_lower(graph, bare, 0);
    }
}

/// The actors that are first sent something are exactly those of the nodes that no edge
/// leads to.
pub proof fn lemma_sources_are_activated(graph: Graph, to: Seq<char>, n: int)
    requires
        0 <= n <= graph.nodes.len(),
    ensures
        activations(graph, n).contains(Message { to, content: activation() }) <==> exists|i: int|
            0 <= i < n && !has_inbound(graph, (#[trigger] graph.nodes[i]).id) && emitted_id(
                graph.terminal,
                graph.nodes[i].id,
            ) == to,
    decreases n,
{
    if n > 0 {
        lemma_sources_are_activated(graph, to, n - 1);
        let node = graph.nodes[n - 1];
        let message = Message { to, content: activation() };
        let earlier = activations(graph, n - 1);
        let all = activations(graph, n);
        if !has_inbound(graph, node.id) {
            let added = Message { to: emitted_id(graph.terminal, node.id), content: activation() };
            assert(all == earlier.push(added));
            assert(all.contains(message) <==> earlier.contains(message) || message == added) by {
                if earlier.contains(message) {
                    let i = choose|i: int| 0 <= i < earlier.len() && earlier[i] == message;
                    assert(all[i] == message);
                }
                if message == added {
                    assert(all[all.len() - 1] == message);
                }
            }
        }
    }
}

proof fn lemma_activation_targets(graph: Graph, n: int, k: int)
    requires
        0 <= n <= graph.nodes.len(),
        0 <= k < activations(graph, n).len(),
    ensures
        exists|i: int|
            0 <= i < n && activations(graph, n)[k].to == emitted_id(
                graph.terminal,
                (#[trigger] graph.nodes[i]).id,
            ),
    decreases n,
{
    if n > 0 {
        let earlier = activations(graph, n - 1);
        if k < earlier.len() {
            lemma_activation_targets(graph, n - 1, k);
            assert(activations(graph, n)[k] == earlier[k]);
            let i = choose|i: int|
                0 <= i < n - 1 && earlier[k].to == emitted_id(
                    graph.terminal,
                    (#[trigger] graph.nodes[i]).id,
                );
            assert(activations(graph, n)[k].to == emitted_id(graph.terminal, graph.nodes[i].id));
        } else {
            assert(activations(graph, n)[k].to == emitted_id(
                graph.terminal,
                graph.nodes[n - 1].id,
            ));
        }
    }
}

/// What a graph is lowered to can be loaded exactly where no two of its actors have one
/// id: its messages go to its own actors, and it has no rules.
pub proof fn lemma_lowered_loads(world: World, graph: Graph)
    ensures
        lowered(graph) matches Ok(modification) ==> (modification_valid(world, modification) is Ok
            <==> ids_differ(modification.actors)),
{
    lemma_lowered_routes(graph);
    if let Ok(modification) = lowered(graph) {
        lemma_modification_valid(world, modification);
        let actors = modification.actors;
        assert forall|n: int| 0 <= n < modification.messages.len() implies actor_known(
            actors,
            (#[trigger] modification.messages[n]).to,
            actors.len() as int,
        ) by {
            lemma_activation_targets(graph, graph.nodes.len() as int, n);
            let i = choose|i: int|
                0 <= i < graph.nodes.len() && modification.messages[n].to == emitted_id(
                    graph.terminal,
                    (#[trigger] graph.nodes[i]).id,
                );
            assert(actors[i].id == modification.messages[n].to);
        }
    }
}

/// A graph that passes validation is lowered to a modification with the sink among its
/// actors.
pub proof fn lemma_lowered_has_sink(graph: Graph)
    requires
        validation(graph) is Ok,
    ensures
        lowered(graph) matches Ok(modification) ==> actor_known(
            modification.actors,
            sink_id(),
            modification.actors.len() as int,
        ),
{
    lemma_lowered_routes(graph);
    if let Ok(modification) = lowered(graph) {
        let i = choose|i: int|
            0 <= i < graph.nodes.len() && (#[trigger] graph.nodes[i]).id == graph.terminal;
        assert(modification.actors[i].id == sink_id());
    }
}

// ---------------------------------------------------------------------------
// Graphs in another order
// ---------------------------------------------------------------------------

/// No two nodes have one id, and only the terminal may be called like the sink.
pub open spec fn nodes_differ(graph: Graph) -> bool {
    &&& forall|i: int, j: int|
        0 <= i < j < graph.nodes.len() ==> (#[trigger] graph.nodes[i]).id != (
        #[trigger] graph.nodes[j]).id
    &&& forall|i: int|
        0 <= i < graph.nodes.len() && (#[trigger] graph.nodes[i]).id == sink_id()
            ==> graph.nodes[i].id == graph.terminal
}

/// Two graphs that differ only in the order of their nodes and of their edges.
pub open spec fn same_graph(left: Graph, right: Graph) -> bool {
    &&& left.terminal == right.terminal
    &&& left.nodes.to_multiset() == right.nodes.to_multiset()
    &&& left.edges.to_multiset() == right.edges.to_multiset()
}

/// Lists without duplicates that hold the same items are reorderings of each other.
proof fn lemma_same_items<A>(left: Seq<A>, right: Seq<A>)
    requires
        left.no_duplicates(),
        right.no_duplicates(),
        forall|x: A| left.contains(x) <==> right.contains(x),
    ensures
        left.to_multiset() == right.to_multiset(),
{
    broadcast use {vstd::multiset::group_multiset_axioms, vstd::seq_lib::group_to_multiset_ensures};

    left.lemma_multiset_has_no_duplicates();
    right.lemma_multiset_has_no_duplicates();
    assert forall|x: A| left.to_multiset().count(x) == right.to_multiset().count(x) by {
        assert(left.contains(x) <==> right.contains(x));
        if left.to_multiset().count(x) > 0 {
            assert(left.to_multiset().contains(x) && right.to_multiset().contains(x));
        } else if right.to_multiset().count(x) > 0 {
            assert(right.to_multiset().contains(x));
        }
    }
    assert(left.to_multiset() =~= right.to_multiset());
}

proof fn lemma_held_by_both<A>(left: Seq<A>, right: Seq<A>)
    requires
        left.to_multiset() == right.to_multiset(),
    ensures
        forall|i: int| 0 <= i < left.len() ==> right.contains(#[trigger] left[i]),
        forall|i: int| 0 <= i < right.len() ==> left.contains(#[trigger] right[i]),
{
    broadcast use {vstd::multiset::group_multiset_axioms, vstd::seq_lib::group_to_multiset_ensures};

    assert forall|i: int| 0 <= i < left.len() implies right.contains(#[trigger] left[i]) by {
        assert(left.contains(left[i]));
        assert(right.to_multiset().count(left[i]) > 0);
    }
    assert forall|i: int| 0 <= i < right.len() implies left.contains(#[trigger] right[i]) by {
        assert(right.contains(right[i]));
        assert(left.to_multiset().count(right[i]) > 0);
    }
}

/// The nodes of a reordered graph differ as those of the graph do.
proof fn lemma_nodes_still_differ(left: Graph, right: Graph)
    requires
        same_graph(left, right),
        nodes_differ(left),
    ensures
        nodes_differ(right),
{
    broadcast use {vstd::multiset::group_multiset_axioms, vstd::seq_lib::group_to_multiset_ensures};

    lemma_held_by_both(left.nodes, right.nodes);
    assert(left.nodes.no_duplicates()) by {
        assert forall|i: int, j: int|
            0 <= i < left.nodes.len() && 0 <= j < left.nodes.len() && i != j implies left.nodes[i]
            != left.nodes[j] by {
            if i < j {
                assert(left.nodes[i].id != left.nodes[j].id);
            } else {
                assert(left.nodes[j].id != left.nodes[i].id);
            }
        }
    }
    left.nodes.lemma_multiset_has_no_duplicates();
    let nodes = right.nodes;
    assert forall|i: int, j: int| 0 <= i < j < nodes.len() implies (#[trigger] nodes[i]).id != (
    #[trigger] nodes[j]).id by {
        assert(left.nodes.contains(nodes[i]) && left.nodes.contains(nodes[j]));
        if nodes[i] == nodes[j] {
            let shorter = nodes.remove(i);
            assert(shorter[j - 1] == nodes[j]);
            assert(shorter.contains(nodes[i]));
            assert(shorter.to_multiset().count(nodes[i]) > 0);
            assert(nodes.contains(nodes[i]));
            assert(nodes.to_multiset().count(nodes[i]) >= 2);
            assert(left.nodes.to_multiset().contains(nodes[i]));
        } else {
            let p = choose|p: int| 0 <= p < left.nodes.len() && left.nodes[p] == nodes[i];
            let q = choose|q: int| 0 <= q < left.nodes.len() && left.nodes[q] == nodes[j];
            if p < q {
                assert(left.nodes[p].id != left.nodes[q].id);
            } else {
                assert(left.nodes[q].id != left.nodes[p].id);
            }
        }
    }
    assert forall|i: int|
        0 <= i < nodes.len() && (#[trigger] nodes[i]).id == sink_id() implies nodes[i].id
        == right.terminal by {
        assert(left.nodes.contains(nodes[i]));
    }
}

/// The last node that bears an id is the only one.
proof fn lemma_only_index(graph: Graph, i: int)
    requires
        nodes_differ(graph),
        0 <= i < graph.nodes.len(),
    ensures
        index_named(graph.nodes, graph.nodes[i].id, graph.nodes.len() as int) == Some(i),
{
    let id = graph.nodes[i].id;
    lemma_index_named(graph.nodes, id, graph.nodes.len() as int);
    lemma_index_found(graph.nodes, id, graph.nodes.len() as int, i);
    let at = index_named(graph.nodes, id, graph.nodes.len() as int)->Some_0;
    if at < i {
        assert(graph.nodes[at].id != graph.nodes[i].id);
    } else if i < at {
        assert(graph.nodes[i].id != graph.nodes[at].id);
    }
}

proof fn lemma_index_found(nodes: Seq<Node>, id: Seq<char>, n: int, i: int)
    requires
        0 <= i < n <= nodes.len(),
        nodes[i].id == id,
    ensures
        index_named(nodes, id, n) is Some,
    decreases n,
{
    if nodes[n - 1].id != id {
        lemma_index_found(nodes, id, n - 1, i);
    }
}

/// An edge gives the same in a reordered graph.
proof fn lemma_edge_gives_same(
    left: Graph,
    right: Graph,
    i: int,
    j: int,
    key: Seq<char>,
    to: Seq<char>,
)
    requires
        same_graph(left, right),
        nodes_differ(left),
        nodes_differ(right),
        0 <= i < left.nodes.len(),
        0 <= j < right.nodes.len(),
        left.nodes[i] == right.nodes[j],
        some_edge_gives(left, 0, i, key, to),
    ensures
        some_edge_gives(right, 0, j, key, to),
{
    lemma_held_by_both(left.nodes, right.nodes);
    lemma_held_by_both(left.edges, right.edges);
    let k = choose|k: int|
        0 <= k < left.edges.len() && #[trigger] edge_gives(left, k, i, key, to);
    let edge = left.edges[k];
    assert(right.edges.contains(edge));
    let n = choose|n: int| 0 <= n < right.edges.len() && right.edges[n] == edge;
    lemma_index_named(left.nodes, edge.from, left.nodes.len() as int);
    lemma_index_named(left.nodes, edge.to, left.nodes.len() as int);
    lemma_only_index(right, j);
    let target = index_named(left.nodes, edge.to, left.nodes.len() as int)->Some_0;
    assert(right.nodes.contains(left.nodes[target]));
    let there = choose|t: int|
        0 <= t < right.nodes.len() && right.nodes[t] == left.nodes[target];
    lemma_only_index(right, there);
    assert(edge_gives(right, n, j, key, to));
}

/// Tidy routes that give the same stand for each other.
proof fn lemma_routes_within(left: Seq<Route>, right: Seq<Route>)
    requires
        tidy(left),
        tidy(right),
        forall|key: Seq<char>, to: Seq<char>|
            has_route(left, key, to) <==> #[trigger] has_route(right, key, to),
    ensures
        routes_within(left, right),
{
    assert forall|i: int| 0 <= i < left.len() implies has_counterpart(
        #[trigger] left[i],
        right,
    ) by {
        let key = left[i].0;
        let first = left[i].1[0];
        assert(left[i].1.contains(first));
        assert(has_route(left, key, first));
        assert(has_route(right, key, first));
        let j = choose|j: int|
            0 <= j < right.len() && (#[trigger] right[j]).0 == key && right[j].1.contains(first);
        assert forall|to: Seq<char>| left[i].1.contains(to) <==> right[j].1.contains(to) by {
            assert(has_route(left, key, to) <==> has_route(right, key, to));
            if left[i].1.contains(to) {
                assert(has_route(left, key, to));
                let n = choose|n: int|
                    0 <= n < right.len() && (#[trigger] right[n]).0 == key
                        && right[n].1.contains(to);
                if n < j {
                    assert(right[n].0 != right[j].0);
                } else if j < n {
                    assert(right[j].0 != right[n].0);
                }
            }
            if right[j].1.contains(to) {
                assert(has_route(right, key, to));
                let n = choose|n: int|
                    0 <= n < left.len() && (#[trigger] left[n]).0 == key && left[n].1.contains(to);
                if n < i {
                    assert(left[n].0 != left[i].0);
                } else if i < n {
                    assert(left[i].0 != left[n].0);
                }
            }
        }
        lemma_same_items(left[i].1, right[j].1);
        assert(right[j].0 == left[i].0);
    }
}

proof fn lemma_actors_within(left: Graph, right: Graph)
    requires
        same_graph(left, right),
        nodes_differ(left),
        nodes_differ(right),
        lowered(left) is Ok,
        lowered(right) is Ok,
    ensures
        actors_within(lowered(left)->Ok_0.actors, lowered(right)->Ok_0.actors),
{
    lemma_lowered_routes(left);
    lemma_lowered_routes(right);
    lemma_held_by_both(left.nodes, right.nodes);
    let a = lowered(left)->Ok_0.actors;
    let b = lowered(right)->Ok_0.actors;
    assert forall|i: int| 0 <= i < a.len() implies exists|j: int|
        0 <= j < b.len() && same_actor(#[trigger] a[i], #[trigger] b[j]) by {
        assert(right.nodes.contains(left.nodes[i]));
        let j = choose|j: int| 0 <= j < right.nodes.len() && right.nodes[j] == left.nodes[i];
        assert(a[i].id == emitted_id(left.terminal, left.nodes[i].id));
        assert(b[j].id == emitted_id(right.terminal, right.nodes[j].id));
        assert forall|key: Seq<char>, to: Seq<char>|
            has_route(a[i].routes, key, to) <==> #[trigger] has_route(b[j].routes, key, to) by {
            assert(has_route(a[i].routes, key, to) <==> some_edge_gives(left, 0, i, key, to));
            if some_edge_gives(left, 0, i, key, to) {
                lemma_edge_gives_same(left, right, i, j, key, to);
            }
            if some_edge_gives(right, 0, j, key, to) {
                lemma_edge_gives_same(right, left, j, i, key, to);
            }
        }
        lemma_routes_within(a[i].routes, b[j].routes);
        assert forall|key: Seq<char>, to: Seq<char>|
            has_route(b[j].routes, key, to) <==> #[trigger] has_route(a[i].routes, key, to) by {
            assert(has_route(a[i].routes, key, to) <==> has_route(b[j].routes, key, to));
        }
        lemma_routes_within(b[j].routes, a[i].routes);
        assert(same_actor(a[i], b[j]));
    }
}

proof fn lemma_emitted_differ(graph: Graph, i: int, j: int)
    requires
        nodes_differ(graph),
        0 <= i < graph.nodes.len(),
        0 <= j < graph.nodes.len(),
        i != j,
    ensures
        emitted_id(graph.terminal, graph.nodes[i].id) != emitted_id(
            graph.terminal,
            graph.nodes[j].id,
        ),
{
    if i < j {
        assert(graph.nodes[i].id != graph.nodes[j].id);
    } else {
        assert(graph.nodes[j].id != graph.nodes[i].id);
    }
    if graph.nodes[i].id == sink_id() {
        assert(graph.nodes[i].id == graph.terminal);
    }
    if graph.nodes[j].id == sink_id() {
        assert(graph.nodes[j].id == graph.terminal);
    }
}

proof fn lemma_activations_differ(graph: Graph, n: int)
    requires
        nodes_differ(graph),
        0 <= n <= graph.nodes.len(),
    ensures
        activations(graph, n).no_duplicates(),
        forall|k: int|
            0 <= k < activations(graph, n).len() ==> (#[trigger] activations(graph, n)[k]).content
                == activation(),
    decreases n,
{
    if n > 0 {
        lemma_activations_differ(graph, n - 1);
        let earlier = activations(graph, n - 1);
        let node = graph.nodes[n - 1];
        if !has_inbound(graph, node.id) {
            let added = Message { to: emitted_id(graph.terminal, node.id), content: activation() };
            let all = earlier.push(added);
            assert forall|k: int| 0 <= k < earlier.len() implies #[trigger] earlier[k] != added by {
                lemma_activation_targets(graph, n - 1, k);
                let i = choose|i: int|
                    0 <= i < n - 1 && earlier[k].to == emitted_id(
                        graph.terminal,
                        (#[trigger] graph.nodes[i]).id,
                    );
                lemma_emitted_differ(graph, i, n - 1);
            }
            assert forall|p: int, q: int|
                0 <= p < all.len() && 0 <= q < all.len() && p != q implies all[p] != all[q] by {
                if p < earlier.len() && q < earlier.len() {
                    assert(earlier[p] != earlier[q]);
                } else if p < earlier.len() {
                    assert(earlier[p] != added);
                } else {
                    assert(earlier[q] != added);
                }
            }
        }
    }
}

proof fn lemma_inbound_same(left: Graph, right: Graph, id: Seq<char>)
    requires
        same_graph(left, right),
        has_inbound(left, id),
    ensures
        has_inbound(right, id),
{
    lemma_held_by_both(left.edges, right.edges);
    let k = choose|k: int| 0 <= k < left.edges.len() && (#[trigger] left.edges[k]).to == id;
    assert(right.edges.contains(left.edges[k]));
    let n = choose|n: int| 0 <= n < right.edges.len() && right.edges[n] == left.edges[k];
    assert(right.edges[n].to == id);
}

proof fn lemma_activation_kept(left: Graph, right: Graph, message: Message)
    requires
        same_graph(left, right),
        nodes_differ(left),
        activations(left, left.nodes.len() as int).contains(message),
    ensures
        activations(right, right.nodes.len() as int).contains(message),
{
    let n = left.nodes.len() as int;
    let m = right.nodes.len() as int;
    lemma_held_by_both(left.nodes, right.nodes);
    lemma_activations_differ(left, n);
    let list = activations(left, n);
    let k = choose|k: int| 0 <= k < list.len() && list[k] == message;
    assert(list[k].content == activation());
    lemma_sources_are_activated(left, message.to, n);
    lemma_sources_are_activated(right, message.to, m);
    assert(message == (Message { to: message.to, content: activation() }));
    let i = choose|i: int|
        0 <= i < n && !has_inbound(left, (#[trigger] left.nodes[i]).id) && emitted_id(
            left.terminal,
            left.nodes[i].id,
        ) == message.to;
    assert(right.nodes.contains(left.nodes[i]));
    let j = choose|j: int| 0 <= j < m && right.nodes[j] == left.nodes[i];
    if has_inbound(right, right.nodes[j].id) {
        lemma_inbound_same(right, left, right.nodes[j].id);
    }
    assert(!has_inbound(right, right.nodes[j].id));
}

proof fn lemma_activations_same(left: Graph, right: Graph)
    requires
        same_graph(left, right),
        nodes_differ(left),
        nodes_differ(right),
    ensures
        activations(left, left.nodes.len() as int).to_multiset() == activations(
            right,
            right.nodes.len() as int,
        ).to_multiset(),
{
    let a = activations(left, left.nodes.len() as int);
    let b = activations(right, right.nodes.len() as int);
    lemma_activations_differ(left, left.nodes.len() as int);
    lemma_activations_differ(right, right.nodes.len() as int);
    assert forall|message: Message| a.contains(message) <==> b.contains(message) by {
        if a.contains(message) {
            lemma_activation_kept(left, right, message);
        }
        if b.contains(message) {
            lemma_activation_kept(right, left, message);
        }
    }
    lemma_same_items(a, b);
}

proof fn lemma_actor_ids_differ(graph: Graph)
    requires
        nodes_differ(graph),
        lowered(graph) is Ok,
    ensures
        ids_differ(lowered(graph)->Ok_0.actors),
{
    lemma_lowered_routes(graph);
    let actors = lowered(graph)->Ok_0.actors;
    assert forall|i: int, j: int| 0 <= i < j < actors.len() implies (#[trigger] actors[i]).id != (
    #[trigger] actors[j]).id by {
        lemma_emitted_differ(graph, i, j);
    }
}

/// Reordering the nodes and the edges of a graph leaves the hash of what it is lowered to
/// as it is.
pub proof fn lemma_lowered_hash_ignores_order(left: Graph, right: Graph)
    requires
        same_graph(left, right),
        nodes_differ(left),
        lowered(left) is Ok,
        lowered(right) is Ok,
    ensures
        lowered(left)->Ok_0.hash == lowered(right)->Ok_0.hash,
{
    lemma_nodes_still_differ(left, right);
    lemma_actors_within(left, right);
    lemma_actors_within(right, left);
    lemma_actor_ids_differ(left);
    lemma_actor_ids_differ(right);
    lemma_activations_same(left, right);
    let a = lowered(left)->Ok_0;
    let b = lowered(right)->Ok_0;
    lemma_hash_ignores_order(
        a.actors,
        a.messages,
        a.kills,
        a.rules,
        b.actors,
        b.messages,
        b.kills,
        b.rules,
    );
}

} // verus!
