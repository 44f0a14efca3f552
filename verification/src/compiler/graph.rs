//! Directed graphs of `petgraph`, whose nodes are numbers: their strongly
//! connected components, and the topological order of those.

use vstd::prelude::*;

use petgraph::graph::{Graph, NodeIndex};
use petgraph::visit::EdgeRef;

verus! {

#[verifier::external_type_specification]
#[verifier::external_body]
#[verifier::reject_recursive_types(N)]
#[verifier::reject_recursive_types(E)]
#[verifier::reject_recursive_types(Ty)]
#[verifier::reject_recursive_types(Ix)]
pub struct ExGraph<N, E, Ty, Ix>(Graph<N, E, Ty, Ix>);

#[verifier::external_type_specification]
#[verifier::external_body]
pub struct ExDirected(petgraph::Directed);

/// The weights of the nodes of a graph, by node index
pub uninterp spec fn graph_nodes(graph: Graph<usize, ()>) -> Seq<usize>;

/// The edges of a graph, from node index to node index, in the order they
/// were added
pub uninterp spec fn graph_edges(graph: Graph<usize, ()>) -> Seq<(usize, usize)>;

/// The weights of the nodes of a condensed graph: the weights of the nodes
/// that each condensed node stands for
pub uninterp spec fn condensed_nodes(graph: Graph<Vec<usize>, ()>) -> Seq<Seq<usize>>;

/// The edges of a condensed graph
pub uninterp spec fn condensed_edges(graph: Graph<Vec<usize>, ()>) -> Seq<(usize, usize)>;

/// What `petgraph::algo::condensation` makes of a graph with the given nodes
/// and edges: the nodes and edges of the condensed graph
pub uninterp spec fn condensation_of(
    nodes: Seq<usize>,
    edges: Seq<(usize, usize)>,
    make_acyclic: bool,
) -> (Seq<Seq<usize>>, Seq<(usize, usize)>);

/// What `petgraph::algo::toposort` finds for a condensed graph with the given
/// nodes and edges: its node indices in topological order, or nothing, if
/// the graph has a cycle
pub uninterp spec fn toposort_of(nodes: Seq<Seq<usize>>, edges: Seq<(usize, usize)>) -> Option<Seq<usize>>;

/// Whether an order lists the nodes `0` to `count - 1`, each once, each
/// before the nodes that its edges lead to
pub open spec fn is_topological_order(order: Seq<usize>, count: nat, edges: Seq<(usize, usize)>) -> bool {
    &&& order.len() == count
    &&& forall|i: int| 0 <= i < order.len() ==> order[i] < count
    &&& forall|i: int, j: int| 0 <= i < j < order.len() ==> order[i] != order[j]
    &&& forall|c: int| 0 <= c < count ==> #[trigger] lists(order, c)
    &&& forall|e: int, i: int, j: int|
        #![trigger edges[e], order[i], order[j]]
        0 <= e < edges.len() && 0 <= i < order.len() && 0 <= j < order.len() && order[i]
            == edges[e].0 && order[j] == edges[e].1 ==> i < j
}

/// Whether an order lists a node
pub open spec fn lists(order: Seq<usize>, c: int) -> bool {
    exists|i: int| 0 <= i < order.len() && order[i] == c
}

/// Whether a graph with `count` nodes and the given edges has no cycle: its
/// nodes can be put in topological order
pub open spec fn acyclic(count: nat, edges: Seq<(usize, usize)>) -> bool {
    exists|order: Seq<usize>| is_topological_order(order, count, edges)
}

/// Whether some condensed node holds the weight
pub open spec fn holds_weight(nodes: Seq<Seq<usize>>, w: usize) -> bool {
    exists|c: int, k: int| 0 <= c < nodes.len() && 0 <= k < nodes[c].len() && nodes[c][k] == w
}

/// Whether an edge of the graph leads from a node of the first to a node of
/// the second of two condensed nodes
pub open spec fn edge_between(
    nodes: Seq<usize>,
    edges: Seq<(usize, usize)>,
    condensed: Seq<Seq<usize>>,
    condensed_edge: (usize, usize),
) -> bool {
    exists|e: int|
        0 <= e < edges.len() && condensed[condensed_edge.0 as int].contains(nodes[#[trigger] edges[e].0 as int])
            && condensed[condensed_edge.1 as int].contains(nodes[edges[e].1 as int])
}

/// Whether some edge leads from one node to another
pub open spec fn has_edge(edges: Seq<(usize, usize)>, from: usize, to: usize) -> bool {
    exists|f: int| 0 <= f < edges.len() && edges[f].0 == from && edges[f].1 == to
}

/// Whether a path leads from one node to another, along edges
pub open spec fn reaches(edges: Seq<(usize, usize)>, from: usize, to: usize) -> bool {
    exists|path: Seq<usize>|
        path.len() > 0 && path[0] == from && path.last() == to && forall|i: int|
            0 <= i < path.len() - 1 ==> #[trigger] has_edge(edges, path[i], path[i + 1])
}

/// Whether some condensed node holds both weights
pub open spec fn together(condensed: Seq<Seq<usize>>, a: usize, b: usize) -> bool {
    exists|c: int| 0 <= c < condensed.len() && condensed[c].contains(a) && condensed[c].contains(b)
}

/// Whether no two nodes have the same weight
pub open spec fn distinct_weights(nodes: Seq<usize>) -> bool {
    forall|x: int, y: int| 0 <= x < y < nodes.len() ==> nodes[x] != nodes[y]
}

/// A new, empty directed graph
///
/// Calls `Graph::new`. Trusted: the contract claims that the graph has no
/// nodes and no edges.
#[verifier::external_body]
pub(crate) fn graph_new() -> (result: Graph<usize, ()>)
    ensures
        graph_nodes(result) == Seq::<usize>::empty(),
        graph_edges(result) == Seq::<(usize, usize)>::empty(),
{
    Graph::new()
}

/// Add a node with the given weight, and return its index
///
/// Calls `Graph::add_node`. Trusted: the contract claims that the node is
/// appended, and that its index is the number of nodes before. The graph's
/// node indices are `u32`, and `add_node` panics once they are used up.
#[verifier::external_body]
pub(crate) fn graph_add_node(graph: &mut Graph<usize, ()>, weight: usize) -> (result: usize)
    requires
        graph_nodes(*old(graph)).len() < u32::MAX,
    ensures
        result == graph_nodes(*old(graph)).len(),
        graph_nodes(*final(graph)) == graph_nodes(*old(graph)).push(weight),
        graph_edges(*final(graph)) == graph_edges(*old(graph)),
{
    graph.add_node(weight).index()
}

/// Add an edge from node `a` to node `b`
///
/// Calls `Graph::add_edge`. Trusted: the contract claims that the edge is
/// appended, and the nodes stay. `add_edge` panics where a node does not
/// exist, or once edge indices, which are `u32`, are used up.
#[verifier::external_body]
pub(crate) fn graph_add_edge(graph: &mut Graph<usize, ()>, a: usize, b: usize)
    requires
        a < graph_nodes(*old(graph)).len(),
        b < graph_nodes(*old(graph)).len(),
        graph_edges(*old(graph)).len() < u32::MAX,
    ensures
        graph_nodes(*final(graph)) == graph_nodes(*old(graph)),
        graph_edges(*final(graph)) == graph_edges(*old(graph)).push((a, b)),
{
    graph.add_edge(NodeIndex::new(a), NodeIndex::new(b), ());
}

/// Condense each strongly connected component into a single node
///
/// Calls `petgraph::algo::condensation`. Trusted: the contract claims that
/// the condensed graph is a function of the nodes and edges of the graph,
/// named `condensation_of`; as the documentation promises, that where no two
/// nodes have the same weight, two nodes' weights share a condensed node
/// exactly where each node reaches the other; and, as the source shows:
/// - each node's weight goes into exactly one condensed node, and a
///   condensed node holds nothing else;
/// - the edges of the condensed graph are between its nodes;
/// - an edge between nodes of two distinct condensed nodes gives an edge
///   between those, and without `make_acyclic` so does one within a
///   condensed node;
/// - each edge of the condensed graph comes from an edge between nodes of
///   the condensed nodes it connects.
///
/// As the documentation promises, with `make_acyclic` the condensed graph
/// has no cycle, and so no edge from a node to itself.
#[verifier::external_body]
pub(crate) fn graph_condensation(graph: Graph<usize, ()>, make_acyclic: bool) -> (result: Graph<Vec<usize>, ()>)
    ensures
        (condensed_nodes(result), condensed_edges(result)) == condensation_of(
            graph_nodes(graph),
            graph_edges(graph),
            make_acyclic,
        ),
        forall|c: int, k: int|
            0 <= c < condensed_nodes(result).len() && 0 <= k < condensed_nodes(result)[c].len()
                ==> graph_nodes(graph).contains(#[trigger] condensed_nodes(result)[c][k]),
        forall|x: int|
            0 <= x < graph_nodes(graph).len() ==> holds_weight(
                condensed_nodes(result),
                #[trigger] graph_nodes(graph)[x],
            ),
        distinct_weights(graph_nodes(graph)) ==> forall|c1: int, k1: int, c2: int, k2: int|
            0 <= c1 < condensed_nodes(result).len() && 0 <= k1 < condensed_nodes(result)[c1].len()
                && 0 <= c2 < condensed_nodes(result).len() && 0 <= k2 < condensed_nodes(
                result,
            )[c2].len() && #[trigger] condensed_nodes(result)[c1][k1] == #[trigger] condensed_nodes(
                result,
            )[c2][k2] ==> c1 == c2 && k1 == k2,
        forall|e: int|
            0 <= e < condensed_edges(result).len() ==> (#[trigger] condensed_edges(result)[e]).0
                < condensed_nodes(result).len() && condensed_edges(result)[e].1 < condensed_nodes(
                result,
            ).len(),
        distinct_weights(graph_nodes(graph)) ==> forall|e: int, c1: int, k1: int, c2: int, k2: int|
            0 <= e < graph_edges(graph).len() && graph_edges(graph)[e].0 < graph_nodes(graph).len()
                && graph_edges(graph)[e].1 < graph_nodes(graph).len() && 0 <= c1
                < condensed_nodes(result).len() && 0 <= k1 < condensed_nodes(result)[c1].len() && 0
                <= c2 < condensed_nodes(result).len() && 0 <= k2 < condensed_nodes(result)[c2].len()
                && #[trigger] condensed_nodes(result)[c1][k1] == graph_nodes(
                graph,
            )[#[trigger] graph_edges(graph)[e].0 as int] && #[trigger] condensed_nodes(result)[c2][k2]
                == graph_nodes(graph)[graph_edges(graph)[e].1 as int] ==> c1 == c2
                || condensed_edges(result).contains((c1 as usize, c2 as usize)),
        !make_acyclic && distinct_weights(graph_nodes(graph)) ==> forall|e: int, c1: int, k1: int, c2: int, k2: int|
            0 <= e < graph_edges(graph).len() && graph_edges(graph)[e].0 < graph_nodes(graph).len()
                && graph_edges(graph)[e].1 < graph_nodes(graph).len() && 0 <= c1
                < condensed_nodes(result).len() && 0 <= k1 < condensed_nodes(result)[c1].len() && 0
                <= c2 < condensed_nodes(result).len() && 0 <= k2 < condensed_nodes(result)[c2].len()
                && #[trigger] condensed_nodes(result)[c1][k1] == graph_nodes(
                graph,
            )[#[trigger] graph_edges(graph)[e].0 as int] && #[trigger] condensed_nodes(result)[c2][k2]
                == graph_nodes(graph)[graph_edges(graph)[e].1 as int]
                ==> condensed_edges(result).contains((c1 as usize, c2 as usize)),
        forall|f: int|
            0 <= f < condensed_edges(result).len() ==> edge_between(
                graph_nodes(graph),
                graph_edges(graph),
                condensed_nodes(result),
                #[trigger] condensed_edges(result)[f],
            ),
        distinct_weights(graph_nodes(graph)) ==> forall|x: int, y: int|
            0 <= x < graph_nodes(graph).len() && 0 <= y < graph_nodes(graph).len() ==> together(
                condensed_nodes(result),
                #[trigger] graph_nodes(graph)[x],
                #[trigger] graph_nodes(graph)[y],
            ) == (reaches(graph_edges(graph), x as usize, y as usize) && reaches(
                graph_edges(graph),
                y as usize,
                x as usize,
            )),
        make_acyclic ==> acyclic(condensed_nodes(result).len(), condensed_edges(result)),
        make_acyclic ==> forall|e: int|
            0 <= e < condensed_edges(result).len() ==> (#[trigger] condensed_edges(result)[e]).0
                != condensed_edges(result)[e].1,
{
    petgraph::algo::condensation(graph, make_acyclic)
}

/// The node indices of a condensed graph in topological order
///
/// Calls `petgraph::algo::toposort`. Trusted: the contract claims that the
/// result is a function of the nodes and edges, named `toposort_of`, and, as
/// the documentation promises, that an order lists each node once, each
/// before the nodes its edges lead to, and that there is one where the graph
/// has no cycle.
#[verifier::external_body]
pub(crate) fn graph_toposort(graph: &Graph<Vec<usize>, ()>) -> (result: Option<Vec<usize>>)
    ensures
        match result {
            Some(order) => toposort_of(condensed_nodes(*graph), condensed_edges(*graph)) == Some(
                order@,
            ),
            None => toposort_of(condensed_nodes(*graph), condensed_edges(*graph)) is None,
        },
        result matches Some(order) ==> is_topological_order(
            order@,
            condensed_nodes(*graph).len(),
            condensed_edges(*graph),
        ),
        acyclic(condensed_nodes(*graph).len(), condensed_edges(*graph)) ==> result is Some,
{
    match petgraph::algo::toposort(graph, None) {
        Ok(order) => Some(order.into_iter().map(|index| index.index()).collect()),
        Err(_) => None,
    }
}

/// The weight of the node with the given index in a condensed graph
///
/// Calls `Graph::node_weight`, and copies the weight. Trusted: the contract
/// claims that the weight is that of the node. The index must be that of a
/// node: node indices are `u32`, and a larger index would be cut down.
#[verifier::external_body]
pub(crate) fn condensed_node_weight(graph: &Graph<Vec<usize>, ()>, index: usize) -> (result: Option<Vec<usize>>)
    requires
        index < condensed_nodes(*graph).len(),
    ensures
        match result {
            Some(weight) => weight@ == condensed_nodes(*graph)[index as int],
            None => false,
        },
{
    graph.node_weight(NodeIndex::new(index)).cloned()
}

/// The targets of the edges from the given node, in the order the edges
/// were added
pub open spec fn outgoing_targets(edges: Seq<(usize, usize)>, node: usize) -> Seq<usize>
    decreases edges.len(),
{
    if edges.len() == 0 {
        Seq::empty()
    } else {
        outgoing_targets(edges.drop_last(), node) + if edges.last().0 == node {
            seq![edges.last().1]
        } else {
            Seq::empty()
        }
    }
}

/// The number of nodes of a condensed graph
///
/// Calls `Graph::node_count`. Trusted: the contract claims that it is the
/// number of nodes.
#[verifier::external_body]
pub(crate) fn condensed_node_count(graph: &Graph<Vec<usize>, ()>) -> (result: usize)
    ensures
        result == condensed_nodes(*graph).len(),
{
    graph.node_count()
}

/// The targets of the edges from a node of a condensed graph
///
/// Calls `Graph::edges_directed` with `Direction::Outgoing`, and takes the
/// target of each edge. Trusted: the contract claims, as the documentation
/// promises for a directed graph, that these are all edges from the node,
/// the most recently added first. The node must be one of the graph: node
/// indices are `u32`, and a larger index would be cut down.
#[verifier::external_body]
pub(crate) fn condensed_outgoing(graph: &Graph<Vec<usize>, ()>, node: usize) -> (result: Vec<usize>)
    requires
        node < condensed_nodes(*graph).len(),
    ensures
        result@ == outgoing_targets(condensed_edges(*graph), node).reverse(),
{
    graph.edges_directed(NodeIndex::new(node), petgraph::Direction::Outgoing).map(
        |edge| edge.target().index(),
    ).collect()
}

} // verus!
