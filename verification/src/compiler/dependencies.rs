//! Resolving the dependencies between functions: which functions call which,
//! grouped into clusters of mutually recursive functions, from the callers
//! down to the functions they call.

use vstd::prelude::*;

use crate::compiler::function_calls::FunctionCalls;
use crate::compiler::graph::{
    condensation_of, condensed_node_weight, graph_add_edge, graph_add_node, graph_condensation,
    graph_new, graph_toposort, toposort_of,
};
use crate::compiler::location::{
    copy_function, FunctionIndexInRootContext, FunctionLocation, MemberLocation,
};
use crate::compiler::syntax::{
    first_function_named, has_function_named, tree_members, Expression, Function, SyntaxTree,
};
use crate::compiler::table::Table;

verus! {

/// The locations of the local functions that members define
pub open spec fn local_functions(members: Seq<(MemberLocation, Expression)>) -> Seq<FunctionLocation>
    decreases members.len(),
{
    if members.len() == 0 {
        Seq::empty()
    } else {
        let last = members.last();
        local_functions(members.drop_last()) + match last.1 {
            Expression::LocalFunction { .. } => seq![
                FunctionLocation::AnonymousFunction { location: Box::new(last.0) },
            ],
            _ => Seq::empty(),
        }
    }
}

/// The locations of all functions: the named functions, then the local
/// functions, in the order of the code
pub open spec fn function_locations(tree: SyntaxTree) -> Seq<FunctionLocation> {
    Seq::new(
        tree.named_functions@.len(),
        |i: int| FunctionLocation::NamedFunction { index: FunctionIndexInRootContext(i as u32) },
    ) + local_functions(tree_members(tree))
}

/// The node of each function in the dependency graph: its position among the
/// function locations
pub open spec fn node_indices(locations: Seq<FunctionLocation>) -> Map<FunctionLocation, usize>
    decreases locations.len(),
{
    if locations.len() == 0 {
        Map::empty()
    } else {
        node_indices(locations.drop_last()).insert(locations.last(), (locations.len() - 1) as usize)
    }
}

/// The function that a member depends on, if any: the named function that
/// an identifier calls, or the local function that the member defines
pub open spec fn dependee(
    member: (MemberLocation, Expression),
    calls: Set<MemberLocation>,
    functions: Seq<Function>,
) -> Option<FunctionLocation> {
    match member.1 {
        Expression::Identifier { name } => if calls.contains(member.0) && has_function_named(
            functions,
            name@,
        ) {
            Some(
                FunctionLocation::NamedFunction {
                    index: FunctionIndexInRootContext(first_function_named(functions, name@) as u32),
                },
            )
        } else {
            None
        },
        Expression::LocalFunction { .. } => Some(
            FunctionLocation::AnonymousFunction { location: Box::new(member.0) },
        ),
        _ => None,
    }
}

/// The edges of the dependency graph, from the function that contains a
/// member to the function it depends on
pub open spec fn dependency_edges(
    members: Seq<(MemberLocation, Expression)>,
    nodes: Map<FunctionLocation, usize>,
    calls: Set<MemberLocation>,
    functions: Seq<Function>,
) -> Seq<(usize, usize)>
    decreases members.len(),
{
    if members.len() == 0 {
        Seq::empty()
    } else {
        let member = members.last();
        let depender = *member.0.parent.parent;
        dependency_edges(members.drop_last(), nodes, calls, functions) + match dependee(
            member,
            calls,
            functions,
        ) {
            Some(target) => if nodes.contains_key(depender) && nodes.contains_key(target) {
                seq![(nodes[depender], nodes[target])]
            } else {
                Seq::empty()
            },
            None => Seq::empty(),
        }
    }
}

/// There is at most one edge per member
proof fn lemma_edges_bounded(
    members: Seq<(MemberLocation, Expression)>,
    nodes: Map<FunctionLocation, usize>,
    calls: Set<MemberLocation>,
    functions: Seq<Function>,
)
    ensures
        dependency_edges(members, nodes, calls, functions).len() <= members.len(),
    decreases members.len(),
{
    if members.len() > 0 {
        lemma_edges_bounded(members.drop_last(), nodes, calls, functions);
    }
}

/// The numbers `0` to `n - 1`
pub open spec fn numbers(n: nat) -> Seq<usize> {
    Seq::new(n, |i: int| i as usize)
}

/// The function locations that the weights of a condensed node stand for
pub open spec fn cluster_locations(weights: Seq<usize>, locations: Seq<FunctionLocation>) -> Seq<FunctionLocation> {
    weights.map_values(|w: usize| locations[w as int])
}

/// The clusters, in the given order of the condensed nodes
pub open spec fn ordered_clusters(
    order: Seq<usize>,
    condensed: Seq<Seq<usize>>,
    locations: Seq<FunctionLocation>,
) -> Seq<Seq<FunctionLocation>> {
    order.map_values(|c: usize| cluster_locations(condensed[c as int], locations))
}

/// The dependency clusters of the syntax tree: the strongly connected
/// components of the dependency graph, condensed to an acyclic graph, in
/// topological order. `None`, where that order could not be found.
pub open spec fn dependency_clusters(tree: SyntaxTree, calls: Set<MemberLocation>) -> Option<Seq<Seq<FunctionLocation>>> {
    let locations = function_locations(tree);
    let edges = dependency_edges(
        tree_members(tree),
        node_indices(locations),
        calls,
        tree.named_functions@,
    );
    let (condensed, condensed_edges) = condensation_of(numbers(locations.len()), edges, true);
    match toposort_of(condensed, condensed_edges) {
        Some(order) => Some(ordered_clusters(order, condensed, locations)),
        None => None,
    }
}

/// The edges of the dependency graph of a syntax tree: from the node of each
/// function to the nodes of the functions it depends on
pub open spec fn dependency_graph_edges(tree: SyntaxTree, calls: Set<MemberLocation>) -> Seq<(usize, usize)> {
    dependency_edges(
        tree_members(tree),
        node_indices(function_locations(tree)),
        calls,
        tree.named_functions@,
    )
}

/// The nodes of the dependency graph in each cluster, the clusters in their
/// order
pub open spec fn dependency_cluster_nodes(tree: SyntaxTree, calls: Set<MemberLocation>) -> Seq<Seq<usize>> {
    let locations = function_locations(tree);
    let (condensed, condensed_edges) = condensation_of(
        numbers(locations.len()),
        dependency_graph_edges(tree, calls),
        true,
    );
    match toposort_of(condensed, condensed_edges) {
        Some(order) => order.map_values(|c: usize| condensed[c as int]),
        None => Seq::empty(),
    }
}

/// The nodes of a graph of the nodes `0` to `n - 1` in each cluster, the
/// clusters in topological order
pub open spec fn cluster_nodes(n: nat, edges: Seq<(usize, usize)>) -> Seq<Seq<usize>> {
    let (condensed, condensed_edges) = condensation_of(numbers(n), edges, true);
    match toposort_of(condensed, condensed_edges) {
        Some(order) => order.map_values(|c: usize| condensed[c as int]),
        None => Seq::empty(),
    }
}

/// Whether some cluster holds the node
pub open spec fn in_some_cluster(clusters: Seq<Seq<usize>>, w: usize) -> bool {
    exists|i: int, k: int|
        0 <= i < clusters.len() && 0 <= k < clusters[i].len() && #[trigger] clusters[i][k] == w
}

/// Whether clusters of the nodes `0` to `n - 1` are in order: each node is in
/// exactly one cluster, and no edge leads from a node to one in an earlier
/// cluster
pub open spec fn clusters_in_order(clusters: Seq<Seq<usize>>, n: nat, edges: Seq<(usize, usize)>) -> bool {
    &&& forall|w: usize| w < n ==> #[trigger] in_some_cluster(clusters, w)
    &&& forall|i: int, k: int|
        0 <= i < clusters.len() && 0 <= k < clusters[i].len() ==> #[trigger] clusters[i][k] < n
    &&& forall|i: int, k: int, j: int, l: int|
        0 <= i < clusters.len() && 0 <= k < clusters[i].len() && 0 <= j < clusters.len() && 0 <= l
            < clusters[j].len() && #[trigger] clusters[i][k] == #[trigger] clusters[j][l] ==> i == j
            && k == l
    &&& forall|e: int, i: int, k: int, j: int, l: int|
        #![trigger edges[e], clusters[i][k], clusters[j][l]]
        0 <= e < edges.len() && 0 <= i < clusters.len() && 0 <= k < clusters[i].len() && 0 <= j
            < clusters.len() && 0 <= l < clusters[j].len() && clusters[i][k] == edges[e].0
            && clusters[j][l] == edges[e].1 ==> i <= j
}

/// The clusters that a condensation of a graph of the nodes `0` to `n - 1`
/// and a topological order of its nodes give are in order
pub proof fn lemma_clusters_in_order(
    n: nat,
    nodes: Seq<usize>,
    edges: Seq<(usize, usize)>,
    condensed: Seq<Seq<usize>>,
    condensed_edges: Seq<(usize, usize)>,
    order: Seq<usize>,
)
    requires
        nodes == numbers(n),
        forall|c: int, k: int|
            0 <= c < condensed.len() && 0 <= k < condensed[c].len() ==> nodes.contains(
                #[trigger] condensed[c][k],
            ),
        forall|x: int|
            0 <= x < nodes.len() ==> crate::compiler::graph::holds_weight(
                condensed,
                #[trigger] nodes[x],
            ),
        forall|c1: int, k1: int, c2: int, k2: int|
            0 <= c1 < condensed.len() && 0 <= k1 < condensed[c1].len() && 0 <= c2 < condensed.len()
                && 0 <= k2 < condensed[c2].len() && #[trigger] condensed[c1][k1]
                == #[trigger] condensed[c2][k2] ==> c1 == c2 && k1 == k2,
        forall|e: int, c1: int, k1: int, c2: int, k2: int|
            0 <= e < edges.len() && edges[e].0 < nodes.len() && edges[e].1 < nodes.len()
                && 0 <= c1 < condensed.len() && 0 <= k1 < condensed[c1].len() && 0 <= c2
                < condensed.len() && 0 <= k2 < condensed[c2].len() && #[trigger] condensed[c1][k1]
                == nodes[#[trigger] edges[e].0 as int] && #[trigger] condensed[c2][k2]
                == nodes[edges[e].1 as int] ==> c1 == c2 || condensed_edges.contains(
                (c1 as usize, c2 as usize),
            ),
        crate::compiler::graph::is_topological_order(order, condensed.len(), condensed_edges),
    ensures
        clusters_in_order(order.map_values(|c: usize| condensed[c as int]), n, edges),
{
    let clusters = order.map_values(|c: usize| condensed[c as int]);
    assert forall|w: usize| w < n implies #[trigger] in_some_cluster(clusters, w) by {
        assert(nodes[w as int] == w);
        assert(crate::compiler::graph::holds_weight(condensed, nodes[w as int]));
        let (c, k) = choose|c: int, k: int|
            0 <= c < condensed.len() && 0 <= k < condensed[c].len() && condensed[c][k]
                == nodes[w as int];
        assert(crate::compiler::graph::lists(order, c));
        let i = choose|i: int| 0 <= i < order.len() && order[i] == c;
        assert(clusters[i] == condensed[c]);
        assert(clusters[i][k] == w);
    }
    assert forall|i: int, k: int|
        0 <= i < clusters.len() && 0 <= k < clusters[i].len() implies #[trigger] clusters[i][k]
        < n by {
        let c = order[i] as int;
        assert(clusters[i] == condensed[c]);
        assert(nodes.contains(condensed[c][k]));
        let y = nodes.index_of(condensed[c][k]);
        assert(nodes[y] == condensed[c][k]);
    }
    assert forall|i: int, k: int, j: int, l: int|
        0 <= i < clusters.len() && 0 <= k < clusters[i].len() && 0 <= j < clusters.len() && 0 <= l
            < clusters[j].len() && #[trigger] clusters[i][k] == #[trigger] clusters[j][l] implies i
        == j && k == l by {
        let ci = order[i] as int;
        let cj = order[j] as int;
        assert(clusters[i] == condensed[ci]);
        assert(clusters[j] == condensed[cj]);
        assert(condensed[ci][k] == condensed[cj][l]);
        if i != j {
            if i < j {
                assert(order[i] != order[j]);
            } else {
                assert(order[j] != order[i]);
            }
        }
    }
    assert forall|e: int, i: int, k: int, j: int, l: int|
        #![trigger edges[e], clusters[i][k], clusters[j][l]]
        0 <= e < edges.len() && 0 <= i < clusters.len() && 0 <= k < clusters[i].len() && 0 <= j
            < clusters.len() && 0 <= l < clusters[j].len() && clusters[i][k] == edges[e].0
            && clusters[j][l] == edges[e].1 implies i <= j by {
        let ci = order[i] as int;
        let cj = order[j] as int;
        assert(clusters[i] == condensed[ci]);
        assert(clusters[j] == condensed[cj]);
        assert(nodes[edges[e].0 as int] == edges[e].0);
        assert(nodes[edges[e].1 as int] == edges[e].1);
        assert(condensed[ci][k] == nodes[edges[e].0 as int]);
        assert(condensed[cj][l] == nodes[edges[e].1 as int]);
        if ci != cj {
            assert(condensed_edges.contains((ci as usize, cj as usize)));
            let f = condensed_edges.index_of((ci as usize, cj as usize));
            assert(condensed_edges[f] == (order[i], order[j]));
        } else if i != j {
            if i < j {
                assert(order[i] != order[j]);
            } else {
                assert(order[j] != order[i]);
            }
        }
    }
}

/// # Resolve the dependencies between functions
///
/// Functions that call each other are grouped into clusters. The clusters
/// come in topological order: a cluster only depends on those after it, so
/// each function is in exactly one cluster, and a function depends only on
/// functions of its own cluster or of later ones. Graphs have at most
/// `u32::MAX` nodes and edges.
pub fn resolve_function_dependencies(
    syntax_tree: &SyntaxTree,
    function_calls: &FunctionCalls,
) -> (result: Option<Vec<Vec<FunctionLocation>>>)
    requires
        syntax_tree.named_functions@.len() <= u32::MAX,
        function_locations(*syntax_tree).len() < u32::MAX,
        tree_members(*syntax_tree).len() < u32::MAX,
    ensures
        result is Some,
        ({
            let nodes = dependency_cluster_nodes(*syntax_tree, function_calls.view().user_defined);
            let locations = function_locations(*syntax_tree);
            &&& clusters_in_order(
                nodes,
                locations.len(),
                dependency_graph_edges(*syntax_tree, function_calls.view().user_defined),
            )
            &&& result->0@.len() == nodes.len()
            &&& forall|i: int|
                0 <= i < nodes.len() ==> (#[trigger] result->0@[i])@ == cluster_locations(
                    nodes[i],
                    locations,
                )
        }),
        match result {
            Some(clusters) => dependency_clusters(*syntax_tree, function_calls.view().user_defined) == Some(
                clusters@.map_values(|c: Vec<FunctionLocation>| c@),
            ),
            None => dependency_clusters(*syntax_tree, function_calls.view().user_defined) is None,
        },
{
    let members = syntax_tree.members();
    let ghost member_list = tree_members(*syntax_tree);
    let ghost functions = syntax_tree.named_functions@;
    let ghost all = function_locations(*syntax_tree);
    let ghost named = Seq::new(
        functions.len(),
        |i: int| FunctionLocation::NamedFunction { index: FunctionIndexInRootContext(i as u32) },
    );
    // The locations of all functions, in order.
    let mut locations: Vec<FunctionLocation> = Vec::new();
    let mut i: usize = 0;
    while i < syntax_tree.named_functions.len()
        invariant
            i <= functions.len(),
            functions == syntax_tree.named_functions@,
            functions.len() <= u32::MAX,
            named.len() == functions.len(),
            forall|j: int| 0 <= j < named.len() ==> named[j] == (FunctionLocation::NamedFunction { index: FunctionIndexInRootContext(j as u32) }),
            locations@ == named.take(i as int),
        decreases functions.len() - i,
    {
        locations.push(FunctionLocation::NamedFunction { index: FunctionIndexInRootContext(i as u32) });
        i = i + 1;
        assert(locations@ =~= named.take(i as int));
    }
    assert(named.take(i as int) =~= named);
    let mut k: usize = 0;
    while k < members.len()
        invariant
            k <= member_list.len(),
            members@.map_values(|m: (MemberLocation, &Expression)| (m.0, *m.1)) == member_list,
            locations@ == named + local_functions(member_list.take(k as int)),
        decreases member_list.len() - k,
    {
        let entry = &members[k];
        proof {
            let taken = member_list.take(k + 1);
            assert(taken.drop_last() =~= member_list.take(k as int));
            assert(taken.last() == member_list[k as int]);
        }
        match entry.1 {
            Expression::LocalFunction { .. } => {
                locations.push(
                    FunctionLocation::AnonymousFunction {
                        location: Box::new(crate::compiler::location::copy_member(&entry.0)),
                    },
                );
            },
            _ => {},
        }
        k = k + 1;
        assert(locations@ =~= named + local_functions(member_list.take(k as int)));
    }
    assert(member_list.take(k as int) =~= member_list);
    assert(locations@ =~= all);
    // The node of each function.
    let mut graph = graph_new();
    let mut nodes: Table<FunctionLocation, usize> = Table::new();
    let mut n: usize = 0;
    while n < locations.len()
        invariant
            n <= locations@.len(),
            locations@ == all,
            all.len() < u32::MAX,
            crate::compiler::graph::graph_nodes(graph) == numbers(n as nat),
            crate::compiler::graph::graph_edges(graph) == Seq::<(usize, usize)>::empty(),
            nodes.view() == node_indices(all.take(n as int)),
            forall|l: FunctionLocation| #[trigger] nodes.view().contains_key(l) ==> nodes.view()[l] < n,
        decreases locations@.len() - n,
    {
        let index = graph_add_node(&mut graph, n);
        nodes.insert(copy_function(&locations[n]), index);
        proof {
            let taken = all.take(n + 1);
            assert(taken.drop_last() =~= all.take(n as int));
            assert(crate::compiler::graph::graph_nodes(graph) =~= numbers((n + 1) as nat));
        }
        n = n + 1;
    }
    assert(all.take(n as int) =~= all);
    // The edges between them.
    let mut k: usize = 0;
    while k < members.len()
        invariant
            k <= member_list.len(),
            members@.map_values(|m: (MemberLocation, &Expression)| (m.0, *m.1)) == member_list,
            member_list.len() < u32::MAX,
            functions == syntax_tree.named_functions@,
            functions.len() <= u32::MAX,
            crate::compiler::graph::graph_nodes(graph) == numbers(all.len()),
            nodes.view() == node_indices(all),
            forall|l: FunctionLocation| #[trigger] nodes.view().contains_key(l) ==> nodes.view()[l] < all.len(),
            crate::compiler::graph::graph_edges(graph) == dependency_edges(
                member_list.take(k as int),
                node_indices(all),
                function_calls.view().user_defined,
                functions,
            ),
        decreases member_list.len() - k,
    {
        let (location, expression) = &members[k];
        let ghost member = member_list[k as int];
        proof {
            lemma_edges_bounded(
                member_list.take(k as int),
                node_indices(all),
                function_calls.view().user_defined,
                functions,
            );
            let taken = member_list.take(k + 1);
            assert(taken.drop_last() =~= member_list.take(k as int));
            assert(taken.last() == member);
        }
        let target = match expression {
            Expression::Identifier { name } => {
                if function_calls.is_call_to_user_defined_function(location) {
                    match syntax_tree.function_by_name(name.as_str()) {
                        Some(index) => Some(FunctionLocation::NamedFunction { index }),
                        None => None,
                    }
                } else {
                    None
                }
            },
            Expression::LocalFunction { .. } => Some(
                FunctionLocation::AnonymousFunction {
                    location: Box::new(crate::compiler::location::copy_member(location)),
                },
            ),
            _ => None,
        };
        match target {
            Some(target) => {
                let depender: &FunctionLocation = &location.parent.parent;
                match (nodes.get(depender), nodes.get(&target)) {
                    (Some(from), Some(to)) => {
                        graph_add_edge(&mut graph, *from, *to);
                    },
                    _ => {},
                }
            },
            None => {},
        }
        k = k + 1;
    }
    assert(member_list.take(k as int) =~= member_list);
    let ghost graph_nodes_view = crate::compiler::graph::graph_nodes(graph);
    let ghost graph_edges_view = crate::compiler::graph::graph_edges(graph);
    proof {
        assert(crate::compiler::graph::distinct_weights(graph_nodes_view));
    }
    let condensed = graph_condensation(graph, true);
    let order = match graph_toposort(&condensed) {
        Some(order) => order,
        None => return None,
    };
    proof {
        lemma_clusters_in_order(
            all.len(),
            graph_nodes_view,
            graph_edges_view,
            crate::compiler::graph::condensed_nodes(condensed),
            crate::compiler::graph::condensed_edges(condensed),
            order@,
        );
    }
    let mut clusters: Vec<Vec<FunctionLocation>> = Vec::new();
    let mut c: usize = 0;
    while c < order.len()
        invariant
            c <= order@.len(),
            clusters@.len() == c,
            locations@ == all,
            toposort_of(
                crate::compiler::graph::condensed_nodes(condensed),
                crate::compiler::graph::condensed_edges(condensed),
            ) == Some(order@),
            forall|i: int| 0 <= i < order@.len() ==> order@[i] < crate::compiler::graph::condensed_nodes(condensed).len(),
            forall|a: int, w: int|
                0 <= a < crate::compiler::graph::condensed_nodes(condensed).len() && 0 <= w
                    < crate::compiler::graph::condensed_nodes(condensed)[a].len() ==> numbers(all.len()).contains(
                    #[trigger] crate::compiler::graph::condensed_nodes(condensed)[a][w],
                ),
            forall|i: int|
                0 <= i < c ==> (#[trigger] clusters@[i])@ == cluster_locations(
                    crate::compiler::graph::condensed_nodes(condensed)[order@[i] as int],
                    all,
                ),
        decreases order@.len() - c,
    {
        let weights = match condensed_node_weight(&condensed, order[c]) {
            Some(weights) => weights,
            None => {
                assert(false);
                return None;
            },
        };
        let ghost cluster_weights = crate::compiler::graph::condensed_nodes(condensed)[order@[c as int] as int];
        let mut cluster: Vec<FunctionLocation> = Vec::new();
        let mut w: usize = 0;
        while w < weights.len()
            invariant
                w <= weights@.len(),
                weights@ == cluster_weights,
                locations@ == all,
                forall|x: int| 0 <= x < weights@.len() ==> weights@[x] < all.len(),
                cluster@ == cluster_locations(weights@.take(w as int), all),
            decreases weights@.len() - w,
        {
            cluster.push(copy_function(&locations[weights[w]]));
            w = w + 1;
            assert(cluster@ =~= cluster_locations(weights@.take(w as int), all));
        }
        assert(weights@.take(w as int) =~= weights@);
        clusters.push(cluster);
        c = c + 1;
    }
    proof {
        let condensed_view = crate::compiler::graph::condensed_nodes(condensed);
        assert(clusters@.map_values(|c: Vec<FunctionLocation>| c@) =~= ordered_clusters(
            order@,
            condensed_view,
            all,
        ));
    }
    Some(clusters)
}

} // verus!
