//! Finding divergent functions: functions of a cluster that, once called,
//! never return, because each of their branches only ever calls branches
//! that do the same.

use vstd::prelude::*;

use crate::compiler::call_graph::{CallGraph, Cluster};
use crate::compiler::dependencies::numbers;
use crate::compiler::function_calls::FunctionCalls;
use crate::compiler::graph::{
    condensation_of, condensed_node_count, condensed_node_weight, condensed_nodes, condensed_outgoing,
    graph_add_edge, graph_add_node, graph_condensation, graph_edges, graph_new, graph_nodes,
    outgoing_targets, has_edge, reaches,
};
use crate::compiler::location::{
    copy_branch, BranchIndex, BranchLocation, FunctionIndexInRootContext, FunctionLocation,
    MemberLocation,
};
use crate::compiler::syntax::{
    first_function_named, has_function_named, member_location, Branch, Expression, Function,
    SyntaxTree,
};
use crate::compiler::table::Table;

verus! {

/// The locations of the branches of a named function
pub open spec fn branches_of(function: FunctionIndexInRootContext, named: Seq<Function>) -> Seq<BranchLocation> {
    named[function.0 as int].branches@.map_values(
        |b: (BranchIndex, Branch)|
            BranchLocation {
                parent: Box::new(FunctionLocation::NamedFunction { index: function }),
                index: b.0,
            },
    )
}

/// The locations of the branches of the functions, function by function
pub open spec fn cluster_branches(functions: Seq<FunctionIndexInRootContext>, named: Seq<Function>) -> Seq<BranchLocation>
    decreases functions.len(),
{
    if functions.len() == 0 {
        Seq::empty()
    } else {
        cluster_branches(functions.drop_last(), named) + branches_of(functions.last(), named)
    }
}

/// The node of each branch: its position among the branch locations
pub open spec fn branch_nodes(locations: Seq<BranchLocation>) -> Map<BranchLocation, usize>
    decreases locations.len(),
{
    if locations.len() == 0 {
        Map::empty()
    } else {
        branch_nodes(locations.drop_last()).insert(locations.last(), (locations.len() - 1) as usize)
    }
}

/// The function of the cluster that a member calls, if it calls one
pub open spec fn recursive_callee(
    member: (MemberLocation, Expression),
    calls: Set<MemberLocation>,
    named: Seq<Function>,
    cluster: Seq<FunctionIndexInRootContext>,
) -> Option<FunctionIndexInRootContext> {
    match member.1 {
        Expression::Identifier { name } => if calls.contains(member.0) && has_function_named(named, name@) {
            let callee = FunctionIndexInRootContext(first_function_named(named, name@) as u32);
            if cluster.contains(callee) {
                Some(callee)
            } else {
                None
            }
        } else {
            None
        },
        _ => None,
    }
}

/// The edges from a branch node to each branch of the function it calls
pub open spec fn call_edges(
    from: usize,
    callee: FunctionIndexInRootContext,
    named: Seq<Function>,
    nodes: Map<BranchLocation, usize>,
) -> Seq<(usize, usize)> {
    branches_of(callee, named).map_values(|location: BranchLocation| (from, nodes[location]))
}

/// The edges from the node of a branch, for the members of its body
pub open spec fn body_edges(
    from: usize,
    members: Seq<(crate::compiler::location::FragmentIndexInBranchBody, Expression)>,
    at: BranchLocation,
    calls: Set<MemberLocation>,
    named: Seq<Function>,
    cluster: Seq<FunctionIndexInRootContext>,
    nodes: Map<BranchLocation, usize>,
) -> Seq<(usize, usize)>
    decreases members.len(),
{
    if members.len() == 0 {
        Seq::empty()
    } else {
        let j = members.len() - 1;
        body_edges(from, members.subrange(0, j), at, calls, named, cluster, nodes) + match recursive_callee(
            (member_location(at, members, j), members[j].1),
            calls,
            named,
            cluster,
        ) {
            Some(callee) => call_edges(from, callee, named, nodes),
            None => Seq::empty(),
        }
    }
}

/// The edges for the branches of a function, whose first branch has the
/// node `base`
pub open spec fn branches_edges(
    base: int,
    function: FunctionIndexInRootContext,
    branches: Seq<(BranchIndex, Branch)>,
    calls: Set<MemberLocation>,
    named: Seq<Function>,
    cluster: Seq<FunctionIndexInRootContext>,
    nodes: Map<BranchLocation, usize>,
) -> Seq<(usize, usize)>
    decreases branches.len(),
{
    if branches.len() == 0 {
        Seq::empty()
    } else {
        let k = branches.len() - 1;
        branches_edges(base, function, branches.drop_last(), calls, named, cluster, nodes) + body_edges(
            (base + k) as usize,
            branches[k].1.body@,
            BranchLocation {
                parent: Box::new(FunctionLocation::NamedFunction { index: function }),
                index: branches[k].0,
            },
            calls,
            named,
            cluster,
            nodes,
        )
    }
}

/// The edges of the branch call graph of the functions
pub open spec fn functions_edges(
    functions: Seq<FunctionIndexInRootContext>,
    calls: Set<MemberLocation>,
    named: Seq<Function>,
    cluster: Seq<FunctionIndexInRootContext>,
    nodes: Map<BranchLocation, usize>,
) -> Seq<(usize, usize)>
    decreases functions.len(),
{
    if functions.len() == 0 {
        Seq::empty()
    } else {
        let f = functions.last();
        functions_edges(functions.drop_last(), calls, named, cluster, nodes) + branches_edges(
            cluster_branches(functions.drop_last(), named).len() as int,
            f,
            named[f.0 as int].branches@,
            calls,
            named,
            cluster,
            nodes,
        )
    }
}

/// Whether a condensed node has edges, all of them to itself
pub open spec fn diverges(edges: Seq<(usize, usize)>, node: usize) -> bool {
    let targets = outgoing_targets(edges, node);
    targets.len() > 0 && forall|i: int| 0 <= i < targets.len() ==> targets[i] == node
}

/// Whether a branch node is part of a condensed node that diverges
pub open spec fn is_diverging(condensed: Seq<Seq<usize>>, edges: Seq<(usize, usize)>, branch: usize) -> bool {
    exists|c: int|
        0 <= c < condensed.len() && diverges(edges, c as usize) && (#[trigger] condensed[c]).contains(
            branch,
        )
}

/// Whether two branch nodes are in the same condensed node: they call each
/// other, directly or not
pub open spec fn same_component(condensed: Seq<Seq<usize>>, x: usize, y: usize) -> bool {
    exists|c: int| 0 <= c < condensed.len() && (#[trigger] condensed[c]).contains(x) && condensed[c].contains(y)
}

/// Whether a branch node can only call on and never return: some call
/// leaves a branch of its condensed node, and every such call leads back
/// into it
pub open spec fn trapped(condensed: Seq<Seq<usize>>, edges: Seq<(usize, usize)>, x: usize) -> bool {
    &&& exists|e: int| 0 <= e < edges.len() && same_component(condensed, x, (#[trigger] edges[e]).0)
    &&& forall|e: int|
        0 <= e < edges.len() && same_component(condensed, x, (#[trigger] edges[e]).0) ==> same_component(
            condensed,
            x,
            edges[e].1,
        )
}

/// The targets of the edges from a node are those of the edges that start
/// there
proof fn lemma_outgoing_targets(edges: Seq<(usize, usize)>, node: usize)
    ensures
        forall|i: int|
            0 <= i < outgoing_targets(edges, node).len() ==> has_edge(
                edges,
                node,
                #[trigger] outgoing_targets(edges, node)[i],
            ),
        forall|f: int|
            0 <= f < edges.len() && (#[trigger] edges[f]).0 == node ==> outgoing_targets(
                edges,
                node,
            ).contains(edges[f].1),
    decreases edges.len(),
{
    if edges.len() > 0 {
        let rest = edges.drop_last();
        lemma_outgoing_targets(rest, node);
        let before = outgoing_targets(rest, node);
        let targets = outgoing_targets(edges, node);
        assert forall|i: int| 0 <= i < targets.len() implies has_edge(edges, node, #[trigger] targets[i]) by {
            if i < before.len() {
                assert(targets[i] == before[i]);
                assert(has_edge(rest, node, before[i]));
                let f = choose|f: int| 0 <= f < rest.len() && rest[f].0 == node && rest[f].1 == before[i];
                assert(edges[f] == rest[f]);
            } else {
                let f = edges.len() - 1;
                assert(edges[f] == edges.last());
                assert(edges.last().0 == node);
                assert(targets[i] == edges.last().1);
            }
        }
        assert forall|f: int| 0 <= f < edges.len() && (#[trigger] edges[f]).0 == node implies targets.contains(
            edges[f].1,
        ) by {
            if f < rest.len() {
                assert(rest[f] == edges[f]);
                let i = before.index_of(edges[f].1);
                assert(targets[i] == before[i]);
            } else {
                assert(targets[before.len() as int] == edges[f].1);
            }
        }
    } else {
        assert(outgoing_targets(edges, node) =~= Seq::<usize>::empty());
    }
}

/// A node lies in one condensed node at most
proof fn lemma_one_component(condensed: Seq<Seq<usize>>, x: usize, c1: int, c2: int)
    requires
        unique_weights(condensed),
        0 <= c1 < condensed.len(),
        0 <= c2 < condensed.len(),
        condensed[c1].contains(x),
        condensed[c2].contains(x),
    ensures
        c1 == c2,
{
    let b1 = condensed[c1].index_of(x);
    let b2 = condensed[c2].index_of(x);
    assert(condensed[c1][b1] == condensed[c2][b2]);
}

/// Whether each weight is in one condensed node, once
pub open spec fn unique_weights(condensed: Seq<Seq<usize>>) -> bool {
    forall|c1: int, k1: int, c2: int, k2: int|
        0 <= c1 < condensed.len() && 0 <= k1 < condensed[c1].len() && 0 <= c2 < condensed.len() && 0
            <= k2 < condensed[c2].len() && #[trigger] condensed[c1][k1] == #[trigger] condensed[c2][k2]
            ==> c1 == c2 && k1 == k2
}

/// Whether each node `0` to `n - 1` is in some condensed node, and nothing
/// else is
pub open spec fn covers(condensed: Seq<Seq<usize>>, n: nat) -> bool {
    &&& forall|c: int, k: int|
        0 <= c < condensed.len() && 0 <= k < condensed[c].len() ==> #[trigger] condensed[c][k] < n
    &&& forall|x: usize| x < n ==> #[trigger] crate::compiler::graph::holds_weight(condensed, x)
}

/// Whether each edge between nodes gives an edge between their condensed
/// nodes
pub open spec fn edges_kept(
    edges: Seq<(usize, usize)>,
    condensed: Seq<Seq<usize>>,
    condensed_edges: Seq<(usize, usize)>,
) -> bool {
    forall|e: int, c1: int, c2: int|
        0 <= e < edges.len() && 0 <= c1 < condensed.len() && 0 <= c2 < condensed.len()
            && condensed[c1].contains((#[trigger] edges[e]).0) && condensed[c2].contains(edges[e].1)
            ==> #[trigger] has_edge(condensed_edges, c1 as usize, c2 as usize)
}

/// Whether each edge between condensed nodes comes from an edge between
/// nodes of theirs
pub open spec fn edges_explained(
    edges: Seq<(usize, usize)>,
    condensed: Seq<Seq<usize>>,
    condensed_edges: Seq<(usize, usize)>,
) -> bool {
    forall|f: int| 0 <= f < condensed_edges.len() ==> explained_by(edges, condensed, #[trigger] condensed_edges[f])
}

/// Whether an edge leads from a node of the first to a node of the second of
/// two condensed nodes
pub open spec fn explained_by(
    edges: Seq<(usize, usize)>,
    condensed: Seq<Seq<usize>>,
    condensed_edge: (usize, usize),
) -> bool {
    exists|e: int|
        0 <= e < edges.len() && condensed[condensed_edge.0 as int].contains(edges[e].0)
            && condensed[condensed_edge.1 as int].contains(edges[e].1)
}

/// In the condensation of a graph of the nodes `0` to `n - 1`, without
/// making it acyclic, a node is part of a condensed node that diverges
/// exactly where it is trapped
proof fn lemma_diverging_is_trapped(
    n: nat,
    edges: Seq<(usize, usize)>,
    condensed: Seq<Seq<usize>>,
    condensed_edges: Seq<(usize, usize)>,
    w: usize,
)
    requires
        condensed.len() <= usize::MAX,
        w < n,
        forall|e: int| 0 <= e < edges.len() ==> (#[trigger] edges[e]).0 < n && edges[e].1 < n,
        covers(condensed, n),
        unique_weights(condensed),
        edges_kept(edges, condensed, condensed_edges),
        edges_explained(edges, condensed, condensed_edges),
        forall|f: int|
            0 <= f < condensed_edges.len() ==> (#[trigger] condensed_edges[f]).0 < condensed.len()
                && condensed_edges[f].1 < condensed.len(),
    ensures
        is_diverging(condensed, condensed_edges, w) == trapped(condensed, edges, w),
{
    assert(crate::compiler::graph::holds_weight(condensed, w));
    let (c, k) = choose|c: int, k: int|
        0 <= c < condensed.len() && 0 <= k < condensed[c].len() && condensed[c][k] == w;
    assert(condensed[c].contains(w));
    let node = c as usize;
    lemma_outgoing_targets(condensed_edges, node);
    let targets = outgoing_targets(condensed_edges, node);
    if is_diverging(condensed, condensed_edges, w) {
        let d = choose|d: int|
            0 <= d < condensed.len() && diverges(condensed_edges, d as usize) && (#[trigger] condensed[d]).contains(
                w,
            );
        lemma_one_component(condensed, w, c, d);
        assert(has_edge(condensed_edges, node, targets[0]));
        let f = choose|f: int|
            0 <= f < condensed_edges.len() && condensed_edges[f].0 == node && condensed_edges[f].1
                == targets[0];
        assert(condensed_edges[f].0 as int == c);
        assert(explained_by(edges, condensed, condensed_edges[f]));
        let e = choose|e: int|
            0 <= e < edges.len() && condensed[(#[trigger] condensed_edges[f]).0 as int].contains(
                edges[e].0,
            ) && condensed[condensed_edges[f].1 as int].contains(edges[e].1);
        assert(condensed[c].contains(edges[e].0));
        assert(same_component(condensed, w, edges[e].0));
        assert forall|e: int|
            0 <= e < edges.len() && same_component(condensed, w, (#[trigger] edges[e]).0) implies same_component(
            condensed,
            w,
            edges[e].1,
        ) by {
            let c1 = choose|c1: int|
                0 <= c1 < condensed.len() && (#[trigger] condensed[c1]).contains(w) && condensed[c1].contains(
                    edges[e].0,
                );
            lemma_one_component(condensed, w, c, c1);
            assert(crate::compiler::graph::holds_weight(condensed, edges[e].1));
            let (c2, k2) = choose|c2: int, k2: int|
                0 <= c2 < condensed.len() && 0 <= k2 < condensed[c2].len() && condensed[c2][k2]
                    == edges[e].1;
            assert(condensed[c2].contains(edges[e].1));
            assert(has_edge(condensed_edges, c as usize, c2 as usize));
            let g = choose|g: int|
                0 <= g < condensed_edges.len() && condensed_edges[g].0 == node && condensed_edges[g].1
                    == c2 as usize;
            assert(targets.contains(condensed_edges[g].1));
            let i = targets.index_of(c2 as usize);
            assert(targets[i] == node);
            assert(c2 == c);
            assert(condensed[c].contains(edges[e].1));
        }
    }
    if trapped(condensed, edges, w) {
        let e = choose|e: int| 0 <= e < edges.len() && same_component(condensed, w, (#[trigger] edges[e]).0);
        let c1 = choose|c1: int|
            0 <= c1 < condensed.len() && (#[trigger] condensed[c1]).contains(w) && condensed[c1].contains(
                edges[e].0,
            );
        lemma_one_component(condensed, w, c, c1);
        assert(crate::compiler::graph::holds_weight(condensed, edges[e].1));
        let (c2, k2) = choose|c2: int, k2: int|
            0 <= c2 < condensed.len() && 0 <= k2 < condensed[c2].len() && condensed[c2][k2]
                == edges[e].1;
        assert(condensed[c2].contains(edges[e].1));
        assert(has_edge(condensed_edges, c as usize, c2 as usize));
        let g = choose|g: int|
            0 <= g < condensed_edges.len() && condensed_edges[g].0 == node && condensed_edges[g].1
                == c2 as usize;
        assert(targets.contains(condensed_edges[g].1));
        assert(targets.len() > 0);
        assert forall|i: int| 0 <= i < targets.len() implies targets[i] == node by {
            assert(has_edge(condensed_edges, node, targets[i]));
            let f = choose|f: int|
                0 <= f < condensed_edges.len() && condensed_edges[f].0 == node && condensed_edges[f].1
                    == targets[i];
            assert(explained_by(edges, condensed, condensed_edges[f]));
            let e2 = choose|e2: int|
                0 <= e2 < edges.len() && condensed[(#[trigger] condensed_edges[f]).0 as int].contains(
                    edges[e2].0,
                ) && condensed[condensed_edges[f].1 as int].contains(edges[e2].1);
            assert(condensed[c].contains(edges[e2].0));
            assert(same_component(condensed, w, edges[e2].0));
            assert(same_component(condensed, w, edges[e2].1));
            let c3 = choose|c3: int|
                0 <= c3 < condensed.len() && (#[trigger] condensed[c3]).contains(w) && condensed[c3].contains(
                    edges[e2].1,
                );
            lemma_one_component(condensed, w, c, c3);
            lemma_one_component(condensed, edges[e2].1, c, targets[i] as int);
        }
        assert(diverges(condensed_edges, node));
    }
}

/// Whether the edges lie between the nodes `0` to `n - 1`
pub open spec fn edges_within(edges: Seq<(usize, usize)>, n: nat) -> bool {
    forall|e: int| 0 <= e < edges.len() ==> (#[trigger] edges[e]).0 < n && edges[e].1 < n
}

/// Edges within the nodes, appended to others, are within them too
proof fn lemma_edges_within_concat(a: Seq<(usize, usize)>, b: Seq<(usize, usize)>, n: nat)
    requires
        edges_within(a, n),
        edges_within(b, n),
    ensures
        edges_within(a + b, n),
{
    assert forall|e: int| 0 <= e < (a + b).len() implies (#[trigger] (a + b)[e]).0 < n && (a + b)[e].1 < n by {
        if e < a.len() {
            assert((a + b)[e] == a[e]);
        } else {
            assert((a + b)[e] == b[e - a.len()]);
        }
    }
}

/// The edges of the body of a branch of the cluster, whose node is `from`,
/// lead to branches of the cluster
proof fn lemma_body_edges_within(
    from: usize,
    members: Seq<(crate::compiler::location::FragmentIndexInBranchBody, Expression)>,
    at: BranchLocation,
    calls: Set<MemberLocation>,
    named: Seq<Function>,
    cluster: Seq<FunctionIndexInRootContext>,
)
    requires
        from < cluster_branches(cluster, named).len(),
    ensures
        edges_within(
            body_edges(from, members, at, calls, named, cluster, branch_nodes(cluster_branches(cluster, named))),
            cluster_branches(cluster, named).len(),
        ),
    decreases members.len(),
{
    let all = cluster_branches(cluster, named);
    let nodes = branch_nodes(all);
    if members.len() > 0 {
        let j = members.len() - 1;
        lemma_body_edges_within(from, members.subrange(0, j), at, calls, named, cluster);
        let own = match recursive_callee((member_location(at, members, j), members[j].1), calls, named, cluster) {
            Some(callee) => call_edges(from, callee, named, nodes),
            None => Seq::empty(),
        };
        match recursive_callee((member_location(at, members, j), members[j].1), calls, named, cluster) {
            Some(callee) => {
                assert(cluster.contains(callee));
                lemma_branch_nodes(all);
                assert forall|e: int| 0 <= e < own.len() implies (#[trigger] own[e]).0 < all.len() && own[e].1
                    < all.len() by {
                    lemma_branches_in_cluster(cluster, named, callee, e);
                    let x = all.index_of(branches_of(callee, named)[e]);
                    assert(all[x] == branches_of(callee, named)[e]);
                }
            },
            None => {},
        }
        lemma_edges_within_concat(
            body_edges(from, members.subrange(0, j), at, calls, named, cluster, nodes),
            own,
            all.len(),
        );
    }
}

/// The edges of branches of a function of the cluster, whose first node is
/// `base`, lead between branches of the cluster
proof fn lemma_branches_edges_within(
    base: int,
    function: FunctionIndexInRootContext,
    branches: Seq<(BranchIndex, Branch)>,
    calls: Set<MemberLocation>,
    named: Seq<Function>,
    cluster: Seq<FunctionIndexInRootContext>,
)
    requires
        0 <= base,
        base + branches.len() <= cluster_branches(cluster, named).len(),
    ensures
        edges_within(
            branches_edges(base, function, branches, calls, named, cluster, branch_nodes(cluster_branches(cluster, named))),
            cluster_branches(cluster, named).len(),
        ),
    decreases branches.len(),
{
    if branches.len() > 0 {
        let k = branches.len() - 1;
        let nodes = branch_nodes(cluster_branches(cluster, named));
        lemma_branches_edges_within(base, function, branches.drop_last(), calls, named, cluster);
        let at = BranchLocation {
            parent: Box::new(FunctionLocation::NamedFunction { index: function }),
            index: branches[k].0,
        };
        lemma_body_edges_within((base + k) as usize, branches[k].1.body@, at, calls, named, cluster);
        lemma_edges_within_concat(
            branches_edges(base, function, branches.drop_last(), calls, named, cluster, nodes),
            body_edges((base + k) as usize, branches[k].1.body@, at, calls, named, cluster, nodes),
            cluster_branches(cluster, named).len(),
        );
    }
}

/// The edges of the branch call graph of some functions lead between
/// branches of the cluster
proof fn lemma_functions_edges_within(
    functions: Seq<FunctionIndexInRootContext>,
    calls: Set<MemberLocation>,
    named: Seq<Function>,
    cluster: Seq<FunctionIndexInRootContext>,
)
    requires
        cluster_branches(functions, named).len() <= cluster_branches(cluster, named).len(),
    ensures
        edges_within(
            functions_edges(functions, calls, named, cluster, branch_nodes(cluster_branches(cluster, named))),
            cluster_branches(cluster, named).len(),
        ),
    decreases functions.len(),
{
    if functions.len() > 0 {
        let f = functions.last();
        let nodes = branch_nodes(cluster_branches(cluster, named));
        let base = cluster_branches(functions.drop_last(), named).len() as int;
        assert(cluster_branches(functions, named) == cluster_branches(functions.drop_last(), named)
            + branches_of(f, named));
        lemma_functions_edges_within(functions.drop_last(), calls, named, cluster);
        lemma_branches_edges_within(base, f, named[f.0 as int].branches@, calls, named, cluster);
        lemma_edges_within_concat(
            functions_edges(functions.drop_last(), calls, named, cluster, nodes),
            branches_edges(base, f, named[f.0 as int].branches@, calls, named, cluster, nodes),
            cluster_branches(cluster, named).len(),
        );
    }
}

/// What the condensation of a graph of the nodes `0` to `n - 1` shows of its
/// condensed nodes and edges
proof fn lemma_condensation_shape(
    n: nat,
    nodes: Seq<usize>,
    edges: Seq<(usize, usize)>,
    condensed: Seq<Seq<usize>>,
    condensed_edges: Seq<(usize, usize)>,
)
    requires
        nodes == numbers(n),
        n <= usize::MAX,
        edges_within(edges, n),
        forall|c: int, k: int|
            0 <= c < condensed.len() && 0 <= k < condensed[c].len() ==> nodes.contains(
                #[trigger] condensed[c][k],
            ),
        forall|x: int|
            0 <= x < nodes.len() ==> crate::compiler::graph::holds_weight(condensed, #[trigger] nodes[x]),
        unique_weights(condensed),
        forall|e: int, c1: int, k1: int, c2: int, k2: int|
            0 <= e < edges.len() && edges[e].0 < nodes.len() && edges[e].1 < nodes.len() && 0 <= c1
                < condensed.len() && 0 <= k1 < condensed[c1].len() && 0 <= c2 < condensed.len() && 0
                <= k2 < condensed[c2].len() && #[trigger] condensed[c1][k1] == nodes[#[trigger] edges[e].0 as int]
                && #[trigger] condensed[c2][k2] == nodes[edges[e].1 as int]
                ==> condensed_edges.contains((c1 as usize, c2 as usize)),
        forall|f: int|
            0 <= f < condensed_edges.len() ==> crate::compiler::graph::edge_between(
                nodes,
                edges,
                condensed,
                #[trigger] condensed_edges[f],
            ),
    ensures
        covers(condensed, n),
        edges_kept(edges, condensed, condensed_edges),
        edges_explained(edges, condensed, condensed_edges),
{
    assert forall|x: int| 0 <= x < n implies #[trigger] nodes[x] == x by {}
    assert forall|c: int, k: int| 0 <= c < condensed.len() && 0 <= k < condensed[c].len() implies #[trigger] condensed[c][k]
        < n by {
        lemma_numbers_contains(n, condensed[c][k]);
    }
    assert forall|x: usize| x < n implies #[trigger] crate::compiler::graph::holds_weight(condensed, x) by {
        assert(crate::compiler::graph::holds_weight(condensed, nodes[x as int]));
    }
    assert forall|e: int, c1: int, c2: int|
        0 <= e < edges.len() && 0 <= c1 < condensed.len() && 0 <= c2 < condensed.len()
            && condensed[c1].contains((#[trigger] edges[e]).0) && condensed[c2].contains(edges[e].1)
            implies #[trigger] has_edge(condensed_edges, c1 as usize, c2 as usize) by {
        let k1 = condensed[c1].index_of(edges[e].0);
        let k2 = condensed[c2].index_of(edges[e].1);
        assert(condensed[c1][k1] == nodes[edges[e].0 as int]);
        assert(condensed[c2][k2] == nodes[edges[e].1 as int]);
        assert(condensed_edges.contains((c1 as usize, c2 as usize)));
        let f = condensed_edges.index_of((c1 as usize, c2 as usize));
        assert(condensed_edges[f] == (c1 as usize, c2 as usize));
    }
    assert forall|f: int| 0 <= f < condensed_edges.len() implies explained_by(
        edges,
        condensed,
        #[trigger] condensed_edges[f],
    ) by {
        assert(crate::compiler::graph::edge_between(nodes, edges, condensed, condensed_edges[f]));
        let e = choose|e: int|
            0 <= e < edges.len() && condensed[condensed_edges[f].0 as int].contains(
                nodes[#[trigger] edges[e].0 as int],
            ) && condensed[condensed_edges[f].1 as int].contains(nodes[edges[e].1 as int]);
        assert(nodes[edges[e].0 as int] == edges[e].0);
        assert(nodes[edges[e].1 as int] == edges[e].1);
    }
}

/// A function of the list is selected exactly where it diverges
proof fn lemma_select_diverging_contains(
    functions: Seq<FunctionIndexInRootContext>,
    named: Seq<Function>,
    nodes: Map<BranchLocation, usize>,
    condensed: Seq<Seq<usize>>,
    edges: Seq<(usize, usize)>,
    f: FunctionIndexInRootContext,
)
    requires
        functions.contains(f),
    ensures
        select_diverging(functions, named, nodes, condensed, edges).contains(f) == function_diverges(
            f,
            named,
            nodes,
            condensed,
            edges,
        ),
    decreases functions.len(),
{
    let rest = functions.drop_last();
    let before = select_diverging(rest, named, nodes, condensed, edges);
    let own = if function_diverges(functions.last(), named, nodes, condensed, edges) {
        seq![functions.last()]
    } else {
        Seq::empty()
    };
    let all = select_diverging(functions, named, nodes, condensed, edges);
    assert(all == before + own);
    if rest.contains(f) {
        lemma_select_diverging_contains(rest, named, nodes, condensed, edges, f);
    } else {
        let i = functions.index_of(f);
        if i < rest.len() {
            assert(rest[i] == f);
        }
        lemma_select_diverging_subset(rest, named, nodes, condensed, edges);
        if before.contains(f) {
            let j = before.index_of(f);
            assert(rest.contains(before[j]));
        }
    }
    if all.contains(f) {
        let j = all.index_of(f);
        if j >= before.len() {
            assert(own[j - before.len()] == f);
        } else {
            assert(before[j] == f);
        }
    }
    if before.contains(f) {
        let j = before.index_of(f);
        assert(all[j] == f);
    }
    if f == functions.last() && function_diverges(f, named, nodes, condensed, edges) {
        assert(all[before.len() as int] == f);
    }
}

/// The edges of the call graph between the branches of a cluster's
/// functions
pub open spec fn cluster_call_edges(
    tree: SyntaxTree,
    calls: Set<MemberLocation>,
    cluster: Seq<FunctionIndexInRootContext>,
) -> Seq<(usize, usize)> {
    let named = tree.named_functions@;
    functions_edges(cluster, calls, named, cluster, branch_nodes(cluster_branches(cluster, named)))
}

/// The groups of branches of a cluster's functions that call each other:
/// the condensed nodes of their call graph
pub open spec fn branch_groups(
    tree: SyntaxTree,
    calls: Set<MemberLocation>,
    cluster: Seq<FunctionIndexInRootContext>,
) -> Seq<Seq<usize>> {
    let named = tree.named_functions@;
    condensation_of(
        numbers(cluster_branches(cluster, named).len()),
        cluster_call_edges(tree, calls, cluster),
        false,
    ).0
}

/// Whether a function can only recurse and never return: each of its
/// branches is trapped in the call graph of the cluster's branches
pub open spec fn only_recurses(
    tree: SyntaxTree,
    calls: Set<MemberLocation>,
    cluster: Seq<FunctionIndexInRootContext>,
    function: FunctionIndexInRootContext,
) -> bool {
    let named = tree.named_functions@;
    forall|k: int|
        0 <= k < branches_of(function, named).len() ==> trapped(
            branch_groups(tree, calls, cluster),
            cluster_call_edges(tree, calls, cluster),
            branch_nodes(cluster_branches(cluster, named))[#[trigger] branches_of(function, named)[k]],
        )
}

/// Whether all branches of a function diverge
pub open spec fn function_diverges(
    function: FunctionIndexInRootContext,
    named: Seq<Function>,
    nodes: Map<BranchLocation, usize>,
    condensed: Seq<Seq<usize>>,
    edges: Seq<(usize, usize)>,
) -> bool {
    forall|k: int|
        0 <= k < branches_of(function, named).len() ==> is_diverging(
            condensed,
            edges,
            nodes[#[trigger] branches_of(function, named)[k]],
        )
}

/// The functions, in order, that diverge
pub open spec fn select_diverging(
    functions: Seq<FunctionIndexInRootContext>,
    named: Seq<Function>,
    nodes: Map<BranchLocation, usize>,
    condensed: Seq<Seq<usize>>,
    edges: Seq<(usize, usize)>,
) -> Seq<FunctionIndexInRootContext>
    decreases functions.len(),
{
    if functions.len() == 0 {
        Seq::empty()
    } else {
        select_diverging(functions.drop_last(), named, nodes, condensed, edges) + if function_diverges(
            functions.last(),
            named,
            nodes,
            condensed,
            edges,
        ) {
            seq![functions.last()]
        } else {
            Seq::empty()
        }
    }
}

/// The divergent functions of a cluster: in the graph of calls between the
/// branches of its functions, condensed, the nodes that have edges, all of
/// them to themselves, diverge. A function diverges, where all its branches
/// do.
pub open spec fn divergent_functions(
    tree: SyntaxTree,
    calls: Set<MemberLocation>,
    cluster: Seq<FunctionIndexInRootContext>,
) -> Seq<FunctionIndexInRootContext> {
    let named = tree.named_functions@;
    let locations = cluster_branches(cluster, named);
    let nodes = branch_nodes(locations);
    let edges = functions_edges(cluster, calls, named, cluster, nodes);
    let (condensed, condensed_edges) = condensation_of(numbers(locations.len()), edges, false);
    select_diverging(cluster, named, nodes, condensed, condensed_edges)
}

/// The divergent functions of a cluster are functions of that cluster, and
/// there are no more of them than the cluster has functions
pub proof fn lemma_divergent_functions_are_in_the_cluster(
    tree: SyntaxTree,
    calls: Set<MemberLocation>,
    cluster: Seq<FunctionIndexInRootContext>,
)
    ensures
        forall|i: int|
            0 <= i < divergent_functions(tree, calls, cluster).len() ==> cluster.contains(
                #[trigger] divergent_functions(tree, calls, cluster)[i],
            ),
        divergent_functions(tree, calls, cluster).len() <= cluster.len(),
{
    let named = tree.named_functions@;
    let locations = cluster_branches(cluster, named);
    let nodes = branch_nodes(locations);
    let edges = functions_edges(cluster, calls, named, cluster, nodes);
    let (condensed, condensed_edges) = condensation_of(numbers(locations.len()), edges, false);
    lemma_select_diverging_subset(cluster, named, nodes, condensed, condensed_edges);
}

/// The functions that `select_diverging` keeps are among those it is given
proof fn lemma_select_diverging_subset(
    functions: Seq<FunctionIndexInRootContext>,
    named: Seq<Function>,
    nodes: Map<BranchLocation, usize>,
    condensed: Seq<Seq<usize>>,
    edges: Seq<(usize, usize)>,
)
    ensures
        forall|i: int|
            0 <= i < select_diverging(functions, named, nodes, condensed, edges).len()
                ==> functions.contains(
                #[trigger] select_diverging(functions, named, nodes, condensed, edges)[i],
            ),
        select_diverging(functions, named, nodes, condensed, edges).len() <= functions.len(),
    decreases functions.len(),
{
    if functions.len() > 0 {
        let shorter = functions.drop_last();
        lemma_select_diverging_subset(shorter, named, nodes, condensed, edges);
        let prefix = select_diverging(shorter, named, nodes, condensed, edges);
        let all = select_diverging(functions, named, nodes, condensed, edges);
        assert forall|i: int| 0 <= i < all.len() implies functions.contains(#[trigger] all[i]) by {
            if i < prefix.len() {
                assert(all[i] == prefix[i]);
                let k = shorter.index_of(prefix[i]);
                assert(functions[k] == shorter[k]);
            } else {
                assert(all[i] == functions.last());
                assert(functions[functions.len() - 1] == functions.last());
            }
        }
    }
}

/// Each branch location has a node, before the number of locations
proof fn lemma_branch_nodes(locations: Seq<BranchLocation>)
    ensures
        forall|i: int| 0 <= i < locations.len() ==> branch_nodes(locations).contains_key(#[trigger] locations[i]),
        forall|l: BranchLocation| #[trigger] branch_nodes(locations).contains_key(l) ==> branch_nodes(locations)[l] < locations.len(),
    decreases locations.len(),
{
    if locations.len() > 0 {
        lemma_branch_nodes(locations.drop_last());
        assert forall|i: int| 0 <= i < locations.len() implies branch_nodes(locations).contains_key(#[trigger] locations[i]) by {
            if i < locations.len() - 1 {
                assert(locations.drop_last()[i] == locations[i]);
            }
        }
        assert forall|l: BranchLocation| #[trigger] branch_nodes(locations).contains_key(l) implies branch_nodes(locations)[l] < locations.len() by {
            if l != locations.last() {
                assert(branch_nodes(locations.drop_last()).contains_key(l));
            }
        }
    }
}

/// The branches of a function of the cluster are among the cluster's
/// branches
proof fn lemma_branches_in_cluster(
    functions: Seq<FunctionIndexInRootContext>,
    named: Seq<Function>,
    f: FunctionIndexInRootContext,
    k: int,
)
    requires
        functions.contains(f),
        0 <= k < branches_of(f, named).len(),
    ensures
        cluster_branches(functions, named).contains(branches_of(f, named)[k]),
    decreases functions.len(),
{
    let prefix = cluster_branches(functions.drop_last(), named);
    let own = branches_of(functions.last(), named);
    assert(cluster_branches(functions, named) == prefix + own);
    if functions.last() == f {
        assert((prefix + own)[prefix.len() + k] == own[k]);
    } else {
        let i = functions.index_of(f);
        assert(functions.drop_last()[i] == f);
        lemma_branches_in_cluster(functions.drop_last(), named, f, k);
        let j = prefix.index_of(branches_of(f, named)[k]);
        assert((prefix + own)[j] == prefix[j]);
    }
}

/// Whether the function is among the functions
fn contains_function(functions: &Vec<FunctionIndexInRootContext>, function: FunctionIndexInRootContext) -> (result: bool)
    ensures
        result == functions@.contains(function),
{
    let mut i: usize = 0;
    while i < functions.len()
        invariant
            i <= functions@.len(),
            forall|j: int| 0 <= j < i ==> functions@[j] != function,
        decreases functions@.len() - i,
    {
        if functions[i].0 == function.0 {
            assert(functions@[i as int] == function);
            return true;
        }
        i = i + 1;
    }
    false
}

/// Add the edges from branch node `from` to each branch of the callee
fn add_call_edges(
    graph: &mut petgraph::graph::Graph<usize, ()>,
    nodes: &Table<BranchLocation, usize>,
    from: usize,
    callee: FunctionIndexInRootContext,
    syntax_tree: &SyntaxTree,
    cluster: &Vec<FunctionIndexInRootContext>,
)
    requires
        callee.0 < syntax_tree.named_functions@.len(),
        cluster@.contains(callee),
        nodes.view() == branch_nodes(cluster_branches(cluster@, syntax_tree.named_functions@)),
        graph_nodes(*old(graph)).len() == cluster_branches(cluster@, syntax_tree.named_functions@).len(),
        from < graph_nodes(*old(graph)).len(),
        graph_edges(*old(graph)).len() + branches_of(callee, syntax_tree.named_functions@).len() < u32::MAX,
    ensures
        graph_nodes(*final(graph)) == graph_nodes(*old(graph)),
        graph_edges(*final(graph)) == graph_edges(*old(graph)) + call_edges(
            from,
            callee,
            syntax_tree.named_functions@,
            nodes.view(),
        ),
{
    let ghost named = syntax_tree.named_functions@;
    let ghost locations = cluster_branches(cluster@, named);
    let ghost start = graph_edges(*graph);
    proof {
        lemma_branch_nodes(locations);
    }
    let function = &syntax_tree.named_functions[callee.0 as usize];
    let mut b: usize = 0;
    while b < function.branches.len()
        invariant
            b <= function.branches@.len(),
            *function == named[callee.0 as int],
            callee.0 < named.len(),
            cluster@.contains(callee),
            nodes.view() == branch_nodes(locations),
            locations == cluster_branches(cluster@, named),
            forall|i: int| 0 <= i < locations.len() ==> branch_nodes(locations).contains_key(#[trigger] locations[i]),
            forall|l: BranchLocation| #[trigger] branch_nodes(locations).contains_key(l) ==> branch_nodes(locations)[l] < locations.len(),
            graph_nodes(*graph) == graph_nodes(*old(graph)),
            graph_nodes(*old(graph)).len() == locations.len(),
            from < graph_nodes(*graph).len(),
            start.len() + branches_of(callee, named).len() < u32::MAX,
            graph_edges(*graph) == start + call_edges(from, callee, named, nodes.view()).take(b as int),
        decreases function.branches@.len() - b,
    {
        let location = BranchLocation {
            parent: Box::new(FunctionLocation::NamedFunction { index: callee }),
            index: function.branches[b].0,
        };
        proof {
            assert(branches_of(callee, named)[b as int] == location);
            lemma_branches_in_cluster(cluster@, named, callee, b as int);
            let i = locations.index_of(location);
            assert(locations[i] == location);
        }
        let to = match nodes.get(&location) {
            Some(to) => *to,
            None => {
                assert(false);
                0
            },
        };
        graph_add_edge(graph, from, to);
        b = b + 1;
        assert(graph_edges(*graph) =~= start + call_edges(from, callee, named, nodes.view()).take(b as int));
    }
    assert(call_edges(from, callee, named, nodes.view()).take(b as int) =~= call_edges(from, callee, named, nodes.view()));
}

/// There are no fewer edges for all members of a body than for a prefix of
/// them
proof fn lemma_body_edges_prefix(
    from: usize,
    members: Seq<(crate::compiler::location::FragmentIndexInBranchBody, Expression)>,
    j: int,
    at: BranchLocation,
    calls: Set<MemberLocation>,
    named: Seq<Function>,
    cluster: Seq<FunctionIndexInRootContext>,
    nodes: Map<BranchLocation, usize>,
)
    requires
        0 <= j <= members.len(),
    ensures
        body_edges(from, members.take(j), at, calls, named, cluster, nodes).len() <= body_edges(
            from,
            members,
            at,
            calls,
            named,
            cluster,
            nodes,
        ).len(),
    decreases members.len(),
{
    if j == members.len() {
        assert(members.take(j) =~= members);
    } else {
        let shorter = members.subrange(0, members.len() - 1);
        assert(shorter.take(j) =~= members.take(j));
        lemma_body_edges_prefix(from, shorter, j, at, calls, named, cluster, nodes);
    }
}

/// There are no fewer edges for all branches than for a prefix of them
proof fn lemma_branches_edges_prefix(
    base: int,
    function: FunctionIndexInRootContext,
    branches: Seq<(BranchIndex, Branch)>,
    k: int,
    calls: Set<MemberLocation>,
    named: Seq<Function>,
    cluster: Seq<FunctionIndexInRootContext>,
    nodes: Map<BranchLocation, usize>,
)
    requires
        0 <= k <= branches.len(),
    ensures
        branches_edges(base, function, branches.take(k), calls, named, cluster, nodes).len()
            <= branches_edges(base, function, branches, calls, named, cluster, nodes).len(),
    decreases branches.len(),
{
    if k == branches.len() {
        assert(branches.take(k) =~= branches);
    } else {
        let shorter = branches.drop_last();
        assert(shorter.take(k) =~= branches.take(k));
        lemma_branches_edges_prefix(base, function, shorter, k, calls, named, cluster, nodes);
    }
}

/// There are no fewer edges for all functions than for a prefix of them
proof fn lemma_functions_edges_prefix(
    functions: Seq<FunctionIndexInRootContext>,
    i: int,
    calls: Set<MemberLocation>,
    named: Seq<Function>,
    cluster: Seq<FunctionIndexInRootContext>,
    nodes: Map<BranchLocation, usize>,
)
    requires
        0 <= i <= functions.len(),
    ensures
        functions_edges(functions.take(i), calls, named, cluster, nodes).len() <= functions_edges(
            functions,
            calls,
            named,
            cluster,
            nodes,
        ).len(),
    decreases functions.len(),
{
    if i == functions.len() {
        assert(functions.take(i) =~= functions);
    } else {
        let shorter = functions.drop_last();
        assert(shorter.take(i) =~= functions.take(i));
        lemma_functions_edges_prefix(shorter, i, calls, named, cluster, nodes);
    }
}

/// Add the edges for the members of a branch body
fn add_body_edges(
    graph: &mut petgraph::graph::Graph<usize, ()>,
    nodes: &Table<BranchLocation, usize>,
    from: usize,
    branch: &Branch,
    at: &BranchLocation,
    syntax_tree: &SyntaxTree,
    function_calls: &FunctionCalls,
    cluster: &Vec<FunctionIndexInRootContext>,
)
    requires
        syntax_tree.named_functions@.len() <= u32::MAX,
        forall|i: int| 0 <= i < cluster@.len() ==> (#[trigger] cluster@[i]).0 < syntax_tree.named_functions@.len(),
        nodes.view() == branch_nodes(cluster_branches(cluster@, syntax_tree.named_functions@)),
        graph_nodes(*old(graph)).len() == cluster_branches(cluster@, syntax_tree.named_functions@).len(),
        from < graph_nodes(*old(graph)).len(),
        graph_edges(*old(graph)).len() + body_edges(
            from,
            branch.body@,
            *at,
            function_calls.view().user_defined,
            syntax_tree.named_functions@,
            cluster@,
            nodes.view(),
        ).len() < u32::MAX,
    ensures
        graph_nodes(*final(graph)) == graph_nodes(*old(graph)),
        graph_edges(*final(graph)) == graph_edges(*old(graph)) + body_edges(
            from,
            branch.body@,
            *at,
            function_calls.view().user_defined,
            syntax_tree.named_functions@,
            cluster@,
            nodes.view(),
        ),
{
    let ghost named = syntax_tree.named_functions@;
    let ghost calls = function_calls.view().user_defined;
    let ghost start = graph_edges(*graph);
    let ghost total = body_edges(from, branch.body@, *at, calls, named, cluster@, nodes.view());
    let mut j: usize = 0;
    while j < branch.body.len()
        invariant
            j <= branch.body@.len(),
            named == syntax_tree.named_functions@,
            calls == function_calls.view().user_defined,
            named.len() <= u32::MAX,
            forall|i: int| 0 <= i < cluster@.len() ==> (#[trigger] cluster@[i]).0 < named.len(),
            graph_nodes(*graph) == graph_nodes(*old(graph)),
            graph_nodes(*old(graph)).len() == cluster_branches(cluster@, named).len(),
            nodes.view() == branch_nodes(cluster_branches(cluster@, named)),
            from < graph_nodes(*graph).len(),
            start.len() + total.len() < u32::MAX,
            total == body_edges(from, branch.body@, *at, calls, named, cluster@, nodes.view()),
            graph_edges(*graph) == start + body_edges(
                from,
                branch.body@.take(j as int),
                *at,
                calls,
                named,
                cluster@,
                nodes.view(),
            ),
        decreases branch.body@.len() - j,
    {
        let member = &branch.body[j];
        let location = MemberLocation { parent: Box::new(copy_branch(at)), index: member.0 };
        let ghost taken = branch.body@.take(j + 1);
        proof {
            assert(taken.subrange(0, j as int) =~= branch.body@.take(j as int));
            assert(member_location(*at, taken, j as int) == location);
            lemma_body_edges_prefix(from, branch.body@, j + 1, *at, calls, named, cluster@, nodes.view());
        }
        let mut callee: Option<FunctionIndexInRootContext> = None;
        if let Expression::Identifier { name } = &member.1 {
            if function_calls.is_call_to_user_defined_function(&location) {
                if let Some(index) = syntax_tree.function_by_name(name.as_str()) {
                    if contains_function(cluster, index) {
                        callee = Some(index);
                    }
                }
            }
        }
        proof {
            assert(callee == recursive_callee((location, member.1), calls, named, cluster@)) by {
                if let Expression::Identifier { name } = member.1 {
                    if calls.contains(location) && has_function_named(named, name@) {
                        let k = first_function_named(named, name@);
                        assert(0 <= k < named.len());
                    }
                }
            }
        }
        match callee {
            Some(callee) => {
                add_call_edges(graph, nodes, from, callee, syntax_tree, cluster);
            },
            None => {},
        }
        j = j + 1;
        assert(graph_edges(*graph) =~= start + body_edges(
            from,
            branch.body@.take(j as int),
            *at,
            calls,
            named,
            cluster@,
            nodes.view(),
        ));
    }
    assert(branch.body@.take(j as int) =~= branch.body@);
}

/// An element is among the first `x + 1` elements, where it is among the
/// first `x`, or the next one
proof fn lemma_take_contains_step(s: Seq<usize>, x: int, v: usize)
    requires
        0 <= x < s.len(),
    ensures
        s.take(x + 1).contains(v) == (s.take(x).contains(v) || s[x] == v),
{
    if s.take(x + 1).contains(v) {
        let y = s.take(x + 1).index_of(v);
        if y < x {
            assert(s.take(x)[y] == v);
        }
    }
    if s.take(x).contains(v) {
        let y = s.take(x).index_of(v);
        assert(s.take(x + 1)[y] == v);
    }
    if s[x] == v {
        assert(s.take(x + 1)[x] == v);
    }
}

/// A number among `0` to `n - 1` is below `n`
proof fn lemma_numbers_contains(n: nat, v: usize)
    requires
        numbers(n).contains(v),
    ensures
        v < n,
{
    let i = numbers(n).index_of(v);
    assert(numbers(n)[i] == v);
}

/// The nodes of the branch call graph: the branches of the cluster's
/// functions, each with its position as its weight
fn branch_graph_nodes(syntax_tree: &SyntaxTree, cluster: &Vec<FunctionIndexInRootContext>) -> (result: (
    petgraph::graph::Graph<usize, ()>,
    Table<BranchLocation, usize>,
))
    requires
        forall|i: int| 0 <= i < cluster@.len() ==> (#[trigger] cluster@[i]).0 < syntax_tree.named_functions@.len(),
        cluster_branches(cluster@, syntax_tree.named_functions@).len() < u32::MAX,
    ensures
        graph_nodes(result.0) == numbers(cluster_branches(cluster@, syntax_tree.named_functions@).len()),
        graph_edges(result.0) == Seq::<(usize, usize)>::empty(),
        result.1.view() == branch_nodes(cluster_branches(cluster@, syntax_tree.named_functions@)),
{
    let ghost named = syntax_tree.named_functions@;
    let ghost cf = cluster@;
    let ghost all = cluster_branches(cf, named);
    let mut graph = graph_new();
    let mut nodes: Table<BranchLocation, usize> = Table::new();
    let mut locations: Vec<BranchLocation> = Vec::new();
    let mut i: usize = 0;
    assert(cluster_branches(cf.take(0), named) =~= Seq::<BranchLocation>::empty());
    assert(graph_nodes(graph) =~= numbers(0));
    while i < cluster.len()
        invariant
            i <= cf.len(),
            cf == cluster@,
            named == syntax_tree.named_functions@,
            forall|x: int| 0 <= x < cf.len() ==> (#[trigger] cf[x]).0 < named.len(),
            all == cluster_branches(cf, named),
            all.len() < u32::MAX,
            locations@ == cluster_branches(cf.take(i as int), named),
            locations@.len() <= all.len(),
            graph_nodes(graph) == numbers(locations@.len()),
            graph_edges(graph) == Seq::<(usize, usize)>::empty(),
            nodes.view() == branch_nodes(locations@),
        decreases cf.len() - i,
    {
        let f = cluster[i];
        let function = &syntax_tree.named_functions[f.0 as usize];
        let ghost before = locations@;
        proof {
            let taken = cf.take(i + 1);
            assert(taken.drop_last() =~= cf.take(i as int));
            lemma_cluster_branches_prefix(cf, named, i + 1);
        }
        let mut k: usize = 0;
        while k < function.branches.len()
            invariant
                k <= function.branches@.len(),
                *function == named[f.0 as int],
                before + branches_of(f, named) == cluster_branches(cf.take(i + 1), named),
                cluster_branches(cf.take(i + 1), named).len() <= all.len(),
                all.len() < u32::MAX,
                locations@ == before + branches_of(f, named).take(k as int),
                graph_nodes(graph) == numbers(locations@.len()),
                graph_edges(graph) == Seq::<(usize, usize)>::empty(),
                nodes.view() == branch_nodes(locations@),
            decreases function.branches@.len() - k,
        {
            let location = BranchLocation {
                parent: Box::new(FunctionLocation::NamedFunction { index: f }),
                index: function.branches[k].0,
            };
            assert(branches_of(f, named)[k as int] == location);
            let ghost old_locations = locations@;
            let node = graph_add_node(&mut graph, locations.len());
            nodes.insert(copy_branch(&location), node);
            locations.push(location);
            proof {
                assert(locations@.drop_last() =~= old_locations);
                assert(graph_nodes(graph) =~= numbers(locations@.len()));
                assert(branch_nodes(locations@) == branch_nodes(old_locations).insert(location, node));
            }
            k = k + 1;
            assert(locations@ =~= before + branches_of(f, named).take(k as int));
        }
        assert(branches_of(f, named).take(k as int) =~= branches_of(f, named));
        i = i + 1;
    }
    assert(cf.take(i as int) =~= cf);
    (graph, nodes)
}

/// Add the edges of the branch call graph
fn add_cluster_edges(
    graph: &mut petgraph::graph::Graph<usize, ()>,
    nodes: &Table<BranchLocation, usize>,
    syntax_tree: &SyntaxTree,
    function_calls: &FunctionCalls,
    cluster: &Vec<FunctionIndexInRootContext>,
)
    requires
        syntax_tree.named_functions@.len() <= u32::MAX,
        forall|i: int| 0 <= i < cluster@.len() ==> (#[trigger] cluster@[i]).0 < syntax_tree.named_functions@.len(),
        nodes.view() == branch_nodes(cluster_branches(cluster@, syntax_tree.named_functions@)),
        graph_nodes(*old(graph)) == numbers(cluster_branches(cluster@, syntax_tree.named_functions@).len()),
        graph_edges(*old(graph)) == Seq::<(usize, usize)>::empty(),
        cluster_branches(cluster@, syntax_tree.named_functions@).len() < u32::MAX,
        functions_edges(
            cluster@,
            function_calls.view().user_defined,
            syntax_tree.named_functions@,
            cluster@,
            nodes.view(),
        ).len() < u32::MAX,
    ensures
        graph_nodes(*final(graph)) == graph_nodes(*old(graph)),
        graph_edges(*final(graph)) == functions_edges(
            cluster@,
            function_calls.view().user_defined,
            syntax_tree.named_functions@,
            cluster@,
            nodes.view(),
        ),
{
    let ghost named = syntax_tree.named_functions@;
    let ghost calls = function_calls.view().user_defined;
    let ghost cf = cluster@;
    let ghost all = cluster_branches(cf, named);
    let ghost node_map = nodes.view();
    let ghost total = functions_edges(cf, calls, named, cf, node_map);
    let mut from: usize = 0;
    let mut i: usize = 0;
    assert(functions_edges(cf.take(0), calls, named, cf, node_map) =~= Seq::<(usize, usize)>::empty());
    assert(cluster_branches(cf.take(0), named) =~= Seq::<BranchLocation>::empty());
    while i < cluster.len()
        invariant
            i <= cf.len(),
            cf == cluster@,
            named == syntax_tree.named_functions@,
            calls == function_calls.view().user_defined,
            named.len() <= u32::MAX,
            forall|x: int| 0 <= x < cf.len() ==> (#[trigger] cf[x]).0 < named.len(),
            all == cluster_branches(cf, named),
            all.len() < u32::MAX,
            node_map == nodes.view(),
            node_map == branch_nodes(all),
            graph_nodes(*graph) == graph_nodes(*old(graph)),
            graph_nodes(*old(graph)).len() == all.len(),
            from == cluster_branches(cf.take(i as int), named).len(),
            from <= all.len(),
            total == functions_edges(cf, calls, named, cf, node_map),
            total.len() < u32::MAX,
            graph_edges(*graph) == functions_edges(cf.take(i as int), calls, named, cf, node_map),
        decreases cf.len() - i,
    {
        let f = cluster[i];
        let function = &syntax_tree.named_functions[f.0 as usize];
        let ghost base = from as int;
        let ghost prefix_edges = functions_edges(cf.take(i as int), calls, named, cf, node_map);
        proof {
            let taken = cf.take(i + 1);
            assert(taken.drop_last() =~= cf.take(i as int));
            lemma_functions_edges_prefix(cf, i + 1, calls, named, cf, node_map);
            lemma_cluster_branches_prefix(cf, named, i + 1);
            assert(cluster_branches(taken, named) == cluster_branches(cf.take(i as int), named) + branches_of(f, named));
        }
        let mut k: usize = 0;
        assert(function.branches@.take(0) =~= Seq::<(BranchIndex, Branch)>::empty());
        while k < function.branches.len()
            invariant
                k <= function.branches@.len(),
                *function == named[f.0 as int],
                named == syntax_tree.named_functions@,
                calls == function_calls.view().user_defined,
                cf == cluster@,
                named.len() <= u32::MAX,
                forall|x: int| 0 <= x < cf.len() ==> (#[trigger] cf[x]).0 < named.len(),
                node_map == nodes.view(),
                node_map == branch_nodes(all),
                all == cluster_branches(cf, named),
                graph_nodes(*graph) == graph_nodes(*old(graph)),
                graph_nodes(*old(graph)).len() == all.len(),
                all.len() < u32::MAX,
                base + function.branches@.len() <= all.len(),
                from == base + k,
                prefix_edges.len() + branches_edges(base, f, function.branches@, calls, named, cf, node_map).len()
                    <= total.len(),
                total.len() < u32::MAX,
                graph_edges(*graph) == prefix_edges + branches_edges(
                    base,
                    f,
                    function.branches@.take(k as int),
                    calls,
                    named,
                    cf,
                    node_map,
                ),
            decreases function.branches@.len() - k,
        {
            let branch = &function.branches[k];
            let at = BranchLocation {
                parent: Box::new(FunctionLocation::NamedFunction { index: f }),
                index: branch.0,
            };
            proof {
                let taken = function.branches@.take(k + 1);
                assert(taken.drop_last() =~= function.branches@.take(k as int));
                lemma_branches_edges_prefix(base, f, function.branches@, k + 1, calls, named, cf, node_map);
            }
            add_body_edges(graph, nodes, from, &branch.1, &at, syntax_tree, function_calls, cluster);
            from = from + 1;
            k = k + 1;
        }
        assert(function.branches@.take(k as int) =~= function.branches@);
        proof {
            let taken = cf.take(i + 1);
            assert(cluster_branches(taken, named) == cluster_branches(cf.take(i as int), named) + branches_of(f, named));
        }
        i = i + 1;
    }
    assert(cf.take(i as int) =~= cf);
}

/// Which branch nodes are part of a condensed node whose edges all lead back
/// to itself
fn diverging_branches(condensed: &petgraph::graph::Graph<Vec<usize>, ()>, count: usize) -> (result: Vec<bool>)
    requires
        forall|a: int, w: int|
            0 <= a < condensed_nodes(*condensed).len() && 0 <= w < condensed_nodes(*condensed)[a].len()
                ==> numbers(count as nat).contains(#[trigger] condensed_nodes(*condensed)[a][w]),
    ensures
        result@.len() == count,
        condensed_nodes(*condensed).len() <= usize::MAX,
        forall|w: int|
            0 <= w < count ==> result@[w] == is_diverging(
                condensed_nodes(*condensed),
                crate::compiler::graph::condensed_edges(*condensed),
                w as usize,
            ),
{
    let ghost nodes = condensed_nodes(*condensed);
    let ghost edges = crate::compiler::graph::condensed_edges(*condensed);
    let mut diverging: Vec<bool> = Vec::new();
    let mut n: usize = 0;
    while n < count
        invariant
            n <= count,
            diverging@.len() == n,
            forall|w: int| 0 <= w < n ==> !diverging@[w],
        decreases count - n,
    {
        diverging.push(false);
        n = n + 1;
    }
    let node_count = condensed_node_count(condensed);
    let mut c: usize = 0;
    while c < node_count
        invariant
            c <= node_count,
            node_count == nodes.len(),
            nodes == condensed_nodes(*condensed),
            edges == crate::compiler::graph::condensed_edges(*condensed),
            diverging@.len() == count,
            forall|a: int, w: int|
                0 <= a < nodes.len() && 0 <= w < nodes[a].len() ==> numbers(count as nat).contains(
                    #[trigger] nodes[a][w],
                ),
            forall|w: int|
                0 <= w < count ==> diverging@[w] == exists|d: int|
                    0 <= d < c && diverges(edges, d as usize) && (#[trigger] nodes[d]).contains(w as usize),
        decreases node_count - c,
    {
        let targets = condensed_outgoing(condensed, c);
        let ghost outgoing = outgoing_targets(edges, c);
        let mut all_to_itself = true;
        let mut t: usize = 0;
        while t < targets.len()
            invariant
                t <= targets@.len(),
                targets@ == outgoing.reverse(),
                all_to_itself == forall|x: int| 0 <= x < t ==> targets@[x] == c,
            decreases targets@.len() - t,
        {
            if targets[t] != c {
                all_to_itself = false;
            }
            t = t + 1;
        }
        let node_diverges = targets.len() > 0 && all_to_itself;
        proof {
            assert(targets@.len() == outgoing.len());
            if all_to_itself {
                assert forall|x: int| 0 <= x < outgoing.len() implies outgoing[x] == c by {
                    assert(targets@[outgoing.len() - 1 - x] == outgoing[x]);
                }
            } else {
                let x = choose|x: int| 0 <= x < targets@.len() && targets@[x] != c;
                assert(outgoing[outgoing.len() - 1 - x] == targets@[x]);
            }
            assert(node_diverges == diverges(edges, c));
        }
        let ghost before = diverging@;
        if node_diverges {
            let weights = match condensed_node_weight(condensed, c) {
                Some(weights) => weights,
                None => {
                    assert(false);
                    Vec::new()
                },
            };
            proof {
                assert forall|y: int| 0 <= y < weights@.len() implies weights@[y] < count by {
                    assert(numbers(count as nat).contains(nodes[c as int][y]));
                    lemma_numbers_contains(count as nat, nodes[c as int][y]);
                }
            }
            let mut x: usize = 0;
            while x < weights.len()
                invariant
                    x <= weights@.len(),
                    c < nodes.len(),
                    weights@ == nodes[c as int],
                    diverging@.len() == count,
                    before.len() == count,
                    forall|y: int| 0 <= y < weights@.len() ==> weights@[y] < count,
                    forall|w: int|
                        0 <= w < count ==> diverging@[w] == (before[w] || weights@.take(x as int).contains(
                            w as usize,
                        )),
                decreases weights@.len() - x,
            {
                let ghost prior = diverging@;
                assert(forall|w: int| 0 <= w < count ==> prior[w] == (before[w] || weights@.take(x as int).contains(
                    w as usize,
                )));
                let index = weights[x];
                diverging.set(index, true);
                assert(diverging@ == prior.update(index as int, true));
                proof {
                    assert forall|w: int| 0 <= w < count implies diverging@[w] == (before[w] || weights@.take(
                        x + 1,
                    ).contains(w as usize)) by {
                        lemma_take_contains_step(weights@, x as int, w as usize);
                        if w != index as int {
                            assert(diverging@[w] == prior[w]);
                            assert(prior[w] == (before[w] || weights@.take(x as int).contains(w as usize)));
                        } else {
                            assert(diverging@[w]);
                            assert(weights@[x as int] == w as usize);
                        }
                    }
                }
                x = x + 1;
            }
            proof {
                assert(weights@.take(x as int) =~= nodes[c as int]);
                assert forall|w: int| 0 <= w < count implies diverging@[w] == (before[w] || nodes[c as int].contains(
                    w as usize,
                )) by {
                    assert(diverging@[w] == (before[w] || weights@.take(x as int).contains(w as usize)));
                }
            }
        }
        proof {
            assert forall|w: int| 0 <= w < count implies diverging@[w] == (before[w] || (node_diverges
                && nodes[c as int].contains(w as usize))) by {}
            assert forall|w: int| 0 <= w < count implies diverging@[w] == exists|d: int|
                0 <= d < c + 1 && diverges(edges, d as usize) && (#[trigger] nodes[d]).contains(w as usize) by {
                let old_exists = exists|d: int|
                    0 <= d < c && diverges(edges, d as usize) && (#[trigger] nodes[d]).contains(w as usize);
                assert(before[w] == old_exists);
                if diverging@[w] {
                    if old_exists {
                        let d = choose|d: int|
                            0 <= d < c && diverges(edges, d as usize) && (#[trigger] nodes[d]).contains(w as usize);
                        assert(0 <= d < c + 1 && diverges(edges, d as usize) && nodes[d].contains(w as usize));
                    } else {
                        assert(0 <= c < c + 1 && diverges(edges, c) && nodes[c as int].contains(w as usize));
                    }
                }
                if exists|d: int| 0 <= d < c + 1 && diverges(edges, d as usize) && (#[trigger] nodes[d]).contains(w as usize) {
                    let d = choose|d: int| 0 <= d < c + 1 && diverges(edges, d as usize) && (#[trigger] nodes[d]).contains(w as usize);
                    if d < c {
                        assert(old_exists);
                    } else {
                        assert(node_diverges);
                    }
                }
            }
        }
        c = c + 1;
    }
    diverging
}

/// # Find the divergent functions of a cluster
///
/// Each function of the cluster must be a named function of the syntax
/// tree. Graphs have at most `u32::MAX` nodes and edges.
pub fn find_divergent_functions(
    syntax_tree: &SyntaxTree,
    function_calls: &FunctionCalls,
    cluster: &Cluster,
) -> (result: Vec<FunctionIndexInRootContext>)
    requires
        syntax_tree.named_functions@.len() <= u32::MAX,
        forall|i: int|
            0 <= i < cluster.functions@.len() ==> (#[trigger] cluster.functions@[i]).0
                < syntax_tree.named_functions@.len(),
        cluster_branches(cluster.functions@, syntax_tree.named_functions@).len() < u32::MAX,
        functions_edges(
            cluster.functions@,
            function_calls.view().user_defined,
            syntax_tree.named_functions@,
            cluster.functions@,
            branch_nodes(cluster_branches(cluster.functions@, syntax_tree.named_functions@)),
        ).len() < u32::MAX,
    ensures
        result@ == divergent_functions(*syntax_tree, function_calls.view().user_defined, cluster.functions@),
        forall|i: int|
            0 <= i < cluster.functions@.len() ==> result@.contains(cluster.functions@[i]) == only_recurses(
                *syntax_tree,
                function_calls.view().user_defined,
                cluster.functions@,
                #[trigger] cluster.functions@[i],
            ),
        forall|x: usize, y: usize|
            x < cluster_branches(cluster.functions@, syntax_tree.named_functions@).len() && y
                < cluster_branches(cluster.functions@, syntax_tree.named_functions@).len() ==> #[trigger] same_component(
                branch_groups(*syntax_tree, function_calls.view().user_defined, cluster.functions@),
                x,
                y,
            ) == (reaches(
                cluster_call_edges(*syntax_tree, function_calls.view().user_defined, cluster.functions@),
                x,
                y,
            ) && reaches(
                cluster_call_edges(*syntax_tree, function_calls.view().user_defined, cluster.functions@),
                y,
                x,
            )),
        forall|i: int, k: int|
            0 <= i < cluster.functions@.len() && 0 <= k < branches_of(
                cluster.functions@[i],
                syntax_tree.named_functions@,
            ).len() && makes_no_call(
                cluster_call_edges(*syntax_tree, function_calls.view().user_defined, cluster.functions@),
                branch_nodes(cluster_branches(cluster.functions@, syntax_tree.named_functions@))[#[trigger] branches_of(
                    cluster.functions@[i],
                    syntax_tree.named_functions@,
                )[k]],
            ) ==> !result@.contains(cluster.functions@[i]),
{
    let ghost named = syntax_tree.named_functions@;
    let functions = &cluster.functions;
    let ghost cf = functions@;
    let ghost all = cluster_branches(cf, named);
    let (mut graph, nodes) = branch_graph_nodes(syntax_tree, functions);
    let ghost node_map = nodes.view();
    add_cluster_edges(&mut graph, &nodes, syntax_tree, function_calls, functions);
    let count = all_len(syntax_tree, functions);
    let ghost graph_nodes_view = graph_nodes(graph);
    let ghost graph_edges_view = graph_edges(graph);
    proof {
        assert(crate::compiler::graph::distinct_weights(graph_nodes_view));
    }
    let condensed = graph_condensation(graph, false);
    let ghost condensed_view = condensed_nodes(condensed);
    let ghost condensed_edges_view = crate::compiler::graph::condensed_edges(condensed);
    let diverging = diverging_branches(&condensed, count);
    let mut result: Vec<FunctionIndexInRootContext> = Vec::new();
    let mut i: usize = 0;
    proof {
        lemma_branch_nodes(all);
    }
    assert(cf.take(0) =~= Seq::<FunctionIndexInRootContext>::empty());
    while i < functions.len()
        invariant
            i <= cf.len(),
            cf == functions@,
            named == syntax_tree.named_functions@,
            forall|x: int| 0 <= x < cf.len() ==> (#[trigger] cf[x]).0 < named.len(),
            all == cluster_branches(cf, named),
            node_map == branch_nodes(all),
            nodes.view() == node_map,
            count == all.len(),
            forall|x: int| 0 <= x < all.len() ==> branch_nodes(all).contains_key(#[trigger] all[x]),
            forall|l: BranchLocation| #[trigger] branch_nodes(all).contains_key(l) ==> branch_nodes(all)[l] < all.len(),
            diverging@.len() == count,
            forall|w: int|
                0 <= w < count ==> diverging@[w] == is_diverging(condensed_view, condensed_edges_view, w as usize),
            result@ == select_diverging(cf.take(i as int), named, node_map, condensed_view, condensed_edges_view),
        decreases cf.len() - i,
    {
        let f = functions[i];
        let function = &syntax_tree.named_functions[f.0 as usize];
        let mut every: bool = true;
        let mut k: usize = 0;
        while k < function.branches.len()
            invariant
                k <= function.branches@.len(),
                *function == named[f.0 as int],
                i < cf.len(),
                f == cf[i as int],
                cf == functions@,
                all == cluster_branches(cf, named),
                node_map == branch_nodes(all),
                nodes.view() == node_map,
                count == all.len(),
                forall|x: int| 0 <= x < all.len() ==> branch_nodes(all).contains_key(#[trigger] all[x]),
                forall|l: BranchLocation| #[trigger] branch_nodes(all).contains_key(l) ==> branch_nodes(all)[l] < all.len(),
                diverging@.len() == count,
                forall|w: int|
                    0 <= w < count ==> diverging@[w] == is_diverging(condensed_view, condensed_edges_view, w as usize),
                every == forall|y: int|
                    0 <= y < k ==> is_diverging(condensed_view, condensed_edges_view, node_map[#[trigger] branches_of(f, named)[y]]),
            decreases function.branches@.len() - k,
        {
            let location = BranchLocation {
                parent: Box::new(FunctionLocation::NamedFunction { index: f }),
                index: function.branches[k].0,
            };
            proof {
                assert(branches_of(f, named)[k as int] == location);
                assert(cf.contains(f));
                lemma_branches_in_cluster(cf, named, f, k as int);
                let x = all.index_of(location);
                assert(all[x] == location);
            }
            let node = match nodes.get(&location) {
                Some(node) => *node,
                None => {
                    assert(false);
                    0
                },
            };
            if !diverging[node] {
                every = false;
            }
            k = k + 1;
        }
        proof {
            let taken = cf.take(i + 1);
            assert(taken.drop_last() =~= cf.take(i as int));
        }
        if every {
            result.push(f);
        }
        i = i + 1;
    }
    assert(cf.take(i as int) =~= cf);
    proof {
        let calls = function_calls.view().user_defined;
        lemma_cluster_branches_prefix(cf, named, cf.len() as int);
        assert(cf.take(cf.len() as int) =~= cf);
        lemma_functions_edges_within(cf, calls, named, cf);
        assert(unique_weights(condensed_view));
        lemma_condensation_shape(
            all.len(),
            graph_nodes_view,
            graph_edges_view,
            condensed_view,
            condensed_edges_view,
        );
        assert forall|x: int|
            0 <= x < cf.len() implies result@.contains(cf[x]) == only_recurses(
            *syntax_tree,
            calls,
            cf,
            #[trigger] cf[x],
        ) by {
            let f = cf[x];
            lemma_select_diverging_contains(cf, named, node_map, condensed_view, condensed_edges_view, f);
            assert forall|k: int| 0 <= k < branches_of(f, named).len() implies is_diverging(
                condensed_view,
                condensed_edges_view,
                node_map[#[trigger] branches_of(f, named)[k]],
            ) == trapped(condensed_view, graph_edges_view, node_map[branches_of(f, named)[k]]) by {
                lemma_branches_in_cluster(cf, named, f, k);
                let y = all.index_of(branches_of(f, named)[k]);
                assert(all[y] == branches_of(f, named)[k]);
                lemma_diverging_is_trapped(
                    all.len(),
                    graph_edges_view,
                    condensed_view,
                    condensed_edges_view,
                    node_map[branches_of(f, named)[k]],
                );
            }
        }
        assert forall|x: int| 0 <= x < all.len() implies #[trigger] graph_nodes_view[x] == x by {}
        assert forall|x: usize, y: usize| x < all.len() && y < all.len() implies #[trigger] same_component(
            condensed_view,
            x,
            y,
        ) == (reaches(graph_edges_view, x, y) && reaches(graph_edges_view, y, x)) by {
            assert(graph_nodes_view[x as int] == x);
            assert(graph_nodes_view[y as int] == y);
            assert(crate::compiler::graph::together(condensed_view, graph_nodes_view[x as int], graph_nodes_view[y as int])
                == (reaches(graph_edges_view, x, y) && reaches(graph_edges_view, y, x)));
        }
        assert forall|i: int, k: int|
            0 <= i < cf.len() && 0 <= k < branches_of(cf[i], named).len() && makes_no_call(
                graph_edges_view,
                node_map[#[trigger] branches_of(cf[i], named)[k]],
            ) implies !result@.contains(cf[i]) by {
            let f = cf[i];
            let w = node_map[branches_of(f, named)[k]];
            lemma_branches_in_cluster(cf, named, f, k);
            let y = all.index_of(branches_of(f, named)[k]);
            assert(all[y] == branches_of(f, named)[k]);
            assert(w < all.len());
            if result@.contains(f) {
                assert(only_recurses(*syntax_tree, calls, cf, cf[i]));
                assert(trapped(condensed_view, graph_edges_view, w));
                let e = choose|e: int| 0 <= e < graph_edges_view.len() && same_component(condensed_view, w, (#[trigger] graph_edges_view[e]).0);
                let s0 = graph_edges_view[e].0;
                assert(s0 < all.len());
                assert(same_component(condensed_view, w, s0));
                lemma_no_call_reaches_only_itself(graph_edges_view, w, s0);
            }
        }
    }
    result
}

/// Whether no edge starts at a node: its branch makes no recursive call
pub open spec fn makes_no_call(edges: Seq<(usize, usize)>, node: usize) -> bool {
    forall|e: int| 0 <= e < edges.len() ==> (#[trigger] edges[e]).0 != node
}

/// From a node that no edge starts at, no path leads anywhere else
proof fn lemma_no_call_reaches_only_itself(edges: Seq<(usize, usize)>, from: usize, to: usize)
    requires
        makes_no_call(edges, from),
        reaches(edges, from, to),
    ensures
        from == to,
{
    let path = choose|path: Seq<usize>|
        path.len() > 0 && path[0] == from && path.last() == to && forall|i: int|
            0 <= i < path.len() - 1 ==> #[trigger] has_edge(edges, path[i], path[i + 1]);
    if path.len() > 1 {
        let i: int = 0;
        assert(has_edge(edges, path[i], path[i + 1]));
        assert(path[i + 1] == path[1]);
        let f = choose|f: int| 0 <= f < edges.len() && edges[f].0 == path[0] && edges[f].1 == path[1];
        assert(edges[f].0 != from);
    }
}

/// The number of branches of the functions of a cluster
fn all_len(syntax_tree: &SyntaxTree, cluster: &Vec<FunctionIndexInRootContext>) -> (result: usize)
    requires
        forall|i: int| 0 <= i < cluster@.len() ==> (#[trigger] cluster@[i]).0 < syntax_tree.named_functions@.len(),
        cluster_branches(cluster@, syntax_tree.named_functions@).len() < u32::MAX,
    ensures
        result == cluster_branches(cluster@, syntax_tree.named_functions@).len(),
{
    let ghost named = syntax_tree.named_functions@;
    let ghost cf = cluster@;
    let mut count: usize = 0;
    let mut i: usize = 0;
    assert(cluster_branches(cf.take(0), named) =~= Seq::<BranchLocation>::empty());
    while i < cluster.len()
        invariant
            i <= cf.len(),
            cf == cluster@,
            named == syntax_tree.named_functions@,
            forall|x: int| 0 <= x < cf.len() ==> (#[trigger] cf[x]).0 < named.len(),
            cluster_branches(cf, named).len() < u32::MAX,
            count == cluster_branches(cf.take(i as int), named).len(),
        decreases cf.len() - i,
    {
        proof {
            let taken = cf.take(i + 1);
            assert(taken.drop_last() =~= cf.take(i as int));
            lemma_cluster_branches_prefix(cf, named, i + 1);
        }
        count = count + syntax_tree.named_functions[cluster[i].0 as usize].branches.len();
        i = i + 1;
    }
    assert(cf.take(i as int) =~= cf);
    count
}

/// The branches of a prefix of the functions are a prefix of the branches
/// of all of them
proof fn lemma_cluster_branches_prefix(
    functions: Seq<FunctionIndexInRootContext>,
    named: Seq<Function>,
    i: int,
)
    requires
        0 <= i <= functions.len(),
    ensures
        cluster_branches(functions.take(i), named).len() <= cluster_branches(functions, named).len(),
    decreases functions.len(),
{
    if i == functions.len() {
        assert(functions.take(i) =~= functions);
    } else {
        let shorter = functions.drop_last();
        assert(shorter.take(i) =~= functions.take(i));
        lemma_cluster_branches_prefix(shorter, named, i);
    }
}

} // verus!
