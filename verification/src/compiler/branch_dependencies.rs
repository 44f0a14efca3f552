//! Resolving the dependencies between the branches of a group of functions:
//! which branches call which, grouped into clusters of branches that depend
//! on each other, from the callers down.

use vstd::prelude::*;

use crate::compiler::dependencies::{
    cluster_nodes, clusters_in_order, dependee, lemma_clusters_in_order, numbers,
};
use crate::compiler::function_calls::FunctionCalls;
use crate::compiler::graph::{
    condensation_of, condensed_node_weight, condensed_nodes, graph_add_edge, graph_add_node,
    graph_condensation, graph_edges, graph_new, graph_nodes, graph_toposort, toposort_of,
};
use crate::compiler::location::{
    copy_branch, copy_function, copy_member, same_function, BranchIndex, BranchLocation,
    FragmentIndexInBranchBody, FunctionLocation, MemberLocation,
};
use crate::compiler::syntax::{
    first_function_named, function_at, has_function_named, member_location, Branch, Expression,
    Function, SyntaxTree,
};
use crate::compiler::table::Table;

verus! {

/// The locations of the branches of a function
pub open spec fn function_branches(location: FunctionLocation, function: Function) -> Seq<BranchLocation> {
    function.branches@.map_values(
        |b: (BranchIndex, Branch)| BranchLocation { parent: Box::new(location), index: b.0 },
    )
}

/// The locations of the branches of the functions, function by function:
/// the nodes of the dependency graph
pub open spec fn branch_locations(functions: Seq<(FunctionLocation, Function)>) -> Seq<BranchLocation>
    decreases functions.len(),
{
    if functions.len() == 0 {
        Seq::empty()
    } else {
        branch_locations(functions.drop_last()) + function_branches(
            functions.last().0,
            functions.last().1,
        )
    }
}

/// The node of each branch location: the first node that has it
pub open spec fn first_nodes(locations: Seq<BranchLocation>) -> Map<BranchLocation, usize>
    decreases locations.len(),
{
    if locations.len() == 0 {
        Map::empty()
    } else {
        let before = first_nodes(locations.drop_last());
        if before.contains_key(locations.last()) {
            before
        } else {
            before.insert(locations.last(), (locations.len() - 1) as usize)
        }
    }
}

/// The nodes of the branches of a function, in order
pub open spec fn function_nodes(locations: Seq<BranchLocation>, function: FunctionLocation) -> Seq<usize>
    decreases locations.len(),
{
    if locations.len() == 0 {
        Seq::empty()
    } else {
        function_nodes(locations.drop_last(), function) + if *locations.last().parent == function {
            seq![(locations.len() - 1) as usize]
        } else {
            Seq::empty()
        }
    }
}

/// The edges for the members of a branch body: from the branch's node to
/// each node of the function that a member depends on
pub open spec fn member_dependency_edges(
    members: Seq<(FragmentIndexInBranchBody, Expression)>,
    at: BranchLocation,
    from: usize,
    locations: Seq<BranchLocation>,
    calls: Set<MemberLocation>,
    named: Seq<Function>,
) -> Seq<(usize, usize)>
    decreases members.len(),
{
    if members.len() == 0 {
        Seq::empty()
    } else {
        let j = members.len() - 1;
        member_dependency_edges(members.subrange(0, j), at, from, locations, calls, named)
            + match dependee((member_location(at, members, j), members[j].1), calls, named) {
            Some(target) => function_nodes(locations, target).map_values(|n: usize| (from, n)),
            None => Seq::empty(),
        }
    }
}

/// The edges for the branches of a function
pub open spec fn function_dependency_edges(
    location: FunctionLocation,
    branches: Seq<(BranchIndex, Branch)>,
    locations: Seq<BranchLocation>,
    calls: Set<MemberLocation>,
    named: Seq<Function>,
) -> Seq<(usize, usize)>
    decreases branches.len(),
{
    if branches.len() == 0 {
        Seq::empty()
    } else {
        let at = BranchLocation { parent: Box::new(location), index: branches.last().0 };
        function_dependency_edges(location, branches.drop_last(), locations, calls, named)
            + member_dependency_edges(
            branches.last().1.body@,
            at,
            first_nodes(locations)[at],
            locations,
            calls,
            named,
        )
    }
}

/// The edges of the dependency graph, function by function
pub open spec fn branch_dependency_edges(
    functions: Seq<(FunctionLocation, Function)>,
    locations: Seq<BranchLocation>,
    calls: Set<MemberLocation>,
    named: Seq<Function>,
) -> Seq<(usize, usize)>
    decreases functions.len(),
{
    if functions.len() == 0 {
        Seq::empty()
    } else {
        branch_dependency_edges(functions.drop_last(), locations, calls, named)
            + function_dependency_edges(
            functions.last().0,
            functions.last().1.branches@,
            locations,
            calls,
            named,
        )
    }
}

/// The functions at the locations, each with its location
pub open spec fn functions_at(tree: SyntaxTree, locations: Seq<FunctionLocation>) -> Seq<(FunctionLocation, Function)> {
    locations.map_values(|location: FunctionLocation| (location, function_at(tree, location)->0))
}

/// The clusters of branches of the functions: the strongly connected
/// components of the dependency graph, condensed to an acyclic graph, in
/// topological order. `None`, where that order could not be found.
pub open spec fn branch_dependency_clusters(
    functions: Seq<(FunctionLocation, Function)>,
    calls: Set<MemberLocation>,
    named: Seq<Function>,
) -> Option<Seq<Seq<BranchLocation>>> {
    let locations = branch_locations(functions);
    let edges = branch_dependency_edges(functions, locations, calls, named);
    let (condensed, condensed_edges) = condensation_of(numbers(locations.len()), edges, true);
    match toposort_of(condensed, condensed_edges) {
        Some(order) => Some(
            order.map_values(
                |c: usize| condensed[c as int].map_values(|w: usize| locations[w as int]),
            ),
        ),
        None => None,
    }
}

/// Each location has a first node, before the number of locations
proof fn lemma_first_nodes(locations: Seq<BranchLocation>)
    ensures
        forall|i: int|
            0 <= i < locations.len() ==> first_nodes(locations).contains_key(#[trigger] locations[i]),
        forall|l: BranchLocation| #[trigger]
            first_nodes(locations).contains_key(l) ==> first_nodes(locations)[l] < locations.len(),
    decreases locations.len(),
{
    if locations.len() > 0 {
        lemma_first_nodes(locations.drop_last());
        assert forall|i: int| 0 <= i < locations.len() implies first_nodes(locations).contains_key(
            #[trigger] locations[i],
        ) by {
            if i < locations.len() - 1 {
                assert(locations.drop_last()[i] == locations[i]);
            }
        }
        let before = first_nodes(locations.drop_last());
        assert forall|l: BranchLocation| #[trigger]
            first_nodes(locations).contains_key(l) implies first_nodes(locations)[l]
            < locations.len() by {
            if before.contains_key(l) {
                assert(before[l] < locations.len() - 1);
            }
        }
    }
}

/// The locations of the branches of the first functions come first
proof fn lemma_branch_locations_prefix(functions: Seq<(FunctionLocation, Function)>, i: int)
    requires
        0 <= i <= functions.len(),
    ensures
        branch_locations(functions.take(i)).len() <= branch_locations(functions).len(),
        forall|x: int|
            0 <= x < branch_locations(functions.take(i)).len() ==> #[trigger] branch_locations(
                functions.take(i),
            )[x] == branch_locations(functions)[x],
    decreases functions.len(),
{
    if i == functions.len() {
        assert(functions.take(i) =~= functions);
    } else {
        let shorter = functions.drop_last();
        assert(shorter.take(i) =~= functions.take(i));
        lemma_branch_locations_prefix(shorter, i);
    }
}

/// There are no more nodes of a function among the first locations than
/// among all of them
proof fn lemma_function_nodes_prefix(locations: Seq<BranchLocation>, n: int, function: FunctionLocation)
    requires
        0 <= n <= locations.len(),
    ensures
        function_nodes(locations.take(n), function).len() <= function_nodes(locations, function).len(),
    decreases locations.len(),
{
    if n == locations.len() {
        assert(locations.take(n) =~= locations);
    } else {
        let shorter = locations.drop_last();
        assert(shorter.take(n) =~= locations.take(n));
        lemma_function_nodes_prefix(shorter, n, function);
    }
}

/// There are no more edges for the first members than for all of them
proof fn lemma_member_edges_prefix(
    members: Seq<(FragmentIndexInBranchBody, Expression)>,
    j: int,
    at: BranchLocation,
    from: usize,
    locations: Seq<BranchLocation>,
    calls: Set<MemberLocation>,
    named: Seq<Function>,
)
    requires
        0 <= j <= members.len(),
    ensures
        member_dependency_edges(members.take(j), at, from, locations, calls, named).len()
            <= member_dependency_edges(members, at, from, locations, calls, named).len(),
    decreases members.len(),
{
    if j == members.len() {
        assert(members.take(j) =~= members);
    } else {
        let shorter = members.subrange(0, members.len() - 1);
        assert(shorter.take(j) =~= members.take(j));
        lemma_member_edges_prefix(shorter, j, at, from, locations, calls, named);
    }
}

/// There are no more edges for the first branches than for all of them
proof fn lemma_function_edges_prefix(
    location: FunctionLocation,
    branches: Seq<(BranchIndex, Branch)>,
    k: int,
    locations: Seq<BranchLocation>,
    calls: Set<MemberLocation>,
    named: Seq<Function>,
)
    requires
        0 <= k <= branches.len(),
    ensures
        function_dependency_edges(location, branches.take(k), locations, calls, named).len()
            <= function_dependency_edges(location, branches, locations, calls, named).len(),
    decreases branches.len(),
{
    if k == branches.len() {
        assert(branches.take(k) =~= branches);
    } else {
        let shorter = branches.drop_last();
        assert(shorter.take(k) =~= branches.take(k));
        lemma_function_edges_prefix(location, shorter, k, locations, calls, named);
    }
}

/// There are no more edges for the first functions than for all of them
proof fn lemma_dependency_edges_prefix(
    functions: Seq<(FunctionLocation, Function)>,
    i: int,
    locations: Seq<BranchLocation>,
    calls: Set<MemberLocation>,
    named: Seq<Function>,
)
    requires
        0 <= i <= functions.len(),
    ensures
        branch_dependency_edges(functions.take(i), locations, calls, named).len()
            <= branch_dependency_edges(functions, locations, calls, named).len(),
    decreases functions.len(),
{
    if i == functions.len() {
        assert(functions.take(i) =~= functions);
    } else {
        let shorter = functions.drop_last();
        assert(shorter.take(i) =~= functions.take(i));
        lemma_dependency_edges_prefix(shorter, i, locations, calls, named);
    }
}

/// The function that a member depends on, if any
fn member_dependee(
    member: &Expression,
    location: &MemberLocation,
    syntax_tree: &SyntaxTree,
    function_calls: &FunctionCalls,
) -> (result: Option<FunctionLocation>)
    requires
        syntax_tree.named_functions@.len() <= u32::MAX,
    ensures
        result == dependee(
            (*location, *member),
            function_calls.view().user_defined,
            syntax_tree.named_functions@,
        ),
{
    let ghost named = syntax_tree.named_functions@;
    let result = match member {
        Expression::Identifier { name } => {
            if function_calls.is_call_to_user_defined_function(location) {
                match syntax_tree.function_by_name(name.as_str()) {
                    Some(index) => Some(FunctionLocation::NamedFunction { index }),
                    None => None,
                }
            } else {
                None
            }
        },
        Expression::LocalFunction { .. } => Some(
            FunctionLocation::AnonymousFunction { location: Box::new(copy_member(location)) },
        ),
        _ => None,
    };
    proof {
        if let Expression::Identifier { name } = member {
            if function_calls.view().user_defined.contains(*location) && has_function_named(
                named,
                name@,
            ) {
                let k = first_function_named(named, name@);
                assert(0 <= k < named.len());
            }
        }
    }
    result
}

/// Add the edges from a branch's node to each node of the function it
/// depends on
fn add_dependee_edges(
    graph: &mut petgraph::graph::Graph<usize, ()>,
    locations: &Vec<BranchLocation>,
    from: usize,
    target: &FunctionLocation,
)
    requires
        graph_nodes(*old(graph)).len() == locations@.len(),
        from < locations@.len(),
        graph_edges(*old(graph)).len() + function_nodes(locations@, *target).len() < u32::MAX,
    ensures
        graph_nodes(*final(graph)) == graph_nodes(*old(graph)),
        graph_edges(*final(graph)) == graph_edges(*old(graph)) + function_nodes(
            locations@,
            *target,
        ).map_values(|n: usize| (from, n)),
{
    let ghost start = graph_edges(*graph);
    let ghost all = locations@;
    let mut n: usize = 0;
    assert(function_nodes(all.take(0), *target).map_values(|x: usize| (from, x)) =~= Seq::<
        (usize, usize),
    >::empty());
    while n < locations.len()
        invariant
            n <= all.len(),
            all == locations@,
            graph_nodes(*graph) == graph_nodes(*old(graph)),
            graph_nodes(*old(graph)).len() == all.len(),
            from < all.len(),
            start.len() + function_nodes(all, *target).len() < u32::MAX,
            graph_edges(*graph) == start + function_nodes(all.take(n as int), *target).map_values(
                |x: usize| (from, x),
            ),
        decreases all.len() - n,
    {
        let ghost before = function_nodes(all.take(n as int), *target);
        proof {
            let taken = all.take(n + 1);
            assert(taken.drop_last() =~= all.take(n as int));
            assert(taken.last() == all[n as int]);
            lemma_function_nodes_prefix(all, n + 1, *target);
        }
        if same_function(&locations[n].parent, target) {
            graph_add_edge(graph, from, n);
            assert(graph_edges(*graph) =~= start + function_nodes(all.take(n + 1), *target).map_values(
                |x: usize| (from, x),
            ));
        } else {
            assert(function_nodes(all.take(n + 1), *target) =~= before);
        }
        n = n + 1;
    }
    assert(all.take(n as int) =~= all);
}

/// Add the edges for the members of a branch body
fn add_member_edges(
    graph: &mut petgraph::graph::Graph<usize, ()>,
    locations: &Vec<BranchLocation>,
    from: usize,
    branch: &Branch,
    at: &BranchLocation,
    syntax_tree: &SyntaxTree,
    function_calls: &FunctionCalls,
)
    requires
        syntax_tree.named_functions@.len() <= u32::MAX,
        graph_nodes(*old(graph)).len() == locations@.len(),
        from < locations@.len(),
        graph_edges(*old(graph)).len() + member_dependency_edges(
            branch.body@,
            *at,
            from,
            locations@,
            function_calls.view().user_defined,
            syntax_tree.named_functions@,
        ).len() < u32::MAX,
    ensures
        graph_nodes(*final(graph)) == graph_nodes(*old(graph)),
        graph_edges(*final(graph)) == graph_edges(*old(graph)) + member_dependency_edges(
            branch.body@,
            *at,
            from,
            locations@,
            function_calls.view().user_defined,
            syntax_tree.named_functions@,
        ),
{
    let ghost named = syntax_tree.named_functions@;
    let ghost calls = function_calls.view().user_defined;
    let ghost start = graph_edges(*graph);
    let ghost total = member_dependency_edges(branch.body@, *at, from, locations@, calls, named);
    let mut j: usize = 0;
    assert(branch.body@.take(0) =~= Seq::<(FragmentIndexInBranchBody, Expression)>::empty());
    while j < branch.body.len()
        invariant
            j <= branch.body@.len(),
            named == syntax_tree.named_functions@,
            calls == function_calls.view().user_defined,
            named.len() <= u32::MAX,
            graph_nodes(*graph) == graph_nodes(*old(graph)),
            graph_nodes(*old(graph)).len() == locations@.len(),
            from < locations@.len(),
            total == member_dependency_edges(branch.body@, *at, from, locations@, calls, named),
            start.len() + total.len() < u32::MAX,
            graph_edges(*graph) == start + member_dependency_edges(
                branch.body@.take(j as int),
                *at,
                from,
                locations@,
                calls,
                named,
            ),
        decreases branch.body@.len() - j,
    {
        let member = &branch.body[j];
        let location = MemberLocation { parent: Box::new(copy_branch(at)), index: member.0 };
        let ghost taken = branch.body@.take(j + 1);
        proof {
            assert(taken.subrange(0, j as int) =~= branch.body@.take(j as int));
            assert(member_location(*at, taken, j as int) == location);
            assert(taken[j as int] == branch.body@[j as int]);
            lemma_member_edges_prefix(branch.body@, j + 1, *at, from, locations@, calls, named);
        }
        let target = member_dependee(&member.1, &location, syntax_tree, function_calls);
        match target {
            Some(target) => {
                add_dependee_edges(graph, locations, from, &target);
            },
            None => {},
        }
        j = j + 1;
        assert(graph_edges(*graph) =~= start + member_dependency_edges(
            branch.body@.take(j as int),
            *at,
            from,
            locations@,
            calls,
            named,
        ));
    }
    assert(branch.body@.take(j as int) =~= branch.body@);
}

/// # Resolve the dependencies between the branches of some functions
///
/// Each location must be that of a function of the syntax tree. The branches
/// that depend on each other, by calling each other's functions or defining
/// them, are grouped into clusters, which come in topological order: a
/// cluster only depends on those after it. Graphs have at most `u32::MAX`
/// nodes and edges.
pub fn resolve_branch_dependencies(
    functions: &[FunctionLocation],
    syntax_tree: &SyntaxTree,
    function_calls: &FunctionCalls,
) -> (result: Option<Vec<Vec<BranchLocation>>>)
    requires
        syntax_tree.named_functions@.len() <= u32::MAX,
        forall|i: int|
            0 <= i < functions@.len() ==> function_at(*syntax_tree, #[trigger] functions@[i]) is Some,
        branch_locations(functions_at(*syntax_tree, functions@)).len() < u32::MAX,
        branch_dependency_edges(
            functions_at(*syntax_tree, functions@),
            branch_locations(functions_at(*syntax_tree, functions@)),
            function_calls.view().user_defined,
            syntax_tree.named_functions@,
        ).len() < u32::MAX,
    ensures
        result is Some,
        ({
            let locations = branch_locations(functions_at(*syntax_tree, functions@));
            let edges = branch_dependency_edges(
                functions_at(*syntax_tree, functions@),
                locations,
                function_calls.view().user_defined,
                syntax_tree.named_functions@,
            );
            let nodes = cluster_nodes(locations.len(), edges);
            &&& clusters_in_order(nodes, locations.len(), edges)
            &&& result->0@.len() == nodes.len()
            &&& forall|i: int|
                0 <= i < nodes.len() ==> (#[trigger] result->0@[i])@ == nodes[i].map_values(
                    |w: usize| locations[w as int],
                )
        }),
        match result {
            Some(clusters) => branch_dependency_clusters(
                functions_at(*syntax_tree, functions@),
                function_calls.view().user_defined,
                syntax_tree.named_functions@,
            ) == Some(clusters@.map_values(|c: Vec<BranchLocation>| c@)),
            None => branch_dependency_clusters(
                functions_at(*syntax_tree, functions@),
                function_calls.view().user_defined,
                syntax_tree.named_functions@,
            ) is None,
        },
{
    let ghost named = syntax_tree.named_functions@;
    let ghost calls = function_calls.view().user_defined;
    let ghost fs = functions_at(*syntax_tree, functions@);
    let ghost all = branch_locations(fs);
    // The functions at the locations.
    let mut resolved: Vec<&Function> = Vec::new();
    let mut i: usize = 0;
    while i < functions.len()
        invariant
            i <= functions@.len(),
            fs == functions_at(*syntax_tree, functions@),
            forall|x: int|
                0 <= x < functions@.len() ==> function_at(*syntax_tree, #[trigger] functions@[x]) is Some,
            resolved@.len() == i,
            forall|x: int| 0 <= x < i ==> *resolved@[x] == #[trigger] fs[x].1,
        decreases functions@.len() - i,
    {
        let function = match syntax_tree.function_by_location(&functions[i]) {
            Some(function) => function,
            None => {
                assert(function_at(*syntax_tree, functions@[i as int]) is Some);
                return None;
            },
        };
        resolved.push(function);
        i = i + 1;
    }
    // The nodes: the branches of the functions, and the first node of each
    // branch location.
    let mut graph = graph_new();
    let mut first: Table<BranchLocation, usize> = Table::new();
    let mut locations: Vec<BranchLocation> = Vec::new();
    let mut i: usize = 0;
    assert(branch_locations(fs.take(0)) =~= Seq::<BranchLocation>::empty());
    assert(graph_nodes(graph) =~= numbers(0));
    while i < functions.len()
        invariant
            i <= functions@.len(),
            fs == functions_at(*syntax_tree, functions@),
            fs.len() == functions@.len(),
            resolved@.len() == functions@.len(),
            forall|x: int| 0 <= x < functions@.len() ==> *resolved@[x] == #[trigger] fs[x].1,
            all == branch_locations(fs),
            all.len() < u32::MAX,
            locations@ == branch_locations(fs.take(i as int)),
            graph_nodes(graph) == numbers(locations@.len()),
            graph_edges(graph) == Seq::<(usize, usize)>::empty(),
            first.view() == first_nodes(locations@),
        decreases functions@.len() - i,
    {
        let function = resolved[i];
        let ghost before = locations@;
        proof {
            let taken = fs.take(i + 1);
            assert(taken.drop_last() =~= fs.take(i as int));
            assert(taken.last() == fs[i as int]);
            assert(fs[i as int].0 == functions@[i as int]);
            lemma_branch_locations_prefix(fs, i + 1);
        }
        let mut k: usize = 0;
        while k < function.branches.len()
            invariant
                k <= function.branches@.len(),
                *function == fs[i as int].1,
                fs[i as int].0 == functions@[i as int],
                i < functions@.len(),
                before + function_branches(fs[i as int].0, *function) == branch_locations(
                    fs.take(i + 1),
                ),
                branch_locations(fs.take(i + 1)).len() <= all.len(),
                all.len() < u32::MAX,
                locations@ == before + function_branches(fs[i as int].0, *function).take(k as int),
                graph_nodes(graph) == numbers(locations@.len()),
                graph_edges(graph) == Seq::<(usize, usize)>::empty(),
                first.view() == first_nodes(locations@),
            decreases function.branches@.len() - k,
        {
            let location = BranchLocation {
                parent: Box::new(copy_function(&functions[i])),
                index: function.branches[k].0,
            };
            assert(function_branches(fs[i as int].0, *function)[k as int] == location);
            let ghost old_locations = locations@;
            let node = graph_add_node(&mut graph, locations.len());
            match first.get(&location) {
                Some(_) => {},
                None => {
                    first.insert(copy_branch(&location), node);
                },
            }
            locations.push(location);
            proof {
                assert(locations@.drop_last() =~= old_locations);
                assert(graph_nodes(graph) =~= numbers(locations@.len()));
            }
            k = k + 1;
            assert(locations@ =~= before + function_branches(fs[i as int].0, *function).take(
                k as int,
            ));
        }
        assert(function_branches(fs[i as int].0, *function).take(k as int) =~= function_branches(
            fs[i as int].0,
            *function,
        ));
        i = i + 1;
    }
    assert(fs.take(i as int) =~= fs);
    proof {
        lemma_first_nodes(all);
    }
    // The edges between them.
    let ghost total = branch_dependency_edges(fs, all, calls, named);
    let mut i: usize = 0;
    assert(branch_dependency_edges(fs.take(0), all, calls, named) =~= Seq::<(usize, usize)>::empty());
    assert(branch_locations(fs.take(0)) =~= Seq::<BranchLocation>::empty());
    while i < functions.len()
        invariant
            i <= functions@.len(),
            fs == functions_at(*syntax_tree, functions@),
            fs.len() == functions@.len(),
            resolved@.len() == functions@.len(),
            forall|x: int| 0 <= x < functions@.len() ==> *resolved@[x] == #[trigger] fs[x].1,
            named == syntax_tree.named_functions@,
            calls == function_calls.view().user_defined,
            named.len() <= u32::MAX,
            all == branch_locations(fs),
            locations@ == all,
            all.len() < u32::MAX,
            first.view() == first_nodes(all),
            forall|x: int| 0 <= x < all.len() ==> first_nodes(all).contains_key(#[trigger] all[x]),
            forall|l: BranchLocation| #[trigger]
                first_nodes(all).contains_key(l) ==> first_nodes(all)[l] < all.len(),
            graph_nodes(graph) == numbers(all.len()),
            total == branch_dependency_edges(fs, all, calls, named),
            total.len() < u32::MAX,
            graph_edges(graph) == branch_dependency_edges(fs.take(i as int), all, calls, named),
            branch_locations(fs.take(i as int)).len() <= all.len(),
            forall|x: int|
                0 <= x < branch_locations(fs.take(i as int)).len() ==> #[trigger] branch_locations(
                    fs.take(i as int),
                )[x] == all[x],
        decreases functions@.len() - i,
    {
        let function = resolved[i];
        let ghost base = branch_locations(fs.take(i as int)).len();
        let ghost prefix_edges = branch_dependency_edges(fs.take(i as int), all, calls, named);
        let ghost own = function_branches(fs[i as int].0, fs[i as int].1);
        proof {
            let taken = fs.take(i + 1);
            assert(taken.drop_last() =~= fs.take(i as int));
            assert(taken.last() == fs[i as int]);
            assert(fs[i as int].0 == functions@[i as int]);
            lemma_dependency_edges_prefix(fs, i + 1, all, calls, named);
            lemma_branch_locations_prefix(fs, i + 1);
            assert(branch_locations(taken) == branch_locations(fs.take(i as int)) + own);
            assert forall|y: int| 0 <= y < own.len() implies all[base + y] == #[trigger] own[y] by {
                assert(branch_locations(taken)[base + y] == own[y]);
            }
        }
        let mut k: usize = 0;
        assert(function.branches@.take(0) =~= Seq::<(BranchIndex, Branch)>::empty());
        while k < function.branches.len()
            invariant
                k <= function.branches@.len(),
                *function == fs[i as int].1,
                fs[i as int].0 == functions@[i as int],
                i < functions@.len(),
                own == function_branches(fs[i as int].0, fs[i as int].1),
                base + own.len() <= all.len(),
                forall|y: int| 0 <= y < own.len() ==> all[base + y] == #[trigger] own[y],
                named == syntax_tree.named_functions@,
                calls == function_calls.view().user_defined,
                named.len() <= u32::MAX,
                locations@ == all,
                all.len() < u32::MAX,
                first.view() == first_nodes(all),
                forall|x: int| 0 <= x < all.len() ==> first_nodes(all).contains_key(#[trigger] all[x]),
                forall|l: BranchLocation| #[trigger]
                    first_nodes(all).contains_key(l) ==> first_nodes(all)[l] < all.len(),
                graph_nodes(graph) == numbers(all.len()),
                prefix_edges.len() + function_dependency_edges(
                    fs[i as int].0,
                    function.branches@,
                    all,
                    calls,
                    named,
                ).len() <= total.len(),
                total.len() < u32::MAX,
                graph_edges(graph) == prefix_edges + function_dependency_edges(
                    fs[i as int].0,
                    function.branches@.take(k as int),
                    all,
                    calls,
                    named,
                ),
            decreases function.branches@.len() - k,
        {
            let branch = &function.branches[k];
            let at = BranchLocation {
                parent: Box::new(copy_function(&functions[i])),
                index: branch.0,
            };
            proof {
                let taken = function.branches@.take(k + 1);
                assert(taken.drop_last() =~= function.branches@.take(k as int));
                assert(taken.last() == function.branches@[k as int]);
                lemma_function_edges_prefix(
                    fs[i as int].0,
                    function.branches@,
                    k + 1,
                    all,
                    calls,
                    named,
                );
                assert(own[k as int] == at);
                assert(all[base + k] == at);
            }
            let from = match first.get(&at) {
                Some(from) => *from,
                None => {
                    assert(false);
                    0
                },
            };
            add_member_edges(&mut graph, &locations, from, &branch.1, &at, syntax_tree, function_calls);
            k = k + 1;
        }
        assert(function.branches@.take(k as int) =~= function.branches@);
        proof {
            lemma_branch_locations_prefix(fs, i + 1);
        }
        i = i + 1;
    }
    assert(fs.take(i as int) =~= fs);
    // The clusters, in topological order.
    let ghost graph_nodes_view = graph_nodes(graph);
    let ghost graph_edges_view = graph_edges(graph);
    proof {
        assert(crate::compiler::graph::distinct_weights(graph_nodes_view));
    }
    let condensed = graph_condensation(graph, true);
    let order = match graph_toposort(&condensed) {
        Some(order) => order,
        None => return None,
    };
    proof {
        lemma_clusters_in_order(
            all.len(),
            graph_nodes_view,
            graph_edges_view,
            condensed_nodes(condensed),
            crate::compiler::graph::condensed_edges(condensed),
            order@,
        );
    }
    let mut clusters: Vec<Vec<BranchLocation>> = Vec::new();
    let mut c: usize = 0;
    while c < order.len()
        invariant
            c <= order@.len(),
            clusters@.len() == c,
            locations@ == all,
            toposort_of(
                condensed_nodes(condensed),
                crate::compiler::graph::condensed_edges(condensed),
            ) == Some(order@),
            forall|x: int| 0 <= x < order@.len() ==> order@[x] < condensed_nodes(condensed).len(),
            forall|a: int, w: int|
                0 <= a < condensed_nodes(condensed).len() && 0 <= w < condensed_nodes(
                    condensed,
                )[a].len() ==> numbers(all.len()).contains(
                    #[trigger] condensed_nodes(condensed)[a][w],
                ),
            forall|x: int|
                0 <= x < c ==> (#[trigger] clusters@[x])@ == condensed_nodes(
                    condensed,
                )[order@[x] as int].map_values(|w: usize| all[w as int]),
        decreases order@.len() - c,
    {
        let weights = match condensed_node_weight(&condensed, order[c]) {
            Some(weights) => weights,
            None => {
                assert(false);
                return None;
            },
        };
        let ghost cluster_weights = condensed_nodes(condensed)[order@[c as int] as int];
        proof {
            assert forall|x: int| 0 <= x < weights@.len() implies weights@[x] < all.len() by {
                assert(numbers(all.len()).contains(cluster_weights[x]));
                let y = numbers(all.len()).index_of(cluster_weights[x]);
                assert(numbers(all.len())[y] == cluster_weights[x]);
            }
        }
        let mut cluster: Vec<BranchLocation> = Vec::new();
        let mut w: usize = 0;
        while w < weights.len()
            invariant
                w <= weights@.len(),
                weights@ == cluster_weights,
                locations@ == all,
                forall|x: int| 0 <= x < weights@.len() ==> weights@[x] < all.len(),
                cluster@ == weights@.take(w as int).map_values(|v: usize| all[v as int]),
            decreases weights@.len() - w,
        {
            cluster.push(copy_branch(&locations[weights[w]]));
            w = w + 1;
            assert(cluster@ =~= weights@.take(w as int).map_values(|v: usize| all[v as int]));
        }
        assert(weights@.take(w as int) =~= weights@);
        clusters.push(cluster);
        c = c + 1;
    }
    proof {
        let condensed_view = condensed_nodes(condensed);
        assert(clusters@.map_values(|cl: Vec<BranchLocation>| cl@) =~= order@.map_values(
            |cl: usize| condensed_view[cl as int].map_values(|w: usize| all[w as int]),
        ));
    }
    Some(clusters)
}

} // verus!
