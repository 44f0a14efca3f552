//! Marking recursive calls: the calls, in the bodies of a cluster's
//! functions, to a function of the same cluster.

use vstd::prelude::*;

use crate::compiler::call_graph::{CallGraph, Cluster};
use crate::compiler::divergence::recursive_callee;
use crate::compiler::function_calls::FunctionCalls;
use crate::compiler::location::{
    copy_branch, BranchIndex, BranchLocation, FragmentIndexInBranchBody, FunctionIndexInRootContext,
    FunctionLocation, MemberLocation,
};
use crate::compiler::syntax::{
    first_function_named, has_function_named, member_location, Branch, Expression, Function,
    SyntaxTree,
};

verus! {

/// The first position of a function among the functions of a cluster
pub open spec fn first_position(functions: Seq<FunctionIndexInRootContext>, function: FunctionIndexInRootContext) -> int {
    choose|p: int|
        0 <= p < functions.len() && functions[p] == function && forall|q: int|
            0 <= q < p ==> functions[q] != function
}

/// The recursive calls among the members of a branch body, each with the
/// index within the cluster of the function it calls
pub open spec fn body_recursive_calls(
    members: Seq<(FragmentIndexInBranchBody, Expression)>,
    at: BranchLocation,
    calls: Set<MemberLocation>,
    named: Seq<Function>,
    cluster: Seq<FunctionIndexInRootContext>,
) -> Seq<(MemberLocation, int)>
    decreases members.len(),
{
    if members.len() == 0 {
        Seq::empty()
    } else {
        let j = members.len() - 1;
        let location = member_location(at, members, j);
        body_recursive_calls(members.subrange(0, j), at, calls, named, cluster) + match recursive_callee(
            (location, members[j].1),
            calls,
            named,
            cluster,
        ) {
            Some(callee) => seq![(location, first_position(cluster, callee))],
            None => Seq::empty(),
        }
    }
}

/// The recursive calls in the branches of a named function
pub open spec fn branches_recursive_calls(
    function: FunctionIndexInRootContext,
    branches: Seq<(BranchIndex, Branch)>,
    calls: Set<MemberLocation>,
    named: Seq<Function>,
    cluster: Seq<FunctionIndexInRootContext>,
) -> Seq<(MemberLocation, int)>
    decreases branches.len(),
{
    if branches.len() == 0 {
        Seq::empty()
    } else {
        let k = branches.len() - 1;
        branches_recursive_calls(function, branches.drop_last(), calls, named, cluster)
            + body_recursive_calls(
            branches[k].1.body@,
            BranchLocation {
                parent: Box::new(FunctionLocation::NamedFunction { index: function }),
                index: branches[k].0,
            },
            calls,
            named,
            cluster,
        )
    }
}

/// The recursive calls in the functions, function by function
pub open spec fn functions_recursive_calls(
    functions: Seq<FunctionIndexInRootContext>,
    calls: Set<MemberLocation>,
    named: Seq<Function>,
    cluster: Seq<FunctionIndexInRootContext>,
) -> Seq<(MemberLocation, int)>
    decreases functions.len(),
{
    if functions.len() == 0 {
        Seq::empty()
    } else {
        let f = functions.last();
        functions_recursive_calls(functions.drop_last(), calls, named, cluster)
            + branches_recursive_calls(f, named[f.0 as int].branches@, calls, named, cluster)
    }
}

/// The recursive calls of all clusters, cluster by cluster
pub open spec fn recursive_calls(
    clusters: Seq<Cluster>,
    calls: Set<MemberLocation>,
    named: Seq<Function>,
) -> Seq<(MemberLocation, int)>
    decreases clusters.len(),
{
    if clusters.len() == 0 {
        Seq::empty()
    } else {
        let c = clusters.last().functions@;
        recursive_calls(clusters.drop_last(), calls, named) + functions_recursive_calls(
            c,
            calls,
            named,
            c,
        )
    }
}

/// The pairs, with each index taken as an integer
pub open spec fn marks_view(marks: Seq<(MemberLocation, usize)>) -> Seq<(MemberLocation, int)> {
    marks.map_values(|m: (MemberLocation, usize)| (m.0, m.1 as int))
}

/// The first position of a function in a cluster, if it is there
fn position_in_cluster(functions: &Vec<FunctionIndexInRootContext>, function: FunctionIndexInRootContext) -> (result: Option<usize>)
    ensures
        match result {
            Some(p) => p == first_position(functions@, function) && p < functions@.len()
                && functions@[p as int] == function,
            None => !functions@.contains(function),
        },
{
    let mut i: usize = 0;
    while i < functions.len()
        invariant
            i <= functions@.len(),
            forall|j: int| 0 <= j < i ==> functions@[j] != function,
        decreases functions@.len() - i,
    {
        if functions[i].0 == function.0 {
            proof {
                let s = functions@;
                assert(s[i as int] == function);
                assert(0 <= i < s.len() && s[i as int] == function && forall|q: int|
                    0 <= q < i ==> s[q] != function);
                let p = first_position(s, function);
                if p < i {
                    assert(s[p] != function);
                } else if p > i {
                    assert(s[i as int] != function);
                }
            }
            return Some(i);
        }
        i = i + 1;
    }
    None
}

/// The position in the cluster of the function that a member calls, where it
/// calls one of the cluster
fn recursive_position(
    member: &Expression,
    location: &MemberLocation,
    syntax_tree: &SyntaxTree,
    function_calls: &FunctionCalls,
    cluster: &Vec<FunctionIndexInRootContext>,
) -> (result: Option<usize>)
    requires
        syntax_tree.named_functions@.len() <= u32::MAX,
    ensures
        match recursive_callee(
            (*location, *member),
            function_calls.view().user_defined,
            syntax_tree.named_functions@,
            cluster@,
        ) {
            Some(f) => result is Some && result->0 == first_position(cluster@, f),
            None => result is None,
        },
{
    let ghost named = syntax_tree.named_functions@;
    let ghost calls = function_calls.view().user_defined;
    let mut callee: Option<usize> = None;
    let ghost mut callee_index: Option<FunctionIndexInRootContext> = None;
    if let Expression::Identifier { name } = member {
        if function_calls.is_call_to_user_defined_function(location) {
            if let Some(index) = syntax_tree.function_by_name(name.as_str()) {
                callee = position_in_cluster(cluster, index);
                proof {
                    callee_index = Some(index);
                }
            }
        }
    }
    proof {
        let expected = recursive_callee((*location, *member), calls, named, cluster@);
        if let Expression::Identifier { name } = member {
            if calls.contains(*location) && has_function_named(named, name@) {
                let k = first_function_named(named, name@);
                assert(0 <= k < named.len());
            }
        }
        match expected {
            Some(f) => {
                assert(callee_index == Some(f));
            },
            None => {},
        }
    }
    callee
}

/// The recursive calls among the first `j + 1` members are those among the
/// first `j`, and the call of member `j`, where it is one
proof fn lemma_body_step(
    members: Seq<(FragmentIndexInBranchBody, Expression)>,
    j: int,
    at: BranchLocation,
    calls: Set<MemberLocation>,
    named: Seq<Function>,
    cluster: Seq<FunctionIndexInRootContext>,
)
    requires
        0 <= j < members.len(),
    ensures
        body_recursive_calls(members.take(j + 1), at, calls, named, cluster) == body_recursive_calls(
            members.take(j),
            at,
            calls,
            named,
            cluster,
        ) + match recursive_callee(
            (MemberLocation { parent: Box::new(at), index: members[j].0 }, members[j].1),
            calls,
            named,
            cluster,
        ) {
            Some(callee) => seq![
                (
                    MemberLocation { parent: Box::new(at), index: members[j].0 },
                    first_position(cluster, callee),
                ),
            ],
            None => Seq::empty(),
        },
{
    let taken = members.take(j + 1);
    assert(taken.subrange(0, j) =~= members.take(j));
    assert(taken[j] == members[j]);
}

/// Add the recursive calls among the members of a branch body
fn mark_body(
    branch: &Branch,
    at: &BranchLocation,
    syntax_tree: &SyntaxTree,
    function_calls: &FunctionCalls,
    cluster: &Vec<FunctionIndexInRootContext>,
    marks: &mut Vec<(MemberLocation, usize)>,
)
    requires
        syntax_tree.named_functions@.len() <= u32::MAX,
    ensures
        marks_view(final(marks)@) == marks_view(old(marks)@) + body_recursive_calls(
            branch.body@,
            *at,
            function_calls.view().user_defined,
            syntax_tree.named_functions@,
            cluster@,
        ),
{
    let ghost named = syntax_tree.named_functions@;
    let ghost calls = function_calls.view().user_defined;
    let ghost start = marks_view(marks@);
    let mut j: usize = 0;
    assert(branch.body@.take(0) =~= Seq::<(FragmentIndexInBranchBody, Expression)>::empty());
    while j < branch.body.len()
        invariant
            j <= branch.body@.len(),
            named == syntax_tree.named_functions@,
            calls == function_calls.view().user_defined,
            named.len() <= u32::MAX,
            marks_view(marks@) == start + body_recursive_calls(
                branch.body@.take(j as int),
                *at,
                calls,
                named,
                cluster@,
            ),
        decreases branch.body@.len() - j,
    {
        let member = &branch.body[j];
        let location = MemberLocation { parent: Box::new(copy_branch(at)), index: member.0 };
        proof {
            lemma_body_step(branch.body@, j as int, *at, calls, named, cluster@);
        }
        let callee = recursive_position(&member.1, &location, syntax_tree, function_calls, cluster);
        let ghost before = marks_view(marks@);
        let ghost expected = recursive_callee((location, member.1), calls, named, cluster@);
        let ghost whole = body_recursive_calls(
            branch.body@.take(j + 1),
            *at,
            calls,
            named,
            cluster@,
        );
        match callee {
            Some(position) => {
                let ghost f = expected->0;
                assert(expected is Some);
                assert(position as int == first_position(cluster@, f));
                marks.push((location, position));
                assert(marks_view(marks@) =~= before + seq![(location, position as int)]);
                assert(marks_view(marks@) =~= start + whole);
            },
            None => {
                assert(expected is None);
                assert(marks_view(marks@) =~= start + whole);
            },
        }
        j = j + 1;
        assert(marks_view(marks@) =~= start + body_recursive_calls(
            branch.body@.take(j as int),
            *at,
            calls,
            named,
            cluster@,
        ));
    }
    assert(branch.body@.take(j as int) =~= branch.body@);
}

/// Add the recursive calls in the functions of a cluster
fn mark_cluster(
    syntax_tree: &SyntaxTree,
    function_calls: &FunctionCalls,
    cluster: &Vec<FunctionIndexInRootContext>,
    marks: &mut Vec<(MemberLocation, usize)>,
)
    requires
        syntax_tree.named_functions@.len() <= u32::MAX,
        forall|i: int| 0 <= i < cluster@.len() ==> (#[trigger] cluster@[i]).0 < syntax_tree.named_functions@.len(),
    ensures
        marks_view(final(marks)@) == marks_view(old(marks)@) + functions_recursive_calls(
            cluster@,
            function_calls.view().user_defined,
            syntax_tree.named_functions@,
            cluster@,
        ),
{
    let ghost named = syntax_tree.named_functions@;
    let ghost calls = function_calls.view().user_defined;
    let ghost cf = cluster@;
    let ghost start = marks_view(marks@);
    let mut i: usize = 0;
    assert(cf.take(0) =~= Seq::<FunctionIndexInRootContext>::empty());
    while i < cluster.len()
        invariant
            i <= cf.len(),
            cf == cluster@,
            named == syntax_tree.named_functions@,
            calls == function_calls.view().user_defined,
            named.len() <= u32::MAX,
            forall|x: int| 0 <= x < cf.len() ==> (#[trigger] cf[x]).0 < named.len(),
            marks_view(marks@) == start + functions_recursive_calls(cf.take(i as int), calls, named, cf),
        decreases cf.len() - i,
    {
        let f = cluster[i];
        let function = &syntax_tree.named_functions[f.0 as usize];
        let ghost mid = marks_view(marks@);
        proof {
            let taken = cf.take(i + 1);
            assert(taken.drop_last() =~= cf.take(i as int));
            assert(taken.last() == f);
        }
        let mut k: usize = 0;
        assert(function.branches@.take(0) =~= Seq::<(BranchIndex, Branch)>::empty());
        while k < function.branches.len()
            invariant
                k <= function.branches@.len(),
                *function == named[f.0 as int],
                named == syntax_tree.named_functions@,
                calls == function_calls.view().user_defined,
                named.len() <= u32::MAX,
                marks_view(marks@) == mid + branches_recursive_calls(
                    f,
                    function.branches@.take(k as int),
                    calls,
                    named,
                    cf,
                ),
                cf == cluster@,
            decreases function.branches@.len() - k,
        {
            let branch = &function.branches[k];
            let at = BranchLocation {
                parent: Box::new(FunctionLocation::NamedFunction { index: f }),
                index: branch.0,
            };
            mark_body(&branch.1, &at, syntax_tree, function_calls, cluster, marks);
            proof {
                let taken = function.branches@.take(k + 1);
                assert(taken.drop_last() =~= function.branches@.take(k as int));
                assert(taken[k as int] == function.branches@[k as int]);
            }
            k = k + 1;
            assert(marks_view(marks@) =~= mid + branches_recursive_calls(
                f,
                function.branches@.take(k as int),
                calls,
                named,
                cf,
            ));
        }
        assert(function.branches@.take(k as int) =~= function.branches@);
        i = i + 1;
        assert(marks_view(marks@) =~= start + functions_recursive_calls(
            cf.take(i as int),
            calls,
            named,
            cf,
        ));
    }
    assert(cf.take(i as int) =~= cf);
}

/// # Mark the recursive calls
///
/// A call in the body of a named function is recursive, where it calls a
/// function of the same cluster. Each comes out with the index within the
/// cluster of the function it calls, cluster by cluster, and within a
/// cluster in the order of its functions, their branches and their members.
/// Only the members of the functions' own branch bodies count, not those of
/// local functions.
pub fn mark_recursive_calls(
    syntax_tree: &SyntaxTree,
    function_calls: &FunctionCalls,
    call_graph: &CallGraph,
) -> (result: Vec<(MemberLocation, usize)>)
    requires
        syntax_tree.named_functions@.len() <= u32::MAX,
        forall|c: int, i: int|
            0 <= c < call_graph.cluster_list().len() && 0 <= i
                < call_graph.cluster_list()[c].functions@.len() ==> (
            #[trigger] call_graph.cluster_list()[c].functions@[i]).0
                < syntax_tree.named_functions@.len(),
    ensures
        marks_view(result@) == recursive_calls(
            call_graph.cluster_list(),
            function_calls.view().user_defined,
            syntax_tree.named_functions@,
        ),
{
    let ghost named = syntax_tree.named_functions@;
    let ghost calls = function_calls.view().user_defined;
    let clusters = call_graph.clusters();
    let ghost all = clusters@;
    let mut marks: Vec<(MemberLocation, usize)> = Vec::new();
    let mut c: usize = 0;
    assert(marks_view(marks@) =~= Seq::<(MemberLocation, int)>::empty());
    assert(all.take(0) =~= Seq::<Cluster>::empty());
    while c < clusters.len()
        invariant
            c <= all.len(),
            all == clusters@,
            all == call_graph.cluster_list(),
            named == syntax_tree.named_functions@,
            calls == function_calls.view().user_defined,
            named.len() <= u32::MAX,
            forall|x: int, i: int|
                0 <= x < all.len() && 0 <= i < all[x].functions@.len() ==> (
                #[trigger] all[x].functions@[i]).0 < named.len(),
            marks_view(marks@) == recursive_calls(all.take(c as int), calls, named),
        decreases all.len() - c,
    {
        let cluster = &clusters[c];
        proof {
            assert forall|i: int| 0 <= i < cluster.functions@.len() implies (
            #[trigger] cluster.functions@[i]).0 < named.len() by {
                assert(all[c as int].functions@[i] == cluster.functions@[i]);
            }
        }
        mark_cluster(syntax_tree, function_calls, &cluster.functions, &mut marks);
        proof {
            let taken = all.take(c + 1);
            assert(taken.drop_last() =~= all.take(c as int));
            assert(taken.last() == *cluster);
        }
        c = c + 1;
    }
    assert(all.take(c as int) =~= all);
    marks
}

/// A function that a member calls recursively lies in the cluster, at its
/// first position
proof fn lemma_callee_position(
    member: (MemberLocation, Expression),
    calls: Set<MemberLocation>,
    named: Seq<Function>,
    cluster: Seq<FunctionIndexInRootContext>,
)
    requires
        recursive_callee(member, calls, named, cluster) is Some,
    ensures
        0 <= first_position(cluster, recursive_callee(member, calls, named, cluster)->0)
            < cluster.len(),
        cluster[first_position(cluster, recursive_callee(member, calls, named, cluster)->0)]
            == recursive_callee(member, calls, named, cluster)->0,
{
    let f = recursive_callee(member, calls, named, cluster)->0;
    assert(cluster.contains(f));
    let p = choose|p: int| 0 <= p < cluster.len() && cluster[p] == f;
    lemma_first_occurrence(cluster, f, p);
}

/// Where a function occurs in a cluster, it has a first position
proof fn lemma_first_occurrence(
    cluster: Seq<FunctionIndexInRootContext>,
    function: FunctionIndexInRootContext,
    p: int,
)
    requires
        0 <= p < cluster.len(),
        cluster[p] == function,
    ensures
        exists|q: int|
            0 <= q <= p && cluster[q] == function && forall|r: int|
                0 <= r < q ==> cluster[r] != function,
    decreases p,
{
    if exists|r: int| 0 <= r < p && cluster[r] == function {
        let r = choose|r: int| 0 <= r < p && cluster[r] == function;
        lemma_first_occurrence(cluster, function, r);
    } else {
        assert(0 <= p <= p && cluster[p] == function && forall|r: int|
            0 <= r < p ==> cluster[r] != function);
    }
}

/// The marks for the members of a body refer to functions of the cluster
proof fn lemma_body_marks_in_cluster(
    members: Seq<(FragmentIndexInBranchBody, Expression)>,
    at: BranchLocation,
    calls: Set<MemberLocation>,
    named: Seq<Function>,
    cluster: Seq<FunctionIndexInRootContext>,
)
    ensures
        forall|i: int|
            0 <= i < body_recursive_calls(members, at, calls, named, cluster).len() ==> 0
                <= (#[trigger] body_recursive_calls(members, at, calls, named, cluster)[i]).1
                < cluster.len(),
    decreases members.len(),
{
    if members.len() > 0 {
        let j = members.len() - 1;
        let location = member_location(at, members, j);
        lemma_body_marks_in_cluster(members.subrange(0, j), at, calls, named, cluster);
        if recursive_callee((location, members[j].1), calls, named, cluster) is Some {
            lemma_callee_position((location, members[j].1), calls, named, cluster);
        }
        let prefix = body_recursive_calls(members.subrange(0, j), at, calls, named, cluster);
        let all = body_recursive_calls(members, at, calls, named, cluster);
        assert forall|i: int| 0 <= i < all.len() implies 0 <= (#[trigger] all[i]).1
            < cluster.len() by {
            if i < prefix.len() {
                assert(all[i] == prefix[i]);
            }
        }
    }
}

/// The marks for the branches of a function refer to functions of the
/// cluster
proof fn lemma_branches_marks_in_cluster(
    function: FunctionIndexInRootContext,
    branches: Seq<(BranchIndex, Branch)>,
    calls: Set<MemberLocation>,
    named: Seq<Function>,
    cluster: Seq<FunctionIndexInRootContext>,
)
    ensures
        forall|i: int|
            0 <= i < branches_recursive_calls(function, branches, calls, named, cluster).len() ==> 0
                <= (#[trigger] branches_recursive_calls(function, branches, calls, named, cluster)[i]).1
                < cluster.len(),
    decreases branches.len(),
{
    if branches.len() > 0 {
        let k = branches.len() - 1;
        let at = BranchLocation {
            parent: Box::new(FunctionLocation::NamedFunction { index: function }),
            index: branches[k].0,
        };
        lemma_branches_marks_in_cluster(function, branches.drop_last(), calls, named, cluster);
        lemma_body_marks_in_cluster(branches[k].1.body@, at, calls, named, cluster);
        let prefix = branches_recursive_calls(function, branches.drop_last(), calls, named, cluster);
        let own = body_recursive_calls(branches[k].1.body@, at, calls, named, cluster);
        let all = branches_recursive_calls(function, branches, calls, named, cluster);
        assert forall|i: int| 0 <= i < all.len() implies 0 <= (#[trigger] all[i]).1
            < cluster.len() by {
            if i < prefix.len() {
                assert(all[i] == prefix[i]);
            } else {
                assert(all[i] == own[i - prefix.len()]);
            }
        }
    }
}

/// Each recursive call in a cluster is marked with the index of a function
/// of that cluster: a function alone in its cluster is marked with `0`
pub proof fn lemma_marks_refer_to_the_cluster(
    functions: Seq<FunctionIndexInRootContext>,
    calls: Set<MemberLocation>,
    named: Seq<Function>,
    cluster: Seq<FunctionIndexInRootContext>,
)
    ensures
        forall|i: int|
            0 <= i < functions_recursive_calls(functions, calls, named, cluster).len() ==> 0
                <= (#[trigger] functions_recursive_calls(functions, calls, named, cluster)[i]).1
                < cluster.len(),
    decreases functions.len(),
{
    if functions.len() > 0 {
        let f = functions.last();
        lemma_marks_refer_to_the_cluster(functions.drop_last(), calls, named, cluster);
        lemma_branches_marks_in_cluster(f, named[f.0 as int].branches@, calls, named, cluster);
        let prefix = functions_recursive_calls(functions.drop_last(), calls, named, cluster);
        let own = branches_recursive_calls(f, named[f.0 as int].branches@, calls, named, cluster);
        let all = functions_recursive_calls(functions, calls, named, cluster);
        assert forall|i: int| 0 <= i < all.len() implies 0 <= (#[trigger] all[i]).1
            < cluster.len() by {
            if i < prefix.len() {
                assert(all[i] == prefix[i]);
            } else {
                assert(all[i] == own[i - prefix.len()]);
            }
        }
    }
}

} // verus!
