use crosscut::compiler::call_graph::{CallGraph, Cluster};
use crosscut::compiler::dependencies::resolve_function_dependencies;
use crosscut::compiler::function_calls::FunctionCalls;
use crosscut::compiler::host::NoHost;
use crosscut::compiler::location::{
    BranchIndex, BranchLocation, FragmentIndexInBranchBody, FunctionIndexInRootContext,
    FunctionLocation, MemberLocation,
};
use crosscut::compiler::parse::parse;
use crosscut::compiler::recursion::mark_recursive_calls;
use crosscut::compiler::tokens::tokenize;

fn marks(code: &str) -> Vec<(MemberLocation, usize)> {
    let syntax_tree = parse(tokenize(code)).unwrap();
    let function_calls = FunctionCalls::resolve(&syntax_tree, &NoHost);
    let clusters = resolve_function_dependencies(&syntax_tree, &function_calls)
        .unwrap()
        .into_iter()
        .map(|cluster| Cluster {
            functions: cluster
                .into_iter()
                .filter_map(|location| match location {
                    FunctionLocation::NamedFunction { index } => Some(index),
                    FunctionLocation::AnonymousFunction { .. } => None,
                })
                .collect(),
        })
        .filter(|cluster| !cluster.functions.is_empty())
        .collect();
    let call_graph = CallGraph::new(clusters);
    mark_recursive_calls(&syntax_tree, &function_calls, &call_graph)
}

fn member(function: u32, branch: u32, index: u32) -> MemberLocation {
    MemberLocation {
        parent: Box::new(BranchLocation {
            parent: Box::new(FunctionLocation::NamedFunction {
                index: FunctionIndexInRootContext(function),
            }),
            index: BranchIndex(branch),
        }),
        index: FragmentIndexInBranchBody(index),
    }
}

fn mark_of(marks: &[(MemberLocation, usize)], location: &MemberLocation) -> Option<usize> {
    marks
        .iter()
        .find(|(marked, _)| marked == location)
        .map(|(_, index)| *index)
}

#[test]
fn self_recursive_functions() {
    // A second function is needed, because for the first, the index of the
    // function within the list of all named functions and the index of the
    // function within its cluster, are both `0`. That is prone to hide a bug.
    let marks = marks(
        r"
            f: fn
                \ ->
                    f
            end

            g: fn
                \ ->
                    g
            end
        ",
    );

    assert_eq!(marks.len(), 2);
    for function in 0..2 {
        // Each function is only self-recursive, so it is alone in its
        // cluster, and the index referring to it must be `0`.
        assert_eq!(mark_of(&marks, &member(function, 1, 1)), Some(0));
    }
}

#[test]
fn mutually_recursive_calls_refer_to_the_index_within_the_cluster() {
    let marks = marks(
        r"
            f: fn \ -> g end
            g: fn \ -> f end
        ",
    );

    assert_eq!(marks.len(), 2);
    let f = mark_of(&marks, &member(0, 1, 1)).unwrap();
    let g = mark_of(&marks, &member(1, 1, 1)).unwrap();
    assert_ne!(f, g);
    assert!(f < 2 && g < 2);
}

#[test]
fn calls_to_other_clusters_are_not_recursive() {
    let marks = marks(
        r"
            f: fn \ -> g end
            g: fn \ -> 1 end
        ",
    );

    assert!(marks.is_empty());
}

#[test]
fn only_calls_in_the_functions_own_branches_are_marked() {
    let marks = marks(
        r"
            f: fn \ 0 -> 1 \ n -> fn \ -> f end f end
        ",
    );

    assert_eq!(marks, vec![(member(0, 2, 2), 0)]);
}
