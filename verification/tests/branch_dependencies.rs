use crosscut::compiler::branch_dependencies::resolve_branch_dependencies;
use crosscut::compiler::function_calls::FunctionCalls;
use crosscut::compiler::host::NoHost;
use crosscut::compiler::location::{
    BranchIndex, BranchLocation, FragmentIndexInBranchBody, FunctionIndexInRootContext,
    FunctionLocation, MemberLocation,
};
use crosscut::compiler::parse::parse;
use crosscut::compiler::syntax::SyntaxTree;
use crosscut::compiler::tokens::tokenize;

fn named(index: u32) -> FunctionLocation {
    FunctionLocation::NamedFunction {
        index: FunctionIndexInRootContext(index),
    }
}

fn branch(function: FunctionLocation, index: u32) -> BranchLocation {
    BranchLocation {
        parent: Box::new(function),
        index: BranchIndex(index),
    }
}

fn clusters(code: &str, functions: &[FunctionLocation]) -> (SyntaxTree, Vec<Vec<BranchLocation>>) {
    let syntax_tree = parse(tokenize(code)).unwrap();
    let function_calls = FunctionCalls::resolve(&syntax_tree, &NoHost);
    let clusters =
        resolve_branch_dependencies(functions, &syntax_tree, &function_calls).unwrap();
    (syntax_tree, clusters)
}

#[test]
fn recursive_branch_comes_before_the_branch_it_calls() {
    let (_, clusters) = clusters(r"f: fn \ 0 -> 1 \ n -> f end", &[named(0)]);

    assert_eq!(
        clusters,
        vec![vec![branch(named(0), 2)], vec![branch(named(0), 1)]]
    );
}

#[test]
fn branches_of_mutually_recursive_functions_form_one_cluster() {
    let (_, clusters) = clusters(
        r"
            f: fn \ -> g end
            g: fn \ -> f end
        ",
        &[named(0), named(1)],
    );

    assert_eq!(clusters.len(), 1);
    let mut cluster = clusters[0].clone();
    cluster.sort_by_key(|location| format!("{location:?}"));
    assert_eq!(cluster, vec![branch(named(0), 1), branch(named(1), 1)]);
}

#[test]
fn branches_depend_on_the_local_functions_they_define() {
    let local = FunctionLocation::AnonymousFunction {
        location: Box::new(MemberLocation {
            parent: Box::new(branch(named(0), 1)),
            index: FragmentIndexInBranchBody(1),
        }),
    };
    let (syntax_tree, clusters) =
        clusters(r"f: fn \ -> fn \ -> 1 end end", &[named(0), local.clone()]);

    assert!(syntax_tree.function_by_location(&local).is_some());
    assert_eq!(
        clusters,
        vec![vec![branch(named(0), 1)], vec![branch(local, 1)]]
    );
}

#[test]
fn calls_to_functions_outside_the_group_add_no_dependencies() {
    let (_, clusters) = clusters(
        r"
            f: fn \ -> g end
            g: fn \ -> 1 end
        ",
        &[named(0)],
    );

    assert_eq!(clusters, vec![vec![branch(named(0), 1)]]);
}

#[test]
fn function_by_location_finds_named_and_local_functions() {
    let syntax_tree = parse(tokenize(r"f: fn \ -> 1 fn \ -> 2 end end")).unwrap();
    let local = FunctionLocation::AnonymousFunction {
        location: Box::new(MemberLocation {
            parent: Box::new(branch(named(0), 1)),
            index: FragmentIndexInBranchBody(2),
        }),
    };
    let missing = FunctionLocation::AnonymousFunction {
        location: Box::new(MemberLocation {
            parent: Box::new(branch(named(0), 1)),
            index: FragmentIndexInBranchBody(1),
        }),
    };

    assert_eq!(
        syntax_tree.function_by_location(&named(0)).unwrap().name.as_deref(),
        Some("f")
    );
    assert_eq!(syntax_tree.function_by_location(&local).unwrap().branches.len(), 1);
    assert!(syntax_tree.function_by_location(&missing).is_none());
    assert!(syntax_tree.function_by_location(&named(1)).is_none());
}
