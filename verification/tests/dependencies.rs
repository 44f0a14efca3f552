use crosscut::compiler::dependencies::resolve_function_dependencies;
use crosscut::compiler::function_calls::FunctionCalls;
use crosscut::compiler::host::NoHost;
use crosscut::compiler::location::{FunctionIndexInRootContext, FunctionLocation};
use crosscut::compiler::parse::parse;
use crosscut::compiler::tokens::tokenize;

fn clusters(code: &str) -> Vec<Vec<FunctionLocation>> {
    let syntax_tree = parse(tokenize(code)).unwrap();
    let function_calls = FunctionCalls::resolve(&syntax_tree, &NoHost);
    resolve_function_dependencies(&syntax_tree, &function_calls).unwrap()
}

fn named(index: u32) -> FunctionLocation {
    FunctionLocation::NamedFunction {
        index: FunctionIndexInRootContext(index),
    }
}

#[test]
fn mutually_recursive_functions_form_one_cluster() {
    let clusters = clusters(
        r"
            f: fn \ -> g end
            g: fn \ -> f end
            h: fn \ -> f end
        ",
    );
    assert_eq!(clusters.len(), 2);
    assert_eq!(clusters[0], vec![named(2)]);
    let mut recursive = clusters[1].clone();
    recursive.sort_by_key(|location| format!("{location:?}"));
    assert_eq!(recursive, vec![named(0), named(1)]);
}

#[test]
fn callers_come_before_the_functions_they_call() {
    let clusters = clusters(
        r"
            leaf: fn \ -> 1 end
            middle: fn \ -> leaf end
            top: fn \ -> middle end
        ",
    );
    assert_eq!(clusters, vec![vec![named(2)], vec![named(1)], vec![named(0)]]);
}

#[test]
fn local_functions_are_dependencies_of_their_parent() {
    let clusters = clusters(
        r"
            f: fn \ -> fn \ -> 1 end end
        ",
    );
    assert_eq!(clusters.len(), 2);
    assert_eq!(clusters[0], vec![named(0)]);
    assert!(matches!(
        clusters[1][0],
        FunctionLocation::AnonymousFunction { .. }
    ));
}
