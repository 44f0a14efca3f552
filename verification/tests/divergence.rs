use crosscut::compiler::call_graph::Cluster;
use crosscut::compiler::divergence::find_divergent_functions;
use crosscut::compiler::function_calls::FunctionCalls;
use crosscut::compiler::host::NoHost;
use crosscut::compiler::location::FunctionIndexInRootContext;
use crosscut::compiler::parse::parse;
use crosscut::compiler::tokens::tokenize;

fn divergent(code: &str, cluster: &[u32]) -> Vec<FunctionIndexInRootContext> {
    let syntax_tree = parse(tokenize(code)).unwrap();
    let function_calls = FunctionCalls::resolve(&syntax_tree, &NoHost);
    let cluster = Cluster {
        functions: cluster
            .iter()
            .map(|&index| FunctionIndexInRootContext(index))
            .collect(),
    };
    find_divergent_functions(&syntax_tree, &function_calls, &cluster)
}

#[test]
fn function_that_only_calls_itself_diverges() {
    let divergent = divergent("f: fn \\ -> f end", &[0]);
    assert_eq!(divergent, vec![FunctionIndexInRootContext(0)]);
}

#[test]
fn function_with_a_branch_that_returns_does_not_diverge() {
    let divergent = divergent("g: fn \\ 0 -> 1 \\ n -> g end", &[0]);
    assert!(divergent.is_empty());
}

#[test]
fn mutually_recursive_functions_without_exit_diverge() {
    let divergent = divergent(
        r"
            f: fn \ -> g end
            g: fn \ -> f end
        ",
        &[0, 1],
    );
    assert_eq!(
        divergent,
        vec![FunctionIndexInRootContext(0), FunctionIndexInRootContext(1)]
    );
}

#[test]
fn function_without_recursive_calls_does_not_diverge() {
    let divergent = divergent("f: fn \\ -> 1 end", &[0]);
    assert!(divergent.is_empty());
}
