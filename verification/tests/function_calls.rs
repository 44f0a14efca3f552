use crosscut::compiler::function_calls::FunctionCalls;
use crosscut::compiler::host::{HostFunction, ListHost};
use crosscut::compiler::location::{BranchLocation, FunctionLocation, MemberLocation};
use crosscut::compiler::parse::parse;
use crosscut::compiler::syntax::SyntaxTree;
use crosscut::compiler::tokens::tokenize;

fn resolve_function_calls(input: &str) -> (SyntaxTree, FunctionCalls) {
    let tokens = tokenize(input);
    let syntax_tree = parse(tokens).unwrap();
    let host = ListHost::new(vec![HostFunction {
        name: "host_fn".into(),
        number: 0,
    }]);
    let function_calls = FunctionCalls::resolve(&syntax_tree, &host);

    (syntax_tree, function_calls)
}

/// The location of the first expression in the single branch of the named
/// function
fn first_expression_of_single_branch(syntax_tree: &SyntaxTree, name: &str) -> MemberLocation {
    let index = syntax_tree.function_by_name(name).unwrap();
    let function = &syntax_tree.named_functions[index.0 as usize];
    assert_eq!(function.branches.len(), 1);
    let (branch_index, branch) = &function.branches[0];
    let (member_index, _) = &branch.body[0];

    MemberLocation {
        parent: Box::new(BranchLocation {
            parent: Box::new(FunctionLocation::NamedFunction { index }),
            index: *branch_index,
        }),
        index: *member_index,
    }
}

#[test]
fn resolve_host_function() {
    // The host can provide functions. Calls to these host functions should
    // be resolved as such.

    let (syntax_tree, function_calls) = resolve_function_calls(
        r"
            f: fn
                \ ->
                    host_fn
            end
        ",
    );

    let host_fn = first_expression_of_single_branch(&syntax_tree, "f");

    assert!(function_calls.is_call_to_host_function(&host_fn).is_some());
    assert!(function_calls
        .is_call_to_intrinsic_function(&host_fn)
        .is_none());
    assert!(!function_calls.is_call_to_user_defined_function(&host_fn));
}

#[test]
fn resolve_intrinsic_function() {
    // The compiler provides intrinsic functions. Calls to these should be
    // resolved as such.

    let (syntax_tree, function_calls) = resolve_function_calls(
        r"
            f: fn
                \ ->
                    nop
            end
        ",
    );

    let nop = first_expression_of_single_branch(&syntax_tree, "f");

    assert!(function_calls.is_call_to_host_function(&nop).is_none());
    assert!(function_calls.is_call_to_intrinsic_function(&nop).is_some());
    assert!(!function_calls.is_call_to_user_defined_function(&nop));
}

#[test]
fn resolve_user_defined_function() {
    // If a function is defined in the code, it should be resolved.

    let (syntax_tree, function_calls) = resolve_function_calls(
        r"
            f: fn
                \ ->
                    user_fn
            end

            user_fn: fn
                \ ->
            end
        ",
    );

    let nop = first_expression_of_single_branch(&syntax_tree, "f");

    assert!(function_calls.is_call_to_host_function(&nop).is_none());
    assert!(function_calls.is_call_to_intrinsic_function(&nop).is_none());
    assert!(function_calls.is_call_to_user_defined_function(&nop));
}

#[test]
fn host_function_call_carries_its_number() {
    let (syntax_tree, function_calls) = resolve_function_calls(
        r"
            f: fn
                \ ->
                    host_fn
            end
        ",
    );
    let host_fn = first_expression_of_single_branch(&syntax_tree, "f");
    let function = function_calls.is_call_to_host_function(&host_fn).unwrap();
    assert_eq!(function.name, "host_fn");
    assert_eq!(function.number, 0);
}

#[test]
fn calls_in_local_functions_are_resolved() {
    let (syntax_tree, function_calls) = resolve_function_calls(
        r"
            f: fn
                \ ->
                    fn
                        \ ->
                            nop
                    end
            end
        ",
    );
    let local = first_expression_of_single_branch(&syntax_tree, "f");
    let nop = MemberLocation {
        parent: Box::new(BranchLocation {
            parent: Box::new(FunctionLocation::AnonymousFunction {
                location: Box::new(local.clone()),
            }),
            index: crosscut::compiler::location::BranchIndex(1),
        }),
        index: crosscut::compiler::location::FragmentIndexInBranchBody(1),
    };
    assert!(function_calls.is_call_to_intrinsic_function(&nop).is_some());
    assert!(function_calls.is_call_to_intrinsic_function(&local).is_none());
}
