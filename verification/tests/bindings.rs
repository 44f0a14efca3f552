use crosscut::compiler::bindings::Bindings;
use crosscut::compiler::location::{
    BranchIndex, BranchLocation, FragmentIndexInBranchBody, FunctionLocation, MemberLocation,
};
use crosscut::compiler::parse::parse;
use crosscut::compiler::syntax::SyntaxTree;
use crosscut::compiler::tokens::tokenize;

fn resolve_bindings(input: &str) -> (SyntaxTree, Bindings) {
    let tokens = tokenize(input);
    let syntax_tree = parse(tokens).unwrap();
    let bindings = Bindings::resolve(&syntax_tree);

    (syntax_tree, bindings)
}

/// The location of the member with the given index, in the single branch of
/// the function at the given location
fn member(function: &FunctionLocation, index: u32) -> MemberLocation {
    MemberLocation {
        parent: Box::new(BranchLocation {
            parent: Box::new(function.clone()),
            index: BranchIndex(1),
        }),
        index: FragmentIndexInBranchBody(index),
    }
}

fn named(syntax_tree: &SyntaxTree, name: &str) -> FunctionLocation {
    FunctionLocation::NamedFunction {
        index: syntax_tree.function_by_name(name).unwrap(),
    }
}

fn local(location: MemberLocation) -> FunctionLocation {
    FunctionLocation::AnonymousFunction {
        location: Box::new(location),
    }
}

#[test]
fn resolve_parameter_of_function() {
    // An identifier with the same name as a function's parameter should be
    // resolved as a binding.

    let (syntax_tree, bindings) = resolve_bindings(
        r"
            f: fn
                \ parameter ->
                    parameter
                    no_parameter
            end
        ",
    );

    let f = named(&syntax_tree, "f");
    let (parameter, no_parameter) = (member(&f, 1), member(&f, 2));

    assert!(bindings.is_binding(&parameter));
    assert!(!bindings.is_binding(&no_parameter));
}

#[test]
fn resolve_parameter_of_parent_function() {
    // An identifier with the same name as the parameter of a parent
    // function should be resolved as a binding.

    let (syntax_tree, bindings) = resolve_bindings(
        r"
            f: fn
                \ parameter ->
                    fn
                        \ ->
                            parameter
                            no_parameter
                    end
            end
        ",
    );

    let function = local(member(&named(&syntax_tree, "f"), 1));
    let (parameter, no_parameter) = (member(&function, 1), member(&function, 2));

    assert!(bindings.is_binding(&parameter));
    assert!(!bindings.is_binding(&no_parameter));

    assert!(bindings.environment_of(&function).contains("parameter"));
}

#[test]
fn do_not_resolve_parameter_of_child_function() {
    // Identifiers that share a name with a parameter of a child function
    // should not be resolved as bindings.

    let (syntax_tree, bindings) = resolve_bindings(
        r"
            f: fn
                \ ->
                    fn
                        \ child_parameter ->
                    end

                    child_parameter
            end
        ",
    );

    let child_parameter = member(&named(&syntax_tree, "f"), 2);

    assert!(!bindings.is_binding(&child_parameter));
}

#[test]
fn track_indirect_bindings_in_environment() {
    // If a function doesn't access a binding from a parent scope itself,
    // but one of its child functions does, the binding still needs to be
    // part of the function's environment.

    let (syntax_tree, bindings) = resolve_bindings(
        r"
            f: fn
                \ binding ->
                    fn
                        \ ->
                            fn
                                \ ->
                                    binding
                            end
                    end

            end
        ",
    );

    let function = local(member(&named(&syntax_tree, "f"), 1));

    assert!(bindings.environment_of(&function).contains("binding"));
}

#[test]
fn own_parameters_are_not_part_of_the_environment() {
    let (syntax_tree, bindings) = resolve_bindings(
        r"
            f: fn
                \ a ->
                    fn
                        \ a ->
                            a
                    end
            end
        ",
    );

    let f = named(&syntax_tree, "f");
    let function = local(member(&f, 1));
    assert!(bindings.is_binding(&member(&function, 1)));
    assert!(!bindings.environment_of(&function).contains("a"));
    assert!(!bindings.environment_of(&f).contains("a"));
}
