use crosscut::nodes::{hash_node, Codebase, FunctionId, Node, NodeHash};
use crosscut::packages::Packages;
use crosscut::token::{resolve_literal, CandidateForResolution, CodeError, Errors, Literal, Token};

struct Setup {
    codebase: Codebase,
    errors: Errors,
    packages: Packages,
    children: Vec<NodeHash>,
}

fn setup() -> Setup {
    let mut codebase = Codebase::new();
    let children = vec![
        codebase.add(Node::LiteralNumber { value: 1 }),
        codebase.add(Node::LiteralNumber { value: 2 }),
        codebase.add(Node::LiteralNumber { value: 3 }),
    ];
    let mut packages = Packages::new();
    packages.add_function("double");
    packages.add_function("7");
    Setup {
        codebase,
        errors: Errors::new(),
        packages,
        children,
    }
}

fn compile(setup: &mut Setup, text: &str, children: usize) -> NodeHash {
    let token = Token {
        text,
        parent: None,
        sibling_index: 0,
        children: setup.children[..children].to_vec(),
    };
    token.compile(&mut setup.codebase, &mut setup.errors, &setup.packages)
}

fn error_of(setup: &Setup, hash: NodeHash) -> Option<&CodeError> {
    setup.errors.get(&hash)
}

fn node(setup: &Setup, hash: NodeHash) -> &Node {
    let path = crosscut::nodes::NodePath::for_root(hash);
    setup.codebase.node_at(&path).unwrap()
}

#[test]
fn empty_token_is_an_empty_node() {
    let mut setup = setup();
    let hash = compile(&mut setup, "", 0);
    let error = error_of(&setup, hash);
    assert!(error.is_none());
    assert!(matches!(node(&setup, hash), Node::Empty));
    assert_eq!(hash, hash_node(&Node::Empty));

    let hash = compile(&mut setup, "", 1);
    let error = error_of(&setup, hash);
    assert!(matches!(error, Some(CodeError::TooManyChildren)));
    assert!(matches!(node(&setup, hash), Node::Error { node, children } if node.is_empty() && children.len() == 1));
}

#[test]
fn apply_needs_a_function_and_an_argument() {
    let mut setup = setup();
    let hash = compile(&mut setup, "apply", 2);
    let error = error_of(&setup, hash);
    assert!(error.is_none());
    let expected = (setup.children[0], setup.children[1]);
    assert!(matches!(node(&setup, hash), Node::Application { function, argument } if (*function, *argument) == expected));

    let hash = compile(&mut setup, "apply", 1);
    let error = error_of(&setup, hash);
    assert!(error.is_none());
    assert!(matches!(node(&setup, hash), Node::Error { node, .. } if node == "apply"));
}

#[test]
fn self_takes_at_most_one_argument() {
    let mut setup = setup();
    let hash = compile(&mut setup, "self", 0);
    assert!(matches!(node(&setup, hash), Node::Recursion { argument: None }));

    let child = setup.children[0];
    let hash = compile(&mut setup, "self", 1);
    assert!(matches!(node(&setup, hash), Node::Recursion { argument: Some(a) } if *a == child));

    let hash = compile(&mut setup, "self", 2);
    let error = error_of(&setup, hash);
    assert!(matches!(error, Some(CodeError::TooManyChildren)));
}

#[test]
fn provided_functions_are_resolved_by_name() {
    let mut setup = setup();
    let child = setup.children[0];
    let hash = compile(&mut setup, "double", 1);
    let error = error_of(&setup, hash);
    assert!(error.is_none());
    assert!(matches!(
        node(&setup, hash),
        Node::ProvidedFunction { id: FunctionId(0), argument: Some(a) } if *a == child
    ));
}

#[test]
fn literals() {
    let mut setup = setup();
    let hash = compile(&mut setup, "-12", 0);
    let error = error_of(&setup, hash);
    assert!(error.is_none());
    assert!(matches!(node(&setup, hash), Node::LiteralNumber { value: -12 }));

    let hash = compile(&mut setup, "12", 1);
    let error = error_of(&setup, hash);
    assert!(matches!(error, Some(CodeError::TooManyChildren)));

    let hash = compile(&mut setup, "fn", 2);
    let error = error_of(&setup, hash);
    assert!(error.is_none());
    assert!(matches!(node(&setup, hash), Node::LiteralFunction { .. }));

    let hash = compile(&mut setup, "fn", 1);
    let error = error_of(&setup, hash);
    assert!(matches!(error, Some(CodeError::TooFewChildren)));
    let hash = compile(&mut setup, "fn", 3);
    let error = error_of(&setup, hash);
    assert!(matches!(error, Some(CodeError::TooManyChildren)));

    let hash = compile(&mut setup, "tuple", 3);
    let error = error_of(&setup, hash);
    assert!(error.is_none());
    assert!(matches!(node(&setup, hash), Node::LiteralTuple { values } if values.len() == 3));
}

#[test]
fn unknown_and_ambiguous_tokens_are_errors() {
    let mut setup = setup();
    let hash = compile(&mut setup, "unknown", 0);
    let error = error_of(&setup, hash);
    assert!(matches!(error, Some(CodeError::UnresolvedIdentifier { candidates }) if candidates.is_empty()));
    assert!(matches!(node(&setup, hash), Node::Error { node, .. } if node == "unknown"));

    let hash = compile(&mut setup, "7", 0);
    let error = error_of(&setup, hash);
    match error {
        Some(CodeError::UnresolvedIdentifier { candidates }) => assert_eq!(
            candidates,
            &vec![
                CandidateForResolution::ProvidedFunction { id: FunctionId(1) },
                CandidateForResolution::Literal {
                    literal: Literal::Integer { value: 7 }
                },
            ]
        ),
        other => panic!("unexpected error: {other:?}"),
    }
}

#[test]
fn literals_parse_like_integers() {
    assert_eq!(resolve_literal("+3"), Some(Literal::Integer { value: 3 }));
    assert_eq!(resolve_literal("2147483648"), None);
    assert_eq!(resolve_literal("-2147483648"), Some(Literal::Integer { value: i32::MIN }));
    assert_eq!(resolve_literal("fn"), Some(Literal::Function));
    assert_eq!(resolve_literal("tuple"), Some(Literal::Tuple));
    assert_eq!(resolve_literal("-"), None);
}
