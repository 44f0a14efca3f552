//! Compiling a token of the editor, with the children it was given, into a
//! node of the code: a keyword, a function that a package provides, a
//! literal, or an error.

use vstd::prelude::*;

use crate::compiler::table::Table;
use crate::language::chars_equal;
use crate::nodes::{node_children, node_hash, Codebase, FunctionId, Node, NodeHash, NodePath};
use crate::packages::{resolved_function, Packages};
use crate::text::{chars_of, parse_i32, spec_parse_i32};

verus! {

/// # A literal that a token can denote
#[derive(Clone, Copy, Debug, PartialEq, Eq, Structural)]
pub enum Literal {
    Function,
    Integer { value: i32 },
    Tuple,
}

/// # Something that a token could resolve to
#[derive(Clone, Copy, Debug, PartialEq, Eq, Structural)]
pub enum CandidateForResolution {
    Literal { literal: Literal },
    ProvidedFunction { id: FunctionId },
}

/// # An error in the code
#[derive(Debug)]
pub enum CodeError {
    TooFewChildren,
    TooManyChildren,
    /// The token could not be resolved: it means nothing, or more than one
    /// thing
    UnresolvedIdentifier { candidates: Vec<CandidateForResolution> },
}

/// # The errors in the code, by the node they are about
pub struct Errors {
    inner: Table<NodeHash, CodeError>,
}

impl Errors {
    /// The errors, by node
    pub closed spec fn error_map(&self) -> Map<NodeHash, CodeError> {
        self.inner.view()
    }

    /// # No errors
    pub fn new() -> (result: Self)
        ensures
            result.error_map() == Map::<NodeHash, CodeError>::empty(),
    {
        Errors { inner: Table::new() }
    }

    /// # Record an error about a node
    pub fn insert(&mut self, hash: NodeHash, error: CodeError)
        ensures
            final(self).error_map() == old(self).error_map().insert(hash, error),
    {
        self.inner.insert(hash, error);
    }

    /// # The error about a node, if there is one
    pub fn get(&self, hash: &NodeHash) -> (result: Option<&CodeError>)
        ensures
            match result {
                Some(error) => self.error_map().contains_key(*hash) && *error
                    == self.error_map()[*hash],
                None => !self.error_map().contains_key(*hash),
            },
    {
        self.inner.get(hash)
    }
}

/// The literal that a token denotes, if any: an integer, `fn` or `tuple`
pub open spec fn literal_of(text: Seq<char>) -> Option<Literal> {
    match spec_parse_i32(text) {
        Some(value) => Some(Literal::Integer { value }),
        None => if text == seq!['f', 'n'] {
            Some(Literal::Function)
        } else if text == seq!['t', 'u', 'p', 'l', 'e'] {
            Some(Literal::Tuple)
        } else {
            None
        },
    }
}

/// Whether a token is a keyword: `apply` or `self`
pub open spec fn is_keyword(text: Seq<char>) -> bool {
    text == seq!['a', 'p', 'p', 'l', 'y'] || text == seq!['s', 'e', 'l', 'f']
}

/// Whether a node is the error node for a token and its children
pub open spec fn is_error_for(node: Node, text: Seq<char>, children: Seq<NodeHash>) -> bool {
    match node {
        Node::Error { node: token, children: c } => token@ == text && c@ == children,
        _ => false,
    }
}

/// What a token that takes no child becomes: `expected`, or, where it has
/// children, an error
pub open spec fn without_child(
    expected: Node,
    text: Seq<char>,
    children: Seq<NodeHash>,
    node: Node,
    error: Option<CodeError>,
) -> bool {
    if children.len() == 0 {
        node == expected && error is None
    } else {
        is_error_for(node, text, children) && error == Some(CodeError::TooManyChildren)
    }
}

/// What a token that takes at most one child becomes: the node made from
/// that child, or, where it has more, an error
pub open spec fn with_optional_child(
    make: spec_fn(Option<NodeHash>) -> Node,
    text: Seq<char>,
    children: Seq<NodeHash>,
    node: Node,
    error: Option<CodeError>,
) -> bool {
    if children.len() <= 1 {
        node == make(
            if children.len() == 1 {
                Some(children[0])
            } else {
                None
            },
        ) && error is None
    } else {
        is_error_for(node, text, children) && error == Some(CodeError::TooManyChildren)
    }
}

/// What a keyword becomes
pub open spec fn keyword_outcome(
    text: Seq<char>,
    children: Seq<NodeHash>,
    node: Node,
    error: Option<CodeError>,
) -> bool {
    if text == seq!['a', 'p', 'p', 'l', 'y'] {
        if children.len() == 2 {
            node == (Node::Application { function: children[0], argument: children[1] })
                && error is None
        } else {
            is_error_for(node, text, children) && error is None
        }
    } else {
        with_optional_child(
            |argument: Option<NodeHash>| recursion(argument),
            text,
            children,
            node,
            error,
        )
    }
}

/// What a token becomes that resolves to exactly one thing: a function that a
/// package provides, or a literal
pub open spec fn function_outcome(
    text: Seq<char>,
    children: Seq<NodeHash>,
    provided: Option<FunctionId>,
    literal: Option<Literal>,
    node: Node,
    error: Option<CodeError>,
) -> bool {
    match (provided, literal) {
        (Some(id), None) => with_optional_child(
            |argument: Option<NodeHash>| provided_call(id, argument),
            text,
            children,
            node,
            error,
        ),
        (None, Some(Literal::Function)) => if children.len() == 2 {
            node == (Node::LiteralFunction { parameter: children[0], body: children[1] })
                && error is None
        } else {
            is_error_for(node, text, children) && error == Some(
                if children.len() < 2 {
                    CodeError::TooFewChildren
                } else {
                    CodeError::TooManyChildren
                },
            )
        },
        (None, Some(Literal::Integer { value })) => without_child(
            number(value),
            text,
            children,
            node,
            error,
        ),
        (None, Some(Literal::Tuple)) => (match node {
            Node::LiteralTuple { values } => values@ == children,
            _ => false,
        }) && error is None,
        _ => false,
    }
}

/// Whether a token resolves to exactly one thing
pub open spec fn resolves_once(provided: Option<FunctionId>, literal: Option<Literal>) -> bool {
    (provided is Some) != (literal is Some)
}

/// The things that a token could resolve to
pub open spec fn candidates_for(provided: Option<FunctionId>, literal: Option<Literal>) -> Seq<
    CandidateForResolution,
> {
    (match provided {
        Some(id) => seq![CandidateForResolution::ProvidedFunction { id }],
        None => Seq::empty(),
    }) + (match literal {
        Some(literal) => seq![CandidateForResolution::Literal { literal }],
        None => Seq::empty(),
    })
}

/// What a token becomes, given the function that a package provides under
/// its name, if any
pub open spec fn compiled(
    text: Seq<char>,
    children: Seq<NodeHash>,
    provided: Option<FunctionId>,
    node: Node,
    error: Option<CodeError>,
) -> bool {
    if text.len() == 0 {
        without_child(Node::Empty, text, children, node, error)
    } else if is_keyword(text) {
        keyword_outcome(text, children, node, error)
    } else if resolves_once(provided, literal_of(text)) {
        function_outcome(text, children, provided, literal_of(text), node, error)
    } else {
        is_error_for(node, text, children) && match error {
            Some(CodeError::UnresolvedIdentifier { candidates }) => candidates@ == candidates_for(
                provided,
                literal_of(text),
            ),
            _ => false,
        }
    }
}

/// A token compiles to a node whose children are the token's children, in
/// their order: a function literal's parameter is the first child, its body
/// the second, an application's function the first, its argument the second;
/// where the token makes no valid node, the error node keeps them
pub proof fn law_compiled_node_keeps_children(
    text: Seq<char>,
    children: Seq<NodeHash>,
    provided: Option<FunctionId>,
    node: Node,
    error: Option<CodeError>,
)
    requires
        compiled(text, children, provided, node, error),
    ensures
        node_children(node) == children,
{
    if children.len() == 1 {
        assert(seq![children[0]] =~= children);
    }
    if children.len() == 2 {
        assert(seq![children[0], children[1]] =~= children);
    }
    if children.len() == 0 {
        assert(Seq::<NodeHash>::empty() =~= children);
    }
}

/// A call of the function that the node is in
pub open spec fn recursion(argument: Option<NodeHash>) -> Node {
    Node::Recursion { argument }
}

/// A call of a function that a package provides
pub open spec fn provided_call(id: FunctionId, argument: Option<NodeHash>) -> Node {
    Node::ProvidedFunction { id, argument }
}

/// A number literal
pub open spec fn number(value: i32) -> Node {
    Node::LiteralNumber { value }
}

fn make_empty() -> (node: Node)
    ensures
        node == Node::Empty,
{
    Node::Empty
}

fn make_recursion(argument: Option<NodeHash>) -> (node: Node)
    ensures
        node == recursion(argument),
{
    Node::Recursion { argument }
}

fn make_provided_call(id: FunctionId, argument: Option<NodeHash>) -> (node: Node)
    ensures
        node == provided_call(id, argument),
{
    Node::ProvidedFunction { id, argument }
}

fn make_number(value: i32) -> (node: Node)
    ensures
        node == number(value),
{
    Node::LiteralNumber { value }
}

/// # A token, as the editor hands it to the compiler
pub struct Token<'r> {
    /// The text of the token
    pub text: &'r str,
    /// The path of the node that the token is a child of, if any
    pub parent: Option<&'r NodePath>,
    /// The index of the token among its siblings
    pub sibling_index: usize,
    /// The nodes that the token's node has as children
    pub children: Vec<NodeHash>,
}

impl<'r> Token<'r> {
    /// # Compile the token into a node, and add it to the code
    ///
    /// Where the token does not make a valid node, the node records the
    /// token as an error, and the error is recorded.
    pub fn compile(self, codebase: &mut Codebase, errors: &mut Errors, packages: &Packages) -> (hash:
        NodeHash)
        ensures
            final(codebase).root_path() == old(codebase).root_path(),
            final(codebase).node_map().contains_key(hash),
            final(codebase).node_map() == old(codebase).node_map().insert(
                hash,
                final(codebase).node_map()[hash],
            ),
            hash.bytes() == node_hash(final(codebase).node_map()[hash]),
            node_children(final(codebase).node_map()[hash]) == self.children@,
            exists|error: Option<CodeError>|
                {
                    &&& compiled(
                        self.text@,
                        self.children@,
                        resolved_function(packages.function_names(), self.text@),
                        final(codebase).node_map()[hash],
                        error,
                    )
                    &&& final(errors).error_map() == match error {
                        Some(e) => old(errors).error_map().insert(hash, e),
                        None => old(errors).error_map(),
                    }
                },
    {
        let text = self.text;
        let children = self.children;
        let chars = chars_of(text);
        let ghost provided = resolved_function(packages.function_names(), text@);
        let (node, maybe_error) = if chars.len() == 0 {
            node_with_no_child_or_error(
                make_empty,
                text,
                children,
            )
        } else {
            match resolve_keyword(text, &children) {
                Some((node, maybe_error)) => (node, maybe_error),
                None => match resolve_function(text, children, packages) {
                    Ok((node, maybe_error)) => (node, maybe_error),
                    Err((children, candidates)) => (
                        Node::Error { node: text.to_owned(), children },
                        Some(CodeError::UnresolvedIdentifier { candidates }),
                    ),
                },
            }
        };
        let ghost compiled_node = node;
        let ghost compiled_error = maybe_error;
        assert(compiled(text@, self.children@, provided, compiled_node, compiled_error));
        proof {
            law_compiled_node_keeps_children(text@, self.children@, provided, compiled_node, compiled_error);
        }
        let hash = codebase.add(node);
        match maybe_error {
            Some(error) => {
                errors.insert(hash, error);
            },
            None => {},
        }
        assert(final(codebase).node_map()[hash] == compiled_node);
        hash
    }
}

/// # Resolve a keyword: `apply` or `self`
pub fn resolve_keyword(name: &str, children: &Vec<NodeHash>) -> (result: Option<(Node, Option<CodeError>)>)
    ensures
        match result {
            Some((node, error)) => is_keyword(name@) && keyword_outcome(
                name@,
                children@,
                node,
                error,
            ),
            None => !is_keyword(name@),
        },
{
    let chars = chars_of(name);
    let apply = vec!['a', 'p', 'p', 'l', 'y'];
    let self_keyword = vec!['s', 'e', 'l', 'f'];
    assert(apply@ =~= seq!['a', 'p', 'p', 'l', 'y']);
    assert(self_keyword@ =~= seq!['s', 'e', 'l', 'f']);
    if chars_equal(&chars, &apply) {
        if children.len() == 2 {
            Some((Node::Application { function: children[0], argument: children[1] }, None))
        } else {
            Some((Node::Error { node: name.to_owned(), children: children.clone() }, None))
        }
    } else if chars_equal(&chars, &self_keyword) {
        Some(
            node_with_one_child_or_error(
                make_recursion,
                name,
                children.clone(),
            ),
        )
    } else {
        None
    }
}

/// # Resolve a token to a function that a package provides, or a literal
///
/// Where it resolves to neither, or to both, gives back the children, with
/// what the token could have resolved to.
pub fn resolve_function(name: &str, children: Vec<NodeHash>, packages: &Packages) -> (result: Result<
    (Node, Option<CodeError>),
    (Vec<NodeHash>, Vec<CandidateForResolution>),
>)
    ensures
        ({
            let provided = resolved_function(packages.function_names(), name@);
            let literal = literal_of(name@);
            match result {
                Ok((node, error)) => resolves_once(provided, literal) && function_outcome(
                    name@,
                    children@,
                    provided,
                    literal,
                    node,
                    error,
                ),
                Err((c, candidates)) => !resolves_once(provided, literal) && c@ == children@
                    && candidates@ == candidates_for(provided, literal),
            }
        }),
{
    let provided_function = packages.resolve_function(name);
    let literal = resolve_literal(name);

    match (provided_function, literal) {
        (Some(id), None) => Ok(
            node_with_one_child_or_error(
                |argument: Option<NodeHash>| -> (made: Node) ensures made == provided_call(id, argument) { make_provided_call(id, argument) },
                name,
                children,
            ),
        ),
        (None, Some(literal)) => match literal {
            Literal::Function => {
                if children.len() == 2 {
                    Ok((Node::LiteralFunction { parameter: children[0], body: children[1] }, None))
                } else {
                    let error = if children.len() < 2 {
                        CodeError::TooFewChildren
                    } else {
                        CodeError::TooManyChildren
                    };
                    Ok((Node::Error { node: name.to_owned(), children }, Some(error)))
                }
            },
            Literal::Integer { value } => Ok(
                node_with_no_child_or_error(
                    || -> (made: Node) ensures made == number(value) { make_number(value) },
                    name,
                    children,
                ),
            ),
            Literal::Tuple => Ok((Node::LiteralTuple { values: children }, None)),
        },
        (None, None) => {
            let candidates = Vec::new();
            assert(candidates@ =~= candidates_for(None, None));
            Err((children, candidates))
        },
        (provided_function, literal) => {
            let mut candidates = Vec::new();
            if let Some(id) = provided_function {
                candidates.push(CandidateForResolution::ProvidedFunction { id });
            }
            if let Some(literal) = literal {
                candidates.push(CandidateForResolution::Literal { literal });
            }
            assert(candidates@ =~= candidates_for(provided_function, literal));
            Err((children, candidates))
        },
    }
}

/// # The literal that a token denotes, if any
///
/// An integer, where the token parses as an `i32`; else `fn` and `tuple`.
pub fn resolve_literal(name: &str) -> (result: Option<Literal>)
    ensures
        result == literal_of(name@),
{
    let chars = chars_of(name);
    if let Some(value) = parse_i32(&chars) {
        Some(Literal::Integer { value })
    } else {
        let function = vec!['f', 'n'];
        let tuple = vec!['t', 'u', 'p', 'l', 'e'];
        assert(function@ =~= seq!['f', 'n']);
        assert(tuple@ =~= seq!['t', 'u', 'p', 'l', 'e']);
        if chars_equal(&chars, &function) {
            Some(Literal::Function)
        } else if chars_equal(&chars, &tuple) {
            Some(Literal::Tuple)
        } else {
            None
        }
    }
}

/// # The node, where the token has no children; else an error
pub fn node_with_no_child_or_error(
    node: impl FnOnce() -> Node,
    token: &str,
    children: Vec<NodeHash>,
) -> (result: (Node, Option<CodeError>))
    requires
        node.requires(()),
    ensures
        children@.len() == 0 ==> node.ensures((), result.0) && result.1 is None,
        children@.len() > 0 ==> is_error_for(result.0, token@, children@) && result.1 == Some(
            CodeError::TooManyChildren,
        ),
{
    if children.len() == 0 {
        (node(), None)
    } else {
        (Node::Error { node: token.to_owned(), children }, Some(CodeError::TooManyChildren))
    }
}

/// # The node made from the child, where the token has at most one; else an
/// error
pub fn node_with_one_child_or_error(
    node_from_child: impl FnOnce(Option<NodeHash>) -> Node,
    token: &str,
    children: Vec<NodeHash>,
) -> (result: (Node, Option<CodeError>))
    requires
        forall|child: Option<NodeHash>| node_from_child.requires((child,)),
    ensures
        children@.len() <= 1 ==> node_from_child.ensures(
            (
                if children@.len() == 1 {
                    Some(children@[0])
                } else {
                    None
                },
            ),
            result.0,
        ) && result.1 is None,
        children@.len() > 1 ==> is_error_for(result.0, token@, children@) && result.1 == Some(
            CodeError::TooManyChildren,
        ),
{
    if children.len() <= 1 {
        let child = if children.len() == 1 {
            Some(children[0])
        } else {
            None
        };
        (node_from_child(child), None)
    } else {
        (Node::Error { node: token.to_owned(), children }, Some(CodeError::TooManyChildren))
    }
}

} // verus!
