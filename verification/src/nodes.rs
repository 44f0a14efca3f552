//! Code as a tree of nodes that are identified by the hash of their content,
//! and located by their path from the root.

use vstd::prelude::*;

use crate::compiler::changes::{text_bytes, u64_bytes};
use crate::compiler::hash::blake3_digest;
use crate::compiler::table::{Key, Table};

verus! {

/// # Identifies a node by the hash of its content
#[derive(Clone, Copy, Debug, PartialEq, Eq)]
pub struct NodeHash {
    hash: crate::compiler::hash::Hash,
}

impl NodeHash {
    /// The bytes of the hash
    pub closed spec fn bytes(&self) -> Seq<u8> {
        self.hash.bytes()
    }
}

impl Key for NodeHash {
    fn same_key(&self, other: &Self) -> (result: bool) {
        self.hash.same_key(&other.hash)
    }

    fn copy_key(&self) -> (result: Self) {
        *self
    }
}

/// # Identifies a function that a package provides
#[derive(Clone, Copy, Debug, PartialEq, Eq, Structural)]
pub struct FunctionId(pub u32);

/// # A node of code
#[derive(Debug)]
pub enum Node {
    /// The application of a function to an argument
    Application { function: NodeHash, argument: NodeHash },
    /// A placeholder, while nothing was typed
    Empty,
    /// A function literal: its parameter and its body
    LiteralFunction { parameter: NodeHash, body: NodeHash },
    /// A number literal
    LiteralNumber { value: i32 },
    /// A tuple literal, of its children
    LiteralTuple { values: Vec<NodeHash> },
    /// A call of a function that a package provides
    ProvidedFunction { id: FunctionId, argument: Option<NodeHash> },
    /// A call of the function that the node is in
    Recursion { argument: Option<NodeHash> },
    /// A token that could not be resolved, with its children
    Error { node: String, children: Vec<NodeHash> },
}

/// The children of a node, in order
pub open spec fn node_children(node: Node) -> Seq<NodeHash> {
    match node {
        Node::Application { function, argument } => seq![function, argument],
        Node::LiteralFunction { parameter, body } => seq![parameter, body],
        Node::LiteralTuple { values } => values@,
        Node::ProvidedFunction { argument, .. } => optional_child(argument),
        Node::Recursion { argument } => optional_child(argument),
        Node::Error { children, .. } => children@,
        _ => Seq::empty(),
    }
}

/// The child that a node may have
pub open spec fn optional_child(child: Option<NodeHash>) -> Seq<NodeHash> {
    match child {
        Some(child) => seq![child],
        None => Seq::empty(),
    }
}

/// The bytes that encode the hashes of a node's children
pub open spec fn children_bytes(children: Seq<NodeHash>) -> Seq<u8>
    decreases children.len(),
{
    if children.len() == 0 {
        Seq::empty()
    } else {
        children_bytes(children.drop_last()) + children.last().bytes()
    }
}

/// The bytes that encode the children of a node: their number, then their
/// hashes
pub open spec fn counted_children_bytes(children: Seq<NodeHash>) -> Seq<u8> {
    u64_bytes(children.len() as u64) + children_bytes(children)
}

/// The bytes that encode a node
pub open spec fn node_bytes(node: Node) -> Seq<u8> {
    match node {
        Node::Empty => seq![0u8],
        Node::LiteralNumber { value } => seq![1u8] + u64_bytes(value as u32 as u64),
        Node::Error { node, children } => seq![2u8] + text_bytes(node@) + counted_children_bytes(
            children@,
        ),
        Node::Application { .. } => seq![3u8] + counted_children_bytes(node_children(node)),
        Node::LiteralFunction { .. } => seq![4u8] + counted_children_bytes(node_children(node)),
        Node::LiteralTuple { .. } => seq![5u8] + counted_children_bytes(node_children(node)),
        Node::ProvidedFunction { id, .. } => seq![6u8] + u64_bytes(id.0 as u64)
            + counted_children_bytes(node_children(node)),
        Node::Recursion { .. } => seq![7u8] + counted_children_bytes(node_children(node)),
    }
}

/// The hash of a node: the digest of the bytes that encode it
pub open spec fn node_hash(node: Node) -> Seq<u8> {
    blake3_digest(node_bytes(node))
}

/// # The hash of a node
pub fn hash_node(node: &Node) -> (result: NodeHash)
    ensures
        result.bytes() == node_hash(*node),
{
    let mut bytes: Vec<u8> = Vec::new();
    match node {
        Node::Empty => bytes.push(0u8),
        Node::LiteralNumber { value } => {
            bytes.push(1u8);
            push_u64(&mut bytes, #[verifier::truncate] (*value as u32) as u64);
        },
        Node::Error { node, children } => {
            bytes.push(2u8);
            push_text(&mut bytes, node);
            push_children(&mut bytes, children);
        },
        Node::Application { function, argument } => {
            bytes.push(3u8);
            push_children(&mut bytes, &vec![*function, *argument]);
        },
        Node::LiteralFunction { parameter, body } => {
            bytes.push(4u8);
            push_children(&mut bytes, &vec![*parameter, *body]);
        },
        Node::LiteralTuple { values } => {
            bytes.push(5u8);
            push_children(&mut bytes, values);
        },
        Node::ProvidedFunction { id, argument } => {
            bytes.push(6u8);
            push_u64(&mut bytes, id.0 as u64);
            push_children(&mut bytes, &optional_children(argument));
        },
        Node::Recursion { argument } => {
            bytes.push(7u8);
            push_children(&mut bytes, &optional_children(argument));
        },
    }
    assert(bytes@ =~= node_bytes(*node));
    NodeHash { hash: crate::compiler::hash::Hash::new(bytes.as_slice()) }
}

/// The child that a node may have, as a vector
fn optional_children(child: &Option<NodeHash>) -> (result: Vec<NodeHash>)
    ensures
        result@ == optional_child(*child),
{
    match child {
        Some(child) => {
            let result = vec![*child];
            assert(result@ =~= seq![*child]);
            result
        },
        None => Vec::new(),
    }
}

/// Append the encoding of children: their number, then their hashes
fn push_children(bytes: &mut Vec<u8>, children: &Vec<NodeHash>)
    ensures
        final(bytes)@ == old(bytes)@ + counted_children_bytes(children@),
{
    push_u64(bytes, children.len() as u64);
    let ghost start = bytes@;
    let mut i: usize = 0;
    assert(children@.take(0) =~= Seq::<NodeHash>::empty());
    while i < children.len()
        invariant
            i <= children@.len(),
            bytes@ == start + children_bytes(children@.take(i as int)),
        decreases children@.len() - i,
    {
        let child = children[i].hash.to_bytes();
        let mut k: usize = 0;
        let ghost before = bytes@;
        while k < 32
            invariant
                k <= 32,
                child@.len() == 32,
                bytes@ == before + child@.take(k as int),
            decreases 32 - k,
        {
            bytes.push(child[k]);
            k = k + 1;
            assert(bytes@ =~= before + child@.take(k as int));
        }
        proof {
            assert(child@.take(32) =~= child@);
            let taken = children@.take(i + 1);
            assert(taken.drop_last() =~= children@.take(i as int));
        }
        i = i + 1;
        assert(bytes@ =~= start + children_bytes(children@.take(i as int)));
    }
    assert(children@.take(i as int) =~= children@);
}

fn push_u64(out: &mut Vec<u8>, value: u64)
    ensures
        final(out)@ == old(out)@ + u64_bytes(value),
{
    crate::compiler::changes::push_u64(out, value);
}

fn push_text(out: &mut Vec<u8>, text: &String)
    ensures
        final(out)@ == old(out)@ + text_bytes(text@),
{
    crate::compiler::changes::push_text(out, text);
}

/// # The location of a node: its hash, the path of its parent, and its index
/// among its siblings
#[derive(Debug, PartialEq, Eq)]
pub struct NodePath {
    pub hash: NodeHash,
    pub parent: Option<Box<NodePath>>,
    pub sibling_index: usize,
}

/// # A copy of a path
pub fn copy_path(path: &NodePath) -> (result: NodePath)
    ensures
        result == *path,
    decreases path,
{
    NodePath {
        hash: path.hash,
        parent: match &path.parent {
            Some(parent) => Some(Box::new(copy_path(parent))),
            None => None,
        },
        sibling_index: path.sibling_index,
    }
}

impl Clone for NodePath {
    fn clone(&self) -> (result: Self)
        ensures
            result == *self,
    {
        copy_path(self)
    }
}

/// # Whether two paths are the same
pub fn same_path(a: &NodePath, b: &NodePath) -> (result: bool)
    ensures
        result == (*a == *b),
    decreases a,
{
    if !a.hash.same_key(&b.hash) || a.sibling_index != b.sibling_index {
        return false;
    }
    match (&a.parent, &b.parent) {
        (Some(p), Some(q)) => same_path(p, q),
        (None, None) => true,
        _ => false,
    }
}

/// The sibling index of a node, after the node at `removed` was removed: one
/// less, where the removed node was a sibling before it
pub open spec fn sibling_index_after_removal(path: NodePath, removed: NodePath) -> usize {
    if path.parent == removed.parent && path.sibling_index > removed.sibling_index {
        (path.sibling_index - 1) as usize
    } else {
        path.sibling_index
    }
}

/// # The sibling index of a node, after another node was removed
pub fn update_sibling_index_on_remove(path: &NodePath, removed: &NodePath) -> (result: usize)
    ensures
        result == sibling_index_after_removal(*path, *removed),
{
    let same_parent = match (&path.parent, &removed.parent) {
        (Some(p), Some(q)) => same_path(p, q),
        (None, None) => true,
        _ => false,
    };
    if same_parent && path.sibling_index > removed.sibling_index {
        path.sibling_index - 1
    } else {
        path.sibling_index
    }
}

/// The path of the child with the given hash, at the given index among the
/// children of the node at `parent`
pub open spec fn child_path(parent: NodePath, hash: NodeHash, index: int) -> NodePath {
    NodePath { hash, parent: Some(Box::new(parent)), sibling_index: index as usize }
}

impl NodePath {
    /// # The path of a node at the root of the tree
    pub fn for_root(hash: NodeHash) -> (result: NodePath)
        ensures
            result == (NodePath { hash, parent: None, sibling_index: 0 }),
    {
        NodePath { hash, parent: None, sibling_index: 0 }
    }
}

/// Siblings, even identical ones, have distinct paths
pub proof fn lemma_siblings_distinct(parent: NodePath, a: NodeHash, i: int, b: NodeHash, j: int)
    requires
        0 <= i < j <= usize::MAX,
    ensures
        child_path(parent, a, i) != child_path(parent, b, j),
{
    assert(child_path(parent, a, i).sibling_index != child_path(parent, b, j).sibling_index);
}

/// Children of nodes at distinct paths, even identical ones, have distinct
/// paths
pub proof fn lemma_children_of_distinct_parents_distinct(
    p: NodePath,
    q: NodePath,
    a: NodeHash,
    i: int,
    b: NodeHash,
    j: int,
)
    requires
        p != q,
    ensures
        child_path(p, a, i) != child_path(q, b, j),
{
    if child_path(p, a, i) == child_path(q, b, j) {
        assert(child_path(p, a, i).parent == child_path(q, b, j).parent);
        assert(*child_path(p, a, i).parent->0 == p);
    }
}

/// # Code: a tree of nodes, by their hashes, and the path of its root
#[derive(Debug)]
pub struct Codebase {
    root: NodePath,
    nodes: Table<NodeHash, Node>,
}

impl Codebase {
    /// The path of the root node
    pub closed spec fn root_path(&self) -> NodePath {
        self.root
    }

    /// The nodes, by their hashes
    pub closed spec fn node_map(&self) -> Map<NodeHash, Node> {
        self.nodes.view()
    }

    /// # Code that consists of a single empty node
    pub fn new() -> (result: Self)
        ensures
            result.root_path().parent is None,
            result.root_path().hash.bytes() == node_hash(Node::Empty),
            result.node_map() == Map::<NodeHash, Node>::empty().insert(result.root_path().hash, Node::Empty),
    {
        let mut nodes = Table::new();
        let hash = hash_node(&Node::Empty);
        nodes.insert(hash, Node::Empty);
        Codebase { root: NodePath::for_root(hash), nodes }
    }

    /// # The path of the root node
    pub fn root(&self) -> (result: NodePath)
        ensures
            result == self.root_path(),
    {
        copy_path(&self.root)
    }

    /// # Add a node, and return its hash
    ///
    /// Adding a node that is already there changes nothing.
    pub fn add(&mut self, node: Node) -> (result: NodeHash)
        ensures
            result.bytes() == node_hash(node),
            final(self).node_map() == old(self).node_map().insert(result, node),
            final(self).root_path() == old(self).root_path(),
    {
        let hash = hash_node(&node);
        self.nodes.insert(hash, node);
        hash
    }

    /// # Make the node at the given path the root
    pub fn replace_root(&mut self, root: NodePath)
        ensures
            final(self).root_path() == root,
            final(self).node_map() == old(self).node_map(),
    {
        self.root = root;
    }

    /// # The node at the given path, if the code has it
    pub fn node_at(&self, path: &NodePath) -> (result: Option<&Node>)
        ensures
            match result {
                Some(node) => self.node_map().contains_key(path.hash) && *node == self.node_map()[path.hash],
                None => !self.node_map().contains_key(path.hash),
            },
    {
        self.nodes.get(&path.hash)
    }

    /// # The paths of the children of the node at the given path
    ///
    /// The code has no children for a node it does not have.
    pub fn children(&self, path: &NodePath) -> (result: Vec<NodePath>)
        ensures
            ({
                let children = if self.node_map().contains_key(path.hash) {
                    node_children(self.node_map()[path.hash])
                } else {
                    Seq::empty()
                };
                &&& result@.len() == children.len()
                &&& forall|i: int|
                    0 <= i < children.len() ==> result@[i] == child_path(*path, children[i], i)
            }),
    {
        let children = match self.nodes.get(&path.hash) {
            Some(node) => children_of(node),
            None => Vec::new(),
        };
        let mut result: Vec<NodePath> = Vec::new();
        let mut i: usize = 0;
        while i < children.len()
            invariant
                i <= children@.len(),
                result@.len() == i,
                forall|k: int| 0 <= k < i ==> result@[k] == child_path(*path, children@[k], k),
            decreases children@.len() - i,
        {
            result.push(
                NodePath {
                    hash: children[i],
                    parent: Some(Box::new(copy_path(path))),
                    sibling_index: i,
                },
            );
            i = i + 1;
        }
        result
    }
}

/// # The children of a node, in order
pub fn children_of(node: &Node) -> (result: Vec<NodeHash>)
    ensures
        result@ == node_children(*node),
{
    match node {
        Node::Application { function, argument } => {
            let result = vec![*function, *argument];
            assert(result@ =~= seq![*function, *argument]);
            result
        },
        Node::LiteralFunction { parameter, body } => {
            let result = vec![*parameter, *body];
            assert(result@ =~= seq![*parameter, *body]);
            result
        },
        Node::LiteralTuple { values } => values.clone(),
        Node::ProvidedFunction { argument, .. } => optional_children(argument),
        Node::Recursion { argument } => optional_children(argument),
        Node::Error { children, .. } => children.clone(),
        _ => Vec::new(),
    }
}

} // verus!
