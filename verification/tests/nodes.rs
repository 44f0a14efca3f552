use crosscut::nodes::{
    hash_node, same_path, update_sibling_index_on_remove, Codebase, Node, NodeHash, NodePath,
};

fn node(text: &str, children: impl IntoIterator<Item = NodeHash>) -> Node {
    Node::Error {
        node: text.to_string(),
        children: children.into_iter().collect(),
    }
}

#[test]
fn uniquely_identify_identical_children_of_different_parents() {
    // Nodes that are identical, but have different parents, should be uniquely
    // identified.

    let mut codebase = Codebase::new();

    let a = codebase.add(node("a", []));
    let b = codebase.add(node("b", [a]));
    let c = codebase.add(node("c", [a]));
    let d = codebase.add(node("d", [b, c]));

    codebase.replace_root(NodePath::for_root(d));
    let root = codebase.root();

    let b_and_c = codebase.children(&root);
    assert_eq!(b_and_c.len(), 2);
    let mut a_paths = b_and_c.iter().map(|b_or_c| {
        let children = codebase.children(b_or_c);
        assert_eq!(children.len(), 1);
        children[0].clone()
    });
    let a1 = a_paths.next().unwrap();
    let a2 = a_paths.next().unwrap();

    assert_ne!(a1, a2);
}

#[test]
fn uniquely_identify_identical_siblings() {
    // Nodes that are identical siblings should be uniquely identified.

    let mut codebase = Codebase::new();

    let a = codebase.add(node("a", []));
    let b = codebase.add(node("b", [a, a]));

    codebase.replace_root(NodePath::for_root(b));
    let root = codebase.root();

    let children = codebase.children(&root);
    assert_eq!(children.len(), 2);
    let (a1, a2) = (children[0].clone(), children[1].clone());

    assert_ne!(a1, a2);
}

#[test]
fn identical_nodes_have_the_same_hash() {
    let mut codebase = Codebase::new();
    let a1 = codebase.add(node("a", []));
    let a2 = codebase.add(node("a", []));
    let b = codebase.add(node("b", []));
    let number = codebase.add(Node::LiteralNumber { value: 3 });
    assert_eq!(a1, a2);
    assert_ne!(a1, b);
    assert_ne!(a1, number);
    assert!(matches!(
        codebase.node_at(&NodePath::for_root(number)),
        Some(Node::LiteralNumber { value: 3 })
    ));
}

#[test]
fn new_codebase_has_an_empty_root() {
    let codebase = Codebase::new();
    let root = codebase.root();
    assert!(root.parent.is_none());
    assert!(matches!(codebase.node_at(&root), Some(Node::Empty)));
    assert!(codebase.children(&root).is_empty());
}

#[test]
fn later_siblings_move_up_when_a_node_is_removed() {
    let root = NodePath::for_root(hash_node(&Node::Empty));
    let child = |index: usize| NodePath {
        hash: hash_node(&Node::LiteralNumber { value: index as i32 }),
        parent: Some(Box::new(root.clone())),
        sibling_index: index,
    };

    assert_eq!(update_sibling_index_on_remove(&child(3), &child(1)), 2);
    assert_eq!(update_sibling_index_on_remove(&child(1), &child(3)), 1);
    assert_eq!(update_sibling_index_on_remove(&child(2), &root), 2);
    assert!(same_path(&child(2), &child(2)));
    assert!(!same_path(&child(2), &child(1)));
}
