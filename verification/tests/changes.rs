use crosscut::compiler::changes::{detect_changes, hash_function};
use crosscut::compiler::location::FunctionIndexInRootContext;
use crosscut::compiler::parse::parse;
use crosscut::compiler::syntax::SyntaxTree;
use crosscut::compiler::tokens::tokenize;

fn tree(code: &str) -> SyntaxTree {
    parse(tokenize(code)).unwrap()
}

#[test]
fn unchanged_functions_are_no_changes() {
    let old = tree("f: fn \\ -> 1 end g: fn \\ -> 2 end");
    let new = tree("f: fn \\ -> 1 end g: fn \\ -> 2 end");
    let changes = detect_changes(Some(old), new);
    assert!(changes.added.is_empty());
    assert!(changes.updated.is_empty());
}

#[test]
fn function_with_same_name_and_new_body_is_updated() {
    let old = tree("f: fn \\ -> 1 end g: fn \\ -> 2 end");
    let new = tree("g: fn \\ -> 2 end f: fn \\ -> 3 end");
    let changes = detect_changes(Some(old), new);
    assert!(changes.added.is_empty());
    assert_eq!(changes.updated.len(), 1);
    let update = &changes.updated[0];
    assert_eq!(update.old.index, FunctionIndexInRootContext(0));
    assert_eq!(update.new.index, FunctionIndexInRootContext(1));
    assert_eq!(update.new.function.name.as_deref(), Some("f"));
}

#[test]
fn function_with_new_name_is_added() {
    let old = tree("f: fn \\ -> 1 end");
    let new = tree("f: fn \\ -> 1 end h: fn \\ -> 1 end");
    let changes = detect_changes(Some(old), new);
    assert_eq!(changes.added.len(), 1);
    assert_eq!(changes.added[0].0, FunctionIndexInRootContext(1));
    assert!(changes.updated.is_empty());
}

#[test]
fn without_old_code_all_functions_are_added() {
    let new = tree("f: fn \\ -> 1 end g: fn \\ -> 2 end");
    let changes = detect_changes(None, new);
    assert_eq!(changes.added.len(), 2);
}

#[test]
fn hash_depends_on_content_only() {
    let a = tree("f: fn \\ x -> x end");
    let b = tree("f: fn \\ x -> x end");
    let c = tree("f: fn \\ y -> y end");
    let hash_a = hash_function(&a.named_functions[0]).to_bytes();
    let hash_b = hash_function(&b.named_functions[0]).to_bytes();
    let hash_c = hash_function(&c.named_functions[0]).to_bytes();
    assert_eq!(hash_a, hash_b);
    assert_ne!(hash_a, hash_c);
}

#[test]
fn hash_is_a_digest_of_its_input() {
    let hash = crosscut::compiler::hash::Hash::new(&[1, 2, 3]).to_bytes();
    let other = crosscut::compiler::hash::Hash::new(&[1, 2, 4]).to_bytes();
    assert_ne!(hash, other);
    assert_ne!(&hash[..3], &[1, 2, 3]);
    assert_ne!(hash, [0; 32]);
}
