use crosscut::compiler::location::{BranchIndex, FragmentIndexInBranchBody};
use crosscut::compiler::parse::parse;
use crosscut::compiler::syntax::{Branch, Expression, Function, Pattern};
use crosscut::compiler::tokens::{tokenize, Token};

#[test]
fn tokenize_words_keywords_and_comments() {
    let tokens = tokenize("f: fn # a comment\n \\ x 12 -> x end");
    assert_eq!(tokens.len(), 9);
    assert!(matches!(&tokens[0], Token::FunctionName { name } if name == "f"));
    assert!(matches!(&tokens[1], Token::KeywordFn));
    assert!(matches!(&tokens[2], Token::Comment { text } if text == " a comment"));
    assert!(matches!(&tokens[3], Token::BranchStart));
    assert!(matches!(&tokens[4], Token::Identifier { name } if name == "x"));
    assert!(matches!(&tokens[5], Token::IntegerLiteral { value: 12 }));
    assert!(matches!(&tokens[6], Token::BranchBodyStart));
    assert!(matches!(&tokens[7], Token::Identifier { name } if name == "x"));
    assert!(matches!(&tokens[8], Token::KeywordEnd));
}

#[test]
fn parse_function_with_branches_and_local_function() {
    let tokens = tokenize(
        r"
            f: fn
                \ 0 ->
                    1
                \ n ->
                    fn \ -> n end
                    # done
            end
        ",
    );
    let tree = parse(tokens).unwrap();
    assert_eq!(tree.named_functions.len(), 1);
    let f = &tree.named_functions[0];
    assert_eq!(f.name.as_deref(), Some("f"));
    assert_eq!(f.branches.len(), 2);
    assert_eq!(f.branches[0].0, BranchIndex(1));
    assert_eq!(f.branches[1].0, BranchIndex(2));
    assert!(matches!(f.branches[0].1.parameters[0], Pattern::Literal { value: 0 }));
    assert!(matches!(
        f.branches[0].1.body[0],
        (FragmentIndexInBranchBody(1), Expression::LiteralNumber { value: 1 })
    ));
    let body = &f.branches[1].1.body;
    assert_eq!(body.len(), 2);
    assert!(matches!(body[0].1, Expression::LocalFunction { .. }));
    assert!(matches!(&body[1].1, Expression::Comment { text } if text == " done"));
}

#[test]
fn parse_rejects_malformed_code() {
    assert!(parse(tokenize("f: fn \\ -> x")).is_none());
    assert!(parse(tokenize("fn \\ -> x end")).is_none());
    assert!(parse(tokenize("f: fn \\ x end")).is_none());
    assert!(parse(tokenize("")).unwrap().named_functions.is_empty());
}

#[test]
fn add_branch_and_fragment_number_from_one() {
    let mut function = Function {
        name: None,
        branches: Vec::new(),
    };
    function.add_branch(Branch {
        parameters: Vec::new(),
        body: Vec::new(),
    });
    function.add_branch(Branch {
        parameters: Vec::new(),
        body: Vec::new(),
    });
    assert_eq!(function.branches[0].0, BranchIndex(1));
    assert_eq!(function.branches[1].0, BranchIndex(2));

    let mut branch = Branch {
        parameters: Vec::new(),
        body: Vec::new(),
    };
    branch.add_fragment(Expression::LiteralNumber { value: 3 });
    branch.add_fragment(Expression::LiteralNumber { value: 4 });
    assert_eq!(branch.body[1].0, FragmentIndexInBranchBody(2));
}

#[test]
fn add_branch_and_fragment_follow_the_largest_index() {
    let empty = || Branch {
        parameters: Vec::new(),
        body: Vec::new(),
    };
    let mut function = Function {
        name: None,
        branches: vec![(BranchIndex(5), empty()), (BranchIndex(2), empty())],
    };
    function.add_branch(empty());
    assert_eq!(function.branches[2].0, BranchIndex(6));

    let mut branch = Branch {
        parameters: Vec::new(),
        body: vec![
            (FragmentIndexInBranchBody(7), Expression::LiteralNumber { value: 1 }),
            (FragmentIndexInBranchBody(3), Expression::LiteralNumber { value: 2 }),
        ],
    };
    branch.add_fragment(Expression::LiteralNumber { value: 3 });
    assert_eq!(branch.body[2].0, FragmentIndexInBranchBody(8));
}
