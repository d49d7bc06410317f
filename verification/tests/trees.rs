use diazo::tokens::Tokens;
use diazo::tree::{ReaderTuple, TreeNode};

#[test]
fn tree_builder() {
    let v = vec![
        Tokens::Any,
        Tokens::Assignment,
        Tokens::Any,
        Tokens::CommentOpen,
        Tokens::CodeBlockOpen,
    ];

    let mut tree = TreeNode::new(Tokens::TypeKeyword);

    for i in v {
        tree = TreeNode::add(i, tree);
    }

    println!("{}", TreeNode::print(&tree));
    tree = TreeNode::add_and_set(Tokens::Element, tree);
    println!("{}", TreeNode::print(&tree));
    tree = TreeNode::back_to_parent(tree);
    println!("{}", TreeNode::print(&tree));
}

#[test]
fn print_lists_children_and_parent() {
    let mut tree = TreeNode::new(Tokens::TypeKeyword);
    assert_eq!(
        tree.print(),
        "AST Node Containing: \n\tToken: Type Keyword Token\n\tChildren: \n\t\tNo children.\n\tParent: No parent."
    );
    tree = TreeNode::add(Tokens::TypeName("Foo".to_string()), tree);
    tree = TreeNode::add_and_set(Tokens::Assignment, tree);
    assert_eq!(
        tree.print(),
        "AST Node Containing: \n\tToken: Assignment Symbol Token\n\tChildren: \n\t\tNo children.\n\tParent: Type Keyword Token"
    );
    tree = TreeNode::back_to_parent(tree);
    assert_eq!(
        tree.print(),
        "AST Node Containing: \n\tToken: Type Keyword Token\n\tChildren: \n\tType Name Token holding name: Foo\n\t\tAssignment Symbol Token\n\t\t\n\tParent: No parent."
    );
}

#[test]
fn preorder_numbers_nodes_in_order() {
    let mut tree = TreeNode::new(Tokens::TypeInstance("List".to_string()));
    tree = TreeNode::add_and_set(Tokens::Element, tree);
    tree = TreeNode::add(Tokens::Any, tree);
    tree = TreeNode::back_to_parent(tree);
    tree = TreeNode::add(Tokens::Tab, tree);
    assert_eq!(
        tree.preorder_read(),
        vec![
            ReaderTuple(0, None, Tokens::TypeInstance("List".to_string())),
            ReaderTuple(1, Some(0), Tokens::Element),
            ReaderTuple(2, Some(1), Tokens::Any),
            ReaderTuple(3, Some(0), Tokens::Tab),
        ]
    );
}
