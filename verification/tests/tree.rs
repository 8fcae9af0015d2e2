use fcpeg::position::CharacterPosition;
use fcpeg::rule::ASTReflectionStyle;
use fcpeg::tree::{SyntaxLeaf, SyntaxNode, SyntaxNodeElement, SyntaxTree};

fn at(index: usize) -> CharacterPosition {
    CharacterPosition::new(None, index)
}

fn leaf(value: &str, index: usize) -> SyntaxNodeElement {
    SyntaxNodeElement::Leaf(SyntaxLeaf::new(at(index), value.to_string(), ASTReflectionStyle::Reflection(String::new())))
}

fn hidden_leaf(value: &str, index: usize) -> SyntaxNodeElement {
    SyntaxNodeElement::Leaf(SyntaxLeaf::new(at(index), value.to_string(), ASTReflectionStyle::NoReflection))
}

fn named(name: &str, children: Vec<SyntaxNodeElement>) -> SyntaxNode {
    SyntaxNode::new(children, ASTReflectionStyle::Reflection(name.to_string()))
}

fn node(name: &str, children: Vec<SyntaxNodeElement>) -> SyntaxNodeElement {
    SyntaxNodeElement::Node(named(name, children))
}

fn expanded(children: Vec<SyntaxNodeElement>) -> SyntaxNodeElement {
    SyntaxNodeElement::Node(SyntaxNode::new(children, ASTReflectionStyle::Expansion))
}

#[test]
fn children_are_counted_among_the_reflectable_ones() {
    let parent = named("P", vec![hidden_leaf("[", 0), leaf("a", 1), expanded(vec![]), node("N", vec![]), leaf("b", 5)]);
    assert_eq!(parent.get_child_at(0), Some(&leaf("a", 1)));
    assert_eq!(parent.get_child_at(1), Some(&node("N", vec![])));
    assert_eq!(parent.get_child_at(2), Some(&leaf("b", 5)));
    assert_eq!(parent.get_child_at(3), None);
    assert_eq!(parent.get_node_child_at(1), Some(&named("N", vec![])));
    assert_eq!(parent.get_node_child_at(0), None);
    assert_eq!(parent.get_node_child_at(9), None);
    assert_eq!(parent.get_leaf_child_at(0), Some(&SyntaxLeaf::new(at(1), "a".to_string(), ASTReflectionStyle::Reflection(String::new()))));
    assert_eq!(parent.get_leaf_child_at(1), None);
    assert_eq!(named("E", vec![]).get_child_at(0), None);
}

#[test]
fn the_first_child_of_a_name_is_found() {
    let parent = named(
        "P",
        vec![leaf("N", 0), node("M", vec![leaf("1", 1)]), node("N", vec![leaf("2", 2)]), node("N", vec![leaf("3", 3)])],
    );
    assert_eq!(parent.find_first_child_node("N"), Some(&named("N", vec![leaf("2", 2)])));
    assert_eq!(parent.find_first_child_node("M"), Some(&named("M", vec![leaf("1", 1)])));
    assert_eq!(parent.find_first_child_node("O"), None);
    assert_eq!(parent.find_first_child_node_of("N", "M"), Some(&named("M", vec![leaf("1", 1)])));
    assert_eq!(parent.find_first_child_node_of("O", "N"), Some(&named("N", vec![leaf("2", 2)])));
    assert_eq!(parent.find_first_child_node_of("O", "Q"), None);
    // A node that is not reflected under a name has none.
    let parent = named("P", vec![expanded(vec![])]);
    assert_eq!(parent.find_first_child_node(""), None);
}

#[test]
fn the_text_under_a_node_joins_its_reflected_leaves() {
    let parent = named(
        "P",
        vec![
            leaf("ab", 0),
            hidden_leaf(".", 2),
            node("N", vec![leaf("c", 3), expanded(vec![leaf("d", 4), hidden_leaf("#", 5)])]),
            leaf("", 6),
            leaf("e", 6),
        ],
    );
    assert_eq!(parent.join_child_leaf_values(), "abcde");
    assert_eq!(named("E", vec![]).join_child_leaf_values(), "");
}

#[test]
fn a_node_starts_where_its_first_leaf_stands() {
    let parent = named("P", vec![node("N", vec![node("M", vec![hidden_leaf("x", 7), leaf("y", 8)])]), leaf("z", 9)]);
    assert_eq!(parent.get_position(), Some(at(7)));
    assert_eq!(named("P", vec![leaf("z", 9)]).get_position(), Some(at(9)));
    assert_eq!(named("P", vec![]).get_position(), None);
    assert_eq!(named("P", vec![node("N", vec![]), leaf("z", 9)]).get_position(), None);
}

#[test]
fn elements_tell_nodes_from_leaves() {
    let a_leaf = leaf("a", 0);
    let a_node = node("N", vec![]);
    assert!(a_leaf.is_reflectable());
    assert!(!hidden_leaf("a", 0).is_reflectable());
    assert!(!expanded(vec![]).is_reflectable());
    assert_eq!(a_leaf.get_node(), None);
    assert_eq!(a_node.get_node(), Some(&named("N", vec![])));
    assert_eq!(a_node.get_leaf(), None);
    assert!(a_leaf.get_leaf().is_some());
    assert!(a_node.is_node_named("N"));
    assert!(!a_node.is_node_named("M"));
    assert!(!a_leaf.is_node_named(""));
    assert_eq!(a_node.get_ast_reflection_style(), &ASTReflectionStyle::Reflection("N".to_string()));
    assert!(named("N", vec![]).is_named("N"));
    let tree = SyntaxTree::new(node("N", vec![]));
    assert_eq!(tree.get_child_ref(), &a_node);
}
