use two_phase_commit::bst::Node;
use two_phase_commit::bst::RsNode;

#[test]
fn test_rust_style() {
    let mut empty = RsNode::new();
    assert!(!empty.find(0));
    assert!(!empty.find(1));
    assert!(!empty.find(2));

    empty.add(0);
    assert!(empty.find(0));
    assert!(!empty.find(1));
    assert!(!empty.find(2));
    empty.add(2);
    assert!(empty.find(0));
    assert!(!empty.find(1));
    assert!(empty.find(2));
    empty.add(1);
    assert!(empty.find(0));
    assert!(empty.find(1));
    assert!(empty.find(2));
}

#[test]
fn test_traditional_style() {
    let mut node = Node::new(0);
    assert!(node.find(0));

    node.add_self(2);
    assert!(node.find(0));
    assert!(!node.find(1));
    assert!(node.find(2));

    node.add_self(1);
    assert!(node.find(0));
    assert!(node.find(1));
    assert!(node.find(2));
}

#[test]
fn test_static_add_and_create() {
    let root = Node::new(10);
    let root = Node::add(root, 5);
    let root = Node::add(root, 15);
    assert!(root.find(5));
    assert!(root.find(10));
    assert!(root.find(15));
    assert!(!root.find(7));
    assert!(Node::find_with_option(&None, 3) == false);

    let single = RsNode::create(42);
    assert!(single.find(42));
    assert!(!single.find(41));

    // inserting a value twice leaves the enum-style tree unchanged
    let mut twice = RsNode::new();
    twice.add(3);
    twice.add(3);
    assert!(twice.find(3));
    assert!(!twice.find(2));
}
