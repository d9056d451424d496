use two_phase_commit::rbt::Rbt;

#[test]
fn test_insert_and_search() {
    let mut tree = Rbt::new();

    tree.insert(4);
    tree.insert(2);
    tree.insert(6);
    tree.insert(1);
    tree.insert(3);
    tree.insert(5);

    assert_eq!(tree.search(4), true);
    assert_eq!(tree.search(2), true);
    assert_eq!(tree.search(6), true);
    assert_eq!(tree.search(1), true);
    assert_eq!(tree.search(3), true);
    assert_eq!(tree.search(5), true);
    assert_eq!(tree.search(0), false);
    assert_eq!(tree.search(7), false);
}

#[test]
fn test_left_rotate() {
    //      1(b)
    //     / \
    //    0   3(r)
    //       / \
    //      2   4
    let right_side_tree = Rbt::Node {
        is_red: false,
        val: 1,
        left: Box::new(Rbt::Node {
            is_red: false,
            val: 0,
            left: Box::new(Rbt::Leaf),
            right: Box::new(Rbt::Leaf),
        }),
        right: Box::new(Rbt::Node {
            is_red: true,
            val: 3,
            left: Box::new(Rbt::Node {
                is_red: false,
                val: 2,
                left: Box::new(Rbt::Leaf),
                right: Box::new(Rbt::Leaf),
            }),
            right: Box::new(Rbt::Node {
                is_red: false,
                val: 4,
                left: Box::new(Rbt::Leaf),
                right: Box::new(Rbt::Leaf),
            }),
        }),
    };

    //      3(b)
    //     /   \
    //    1(r)  4
    //   / \
    //  0   2
    let left_side_tree = Rbt::Node {
        is_red: false,
        val: 3,
        left: Box::new(Rbt::Node {
            is_red: true,
            val: 1,
            left: Box::new(Rbt::Node {
                is_red: false,
                val: 0,
                left: Box::new(Rbt::Leaf),
                right: Box::new(Rbt::Leaf),
            }),
            right: Box::new(Rbt::Node {
                is_red: false,
                val: 2,
                left: Box::new(Rbt::Leaf),
                right: Box::new(Rbt::Leaf),
            }),
        }),
        right: Box::new(Rbt::Node {
            is_red: false,
            val: 4,
            left: Box::new(Rbt::Leaf),
            right: Box::new(Rbt::Leaf),
        }),
    };

    let new_tree = Rbt::rotate(right_side_tree.clone(), true);
    assert_eq!(new_tree, left_side_tree);

    let new_tree = Rbt::rotate(left_side_tree.clone(), false);
    assert_eq!(new_tree, right_side_tree);
}

#[test]
fn test_insert_condition_01() {
    let mut root = Rbt::new();
    root.insert(2);
    root.insert(1);
    let target = Rbt::Node {
        is_red: false,
        val: 2,
        left: Box::new(Rbt::Node {
            is_red: true,
            val: 1,
            left: Box::new(Rbt::Leaf),
            right: Box::new(Rbt::Leaf),
        }),
        right: Box::new(Rbt::Leaf),
    };
    assert_eq!(root, target);
}

#[test]
fn test_insert_condition_02() {
    let mut root = Rbt::new();
    root.insert(2);
    root.insert(3);
    let target = Rbt::Node {
        is_red: false,
        val: 3,
        left: Box::new(Rbt::Node {
            is_red: true,
            val: 2,
            left: Box::new(Rbt::Leaf),
            right: Box::new(Rbt::Leaf),
        }),
        right: Box::new(Rbt::Leaf),
    };
    assert_eq!(root, target);
}

#[test]
fn test_insert_condition_03() {
    let mut root = Rbt::new();
    root.insert(1);
    root.insert(3);
    root.insert(5);
    root.insert(4);
    root.insert(2);

    let target = Rbt::Node {
        is_red: false,
        val: 3,
        left: Box::new(Rbt::Node {
            is_red: false,
            val: 2,
            left: Box::new(Rbt::Node {
                is_red: true,
                val: 1,
                left: Box::new(Rbt::Leaf),
                right: Box::new(Rbt::Leaf),
            }),
            right: Box::new(Rbt::Leaf),
        }),
        right: Box::new(Rbt::Node {
            is_red: false,
            val: 5,
            left: Box::new(Rbt::Node {
                is_red: true,
                val: 4,
                left: Box::new(Rbt::Leaf),
                right: Box::new(Rbt::Leaf),
            }),
            right: Box::new(Rbt::Leaf),
        }),
    };
    assert_eq!(root, target);
}

#[test]
fn test_rotate_double_left_red() {
    let mut root = Rbt::new();
    root.insert(6);
    root.insert(2);
    root.insert(1);
    root.insert(0);
    root.insert(3);
    root.insert(9);
    root.insert(5);
    root.insert(7);
    root.insert(8);
    root.insert(4);
    root.insert(-1);

    for i in 0..9 {
        assert!(root.search(i));
    }

    assert_eq!(6, *root.value());

    assert_eq!(2, *root.left().value());
    assert_eq!(8, *root.right().value());

    assert_eq!(0, *root.left().left().value());
    assert_eq!(4, *root.left().right().value());

    assert_eq!(-1, *root.left().left().left().value());
    assert_eq!(1, *root.left().left().right().value());

    assert_eq!(3, *root.left().right().left().value());
    assert_eq!(5, *root.left().right().right().value());

    assert_eq!(7, *root.right().left().value());
    assert_eq!(9, *root.right().right().value());
}
