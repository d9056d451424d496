use two_phase_commit::avl::Avl;

fn search_all(avl: &Avl, vec: Vec<i64>) {
    for v in vec {
        if !avl.search(&v) {
            panic!("search result not found for [{}]", v);
        }
    }
}

#[test]
fn avl_test_insert() {
    let root = Avl::new(0);
    assert_eq!(root.height, 0);
    assert_eq!(root.value, 0);

    let root = root.insert(1);
    assert_eq!(root.height, 1);
    assert_eq!(root.value, 0);

    let root = root.insert(2);
    assert_eq!(root.height, 1);
    assert_eq!(root.value, 1);

    let root = root.insert(3);
    assert_eq!(root.height, 2);
    assert_eq!(root.value, 1);
    search_all(&root, vec![0, 1, 2, 3]);

    let root = root.insert(4);
    assert_eq!(root.height, 2);
    assert_eq!(root.value, 1);

    let root = root.insert(5);
    assert_eq!(root.height, 2);
    assert_eq!(root.value, 3);
    let root = root.insert(6);
    assert_eq!(root.height, 2);
    assert_eq!(root.value, 3);
    let root = root.insert(7);
    assert_eq!(root.height, 3);
    assert_eq!(root.value, 3);
    let root = root.insert(8);
    assert_eq!(root.height, 3);
    assert_eq!(root.value, 3);
    let root = root.insert(9);
    assert_eq!(root.height, 3);
    assert_eq!(root.value, 3);
    let root = root.insert(10);
    assert_eq!(root.height, 3);
    assert_eq!(root.value, 3);
    let root = root.insert(11);
    assert_eq!(root.height, 3);
    assert_eq!(root.value, 7);
}

#[test]
fn test_update_height() {
    let mut zero = Avl::new(0);
    let mut one = Avl::new(1);
    let mut two = Avl::new(2);

    // 0
    // |
    // 1
    // |
    // 2

    zero.height = 2;
    // this is an erroneous value, just for test
    one.height = 0;
    two.height = 0;

    one.left.replace(two);
    zero.left.replace(one);

    let mut root = zero.right_rotate();
    root.update_height();
    assert_eq!(root.height(), 1);
}

#[test]
fn test_right_rotation() {
    let zero = Avl::new(0);
    let mut one = Avl::new(1);
    let mut three = Avl::new(3);
    let mut four = Avl::new(4);
    let five = Avl::new(5);

    //        4
    //      /   \
    //     3     5
    //    /
    //   1
    //  /
    // 0
    one.left.replace(zero);
    three.left.replace(one);
    four.left.replace(three);
    four.right.replace(five);

    assert_eq!(four.value, 4);

    let three = four.left.unwrap();
    assert_eq!(three.value, 3);
    let five = four.right.unwrap();
    assert_eq!(five.value, 5);

    let one = three.left.unwrap();
    assert_eq!(one.value, 1);

    let zero = one.left.unwrap();
    assert_eq!(zero.value, 0);

    // reconstruct target tree
    let zero = Avl::new(0);
    let mut one = Avl::new(1);
    let mut three = Avl::new(3);
    let mut four = Avl::new(4);
    let five = Avl::new(5);

    one.left.replace(zero);
    three.left.replace(one);
    four.left.replace(three);
    four.right.replace(five);

    let root = four.right_rotate();
    assert_eq!(root.value, 3);
    let one = root.left.unwrap();
    let four = root.right.unwrap();
    assert_eq!(one.value, 1);
    assert_eq!(four.value, 4);

    let zero = one.left.unwrap();
    let five = four.right.unwrap();
    assert_eq!(zero.value, 0);
    assert_eq!(five.value, 5);
}

#[test]
fn test_left_rotation() {
    let zero = Avl::new(0);
    let mut one = Avl::new(1);
    let mut two = Avl::new(2);
    let mut three = Avl::new(3);
    let four = Avl::new(4);

    //    1
    //  /   \
    // 0     2
    //        \
    //         3
    //          \
    //           4
    three.right.replace(four);
    two.right.replace(three);
    one.left.replace(zero);
    one.right.replace(two);

    assert_eq!(one.value, 1);

    let zero = one.left.unwrap();
    assert_eq!(zero.value, 0);
    let two = one.right.unwrap();
    assert_eq!(two.value, 2);

    let three = two.right.unwrap();
    assert_eq!(three.value, 3);

    let four = three.right.unwrap();
    assert_eq!(four.value, 4);

    // reconstruct target tree
    let zero = Avl::new(0);
    let mut one = Avl::new(1);
    let mut two = Avl::new(2);
    let mut three = Avl::new(3);
    let four = Avl::new(4);

    three.right.replace(four);
    two.right.replace(three);
    one.left.replace(zero);
    one.right.replace(two);

    let root = one.left_rotate();
    //        2
    //      /   \
    //     1     3
    //    /        \
    //   0          4
    assert_eq!(root.value, 2);

    let one = root.left.unwrap();
    let three = root.right.unwrap();
    assert_eq!(one.value, 1);
    assert_eq!(three.value, 3);

    let zero = one.left.unwrap();
    let four = three.right.unwrap();
    assert_eq!(zero.value, 0);
    assert_eq!(four.value, 4);
}

#[test]
fn test_delete_is_a_no_op() {
    let root = Avl::new(5);
    let mut root = root.insert(7);
    assert!(!root.delete(5));
    assert!(root.search(&5));
    assert!(root.search(&7));
}
