use two_phase_commit::range_search::RangeQueryTree;

#[test]
fn range_search_test_insert() {
    //             4
    //           /    \
    //          2      6
    //         / \    / \
    //        1   3  5   7
    let root = RangeQueryTree::new(
        4,
        Some(RangeQueryTree::new(
            2,
            Some(RangeQueryTree::new(1, None, None)),
            Some(RangeQueryTree::new(3, None, None)),
        )),
        Some(RangeQueryTree::new(
            6,
            Some(RangeQueryTree::new(5, None, None)),
            Some(RangeQueryTree::new(7, None, None)),
        )),
    );

    let vec = root.range_query(3, 5);
    assert_eq!(vec, vec![4, 3, 5]);
    let vec = root.range_query(0, 100);
    assert_eq!(vec, vec![4, 2, 1, 3, 6, 5, 7]);
}

#[test]
fn range_query_misses_empty_interval() {
    let root = RangeQueryTree::new(4, Some(RangeQueryTree::new(2, None, None)), None);
    let vec = root.range_query(10, 20);
    assert_eq!(vec, Vec::<i32>::new());
}
