use dirstamp::order::{deepest_first, depth_of, order_deepest_first};

#[test]
fn depth_counts_components() {
    assert_eq!(depth_of("a/b/c"), 3);
    assert_eq!(depth_of("/a/b"), 3);
    assert_eq!(depth_of("."), 1);
    assert_eq!(depth_of(""), 0);
}

#[test]
fn deepest_entries_come_first_and_ties_keep_order() {
    assert_eq!(order_deepest_first(&vec![1, 3, 2, 3, 0]), vec![1, 3, 2, 0, 4]);
    assert_eq!(order_deepest_first(&vec![]), Vec::<usize>::new());
    assert_eq!(order_deepest_first(&vec![0, 0]), vec![0, 1]);
}

#[test]
fn subdirectories_before_their_parents() {
    let paths = vec![
        "root".to_string(),
        "root/sub/deep".to_string(),
        "root/sub".to_string(),
        "root/zz".to_string(),
    ];
    assert_eq!(deepest_first(&paths), vec![1, 2, 3, 0]);
}
