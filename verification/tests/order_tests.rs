use github_cli::order::stable_order_descending;

#[test]
fn stable_descending_order_of_keys() {
    assert_eq!(stable_order_descending(&vec![3, 1, 3, 2, -7, 2]), vec![0, 2, 3, 5, 1, 4]);
    assert_eq!(stable_order_descending(&vec![]), Vec::<usize>::new());
    assert_eq!(stable_order_descending(&vec![5, 5, 5]), vec![0, 1, 2]);
}
