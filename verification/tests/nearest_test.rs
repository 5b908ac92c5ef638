use af_coding_challenge::nearest::nearest;

#[test]
fn nearest_three_in_order() {
    assert_eq!(nearest(&vec![50, 10, 30, 20], 3), vec![1, 3, 2]);
}

#[test]
fn ties_keep_the_given_order() {
    assert_eq!(nearest(&vec![5, 1, 3, 1], 3), vec![1, 3, 2]);
    assert_eq!(nearest(&vec![7, 7, 7], 2), vec![0, 1]);
}

#[test]
fn fewer_shops_than_asked() {
    assert_eq!(nearest(&vec![4, 2], 3), vec![1, 0]);
    assert_eq!(nearest(&vec![], 3), Vec::<usize>::new());
}

#[test]
fn asking_for_none() {
    assert_eq!(nearest(&vec![3, 2, 1], 0), Vec::<usize>::new());
}

#[test]
fn asking_for_all_sorts_stably() {
    let keys = vec![9, 3, 9, 0, 3];
    assert_eq!(nearest(&keys, usize::MAX), vec![3, 1, 4, 0, 2]);
}

#[test]
fn shorter_listing_is_a_prefix() {
    let keys = vec![8, 6, 7, 5, 3, 0, 9];
    let all = nearest(&keys, keys.len());
    for k in 0..keys.len() {
        assert_eq!(nearest(&keys, k), all[..k].to_vec());
    }
}
