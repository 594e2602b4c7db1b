use stage1::payload::concatenate;

#[test]
fn three_shards_are_joined_without_separators() {
    let shards = vec![b"He".to_vec(), b"llo".to_vec(), b", World!".to_vec()];
    assert_eq!(concatenate(&shards), b"Hello, World!".to_vec());
}

#[test]
fn no_shards_give_an_empty_payload() {
    assert_eq!(concatenate(&Vec::new()), Vec::<u8>::new());
}

#[test]
fn empty_shards_add_nothing() {
    let shards = vec![Vec::new(), vec![1u8, 2], Vec::new(), vec![3u8], Vec::new()];
    assert_eq!(concatenate(&shards), vec![1u8, 2, 3]);
}

#[test]
fn order_of_the_shards_is_kept() {
    let a = vec![0u8, 255, 10];
    let b = vec![13u8];
    let c = vec![7u8, 7, 7, 7];
    assert_eq!(
        concatenate(&vec![a.clone(), b.clone(), c.clone()]),
        vec![0u8, 255, 10, 13, 7, 7, 7, 7]
    );
    assert_eq!(concatenate(&vec![c, b, a]), vec![7u8, 7, 7, 7, 13, 0, 255, 10]);
}

#[test]
fn the_shards_are_left_untouched() {
    let shards = vec![vec![1u8], vec![2u8]];
    let _ = concatenate(&shards);
    assert_eq!(shards, vec![vec![1u8], vec![2u8]]);
}
