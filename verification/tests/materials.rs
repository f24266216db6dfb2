use vanrijn::materials::{expand_and_index, store_in_lut};

#[test]
fn expand_and_index_grows_vector_with_default() {
    let mut v: Vec<u32> = vec![1, 2];
    *expand_and_index(&mut v, 4, 9) = 7;
    assert_eq!(v, vec![1, 2, 9, 9, 7]);
}

#[test]
fn expand_and_index_leaves_long_enough_vector_alone() {
    let mut v: Vec<u32> = vec![1, 2, 3];
    assert_eq!(*expand_and_index(&mut v, 1, 9), 2);
    *expand_and_index(&mut v, 1, 9) = 5;
    assert_eq!(v, vec![1, 5, 3]);
}

#[test]
fn expand_and_index_nests() {
    let mut lut: Vec<Vec<Vec<u8>>> = Vec::new();
    *expand_and_index(expand_and_index(expand_and_index(&mut lut, 1, Vec::new()), 2, Vec::new()), 0, 0) = 3;
    assert_eq!(lut.len(), 2);
    assert!(lut[0].is_empty());
    assert_eq!(lut[1].len(), 3);
    assert_eq!(lut[1][2], vec![3]);
}

#[test]
fn store_in_lut_grows_every_level() {
    let mut lut: Vec<Vec<Vec<Vec<i32>>>> = Vec::new();
    store_in_lut(&mut lut, 1, 0, 2, 3, -1, 42);
    assert_eq!(lut.len(), 2);
    assert!(lut[0].is_empty());
    assert_eq!(lut[1].len(), 1);
    assert_eq!(lut[1][0].len(), 3);
    assert!(lut[1][0][0].is_empty());
    assert!(lut[1][0][1].is_empty());
    assert_eq!(lut[1][0][2], vec![-1, -1, -1, 42]);
}

#[test]
fn store_in_lut_overwrites_and_keeps_other_entries() {
    let mut lut: Vec<Vec<Vec<Vec<i32>>>> = Vec::new();
    store_in_lut(&mut lut, 0, 0, 0, 1, 0, 5);
    store_in_lut(&mut lut, 0, 0, 0, 0, 0, 6);
    store_in_lut(&mut lut, 0, 0, 0, 1, 0, 7);
    assert_eq!(lut, vec![vec![vec![vec![6, 7]]]]);
}
