use gfield::integer_indexed_vec::{IntegerIndexedVec, IntoIntegerIndexedVec};

#[test]
fn test_i32_indexed_vec() {
    let v = std::iter::successors(Some(0), |&n| Some(n + 1))
        .take(10)
        .collect::<Vec<_>>()
        .into_i32_indexed_vec(5);
    assert_eq!(*v.index(-5), 0);
    assert_eq!(*v.index(4), 9);
}

#[test]
fn test_index_every_position() {
    let v = IntegerIndexedVec::new(vec![10, 20, 30], 1);
    assert_eq!(*v.index(-1), 10);
    assert_eq!(*v.index(0), 20);
    assert_eq!(*v.index(1), 30);
}

#[test]
fn test_zero_offset() {
    let v = IntegerIndexedVec::new(vec![7, 8, 9], 0);
    assert_eq!(*v.index(0), 7);
    assert_eq!(*v.index(2), 9);
}

#[test]
fn test_index_mut() {
    let mut v = IntegerIndexedVec::new(vec![1, 2, 3], 2);
    *v.index_mut(-2) = 100;
    *v.index_mut(0) = 300;
    assert_eq!(*v.index(-2), 100);
    assert_eq!(*v.index(-1), 2);
    assert_eq!(*v.index(0), 300);
}

#[test]
fn test_iterators() {
    let v = IntegerIndexedVec::new(vec![4, 5, 6], 3);
    let seen: Vec<i32> = v.iter().copied().collect();
    assert_eq!(seen, vec![4, 5, 6]);
    let owned: Vec<i32> = v.into_iter().collect();
    assert_eq!(owned, vec![4, 5, 6]);
}
