use rnvme::traits::{TryToOwned, VecExt};

#[test]
fn vec_with_capacity_is_empty() {
    let v: Vec<u32> = <Vec<u32> as VecExt<u32>>::try_with_capacity(16).unwrap();
    assert!(v.is_empty());
    assert!(v.capacity() >= 16);
}

#[test]
fn vec_extend_and_resize() {
    let mut v = vec![1u8, 2];
    v.try_extend_from_slice(&[3, 4]).unwrap();
    assert_eq!(v, vec![1, 2, 3, 4]);
    v.try_resize(6, 9).unwrap();
    assert_eq!(v, vec![1, 2, 3, 4, 9, 9]);
    v.try_resize(2, 0).unwrap();
    assert_eq!(v, vec![1, 2]);
}

#[test]
fn slice_to_owned_copies() {
    let s: &[u16] = &[5, 6, 7];
    assert_eq!(s.try_to_owned().unwrap(), vec![5, 6, 7]);
    let mut target = vec![1, 2, 3, 4, 5];
    s.try_clone_into(&mut target).unwrap();
    assert_eq!(target, vec![5, 6, 7]);
}
