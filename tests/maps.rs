use banyan::aparc::APArc;
use banyan::bytemap::{bytes_eq, ByteMap};
use banyan::xattr::{xattr_map, xattr_names};
use std::sync::Arc;

#[test]
fn byte_map_insert_get_and_order() {
    let mut m: ByteMap<u32> = ByteMap::new();
    assert_eq!(m.insert(b"./b".to_vec(), 2), None);
    assert_eq!(m.insert(b"./a".to_vec(), 1), None);
    assert_eq!(m.insert(b"./a/c".to_vec(), 3), None);
    assert_eq!(m.len(), 3);
    assert_eq!(m.get(b"./a"), Some(&1));
    assert_eq!(m.get(b"./z"), None);
    assert!(m.contains_key(b"./a/c"));
    assert_eq!(m.key_at(0), &b"./a".to_vec());
    assert_eq!(m.key_at(1), &b"./a/c".to_vec());
    assert_eq!(m.key_at(2), &b"./b".to_vec());
    assert_eq!(*m.value_at(1), 3);
}

#[test]
fn byte_map_refuses_equal_key() {
    let mut m: ByteMap<u32> = ByteMap::new();
    assert_eq!(m.insert(b"k".to_vec(), 1), None);
    assert_eq!(m.insert(b"k".to_vec(), 2), Some(2));
    assert_eq!(m.get(b"k"), Some(&1));
    assert_eq!(m.len(), 1);
}

#[test]
fn byte_map_extend_unions() {
    let mut a: ByteMap<u32> = ByteMap::new();
    a.insert(b"x".to_vec(), 1);
    a.insert(b"z".to_vec(), 3);
    let mut b: ByteMap<u32> = ByteMap::new();
    b.insert(b"y".to_vec(), 2);
    b.insert(b"w".to_vec(), 0);
    a.extend(b);
    let (keys, vals) = a.into_parts();
    assert_eq!(keys, vec![b"w".to_vec(), b"x".to_vec(), b"y".to_vec(), b"z".to_vec()]);
    assert_eq!(vals, vec![0, 1, 2, 3]);
}

#[test]
fn bytes_eq_compares() {
    assert!(bytes_eq(b"abc", b"abc"));
    assert!(!bytes_eq(b"abc", b"abd"));
    assert!(!bytes_eq(b"ab", b"abc"));
}

#[test]
fn xattr_names_split_on_nul() {
    let names = xattr_names(b"user.a\0security.selinux\0");
    assert_eq!(names, vec![b"user.a".to_vec(), b"security.selinux".to_vec()]);
    assert_eq!(xattr_names(b""), Vec::<Vec<u8>>::new());
    assert_eq!(xattr_names(b"x"), vec![b"x".to_vec()]);
}

#[test]
fn xattr_map_none_without_names() {
    assert!(xattr_map(vec![], vec![]).is_none());
    let m = xattr_map(vec![b"user.b".to_vec(), b"user.a".to_vec(), b"user.b".to_vec()],
        vec![b"2".to_vec(), b"1".to_vec(), b"9".to_vec()]).unwrap();
    assert_eq!(m.len(), 2);
    assert_eq!(m.get(b"user.a"), Some(&b"1".to_vec()));
    assert_eq!(m.get(b"user.b"), Some(&b"2".to_vec()));
}

#[test]
fn aparc_slot_operations() {
    let mut s: APArc<u32> = APArc::new();
    assert!(s.load().is_none());
    assert!(s.swap_null(Arc::new(5)).is_ok());
    match s.swap_null(Arc::new(6)) {
        Err(a) => assert_eq!(*a, 5),
        Ok(()) => panic!("slot was full"),
    }
    assert_eq!(*s.load().unwrap(), 5);
    s.store(Arc::new(7));
    assert_eq!(*s.load().unwrap(), 7);
    s.clear();
    assert!(s.load().is_none());
}

#[test]
fn aparc_swaps_only_the_held_allocation() {
    let mut s: APArc<u32> = APArc::new();
    let a = Arc::new(1);
    s.store(a.clone());
    assert!(!s.swap_existing(Arc::new(1), Arc::new(2)));
    assert_eq!(*s.load().unwrap(), 1);
    assert!(s.swap_existing(a.clone(), Arc::new(3)));
    assert_eq!(*s.load().unwrap(), 3);
    assert!(!s.clear_existing(a));
    let held = s.load().unwrap();
    assert!(s.clear_existing(held));
    assert!(s.load().is_none());
}
