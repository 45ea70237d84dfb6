use voting_platform::store::{AlreadyExists, RecordStore};
use voting_platform::Key;

#[test]
fn create_if_absent_refuses_a_taken_key() {
    let mut store: RecordStore<u32> = RecordStore::new();
    let a = Key::new([1; 32]);
    let b = Key::new([2; 32]);
    assert_eq!(store.len(), 0);
    assert!(!store.contains(&a));
    assert_eq!(store.create_if_absent(a, 10), Ok(()));
    assert_eq!(store.create_if_absent(a, 11), Err(AlreadyExists));
    assert_eq!(store.create_if_absent(b, 20), Ok(()));
    assert_eq!(store.len(), 2);
    assert_eq!(store.get(&a), Some(&10));
    assert_eq!(store.get(&b), Some(&20));
    assert_eq!(store.get(&Key::new([3; 32])), None);
}

#[test]
fn replace_changes_only_what_is_stored() {
    let mut store: RecordStore<u32> = RecordStore::new();
    let a = Key::new([1; 32]);
    let b = Key::new([2; 32]);
    assert!(!store.replace(&a, 1));
    assert_eq!(store.len(), 0);
    store.create_if_absent(a, 10).unwrap();
    store.create_if_absent(b, 20).unwrap();
    assert!(store.replace(&a, 11));
    assert_eq!(store.get(&a), Some(&11));
    assert_eq!(store.get(&b), Some(&20));
    assert_eq!(store.len(), 2);
}

#[test]
fn remove_frees_the_key() {
    let mut store: RecordStore<u32> = RecordStore::new();
    let a = Key::new([1; 32]);
    let b = Key::new([2; 32]);
    let c = Key::new([3; 32]);
    store.create_if_absent(a, 10).unwrap();
    store.create_if_absent(b, 20).unwrap();
    store.create_if_absent(c, 30).unwrap();
    assert_eq!(store.remove(&b), Some(20));
    assert_eq!(store.remove(&b), None);
    assert_eq!(store.len(), 2);
    assert!(store.contains(&a) && store.contains(&c) && !store.contains(&b));
    assert_eq!(store.create_if_absent(b, 21), Ok(()));
    assert_eq!(store.get(&b), Some(&21));
    assert_eq!(store.get(&c), Some(&30));
}
