//! The snapshot/fork layer: overlay reads, iteration, merge, and the
//! typed key set.

use exonum_core::storage::db::{Database, Fork, ForkIter, MemoryDb, Snapshot};
use exonum_core::storage::key_set_index::KeySetIndex;
use exonum_core::storage::storage_key::StorageKey;
use exonum_core::storage::KeyOrder;

fn db_with(entries: &[(&[u8], &[u8])]) -> MemoryDb {
    let mut db = MemoryDb::new();
    let mut fork = db.fork();
    for (k, v) in entries {
        fork.put(k.to_vec(), v.to_vec());
    }
    db.merge(fork.into_patch()).unwrap();
    db
}

#[test]
fn fork_put_get_delete() {
    let db = MemoryDb::new();
    let mut fork = db.fork();
    assert_eq!(fork.get(&b"a".to_vec()), None);
    fork.put(b"a".to_vec(), b"1".to_vec());
    assert_eq!(fork.get(&b"a".to_vec()), Some(b"1".to_vec()));
    assert!(fork.contains(&b"a".to_vec()));
    fork.delete(b"a".to_vec());
    assert_eq!(fork.get(&b"a".to_vec()), None);
    assert!(!fork.contains(&b"a".to_vec()));
}

#[test]
fn fork_overlay_shadows_snapshot() {
    let db = db_with(&[(b"k1", b"old"), (b"k2", b"keep")]);
    let mut fork = db.fork();
    fork.put(b"k1".to_vec(), b"new".to_vec());
    fork.delete(b"k2".to_vec());
    assert_eq!(fork.get(&b"k1".to_vec()), Some(b"new".to_vec()));
    assert_eq!(fork.get(&b"k2".to_vec()), None);
    // the underlying snapshot is untouched
    assert_eq!(fork.as_snapshot().get(&b"k1".to_vec()), Some(b"old".to_vec()));
}

#[test]
fn fork_iter_merges_in_key_order() {
    let db = db_with(&[(b"b", b"2"), (b"d", b"4")]);
    let mut fork = db.fork();
    fork.put(b"a".to_vec(), b"1".to_vec());
    fork.put(b"c".to_vec(), b"3".to_vec());
    fork.delete(b"d".to_vec());
    let entries = fork.collect_entries();
    let got: Vec<(Vec<u8>, Vec<u8>)> = entries;
    assert_eq!(
        got,
        vec![
            (b"a".to_vec(), b"1".to_vec()),
            (b"b".to_vec(), b"2".to_vec()),
            (b"c".to_vec(), b"3".to_vec()),
        ]
    );
}

#[test]
fn fork_iterator_is_lazy_stream() {
    let db = db_with(&[(b"a", b"1"), (b"c", b"3")]);
    let mut fork = db.fork();
    fork.put(b"b".to_vec(), b"2".to_vec());
    let mut it = ForkIter::new(&fork);
    assert_eq!(it.next(), Some((b"a".to_vec(), b"1".to_vec())));
    assert_eq!(it.next(), Some((b"b".to_vec(), b"2".to_vec())));
    assert_eq!(it.next(), Some((b"c".to_vec(), b"3".to_vec())));
    assert_eq!(it.next(), None);
}

#[test]
fn get_agrees_with_iter_first_entry() {
    // the iterator from a key and a point read never disagree
    let db = db_with(&[(b"apple", b"1"), (b"pear", b"2")]);
    let mut fork = db.fork();
    fork.put(b"mango".to_vec(), b"3".to_vec());
    fork.delete(b"pear".to_vec());
    for key in [&b"apple"[..], b"mango", b"pear", b"zebra", b"aaa"] {
        let got = fork.get(&key.to_vec());
        let tail = fork.iter(&key.to_vec());
        let first_match = match tail.first() {
            Some((k, v)) if k == &key.to_vec() => Some(v.clone()),
            _ => None,
        };
        assert_eq!(got, first_match);
    }
}

#[test]
fn merge_applies_patch_atomically() {
    let mut db = db_with(&[(b"a", b"1"), (b"b", b"2")]);
    let snapshot_before = db.snapshot();
    let mut fork = db.fork();
    fork.put(b"c".to_vec(), b"3".to_vec());
    fork.delete(b"a".to_vec());
    db.merge(fork.into_patch()).unwrap();
    let after = db.snapshot();
    assert_eq!(after.get(&b"a".to_vec()), None);
    assert_eq!(after.get(&b"c".to_vec()), Some(b"3".to_vec()));
    // readers holding the old snapshot still see the old state
    assert_eq!(snapshot_before.get(&b"a".to_vec()), Some(b"1".to_vec()));
    assert_eq!(snapshot_before.get(&b"c".to_vec()), None);
}

#[test]
fn same_patch_twice_is_idempotent() {
    // two forks of one snapshot carrying the same changes commit the
    // same state, and re-merging the same patch changes nothing
    let base = db_with(&[(b"x", b"0")]);
    let mut db1 = db_with(&[(b"x", b"0")]);
    let mut db2 = db_with(&[(b"x", b"0")]);
    let build = |db: &MemoryDb| {
        let mut fork = db.fork();
        fork.put(b"x".to_vec(), b"1".to_vec());
        fork.put(b"y".to_vec(), b"2".to_vec());
        fork.delete(b"z".to_vec());
        fork.into_patch()
    };
    db1.merge(build(&base)).unwrap();
    db2.merge(build(&base)).unwrap();
    assert_eq!(db1.snapshot().iter(&vec![]), db2.snapshot().iter(&vec![]));
    let once = db1.snapshot().iter(&vec![]);
    db1.merge(build(&base)).unwrap();
    assert_eq!(db1.snapshot().iter(&vec![]), once);
}

#[test]
fn key_cmp_is_lexicographic() {
    let cmp = |a: &[u8], b: &[u8]| exonum_core::storage::key_cmp(&a.to_vec(), &b.to_vec());
    assert_eq!(cmp(b"a", b"b"), KeyOrder::Less);
    assert_eq!(cmp(b"b", b"a"), KeyOrder::Greater);
    assert_eq!(cmp(b"a", b"a"), KeyOrder::Equal);
    assert_eq!(cmp(b"a", b"ab"), KeyOrder::Less);
    assert_eq!(cmp(b"ab", b"a"), KeyOrder::Greater);
    assert_eq!(cmp(b"", b"a"), KeyOrder::Less);
}

#[test]
fn u64_keys_iterate_in_numeric_order() {
    let a = StorageKey::write_key(&5u64);
    let b = StorageKey::write_key(&300u64);
    let c = StorageKey::write_key(&u64::MAX);
    assert!(a < b && b < c);
    assert_eq!(u64::read_key(&a), Some(5));
    assert_eq!(u64::read_key(&c), Some(u64::MAX));
    assert_eq!(u64::read_key(&vec![1, 2, 3]), None);
}

#[test]
fn key_set_index_insert_contains_iter() {
    let db = MemoryDb::new();
    let fork = db.fork();
    let mut index: KeySetIndex<Fork, u64> = KeySetIndex::new(vec![0x70], fork);
    index.insert(30u64);
    index.insert(10u64);
    index.insert(20u64);
    index.delete(&30u64);
    let mut it = index.iter();
    assert_eq!(it.next(), Some(10));
    assert_eq!(it.next(), Some(20));
    assert_eq!(it.next(), None);
    let mut it2 = index.iter_from(&15u64);
    assert_eq!(it2.next(), Some(20));
    assert_eq!(it2.next(), None);
    assert!(index.contains(&10u64));
    assert!(!index.contains(&30u64));
}

#[test]
fn key_set_index_clear() {
    let db = MemoryDb::new();
    let fork = db.fork();
    let mut index: KeySetIndex<Fork, u64> = KeySetIndex::new(vec![0x70], fork);
    index.insert(1u64);
    index.insert(2u64);
    index.clear();
    assert!(!index.contains(&1u64));
    assert!(!index.contains(&2u64));
    let mut it = index.iter();
    assert_eq!(it.next(), None);
}
