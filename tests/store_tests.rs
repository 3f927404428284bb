use persia_embedding_holder::entry::HashMapEmbeddingEntry;
use persia_embedding_holder::eviction_map::{EvictionMap, EvictionMapValue};

fn entry(sign: u64) -> HashMapEmbeddingEntry {
    HashMapEmbeddingEntry::new_empty(2, 1, sign)
}

#[test]
fn store_never_exceeds_capacity() {
    let mut m: EvictionMap<HashMapEmbeddingEntry> = EvictionMap::new(4, 1);
    assert_eq!(m.capacity(), 4);
    for s in 0..5u64 {
        m.get_or_insert_with(s, || entry(s));
        assert!(m.len() <= 4);
    }
    assert_eq!(m.len(), 4);
    assert!(m.get(0).is_none());
    let mut called = false;
    m.get_or_insert_with(0, || {
        called = true;
        entry(0)
    });
    assert!(called);
    assert!(m.len() <= 4);
}

#[test]
fn hit_does_not_rebuild_and_refreshes_recency() {
    let mut m: EvictionMap<HashMapEmbeddingEntry> = EvictionMap::new(2, 1);
    m.get_or_insert_with(1, || entry(1));
    m.get_or_insert_with(2, || entry(2));
    let mut called = false;
    m.get_or_insert_with(1, || {
        called = true;
        entry(1)
    });
    assert!(!called);
    m.get_or_insert_with(3, || entry(3));
    assert!(m.get(1).is_some());
    assert!(m.get(2).is_none());
    assert!(m.get(3).is_some());
}

#[test]
fn residents_are_found_under_their_own_sign() {
    let mut m: EvictionMap<HashMapEmbeddingEntry> = EvictionMap::new(8, 4);
    for s in [3u64, 10, 17, 24, 31] {
        let e = m.get_or_insert_with(s, || entry(s));
        e.emb_mut()[0] = s as u32;
    }
    for s in [3u64, 10, 17, 24, 31] {
        let e = m.get(s).unwrap();
        assert_eq!(e.hashmap_key(), s);
        assert_eq!(e.sign(), s);
        assert_eq!(e.emb()[0], s as u32);
    }
}

#[test]
fn sharded_capacity_is_split_evenly() {
    let mut m: EvictionMap<HashMapEmbeddingEntry> = EvictionMap::new(4, 2);
    assert_eq!(m.capacity(), 4);
    for s in [0u64, 2, 4] {
        m.get_or_insert_with(s, || entry(s));
    }
    assert_eq!(m.len(), 2);
    assert!(m.get(0).is_none());
    m.get_or_insert_with(1, || entry(1));
    assert_eq!(m.len(), 3);
}

#[test]
fn remove_takes_the_entry_out() {
    let mut m: EvictionMap<HashMapEmbeddingEntry> = EvictionMap::new(4, 2);
    m.get_or_insert_with(5, || entry(5));
    m.get_or_insert_with(6, || entry(6));
    let e = m.remove(5).unwrap();
    assert_eq!(e.sign(), 5);
    assert!(m.remove(5).is_none());
    assert!(m.get(5).is_none());
    assert!(m.get(6).is_some());
    assert_eq!(m.len(), 1);
}

#[test]
fn keys_list_every_resident_once() {
    let mut m: EvictionMap<HashMapEmbeddingEntry> = EvictionMap::new(6, 3);
    for s in [4u64, 9, 5, 7, 3] {
        m.get_or_insert_with(s, || entry(s));
    }
    let mut keys = m.keys();
    assert_eq!(keys.len(), m.len());
    keys.sort();
    assert_eq!(keys, vec![3, 4, 5, 7, 9]);
    m.get_or_insert_with(4, || entry(4));
    assert_eq!(m.keys(), vec![9, 3, 7, 4, 5]);
}
