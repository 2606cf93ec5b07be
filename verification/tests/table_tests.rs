use cuckoo::CuckooHashTable;
use cuckoo::KeyVal;
use cuckoo::TableError;

#[test]
fn round_trip_basic() {
    let ht = CuckooHashTable::new();
    ht.insert("alpha".to_string(), "1".to_string()).unwrap();
    ht.insert("beta".to_string(), "2".to_string()).unwrap();
    ht.insert("gamma".to_string(), "3".to_string()).unwrap();
    assert_eq!(ht.lookup(&"alpha".to_string()), Some("1".to_string()));
    assert_eq!(ht.lookup(&"beta".to_string()), Some("2".to_string()));
    assert_eq!(ht.lookup(&"gamma".to_string()), Some("3".to_string()));
    assert_eq!(ht.lookup(&"delta".to_string()), None);
}

#[test]
fn empty_table() {
    let ht = CuckooHashTable::new();
    assert_eq!(ht.lookup(&"anything".to_string()), None);
    assert_eq!(ht.remove(&"anything".to_string()), None);
    assert!(ht.get_vec().is_empty());
    assert_eq!(ht.get_capacity(), 13);
}

#[test]
fn update_semantics() {
    let ht = CuckooHashTable::new();
    ht.insert("key".to_string(), "old".to_string()).unwrap();
    ht.insert("key".to_string(), "new".to_string()).unwrap();
    assert_eq!(ht.lookup(&"key".to_string()), Some("new".to_string()));
    // Exactly one live entry for the key.
    let snapshot = ht.get_vec();
    let matching: Vec<&KeyVal<String, String>> =
        snapshot.iter().filter(|kv| kv.key == "key").collect();
    assert_eq!(matching.len(), 1);
    assert_eq!(matching[0].value, "new");
}

#[test]
fn removal() {
    let ht = CuckooHashTable::new();
    ht.insert("one".to_string(), "1".to_string()).unwrap();
    ht.insert("two".to_string(), "2".to_string()).unwrap();
    assert_eq!(ht.remove(&"one".to_string()), Some("1".to_string()));
    assert_eq!(ht.lookup(&"one".to_string()), None);
    // Removing an absent key returns absent and touches nothing else.
    assert_eq!(ht.remove(&"one".to_string()), None);
    assert_eq!(ht.remove(&"never".to_string()), None);
    assert_eq!(ht.lookup(&"two".to_string()), Some("2".to_string()));
    assert_eq!(ht.get_vec().len(), 1);
}

#[test]
fn scenario_a_sequential_growth() {
    // Starting from the default capacity of 13, inserting 14 distinct keys
    // must double the capacity at least once, and every key stays readable.
    let ht = CuckooHashTable::new();
    assert_eq!(ht.get_capacity(), 13);
    for i in 1..=14 {
        ht.insert(format!("key{}", i), format!("value{}", i)).unwrap();
    }
    assert!(ht.get_capacity() >= 26);
    for i in 1..=14 {
        assert_eq!(ht.lookup(&format!("key{}", i)), Some(format!("value{}", i)));
    }
    assert_eq!(ht.lookup(&"key100".to_string()), None);
    assert_eq!(ht.get_vec().len(), 14);
}

#[test]
fn resize_keeps_entries() {
    // A one-slot table cannot hold two distinct keys without growing, so the
    // relocation bound is exceeded and at least one doubling must happen.
    let ht = CuckooHashTable::with_capacity(1);
    assert_eq!(ht.get_capacity(), 1);
    for i in 0..5 {
        ht.insert(format!("k{}", i), format!("v{}", i)).unwrap();
    }
    assert!(ht.get_capacity() > 1);
    for i in 0..5 {
        assert_eq!(ht.lookup(&format!("k{}", i)), Some(format!("v{}", i)));
    }
}

#[test]
fn snapshot_is_exact() {
    let ht = CuckooHashTable::new();
    for i in 0..5 {
        ht.insert(format!("s{}", i), format!("w{}", i)).unwrap();
    }
    let mut pairs: Vec<(String, String)> =
        ht.get_vec().into_iter().map(|kv| (kv.key, kv.value)).collect();
    pairs.sort();
    let expected: Vec<(String, String)> =
        (0..5).map(|i| (format!("s{}", i), format!("w{}", i))).collect();
    assert_eq!(pairs, expected);
}

#[test]
fn empty_string_key_and_value() {
    let ht = CuckooHashTable::new();
    ht.insert("".to_string(), "".to_string()).unwrap();
    assert_eq!(ht.lookup(&"".to_string()), Some("".to_string()));
    ht.insert("".to_string(), "filled".to_string()).unwrap();
    assert_eq!(ht.lookup(&"".to_string()), Some("filled".to_string()));
    assert_eq!(ht.remove(&"".to_string()), Some("filled".to_string()));
    assert_eq!(ht.lookup(&"".to_string()), None);
}

#[test]
fn default_is_new() {
    let ht: CuckooHashTable = Default::default();
    assert_eq!(ht.get_capacity(), 13);
    assert_eq!(ht.lookup(&"x".to_string()), None);
}

#[test]
fn hashing_is_deterministic() {
    // The two hash functions are pure: the same key and capacity always give
    // the same home slots, which is what makes lookup find what insert put.
    assert_eq!(cuckoo::hashing::hash1("key1", 13), cuckoo::hashing::hash1("key1", 13));
    assert_eq!(cuckoo::hashing::hash2("key1", 13), cuckoo::hashing::hash2("key1", 13));
    assert!(cuckoo::hashing::hash1("key1", 13) < 13);
    assert!(cuckoo::hashing::hash2("key1", 13) < 13);
}

#[test]
fn scenario_b_interleaved_writers() {
    // Two writers insert 7 disjoint keys each, their operations interleaved
    // step by step; the snapshot holds exactly those 14 entries, no
    // duplicates, no losses.
    let ht = CuckooHashTable::new();
    for i in 0..7 {
        ht.insert(format!("left{}", i), format!("lv{}", i)).unwrap();
        ht.insert(format!("right{}", i), format!("rv{}", i)).unwrap();
    }
    let mut pairs: Vec<(String, String)> =
        ht.get_vec().into_iter().map(|kv| (kv.key, kv.value)).collect();
    assert_eq!(pairs.len(), 14);
    pairs.sort();
    pairs.dedup();
    assert_eq!(pairs.len(), 14);
    for i in 0..7 {
        assert_eq!(ht.lookup(&format!("left{}", i)), Some(format!("lv{}", i)));
        assert_eq!(ht.lookup(&format!("right{}", i)), Some(format!("rv{}", i)));
    }
}

#[test]
fn no_loss_across_writers() {
    // Four writers, disjoint key sets, operations interleaved; every key of
    // the union is present exactly once with its own value, through however
    // many growths the small initial capacity forces.
    let ht = CuckooHashTable::with_capacity(2);
    for i in 0..10 {
        for t in 0..4 {
            ht.insert(format!("t{}-{}", t, i), format!("val{}-{}", t, i)).unwrap();
        }
    }
    assert_eq!(ht.get_vec().len(), 40);
    for t in 0..4 {
        for i in 0..10 {
            assert_eq!(ht.lookup(&format!("t{}-{}", t, i)), Some(format!("val{}-{}", t, i)));
        }
    }
}

#[test]
fn growth_limit_error() {
    // Rebuilding from an already huge capacity for no entries trips the
    // bounded-liveness check instead of looping or allocating forever.
    let entries: Vec<KeyVal<String, String>> = Vec::new();
    let r = cuckoo::resize::rebuild(&entries, 1000);
    assert_eq!(r.err(), Some(TableError::GrowthLimit));
}
