use kv_store::record::{Action, Decoded};
use kv_store::{KVStore, KVStoreError};

fn fresh() -> KVStore {
    KVStore::open(&[]).unwrap()
}

#[test]
fn test_set() {
    let mut store = fresh();
    let key = String::from("this is");
    let val = String::from("the way");
    let res = store.set(key.clone(), val).unwrap();
    assert_eq!(res, None);
    let val = String::from("not the way");
    let res = store.set(key, val).unwrap();
    assert_eq!(res, Some(String::from("the way")));
}

#[test]
fn test_get() {
    let mut store = fresh();
    let key = String::from("this is");
    let val = String::from("the way");
    let res = store.set(key.clone(), val).unwrap();
    assert_eq!(res, None);
    let res = store.get(key).unwrap();
    assert_eq!(res, Some(String::from("the way")));
}

#[test]
fn test_rm() {
    let mut store = fresh();
    let key = String::from("this is");
    let val = String::from("the way");
    let res = store.set(key, val).unwrap();
    assert_eq!(res, None);
    let key = String::from("this is");
    let res = store.rm(key.clone()).unwrap();
    assert_eq!(res, Some(String::from("the way")));
}

#[test]
fn get_of_never_set_key_is_absent() {
    let mut store = fresh();
    assert_eq!(store.get("nothing".to_string()), Ok(None));
    store.set("a".to_string(), "1".to_string()).unwrap();
    assert_eq!(store.get("b".to_string()), Ok(None));
}

#[test]
fn set_twice_returns_first_value() {
    let mut store = fresh();
    assert_eq!(store.set("a".to_string(), "1".to_string()), Ok(None));
    assert_eq!(store.set("a".to_string(), "2".to_string()), Ok(Some("1".to_string())));
    assert_eq!(store.get("a".to_string()), Ok(Some("2".to_string())));
}

#[test]
fn remove_returns_last_value_then_absent() {
    let mut store = fresh();
    store.set("a".to_string(), "1".to_string()).unwrap();
    store.set("a".to_string(), "2".to_string()).unwrap();
    assert_eq!(store.rm("a".to_string()), Ok(Some("2".to_string())));
    assert_eq!(store.get("a".to_string()), Ok(None));
}

#[test]
fn remove_missing_key_fails() {
    let mut store = fresh();
    let before = store.log_bytes().clone();
    assert_eq!(
        store.rm("missing".to_string()),
        Err(KVStoreError::KeyNotFound("missing".to_string()))
    );
    assert_eq!(store.log_bytes(), &before);
}

#[test]
fn reopen_keeps_values() {
    let mut store = fresh();
    store.set("x".to_string(), "1".to_string()).unwrap();
    let log = store.log_bytes().clone();
    drop(store);
    let reopened = KVStore::open(&log).unwrap();
    assert_eq!(reopened.get("x".to_string()), Ok(Some("1".to_string())));
}

#[test]
fn reopen_after_remove_keeps_key_absent() {
    let mut store = fresh();
    store.set("x".to_string(), "1".to_string()).unwrap();
    store.set("y".to_string(), "2".to_string()).unwrap();
    store.rm("x".to_string()).unwrap();
    let reopened = KVStore::open(store.log_bytes()).unwrap();
    assert_eq!(reopened.get("x".to_string()), Ok(None));
    assert_eq!(reopened.get("y".to_string()), Ok(Some("2".to_string())));
}

#[test]
fn opening_twice_gives_same_contents() {
    let mut store = fresh();
    for (k, v) in [("a", "1"), ("b", "2"), ("a", "3"), ("c", "4")] {
        store.set(k.to_string(), v.to_string()).unwrap();
    }
    store.rm("b".to_string()).unwrap();
    let log = store.log_bytes().clone();
    let first = KVStore::open(&log).unwrap();
    let second = KVStore::open(&log).unwrap();
    assert_eq!(first.log_bytes(), second.log_bytes());
    for k in ["a", "b", "c", "d"] {
        assert_eq!(first.get(k.to_string()), second.get(k.to_string()));
    }
    assert_eq!(first.get("a".to_string()), Ok(Some("3".to_string())));
    assert_eq!(first.get("b".to_string()), Ok(None));
}

#[test]
fn sets_of_distinct_keys_are_all_kept() {
    let mut store = fresh();
    for i in 0..50u32 {
        store.set(format!("key{}", i), format!("val{}", i)).unwrap();
    }
    for i in 0..50u32 {
        assert_eq!(store.get(format!("key{}", i)), Ok(Some(format!("val{}", i))));
    }
}

#[test]
fn set_appends_the_encoded_record() {
    let mut store = fresh();
    store.set("a".to_string(), "1".to_string()).unwrap();
    let expected = Action::Put { key: "a".to_string(), val: "1".to_string() }.encode();
    assert_eq!(store.log_bytes(), &expected);
    store.rm("a".to_string()).unwrap();
    let mut both = expected.clone();
    both.extend(Action::Remove { key: "a".to_string() }.encode());
    assert_eq!(store.log_bytes(), &both);
}

#[test]
fn torn_tail_is_dropped_on_open() {
    let mut store = fresh();
    store.set("x".to_string(), "1".to_string()).unwrap();
    let whole = store.log_bytes().len();
    store.set("y".to_string(), "2".to_string()).unwrap();
    let mut log = store.log_bytes().clone();
    log.pop();
    let reopened = KVStore::open(&log).unwrap();
    assert_eq!(reopened.log_bytes().len(), whole);
    assert_eq!(reopened.get("x".to_string()), Ok(Some("1".to_string())));
    assert_eq!(reopened.get("y".to_string()), Ok(None));
}

#[test]
fn bad_tag_is_corruption_at_its_offset() {
    let mut store = fresh();
    store.set("x".to_string(), "1".to_string()).unwrap();
    let mut log = store.log_bytes().clone();
    let at = log.len() as u64;
    log.push(7);
    log.extend([0u8; 20]);
    assert_eq!(KVStore::open(&log).err(), Some(KVStoreError::Corrupt(at)));
}

#[test]
fn invalid_utf8_is_corruption() {
    let mut log = vec![0u8];
    log.extend(1u64.to_le_bytes());
    log.push(0xff);
    log.extend(1u64.to_le_bytes());
    log.push(b'1');
    assert_eq!(KVStore::open(&log).err(), Some(KVStoreError::Corrupt(0)));
}

#[test]
fn non_ascii_keys_and_values_round_trip() {
    let mut store = fresh();
    store.set("clé".to_string(), "värde ✓".to_string()).unwrap();
    let reopened = KVStore::open(store.log_bytes()).unwrap();
    assert_eq!(reopened.get("clé".to_string()), Ok(Some("värde ✓".to_string())));
}

#[test]
fn empty_key_and_value() {
    let mut store = fresh();
    assert_eq!(store.set(String::new(), String::new()), Ok(None));
    assert_eq!(store.get(String::new()), Ok(Some(String::new())));
    assert_eq!(store.rm(String::new()), Ok(Some(String::new())));
}

#[test]
fn new_store_is_empty() {
    let store = KVStore::new();
    assert!(store.log_bytes().is_empty());
    assert_eq!(store.get("a".to_string()), Ok(None));
}

#[test]
fn decode_reads_back_an_encoded_record() {
    let a = Action::Put { key: "k".to_string(), val: "v".to_string() };
    let bytes = a.encode();
    assert_eq!(decode_all(&bytes), Decoded::Record(a, bytes.len()));
}

fn decode_all(b: &[u8]) -> Decoded {
    kv_store::record::decode(b)
}
