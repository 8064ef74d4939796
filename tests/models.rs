use kv_store::models::{GetBody, RmBody, RmItem, SetBody, SetItem};
use kv_store::{ConnStrings, KVStoreError};

#[test]
fn set_item_display() {
    let item = SetItem { key: "a".to_string(), val: "1".to_string() };
    assert_eq!(item.display(), "{key: a, val: 1}");
}

#[test]
fn rm_item_display() {
    assert_eq!(RmItem { key: "a".to_string() }.display(), "{key: a}");
}

#[test]
fn get_body_from_and_display() {
    let b = GetBody::from((true, Some("v".to_string())));
    assert_eq!(b.found, true);
    assert_eq!(b.display(), "{found: true, val: v}");
    assert_eq!(GetBody::from((false, None)).display(), "{found: false, val: null}");
}

#[test]
fn set_body_from_and_display() {
    let b = SetBody::from((true, Some("old".to_string())));
    assert_eq!(b.display(), "{inserted: true, ejected_val: old}");
    assert_eq!(SetBody::from((true, None)).display(), "{inserted: true, ejected_val: null}");
}

#[test]
fn rm_body_found_follows_removed() {
    let b = RmBody::from((true, Some("v".to_string())));
    assert!(b.removed && b.found);
    assert_eq!(b.display(), "{removed: true, found: true, ejected_val: v}");
    let b = RmBody::from((false, None));
    assert!(!b.removed && !b.found);
    assert_eq!(b.display(), "{removed: false, found: false, ejected_val: null}");
}

#[test]
fn conn_strings_defaults() {
    let c = ConnStrings::resolve(None, None, None);
    assert_eq!(c.server_host(), "http://127.0.0.1:8000");
    assert_eq!(c.nats_host(), "127.0.0.1:4444");
    assert_eq!(c.log_file_path(), "kvs.log");
}

#[test]
fn conn_strings_configured() {
    let c = ConnStrings::resolve(
        Some("http://10.0.0.1:9000".to_string()),
        None,
        Some("/var/kv.log".to_string()),
    );
    assert_eq!(c.server_host(), "http://10.0.0.1:9000");
    assert_eq!(c.nats_host(), "127.0.0.1:4444");
    assert_eq!(c.log_file_path(), "/var/kv.log");
}

#[test]
fn error_messages() {
    assert_eq!(
        KVStoreError::KeyNotFound("k".to_string()).message(),
        "Key `k` does not exist."
    );
    assert_eq!(KVStoreError::Io("disk".to_string()).message(), "IO Error: disk");
    assert_eq!(KVStoreError::Lock.message(), "Error while getting a lock.");
    assert_eq!(
        KVStoreError::InvalidAction("x".to_string()).message(),
        "`x` is not a valid action."
    );
}
