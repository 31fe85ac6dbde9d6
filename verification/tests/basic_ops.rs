// Basic map operations on a string-keyed keyspace: round trips,
// overwrites, deletes, membership, and the bulk operations.
use abyssiniandb::{
    DbString, DbXxx, DbXxxBase, FileDbMapDbString, FileDbParams, HashBucketsParam,
};

fn small_map() -> FileDbMapDbString {
    let params = FileDbParams {
        buckets_size: HashBucketsParam::Capacity(4),
        ..Default::default()
    };
    FileDbMapDbString::open(&params).unwrap()
}

#[test]
fn test_put_then_get_returns_value() {
    let mut m = small_map();
    m.put(&DbString::from("key1"), b"value1").unwrap();
    assert_eq!(m.get(&DbString::from("key1")).unwrap(), Some(b"value1".to_vec()));
    m.put(&DbString::from("key2"), b"value2").unwrap();
    assert_eq!(m.get(&DbString::from("key2")).unwrap(), Some(b"value2".to_vec()));
    assert_eq!(m.get(&DbString::from("key1")).unwrap(), Some(b"value1".to_vec()));
    assert_eq!(m.get(&DbString::from("key3")).unwrap(), None);
    assert_eq!(m.len().unwrap(), 2);
    assert!(m.is_dirty());
}

#[test]
fn test_overwrite_keeps_len() {
    let mut m = small_map();
    m.put(&DbString::from("k"), b"v1").unwrap();
    assert_eq!(m.len().unwrap(), 1);
    m.put(&DbString::from("k"), b"v2").unwrap();
    assert_eq!(m.get(&DbString::from("k")).unwrap(), Some(b"v2".to_vec()));
    assert_eq!(m.len().unwrap(), 1);
    // a much longer value relocates the value piece and still reads back
    let long = vec![7u8; 200];
    m.put(&DbString::from("k"), &long).unwrap();
    assert_eq!(m.get(&DbString::from("k")).unwrap(), Some(long));
    assert_eq!(m.len().unwrap(), 1);
}

#[test]
fn test_delete_idempotent() {
    let mut m = small_map();
    assert_eq!(m.delete(&DbString::from("absent")).unwrap(), None);
    m.put(&DbString::from("k"), b"v").unwrap();
    assert_eq!(m.delete(&DbString::from("k")).unwrap(), Some(b"v".to_vec()));
    assert_eq!(m.get(&DbString::from("k")).unwrap(), None);
    assert_eq!(m.delete(&DbString::from("k")).unwrap(), None);
    assert_eq!(m.len().unwrap(), 0);
    assert!(m.is_empty().unwrap());
}

#[test]
fn test_membership_follows_history() {
    let mut m = small_map();
    assert!(!m.includes_key(&DbString::from("k")).unwrap());
    m.put(&DbString::from("k"), b"v").unwrap();
    assert!(m.includes_key(&DbString::from("k")).unwrap());
    m.delete(&DbString::from("k")).unwrap();
    assert!(!m.includes_key(&DbString::from("k")).unwrap());
    m.put(&DbString::from("k"), b"w").unwrap();
    assert!(m.includes_key(&DbString::from("k")).unwrap());
}

#[test]
fn test_put_string_get_string() {
    let mut m = small_map();
    m.put_string(&DbString::from("key1"), "value1").unwrap();
    assert_eq!(m.get_string(&DbString::from("key1")).unwrap(), Some("value1".to_string()));
    assert_eq!(m.get_string(&DbString::from("key2")).unwrap(), None);
    assert_eq!(m.delete_string(&DbString::from("key1")).unwrap(), Some("value1".to_string()));
    assert_eq!(m.get_string(&DbString::from("key1")).unwrap(), None);
}

#[test]
fn test_bulk_put_and_get() {
    let mut m = small_map();
    let bulk: Vec<(DbString, Vec<u8>)> = vec![
        (DbString::from("a"), b"1".to_vec()),
        (DbString::from("b"), b"2".to_vec()),
        (DbString::from("a"), b"3".to_vec()),
    ];
    m.bulk_put(&bulk).unwrap();
    // the later pair with the same key wins
    assert_eq!(m.get(&DbString::from("a")).unwrap(), Some(b"3".to_vec()));
    assert_eq!(m.get(&DbString::from("b")).unwrap(), Some(b"2".to_vec()));
    assert_eq!(m.len().unwrap(), 2);
    let keys: Vec<DbString> =
        vec![DbString::from("a"), DbString::from("zz"), DbString::from("b")];
    let got = m.bulk_get(&keys).unwrap();
    assert_eq!(got, vec![Some(b"3".to_vec()), None, Some(b"2".to_vec())]);
}

#[test]
fn test_bulk_delete_scenario() {
    // capacity hint 4; insert three pairs; bulk delete two present keys
    // and one absent key; one pair is left
    let mut m = small_map();
    m.put_string(&DbString::from("k1"), "v1").unwrap();
    m.put_string(&DbString::from("k2"), "v2").unwrap();
    m.put_string(&DbString::from("k3"), "v3").unwrap();
    let keys: Vec<DbString> =
        vec![DbString::from("k1"), DbString::from("k3"), DbString::from("k4")];
    let got = m.bulk_delete(&keys).unwrap();
    assert_eq!(got, vec![Some(b"v1".to_vec()), Some(b"v3".to_vec()), None]);
    assert_eq!(m.len().unwrap(), 1);
    assert_eq!(m.get_string(&DbString::from("k2")).unwrap(), Some("v2".to_string()));
}

#[test]
fn test_bulk_delete_same_key_twice() {
    let mut m = small_map();
    m.put_string(&DbString::from("k"), "v").unwrap();
    let keys: Vec<DbString> = vec![DbString::from("k"), DbString::from("k")];
    let got = m.bulk_delete(&keys).unwrap();
    assert_eq!(got, vec![Some(b"v".to_vec()), None]);
    assert_eq!(m.len().unwrap(), 0);
}

#[test]
fn test_put_from_iter() {
    let mut m = small_map();
    let items: Vec<(DbString, Vec<u8>)> = vec![
        (DbString::from("x"), b"1".to_vec()),
        (DbString::from("y"), b"2".to_vec()),
    ];
    m.put_from_iter(&items).unwrap();
    assert_eq!(m.len().unwrap(), 2);
    assert_eq!(m.get(&DbString::from("y")).unwrap(), Some(b"2".to_vec()));
}

#[test]
fn test_empty_key_and_empty_value() {
    let mut m = small_map();
    m.put(&DbString::from(""), b"").unwrap();
    assert_eq!(m.get(&DbString::from("")).unwrap(), Some(Vec::new()));
    assert_eq!(m.len().unwrap(), 1);
    assert_eq!(m.delete(&DbString::from("")).unwrap(), Some(Vec::new()));
    assert!(m.is_empty().unwrap());
}

#[test]
fn test_read_fill_buffer_and_flush_flags() {
    let mut m = small_map();
    assert!(!m.is_dirty());
    m.read_fill_buffer().unwrap();
    assert!(!m.is_dirty());
    m.put(&DbString::from("k"), b"v").unwrap();
    assert!(m.is_dirty());
    m.flush().unwrap();
    assert!(!m.is_dirty());
    m.put(&DbString::from("k"), b"w").unwrap();
    assert!(m.is_dirty());
    m.sync_all().unwrap();
    assert!(!m.is_dirty());
    m.put(&DbString::from("j"), b"x").unwrap();
    m.sync_data().unwrap();
    assert!(!m.is_dirty());
}
