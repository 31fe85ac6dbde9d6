// The multi-keyspace registry: named keyspaces are independent, handles
// are exclusively owned, and keyspaces put back into the registry are
// covered by the database-wide sync.
use abyssiniandb::{
    open_file, DbString, DbU64, DbXxx, DbXxxBase, FileDbParams, HashBucketsParam,
};

#[test]
fn test_two_string_maps_are_isolated() {
    let mut db = open_file("target/tmp/test_two_string_maps").unwrap();
    assert_eq!(db.path().as_slice(), b"target/tmp/test_two_string_maps");
    let mut m1 = db.db_map_string("map1").unwrap();
    let mut m2 = db.db_map_string("map2").unwrap();
    m1.put_string(&DbString::from("key1"), "value1_map1").unwrap();
    m2.put_string(&DbString::from("key1"), "value1_map2").unwrap();
    m1.put_string(&DbString::from("key2"), "value2_map1").unwrap();
    assert_eq!(m1.get_string(&DbString::from("key1")).unwrap(), Some("value1_map1".to_string()));
    assert_eq!(m2.get_string(&DbString::from("key1")).unwrap(), Some("value1_map2".to_string()));
    assert_eq!(m2.get_string(&DbString::from("key2")).unwrap(), None);
    assert_eq!(m1.len().unwrap(), 2);
    assert_eq!(m2.len().unwrap(), 1);
}

#[test]
fn test_mixed_type_maps_are_isolated() {
    let mut db = open_file("target/tmp/test_mixed_type_maps").unwrap();
    let mut sm = db.db_map_string("string_map").unwrap();
    let mut um = db.db_map_u64("i64_map").unwrap();
    sm.put_string(&DbString::from("str_key"), "str_value").unwrap();
    um.put(&DbU64::from(123u64), b"i64_value").unwrap();
    assert_eq!(sm.get_string(&DbString::from("str_key")).unwrap(), Some("str_value".to_string()));
    assert_eq!(um.get(&DbU64::from(123u64)).unwrap(), Some(b"i64_value".to_vec()));
    assert_eq!(sm.len().unwrap(), 1);
    assert_eq!(um.len().unwrap(), 1);
}

#[test]
fn test_take_insert_back_and_sync_all() {
    let mut db = open_file("target/tmp/test_take_insert_back").unwrap();
    let mut m = db.db_map_string_with_params(
        "some_string_1",
        &FileDbParams { buckets_size: HashBucketsParam::Capacity(4), ..Default::default() },
    )
    .unwrap();
    m.put_string(&DbString::from("k"), "val1").unwrap();
    assert!(m.is_dirty());
    // hand the keyspace back; the database-wide sync covers it
    assert!(db.db_map_insert("some_string_1", m).is_none());
    db.sync_all().unwrap();
    // taking it out again: same contents, already clean
    let mut m = db.db_map_string("some_string_1").unwrap();
    assert!(!m.is_dirty());
    assert_eq!(m.get_string(&DbString::from("k")).unwrap(), Some("val1".to_string()));
    // a name not inserted is created fresh
    let mut other = db.db_map_string("other_name").unwrap();
    assert_eq!(other.len().unwrap(), 0);
}

#[test]
fn test_insert_replaces_and_returns_previous() {
    let mut db = open_file("target/tmp/test_insert_replaces").unwrap();
    let mut a = db.db_map_u64("m").unwrap();
    a.put(&DbU64::from(1u64), b"a").unwrap();
    assert!(db.db_map_dbu64_insert("m", a).is_none());
    let mut b = db.db_map_u64("other").unwrap();
    b.put(&DbU64::from(2u64), b"b").unwrap();
    let prev = db.db_map_dbu64_insert("m", b);
    assert!(prev.is_some());
    let mut prev = prev.unwrap();
    assert_eq!(prev.get(&DbU64::from(1u64)).unwrap(), Some(b"a".to_vec()));
    let mut now = db.db_map_u64("m").unwrap();
    assert_eq!(now.get(&DbU64::from(2u64)).unwrap(), Some(b"b".to_vec()));
    db.sync_data().unwrap();
}
