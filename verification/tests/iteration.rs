// Iteration: the pair, key, and value iterators yield exactly the held
// contents, one entry per live key.
use abyssiniandb::{
    DbI64, DbMapKeyType, DbString, DbXxx, DbXxxBase, FileDbMapDbI64, FileDbMapDbString,
    FileDbParams, HashBucketsParam,
};
use std::collections::BTreeMap;

fn params4() -> FileDbParams {
    FileDbParams {
        buckets_size: HashBucketsParam::Capacity(4),
        ..Default::default()
    }
}

#[test]
fn test_iterate_yields_exactly_len_pairs() {
    let mut m = FileDbMapDbString::open(&params4()).unwrap();
    let mut expect: BTreeMap<Vec<u8>, Vec<u8>> = BTreeMap::new();
    for i in 0..10u32 {
        let k = format!("key{}", i);
        let v = format!("value{}", i);
        m.put_string(&DbString::from(k.as_str()), v.as_str()).unwrap();
        expect.insert(k.into_bytes(), v.into_bytes());
    }
    let mut it = m.iter().unwrap();
    assert_eq!(it.size_hint(), (10, Some(10)));
    let mut seen: BTreeMap<Vec<u8>, Vec<u8>> = BTreeMap::new();
    while let Some((k, v)) = it.next() {
        let prev = seen.insert(k.as_bytes().to_vec(), v);
        assert!(prev.is_none(), "a key was yielded twice");
    }
    assert_eq!(seen, expect);
    assert_eq!(it.size_hint(), (0, Some(0)));
}

#[test]
fn test_iteration_empty_map() {
    let m = FileDbMapDbI64::open(&params4()).unwrap();
    let mut it = m.iter().unwrap();
    assert_eq!(it.size_hint(), (0, Some(0)));
    assert!(it.next().is_none());
    let mut keys = m.keys().unwrap();
    assert!(keys.next().is_none());
    let mut values = m.values().unwrap();
    assert!(values.next().is_none());
}

#[test]
fn test_keys_and_values_after_modifications() {
    let mut m = FileDbMapDbI64::open(&params4()).unwrap();
    m.put(&DbI64::from(10i64), b"ten").unwrap();
    m.put(&DbI64::from(20i64), b"twenty").unwrap();
    m.put(&DbI64::from(30i64), b"thirty").unwrap();
    m.delete(&DbI64::from(20i64)).unwrap();
    m.put(&DbI64::from(30i64), b"thirty+").unwrap();

    let mut keys: Vec<Vec<u8>> = Vec::new();
    let mut it = m.keys().unwrap();
    while let Some(k) = it.next() {
        keys.push(k.as_bytes().to_vec());
    }
    keys.sort();
    let mut expect_keys = vec![10i64.to_le_bytes().to_vec(), 30i64.to_le_bytes().to_vec()];
    expect_keys.sort();
    assert_eq!(keys, expect_keys);

    let mut values: Vec<Vec<u8>> = Vec::new();
    let mut it = m.values().unwrap();
    while let Some(v) = it.next() {
        values.push(v);
    }
    values.sort();
    let mut expect_values = vec![b"ten".to_vec(), b"thirty+".to_vec()];
    expect_values.sort();
    assert_eq!(values, expect_values);
}

#[test]
fn test_iter_mut_and_into_iter() {
    let mut m = FileDbMapDbString::open(&params4()).unwrap();
    m.put_string(&DbString::from("alpha"), "1").unwrap();
    m.put_string(&DbString::from("beta"), "2").unwrap();
    let mut it = m.iter_mut().unwrap();
    let mut count = 0;
    while let Some((_k, _v)) = it.next() {
        count += 1;
    }
    assert_eq!(count, 2);
    // the handle is still usable after an iterator with replacement
    m.put_string(&DbString::from("alpha"), "one").unwrap();
    assert_eq!(m.get_string(&DbString::from("alpha")).unwrap(), Some("one".to_string()));

    let mut it = m.into_iter().unwrap();
    let mut count = 0;
    while let Some((_k, _v)) = it.next() {
        count += 1;
    }
    assert_eq!(count, 2);
}
