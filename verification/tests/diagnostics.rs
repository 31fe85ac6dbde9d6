// Diagnostics: the statistics reports describe the store without
// changing it.
use abyssiniandb::{
    CheckFileDbMap, DbU64, DbVu64, DbXxx, DbXxxBase, FileDbMapDbU64, FileDbMapDbVu64,
    FileDbParams, HashBucketsParam,
};

fn params4() -> FileDbParams {
    FileDbParams {
        buckets_size: HashBucketsParam::Capacity(4),
        ..Default::default()
    }
}

#[test]
fn test_ht_size_and_count() {
    let mut m = FileDbMapDbU64::open(&params4()).unwrap();
    assert_eq!(m.ht_size_and_count().unwrap(), (8, 0));
    m.put(&DbU64::from(1u64), b"a").unwrap();
    m.put(&DbU64::from(2u64), b"b").unwrap();
    assert_eq!(m.ht_size_and_count().unwrap(), (8, 2));
    m.delete(&DbU64::from(1u64)).unwrap();
    assert_eq!(m.ht_size_and_count().unwrap(), (8, 1));
    assert_eq!(m.buf_stats().len(), 0);
}

#[test]
fn test_free_piece_counts_after_delete() {
    let mut m = FileDbMapDbU64::open(&params4()).unwrap();
    assert!(m.count_of_free_key_piece().unwrap().is_empty());
    assert!(m.count_of_free_value_piece().unwrap().is_empty());
    m.put(&DbU64::from(1u64), b"a").unwrap();
    m.put(&DbU64::from(2u64), b"b").unwrap();
    m.delete(&DbU64::from(1u64)).unwrap();
    let free_keys = m.count_of_free_key_piece().unwrap();
    let total_free_keys: u64 = free_keys.iter().map(|e| e.1).sum();
    assert_eq!(total_free_keys, 1);
    let free_vals = m.count_of_free_value_piece().unwrap();
    let total_free_vals: u64 = free_vals.iter().map(|e| e.1).sum();
    assert_eq!(total_free_vals, 1);
}

#[test]
fn test_size_and_length_stats() {
    let mut m = FileDbMapDbU64::open(&params4()).unwrap();
    m.put(&DbU64::from(1u64), b"abc").unwrap();
    m.put(&DbU64::from(2u64), b"defgh").unwrap();
    let key_sizes = m.key_piece_size_stats().unwrap();
    let counted: u64 = key_sizes.counts().iter().map(|e| e.1).sum();
    assert_eq!(counted, 2);
    let val_sizes = m.value_piece_size_stats().unwrap();
    let counted: u64 = val_sizes.counts().iter().map(|e| e.1).sum();
    assert_eq!(counted, 2);
    // every stored key is eight bytes long
    let key_lengths = m.key_length_stats().unwrap();
    assert_eq!(key_lengths.counts().as_slice(), &[(8u32, 2u64)]);
    // one three-byte and one five-byte value
    let val_lengths = m.value_length_stats().unwrap();
    assert_eq!(val_lengths.counts().as_slice(), &[(3u32, 1u64), (5u32, 1u64)]);
    assert!(m.keys_count_stats().unwrap().counts().is_empty());
}

#[test]
fn test_filling_rate() {
    let mut m = FileDbMapDbU64::open(&params4()).unwrap();
    let (busy0, per_mill0) = m.htx_filling_rate_per_mill().unwrap();
    assert_eq!((busy0, per_mill0), (0, 0));
    for i in 0..100u64 {
        m.put(&DbU64::from(i), b"x").unwrap();
    }
    let (busy, per_mill) = m.htx_filling_rate_per_mill().unwrap();
    // eight buckets and a hundred keys: every bucket is in use
    assert_eq!(busy, 8);
    assert_eq!(per_mill, 1000);
}

#[test]
fn test_vu64_keyed_map_operations() {
    let mut m = FileDbMapDbVu64::open(&params4()).unwrap();
    m.put(&DbVu64::from(1u64), b"one").unwrap();
    m.put(&DbVu64::from(300u64), b"three hundred").unwrap();
    m.put(&DbVu64::from(12345678901234567890u64), b"big").unwrap();
    assert_eq!(m.get(&DbVu64::from(1u64)).unwrap(), Some(b"one".to_vec()));
    assert_eq!(m.get(&DbVu64::from(300u64)).unwrap(), Some(b"three hundred".to_vec()));
    assert_eq!(m.get(&DbVu64::from(12345678901234567890u64)).unwrap(), Some(b"big".to_vec()));
    assert_eq!(m.get(&DbVu64::from(2u64)).unwrap(), None);
    assert_eq!(m.len().unwrap(), 3);
    assert_eq!(m.delete(&DbVu64::from(300u64)).unwrap(), Some(b"three hundred".to_vec()));
    assert!(!m.includes_key(&DbVu64::from(300u64)).unwrap());
    assert_eq!(m.len().unwrap(), 2);
}
