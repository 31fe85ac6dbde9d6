// Keyspace creation: bucket sizing from capacity hints, and the
// deterministic failure on a zero capacity hint.
use abyssiniandb::{
    capacity_to_buckets_size, open_file, CheckFileDbMap, DbError, DbU64, DbXxx, DbXxxBase,
    FileDbMapDbU64, FileDbParams, HashBucketsParam,
};

#[test]
fn test_create_capacity_zero_fails() {
    let params = FileDbParams {
        buckets_size: HashBucketsParam::Capacity(0),
        ..Default::default()
    };
    let r = FileDbMapDbU64::open(&params);
    assert!(matches!(r, Err(DbError::ZeroCapacity)));
    // through the registry as well
    let mut db = open_file("target/tmp/test_create_capacity_zero").unwrap();
    let r = db.db_map_u64_with_params("some_u64_1", &params);
    assert!(matches!(r, Err(DbError::ZeroCapacity)));
}

#[test]
fn test_capacity_to_buckets_size_values() {
    // small hints floor at eight buckets
    assert_eq!(capacity_to_buckets_size(1), 8);
    assert_eq!(capacity_to_buckets_size(4), 8);
    assert_eq!(capacity_to_buckets_size(7), 8);
    // otherwise the next power of two above a ninth more than the hint
    assert_eq!(capacity_to_buckets_size(8), 16);
    assert_eq!(capacity_to_buckets_size(100), 128);
    assert_eq!(capacity_to_buckets_size(1000), 2048);
    // 1024 + 128 = 1152 rounds up to 2048; 900 + 112 = 1012 rounds to 1024
    assert_eq!(capacity_to_buckets_size(900), 1024);
}

#[test]
fn test_bucket_size_param_rounds_to_power_of_two() {
    let params = FileDbParams {
        buckets_size: HashBucketsParam::BucketsSize(5),
        ..Default::default()
    };
    let mut m = FileDbMapDbU64::open(&params).unwrap();
    m.put(&DbU64::from(1u64), b"x").unwrap();
    let (htx_img, _, _) = m.to_images();
    // five rounds up to eight buckets
    assert_eq!(&htx_img[16..24], &8u64.to_le_bytes());
}

#[test]
fn test_fresh_keyspace_is_empty_and_clean() {
    let params = FileDbParams {
        buckets_size: HashBucketsParam::Capacity(10),
        ..Default::default()
    };
    let mut m = FileDbMapDbU64::open(&params).unwrap();
    assert_eq!(m.len().unwrap(), 0);
    assert!(m.is_empty().unwrap());
    assert!(!m.is_dirty());
    assert_eq!(m.get(&DbU64::from(1u64)).unwrap(), None);
}

#[test]
fn test_create_oversized_table_fails() {
    // a bucket count beyond the largest 64-bit power of two
    let params = FileDbParams {
        buckets_size: HashBucketsParam::BucketsSize(u64::MAX),
        ..Default::default()
    };
    assert!(matches!(FileDbMapDbU64::open(&params), Err(DbError::TooLarge)));
    // a capacity hint too large to size a table for
    let params = FileDbParams {
        buckets_size: HashBucketsParam::Capacity(u64::MAX / 2),
        ..Default::default()
    };
    assert!(matches!(FileDbMapDbU64::open(&params), Err(DbError::TooLarge)));
}

#[test]
fn test_created_bucket_count_follows_params() {
    // a capacity hint of a thousand keys sizes to 2048 buckets
    let params = FileDbParams {
        buckets_size: HashBucketsParam::Capacity(1000),
        ..Default::default()
    };
    let m = FileDbMapDbU64::open(&params).unwrap();
    assert_eq!(m.ht_size_and_count().unwrap(), (2048, 0));
    // an exact bucket count of 17 rounds to 32
    let params = FileDbParams {
        buckets_size: HashBucketsParam::BucketsSize(17),
        ..Default::default()
    };
    let m = FileDbMapDbU64::open(&params).unwrap();
    assert_eq!(m.ht_size_and_count().unwrap(), (32, 0));
}
