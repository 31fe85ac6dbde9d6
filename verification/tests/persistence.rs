// Persistence: flushing and encoding a keyspace to its three file images
// and reopening from them reproduces the same length and all values; a
// keyspace image never opens under the wrong key type.
use abyssiniandb::{
    DbError, DbString, DbU64, DbXxx, DbXxxBase, FileDbMapDbString, FileDbMapDbU64, FileDbParams,
    HashBucketsParam,
};

fn params4() -> FileDbParams {
    FileDbParams {
        buckets_size: HashBucketsParam::Capacity(4),
        ..Default::default()
    }
}

#[test]
fn test_flush_and_reopen_reproduces_contents() {
    let mut m = FileDbMapDbString::open(&params4()).unwrap();
    for i in 0..50u32 {
        let k = format!("key{}", i);
        let v = format!("value{}", i);
        m.put_string(&DbString::from(k.as_str()), v.as_str()).unwrap();
    }
    m.flush().unwrap();
    assert!(!m.is_dirty());
    let (htx_img, key_img, val_img) = m.to_images();

    let mut m2 = FileDbMapDbString::open_from_images(&htx_img, &key_img, &val_img).unwrap();
    assert_eq!(m2.len().unwrap(), 50);
    assert!(!m2.is_dirty());
    for i in 0..50u32 {
        let k = format!("key{}", i);
        let v = format!("value{}", i);
        assert_eq!(m2.get_string(&DbString::from(k.as_str())).unwrap(), Some(v));
    }
    assert_eq!(m2.get_string(&DbString::from("other")).unwrap(), None);
}

#[test]
fn test_reopen_after_deletes_and_overwrites() {
    let mut m = FileDbMapDbU64::open(&params4()).unwrap();
    for i in 0..40u64 {
        m.put(&DbU64::from(i), &i.to_le_bytes()).unwrap();
    }
    for i in 0..20u64 {
        m.delete(&DbU64::from(i)).unwrap();
    }
    m.put(&DbU64::from(25u64), b"replaced").unwrap();
    m.sync_data().unwrap();
    let (htx_img, key_img, val_img) = m.to_images();

    let mut m2 = FileDbMapDbU64::open_from_images(&htx_img, &key_img, &val_img).unwrap();
    assert_eq!(m2.len().unwrap(), 20);
    for i in 0..20u64 {
        assert_eq!(m2.get(&DbU64::from(i)).unwrap(), None);
    }
    for i in 20..40u64 {
        let expect = if i == 25 {
            b"replaced".to_vec()
        } else {
            i.to_le_bytes().to_vec()
        };
        assert_eq!(m2.get(&DbU64::from(i)).unwrap(), Some(expect));
    }
}

#[test]
fn test_directory_header_is_bit_exact() {
    let params = FileDbParams {
        buckets_size: HashBucketsParam::BucketsSize(8),
        ..Default::default()
    };
    let mut m = FileDbMapDbString::open(&params).unwrap();
    m.put_string(&DbString::from("a"), "1").unwrap();
    m.put_string(&DbString::from("b"), "2").unwrap();
    let (htx_img, _key_img, _val_img) = m.to_images();
    // signature1: the engine magic
    assert_eq!(&htx_img[0..8], b"abysdbH\0");
    // signature2: the key type tag
    assert_eq!(&htx_img[8..16], b"string\0\0");
    // bucket count, little endian
    assert_eq!(&htx_img[16..24], &8u64.to_le_bytes());
    // item count, little endian
    assert_eq!(&htx_img[24..32], &2u64.to_le_bytes());
    // reserved area is zero filled
    assert!(htx_img[32..128].iter().all(|b| *b == 0));
    // one 8-byte bucket head per bucket
    assert_eq!(htx_img.len(), 128 + 8 * 8);
}

#[test]
fn test_wrong_key_type_signature_is_fatal() {
    let mut m = FileDbMapDbU64::open(&params4()).unwrap();
    m.put(&DbU64::from(7u64), b"x").unwrap();
    m.flush().unwrap();
    let (htx_img, key_img, val_img) = m.to_images();
    // reopening under another key type must fail on the type signature
    let r = FileDbMapDbString::open_from_images(&htx_img, &key_img, &val_img);
    assert!(matches!(r, Err(DbError::InvalidSignature)));
}

#[test]
fn test_corrupt_image_is_rejected() {
    let r = FileDbMapDbString::open_from_images(b"short", b"short", b"short");
    assert!(matches!(r, Err(DbError::Corrupt)));
    let mut m = FileDbMapDbString::open(&params4()).unwrap();
    m.put_string(&DbString::from("a"), "1").unwrap();
    let (htx_img, key_img, mut val_img) = m.to_images();
    // truncating the value file away from a whole piece is corruption
    val_img.truncate(val_img.len() - 3);
    let r = FileDbMapDbString::open_from_images(&htx_img, &key_img, &val_img);
    assert!(matches!(r, Err(DbError::Corrupt)));
}

#[test]
fn test_empty_keyspace_round_trip() {
    let m = FileDbMapDbString::open(&params4()).unwrap();
    let (htx_img, key_img, val_img) = m.to_images();
    assert_eq!(key_img.len(), 128);
    assert_eq!(val_img.len(), 128);
    let m2 = FileDbMapDbString::open_from_images(&htx_img, &key_img, &val_img).unwrap();
    assert_eq!(m2.len().unwrap(), 0);
}
