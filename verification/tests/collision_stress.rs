// Collision stress: a deliberately small bucket table (capacity hint 4)
// with a thousand distinct integer keys, so that every bucket carries a
// long chain; membership must never be misreported through inserts,
// forward deletes, reinserts, and backward deletes.
use abyssiniandb::{DbU64, DbXxx, DbXxxBase, FileDbMapDbU64, FileDbParams, HashBucketsParam};

fn verify_partition(m: &mut FileDbMapDbU64, present_from: u64, present_to: u64, total: u64) {
    for j in 1..=total {
        let expect = j >= present_from && j < present_to;
        assert_eq!(m.includes_key(&DbU64::from(j)).unwrap(), expect, "key {}", j);
    }
}

#[test]
fn test_collision_stress() {
    let params = FileDbParams {
        buckets_size: HashBucketsParam::Capacity(4),
        ..Default::default()
    };
    let mut m = FileDbMapDbU64::open(&params).unwrap();
    let total: u64 = 1000;

    for i in 1..=total {
        m.put(&DbU64::from(i), &i.to_le_bytes()).unwrap();
    }
    assert_eq!(m.len().unwrap(), total);
    for i in 1..=total {
        assert_eq!(m.get(&DbU64::from(i)).unwrap(), Some(i.to_le_bytes().to_vec()));
    }
    for i in total + 1..total + 100 {
        assert!(!m.includes_key(&DbU64::from(i)).unwrap());
    }

    // remove forwards, checking the presence partition around the cut and
    // in full every hundred removals
    for i in 1..=total {
        assert!(m.delete(&DbU64::from(i)).unwrap().is_some());
        assert!(!m.includes_key(&DbU64::from(i)).unwrap());
        if i < total {
            assert!(m.includes_key(&DbU64::from(i + 1)).unwrap());
        }
        if i % 100 == 0 {
            verify_partition(&mut m, i + 1, total + 1, total);
        }
    }
    assert_eq!(m.len().unwrap(), 0);

    // reinsert everything
    for i in 1..=total {
        m.put(&DbU64::from(i), &i.to_le_bytes()).unwrap();
    }
    assert_eq!(m.len().unwrap(), total);

    // remove backwards, checking the partition around the cut and in
    // full every hundred removals
    for i in (1..=total).rev() {
        assert!(m.delete(&DbU64::from(i)).unwrap().is_some());
        assert!(!m.includes_key(&DbU64::from(i)).unwrap());
        if i > 1 {
            assert!(m.includes_key(&DbU64::from(i - 1)).unwrap());
        }
        if i % 100 == 0 {
            verify_partition(&mut m, 1, i, total);
        }
    }
    assert!(m.is_empty().unwrap());
}

#[test]
fn test_insert_conflicts_small_table() {
    let params = FileDbParams {
        buckets_size: HashBucketsParam::Capacity(4),
        ..Default::default()
    };
    let mut m = FileDbMapDbU64::open(&params).unwrap();
    m.put(&DbU64::from(1u64), &[2u8]).unwrap();
    m.put(&DbU64::from(5u64), &[3u8]).unwrap();
    m.put(&DbU64::from(9u64), &[4u8]).unwrap();
    assert_eq!(m.get(&DbU64::from(9u64)).unwrap(), Some(vec![4u8]));
    assert_eq!(m.get(&DbU64::from(5u64)).unwrap(), Some(vec![3u8]));
    assert_eq!(m.get(&DbU64::from(1u64)).unwrap(), Some(vec![2u8]));
}

#[test]
fn test_delete_from_chain_middle_and_head() {
    // a single bucket forces one chain holding every key
    let params = FileDbParams {
        buckets_size: HashBucketsParam::BucketsSize(1),
        ..Default::default()
    };
    let mut m = FileDbMapDbU64::open(&params).unwrap();
    for i in 0..10u64 {
        m.put(&DbU64::from(i), &[i as u8]).unwrap();
    }
    // the chain head is the most recently inserted key
    assert_eq!(m.delete(&DbU64::from(9u64)).unwrap(), Some(vec![9u8]));
    // a middle node
    assert_eq!(m.delete(&DbU64::from(4u64)).unwrap(), Some(vec![4u8]));
    // the chain tail is the first inserted key
    assert_eq!(m.delete(&DbU64::from(0u64)).unwrap(), Some(vec![0u8]));
    assert_eq!(m.len().unwrap(), 7);
    for i in 0..10u64 {
        let expect = i != 9 && i != 4 && i != 0;
        assert_eq!(m.includes_key(&DbU64::from(i)).unwrap(), expect);
    }
    // freed pieces are reused for new keys
    m.put(&DbU64::from(100u64), &[100u8]).unwrap();
    m.put(&DbU64::from(101u64), &[101u8]).unwrap();
    assert_eq!(m.get(&DbU64::from(100u64)).unwrap(), Some(vec![100u8]));
    assert_eq!(m.get(&DbU64::from(101u64)).unwrap(), Some(vec![101u8]));
    assert_eq!(m.len().unwrap(), 9);
}
