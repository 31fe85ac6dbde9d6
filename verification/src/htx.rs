//! The hash directory of a keyspace: a fixed-size array of bucket heads
//! (each 0 or the offset of the first key piece of that bucket's chain), an
//! item count, and the per-key-type signature that is validated on reopen.
//! The bucket count is fixed at creation and never changes.
use crate::DbError;
use vstd::prelude::*;

verus! {

/// Number of buckets created when no capacity hint is given.
pub const DEFAULT_HT_SIZE: u64 = 16777216;

/// Whether `n` is a power of two.
pub open spec fn spec_is_pow2(n: int) -> bool
    decreases n,
{
    if n <= 0 {
        false
    } else if n == 1 {
        true
    } else {
        n % 2 == 0 && spec_is_pow2(n / 2)
    }
}

/// The smallest power of two at or above `n`.
pub open spec fn spec_next_pow2(n: int) -> int
    decreases n,
{
    if n <= 1 {
        1
    } else {
        2 * spec_next_pow2((n + 1) / 2)
    }
}

/// The next power of two is a power of two, at least `n`, and below
/// `2 * n`.
pub proof fn lemma_next_pow2(n: int)
    requires
        n >= 1,
    ensures
        spec_is_pow2(spec_next_pow2(n)),
        spec_next_pow2(n) >= n,
        spec_next_pow2(n) < 2 * n,
    decreases n,
{
    if n <= 1 {
    } else {
        let m = (n + 1) / 2;
        lemma_next_pow2(m);
        assert(spec_is_pow2(2 * spec_next_pow2(m)));
        if spec_next_pow2(m) >= n {
            // a power of two under 2 * m cannot reach n
            assert(spec_next_pow2(m) < 2 * m);
            assert(2 * m <= n + 1);
            assert(spec_next_pow2(m) == n);
            assert(n % 2 == 0) by {
                if n % 2 == 1 {
                    assert(2 * m == n + 1);
                    assert(spec_next_pow2(m) <= n);
                }
            }
            assert(false) by {
                assert(2 * m == n);
                assert(spec_next_pow2(m) < 2 * m == n);
            }
        }
    }
}

/// A smaller power of two divides into a larger one at least twice.
pub proof fn lemma_pow2_double(p: int, q: int)
    requires
        spec_is_pow2(p),
        spec_is_pow2(q),
        p < q,
    ensures
        2 * p <= q,
    decreases p,
{
    if p == 1 {
        assert(q % 2 == 0);
        assert(q >= 2);
    } else {
        assert(p % 2 == 0 && spec_is_pow2(p / 2));
        assert(q % 2 == 0 && spec_is_pow2(q / 2));
        lemma_pow2_double(p / 2, q / 2);
    }
}

/// One power of two sits in `[n, 2 * n)`.
pub proof fn lemma_pow2_unique(p: int, q: int, n: int)
    requires
        spec_is_pow2(p),
        spec_is_pow2(q),
        n <= p < 2 * n,
        n <= q < 2 * n,
    ensures
        p == q,
{
    if p < q {
        lemma_pow2_double(p, q);
    } else if q < p {
        lemma_pow2_double(q, p);
    }
}

/// Number of non-empty buckets.
pub open spec fn spec_busy_buckets(b: Seq<u64>) -> int
    decreases b.len(),
{
    if b.len() == 0 {
        0
    } else {
        spec_busy_buckets(b.drop_last()) + if b.last() != 0 {
            1int
        } else {
            0int
        }
    }
}

pub(crate) proof fn lemma_busy_buckets_bound(b: Seq<u64>)
    ensures
        0 <= spec_busy_buckets(b) <= b.len(),
    decreases b.len(),
{
    if b.len() > 0 {
        lemma_busy_buckets_bound(b.drop_last());
    }
}

/// Returns the number of buckets needed to hold the given number of items:
/// at least 8, and the next power of two above the capacity with an extra
/// ninth reserved, so that the target load stays under nine items per
/// eight buckets.
pub fn capacity_to_buckets_size(cap: u64) -> (r: u64)
    requires
        1 <= cap < 0x1000000000000000,
    ensures
        cap < 8 ==> r == 8,
        cap >= 8 ==> spec_is_pow2(r as int) && cap + cap / 8 <= r < 2 * (cap + cap / 8) && r as int
            == spec_next_pow2(cap + cap / 8),
{
    if cap < 8 {
        return 8;
    }
    let target: u64 = cap + cap / 8;
    let mut p: u64 = 1;
    while p < target
        invariant
            1 <= p,
            spec_is_pow2(p as int),
            p == 1 || p < 2 * target,
            target < 0x2000000000000000,
        decreases 2 * target - p,
    {
        proof {
            assert(spec_is_pow2(2 * p as int));
        }
        p = p * 2;
    }
    proof {
        lemma_next_pow2(target as int);
        lemma_pow2_unique(p as int, spec_next_pow2(target as int), target as int);
    }
    p
}

/// The smallest power of two at or above `x`; fails above the largest
/// 64-bit power of two.
pub fn next_power_of_two_u64(x: u64) -> (r: Result<u64, DbError>)
    ensures
        match r {
            Ok(p) => spec_is_pow2(p as int) && p >= x && (x <= 1 ==> p == 1) && (x > 1 ==> p < 2
                * x) && p as int == spec_next_pow2(x as int),
            Err(e) => e == DbError::TooLarge && x > 0x8000000000000000,
        },
{
    if x <= 1 {
        return Ok(1);
    }
    if x > 0x8000000000000000u64 {
        return Err(DbError::TooLarge);
    }
    proof {
        lemma_next_pow2(x as int);
    }
    let mut p: u64 = 1;
    while p < x
        invariant
            1 <= p,
            spec_is_pow2(p as int),
            p == 1 || p < 2 * x,
            1 < x <= 0x8000000000000000,
        decreases 2 * x - p,
    {
        proof {
            assert(spec_is_pow2(2 * p as int));
        }
        p = p * 2;
    }
    proof {
        lemma_pow2_unique(p as int, spec_next_pow2(x as int), x as int);
    }
    Ok(p)
}

/// The hash directory: bucket heads, item count, type signature, and the
/// hit/miss counters of chain walks.
#[derive(Debug)]
pub struct HtxFile {
    pub buckets: Vec<u64>,
    pub item_count: u64,
    pub sig2: [u8; 8],
    pub hits: u64,
    pub miss: u64,
}

impl HtxFile {
    pub open spec fn buckets_size(self) -> int {
        self.buckets@.len() as int
    }

    /// Creates a directory with all buckets empty.
    pub(crate) fn with_buckets(buckets_size: u64, sig2: [u8; 8]) -> (r: Result<Self, DbError>)
        ensures
            match r {
                Ok(h) => {
                    &&& buckets_size >= 1
                    &&& h.buckets@.len() == buckets_size
                    &&& forall|b: int| 0 <= b < h.buckets@.len() ==> h.buckets@[b] == 0
                    &&& h.item_count == 0
                    &&& h.sig2@ == sig2@
                    &&& h.hits == 0
                    &&& h.miss == 0
                },
                Err(e) => e == DbError::TooLarge && buckets_size > usize::MAX as u64 || e
                    == DbError::ZeroCapacity && buckets_size == 0,
            },
            buckets_size >= 1 && buckets_size <= usize::MAX as u64 ==> r.is_ok(),
    {
        if buckets_size == 0 {
            return Err(DbError::ZeroCapacity);
        }
        if buckets_size > usize::MAX as u64 {
            return Err(DbError::TooLarge);
        }
        let n = buckets_size as usize;
        let mut buckets: Vec<u64> = Vec::new();
        let mut b: usize = 0;
        while b < n
            invariant
                b <= n,
                buckets@.len() == b,
                forall|t: int| 0 <= t < b ==> buckets@[t] == 0,
            decreases n - b,
        {
            buckets.push(0);
            b += 1;
        }
        Ok(HtxFile { buckets, item_count: 0, sig2, hits: 0, miss: 0 })
    }

    /// The fixed number of buckets.
    pub fn read_hash_buckets_size(&self) -> (r: Result<u64, DbError>)
        ensures
            r == Ok::<u64, DbError>(self.buckets@.len() as u64),
    {
        Ok(self.buckets.len() as u64)
    }

    pub(crate) fn bucket_index(&self, hash: u64) -> (r: usize)
        requires
            self.buckets@.len() >= 1,
        ensures
            r as int == hash as int % self.buckets_size(),
    {
        (hash % (self.buckets.len() as u64)) as usize
    }

    /// The head offset of the bucket that `hash` selects.
    pub fn read_key_piece_offset(&self, hash: u64) -> (r: Result<u64, DbError>)
        requires
            self.buckets@.len() >= 1,
        ensures
            r == Ok::<u64, DbError>(self.buckets@[hash as int % self.buckets_size()]),
    {
        let idx = self.bucket_index(hash);
        Ok(self.buckets[idx])
    }

    /// Sets the head offset of the bucket that `hash` selects.
    pub fn write_key_piece_offset(&mut self, hash: u64, offset: u64) -> (r: Result<(), DbError>)
        requires
            old(self).buckets@.len() >= 1,
        ensures
            r.is_ok(),
            final(self).buckets@ == old(self).buckets@.update(
                hash as int % old(self).buckets_size(),
                offset,
            ),
            final(self).item_count == old(self).item_count,
            final(self).sig2 == old(self).sig2,
            final(self).hits == old(self).hits,
            final(self).miss == old(self).miss,
    {
        let idx = self.bucket_index(hash);
        self.buckets[idx] = offset;
        Ok(())
    }

    /// The number of live items in the keyspace.
    pub fn read_item_count(&self) -> (r: Result<u64, DbError>)
        ensures
            r == Ok::<u64, DbError>(self.item_count),
    {
        Ok(self.item_count)
    }

    /// Raises the item count by one; the count never exceeds the 64-bit
    /// range.
    pub fn write_item_count_up(&mut self) -> (r: Result<(), DbError>)
        requires
            old(self).item_count < u64::MAX,
        ensures
            r.is_ok(),
            *final(self) == (HtxFile { item_count: (old(self).item_count + 1) as u64, ..*old(self) }),
    {
        self.item_count = self.item_count + 1;
        Ok(())
    }

    /// Lowers the item count by one, flooring at zero.
    pub fn write_item_count_down(&mut self) -> (r: Result<(), DbError>)
        ensures
            r.is_ok(),
            *final(self) == (HtxFile {
                item_count: if old(self).item_count > 0 {
                    (old(self).item_count - 1) as u64
                } else {
                    0
                },
                ..*old(self)
            }),
    {
        if self.item_count > 0 {
            self.item_count = self.item_count - 1;
        }
        Ok(())
    }

    /// Counts a chain walk that found its key.
    pub fn set_hits(&mut self)
        ensures
            *final(self) == (HtxFile {
                hits: vstd::wrapping::u64_specs::wrapping_add(old(self).hits, 1),
                ..*old(self)
            }),
    {
        self.hits = self.hits.wrapping_add(1);
    }

    /// Counts a chain step that passed over another key.
    pub fn set_miss(&mut self)
        ensures
            *final(self) == (HtxFile {
                miss: vstd::wrapping::u64_specs::wrapping_add(old(self).miss, 1),
                ..*old(self)
            }),
    {
        self.miss = self.miss.wrapping_add(1);
    }

    /// Buffer statistics; this directory keeps no chunk cache, so the list
    /// is empty.
    pub fn buf_stats(&self) -> (r: Vec<(String, i64)>)
        ensures
            r@.len() == 0,
    {
        Vec::new()
    }

    /// Bucket count and item count together.
    pub fn ht_size_and_count(&self) -> (r: Result<(u64, u64), DbError>)
        ensures
            r == Ok::<(u64, u64), DbError>((self.buckets@.len() as u64, self.item_count)),
    {
        Ok((self.buckets.len() as u64, self.item_count))
    }

    /// How full the bucket table is: the number of non-empty buckets, and
    /// that number per thousand buckets.
    pub fn htx_filling_rate_per_mill(&self) -> (r: Result<(u64, u32), DbError>)
        requires
            self.buckets@.len() >= 1,
        ensures
            match r {
                Ok((busy, per_mill)) => busy as int == spec_busy_buckets(self.buckets@)
                    && per_mill as int == spec_busy_buckets(self.buckets@) * 1000
                    / self.buckets_size(),
                Err(_) => false,
            },
    {
        let n = self.buckets.len();
        let mut count: u64 = 0;
        let mut idx: usize = 0;
        proof {
            assert(self.buckets@.subrange(0, 0) =~= Seq::<u64>::empty());
        }
        while idx < n
            invariant
                idx <= n,
                n == self.buckets@.len(),
                count as int == spec_busy_buckets(self.buckets@.subrange(0, idx as int)),
                count <= idx,
            decreases n - idx,
        {
            proof {
                assert(self.buckets@.subrange(0, idx + 1).drop_last() =~= self.buckets@.subrange(
                    0,
                    idx as int,
                ));
                assert(self.buckets@.subrange(0, idx + 1).last() == self.buckets@[idx as int]);
            }
            if self.buckets[idx] != 0 {
                count += 1;
            }
            idx += 1;
        }
        proof {
            assert(self.buckets@.subrange(0, n as int) =~= self.buckets@);
            lemma_busy_buckets_bound(self.buckets@);
            assert((count as int * 1000) / (n as int) <= 1000) by (nonlinear_arith)
                requires
                    count as int <= n as int,
                    1 <= n as int,
            ;
        }
        let per_mill: u64 = ((count as u128 * 1000) / (n as u128)) as u64;
        Ok((count, per_mill as u32))
    }
}

} // verus!
