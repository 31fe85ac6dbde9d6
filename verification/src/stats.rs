//! Diagnostic statistics of a keyspace: how many pieces of each size are
//! free, how piece sizes and payload lengths are distributed, and how full
//! the bucket table is. These reports describe the store without affecting
//! it.
use crate::dbxxx::FileDbXxxInner;
use crate::DbError;
use crate::DbMapKeyType;
use crate::DbXxxBase;
use vstd::prelude::*;

verus! {

/// Counts per piece size.
pub type CountOfPerSize = Vec<(u32, u64)>;

/// Total count a count list records for a key.
pub open spec fn spec_stat_count32(s: Seq<(u32, u64)>, key: u32) -> int
    decreases s.len(),
{
    if s.len() == 0 {
        0
    } else {
        spec_stat_count32(s.drop_last(), key) + if s.last().0 == key {
            s.last().1 as int
        } else {
            0int
        }
    }
}

/// Strictly sorted by key, so each key appears at most once.
pub open spec fn spec_stat_sorted32(s: Seq<(u32, u64)>) -> bool {
    forall|i: int, j: int| 0 <= i < j < s.len() ==> (#[trigger] s[i]).0 < (#[trigger] s[j]).0
}

/// Total count a 64-bit-keyed count list records for a key.
pub open spec fn spec_stat_count64(s: Seq<(u64, u64)>, key: u64) -> int
    decreases s.len(),
{
    if s.len() == 0 {
        0
    } else {
        spec_stat_count64(s.drop_last(), key) + if s.last().0 == key {
            s.last().1 as int
        } else {
            0int
        }
    }
}

/// Strictly sorted by key, so each key appears at most once.
pub open spec fn spec_stat_sorted64(s: Seq<(u64, u64)>) -> bool {
    forall|i: int, j: int| 0 <= i < j < s.len() ==> (#[trigger] s[i]).0 < (#[trigger] s[j]).0
}

pub(crate) proof fn lemma_stat32_absent(s: Seq<(u32, u64)>, key: u32)
    requires
        forall|t: int| 0 <= t < s.len() ==> (#[trigger] s[t]).0 != key,
    ensures
        spec_stat_count32(s, key) == 0,
    decreases s.len(),
{
    if s.len() > 0 {
        lemma_stat32_absent(s.drop_last(), key);
    }
}

pub(crate) proof fn lemma_stat32_update(s: Seq<(u32, u64)>, i: int, c2: u64)
    requires
        0 <= i < s.len(),
    ensures
        forall|k: u32| k != s[i].0 ==> #[trigger] spec_stat_count32(s.update(i, (s[i].0, c2)), k)
            == spec_stat_count32(s, k),
        spec_stat_count32(s.update(i, (s[i].0, c2)), s[i].0) == spec_stat_count32(s, s[i].0) - s[
            i
        ].1 + c2,
    decreases s.len(),
{
    let s2 = s.update(i, (s[i].0, c2));
    if i == s.len() - 1 {
        assert(s2.drop_last() =~= s.drop_last());
        assert(s2.last() == (s[i].0, c2));
        assert forall|k: u32| k != s[i].0 implies #[trigger] spec_stat_count32(s2, k)
            == spec_stat_count32(s, k) by {
            assert(spec_stat_count32(s2, k) == spec_stat_count32(s2.drop_last(), k));
            assert(spec_stat_count32(s, k) == spec_stat_count32(s.drop_last(), k));
        }
    } else {
        assert(s2.drop_last() =~= s.drop_last().update(i, (s[i].0, c2)));
        assert(s.drop_last()[i] == s[i]);
        assert(s2.last() == s.last());
        lemma_stat32_update(s.drop_last(), i, c2);
        assert forall|k: u32| k != s[i].0 implies #[trigger] spec_stat_count32(s2, k)
            == spec_stat_count32(s, k) by {
            assert(spec_stat_count32(s2.drop_last(), k) == spec_stat_count32(s.drop_last(), k));
        }
        assert(spec_stat_count32(s2.drop_last(), s[i].0) == spec_stat_count32(
            s.drop_last(),
            s[i].0,
        ) - s[i].1 + c2);
    }
}

pub(crate) proof fn lemma_stat32_insert(s: Seq<(u32, u64)>, i: int, key: u32, cnt: u64)
    requires
        0 <= i <= s.len(),
    ensures
        forall|k: u32| k != key ==> #[trigger] spec_stat_count32(s.insert(i, (key, cnt)), k)
            == spec_stat_count32(s, k),
        spec_stat_count32(s.insert(i, (key, cnt)), key) == spec_stat_count32(s, key) + cnt,
    decreases s.len() - i,
{
    let s2 = s.insert(i, (key, cnt));
    if i == s.len() {
        assert(s2.drop_last() =~= s);
        assert(s2.last() == (key, cnt));
        assert forall|k: u32| k != key implies #[trigger] spec_stat_count32(s2, k)
            == spec_stat_count32(s, k) by {
            assert(spec_stat_count32(s2, k) == spec_stat_count32(s2.drop_last(), k));
        }
    } else {
        assert(s2.drop_last() =~= s.drop_last().insert(i, (key, cnt)));
        assert(s2.last() == s.last());
        lemma_stat32_insert(s.drop_last(), i, key, cnt);
        assert forall|k: u32| k != key implies #[trigger] spec_stat_count32(s2, k)
            == spec_stat_count32(s, k) by {
            assert(spec_stat_count32(s2.drop_last(), k) == spec_stat_count32(
                s.drop_last(),
                k,
            ));
        }
        assert(spec_stat_count32(s2.drop_last(), key) == spec_stat_count32(s.drop_last(), key)
            + cnt);
    }
}

/// With a sorted list, the entry carrying a key records its whole count.
pub(crate) proof fn lemma_stat32_at(s: Seq<(u32, u64)>, i: int)
    requires
        spec_stat_sorted32(s),
        0 <= i < s.len(),
    ensures
        spec_stat_count32(s, s[i].0) == s[i].1,
    decreases s.len(),
{
    if i == s.len() - 1 {
        assert forall|t: int| 0 <= t < s.drop_last().len() implies (#[trigger] s.drop_last()[t]).0
            != s[i].0 by {
            assert(s[t].0 < s[i].0);
        }
        lemma_stat32_absent(s.drop_last(), s[i].0);
    } else {
        assert(s.drop_last()[i] == s[i]);
        lemma_stat32_at(s.drop_last(), i);
        assert(s.last().0 != s[i].0);
    }
}

pub(crate) proof fn lemma_stat64_absent(s: Seq<(u64, u64)>, key: u64)
    requires
        forall|t: int| 0 <= t < s.len() ==> (#[trigger] s[t]).0 != key,
    ensures
        spec_stat_count64(s, key) == 0,
    decreases s.len(),
{
    if s.len() > 0 {
        lemma_stat64_absent(s.drop_last(), key);
    }
}

pub(crate) proof fn lemma_stat64_update(s: Seq<(u64, u64)>, i: int, c2: u64)
    requires
        0 <= i < s.len(),
    ensures
        forall|k: u64| k != s[i].0 ==> #[trigger] spec_stat_count64(s.update(i, (s[i].0, c2)), k)
            == spec_stat_count64(s, k),
        spec_stat_count64(s.update(i, (s[i].0, c2)), s[i].0) == spec_stat_count64(s, s[i].0) - s[
            i
        ].1 + c2,
    decreases s.len(),
{
    let s2 = s.update(i, (s[i].0, c2));
    if i == s.len() - 1 {
        assert(s2.drop_last() =~= s.drop_last());
        assert(s2.last() == (s[i].0, c2));
        assert forall|k: u64| k != s[i].0 implies #[trigger] spec_stat_count64(s2, k)
            == spec_stat_count64(s, k) by {
            assert(spec_stat_count64(s2, k) == spec_stat_count64(s2.drop_last(), k));
            assert(spec_stat_count64(s, k) == spec_stat_count64(s.drop_last(), k));
        }
    } else {
        assert(s2.drop_last() =~= s.drop_last().update(i, (s[i].0, c2)));
        assert(s.drop_last()[i] == s[i]);
        assert(s2.last() == s.last());
        lemma_stat64_update(s.drop_last(), i, c2);
        assert forall|k: u64| k != s[i].0 implies #[trigger] spec_stat_count64(s2, k)
            == spec_stat_count64(s, k) by {
            assert(spec_stat_count64(s2.drop_last(), k) == spec_stat_count64(s.drop_last(), k));
        }
        assert(spec_stat_count64(s2.drop_last(), s[i].0) == spec_stat_count64(
            s.drop_last(),
            s[i].0,
        ) - s[i].1 + c2);
    }
}

pub(crate) proof fn lemma_stat64_insert(s: Seq<(u64, u64)>, i: int, key: u64, cnt: u64)
    requires
        0 <= i <= s.len(),
    ensures
        forall|k: u64| k != key ==> #[trigger] spec_stat_count64(s.insert(i, (key, cnt)), k)
            == spec_stat_count64(s, k),
        spec_stat_count64(s.insert(i, (key, cnt)), key) == spec_stat_count64(s, key) + cnt,
    decreases s.len() - i,
{
    let s2 = s.insert(i, (key, cnt));
    if i == s.len() {
        assert(s2.drop_last() =~= s);
        assert(s2.last() == (key, cnt));
        assert forall|k: u64| k != key implies #[trigger] spec_stat_count64(s2, k)
            == spec_stat_count64(s, k) by {
            assert(spec_stat_count64(s2, k) == spec_stat_count64(s2.drop_last(), k));
        }
    } else {
        assert(s2.drop_last() =~= s.drop_last().insert(i, (key, cnt)));
        assert(s2.last() == s.last());
        lemma_stat64_insert(s.drop_last(), i, key, cnt);
        assert forall|k: u64| k != key implies #[trigger] spec_stat_count64(s2, k)
            == spec_stat_count64(s, k) by {
            assert(spec_stat_count64(s2.drop_last(), k) == spec_stat_count64(
                s.drop_last(),
                k,
            ));
        }
        assert(spec_stat_count64(s2.drop_last(), key) == spec_stat_count64(s.drop_last(), key)
            + cnt);
    }
}

pub(crate) proof fn lemma_stat64_at(s: Seq<(u64, u64)>, i: int)
    requires
        spec_stat_sorted64(s),
        0 <= i < s.len(),
    ensures
        spec_stat_count64(s, s[i].0) == s[i].1,
    decreases s.len(),
{
    if i == s.len() - 1 {
        assert forall|t: int| 0 <= t < s.drop_last().len() implies (#[trigger] s.drop_last()[t]).0
            != s[i].0 by {
            assert(s[t].0 < s[i].0);
        }
        lemma_stat64_absent(s.drop_last(), s[i].0);
    } else {
        assert(s.drop_last()[i] == s[i]);
        lemma_stat64_at(s.drop_last(), i);
        assert(s.last().0 != s[i].0);
    }
}

/// Raises the count of `key` in a sorted count list by one, inserting an
/// entry when the key is missing; every other key's count is unchanged,
/// the list stays sorted, and a count at the 64-bit limit stays there.
pub(crate) fn touch_count32(v: &mut Vec<(u32, u64)>, key: u32)
    requires
        spec_stat_sorted32(old(v)@),
    ensures
        spec_stat_sorted32(final(v)@),
        forall|k: u32|
            k != key ==> #[trigger] spec_stat_count32(final(v)@, k) == spec_stat_count32(
                old(v)@,
                k,
            ),
        spec_stat_count32(old(v)@, key) < u64::MAX ==> spec_stat_count32(final(v)@, key)
            == spec_stat_count32(old(v)@, key) + 1,
        spec_stat_count32(old(v)@, key) >= u64::MAX ==> spec_stat_count32(final(v)@, key)
            == spec_stat_count32(old(v)@, key),
{
    let n = v.len();
    let mut i: usize = 0;
    while i < n
        invariant
            i <= n,
            n == v@.len(),
            *v == *old(v),
            spec_stat_sorted32(v@),
            forall|t: int| 0 <= t < i ==> (#[trigger] v@[t]).0 < key,
        decreases n - i,
    {
        if v[i].0 == key {
            proof {
                lemma_stat32_at(v@, i as int);
                lemma_stat32_update(v@, i as int, if v@[i as int].1 < u64::MAX {
                    (v@[i as int].1 + 1) as u64
                } else {
                    v@[i as int].1
                });
            }
            let c = v[i].1;
            let c2 = if c < u64::MAX {
                c + 1
            } else {
                c
            };
            v[i] = (key, c2);
            proof {
                assert(v@ =~= old(v)@.update(i as int, (key, c2)));
            }
            return ;
        }
        if v[i].0 > key {
            proof {
                assert forall|t: int| 0 <= t < v@.len() implies (#[trigger] v@[t]).0 != key by {
                    if t > i as int {
                        assert(v@[i as int].0 < v@[t].0);
                    }
                }
                lemma_stat32_absent(v@, key);
                lemma_stat32_insert(v@, i as int, key, 1);
            }
            v.insert(i, (key, 1u64));
            proof {
                assert(v@ =~= old(v)@.insert(i as int, (key, 1u64)));
                assert forall|i1: int, j1: int| 0 <= i1 < j1 < v@.len() implies (
                #[trigger] v@[i1]).0 < (#[trigger] v@[j1]).0 by {
                    let m1 = if i1 < i as int { i1 } else { i1 - 1 };
                    let m2 = if j1 < i as int { j1 } else { j1 - 1 };
                    if i1 != i as int && j1 != i as int {
                        assert(v@[i1] == old(v)@[m1] && v@[j1] == old(v)@[m2]);
                    } else if i1 == i as int {
                        assert(v@[j1] == old(v)@[m2]);
                        assert(old(v)@[i as int].0 <= old(v)@[m2].0);
                    } else {
                        assert(v@[i1] == old(v)@[m1]);
                    }
                }
            }
            return ;
        }
        i += 1;
    }
    proof {
        assert forall|t: int| 0 <= t < v@.len() implies (#[trigger] v@[t]).0 != key by {}
        lemma_stat32_absent(v@, key);
        lemma_stat32_insert(v@, v@.len() as int, key, 1);
        assert(v@.insert(v@.len() as int, (key, 1u64)) =~= v@.push((key, 1u64)));
    }
    v.push((key, 1));
}

/// Raises the count of `key` in a sorted 64-bit-keyed count list by one,
/// inserting an entry when the key is missing; every other key's count is
/// unchanged, the list stays sorted, and a saturated count stays put.
pub(crate) fn touch_count64(v: &mut Vec<(u64, u64)>, key: u64)
    requires
        spec_stat_sorted64(old(v)@),
    ensures
        spec_stat_sorted64(final(v)@),
        forall|k: u64|
            k != key ==> #[trigger] spec_stat_count64(final(v)@, k) == spec_stat_count64(
                old(v)@,
                k,
            ),
        spec_stat_count64(old(v)@, key) < u64::MAX ==> spec_stat_count64(final(v)@, key)
            == spec_stat_count64(old(v)@, key) + 1,
        spec_stat_count64(old(v)@, key) >= u64::MAX ==> spec_stat_count64(final(v)@, key)
            == spec_stat_count64(old(v)@, key),
{
    let n = v.len();
    let mut i: usize = 0;
    while i < n
        invariant
            i <= n,
            n == v@.len(),
            *v == *old(v),
            spec_stat_sorted64(v@),
            forall|t: int| 0 <= t < i ==> (#[trigger] v@[t]).0 < key,
        decreases n - i,
    {
        if v[i].0 == key {
            proof {
                lemma_stat64_at(v@, i as int);
                lemma_stat64_update(v@, i as int, if v@[i as int].1 < u64::MAX {
                    (v@[i as int].1 + 1) as u64
                } else {
                    v@[i as int].1
                });
            }
            let c = v[i].1;
            let c2 = if c < u64::MAX {
                c + 1
            } else {
                c
            };
            v[i] = (key, c2);
            proof {
                assert(v@ =~= old(v)@.update(i as int, (key, c2)));
            }
            return ;
        }
        if v[i].0 > key {
            proof {
                assert forall|t: int| 0 <= t < v@.len() implies (#[trigger] v@[t]).0 != key by {
                    if t > i as int {
                        assert(v@[i as int].0 < v@[t].0);
                    }
                }
                lemma_stat64_absent(v@, key);
                lemma_stat64_insert(v@, i as int, key, 1);
            }
            v.insert(i, (key, 1u64));
            proof {
                assert(v@ =~= old(v)@.insert(i as int, (key, 1u64)));
                assert forall|i1: int, j1: int| 0 <= i1 < j1 < v@.len() implies (
                #[trigger] v@[i1]).0 < (#[trigger] v@[j1]).0 by {
                    let m1 = if i1 < i as int { i1 } else { i1 - 1 };
                    let m2 = if j1 < i as int { j1 } else { j1 - 1 };
                    if i1 != i as int && j1 != i as int {
                        assert(v@[i1] == old(v)@[m1] && v@[j1] == old(v)@[m2]);
                    } else if i1 == i as int {
                        assert(v@[j1] == old(v)@[m2]);
                        assert(old(v)@[i as int].0 <= old(v)@[m2].0);
                    } else {
                        assert(v@[i1] == old(v)@[m1]);
                    }
                }
            }
            return ;
        }
        i += 1;
    }
    proof {
        assert forall|t: int| 0 <= t < v@.len() implies (#[trigger] v@[t]).0 != key by {}
        lemma_stat64_absent(v@, key);
        lemma_stat64_insert(v@, v@.len() as int, key, 1);
        assert(v@.insert(v@.len() as int, (key, 1u64)) =~= v@.push((key, 1u64)));
    }
    v.push((key, 1));
}

/// Piece size statistics: how many pieces were seen of each size.
pub struct RecordSizeStats(Vec<(u32, u64)>);

impl RecordSizeStats {
    /// The counted entries.
    pub closed spec fn entries(self) -> Seq<(u32, u64)> {
        self.0@
    }

    /// Statistics over the given initial entries.
    pub fn new(vec: Vec<(u32, u64)>) -> (r: Self)
        ensures
            r.entries() == vec@,
    {
        RecordSizeStats(vec)
    }

    /// Counts one more occurrence of `piece_size`: the list stays sorted,
    /// its count rises by one (saturating at the 64-bit limit), and every
    /// other count is unchanged.
    pub fn touch_size(&mut self, piece_size: u32)
        requires
            spec_stat_sorted32(old(self).entries()),
        ensures
            spec_stat_sorted32(final(self).entries()),
            forall|k: u32|
                k != piece_size ==> #[trigger] spec_stat_count32(final(self).entries(), k)
                    == spec_stat_count32(old(self).entries(), k),
            spec_stat_count32(old(self).entries(), piece_size) < u64::MAX ==> spec_stat_count32(
                final(self).entries(),
                piece_size,
            ) == spec_stat_count32(old(self).entries(), piece_size) + 1,
            spec_stat_count32(old(self).entries(), piece_size) >= u64::MAX ==> spec_stat_count32(
                final(self).entries(),
                piece_size,
            ) == spec_stat_count32(old(self).entries(), piece_size),
    {
        touch_count32(&mut self.0, piece_size);
    }

    /// The counted entries, size then count.
    pub fn counts(&self) -> (r: &Vec<(u32, u64)>)
        ensures
            r@ == self.entries(),
    {
        &self.0
    }
}

/// Keys-per-bucket statistics: how many buckets were seen with each key
/// count.
pub struct KeysCountStats(Vec<(u64, u64)>);

impl KeysCountStats {
    /// The counted entries.
    pub closed spec fn entries(self) -> Seq<(u64, u64)> {
        self.0@
    }

    /// Statistics over the given initial entries.
    pub fn new(vec: Vec<(u64, u64)>) -> (r: Self)
        ensures
            r.entries() == vec@,
    {
        KeysCountStats(vec)
    }

    /// Counts one more occurrence of `keys_count`: the list stays sorted,
    /// its count rises by one (saturating at the 64-bit limit), and every
    /// other count is unchanged.
    pub fn touch_size(&mut self, keys_count: u64)
        requires
            spec_stat_sorted64(old(self).entries()),
        ensures
            spec_stat_sorted64(final(self).entries()),
            forall|k: u64|
                k != keys_count ==> #[trigger] spec_stat_count64(final(self).entries(), k)
                    == spec_stat_count64(old(self).entries(), k),
            spec_stat_count64(old(self).entries(), keys_count) < u64::MAX ==> spec_stat_count64(
                final(self).entries(),
                keys_count,
            ) == spec_stat_count64(old(self).entries(), keys_count) + 1,
            spec_stat_count64(old(self).entries(), keys_count) >= u64::MAX ==> spec_stat_count64(
                final(self).entries(),
                keys_count,
            ) == spec_stat_count64(old(self).entries(), keys_count),
    {
        touch_count64(&mut self.0, keys_count);
    }

    /// The counted entries, key count then bucket count.
    pub fn counts(&self) -> (r: &Vec<(u64, u64)>)
        ensures
            r@ == self.entries(),
    {
        &self.0
    }
}

/// Payload length statistics: how many live pieces were seen with each
/// payload length.
pub struct LengthStats(Vec<(u32, u64)>);

impl LengthStats {
    /// The counted entries.
    pub closed spec fn entries(self) -> Seq<(u32, u64)> {
        self.0@
    }

    /// Statistics over the given initial entries.
    pub fn new(vec: Vec<(u32, u64)>) -> (r: Self)
        ensures
            r.entries() == vec@,
    {
        LengthStats(vec)
    }

    /// Counts one more occurrence of `length`: the list stays sorted,
    /// its count rises by one (saturating at the 64-bit limit), and every
    /// other count is unchanged.
    pub fn touch_length(&mut self, length: u32)
        requires
            spec_stat_sorted32(old(self).entries()),
        ensures
            spec_stat_sorted32(final(self).entries()),
            forall|k: u32|
                k != length ==> #[trigger] spec_stat_count32(final(self).entries(), k)
                    == spec_stat_count32(old(self).entries(), k),
            spec_stat_count32(old(self).entries(), length) < u64::MAX ==> spec_stat_count32(
                final(self).entries(),
                length,
            ) == spec_stat_count32(old(self).entries(), length) + 1,
            spec_stat_count32(old(self).entries(), length) >= u64::MAX ==> spec_stat_count32(
                final(self).entries(),
                length,
            ) == spec_stat_count32(old(self).entries(), length),
    {
        touch_count32(&mut self.0, length);
    }

    /// The counted entries, length then count.
    pub fn counts(&self) -> (r: &Vec<(u32, u64)>)
        ensures
            r@ == self.entries(),
    {
        &self.0
    }
}

/// The diagnostic view of a keyspace.
pub trait CheckFileDbMap: DbXxxBase {
    /// The fixed number of hash buckets this keyspace was created with.
    spec fn db_buckets(&self) -> int;

    /// Bucket table size and item count: the bucket count fixed at
    /// creation, and the number of keys held.
    fn ht_size_and_count(&self) -> (r: Result<(u64, u64), DbError>)
        requires
            self.db_wf(),
        ensures
            match r {
                Ok((sz, count)) => self.db_view().dom().finite() && count as int
                    == self.db_view().dom().len() && sz as int == self.db_buckets() && sz >= 1,
                Err(_) => false,
            },
    ;

    /// How many key pieces of each size sit on the free list.
    fn count_of_free_key_piece(&self) -> (r: Result<CountOfPerSize, DbError>)
        requires
            self.db_wf(),
        ensures
            r.is_ok(),
    ;

    /// How many value pieces of each size sit on the free list.
    fn count_of_free_value_piece(&self) -> (r: Result<CountOfPerSize, DbError>)
        requires
            self.db_wf(),
        ensures
            r.is_ok(),
    ;

    /// Buffer statistics; the engine keeps no chunk cache, so the list
    /// is empty.
    fn buf_stats(&self) -> (r: Vec<(String, i64)>)
        ensures
            r@.len() == 0,
    ;

    /// Size distribution of the live key pieces.
    fn key_piece_size_stats(&self) -> (r: Result<RecordSizeStats, DbError>)
        requires
            self.db_wf(),
        ensures
            r.is_ok(),
    ;

    /// Size distribution of the live value pieces.
    fn value_piece_size_stats(&self) -> (r: Result<RecordSizeStats, DbError>)
        requires
            self.db_wf(),
        ensures
            r.is_ok(),
    ;

    /// Distribution of keys per non-empty bucket.
    fn keys_count_stats(&self) -> (r: Result<KeysCountStats, DbError>)
        requires
            self.db_wf(),
        ensures
            r.is_ok(),
    ;

    /// Length distribution of the stored keys.
    fn key_length_stats(&self) -> (r: Result<LengthStats, DbError>)
        requires
            self.db_wf(),
        ensures
            r.is_ok(),
    ;

    /// Length distribution of the stored values.
    fn value_length_stats(&self) -> (r: Result<LengthStats, DbError>)
        requires
            self.db_wf(),
        ensures
            r.is_ok(),
    ;

    /// How full the bucket table is: non-empty buckets, and the same per
    /// thousand buckets.
    fn htx_filling_rate_per_mill(&self) -> (r: Result<(u64, u32), DbError>)
        requires
            self.db_wf(),
        ensures
            r.is_ok(),
    ;
}

} // verus!
