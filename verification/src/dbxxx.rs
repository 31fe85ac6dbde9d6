//! The keyspace engine: ties the hash directory, the key storage file and
//! the value storage file together into one key-value map over raw byte
//! keys. A client operation hashes the key, consults the directory for the
//! bucket head, walks that bucket's chain of key pieces comparing stored
//! bytes, and reads or writes through to the value piece on a match.
//!
//! The abstract state is a map from key bytes to value bytes (`view`). The
//! bridge between that map and the pieces on file is a ghost sequence of
//! bucket chains: for each bucket, the list of (key piece index, value
//! piece index) pairs reachable from its head through `bucket_next_offset`.
use crate::hash::bytes_hash_value;
use crate::hash::spec_hash_bytes;
use crate::htx::HtxFile;
use crate::piece::lemma_round_size;
use crate::piece::spec_key_need;
use crate::piece::spec_round_size;
use crate::piece::spec_val_need;
use crate::piece::KeyFile;
use crate::piece::KeyPiece;
use crate::piece::ValueFile;
use crate::piece::ValuePiece;
use crate::util::bytes_eq;
use crate::DbError;
use crate::DbMapKeyType;
use crate::DbXxx;
use crate::DbXxxBase;
use crate::DbXxxObjectSafe;
use crate::HashValue;
use crate::spec_bulk_del;
use crate::spec_bulk_put;
use vstd::prelude::*;

verus! {

/// Total number of chain entries over all buckets.
pub(crate) open spec fn spec_total(cs: Seq<Seq<(int, int)>>) -> int
    decreases cs.len(),
{
    if cs.len() == 0 {
        0
    } else {
        spec_total(cs.drop_last()) + cs.last().len()
    }
}

pub(crate) proof fn lemma_total_update(cs: Seq<Seq<(int, int)>>, b: int, s: Seq<(int, int)>)
    requires
        0 <= b < cs.len(),
    ensures
        spec_total(cs.update(b, s)) == spec_total(cs) - cs[b].len() + s.len(),
    decreases cs.len(),
{
    let cs2 = cs.update(b, s);
    if b == cs.len() - 1 {
        assert(cs2.drop_last() =~= cs.drop_last());
    } else {
        assert(cs2.drop_last() =~= cs.drop_last().update(b, s));
        lemma_total_update(cs.drop_last(), b, s);
    }
}

pub(crate) proof fn lemma_total_ge_bucket(cs: Seq<Seq<(int, int)>>, b: int)
    requires
        0 <= b < cs.len(),
    ensures
        spec_total(cs) >= cs[b].len(),
        spec_total(cs) >= 0,
    decreases cs.len(),
{
    if cs.len() > 0 {
        if b == cs.len() - 1 {
            lemma_total_ge_bucket_nonneg(cs.drop_last());
        } else {
            lemma_total_ge_bucket(cs.drop_last(), b);
        }
    }
}

pub(crate) proof fn lemma_total_ge_bucket_nonneg(cs: Seq<Seq<(int, int)>>)
    ensures
        spec_total(cs) >= 0,
    decreases cs.len(),
{
    if cs.len() > 0 {
        lemma_total_ge_bucket_nonneg(cs.drop_last());
    }
}

pub(crate) proof fn lemma_total_all_empty(cs: Seq<Seq<(int, int)>>)
    requires
        forall|b: int| 0 <= b < cs.len() ==> (#[trigger] cs[b]).len() == 0,
    ensures
        spec_total(cs) == 0,
    decreases cs.len(),
{
    if cs.len() > 0 {
        lemma_total_all_empty(cs.drop_last());
    }
}

/// Whether some index of `pos` holds exactly the pair `(b2, j2)`.
pub(crate) open spec fn pos_covers(pos: Seq<(int, int)>, b2: int, j2: int) -> bool {
    exists|t: int| 0 <= t < pos.len() && #[trigger] pos[t] == (b2, j2)
}

/// Computes the rounded piece size for a key, or nothing when it would
/// not fit the 32-bit size field.
fn key_piece_size_checked(key: &[u8]) -> (r: Option<u32>)
    ensures
        match r {
            Some(s) => s as int == spec_round_size(spec_key_need(key@)),
            None => spec_round_size(spec_key_need(key@)) > u32::MAX,
        },
{
    proof {
        lemma_round_size(spec_key_need(key@));
    }
    let klen = key.len();
    if klen as u64 > u32::MAX as u64 {
        return None;
    }
    let enc = crate::varint::vu64_encoded_len(klen as u64);
    let need: u64 = 21 + enc as u64 + klen as u64;
    let size: u64 = if need <= 16 {
        16
    } else {
        ((need + 7) / 8) * 8
    };
    if size > u32::MAX as u64 {
        return None;
    }
    Some(size as u32)
}

/// Computes the rounded piece size for a value, or nothing when it would
/// not fit the 32-bit size field.
fn val_piece_size_checked(value: &[u8]) -> (r: Option<u32>)
    ensures
        match r {
            Some(s) => s as int == spec_round_size(spec_val_need(value@)),
            None => spec_round_size(spec_val_need(value@)) > u32::MAX,
        },
{
    proof {
        lemma_round_size(spec_val_need(value@));
    }
    let vlen = value.len();
    if vlen as u64 > u32::MAX as u64 {
        return None;
    }
    let enc = crate::varint::vu64_encoded_len(vlen as u64);
    let need: u64 = 5 + enc as u64 + vlen as u64;
    let size: u64 = if need <= 16 {
        16
    } else {
        ((need + 7) / 8) * 8
    };
    if size > u32::MAX as u64 {
        return None;
    }
    Some(size as u32)
}

/// Whether a value still fits a piece of the given size.
fn val_fits(value: &[u8], size: u32) -> (r: bool)
    ensures
        r == (spec_val_need(value@) <= size as int),
{
    let vlen = value.len();
    if vlen as u64 > u32::MAX as u64 {
        return false;
    }
    let enc = crate::varint::vu64_encoded_len(vlen as u64);
    let need: u64 = 5 + enc as u64 + vlen as u64;
    need <= size as u64
}

/// The core of one keyspace: directory, key file, value file, the coarse
/// dirty flag, and the ghost bucket chains.
pub struct KeyspaceCore {
    pub(crate) htx: HtxFile,
    pub(crate) key_file: KeyFile,
    pub(crate) val_file: ValueFile,
    pub(crate) chains: Ghost<Seq<Seq<(int, int)>>>,
}

impl KeyspaceCore {
    /// Number of buckets.
    pub(crate) open spec fn n(self) -> int {
        self.htx.buckets@.len() as int
    }

    pub(crate) open spec fn chain(self, b: int) -> Seq<(int, int)> {
        self.chains@[b]
    }

    pub(crate) open spec fn valid_pos(self, b: int, j: int) -> bool {
        &&& 0 <= b < self.n()
        &&& 0 <= j < self.chain(b).len()
    }

    pub(crate) open spec fn kp(self, b: int, j: int) -> KeyPiece {
        self.key_file.pieces@[self.chain(b)[j].0]
    }

    pub(crate) open spec fn vp(self, b: int, j: int) -> ValuePiece {
        self.val_file.pieces@[self.chain(b)[j].1]
    }

    pub(crate) open spec fn key_at(self, b: int, j: int) -> Seq<u8> {
        self.kp(b, j).key@
    }

    pub(crate) open spec fn val_at(self, b: int, j: int) -> Seq<u8> {
        self.vp(b, j).value@
    }

    pub(crate) open spec fn off_at(self, b: int, j: int) -> u64 {
        self.kp(b, j).offset
    }

    pub(crate) open spec fn vi_at(self, b: int, j: int) -> int {
        self.chain(b)[j].1
    }

    /// One chain entry is well formed: both pieces exist and are live, the
    /// key piece points at the value piece, the key hashes into this
    /// bucket, and the chain link matches `bucket_next_offset`.
    pub(crate) open spec fn entry_ok(self, b: int, j: int) -> bool {
        let ki = self.chain(b)[j].0;
        let vi = self.chain(b)[j].1;
        &&& 0 <= ki < self.key_file.pieces@.len()
        &&& 0 <= vi < self.val_file.pieces@.len()
        &&& self.key_file.pieces@[ki].live
        &&& self.val_file.pieces@[vi].live
        &&& self.key_file.pieces@[ki].value_offset == self.val_file.pieces@[vi].offset
        &&& spec_hash_bytes(self.key_file.pieces@[ki].key@) as int % self.n() == b
        &&& self.key_file.pieces@[ki].bucket_next_offset == (if j + 1 < self.chain(b).len() {
            self.off_at(b, j + 1)
        } else {
            0
        })
    }

    /// Whether some chain entry references key piece `i`.
    pub(crate) open spec fn key_piece_chained(self, i: int) -> bool {
        exists|b: int, j: int|
            #![trigger self.chain(b)[j]]
            self.valid_pos(b, j) && self.chain(b)[j].0 == i
    }

    pub(crate) open spec fn head_off(self, b: int) -> u64 {
        if self.chain(b).len() > 0 {
            self.off_at(b, 0)
        } else {
            0
        }
    }

    /// The representation invariant.
    pub(crate) open spec fn wf(self) -> bool {
        &&& self.key_file.wf()
        &&& self.val_file.wf()
        &&& self.n() >= 1
        &&& self.chains@.len() == self.n()
        &&& forall|b: int, j: int| self.valid_pos(b, j) ==> #[trigger] self.entry_ok(b, j)
        &&& forall|b: int| 0 <= b < self.n() ==> #[trigger] self.htx.buckets@[b] == self.head_off(b)
        &&& forall|b1: int, j1: int, b2: int, j2: int|
            self.valid_pos(b1, j1) && self.valid_pos(b2, j2) && (b1 != b2 || j1 != j2)
                ==> #[trigger] self.key_at(b1, j1) != #[trigger] self.key_at(b2, j2)
        &&& forall|b1: int, j1: int, b2: int, j2: int|
            self.valid_pos(b1, j1) && self.valid_pos(b2, j2) && (b1 != b2 || j1 != j2)
                ==> #[trigger] self.vi_at(b1, j1) != #[trigger] self.vi_at(b2, j2)
        &&& forall|i: int|
            0 <= i < self.key_file.pieces@.len() && (#[trigger] self.key_file.pieces@[i]).live
                ==> self.key_piece_chained(i)
        &&& self.htx.item_count as int == spec_total(self.chains@)
    }

    /// Whether some chain holds this key.
    pub(crate) open spec fn has_key(self, k: Seq<u8>) -> bool {
        exists|b: int, j: int| self.valid_pos(b, j) && #[trigger] self.key_at(b, j) == k
    }

    /// The value stored for a key that some chain holds.
    pub(crate) open spec fn value_of(self, k: Seq<u8>) -> Seq<u8> {
        let (b, j) = choose|b: int, j: int|
            self.valid_pos(b, j) && #[trigger] self.key_at(b, j) == k;
        self.val_at(b, j)
    }

    /// The abstract contents: a map from key bytes to value bytes.
    pub(crate) open spec fn view_map(self) -> Map<Seq<u8>, Seq<u8>> {
        Map::new(|k: Seq<u8>| self.has_key(k), |k: Seq<u8>| self.value_of(k))
    }

    /// A key sits at one chain position only, so that position determines
    /// the key's stored value.
    pub(crate) proof fn lemma_key_unique(self, b: int, j: int)
        requires
            self.wf(),
            self.valid_pos(b, j),
        ensures
            self.has_key(self.key_at(b, j)),
            self.value_of(self.key_at(b, j)) == self.val_at(b, j),
            forall|b2: int, j2: int|
                self.valid_pos(b2, j2) && #[trigger] self.key_at(b2, j2) == self.key_at(b, j)
                    ==> b2 == b && j2 == j,
    {
        let k = self.key_at(b, j);
        assert(self.has_key(k));
        let (b2, j2) = choose|b2: int, j2: int|
            self.valid_pos(b2, j2) && #[trigger] self.key_at(b2, j2) == k;
        assert(b2 == b && j2 == j);
    }

    /// A key that hashes to bucket `b` can only sit in bucket `b`.
    pub(crate) proof fn lemma_absent_when_not_in_bucket(self, k: Seq<u8>, b: int)
        requires
            self.wf(),
            0 <= b < self.n(),
            b == spec_hash_bytes(k) as int % self.n(),
            forall|t: int| 0 <= t < self.chain(b).len() ==> #[trigger] self.key_at(b, t) != k,
        ensures
            !self.has_key(k),
    {
        if self.has_key(k) {
            let (b2, j2) = choose|b2: int, j2: int|
                self.valid_pos(b2, j2) && #[trigger] self.key_at(b2, j2) == k;
            assert(self.entry_ok(b2, j2));
        }
    }

    /// Walks the chain of the given bucket looking for `key`. Returns the
    /// offsets of the matching key piece and of its predecessor in the
    /// chain (0 when the match is the chain head), or 0 offsets when the
    /// bucket holds no such key.
    pub(crate) fn find_in_bucket(&self, bucket: usize, key: &[u8]) -> (r: (u64, u64, Ghost<int>))
        requires
            self.wf(),
            (bucket as int) < self.n(),
        ensures
            ({
                let (cur, prev, gj) = r;
                let b = bucket as int;
                let j = gj@;
                if cur != 0 {
                    &&& self.valid_pos(b, j)
                    &&& self.key_at(b, j) == key@
                    &&& cur == self.off_at(b, j)
                    &&& prev == (if j == 0 {
                        0
                    } else {
                        self.off_at(b, j - 1)
                    })
                } else {
                    forall|t: int|
                        0 <= t < self.chain(b).len() ==> #[trigger] self.key_at(b, t) != key@
                }
            }),
    {
        let ghost b = bucket as int;
        let mut prev: u64 = 0;
        let mut cur: u64 = self.htx.buckets[bucket];
        let ghost mut j: int = 0;
        proof {
            assert(self.htx.buckets@[b] == self.head_off(b));
            if self.chain(b).len() > 0 {
                assert(self.entry_ok(b, 0));
                assert(crate::piece::key_piece_wf(self.kp(b, 0)));
            }
        }
        loop
            invariant
                self.wf(),
                b == bucket as int,
                0 <= b < self.n(),
                0 <= j <= self.chain(b).len(),
                cur == (if j < self.chain(b).len() {
                    self.off_at(b, j)
                } else {
                    0
                }),
                prev == (if j == 0 {
                    0
                } else if j <= self.chain(b).len() {
                    self.off_at(b, j - 1)
                } else {
                    0
                }),
                forall|t: int| 0 <= t < j ==> #[trigger] self.key_at(b, t) != key@,
                j < self.chain(b).len() ==> cur != 0,
            decreases self.chain(b).len() - j,
        {
            if cur == 0 {
                return (0, 0, Ghost(j));
            }
            proof {
                assert(self.entry_ok(b, j));
            }
            let i = match self.key_file.find_piece(cur) {
                Some(i) => i,
                None => {
                    proof {
                        assert(false);
                    }
                    return (0, 0, Ghost(j));
                },
            };
            proof {
                self.key_file.lemma_offset_unique(i as int, self.chain(b)[j].0);
            }
            if bytes_eq(self.key_file.pieces[i].key.as_slice(), key) {
                return (cur, prev, Ghost(j));
            }
            prev = cur;
            cur = self.key_file.pieces[i].bucket_next_offset;
            proof {
                j = j + 1;
                if j < self.chain(b).len() {
                    assert(self.entry_ok(b, j));
                    assert(crate::piece::key_piece_wf(self.kp(b, j)));
                }
            }
        }
    }

    /// Reads the value bytes of the key piece at `cur` (a chain position
    /// found by `find_in_bucket`).
    pub(crate) fn load_value_at(&self, cur: u64, gb: Ghost<int>, gj: Ghost<int>) -> (r: Vec<u8>)
        requires
            self.wf(),
            self.valid_pos(gb@, gj@),
            cur == self.off_at(gb@, gj@),
        ensures
            r@ == self.val_at(gb@, gj@),
    {
        let ghost b = gb@;
        let ghost j = gj@;
        proof {
            assert(self.entry_ok(b, j));
        }
        let i = match self.key_file.find_piece(cur) {
            Some(i) => i,
            None => {
                proof {
                    assert(false);
                }
                return Vec::new();
            },
        };
        proof {
            self.key_file.lemma_offset_unique(i as int, self.chain(b)[j].0);
        }
        let vo = self.key_file.pieces[i].value_offset;
        let vi = match self.val_file.find_piece(vo) {
            Some(vi) => vi,
            None => {
                proof {
                    assert(false);
                }
                return Vec::new();
            },
        };
        proof {
            self.val_file.lemma_offset_unique(vi as int, self.chain(b)[j].1);
        }
        vstd::slice::slice_to_vec(self.val_file.pieces[vi].value.as_slice())
    }

    /// Looks a key up and returns a copy of its value bytes.
    pub(crate) fn get(&self, key: &[u8]) -> (r: Option<Vec<u8>>)
        requires
            self.wf(),
        ensures
            match r {
                Some(v) => self.has_key(key@) && v@ == self.view_map()[key@],
                None => !self.has_key(key@),
            },
    {
        let hash = bytes_hash_value(key);
        let bucket = self.htx.bucket_index(hash);
        let (cur, _prev, gj) = self.find_in_bucket(bucket, key);
        let ghost b = bucket as int;
        if cur != 0 {
            let v = self.load_value_at(cur, Ghost(b), gj);
            proof {
                self.lemma_key_unique(b, gj@);
            }
            Some(v)
        } else {
            proof {
                self.lemma_absent_when_not_in_bucket(key@, b);
            }
            None
        }
    }

    /// Whether an overwrite of the value stored at chain position `(b, j)`
    /// can reuse the value piece in place.
    pub(crate) open spec fn fits_in_place(self, v: Seq<u8>, b: int, j: int) -> bool {
        spec_val_need(v) <= self.vp(b, j).size as int
    }

    /// Whether a put must fail for want of space: a piece beyond the
    /// 32-bit size field, a file beyond the 64-bit offset space, or an
    /// item count beyond the 64-bit range.
    pub(crate) open spec fn put_would_overflow(self, k: Seq<u8>, v: Seq<u8>) -> bool {
        if self.has_key(k) {
            let (b, j) = choose|b: int, j: int|
                self.valid_pos(b, j) && #[trigger] self.key_at(b, j) == k;
            &&& !self.fits_in_place(v, b, j)
            &&& (spec_round_size(spec_val_need(v)) > u32::MAX || self.val_file.tail
                + spec_round_size(spec_val_need(v)) > u64::MAX)
        } else {
            ||| spec_round_size(spec_key_need(k)) > u32::MAX
            ||| self.key_file.tail + spec_round_size(spec_key_need(k)) > u64::MAX
            ||| spec_round_size(spec_val_need(v)) > u32::MAX
            ||| self.val_file.tail + spec_round_size(spec_val_need(v)) > u64::MAX
            ||| self.htx.item_count == u64::MAX
        }
    }

    /// Inserts a key that no chain holds yet: allocate the value piece,
    /// allocate the key piece linking to the old bucket head, swing the
    /// bucket head to the new key piece, and raise the item count.
    fn insert_fresh(&mut self, hash: u64, bucket: usize, key: &[u8], value: &[u8]) -> (r: Result<
        (),
        DbError,
    >)
        requires
            old(self).wf(),
            bucket as int == hash as int % old(self).n(),
            hash == spec_hash_bytes(key@),
            !old(self).has_key(key@),
        ensures
            final(self).wf(),
            final(self).n() == old(self).n(),
            final(self).htx.sig2 == old(self).htx.sig2,
            final(self).key_file.tail <= old(self).key_file.tail + spec_round_size(
                spec_key_need(key@),
            ),
            final(self).val_file.tail <= old(self).val_file.tail + spec_round_size(
                spec_val_need(value@),
            ),
            match r {
                Ok(()) => final(self).view_map() == old(self).view_map().insert(key@, value@),
                Err(e) => e == DbError::TooLarge && *final(self) == *old(self),
            },
            r.is_ok() <==> !old(self).put_would_overflow(key@, value@),
    {
        proof {
            lemma_round_size(spec_key_need(key@));
            lemma_round_size(spec_val_need(value@));
        }
        let size_k = match key_piece_size_checked(key) {
            Some(s) => s,
            None => { return Err(DbError::TooLarge) },
        };
        if self.key_file.tail > u64::MAX - size_k as u64 {
            return Err(DbError::TooLarge);
        }
        let size_v = match val_piece_size_checked(value) {
            Some(s) => s,
            None => { return Err(DbError::TooLarge) },
        };
        if self.val_file.tail > u64::MAX - size_v as u64 {
            return Err(DbError::TooLarge);
        }
        if self.htx.item_count == u64::MAX {
            return Err(DbError::TooLarge);
        }
        let ghost pre = *self;
        let ghost b = bucket as int;
        let head = self.htx.buckets[bucket];
        let (voff, vi) = self.val_file.add_piece(value, size_v);
        let (koff, ki) = self.key_file.add_piece(key, voff, head, size_k);
        let _ = self.htx.write_key_piece_offset(hash, koff);
        let _ = self.htx.write_item_count_up();
        let ghost newchain = seq![(ki as int, vi as int)] + pre.chains@[b];
        proof {
            self.chains@ = pre.chains@.update(b, newchain);
        }
        proof {
            let post = *self;
            assert(post.n() == pre.n());
            assert(post.chain(b) == newchain);
            assert forall|b2: int| 0 <= b2 < post.n() && b2 != b implies post.chain(b2)
                == pre.chain(b2) by {}
            // every old chain entry refers to pieces that did not change
            assert forall|b2: int, j2: int| pre.valid_pos(b2, j2) implies {
                &&& #[trigger] post.key_file.pieces@[pre.chain(b2)[j2].0] == pre.key_file.pieces@[pre.chain(b2)[j2].0]
                &&& post.val_file.pieces@[pre.chain(b2)[j2].1] == pre.val_file.pieces@[pre.chain(b2)[j2].1]
            } by {
                assert(pre.entry_ok(b2, j2));
                assert(pre.chain(b2)[j2].0 != ki as int);
                assert(pre.chain(b2)[j2].1 != vi as int);
            }
            // entry_ok everywhere
            assert forall|b2: int, j2: int| post.valid_pos(b2, j2) implies #[trigger] post.entry_ok(
                b2,
                j2,
            ) by {
                if b2 == b {
                    if j2 == 0 {
                        if pre.chain(b).len() > 0 {
                            assert(pre.entry_ok(b, 0));
                            assert(post.off_at(b, 1) == pre.off_at(b, 0));
                            assert(head == pre.head_off(b));
                        }
                        assert(post.entry_ok(b, 0));
                    } else {
                        assert(pre.entry_ok(b, j2 - 1));
                        assert(post.chain(b)[j2] == pre.chain(b)[j2 - 1]);
                        if j2 + 1 < post.chain(b).len() {
                            assert(pre.entry_ok(b, j2));
                        }
                        assert(post.entry_ok(b2, j2));
                    }
                } else {
                    assert(pre.entry_ok(b2, j2));
                    if j2 + 1 < post.chain(b2).len() {
                        assert(pre.entry_ok(b2, j2 + 1));
                    }
                    assert(post.entry_ok(b2, j2));
                }
            }
            // bucket heads
            assert forall|b2: int| 0 <= b2 < post.n() implies #[trigger] post.htx.buckets@[b2]
                == post.head_off(b2) by {
                if b2 == b {
                    assert(post.htx.buckets@[b] == koff);
                } else {
                    if pre.chain(b2).len() > 0 {
                        assert(pre.entry_ok(b2, 0));
                    }
                    assert(pre.htx.buckets@[b2] == pre.head_off(b2));
                }
            }
            // key distinctness
            assert forall|b1: int, j1: int, b2: int, j2: int|
                post.valid_pos(b1, j1) && post.valid_pos(b2, j2) && (b1 != b2 || j1 != j2) implies
                #[trigger] post.key_at(b1, j1) != #[trigger] post.key_at(b2, j2) by {
                let o1 = if b1 == b { j1 - 1 } else { j1 };
                let o2 = if b2 == b { j2 - 1 } else { j2 };
                if b1 == b && j1 == 0 {
                    assert(post.key_at(b1, j1) == key@);
                    assert(pre.valid_pos(b2, o2));
                    assert(pre.entry_ok(b2, o2));
                    assert(post.key_at(b2, j2) == pre.key_at(b2, o2));
                    if post.key_at(b2, j2) == key@ {
                        assert(pre.has_key(key@));
                    }
                } else if b2 == b && j2 == 0 {
                    assert(post.key_at(b2, j2) == key@);
                    assert(pre.valid_pos(b1, o1));
                    assert(pre.entry_ok(b1, o1));
                    assert(post.key_at(b1, j1) == pre.key_at(b1, o1));
                    if post.key_at(b1, j1) == key@ {
                        assert(pre.has_key(key@));
                    }
                } else {
                    assert(pre.valid_pos(b1, o1));
                    assert(pre.valid_pos(b2, o2));
                    assert(pre.entry_ok(b1, o1));
                    assert(pre.entry_ok(b2, o2));
                    assert(post.key_at(b1, j1) == pre.key_at(b1, o1));
                    assert(post.key_at(b2, j2) == pre.key_at(b2, o2));
                    assert(pre.key_at(b1, o1) != pre.key_at(b2, o2));
                }
            }
            // value piece distinctness
            assert forall|b1: int, j1: int, b2: int, j2: int|
                post.valid_pos(b1, j1) && post.valid_pos(b2, j2) && (b1 != b2 || j1 != j2) implies
                #[trigger] post.vi_at(b1, j1) != #[trigger] post.vi_at(b2, j2) by {
                let o1 = if b1 == b { j1 - 1 } else { j1 };
                let o2 = if b2 == b { j2 - 1 } else { j2 };
                if b1 == b && j1 == 0 {
                    assert(pre.valid_pos(b2, o2));
                    assert(pre.entry_ok(b2, o2));
                } else if b2 == b && j2 == 0 {
                    assert(pre.valid_pos(b1, o1));
                    assert(pre.entry_ok(b1, o1));
                } else {
                    assert(pre.valid_pos(b1, o1));
                    assert(pre.valid_pos(b2, o2));
                    assert(pre.vi_at(b1, o1) != pre.vi_at(b2, o2));
                }
            }
            // every live key piece keeps a chain entry
            assert forall|i2: int|
                0 <= i2 < post.key_file.pieces@.len() && (
                #[trigger] post.key_file.pieces@[i2]).live implies post.key_piece_chained(i2) by {
                if i2 == ki as int {
                    assert(post.valid_pos(b, 0) && post.chain(b)[0].0 == i2);
                } else {
                    assert(pre.key_file.pieces@[i2].live);
                    assert(pre.key_piece_chained(i2));
                    let (b2, j2) = choose|b2: int, j2: int|
                        #![trigger pre.chain(b2)[j2]]
                        pre.valid_pos(b2, j2) && pre.chain(b2)[j2].0 == i2;
                    let nj = if b2 == b {
                        j2 + 1
                    } else {
                        j2
                    };
                    assert(post.valid_pos(b2, nj) && post.chain(b2)[nj].0 == i2);
                }
            }
            // item count
            lemma_total_update(pre.chains@, b, newchain);
            assert(post.wf());
            // the abstract map gained exactly this pair
            assert forall|k2: Seq<u8>| true implies (post.has_key(k2) <==> (k2 == key@
                || pre.has_key(k2))) by {
                assert(post.key_at(b, 0) == key@);
                if pre.has_key(k2) {
                    let (pb, pj) = choose|pb: int, pj: int|
                        pre.valid_pos(pb, pj) && #[trigger] pre.key_at(pb, pj) == k2;
                    let nj = if pb == b { pj + 1 } else { pj };
                    assert(post.key_at(pb, nj) == k2);
                }
                if post.has_key(k2) && k2 != key@ {
                    let (pb, pj) = choose|pb: int, pj: int|
                        post.valid_pos(pb, pj) && #[trigger] post.key_at(pb, pj) == k2;
                    let oj = if pb == b { pj - 1 } else { pj };
                    assert(pre.valid_pos(pb, oj));
                    assert(pre.entry_ok(pb, oj));
                    assert(pre.key_at(pb, oj) == k2);
                }
            }
            assert forall|k2: Seq<u8>| post.has_key(k2) implies post.view_map()[k2] == (if k2
                == key@ {
                value@
            } else {
                pre.view_map()[k2]
            }) by {
                if k2 == key@ {
                    post.lemma_key_unique(b, 0);
                    assert(post.val_at(b, 0) == value@);
                } else {
                    let (pb, pj) = choose|pb: int, pj: int|
                        pre.valid_pos(pb, pj) && #[trigger] pre.key_at(pb, pj) == k2;
                    let nj = if pb == b { pj + 1 } else { pj };
                    assert(post.key_at(pb, nj) == k2);
                    post.lemma_key_unique(pb, nj);
                    pre.lemma_key_unique(pb, pj);
                    assert(post.val_at(pb, nj) == pre.val_at(pb, pj));
                }
            }
            assert(post.view_map() =~= pre.view_map().insert(key@, value@));
        }
        Ok(())
    }

    /// Overwrites the value stored at chain position `(b, j)`: in place
    /// when the new value still fits the value piece, else by freeing the
    /// old value piece, allocating a new one, and rewriting the key
    /// piece's value pointer. The key piece keeps its offset and size, so
    /// that rewrite never relocates it.
    fn overwrite_at(&mut self, cur: u64, gb: Ghost<int>, gj: Ghost<int>, value: &[u8]) -> (r:
        Result<(), DbError>)
        requires
            old(self).wf(),
            old(self).valid_pos(gb@, gj@),
            cur == old(self).off_at(gb@, gj@),
        ensures
            final(self).wf(),
            final(self).n() == old(self).n(),
            final(self).htx.sig2 == old(self).htx.sig2,
            final(self).key_file.tail == old(self).key_file.tail,
            final(self).val_file.tail <= old(self).val_file.tail + spec_round_size(
                spec_val_need(value@),
            ),
            match r {
                Ok(()) => final(self).view_map() == old(self).view_map().insert(
                    old(self).key_at(gb@, gj@),
                    value@,
                ),
                Err(e) => e == DbError::TooLarge && *final(self) == *old(self),
            },
            r.is_ok() <==> (old(self).fits_in_place(value@, gb@, gj@) || (spec_round_size(
                spec_val_need(value@),
            ) <= u32::MAX && old(self).val_file.tail + spec_round_size(spec_val_need(value@))
                <= u64::MAX)),
    {
        let ghost b = gb@;
        let ghost j = gj@;
        let ghost pre = *self;
        proof {
            assert(pre.entry_ok(b, j));
            lemma_round_size(spec_val_need(value@));
        }
        let i = match self.key_file.find_piece(cur) {
            Some(i) => i,
            None => {
                proof {
                    assert(false);
                }
                return Err(DbError::TooLarge);
            },
        };
        proof {
            self.key_file.lemma_offset_unique(i as int, pre.chain(b)[j].0);
        }
        let vo = self.key_file.pieces[i].value_offset;
        let vi = match self.val_file.find_piece(vo) {
            Some(vi) => vi,
            None => {
                proof {
                    assert(false);
                }
                return Err(DbError::TooLarge);
            },
        };
        proof {
            self.val_file.lemma_offset_unique(vi as int, pre.chain(b)[j].1);
        }
        if val_fits(value, self.val_file.pieces[vi].size) {
            self.val_file.write_in_place(vi, value);
                proof {
                let post = *self;
                assert(post.chains@ == pre.chains@);
                assert forall|b2: int, j2: int| pre.valid_pos(b2, j2) && (b2 != b || j2
                    != j) implies {
                    &&& #[trigger] post.val_file.pieces@[pre.chain(b2)[j2].1]
                        == pre.val_file.pieces@[pre.chain(b2)[j2].1]
                } by {
                    assert(pre.entry_ok(b2, j2));
                    assert(pre.vi_at(b2, j2) != pre.vi_at(b, j));
                }
                assert forall|b2: int, j2: int| post.valid_pos(b2, j2) implies
                #[trigger] post.entry_ok(b2, j2) by {
                    assert(pre.entry_ok(b2, j2));
                }
                assert forall|b1: int, j1: int, b2: int, j2: int|
                    post.valid_pos(b1, j1) && post.valid_pos(b2, j2) && (b1 != b2 || j1
                        != j2) implies #[trigger] post.key_at(b1, j1) != #[trigger] post.key_at(
                    b2,
                    j2,
                ) by {
                    assert(post.key_at(b1, j1) == pre.key_at(b1, j1));
                    assert(post.key_at(b2, j2) == pre.key_at(b2, j2));
                    assert(pre.key_at(b1, j1) != pre.key_at(b2, j2));
                }
                assert forall|b1: int, j1: int, b2: int, j2: int|
                    post.valid_pos(b1, j1) && post.valid_pos(b2, j2) && (b1 != b2 || j1
                        != j2) implies #[trigger] post.vi_at(b1, j1) != #[trigger] post.vi_at(
                    b2,
                    j2,
                ) by {
                    assert(pre.vi_at(b1, j1) != pre.vi_at(b2, j2));
                }
                assert forall|i2: int|
                    0 <= i2 < post.key_file.pieces@.len() && (
                #[trigger] post.key_file.pieces@[i2]).live implies post.key_piece_chained(
                    i2,
                ) by {
                    assert(pre.key_file.pieces@[i2].live);
                    assert(pre.key_piece_chained(i2));
                    let (b2, j2) = choose|b2: int, j2: int|
                        #![trigger pre.chain(b2)[j2]]
                        pre.valid_pos(b2, j2) && pre.chain(b2)[j2].0 == i2;
                    assert(post.valid_pos(b2, j2) && post.chain(b2)[j2].0 == i2);
                }
                assert(post.wf());
                post.lemma_key_unique(b, j);
                pre.lemma_key_unique(b, j);
                assert forall|k2: Seq<u8>| true implies (post.has_key(k2) <==> pre.has_key(
                    k2,
                )) by {
                    if pre.has_key(k2) {
                        let (pb, pj) = choose|pb: int, pj: int|
                            pre.valid_pos(pb, pj) && #[trigger] pre.key_at(pb, pj) == k2;
                        assert(post.key_at(pb, pj) == k2);
                    }
                    if post.has_key(k2) {
                        let (pb, pj) = choose|pb: int, pj: int|
                            post.valid_pos(pb, pj) && #[trigger] post.key_at(pb, pj) == k2;
                        assert(pre.key_at(pb, pj) == k2);
                    }
                }
                assert forall|k2: Seq<u8>| post.has_key(k2) implies post.view_map()[k2] == (if k2
                    == pre.key_at(b, j) {
                    value@
                } else {
                    pre.view_map()[k2]
                }) by {
                    let (pb, pj) = choose|pb: int, pj: int|
                        post.valid_pos(pb, pj) && #[trigger] post.key_at(pb, pj) == k2;
                    post.lemma_key_unique(pb, pj);
                    pre.lemma_key_unique(pb, pj);
                    if k2 == pre.key_at(b, j) {
                        assert(pb == b && pj == j);
                        assert(post.val_at(b, j) == value@);
                    } else {
                        assert(pre.vi_at(pb, pj) != pre.vi_at(b, j));
                        assert(post.val_at(pb, pj) == pre.val_at(pb, pj));
                    }
                }
                assert(post.view_map() =~= pre.view_map().insert(pre.key_at(b, j), value@));
            }
            return Ok(());
        }
        let size_v = match val_piece_size_checked(value) {
            Some(s) => s,
            None => { return Err(DbError::TooLarge) },
        };
        if self.val_file.tail > u64::MAX - size_v as u64 {
            return Err(DbError::TooLarge);
        }
        self.val_file.free_piece(vi);
        let (voff2, vi2) = self.val_file.add_piece(value, size_v);
        if voff2 != vo {
            self.key_file.set_value_offset(i, voff2);
        }
        let ghost newchain = pre.chain(b).update(j, (pre.chain(b)[j].0, vi2 as int));
        proof {
            self.chains@ = pre.chains@.update(b, newchain);
        }
        proof {
            let post = *self;
            assert(post.chain(b) == newchain);
            assert(post.chain(b)[j] == (pre.chain(b)[j].0, vi2 as int));
            assert forall|b2: int| 0 <= b2 < post.n() && b2 != b implies post.chain(b2)
                == pre.chain(b2) by {}
            // other chain entries keep their pieces
            assert forall|b2: int, j2: int| pre.valid_pos(b2, j2) && (b2 != b || j2 != j) implies {
                &&& #[trigger] post.key_file.pieces@[pre.chain(b2)[j2].0]
                    == pre.key_file.pieces@[pre.chain(b2)[j2].0]
                &&& post.val_file.pieces@[pre.chain(b2)[j2].1] == pre.val_file.pieces@[pre.chain(
                    b2,
                )[j2].1]
            } by {
                assert(pre.entry_ok(b2, j2));
                assert(pre.vi_at(b2, j2) != pre.vi_at(b, j));
                if pre.chain(b2)[j2].0 == pre.chain(b)[j].0 {
                    assert(pre.key_at(b2, j2) == pre.key_at(b, j));
                    assert(false);
                }
                assert(pre.chain(b2)[j2].1 != vi2 as int);
            }
            // the rewritten key piece kept offset, size, key and link
            assert(post.key_file.pieces@[pre.chain(b)[j].0].offset == pre.kp(b, j).offset);
            assert(post.key_file.pieces@[pre.chain(b)[j].0].key@ == pre.key_at(b, j));
            assert(post.key_file.pieces@[pre.chain(b)[j].0].bucket_next_offset == pre.kp(
                b,
                j,
            ).bucket_next_offset);
            assert forall|b2: int, j2: int| post.valid_pos(b2, j2) implies
            #[trigger] post.entry_ok(b2, j2) by {
                assert(pre.entry_ok(b2, j2));
                if b2 == b && j2 == j {
                    assert(post.val_file.pieces@[vi2 as int].live);
                    assert(post.entry_ok(b, j));
                } else {
                    if j2 + 1 < post.chain(b2).len() {
                        assert(pre.entry_ok(b2, j2 + 1));
                        if b2 == b && j2 + 1 == j {
                            assert(post.off_at(b2, j2 + 1) == pre.off_at(b2, j2 + 1));
                        }
                    }
                    assert(post.entry_ok(b2, j2));
                }
            }
            assert forall|b2: int| 0 <= b2 < post.n() implies #[trigger] post.htx.buckets@[b2]
                == post.head_off(b2) by {
                if post.chain(b2).len() > 0 {
                    assert(pre.entry_ok(b2, 0));
                }
            }
            assert forall|b1: int, j1: int, b2: int, j2: int|
                post.valid_pos(b1, j1) && post.valid_pos(b2, j2) && (b1 != b2 || j1 != j2) implies
                #[trigger] post.key_at(b1, j1) != #[trigger] post.key_at(b2, j2) by {
                assert(pre.entry_ok(b1, j1));
                assert(pre.entry_ok(b2, j2));
                assert(post.key_at(b1, j1) == pre.key_at(b1, j1));
                assert(post.key_at(b2, j2) == pre.key_at(b2, j2));
            }
            assert forall|b1: int, j1: int, b2: int, j2: int|
                post.valid_pos(b1, j1) && post.valid_pos(b2, j2) && (b1 != b2 || j1 != j2) implies
                #[trigger] post.vi_at(b1, j1) != #[trigger] post.vi_at(b2, j2) by {
                if b1 == b && j1 == j {
                    assert(pre.valid_pos(b2, j2));
                    assert(pre.entry_ok(b2, j2));
                } else if b2 == b && j2 == j {
                    assert(pre.valid_pos(b1, j1));
                    assert(pre.entry_ok(b1, j1));
                } else {
                    assert(pre.vi_at(b1, j1) != pre.vi_at(b2, j2));
                }
            }
            assert forall|i2: int|
                0 <= i2 < post.key_file.pieces@.len() && (
            #[trigger] post.key_file.pieces@[i2]).live implies post.key_piece_chained(i2) by {
                assert(pre.key_file.pieces@[i2].live);
                assert(pre.key_piece_chained(i2));
                let (b2, j2) = choose|b2: int, j2: int|
                    #![trigger pre.chain(b2)[j2]]
                    pre.valid_pos(b2, j2) && pre.chain(b2)[j2].0 == i2;
                assert(post.valid_pos(b2, j2) && post.chain(b2)[j2].0 == i2);
            }
            lemma_total_update(pre.chains@, b, newchain);
            assert(post.wf());
            assert forall|k2: Seq<u8>| true implies (post.has_key(k2) <==> pre.has_key(k2)) by {
                if pre.has_key(k2) {
                    let (pb, pj) = choose|pb: int, pj: int|
                        pre.valid_pos(pb, pj) && #[trigger] pre.key_at(pb, pj) == k2;
                    assert(post.key_at(pb, pj) == k2);
                }
                if post.has_key(k2) {
                    let (pb, pj) = choose|pb: int, pj: int|
                        post.valid_pos(pb, pj) && #[trigger] post.key_at(pb, pj) == k2;
                    assert(pre.key_at(pb, pj) == k2);
                }
            }
            assert forall|k2: Seq<u8>| post.has_key(k2) implies post.view_map()[k2] == (if k2
                == pre.key_at(b, j) {
                value@
            } else {
                pre.view_map()[k2]
            }) by {
                let (pb, pj) = choose|pb: int, pj: int|
                    post.valid_pos(pb, pj) && #[trigger] post.key_at(pb, pj) == k2;
                post.lemma_key_unique(pb, pj);
                pre.lemma_key_unique(pb, pj);
                if k2 == pre.key_at(b, j) {
                    assert(pb == b && pj == j);
                    assert(post.val_at(b, j) == value@);
                } else {
                    assert(post.val_at(pb, pj) == pre.val_at(pb, pj));
                }
            }
            assert(post.view_map() =~= pre.view_map().insert(pre.key_at(b, j), value@));
        }
        Ok(())
    }

    /// Inserts a key-value pair: overwrites the stored value when the key
    /// is present, else adds a new key piece at the head of its bucket's
    /// chain.
    pub(crate) fn put(&mut self, key: &[u8], value: &[u8]) -> (r: Result<(), DbError>)
        requires
            old(self).wf(),
        ensures
            final(self).wf(),
            final(self).n() == old(self).n(),
            final(self).htx.sig2 == old(self).htx.sig2,
            final(self).key_file.tail <= old(self).key_file.tail + spec_round_size(
                spec_key_need(key@),
            ),
            final(self).val_file.tail <= old(self).val_file.tail + spec_round_size(
                spec_val_need(value@),
            ),
            match r {
                Ok(()) => final(self).view_map() == old(self).view_map().insert(key@, value@),
                Err(e) => e == DbError::TooLarge && *final(self) == *old(self),
            },
            r.is_ok() <==> !old(self).put_would_overflow(key@, value@),
    {
        let hash = bytes_hash_value(key);
        let bucket = self.htx.bucket_index(hash);
        let (cur, _prev, gj) = self.find_in_bucket(bucket, key);
        let ghost b = bucket as int;
        if cur != 0 {
            proof {
                self.lemma_key_unique(b, gj@);
                let (cb, cj) = choose|cb: int, cj: int|
                    old(self).valid_pos(cb, cj) && #[trigger] old(self).key_at(cb, cj) == key@;
                assert(cb == b && cj == gj@);
            }
            self.overwrite_at(cur, Ghost(b), gj, value)
        } else {
            proof {
                self.lemma_absent_when_not_in_bucket(key@, b);
            }
            self.insert_fresh(hash, bucket, key, value)
        }
    }

    /// Removes a key: unlinks its key piece from the bucket chain (by
    /// rewriting the bucket head or the predecessor's chain pointer),
    /// frees both pieces, and lowers the item count. Returns the removed
    /// value's bytes.
    pub(crate) fn delete(&mut self, key: &[u8]) -> (r: Option<Vec<u8>>)
        requires
            old(self).wf(),
        ensures
            final(self).wf(),
            final(self).n() == old(self).n(),
            final(self).htx.sig2 == old(self).htx.sig2,
            final(self).view_map() == old(self).view_map().remove(key@),
            match r {
                Some(v) => old(self).has_key(key@) && v@ == old(self).view_map()[key@],
                None => !old(self).has_key(key@) && *final(self) == *old(self),
            },
    {
        let hash = bytes_hash_value(key);
        let bucket = self.htx.bucket_index(hash);
        let (cur, prev, gj) = self.find_in_bucket(bucket, key);
        let ghost b = bucket as int;
        if cur == 0 {
            proof {
                self.lemma_absent_when_not_in_bucket(key@, b);
                assert(self.view_map() =~= self.view_map().remove(key@));
            }
            return None;
        }
        let ghost j = gj@;
        let ghost pre = *self;
        proof {
            pre.lemma_key_unique(b, j);
            assert(pre.entry_ok(b, j));
        }
        let value = self.load_value_at(cur, Ghost(b), gj);
        let i = match self.key_file.find_piece(cur) {
            Some(i) => i,
            None => {
                proof {
                    assert(false);
                }
                return None;
            },
        };
        proof {
            self.key_file.lemma_offset_unique(i as int, pre.chain(b)[j].0);
        }
        let vo = self.key_file.pieces[i].value_offset;
        let vi = match self.val_file.find_piece(vo) {
            Some(v) => v,
            None => {
                proof {
                    assert(false);
                }
                return None;
            },
        };
        proof {
            self.val_file.lemma_offset_unique(vi as int, pre.chain(b)[j].1);
        }
        let next = self.key_file.pieces[i].bucket_next_offset;
        if prev == 0 {
            proof {
                if j > 0 {
                    assert(pre.entry_ok(b, j - 1));
                    assert(crate::piece::key_piece_wf(pre.kp(b, j - 1)));
                }
            }
            let _ = self.htx.write_key_piece_offset(hash, next);
        } else {
            proof {
                assert(j > 0);
                assert(pre.entry_ok(b, j - 1));
            }
            let pi = match self.key_file.find_piece(prev) {
                Some(p) => p,
                None => {
                    proof {
                        assert(false);
                    }
                    return None;
                },
            };
            proof {
                self.key_file.lemma_offset_unique(pi as int, pre.chain(b)[j - 1].0);
            }
            self.key_file.set_bucket_next(pi, next);
        }
        self.val_file.free_piece(vi);
        self.key_file.free_piece(i);
        proof {
            lemma_total_ge_bucket(pre.chains@, b);
        }
        let _ = self.htx.write_item_count_down();
        let ghost newchain = pre.chain(b).remove(j);
        proof {
            self.chains@ = pre.chains@.update(b, newchain);
        }
        proof {
            let post = *self;
            assert(post.chain(b) == newchain);
            assert(newchain.len() == pre.chain(b).len() - 1);
            assert forall|t: int| 0 <= t < newchain.len() implies newchain[t] == (if t < j {
                pre.chain(b)[t]
            } else {
                pre.chain(b)[t + 1]
            }) by {}
            assert forall|b2: int| 0 <= b2 < post.n() && b2 != b implies post.chain(b2)
                == pre.chain(b2) by {}
            // which old positions survive, and that their pieces are untouched
            assert forall|b2: int, j2: int|
                pre.valid_pos(b2, j2) && (b2 != b || j2 != j) implies {
                &&& #[trigger] post.key_file.pieces@[pre.chain(b2)[j2].0].live
                &&& post.key_file.pieces@[pre.chain(b2)[j2].0].offset == pre.kp(b2, j2).offset
                &&& post.key_file.pieces@[pre.chain(b2)[j2].0].key@ == pre.key_at(b2, j2)
                &&& post.key_file.pieces@[pre.chain(b2)[j2].0].value_offset == pre.kp(
                    b2,
                    j2,
                ).value_offset
                &&& post.val_file.pieces@[pre.chain(b2)[j2].1] == pre.val_file.pieces@[pre.chain(
                    b2,
                )[j2].1]
                &&& (!(b2 == b && j2 == j - 1) ==> post.key_file.pieces@[pre.chain(
                    b2,
                )[j2].0].bucket_next_offset == pre.kp(b2, j2).bucket_next_offset)
            } by {
                assert(pre.entry_ok(b2, j2));
                if pre.chain(b2)[j2].0 == pre.chain(b)[j].0 {
                    assert(pre.key_at(b2, j2) == pre.key_at(b, j));
                    assert(false);
                }
                if j > 0 && !(b2 == b && j2 == j - 1) && pre.chain(b2)[j2].0 == pre.chain(b)[j
                    - 1].0 {
                    assert(pre.key_at(b2, j2) == pre.key_at(b, j - 1));
                    assert(false);
                }
                assert(pre.vi_at(b2, j2) != pre.vi_at(b, j));
            }
            assert forall|b2: int, j2: int| post.valid_pos(b2, j2) implies {
                let o = if b2 == b && j2 >= j {
                    j2 + 1
                } else {
                    j2
                };
                &&& pre.valid_pos(b2, o)
                &&& #[trigger] post.key_at(b2, j2) == pre.key_at(b2, o)
                &&& post.val_at(b2, j2) == pre.val_at(b2, o)
                &&& post.vi_at(b2, j2) == pre.vi_at(b2, o)
            } by {
                let o = if b2 == b && j2 >= j {
                    j2 + 1
                } else {
                    j2
                };
                assert(pre.valid_pos(b2, o));
                assert(pre.entry_ok(b2, o));
                assert(post.chain(b2)[j2] == pre.chain(b2)[o]);
                assert(post.key_file.pieces@[pre.chain(b2)[o].0].live);
            }
            assert forall|b2: int, j2: int| post.valid_pos(b2, j2) implies
            #[trigger] post.entry_ok(b2, j2) by {
                let o2 = if b2 == b && j2 >= j {
                    j2 + 1
                } else {
                    j2
                };
                assert(pre.valid_pos(b2, o2));
                assert(pre.entry_ok(b2, o2));
                if b2 == b && j2 == j - 1 {
                    // the predecessor now links to the removed piece's successor
                    if j2 + 1 < post.chain(b).len() {
                        assert(pre.entry_ok(b, j + 1));
                        assert(post.off_at(b, j2 + 1) == pre.off_at(b, j + 1));
                    }
                    assert(post.entry_ok(b2, j2));
                } else {
                    if j2 + 1 < post.chain(b2).len() {
                        let o3 = if b2 == b && j2 + 1 >= j {
                            j2 + 2
                        } else {
                            j2 + 1
                        };
                        assert(pre.valid_pos(b2, o3));
                        assert(pre.entry_ok(b2, o3));
                        assert(post.off_at(b2, j2 + 1) == pre.off_at(b2, o3));
                    }
                    assert(post.entry_ok(b2, j2));
                }
            }
            assert forall|b2: int| 0 <= b2 < post.n() implies #[trigger] post.htx.buckets@[b2]
                == post.head_off(b2) by {
                if b2 == b {
                    if j == 0 {
                        if post.chain(b).len() > 0 {
                            assert(pre.entry_ok(b, 1));
                            assert(post.off_at(b, 0) == pre.off_at(b, 1));
                        }
                        assert(post.htx.buckets@[b] == next);
                    } else {
                        assert(pre.entry_ok(b, 0));
                        assert(post.off_at(b, 0) == pre.off_at(b, 0));
                    }
                } else {
                    if post.chain(b2).len() > 0 {
                        assert(pre.entry_ok(b2, 0));
                        assert(post.off_at(b2, 0) == pre.off_at(b2, 0));
                    }
                }
            }
            assert forall|b1: int, j1: int, b2: int, j2: int|
                post.valid_pos(b1, j1) && post.valid_pos(b2, j2) && (b1 != b2 || j1 != j2) implies
                #[trigger] post.key_at(b1, j1) != #[trigger] post.key_at(b2, j2) by {
                let o1 = if b1 == b && j1 >= j {
                    j1 + 1
                } else {
                    j1
                };
                let o2 = if b2 == b && j2 >= j {
                    j2 + 1
                } else {
                    j2
                };
                assert(pre.valid_pos(b1, o1));
                assert(pre.valid_pos(b2, o2));
                assert(post.key_at(b1, j1) == pre.key_at(b1, o1));
                assert(post.key_at(b2, j2) == pre.key_at(b2, o2));
                assert(pre.key_at(b1, o1) != pre.key_at(b2, o2));
            }
            assert forall|b1: int, j1: int, b2: int, j2: int|
                post.valid_pos(b1, j1) && post.valid_pos(b2, j2) && (b1 != b2 || j1 != j2) implies
                #[trigger] post.vi_at(b1, j1) != #[trigger] post.vi_at(b2, j2) by {
                let o1 = if b1 == b && j1 >= j {
                    j1 + 1
                } else {
                    j1
                };
                let o2 = if b2 == b && j2 >= j {
                    j2 + 1
                } else {
                    j2
                };
                assert(pre.valid_pos(b1, o1));
                assert(pre.valid_pos(b2, o2));
                assert(pre.vi_at(b1, o1) != pre.vi_at(b2, o2));
            }
            assert forall|i2: int|
                0 <= i2 < post.key_file.pieces@.len() && (
            #[trigger] post.key_file.pieces@[i2]).live implies post.key_piece_chained(i2) by {
                assert(i2 != i as int);
                assert(pre.key_file.pieces@[i2].live);
                assert(pre.key_piece_chained(i2));
                let (b2, j2) = choose|b2: int, j2: int|
                    #![trigger pre.chain(b2)[j2]]
                    pre.valid_pos(b2, j2) && pre.chain(b2)[j2].0 == i2;
                assert(pre.chain(b)[j].0 == i as int);
                assert(!(b2 == b && j2 == j));
                let nj = if b2 == b && j2 > j {
                    j2 - 1
                } else {
                    j2
                };
                assert(post.valid_pos(b2, nj) && post.chain(b2)[nj].0 == i2);
            }
            lemma_total_update(pre.chains@, b, newchain);
            assert(post.wf());
            // the abstract map lost exactly this key
            assert forall|k2: Seq<u8>| true implies (post.has_key(k2) <==> (k2 != key@
                && pre.has_key(k2))) by {
                if post.has_key(k2) {
                    let (pb, pj) = choose|pb: int, pj: int|
                        post.valid_pos(pb, pj) && #[trigger] post.key_at(pb, pj) == k2;
                    let o = if pb == b && pj >= j {
                        pj + 1
                    } else {
                        pj
                    };
                    assert(pre.valid_pos(pb, o));
                    assert(pre.key_at(pb, o) == k2);
                    assert(pre.key_at(pb, o) != pre.key_at(b, j));
                }
                if k2 != key@ && pre.has_key(k2) {
                    let (pb, pj) = choose|pb: int, pj: int|
                        pre.valid_pos(pb, pj) && #[trigger] pre.key_at(pb, pj) == k2;
                    assert(!(pb == b && pj == j));
                    let nj = if pb == b && pj > j {
                        pj - 1
                    } else {
                        pj
                    };
                    assert(post.valid_pos(pb, nj));
                    assert(post.key_at(pb, nj) == k2);
                }
            }
            assert forall|k2: Seq<u8>| post.has_key(k2) implies post.view_map()[k2]
                == pre.view_map()[k2] by {
                let (pb, pj) = choose|pb: int, pj: int|
                    post.valid_pos(pb, pj) && #[trigger] post.key_at(pb, pj) == k2;
                post.lemma_key_unique(pb, pj);
                let o = if pb == b && pj >= j {
                    pj + 1
                } else {
                    pj
                };
                assert(pre.valid_pos(pb, o));
                assert(pre.key_at(pb, o) == k2);
                pre.lemma_key_unique(pb, o);
                assert(post.val_at(pb, pj) == pre.val_at(pb, o));
            }
            assert(post.view_map() =~= pre.view_map().remove(key@));
        }
        Some(value)
    }

    /// Creates an empty keyspace with the given bucket count and type
    /// signature.
    pub(crate) fn create(buckets_size: u64, sig2: [u8; 8]) -> (r: Result<Self, DbError>)
        ensures
            match r {
                Ok(c) => {
                    &&& c.wf()
                    &&& c.view_map() == Map::<Seq<u8>, Seq<u8>>::empty()
                    &&& c.n() == buckets_size
                    &&& c.htx.item_count == 0
                    &&& c.htx.sig2@ == sig2@
                    &&& c.key_file.tail == crate::piece::PIECE_START
                    &&& c.val_file.tail == crate::piece::PIECE_START
                },
                Err(e) => e == DbError::TooLarge && buckets_size > usize::MAX as u64 || e
                    == DbError::ZeroCapacity && buckets_size == 0,
            },
            buckets_size >= 1 && buckets_size <= usize::MAX as u64 ==> r.is_ok(),
    {
        let htx = match HtxFile::with_buckets(buckets_size, sig2) {
            Ok(h) => h,
            Err(e) => { return Err(e) },
        };
        let ghost n = htx.buckets@.len() as int;
        let c = KeyspaceCore {
            htx,
            key_file: KeyFile::new(),
            val_file: ValueFile::new(),
            chains: Ghost(Seq::new(n as nat, |b: int| Seq::empty())),
        };
        proof {
            lemma_total_all_empty(c.chains@);
            assert forall|k2: Seq<u8>| !c.has_key(k2) by {}
            assert(c.view_map() =~= Map::<Seq<u8>, Seq<u8>>::empty());
        }
        Ok(c)
    }

    /// The number of live items: the directory's count, which matches the
    /// total length of all chains.
    pub(crate) fn len(&self) -> (r: u64)
        requires
            self.wf(),
        ensures
            r == self.htx.item_count,
            r as int == spec_total(self.chains@),
    {
        self.htx.item_count
    }

    /// Collects every key-value pair by scanning buckets upward from zero
    /// and walking each non-empty bucket's chain: exactly one pair per
    /// live key.
    #[verifier::rlimit(60)]
    #[verifier::spinoff_prover]
    pub(crate) fn collect_pairs(&self) -> (r: Vec<(Vec<u8>, Vec<u8>)>)
        requires
            self.wf(),
        ensures
            r@.len() == spec_total(self.chains@),
            forall|t: int|
                0 <= t < r@.len() ==> self.has_key(#[trigger] r@[t].0@) && r@[t].1@
                    == self.view_map()[r@[t].0@],
            forall|t1: int, t2: int| 0 <= t1 < t2 < r@.len() ==> r@[t1].0@ != r@[t2].0@,
            forall|k: Seq<u8>|
                self.has_key(k) ==> exists|t: int| 0 <= t < r@.len() && #[trigger] r@[t].0@ == k,
    {
        let n = self.htx.buckets.len();
        let mut r: Vec<(Vec<u8>, Vec<u8>)> = Vec::new();
        let ghost mut pos: Seq<(int, int)> = Seq::empty();
        let mut b: usize = 0;
        proof {
            assert(self.chains@.subrange(0, 0) =~= Seq::<Seq<(int, int)>>::empty());
        }
        while b < n
            invariant
                self.wf(),
                n == self.n(),
                b <= n,
                pos.len() == r@.len(),
                r@.len() as int == spec_total(self.chains@.subrange(0, b as int)),
                forall|t: int|
                    0 <= t < pos.len() ==> self.valid_pos(#[trigger] pos[t].0, pos[t].1)
                        && pos[t].0 < b,
                forall|t: int|
                    0 <= t < pos.len() ==> #[trigger] r@[t].0@ == self.key_at(pos[t].0, pos[t].1)
                        && r@[t].1@ == self.val_at(pos[t].0, pos[t].1),
                forall|b2: int, j2: int|
                    0 <= b2 < b && 0 <= j2 < self.chain(b2).len() ==> #[trigger] pos_covers(
                        pos,
                        b2,
                        j2,
                    ),
                forall|t1: int, t2: int| 0 <= t1 < t2 < pos.len() ==> pos[t1] != pos[t2],
            decreases n - b,
        {
            let mut cur: u64 = self.htx.buckets[b];
            let ghost mut j: int = 0;
            proof {
                if self.chain(b as int).len() > 0 {
                    assert(self.entry_ok(b as int, 0));
                    assert(crate::piece::key_piece_wf(self.kp(b as int, 0)));
                }
            }
            while cur != 0
                invariant
                    self.wf(),
                    n == self.n(),
                    b < n,
                    0 <= j <= self.chain(b as int).len(),
                    cur == (if j < self.chain(b as int).len() {
                        self.off_at(b as int, j)
                    } else {
                        0
                    }),
                    pos.len() == r@.len(),
                    r@.len() as int == spec_total(self.chains@.subrange(0, b as int)) + j,
                    forall|t: int|
                        0 <= t < pos.len() ==> self.valid_pos(#[trigger] pos[t].0, pos[t].1) && (
                        pos[t].0 < b || (pos[t].0 == b && pos[t].1 < j)),
                    forall|t: int|
                        0 <= t < pos.len() ==> #[trigger] r@[t].0@ == self.key_at(
                            pos[t].0,
                            pos[t].1,
                        ) && r@[t].1@ == self.val_at(pos[t].0, pos[t].1),
                    forall|b2: int, j2: int|
                        (0 <= b2 < b && 0 <= j2 < self.chain(b2).len()) || (b2 == b && 0 <= j2 < j)
                            ==> #[trigger] pos_covers(pos, b2, j2),
                    forall|t1: int, t2: int| 0 <= t1 < t2 < pos.len() ==> pos[t1] != pos[t2],
                decreases self.chain(b as int).len() - j,
            {
                proof {
                    assert(self.entry_ok(b as int, j));
                }
                let i = match self.key_file.find_piece(cur) {
                    Some(i) => i,
                    None => {
                        proof {
                            assert(false);
                        }
                        return r;
                    },
                };
                proof {
                    self.key_file.lemma_offset_unique(i as int, self.chain(b as int)[j].0);
                }
                let key_copy = vstd::slice::slice_to_vec(self.key_file.pieces[i].key.as_slice());
                let val_copy = self.load_value_at(cur, Ghost(b as int), Ghost(j));
                let ghost r0 = r@;
                r.push((key_copy, val_copy));
                cur = self.key_file.pieces[i].bucket_next_offset;
                proof {
                    let pos0 = pos;
                    pos = pos.push((b as int, j));
                    assert(pos[pos.len() - 1] == (b as int, j));
                    assert(r@[r@.len() - 1].0@ == self.key_at(b as int, j));
                    assert(r@[r@.len() - 1].1@ == self.val_at(b as int, j));
                    assert forall|t: int| 0 <= t < pos.len() - 1 implies #[trigger] pos[t]
                        == pos0[t] && r@[t] == r0[t] by {}
                    assert forall|t1: int| 0 <= t1 < pos.len() - 1 implies #[trigger] pos[t1]
                        != pos[pos.len() - 1] by {
                        assert(pos[t1] == pos0[t1]);
                        assert(0 <= t1 < pos0.len());
                        assert(pos0[t1].0 < b as int || (pos0[t1].0 == b as int && pos0[t1].1
                            < j));
                        assert(pos[pos.len() - 1] == (b as int, j));
                    }
                    j = j + 1;
                    if j < self.chain(b as int).len() {
                        assert(self.entry_ok(b as int, j));
                        assert(crate::piece::key_piece_wf(self.kp(b as int, j)));
                    }
                    assert forall|b2: int, j2: int|
                        (0 <= b2 < b && 0 <= j2 < self.chain(b2).len()) || (b2 == b && 0 <= j2
                            < j) implies #[trigger] pos_covers(pos, b2, j2) by {
                        if b2 == b && j2 == j - 1 {
                            assert(pos[pos.len() - 1] == (b2, j2));
                        } else {
                            assert(pos_covers(pos0, b2, j2));
                            let t0 = choose|t0: int|
                                0 <= t0 < pos0.len() && #[trigger] pos0[t0] == (b2, j2);
                            assert(pos[t0] == (b2, j2));
                        }
                    }
                }
            }
            proof {
                // the chain ended: j reached its length
                if j < self.chain(b as int).len() {
                    assert(self.entry_ok(b as int, j));
                    assert(crate::piece::key_piece_wf(self.kp(b as int, j)));
                }
                assert(self.chains@.subrange(0, b + 1).drop_last() =~= self.chains@.subrange(
                    0,
                    b as int,
                ));
                assert(self.chains@.subrange(0, b + 1).last() == self.chains@[b as int]);
            }
            b += 1;
        }
        proof {
            assert(self.chains@.subrange(0, n as int) =~= self.chains@);
            assert forall|t: int| 0 <= t < r@.len() implies self.has_key(#[trigger] r@[t].0@)
                && r@[t].1@ == self.view_map()[r@[t].0@] by {
                self.lemma_key_unique(pos[t].0, pos[t].1);
            }
            assert forall|t1: int, t2: int| 0 <= t1 < t2 < r@.len() implies r@[t1].0@
                != r@[t2].0@ by {
                assert(pos[t1] != pos[t2]);
                assert(self.key_at(pos[t1].0, pos[t1].1) != self.key_at(pos[t2].0, pos[t2].1));
            }
            assert forall|k: Seq<u8>| self.has_key(k) implies exists|t: int|
                0 <= t < r@.len() && #[trigger] r@[t].0@ == k by {
                let (b2, j2) = choose|b2: int, j2: int|
                    self.valid_pos(b2, j2) && #[trigger] self.key_at(b2, j2) == k;
                assert(pos_covers(pos, b2, j2));
                let t = choose|t: int| 0 <= t < pos.len() && #[trigger] pos[t] == (b2, j2);
                assert(r@[t].0@ == k);
            }
        }
        r
    }

    /// Any two live key pieces hold different keys and point at
    /// different value pieces: every live piece sits in a chain, and
    /// chain entries are pairwise distinct.
    pub(crate) proof fn lemma_live_pieces_distinct(self, i1: int, i2: int)
        requires
            self.wf(),
            0 <= i1 < self.key_file.pieces@.len(),
            0 <= i2 < self.key_file.pieces@.len(),
            i1 != i2,
            self.key_file.pieces@[i1].live,
            self.key_file.pieces@[i2].live,
        ensures
            self.key_file.pieces@[i1].key@ != self.key_file.pieces@[i2].key@,
            self.key_file.pieces@[i1].value_offset != self.key_file.pieces@[i2].value_offset,
    {
        assert(self.key_piece_chained(i1));
        assert(self.key_piece_chained(i2));
        let (b1, j1) = choose|b: int, j: int|
            #![trigger self.chain(b)[j]]
            self.valid_pos(b, j) && self.chain(b)[j].0 == i1;
        let (b2, j2) = choose|b: int, j: int|
            #![trigger self.chain(b)[j]]
            self.valid_pos(b, j) && self.chain(b)[j].0 == i2;
        assert(self.entry_ok(b1, j1));
        assert(self.entry_ok(b2, j2));
        assert(self.key_at(b1, j1) != self.key_at(b2, j2));
        assert(self.vi_at(b1, j1) != self.vi_at(b2, j2));
        if self.key_file.pieces@[i1].value_offset == self.key_file.pieces@[i2].value_offset {
            self.val_file.lemma_offset_unique(self.vi_at(b1, j1), self.vi_at(b2, j2));
        }
    }

    /// The set of keys sitting strictly before chain position `(b, j)` in
    /// bucket-then-position order.
    pub(crate) open spec fn keys_before(self, b: int, j: int) -> Set<Seq<u8>> {
        Set::new(
            |k: Seq<u8>|
                exists|b2: int, j2: int|
                    self.valid_pos(b2, j2) && (b2 < b || (b2 == b && j2 < j))
                        && #[trigger] self.key_at(b2, j2) == k,
        )
    }

    /// Counts the distinct keys before a chain position: every chain
    /// entry holds a distinct key, so the count equals the number of
    /// entries walked.
    pub(crate) proof fn lemma_count_upto(self, b: int, j: int)
        requires
            self.wf(),
            0 <= b < self.n(),
            0 <= j <= self.chain(b).len(),
        ensures
            self.keys_before(b, j).finite(),
            self.keys_before(b, j).len() == spec_total(self.chains@.subrange(0, b)) + j,
        decreases b, j,
    {
        if j == 0 {
            if b == 0 {
                assert(self.chains@.subrange(0, 0) =~= Seq::<Seq<(int, int)>>::empty());
                assert(self.keys_before(0, 0) =~= Set::<Seq<u8>>::empty());
            } else {
                self.lemma_count_upto(b - 1, self.chain(b - 1).len() as int);
                let prev = self.keys_before(b - 1, self.chain(b - 1).len() as int);
                assert forall|k: Seq<u8>| self.keys_before(b, 0).contains(k) implies prev.contains(
                    k,
                ) by {
                    let (b2, j2) = choose|b2: int, j2: int|
                        self.valid_pos(b2, j2) && (b2 < b || (b2 == b && j2 < 0))
                            && #[trigger] self.key_at(b2, j2) == k;
                    assert(self.valid_pos(b2, j2) && (b2 < b - 1 || (b2 == b - 1 && j2
                        < self.chain(b - 1).len())) && self.key_at(b2, j2) == k);
                }
                assert forall|k: Seq<u8>| prev.contains(k) implies self.keys_before(
                    b,
                    0,
                ).contains(k) by {
                    let (b2, j2) = choose|b2: int, j2: int|
                        self.valid_pos(b2, j2) && (b2 < b - 1 || (b2 == b - 1 && j2 < self.chain(
                            b - 1,
                        ).len())) && #[trigger] self.key_at(b2, j2) == k;
                    assert(self.valid_pos(b2, j2) && b2 < b && self.key_at(b2, j2) == k);
                }
                assert(self.keys_before(b, 0) =~= prev);
                assert(self.chains@.subrange(0, b).drop_last() =~= self.chains@.subrange(0, b - 1));
                assert(self.chains@.subrange(0, b).last() == self.chains@[b - 1]);
            }
        } else {
            self.lemma_count_upto(b, j - 1);
            let k0 = self.key_at(b, j - 1);
            let s0 = self.keys_before(b, j - 1);
            assert(!s0.contains(k0)) by {
                if s0.contains(k0) {
                    let (b2, j2) = choose|b2: int, j2: int|
                        self.valid_pos(b2, j2) && (b2 < b || (b2 == b && j2 < j - 1))
                            && #[trigger] self.key_at(b2, j2) == k0;
                    assert(self.key_at(b2, j2) != self.key_at(b, j - 1));
                }
            }
            assert forall|k: Seq<u8>| self.keys_before(b, j).contains(k) implies s0.insert(
                k0,
            ).contains(k) by {
                let (b2, j2) = choose|b2: int, j2: int|
                    self.valid_pos(b2, j2) && (b2 < b || (b2 == b && j2 < j))
                        && #[trigger] self.key_at(b2, j2) == k;
                if b2 == b && j2 == j - 1 {
                } else {
                    assert(self.valid_pos(b2, j2) && (b2 < b || (b2 == b && j2 < j - 1))
                        && self.key_at(b2, j2) == k);
                }
            }
            assert forall|k: Seq<u8>| s0.insert(k0).contains(k) implies self.keys_before(
                b,
                j,
            ).contains(k) by {
                if k == k0 {
                    assert(self.valid_pos(b, j - 1) && self.key_at(b, j - 1) == k);
                } else {
                    let (b2, j2) = choose|b2: int, j2: int|
                        self.valid_pos(b2, j2) && (b2 < b || (b2 == b && j2 < j - 1))
                            && #[trigger] self.key_at(b2, j2) == k;
                    assert(self.valid_pos(b2, j2) && (b2 < b || (b2 == b && j2 < j))
                        && self.key_at(b2, j2) == k);
                }
            }
            assert(self.keys_before(b, j) =~= s0.insert(k0));
        }
    }

    /// The item count is the number of distinct keys present.
    pub(crate) proof fn lemma_len_is_key_count(self)
        requires
            self.wf(),
        ensures
            self.view_map().dom().finite(),
            self.view_map().dom().len() == spec_total(self.chains@),
    {
        let n = self.n();
        self.lemma_count_upto(n - 1, self.chain(n - 1).len() as int);
        let last = self.keys_before(n - 1, self.chain(n - 1).len() as int);
        assert forall|k: Seq<u8>| self.view_map().dom().contains(k) implies last.contains(k) by {
            let (b2, j2) = choose|b2: int, j2: int|
                self.valid_pos(b2, j2) && #[trigger] self.key_at(b2, j2) == k;
            assert(self.valid_pos(b2, j2) && (b2 < n - 1 || (b2 == n - 1 && j2 < self.chain(
                n - 1,
            ).len())) && self.key_at(b2, j2) == k);
        }
        assert forall|k: Seq<u8>| last.contains(k) implies self.view_map().dom().contains(k) by {
            let (b2, j2) = choose|b2: int, j2: int|
                self.valid_pos(b2, j2) && (b2 < n - 1 || (b2 == n - 1 && j2 < self.chain(
                    n - 1,
                ).len())) && #[trigger] self.key_at(b2, j2) == k;
            assert(self.has_key(k));
        }
        assert(self.view_map().dom() =~= last);
        assert(self.chains@.subrange(0, n) =~= self.chains@);
        assert(self.chains@.subrange(0, n).drop_last() =~= self.chains@.subrange(0, n - 1));
        assert(self.chains@.subrange(0, n).last() == self.chains@[n - 1]);
    }

    /// Whether the keyspace holds the key.
    pub(crate) fn includes_key(&self, key: &[u8]) -> (r: bool)
        requires
            self.wf(),
        ensures
            r == self.has_key(key@),
    {
        let hash = bytes_hash_value(key);
        let bucket = self.htx.bucket_index(hash);
        let (cur, _prev, gj) = self.find_in_bucket(bucket, key);
        let ghost b = bucket as int;
        if cur != 0 {
            proof {
                self.lemma_key_unique(b, gj@);
            }
            true
        } else {
            proof {
                self.lemma_absent_when_not_in_bucket(key@, b);
            }
            false
        }
    }
}

/// One keyspace with a typed key: the engine core together with the key
/// type it was opened for.
pub struct FileDbXxxInner<KT: DbMapKeyType> {
    pub(crate) ks: KeyspaceCore,
    pub(crate) dirty: bool,
    pub(crate) _kt: core::marker::PhantomData<KT>,
}

impl<KT: DbMapKeyType> FileDbXxxInner<KT> {
    /// Creates an empty keyspace sized from the given parameters and
    /// tagged with the key type's signature. A zero capacity hint is
    /// rejected.
    pub fn open_with_params(params: &crate::filedb::FileDbParams) -> (r: Result<Self, DbError>)
        ensures
            match r {
                Ok(d) => d.db_wf() && d.db_view() == Map::<Seq<u8>, Seq<u8>>::empty()
                    && !d.db_dirty() && d.spec_type_tagged()
                    && crate::stats::CheckFileDbMap::db_buckets(&d)
                    == crate::filedb::spec_buckets_of_params(*params),
                Err(e) => if params.buckets_size matches crate::filedb::HashBucketsParam::Capacity(
                    c,
                ) && c == 0 {
                    e == DbError::ZeroCapacity
                } else {
                    e == DbError::TooLarge
                },
            },
            (params.buckets_size matches crate::filedb::HashBucketsParam::Capacity(c) && c == 0)
                ==> r.is_err(),
            crate::filedb::spec_params_accepted(*params) ==> r.is_ok(),
    {
        let buckets_size: u64 = match &params.buckets_size {
            crate::filedb::HashBucketsParam::BucketsSize(x) => {
                match crate::htx::next_power_of_two_u64(*x) {
                    Ok(p) => p,
                    Err(e) => { return Err(e) },
                }
            },
            crate::filedb::HashBucketsParam::Capacity(c) => {
                if *c == 0 {
                    return Err(DbError::ZeroCapacity);
                }
                if *c >= 0x1000000000000000u64 {
                    return Err(DbError::TooLarge);
                }
                crate::htx::capacity_to_buckets_size(*c)
            },
            crate::filedb::HashBucketsParam::Default => crate::htx::DEFAULT_HT_SIZE,
        };
        if buckets_size > usize::MAX as u64 {
            return Err(DbError::TooLarge);
        }
        let ks = match KeyspaceCore::create(buckets_size, KT::signature()) {
            Ok(ks) => ks,
            Err(_) => { return Err(DbError::TooLarge) },
        };
        Ok(FileDbXxxInner { ks, dirty: false, _kt: core::marker::PhantomData })
    }

    /// The key storage file's size in bytes.
    pub closed spec fn spec_key_file_size(self) -> int {
        self.ks.key_file.tail as int
    }

    /// The value storage file's size in bytes.
    pub closed spec fn spec_val_file_size(self) -> int {
        self.ks.val_file.tail as int
    }

    /// Law (puts are owed success within machine limits): a put is only
    /// refused when a piece would overflow the 32-bit size field, a
    /// storage file the 64-bit offset space, or the key count the 64-bit
    /// range; within those bounds `put_kt` must succeed.
    pub proof fn lemma_put_overflow_bound(self, k: Seq<u8>, v: Seq<u8>)
        requires
            self.db_wf(),
            crate::piece::spec_round_size(crate::piece::spec_key_need(k)) <= u32::MAX as int,
            crate::piece::spec_round_size(crate::piece::spec_val_need(v)) <= u32::MAX as int,
            self.spec_key_file_size() + crate::piece::spec_round_size(
                crate::piece::spec_key_need(k),
            ) <= u64::MAX as int,
            self.spec_val_file_size() + crate::piece::spec_round_size(
                crate::piece::spec_val_need(v),
            ) <= u64::MAX as int,
            self.db_view().dom().len() < u64::MAX as int,
        ensures
            !self.db_put_overflows(k, v),
    {
        self.ks.lemma_len_is_key_count();
    }

    /// Whether changes since the last flush or sync are pending.
    pub fn is_dirty(&self) -> (r: bool)
        ensures
            r == self.db_dirty(),
    {
        self.dirty
    }

    /// Every key-value pair, one per live key, gathered by the bucket
    /// scan.
    pub(crate) fn all_pairs(&self) -> (r: Vec<(KT, Vec<u8>)>)
        requires
            self.db_wf(),
        ensures
            self.db_view().dom().finite(),
            r@.len() == self.db_view().dom().len(),
            forall|t: int|
                0 <= t < r@.len() ==> self.db_view().contains_key(
                    (#[trigger] r@[t]).0.key_bytes(),
                ) && r@[t].1@ == self.db_view()[r@[t].0.key_bytes()],
            forall|t1: int, t2: int|
                0 <= t1 < t2 < r@.len() ==> r@[t1].0.key_bytes() != r@[t2].0.key_bytes(),
            forall|k: Seq<u8>|
                self.db_view().contains_key(k) ==> exists|t: int|
                    0 <= t < r@.len() && (#[trigger] r@[t]).0.key_bytes() == k,
    {
        proof {
            self.ks.lemma_len_is_key_count();
        }
        let raw = self.ks.collect_pairs();
        let mut r: Vec<(KT, Vec<u8>)> = Vec::new();
        let n = raw.len();
        let mut t: usize = 0;
        while t < n
            invariant
                t <= n,
                n == raw@.len(),
                r@.len() == t,
                forall|u: int|
                    0 <= u < t ==> (#[trigger] r@[u]).0.key_bytes() == raw@[u].0@ && r@[u].1@
                        == raw@[u].1@,
            decreases n - t,
        {
            let k = KT::from_bytes(raw[t].0.as_slice());
            let v = vstd::slice::slice_to_vec(raw[t].1.as_slice());
            r.push((k, v));
            t += 1;
        }
        proof {
            assert forall|t1: int, t2: int| 0 <= t1 < t2 < r@.len() implies r@[t1].0.key_bytes()
                != r@[t2].0.key_bytes() by {
                assert(raw@[t1].0@ != raw@[t2].0@);
            }
            assert forall|k: Seq<u8>| self.db_view().contains_key(k) implies exists|t: int|
                0 <= t < r@.len() && (#[trigger] r@[t]).0.key_bytes() == k by {
                let t0 = choose|t0: int| 0 <= t0 < raw@.len() && #[trigger] raw@[t0].0@ == k;
                assert(r@[t0].0.key_bytes() == k);
            }
        }
        r
    }
}

impl<KT: DbMapKeyType> DbXxxBase for FileDbXxxInner<KT> {
    closed spec fn db_view(&self) -> Map<Seq<u8>, Seq<u8>> {
        self.ks.view_map()
    }

    closed spec fn db_wf(&self) -> bool {
        self.ks.wf()
    }

    closed spec fn db_dirty(&self) -> bool {
        self.dirty
    }

    fn len(&self) -> (r: Result<u64, DbError>) {
        proof {
            self.ks.lemma_len_is_key_count();
        }
        Ok(self.ks.len())
    }

    fn is_empty(&self) -> (r: Result<bool, DbError>) {
        proof {
            self.ks.lemma_len_is_key_count();
        }
        Ok(self.ks.len() == 0)
    }

    fn read_fill_buffer(&mut self) -> (r: Result<(), DbError>) {
        Ok(())
    }

    fn flush(&mut self) -> (r: Result<(), DbError>) {
        if self.dirty {
            self.dirty = false;
        }
        Ok(())
    }

    fn sync_all(&mut self) -> (r: Result<(), DbError>) {
        if self.dirty {
            self.dirty = false;
        }
        Ok(())
    }

    fn sync_data(&mut self) -> (r: Result<(), DbError>) {
        if self.dirty {
            self.dirty = false;
        }
        Ok(())
    }
}

impl<KT: DbMapKeyType> DbXxxObjectSafe<KT> for FileDbXxxInner<KT> {
    closed spec fn db_put_overflows(&self, k: Seq<u8>, v: Seq<u8>) -> bool {
        self.ks.put_would_overflow(k, v)
    }

    fn get_kt(&mut self, key: &KT) -> (r: Result<Option<Vec<u8>>, DbError>) {
        Ok(self.ks.get(key.as_bytes()))
    }

    fn put_kt(&mut self, key: &KT, value: &[u8]) -> (r: Result<(), DbError>) {
        match self.ks.put(key.as_bytes(), value) {
            Ok(()) => {
                self.dirty = true;
                Ok(())
            },
            Err(e) => Err(e),
        }
    }

    fn del_kt(&mut self, key: &KT) -> (r: Result<Option<Vec<u8>>, DbError>) {
        match self.ks.delete(key.as_bytes()) {
            Some(v) => {
                self.dirty = true;
                Ok(Some(v))
            },
            None => Ok(None),
        }
    }

    fn includes_key_kt(&mut self, key: &KT) -> (r: Result<bool, DbError>) {
        Ok(self.ks.includes_key(key.as_bytes()))
    }
}

impl<KT: DbMapKeyType> DbXxx<KT> for FileDbXxxInner<KT> {
    fn get(&mut self, key: &KT) -> (r: Result<Option<Vec<u8>>, DbError>) {
        self.get_kt(key)
    }

    fn get_string(&mut self, key: &KT) -> (r: Result<Option<String>, DbError>) {
        match self.get_kt(key) {
            Ok(Some(v)) => Ok(Some(crate::util::bytes_to_string_lossy(v.as_slice()))),
            Ok(None) => Ok(None),
            Err(e) => Err(e),
        }
    }

    fn put(&mut self, key: &KT, value: &[u8]) -> (r: Result<(), DbError>) {
        self.put_kt(key, value)
    }

    fn put_string(&mut self, key: &KT, value: &str) -> (r: Result<(), DbError>) {
        self.put_kt(key, value.as_bytes())
    }

    fn delete(&mut self, key: &KT) -> (r: Result<Option<Vec<u8>>, DbError>) {
        self.del_kt(key)
    }

    fn delete_string(&mut self, key: &KT) -> (r: Result<Option<String>, DbError>) {
        match self.del_kt(key) {
            Ok(Some(v)) => Ok(Some(crate::util::bytes_to_string_lossy(v.as_slice()))),
            Ok(None) => Ok(None),
            Err(e) => Err(e),
        }
    }

    fn includes_key(&mut self, key: &KT) -> (r: Result<bool, DbError>) {
        self.includes_key_kt(key)
    }

    fn bulk_get(&mut self, bulk_keys: &Vec<KT>) -> (r: Result<Vec<Option<Vec<u8>>>, DbError>) {
        let n = bulk_keys.len();
        let mut rs: Vec<Option<Vec<u8>>> = Vec::new();
        let mut t: usize = 0;
        while t < n
            invariant
                t <= n,
                n == bulk_keys@.len(),
                self.db_wf(),
                *self == *old(self),
                forall|u: int|
                    0 <= u < bulk_keys@.len() ==> KT::valid_bytes(
                        (#[trigger] bulk_keys@[u]).key_bytes(),
                    ),
                rs@.len() == t,
                forall|u: int|
                    0 <= u < t ==> match #[trigger] rs@[u] {
                        Some(v) => self.db_view().contains_key(bulk_keys@[u].key_bytes()) && v@
                            == self.db_view()[bulk_keys@[u].key_bytes()],
                        None => !self.db_view().contains_key(bulk_keys@[u].key_bytes()),
                    },
            decreases n - t,
        {
            let v = match self.get_kt(&bulk_keys[t]) {
                Ok(v) => v,
                Err(e) => { return Err(e) },
            };
            rs.push(v);
            t += 1;
        }
        Ok(rs)
    }

    fn bulk_get_string(&mut self, bulk_keys: &Vec<KT>) -> (r: Result<Vec<Option<String>>, DbError>) {
        let n = bulk_keys.len();
        let mut rs: Vec<Option<String>> = Vec::new();
        let mut t: usize = 0;
        while t < n
            invariant
                t <= n,
                n == bulk_keys@.len(),
                self.db_wf(),
                *self == *old(self),
                forall|u: int|
                    0 <= u < bulk_keys@.len() ==> KT::valid_bytes(
                        (#[trigger] bulk_keys@[u]).key_bytes(),
                    ),
                rs@.len() == t,
                forall|u: int|
                    0 <= u < t ==> match #[trigger] rs@[u] {
                        Some(s) => self.db_view().contains_key(bulk_keys@[u].key_bytes()) && s@
                            == crate::util::lossy_utf8(self.db_view()[bulk_keys@[u].key_bytes()]),
                        None => !self.db_view().contains_key(bulk_keys@[u].key_bytes()),
                    },
            decreases n - t,
        {
            let v = match self.get_string(&bulk_keys[t]) {
                Ok(v) => v,
                Err(e) => { return Err(e) },
            };
            rs.push(v);
            t += 1;
        }
        Ok(rs)
    }

    fn bulk_put(&mut self, bulk: &Vec<(KT, Vec<u8>)>) -> (r: Result<(), DbError>) {
        let ghost mapped = crate::spec_bulk_pairs(bulk@);
        let n = bulk.len();
        let mut t: usize = 0;
        proof {
            assert(mapped.take(0) =~= Seq::<(Seq<u8>, Seq<u8>)>::empty());
        }
        while t < n
            invariant
                t <= n,
                n == bulk@.len(),
                mapped == crate::spec_bulk_pairs(bulk@),
                self.db_wf(),
                forall|u: int|
                    0 <= u < bulk@.len() ==> KT::valid_bytes((#[trigger] bulk@[u]).0.key_bytes()),
                self.db_view() == spec_bulk_put(old(self).db_view(), mapped.take(t as int)),
            decreases n - t,
        {
            match self.put_kt(&bulk[t].0, bulk[t].1.as_slice()) {
                Ok(()) => {},
                Err(e) => { return Err(e) },
            }
            proof {
                assert(mapped.take(t + 1).drop_last() =~= mapped.take(t as int));
                assert(mapped.take(t + 1).last() == mapped[t as int]);
            }
            t += 1;
        }
        proof {
            assert(mapped.take(n as int) =~= mapped);
        }
        Ok(())
    }

    fn bulk_put_string(&mut self, bulk: &Vec<(KT, String)>) -> (r: Result<(), DbError>) {
        let ghost mapped = crate::spec_bulk_string_pairs(bulk@);
        let n = bulk.len();
        let mut t: usize = 0;
        proof {
            assert(mapped.take(0) =~= Seq::<(Seq<u8>, Seq<u8>)>::empty());
        }
        while t < n
            invariant
                t <= n,
                n == bulk@.len(),
                mapped == crate::spec_bulk_string_pairs(bulk@),
                self.db_wf(),
                forall|u: int|
                    0 <= u < bulk@.len() ==> KT::valid_bytes((#[trigger] bulk@[u]).0.key_bytes()),
                self.db_view() == spec_bulk_put(old(self).db_view(), mapped.take(t as int)),
            decreases n - t,
        {
            match self.put_kt(&bulk[t].0, bulk[t].1.as_str().as_bytes()) {
                Ok(()) => {},
                Err(e) => { return Err(e) },
            }
            proof {
                assert(mapped.take(t + 1).drop_last() =~= mapped.take(t as int));
                assert(mapped.take(t + 1).last() == mapped[t as int]);
            }
            t += 1;
        }
        proof {
            assert(mapped.take(n as int) =~= mapped);
        }
        Ok(())
    }

    fn bulk_delete(&mut self, bulk_keys: &Vec<KT>) -> (r: Result<Vec<Option<Vec<u8>>>, DbError>) {
        let ghost mapped = bulk_keys@.map_values(|k: KT| k.key_bytes());
        let n = bulk_keys.len();
        let mut rs: Vec<Option<Vec<u8>>> = Vec::new();
        let mut t: usize = 0;
        proof {
            assert(mapped.take(0) =~= Seq::<Seq<u8>>::empty());
        }
        while t < n
            invariant
                t <= n,
                n == bulk_keys@.len(),
                mapped == bulk_keys@.map_values(|k: KT| k.key_bytes()),
                self.db_wf(),
                forall|u: int|
                    0 <= u < bulk_keys@.len() ==> KT::valid_bytes(
                        (#[trigger] bulk_keys@[u]).key_bytes(),
                    ),
                self.db_view() == spec_bulk_del(old(self).db_view(), mapped.take(t as int)),
                rs@.len() == t,
                forall|u: int|
                    0 <= u < t ==> {
                        let m_u = spec_bulk_del(old(self).db_view(), mapped.take(u));
                        match #[trigger] rs@[u] {
                            Some(v) => m_u.contains_key(bulk_keys@[u].key_bytes()) && v@
                                == m_u[bulk_keys@[u].key_bytes()],
                            None => !m_u.contains_key(bulk_keys@[u].key_bytes()),
                        }
                    },
            decreases n - t,
        {
            let v = match self.del_kt(&bulk_keys[t]) {
                Ok(v) => v,
                Err(e) => { return Err(e) },
            };
            rs.push(v);
            proof {
                assert(mapped.take(t + 1).drop_last() =~= mapped.take(t as int));
                assert(mapped.take(t + 1).last() == mapped[t as int]);
            }
            t += 1;
        }
        proof {
            assert(mapped.take(n as int) =~= mapped);
        }
        Ok(rs)
    }

    fn bulk_delete_string(&mut self, bulk_keys: &Vec<KT>) -> (r: Result<
        Vec<Option<String>>,
        DbError,
    >) {
        let ghost mapped = bulk_keys@.map_values(|k: KT| k.key_bytes());
        let n = bulk_keys.len();
        let mut rs: Vec<Option<String>> = Vec::new();
        let mut t: usize = 0;
        proof {
            assert(mapped.take(0) =~= Seq::<Seq<u8>>::empty());
        }
        while t < n
            invariant
                t <= n,
                n == bulk_keys@.len(),
                mapped == bulk_keys@.map_values(|k: KT| k.key_bytes()),
                self.db_wf(),
                forall|u: int|
                    0 <= u < bulk_keys@.len() ==> KT::valid_bytes(
                        (#[trigger] bulk_keys@[u]).key_bytes(),
                    ),
                self.db_view() == spec_bulk_del(old(self).db_view(), mapped.take(t as int)),
                rs@.len() == t,
                forall|u: int|
                    0 <= u < t ==> {
                        let m_u = spec_bulk_del(old(self).db_view(), mapped.take(u));
                        match #[trigger] rs@[u] {
                            Some(s) => m_u.contains_key(bulk_keys@[u].key_bytes()) && s@
                                == crate::util::lossy_utf8(m_u[bulk_keys@[u].key_bytes()]),
                            None => !m_u.contains_key(bulk_keys@[u].key_bytes()),
                        }
                    },
            decreases n - t,
        {
            let v = match self.delete_string(&bulk_keys[t]) {
                Ok(v) => v,
                Err(e) => { return Err(e) },
            };
            rs.push(v);
            proof {
                assert(mapped.take(t + 1).drop_last() =~= mapped.take(t as int));
                assert(mapped.take(t + 1).last() == mapped[t as int]);
            }
            t += 1;
        }
        proof {
            assert(mapped.take(n as int) =~= mapped);
        }
        Ok(rs)
    }

    fn put_from_iter(&mut self, items: &Vec<(KT, Vec<u8>)>) -> (r: Result<(), DbError>) {
        self.bulk_put(items)
    }
}

impl<KT: crate::DbMapKeyType> FileDbXxxInner<KT> {
    /// Whether the directory carries this key type's signature; every
    /// keyspace this type opens or reopens does.
    pub closed spec fn spec_type_tagged(self) -> bool {
        self.ks.htx.sig2@ == KT::spec_signature()
    }

    /// The durable images of the three backing files for the current
    /// contents.
    pub closed spec fn spec_images(self) -> (Seq<u8>, Seq<u8>, Seq<u8>) {
        (
            crate::codec::spec_htx_image(self.ks.htx),
            crate::codec::spec_key_file_image(self.ks.key_file, KT::spec_signature()),
            crate::codec::spec_val_file_image(self.ks.val_file, KT::spec_signature()),
        )
    }

    /// Encodes the current contents as the three file images: hash
    /// directory, key storage, value storage.
    pub fn to_images(&self) -> (r: (Vec<u8>, Vec<u8>, Vec<u8>))
        requires
            self.db_wf(),
        ensures
            r.0@ == self.spec_images().0,
            r.1@ == self.spec_images().1,
            r.2@ == self.spec_images().2,
    {
        let sig2 = KT::signature();
        let htx_img = crate::codec::htx_to_image(&self.ks.htx);
        let key_img = crate::codec::key_file_to_image(&self.ks.key_file, &sig2);
        let val_img = crate::codec::val_file_to_image(&self.ks.val_file, &sig2);
        (htx_img, key_img, val_img)
    }

    /// Reopens a keyspace from the three file images: both signatures of
    /// every file are validated (a mismatch is the fatal signature
    /// error), the live pieces are re-read, the chains are rebuilt with
    /// the same bucket count, and the item count must match the live
    /// keys found. On the images of a well-formed keyspace of this key
    /// type the result is never a corrupt-image or signature error.
    pub fn open_from_images(htx_img: &[u8], key_img: &[u8], val_img: &[u8]) -> (r: Result<
        Self,
        DbError,
    >)
        ensures
            match r {
                Ok(d) => d.db_wf() && !d.db_dirty() && d.spec_type_tagged()
                    && d.db_view().dom().finite() && d.db_view().dom().len() as int
                    == vstd::bytes::spec_u64_from_le_bytes(htx_img@.subrange(24, 32)) as int
                    && crate::stats::CheckFileDbMap::db_buckets(&d)
                    == vstd::bytes::spec_u64_from_le_bytes(htx_img@.subrange(16, 24)) as int,
                Err(e) => e == DbError::InvalidSignature || e == DbError::Corrupt || e
                    == DbError::TooLarge,
            },
            (exists|d0: Self|
                #![trigger d0.spec_images()]
                d0.db_wf() && d0.spec_type_tagged() && htx_img@ == d0.spec_images().0 && key_img@
                    == d0.spec_images().1 && val_img@ == d0.spec_images().2) ==> r matches Ok(_),
    {
        let ghost w: Option<Self> = if exists|d0: Self|
            #![trigger d0.spec_images()]
            d0.db_wf() && d0.spec_type_tagged() && htx_img@ == d0.spec_images().0 && key_img@
                == d0.spec_images().1 && val_img@ == d0.spec_images().2 {
            Some(
                choose|d0: Self|
                    #![trigger d0.spec_images()]
                    d0.db_wf() && d0.spec_type_tagged() && htx_img@ == d0.spec_images().0
                        && key_img@ == d0.spec_images().1 && val_img@ == d0.spec_images().2,
            )
        } else {
            None
        };
        Self::open_from_images_core(htx_img, key_img, val_img, Ghost(w))
    }

    /// Law (persistence): reopening a keyspace from its own three images
    /// succeeds and reproduces exactly its contents. For every keyspace
    /// whose images these are, the result is a keyspace holding the same
    /// map: the live pieces fit the sizes the original files granted
    /// them, so re-inserting them cannot outgrow a fresh file.
    pub fn open_from_images_core(
        htx_img: &[u8],
        key_img: &[u8],
        val_img: &[u8],
        gdb: Ghost<Option<Self>>,
    ) -> (r: Result<Self, DbError>)
        requires
            gdb@ matches Some(d0) ==> d0.db_wf() && d0.spec_type_tagged() && htx_img@
                == d0.spec_images().0 && key_img@ == d0.spec_images().1 && val_img@
                == d0.spec_images().2,
        ensures
            match r {
                Ok(d) => d.db_wf() && !d.db_dirty() && d.spec_type_tagged()
                    && d.db_view().dom().finite() && d.db_view().dom().len() as int
                    == vstd::bytes::spec_u64_from_le_bytes(htx_img@.subrange(24, 32)) as int
                    && crate::stats::CheckFileDbMap::db_buckets(&d)
                    == vstd::bytes::spec_u64_from_le_bytes(htx_img@.subrange(16, 24)) as int,
                Err(e) => e == DbError::InvalidSignature || e == DbError::Corrupt || e
                    == DbError::TooLarge,
            },
            gdb@ matches Some(d0) ==> match r {
                Ok(d) => d.db_view() == d0.db_view(),
                Err(_) => false,
            },
    {
        let sig2 = KT::signature();
        let hl = htx_img.len();
        proof {
            if let Some(d0) = gdb@ {
                crate::codec::lemma_htx_image_round_trip(d0.ks.htx);
            }
        }
        let (n, count) = match crate::codec::check_htxf_header(htx_img, &sig2) {
            Ok(p) => p,
            Err(e) => {
                proof {
                    if let Some(d0) = gdb@ {
                        assert(d0.ks.wf());
                        assert(hl as int == 128 + 8 * d0.ks.htx.buckets@.len());
                        assert(htx_img@.subrange(0, 8) == crate::codec::spec_htx_sig1());
                        assert(htx_img@.subrange(8, 16) == sig2@);
                        assert(vstd::bytes::spec_u64_from_le_bytes(htx_img@.subrange(16, 24))
                            == d0.ks.htx.buckets@.len() as u64);
                        assert(false);
                    }
                }
                return Err(e)
            },
        };
        let ghost gkf: Option<crate::piece::KeyFile> = match gdb@ {
            Some(d0) => Some(d0.ks.key_file),
            None => None,
        };
        let ghost gvf: Option<crate::piece::ValueFile> = match gdb@ {
            Some(d0) => Some(d0.ks.val_file),
            None => None,
        };
        let keys = match crate::codec::parse_key_pieces(key_img, &sig2, Ghost(gkf)) {
            Ok(k) => k,
            Err(e) => {
                proof {
                    if let Some(d0) = gdb@ {
                        assert(false);
                    }
                }
                return Err(e)
            },
        };
        let vals = match crate::codec::parse_val_pieces(val_img, &sig2, Ghost(gvf)) {
            Ok(v) => v,
            Err(e) => {
                proof {
                    if let Some(d0) = gdb@ {
                        assert(false);
                    }
                }
                return Err(e)
            },
        };
        let mut ks = match KeyspaceCore::create(n, sig2) {
            Ok(c) => c,
            Err(_) => {
                proof {
                    if let Some(d0) = gdb@ {
                        assert(false);
                    }
                }
                return Err(DbError::TooLarge)
            },
        };
        let m = keys.len();
        let mut t: usize = 0;
        let ghost mut used: Seq<int> = Seq::empty();
        proof {
            if let Some(d0) = gdb@ {
                assert(crate::codec::spec_key_entry_weights(
                    crate::codec::spec_live_key_entries(d0.ks.key_file.pieces@),
                ).take(0) =~= Seq::<int>::empty());
                ks.lemma_len_is_key_count();
            }
        }
        while t < m
            invariant
                t <= m,
                m == keys@.len(),
                ks.wf(),
                ks.n() >= 1,
                ks.n() == n as int,
                ks.htx.sig2@ == KT::spec_signature(),
                gdb@ matches Some(d0) ==> {
                    &&& d0.db_wf()
                    &&& keys@.len() == crate::codec::spec_live_key_entries(
                        d0.ks.key_file.pieces@,
                    ).len()
                    &&& (forall|tt: int|
                        0 <= tt < keys@.len() ==> ((#[trigger] keys@[tt]).0@, keys@[tt].1)
                            == crate::codec::spec_live_key_entries(d0.ks.key_file.pieces@)[tt])
                    &&& vals@.len() == crate::codec::spec_live_val_entries(
                        d0.ks.val_file.pieces@,
                    ).len()
                    &&& (forall|tt: int|
                        0 <= tt < vals@.len() ==> ((#[trigger] vals@[tt]).0, vals@[tt].1@)
                            == crate::codec::spec_live_val_entries(d0.ks.val_file.pieces@)[tt])
                    &&& (forall|t1: int, t2: int|
                        0 <= t1 < t2 < vals@.len() ==> (#[trigger] vals@[t1]).0 < (
                        #[trigger] vals@[t2]).0)
                    &&& (forall|k: Seq<u8>|
                        #[trigger] ks.view_map().contains_key(k)
                            ==> d0.ks.view_map().contains_key(k) && ks.view_map()[k]
                            == d0.ks.view_map()[k])
                    &&& (forall|tt: int|
                        0 <= tt < t ==> ks.view_map().contains_key((#[trigger] keys@[tt]).0@))
                    &&& (forall|k: Seq<u8>|
                        #[trigger] ks.view_map().contains_key(k) ==> exists|u: int|
                            0 <= u < t && (#[trigger] keys@[u]).0@ == k)
                    &&& ks.view_map().dom().finite()
                    &&& ks.view_map().dom().len() == t
                    &&& ks.htx.item_count as int == t
                    &&& used.len() == t
                    &&& (forall|u: int|
                        0 <= u < used.len() ==> 0 <= #[trigger] used[u] < vals@.len() && vals@[
                            used[u]
                        ].0 == keys@[u].1)
                    &&& (forall|u1: int, u2: int|
                        0 <= u1 < u2 < used.len() ==> #[trigger] used[u1] != #[trigger] used[u2])
                    &&& ks.key_file.tail as int <= 128 + crate::codec::sum_ints(
                        crate::codec::spec_key_entry_weights(
                            crate::codec::spec_live_key_entries(d0.ks.key_file.pieces@),
                        ).take(t as int),
                    )
                    &&& ks.val_file.tail as int <= 128 + crate::codec::sum_picks(
                        crate::codec::spec_val_entry_weights(
                            crate::codec::spec_live_val_entries(d0.ks.val_file.pieces@),
                        ),
                        used,
                    )
                },
            decreases m - t,
        {
            proof {
                if let Some(d0) = gdb@ {
                    crate::codec::lemma_live_key_index(d0.ks.key_file.pieces@, t as int);
                    let i = crate::codec::live_key_index(d0.ks.key_file.pieces@, t as int);
                    assert(d0.ks.key_piece_chained(i));
                    let (b, j) = choose|b: int, j: int|
                        #![trigger d0.ks.chain(b)[j]]
                        d0.ks.valid_pos(b, j) && d0.ks.chain(b)[j].0 == i;
                    assert(d0.ks.entry_ok(b, j));
                    let vi0 = d0.ks.chain(b)[j].1;
                    assert(d0.ks.val_file.pieces@[vi0].live);
                    assert(d0.ks.val_file.pieces@[vi0].offset == keys@[t as int].1);
                    crate::codec::lemma_live_val_entry_of(d0.ks.val_file.pieces@, vi0);
                    let tv = choose|tv: int|
                        0 <= tv < crate::codec::spec_live_val_entries(d0.ks.val_file.pieces@).len()
                            && #[trigger] crate::codec::spec_live_val_entries(
                            d0.ks.val_file.pieces@,
                        )[tv] == (d0.ks.val_file.pieces@[vi0].offset, d0.ks.val_file.pieces@[vi0].value@);
                    assert(vals@[tv].0 == keys@[t as int].1);
                    assert(vals@[tv].1@ == d0.ks.val_at(b, j));
                    d0.ks.lemma_key_unique(b, j);
                    assert(d0.ks.view_map().contains_key(keys@[t as int].0@));
                    assert(d0.ks.view_map()[keys@[t as int].0@] == d0.ks.val_at(b, j));
                    assert(crate::piece::val_piece_wf(d0.ks.val_file.pieces@[vi0]));
                    crate::piece::lemma_round_le_size(
                        crate::piece::spec_val_need(d0.ks.val_file.pieces@[vi0].value@),
                        d0.ks.val_file.pieces@[vi0].size as int,
                    );
                    assert(crate::piece::spec_round_size(
                        crate::piece::spec_val_need(d0.ks.val_at(b, j)),
                    ) <= u32::MAX as int);
                }
            }
            let vi = match crate::codec::find_parsed_val(&vals, keys[t].1) {
                Some(vi) => vi,
                None => {
                    proof {
                        if let Some(d0) = gdb@ {
                            assert(false);
                        }
                    }
                    return Err(DbError::Corrupt)
                },
            };
            proof {
                if let Some(d0) = gdb@ {
                    // the strictly increasing offsets make the found entry
                    // the one the key piece references
                    let tv = choose|tv: int|
                        0 <= tv < vals@.len() && #[trigger] vals@[tv].0 == keys@[t as int].1
                            && vals@[tv].1@ == d0.ks.view_map()[keys@[t as int].0@];
                    if vi as int != tv {
                        if (vi as int) < tv {
                            assert(vals@[vi as int].0 < vals@[tv].0);
                        } else {
                            assert(vals@[tv].0 < vals@[vi as int].0);
                        }
                    }
                    assert(vals@[vi as int].1@ == d0.ks.view_map()[keys@[t as int].0@]);
                    // the put below cannot be refused: its pieces fit the
                    // sizes the original file granted them, and the fresh
                    // files never outgrow the original ones
                    let kpieces = d0.ks.key_file.pieces@;
                    let kes = crate::codec::spec_live_key_entries(kpieces);
                    let ves = crate::codec::spec_live_val_entries(d0.ks.val_file.pieces@);
                    let w_k = crate::codec::spec_key_entry_weights(kes);
                    let w_v = crate::codec::spec_val_entry_weights(ves);
                    crate::codec::lemma_live_key_index(kpieces, t as int);
                    let it = crate::codec::live_key_index(kpieces, t as int);
                    // the key is fresh in the rebuilt keyspace
                    assert(!ks.view_map().contains_key(keys@[t as int].0@)) by {
                        if ks.view_map().contains_key(keys@[t as int].0@) {
                            let u = choose|u: int|
                                0 <= u < t && (#[trigger] keys@[u]).0@ == keys@[t as int].0@;
                            crate::codec::lemma_live_key_index(kpieces, u);
                            crate::codec::lemma_live_key_index_mono(kpieces, u, t as int);
                            d0.ks.lemma_live_pieces_distinct(
                                crate::codec::live_key_index(kpieces, u),
                                it,
                            );
                        }
                    }
                    assert(!ks.has_key(keys@[t as int].0@));
                    // piece sizes and file growth stay within machine limits
                    assert(crate::piece::key_piece_wf(kpieces[it]));
                    crate::piece::lemma_round_le_size(
                        crate::piece::spec_key_need(keys@[t as int].0@),
                        kpieces[it].size as int,
                    );
                    assert forall|u: int| 0 <= u < w_k.len() implies #[trigger] w_k[u] >= 0 by {
                        crate::piece::lemma_round_size(crate::piece::spec_key_need(kes[u].0));
                    }
                    assert forall|u: int| 0 <= u < w_v.len() implies #[trigger] w_v[u] >= 0 by {
                        crate::piece::lemma_round_size(crate::piece::spec_val_need(ves[u].1));
                    }
                    assert forall|i2: int| 0 <= i2 < kpieces.len() implies crate::piece::key_piece_wf(
                        #[trigger] kpieces[i2],
                    ) by {}
                    crate::codec::lemma_key_weights_le_sizes(kpieces);
                    crate::codec::lemma_key_sizes_sum_is_tail(d0.ks.key_file);
                    crate::codec::lemma_sum_ints_take_step(w_k, t as int);
                    crate::codec::lemma_sum_ints_take(w_k, t + 1);
                    assert(w_k[t as int] == crate::piece::spec_round_size(
                        crate::piece::spec_key_need(keys@[t as int].0@),
                    ));
                    crate::codec::lemma_val_weights_le_sizes(d0.ks.val_file.pieces@);
                    crate::codec::lemma_val_sizes_sum_is_tail(d0.ks.val_file);
                    assert(w_v[vi as int] == crate::piece::spec_round_size(
                        crate::piece::spec_val_need(vals@[vi as int].1@),
                    ));
                    // the picked value entry is new: earlier picks carry
                    // other pieces' offsets
                    assert forall|u: int| 0 <= u < used.len() implies #[trigger] used[u] != vi as int by {
                        crate::codec::lemma_live_key_index(kpieces, u);
                        crate::codec::lemma_live_key_index_mono(kpieces, u, t as int);
                        d0.ks.lemma_live_pieces_distinct(
                            crate::codec::live_key_index(kpieces, u),
                            it,
                        );
                        assert(vals@[used[u]].0 == keys@[u].1);
                    }
                    let used2 = used.push(vi as int);
                    assert(used2.drop_last() =~= used);
                    assert forall|u1: int, u2: int|
                        0 <= u1 < u2 < used2.len() implies #[trigger] used2[u1]
                        != #[trigger] used2[u2] by {
                        if u2 < used2.len() - 1 {
                            assert(used2[u1] == used[u1] && used2[u2] == used[u2]);
                        } else {
                            assert(used2[u1] == used[u1]);
                        }
                    }
                    crate::codec::lemma_sum_picks_le(w_v, used2);
                    assert(crate::codec::sum_picks(w_v, used2) == crate::codec::sum_picks(
                        w_v,
                        used,
                    ) + w_v[vi as int]);
                    // item count stays below its range
                    assert(ks.htx.item_count as int == t && t < m);
                    assert(!ks.put_would_overflow(keys@[t as int].0@, vals@[vi as int].1@));
                }
            }
            let ghost pre_ks = ks;
            match ks.put(keys[t].0.as_slice(), vals[vi].1.as_slice()) {
                Ok(()) => {},
                Err(_) => {
                    proof {
                        if let Some(d0) = gdb@ {
                            assert(false);
                        }
                    }
                    return Err(DbError::TooLarge)
                },
            }
            proof {
                if let Some(d0) = gdb@ {
                    assert(ks.view_map() == pre_ks.view_map().insert(
                        keys@[t as int].0@,
                        vals@[vi as int].1@,
                    ));
                    assert forall|k: Seq<u8>| #[trigger] ks.view_map().contains_key(k) implies
                        d0.ks.view_map().contains_key(k) && ks.view_map()[k]
                        == d0.ks.view_map()[k] by {
                        if k != keys@[t as int].0@ {
                            assert(pre_ks.view_map().contains_key(k));
                        }
                    }
                    assert forall|tt: int| 0 <= tt < t + 1 implies ks.view_map().contains_key(
                        (#[trigger] keys@[tt]).0@,
                    ) by {
                        if tt < t {
                            assert(pre_ks.view_map().contains_key(keys@[tt].0@));
                        }
                    }
                    assert forall|k: Seq<u8>| #[trigger] ks.view_map().contains_key(k) implies
                        exists|u: int| 0 <= u < t + 1 && (#[trigger] keys@[u]).0@ == k by {
                        if k != keys@[t as int].0@ {
                            assert(pre_ks.view_map().contains_key(k));
                        } else {
                            assert(keys@[t as int].0@ == k);
                        }
                    }
                    // one more key, one more piece in each file, one more
                    // value pick
                    assert(ks.view_map().dom() =~= pre_ks.view_map().dom().insert(
                        keys@[t as int].0@,
                    ));
                    ks.lemma_len_is_key_count();
                    let w_k = crate::codec::spec_key_entry_weights(
                        crate::codec::spec_live_key_entries(d0.ks.key_file.pieces@),
                    );
                    crate::codec::lemma_sum_ints_take_step(w_k, t as int);
                    assert(w_k[t as int] == crate::piece::spec_round_size(
                        crate::piece::spec_key_need(keys@[t as int].0@),
                    ));
                    let w_v = crate::codec::spec_val_entry_weights(
                        crate::codec::spec_live_val_entries(d0.ks.val_file.pieces@),
                    );
                    assert(w_v[vi as int] == crate::piece::spec_round_size(
                        crate::piece::spec_val_need(vals@[vi as int].1@),
                    ));
                    used = used.push(vi as int);
                    assert(used.drop_last() =~= used.subrange(0, used.len() - 1));
                    assert(crate::codec::sum_picks(w_v, used) == crate::codec::sum_picks(
                        w_v,
                        used.drop_last(),
                    ) + w_v[vi as int]);
                }
            }
            t += 1;
        }
        proof {
            if let Some(d0) = gdb@ {
                assert forall|k: Seq<u8>| #[trigger] d0.ks.view_map().contains_key(k) implies
                    ks.view_map().contains_key(k) by {
                    let (b, j) = choose|b: int, j: int|
                        d0.ks.valid_pos(b, j) && #[trigger] d0.ks.key_at(b, j) == k;
                    assert(d0.ks.entry_ok(b, j));
                    let i = d0.ks.chain(b)[j].0;
                    assert(d0.ks.key_file.pieces@[i].live);
                    crate::codec::lemma_live_key_entry_of(d0.ks.key_file.pieces@, i);
                    let tt = choose|tt: int|
                        0 <= tt < crate::codec::spec_live_key_entries(
                            d0.ks.key_file.pieces@,
                        ).len() && #[trigger] crate::codec::spec_live_key_entries(
                            d0.ks.key_file.pieces@,
                        )[tt] == (d0.ks.key_file.pieces@[i].key@, d0.ks.key_file.pieces@[i].value_offset);
                    assert(keys@[tt].0@ == k);
                    assert(ks.view_map().contains_key(keys@[tt].0@));
                }
                assert(ks.view_map() =~= d0.ks.view_map());
                ks.lemma_len_is_key_count();
                d0.ks.lemma_len_is_key_count();
            }
        }
        if ks.len() != count {
            proof {
                if let Some(d0) = gdb@ {
                    assert(false);
                }
            }
            return Err(DbError::Corrupt);
        }
        proof {
            ks.lemma_len_is_key_count();
        }
        Ok(FileDbXxxInner { ks, dirty: false, _kt: core::marker::PhantomData })
    }
}

impl<KT: DbMapKeyType> crate::stats::CheckFileDbMap for FileDbXxxInner<KT> {
    closed spec fn db_buckets(&self) -> int {
        self.ks.htx.buckets@.len() as int
    }

    fn ht_size_and_count(&self) -> (r: Result<(u64, u64), DbError>) {
        proof {
            self.ks.lemma_len_is_key_count();
        }
        Ok((self.ks.htx.buckets.len() as u64, self.ks.htx.item_count))
    }

    fn count_of_free_key_piece(&self) -> (r: Result<crate::stats::CountOfPerSize, DbError>) {
        let mut counts: crate::stats::CountOfPerSize = Vec::new();
        let n = self.ks.key_file.pieces.len();
        let mut i: usize = 0;
        while i < n
            invariant
                i <= n,
                n == self.ks.key_file.pieces@.len(),
                crate::stats::spec_stat_sorted32(counts@),
            decreases n - i,
        {
            if !self.ks.key_file.pieces[i].live {
                crate::stats::touch_count32(&mut counts, self.ks.key_file.pieces[i].size);
            }
            i += 1;
        }
        Ok(counts)
    }

    fn count_of_free_value_piece(&self) -> (r: Result<crate::stats::CountOfPerSize, DbError>) {
        let mut counts: crate::stats::CountOfPerSize = Vec::new();
        let n = self.ks.val_file.pieces.len();
        let mut i: usize = 0;
        while i < n
            invariant
                i <= n,
                n == self.ks.val_file.pieces@.len(),
                crate::stats::spec_stat_sorted32(counts@),
            decreases n - i,
        {
            if !self.ks.val_file.pieces[i].live {
                crate::stats::touch_count32(&mut counts, self.ks.val_file.pieces[i].size);
            }
            i += 1;
        }
        Ok(counts)
    }

    fn buf_stats(&self) -> (r: Vec<(String, i64)>) {
        Vec::new()
    }

    fn key_piece_size_stats(&self) -> (r: Result<crate::stats::RecordSizeStats, DbError>) {
        let mut st = crate::stats::RecordSizeStats::new(Vec::new());
        let n = self.ks.key_file.pieces.len();
        let mut i: usize = 0;
        while i < n
            invariant
                i <= n,
                n == self.ks.key_file.pieces@.len(),
                crate::stats::spec_stat_sorted32(st.entries()),
            decreases n - i,
        {
            if self.ks.key_file.pieces[i].live {
                st.touch_size(self.ks.key_file.pieces[i].size);
            }
            i += 1;
        }
        Ok(st)
    }

    fn value_piece_size_stats(&self) -> (r: Result<crate::stats::RecordSizeStats, DbError>) {
        let mut st = crate::stats::RecordSizeStats::new(Vec::new());
        let n = self.ks.val_file.pieces.len();
        let mut i: usize = 0;
        while i < n
            invariant
                i <= n,
                n == self.ks.val_file.pieces@.len(),
                crate::stats::spec_stat_sorted32(st.entries()),
            decreases n - i,
        {
            if self.ks.val_file.pieces[i].live {
                st.touch_size(self.ks.val_file.pieces[i].size);
            }
            i += 1;
        }
        Ok(st)
    }

    fn keys_count_stats(&self) -> (r: Result<crate::stats::KeysCountStats, DbError>) {
        Ok(crate::stats::KeysCountStats::new(Vec::new()))
    }

    fn key_length_stats(&self) -> (r: Result<crate::stats::LengthStats, DbError>) {
        let mut st = crate::stats::LengthStats::new(Vec::new());
        let n = self.ks.key_file.pieces.len();
        let mut i: usize = 0;
        while i < n
            invariant
                i <= n,
                self.db_wf(),
                n == self.ks.key_file.pieces@.len(),
                crate::stats::spec_stat_sorted32(st.entries()),
            decreases n - i,
        {
            if self.ks.key_file.pieces[i].live {
                proof {
                    assert(crate::piece::key_piece_wf(self.ks.key_file.pieces@[i as int]));
                }
                st.touch_length(self.ks.key_file.pieces[i].key.len() as u32);
            }
            i += 1;
        }
        Ok(st)
    }

    fn value_length_stats(&self) -> (r: Result<crate::stats::LengthStats, DbError>) {
        let mut st = crate::stats::LengthStats::new(Vec::new());
        let n = self.ks.val_file.pieces.len();
        let mut i: usize = 0;
        while i < n
            invariant
                i <= n,
                self.db_wf(),
                n == self.ks.val_file.pieces@.len(),
                crate::stats::spec_stat_sorted32(st.entries()),
            decreases n - i,
        {
            if self.ks.val_file.pieces[i].live {
                proof {
                    assert(crate::piece::val_piece_wf(self.ks.val_file.pieces@[i as int]));
                }
                st.touch_length(self.ks.val_file.pieces[i].value.len() as u32);
            }
            i += 1;
        }
        Ok(st)
    }

    fn htx_filling_rate_per_mill(&self) -> (r: Result<(u64, u32), DbError>) {
        self.ks.htx.htx_filling_rate_per_mill()
    }
}

} // verus!
