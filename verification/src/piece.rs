//! Piece-based storage: each storage file is a contiguous run of
//! variable-length records ("pieces") starting right after a 128-byte file
//! header. A piece carries its allocated size (a multiple of 8, at least 16
//! bytes) and is either live or free; freed pieces go on a free list and are
//! reused by later allocations of the same or a smaller rounded size before
//! the file grows at its tail.
use crate::varint::vu64_bytes;
use vstd::prelude::*;

verus! {

/// Offset of the first piece in a storage file: the byte after its header.
pub const PIECE_START: u64 = 128;

/// A key piece: the raw key bytes, a pointer to the value piece holding the
/// key's value, and a pointer to the next key piece of the same hash bucket
/// (0 at the end of the chain).
#[derive(Debug)]
pub struct KeyPiece {
    pub(crate) offset: u64,
    pub(crate) size: u32,
    pub(crate) live: bool,
    pub(crate) key: Vec<u8>,
    pub(crate) value_offset: u64,
    pub(crate) bucket_next_offset: u64,
}

/// A value piece: the raw value bytes.
#[derive(Debug)]
pub struct ValuePiece {
    pub(crate) offset: u64,
    pub(crate) size: u32,
    pub(crate) live: bool,
    pub(crate) value: Vec<u8>,
}

/// Rounds an encoded byte count up to a piece size: a multiple of 8, at
/// least 16.
pub open spec fn spec_round_size(need: int) -> int {
    if need <= 16 {
        16
    } else {
        ((need + 7) / 8) * 8
    }
}

/// The rounded size is the least piece size: any piece big enough for
/// the need is at least the rounding.
pub(crate) proof fn lemma_round_le_size(need: int, size: int)
    requires
        need <= size,
        size >= 16,
        size % 8 == 0,
    ensures
        spec_round_size(need) <= size,
{
}

pub(crate) proof fn lemma_round_size(need: int)
    ensures
        spec_round_size(need) >= need,
        spec_round_size(need) >= 16,
        spec_round_size(need) % 8 == 0,
        need <= u32::MAX - 7 ==> spec_round_size(need) <= u32::MAX,
{
}

/// Encoded size of a key piece: size word (4), live flag (1), key length as
/// a variable-length integer, value offset (8), bucket next offset (8), and
/// the key bytes.
pub open spec fn spec_key_need(key: Seq<u8>) -> int {
    21 + vu64_bytes(key.len() as u64).len() + key.len() as int
}

/// Encoded size of a value piece: size word (4), live flag (1), value
/// length as a variable-length integer, and the value bytes.
pub open spec fn spec_val_need(value: Seq<u8>) -> int {
    5 + vu64_bytes(value.len() as u64).len() + value.len() as int
}

pub(crate) open spec fn key_piece_wf(p: KeyPiece) -> bool {
    &&& p.size >= 16
    &&& p.size as int % 8 == 0
    &&& p.offset >= PIECE_START
    &&& (p.live ==> spec_key_need(p.key@) <= p.size as int)
}

pub(crate) open spec fn val_piece_wf(p: ValuePiece) -> bool {
    &&& p.size >= 16
    &&& p.size as int % 8 == 0
    &&& p.offset >= PIECE_START
    &&& (p.live ==> spec_val_need(p.value@) <= p.size as int)
}

/// The key storage file: pieces in offset order partitioning
/// `[PIECE_START, tail)`, with a free list of dead piece indices.
#[derive(Debug)]
pub struct KeyFile {
    pub(crate) pieces: Vec<KeyPiece>,
    pub(crate) free: Vec<usize>,
    pub(crate) tail: u64,
}

/// The value storage file, organized exactly as the key storage file.
#[derive(Debug)]
pub struct ValueFile {
    pub(crate) pieces: Vec<ValuePiece>,
    pub(crate) free: Vec<usize>,
    pub(crate) tail: u64,
}

impl KeyFile {
    pub(crate) open spec fn wf(self) -> bool {
        &&& forall|i: int|
            0 <= i < self.pieces@.len() ==> key_piece_wf(#[trigger] self.pieces@[i])
        &&& (self.pieces@.len() == 0 ==> self.tail == PIECE_START)
        &&& (self.pieces@.len() > 0 ==> self.pieces@[0].offset == PIECE_START
            && self.tail as int == self.pieces@.last().offset + self.pieces@.last().size)
        &&& forall|i: int|
            0 <= i && i + 1 < self.pieces@.len() ==> (#[trigger] self.pieces@[i
                + 1].offset) as int == self.pieces@[i].offset + self.pieces@[i].size
        &&& forall|t: int|
            0 <= t < self.free@.len() ==> (#[trigger] self.free@[t]) < self.pieces@.len()
                && !self.pieces@[self.free@[t] as int].live
        &&& forall|t1: int, t2: int|
            0 <= t1 < t2 < self.free@.len() ==> #[trigger] self.free@[t1] != #[trigger] self.free@[t2]
    }

    pub(crate) fn new() -> (r: Self)
        ensures
            r.wf(),
            r.pieces@.len() == 0,
            r.tail == PIECE_START,
    {
        KeyFile { pieces: Vec::new(), free: Vec::new(), tail: PIECE_START }
    }

    /// Offsets strictly increase along the piece vector.
    pub(crate) proof fn lemma_offsets_increase(self, i: int, j: int)
        requires
            self.wf(),
            0 <= i < j < self.pieces@.len(),
        ensures
            self.pieces@[i].offset + self.pieces@[i].size <= self.pieces@[j].offset,
        decreases j - i,
    {
        assert(self.pieces@[i + 1].offset as int == self.pieces@[i].offset + self.pieces@[i].size);
        if j == i + 1 {
        } else {
            self.lemma_offsets_increase(i + 1, j);
            assert(self.pieces@[i + 1].offset as int >= self.pieces@[i].offset + self.pieces@[i].size);
        }
    }

    /// A piece is determined by its offset.
    pub(crate) proof fn lemma_offset_unique(self, i: int, j: int)
        requires
            self.wf(),
            0 <= i < self.pieces@.len(),
            0 <= j < self.pieces@.len(),
            self.pieces@[i].offset == self.pieces@[j].offset,
        ensures
            i == j,
    {
        if i < j {
            self.lemma_offsets_increase(i, j);
        } else if j < i {
            self.lemma_offsets_increase(j, i);
        }
    }

    /// Every piece lies below the tail.
    pub(crate) proof fn lemma_below_tail(self, i: int)
        requires
            self.wf(),
            0 <= i < self.pieces@.len(),
        ensures
            self.pieces@[i].offset + self.pieces@[i].size <= self.tail,
    {
        if i < self.pieces@.len() - 1 {
            self.lemma_offsets_increase(i, self.pieces@.len() - 1);
        }
    }

    /// Finds the piece stored at a given offset by binary search.
    pub(crate) fn find_piece(&self, off: u64) -> (r: Option<usize>)
        requires
            self.wf(),
        ensures
            match r {
                Some(i) => i < self.pieces@.len() && self.pieces@[i as int].offset == off,
                None => forall|i: int|
                    0 <= i < self.pieces@.len() ==> (#[trigger] self.pieces@[i].offset) != off,
            },
    {
        let mut lo: usize = 0;
        let mut hi: usize = self.pieces.len();
        while lo < hi
            invariant
                self.wf(),
                lo <= hi <= self.pieces@.len(),
                forall|i: int| 0 <= i < lo ==> (#[trigger] self.pieces@[i].offset) < off,
                forall|i: int|
                    hi <= i < self.pieces@.len() ==> (#[trigger] self.pieces@[i].offset) > off,
            decreases hi - lo,
        {
            let mid = lo + (hi - lo) / 2;
            let po = self.pieces[mid].offset;
            if po == off {
                return Some(mid);
            } else if po < off {
                proof {
                    assert forall|i: int| 0 <= i < mid + 1 implies (
                    #[trigger] self.pieces@[i].offset) < off by {
                        if i < mid {
                            self.lemma_offsets_increase(i, mid as int);
                        }
                    }
                }
                lo = mid + 1;
            } else {
                proof {
                    assert forall|i: int| mid <= i < self.pieces@.len() implies (
                    #[trigger] self.pieces@[i].offset) > off by {
                        if mid < i {
                            self.lemma_offsets_increase(mid as int, i);
                        }
                    }
                }
                hi = mid;
            }
        }
        None
    }

    /// Allocates a live key piece, reusing a free piece that is large
    /// enough before growing the file at its tail.
    pub(crate) fn add_piece(
        &mut self,
        key: &[u8],
        value_offset: u64,
        bucket_next_offset: u64,
        size: u32,
    ) -> (r: (u64, usize))
        requires
            old(self).wf(),
            size as int == spec_round_size(spec_key_need(key@)),
            old(self).tail + size <= u64::MAX,
        ensures
            final(self).wf(),
            final(self).tail >= old(self).tail,
            final(self).tail <= old(self).tail + size,
            ({
                let (off, i) = r;
                &&& (i as int) < final(self).pieces@.len()
                &&& (final(self).pieces@.len() == old(self).pieces@.len() || final(self).pieces@.len() == old(
                    self,
                ).pieces@.len() + 1)
                &&& forall|t: int|
                    0 <= t < final(self).pieces@.len() && t != i as int ==> t < old(self).pieces@.len()
                        && final(self).pieces@[t] == old(self).pieces@[t]
                &&& final(self).pieces@[i as int].offset == off
                &&& final(self).pieces@[i as int].live
                &&& final(self).pieces@[i as int].key@ == key@
                &&& final(self).pieces@[i as int].value_offset == value_offset
                &&& final(self).pieces@[i as int].bucket_next_offset == bucket_next_offset
                &&& ((i as int) < old(self).pieces@.len() ==> !old(self).pieces@[i as int].live)
                &&& off != 0
            }),
    {
        proof {
            assert(spec_key_need(key@) >= 21);
            lemma_round_size(spec_key_need(key@));
        }
        let mut t: usize = 0;
        while t < self.free.len()
            invariant
                self.wf(),
                *self == *old(self),
                spec_key_need(key@) <= size as int,
            decreases self.free@.len() - t,
        {
            let i = self.free[t];
            if self.pieces[i].size >= size {
                proof {
                    assert(key_piece_wf(old(self).pieces@[i as int]));
                }
                let off = self.pieces[i].offset;
                let piece = KeyPiece {
                    offset: off,
                    size: self.pieces[i].size,
                    live: true,
                    key: vstd::slice::slice_to_vec(key),
                    value_offset,
                    bucket_next_offset,
                };
                self.pieces[i] = piece;
                self.free.remove(t);
                proof {
                    assert forall|t1: int, t2: int|
                        0 <= t1 < t2 < self.free@.len() implies #[trigger] self.free@[t1]
                        != #[trigger] self.free@[t2] by {
                        let m1 = if t1 < t as int { t1 } else { t1 + 1 };
                        let m2 = if t2 < t as int { t2 } else { t2 + 1 };
                        assert(old(self).free@[m1] == self.free@[t1]);
                        assert(old(self).free@[m2] == self.free@[t2]);
                    }
                    assert forall|tf: int| 0 <= tf < self.free@.len() implies (
                    #[trigger] self.free@[tf]) < self.pieces@.len()
                        && !self.pieces@[self.free@[tf] as int].live by {
                        let m = if tf < t as int { tf } else { tf + 1 };
                        assert(old(self).free@[m] == self.free@[tf]);
                        assert(old(self).free@[m] != old(self).free@[t as int]);
                    }
                    assert(key_piece_wf(self.pieces@[i as int]));
                }
                return (off, i);
            }
            t += 1;
        }
        // grow at the tail
        let off = self.tail;
        let piece = KeyPiece {
            offset: off,
            size,
            live: true,
            key: vstd::slice::slice_to_vec(key),
            value_offset,
            bucket_next_offset,
        };
        self.tail = self.tail + size as u64;
        let i = self.pieces.len();
        self.pieces.push(piece);
        (off, i)
    }

    /// Rewrites the value-piece pointer of a live key piece in place; the
    /// piece keeps its offset and size, so the rewrite never relocates it.
    pub(crate) fn set_value_offset(&mut self, i: usize, value_offset: u64)
        requires
            old(self).wf(),
            (i as int) < old(self).pieces@.len(),
            old(self).pieces@[i as int].live,
        ensures
            final(self).wf(),
            final(self).pieces@.len() == old(self).pieces@.len(),
            final(self).tail == old(self).tail,
            forall|t: int|
                0 <= t < final(self).pieces@.len() && t != i as int ==> final(self).pieces@[t] == old(
                    self,
                ).pieces@[t],
            final(self).pieces@[i as int].offset == old(self).pieces@[i as int].offset,
            final(self).pieces@[i as int].size == old(self).pieces@[i as int].size,
            final(self).pieces@[i as int].live,
            final(self).pieces@[i as int].key@ == old(self).pieces@[i as int].key@,
            final(self).pieces@[i as int].value_offset == value_offset,
            final(self).pieces@[i as int].bucket_next_offset == old(self).pieces@[
                i as int
            ].bucket_next_offset,
    {
        let piece = KeyPiece {
            offset: self.pieces[i].offset,
            size: self.pieces[i].size,
            live: true,
            key: vstd::slice::slice_to_vec(self.pieces[i].key.as_slice()),
            value_offset,
            bucket_next_offset: self.pieces[i].bucket_next_offset,
        };
        self.pieces[i] = piece;
    }

    /// Rewrites the bucket-chain pointer of a live key piece in place; the
    /// piece keeps its offset and size, so the rewrite never relocates it.
    pub(crate) fn set_bucket_next(&mut self, i: usize, bucket_next_offset: u64)
        requires
            old(self).wf(),
            (i as int) < old(self).pieces@.len(),
            old(self).pieces@[i as int].live,
        ensures
            final(self).wf(),
            final(self).pieces@.len() == old(self).pieces@.len(),
            final(self).tail == old(self).tail,
            forall|t: int|
                0 <= t < final(self).pieces@.len() && t != i as int ==> final(self).pieces@[t] == old(
                    self,
                ).pieces@[t],
            final(self).pieces@[i as int].offset == old(self).pieces@[i as int].offset,
            final(self).pieces@[i as int].size == old(self).pieces@[i as int].size,
            final(self).pieces@[i as int].live,
            final(self).pieces@[i as int].key@ == old(self).pieces@[i as int].key@,
            final(self).pieces@[i as int].value_offset == old(self).pieces@[
                i as int
            ].value_offset,
            final(self).pieces@[i as int].bucket_next_offset == bucket_next_offset,
    {
        let piece = KeyPiece {
            offset: self.pieces[i].offset,
            size: self.pieces[i].size,
            live: true,
            key: vstd::slice::slice_to_vec(self.pieces[i].key.as_slice()),
            value_offset: self.pieces[i].value_offset,
            bucket_next_offset,
        };
        self.pieces[i] = piece;
    }

    /// Returns a live key piece to the free list.
    pub(crate) fn free_piece(&mut self, i: usize)
        requires
            old(self).wf(),
            (i as int) < old(self).pieces@.len(),
            old(self).pieces@[i as int].live,
        ensures
            final(self).wf(),
            final(self).pieces@.len() == old(self).pieces@.len(),
            final(self).tail == old(self).tail,
            forall|t: int|
                0 <= t < final(self).pieces@.len() && t != i as int ==> final(self).pieces@[t] == old(
                    self,
                ).pieces@[t],
            !final(self).pieces@[i as int].live,
            final(self).pieces@[i as int].offset == old(self).pieces@[i as int].offset,
            final(self).pieces@[i as int].size == old(self).pieces@[i as int].size,
    {
        let piece = KeyPiece {
            offset: self.pieces[i].offset,
            size: self.pieces[i].size,
            live: false,
            key: Vec::new(),
            value_offset: 0,
            bucket_next_offset: 0,
        };
        self.pieces[i] = piece;
        self.free.push(i);
        proof {
            assert forall|t1: int, t2: int|
                0 <= t1 < t2 < self.free@.len() implies #[trigger] self.free@[t1]
                != #[trigger] self.free@[t2] by {
                if t2 == self.free@.len() - 1 {
                    assert(!old(self).pieces@[old(self).free@[t1] as int].live);
                }
            }
        }
    }
}

impl ValueFile {
    pub(crate) open spec fn wf(self) -> bool {
        &&& forall|i: int|
            0 <= i < self.pieces@.len() ==> val_piece_wf(#[trigger] self.pieces@[i])
        &&& (self.pieces@.len() == 0 ==> self.tail == PIECE_START)
        &&& (self.pieces@.len() > 0 ==> self.pieces@[0].offset == PIECE_START
            && self.tail as int == self.pieces@.last().offset + self.pieces@.last().size)
        &&& forall|i: int|
            0 <= i && i + 1 < self.pieces@.len() ==> (#[trigger] self.pieces@[i
                + 1].offset) as int == self.pieces@[i].offset + self.pieces@[i].size
        &&& forall|t: int|
            0 <= t < self.free@.len() ==> (#[trigger] self.free@[t]) < self.pieces@.len()
                && !self.pieces@[self.free@[t] as int].live
        &&& forall|t1: int, t2: int|
            0 <= t1 < t2 < self.free@.len() ==> #[trigger] self.free@[t1] != #[trigger] self.free@[t2]
    }

    pub(crate) fn new() -> (r: Self)
        ensures
            r.wf(),
            r.pieces@.len() == 0,
            r.tail == PIECE_START,
    {
        ValueFile { pieces: Vec::new(), free: Vec::new(), tail: PIECE_START }
    }

    pub(crate) proof fn lemma_offsets_increase(self, i: int, j: int)
        requires
            self.wf(),
            0 <= i < j < self.pieces@.len(),
        ensures
            self.pieces@[i].offset + self.pieces@[i].size <= self.pieces@[j].offset,
        decreases j - i,
    {
        assert(self.pieces@[i + 1].offset as int == self.pieces@[i].offset + self.pieces@[i].size);
        if j == i + 1 {
        } else {
            self.lemma_offsets_increase(i + 1, j);
            assert(self.pieces@[i + 1].offset as int >= self.pieces@[i].offset + self.pieces@[i].size);
        }
    }

    pub(crate) proof fn lemma_offset_unique(self, i: int, j: int)
        requires
            self.wf(),
            0 <= i < self.pieces@.len(),
            0 <= j < self.pieces@.len(),
            self.pieces@[i].offset == self.pieces@[j].offset,
        ensures
            i == j,
    {
        if i < j {
            self.lemma_offsets_increase(i, j);
        } else if j < i {
            self.lemma_offsets_increase(j, i);
        }
    }

    /// Every piece lies below the tail.
    pub(crate) proof fn lemma_below_tail(self, i: int)
        requires
            self.wf(),
            0 <= i < self.pieces@.len(),
        ensures
            self.pieces@[i].offset + self.pieces@[i].size <= self.tail,
    {
        if i < self.pieces@.len() - 1 {
            self.lemma_offsets_increase(i, self.pieces@.len() - 1);
        }
    }

    pub(crate) fn find_piece(&self, off: u64) -> (r: Option<usize>)
        requires
            self.wf(),
        ensures
            match r {
                Some(i) => i < self.pieces@.len() && self.pieces@[i as int].offset == off,
                None => forall|i: int|
                    0 <= i < self.pieces@.len() ==> (#[trigger] self.pieces@[i].offset) != off,
            },
    {
        let mut lo: usize = 0;
        let mut hi: usize = self.pieces.len();
        while lo < hi
            invariant
                self.wf(),
                lo <= hi <= self.pieces@.len(),
                forall|i: int| 0 <= i < lo ==> (#[trigger] self.pieces@[i].offset) < off,
                forall|i: int|
                    hi <= i < self.pieces@.len() ==> (#[trigger] self.pieces@[i].offset) > off,
            decreases hi - lo,
        {
            let mid = lo + (hi - lo) / 2;
            let po = self.pieces[mid].offset;
            if po == off {
                return Some(mid);
            } else if po < off {
                proof {
                    assert forall|i: int| 0 <= i < mid + 1 implies (
                    #[trigger] self.pieces@[i].offset) < off by {
                        if i < mid {
                            self.lemma_offsets_increase(i, mid as int);
                        }
                    }
                }
                lo = mid + 1;
            } else {
                proof {
                    assert forall|i: int| mid <= i < self.pieces@.len() implies (
                    #[trigger] self.pieces@[i].offset) > off by {
                        if mid < i {
                            self.lemma_offsets_increase(mid as int, i);
                        }
                    }
                }
                hi = mid;
            }
        }
        None
    }

    /// Allocates a live value piece, reusing a free piece that is large
    /// enough before growing the file at its tail.
    pub(crate) fn add_piece(&mut self, value: &[u8], size: u32) -> (r: (u64, usize))
        requires
            old(self).wf(),
            size as int == spec_round_size(spec_val_need(value@)),
            old(self).tail + size <= u64::MAX,
        ensures
            final(self).wf(),
            final(self).tail >= old(self).tail,
            final(self).tail <= old(self).tail + size,
            ({
                let (off, i) = r;
                &&& (i as int) < final(self).pieces@.len()
                &&& (final(self).pieces@.len() == old(self).pieces@.len() || final(self).pieces@.len() == old(
                    self,
                ).pieces@.len() + 1)
                &&& forall|t: int|
                    0 <= t < final(self).pieces@.len() && t != i as int ==> t < old(self).pieces@.len()
                        && final(self).pieces@[t] == old(self).pieces@[t]
                &&& final(self).pieces@[i as int].offset == off
                &&& final(self).pieces@[i as int].live
                &&& final(self).pieces@[i as int].value@ == value@
                &&& ((i as int) < old(self).pieces@.len() ==> !old(self).pieces@[i as int].live)
                &&& off != 0
            }),
    {
        proof {
            assert(spec_val_need(value@) >= 5);
            lemma_round_size(spec_val_need(value@));
        }
        let mut t: usize = 0;
        while t < self.free.len()
            invariant
                self.wf(),
                *self == *old(self),
                spec_val_need(value@) <= size as int,
            decreases self.free@.len() - t,
        {
            let i = self.free[t];
            if self.pieces[i].size >= size {
                proof {
                    assert(val_piece_wf(old(self).pieces@[i as int]));
                }
                let off = self.pieces[i].offset;
                let piece = ValuePiece {
                    offset: off,
                    size: self.pieces[i].size,
                    live: true,
                    value: vstd::slice::slice_to_vec(value),
                };
                self.pieces[i] = piece;
                self.free.remove(t);
                proof {
                    assert forall|t1: int, t2: int|
                        0 <= t1 < t2 < self.free@.len() implies #[trigger] self.free@[t1]
                        != #[trigger] self.free@[t2] by {
                        let m1 = if t1 < t as int { t1 } else { t1 + 1 };
                        let m2 = if t2 < t as int { t2 } else { t2 + 1 };
                        assert(old(self).free@[m1] == self.free@[t1]);
                        assert(old(self).free@[m2] == self.free@[t2]);
                    }
                    assert forall|tf: int| 0 <= tf < self.free@.len() implies (
                    #[trigger] self.free@[tf]) < self.pieces@.len()
                        && !self.pieces@[self.free@[tf] as int].live by {
                        let m = if tf < t as int { tf } else { tf + 1 };
                        assert(old(self).free@[m] == self.free@[tf]);
                        assert(old(self).free@[m] != old(self).free@[t as int]);
                    }
                    assert(val_piece_wf(self.pieces@[i as int]));
                }
                return (off, i);
            }
            t += 1;
        }
        let off = self.tail;
        let piece = ValuePiece {
            offset: off,
            size,
            live: true,
            value: vstd::slice::slice_to_vec(value),
        };
        self.tail = self.tail + size as u64;
        let i = self.pieces.len();
        self.pieces.push(piece);
        (off, i)
    }

    /// Overwrites a live value piece's bytes in place; callers first check
    /// that the new value still fits the piece's size.
    pub(crate) fn write_in_place(&mut self, i: usize, value: &[u8])
        requires
            old(self).wf(),
            (i as int) < old(self).pieces@.len(),
            old(self).pieces@[i as int].live,
            spec_val_need(value@) <= old(self).pieces@[i as int].size as int,
        ensures
            final(self).wf(),
            final(self).pieces@.len() == old(self).pieces@.len(),
            final(self).tail == old(self).tail,
            forall|t: int|
                0 <= t < final(self).pieces@.len() && t != i as int ==> final(self).pieces@[t] == old(
                    self,
                ).pieces@[t],
            final(self).pieces@[i as int].offset == old(self).pieces@[i as int].offset,
            final(self).pieces@[i as int].size == old(self).pieces@[i as int].size,
            final(self).pieces@[i as int].live,
            final(self).pieces@[i as int].value@ == value@,
    {
        let piece = ValuePiece {
            offset: self.pieces[i].offset,
            size: self.pieces[i].size,
            live: true,
            value: vstd::slice::slice_to_vec(value),
        };
        self.pieces[i] = piece;
    }

    /// Returns a live value piece to the free list.
    pub(crate) fn free_piece(&mut self, i: usize)
        requires
            old(self).wf(),
            (i as int) < old(self).pieces@.len(),
            old(self).pieces@[i as int].live,
        ensures
            final(self).wf(),
            final(self).pieces@.len() == old(self).pieces@.len(),
            final(self).tail == old(self).tail,
            forall|t: int|
                0 <= t < final(self).pieces@.len() && t != i as int ==> final(self).pieces@[t] == old(
                    self,
                ).pieces@[t],
            !final(self).pieces@[i as int].live,
            final(self).pieces@[i as int].offset == old(self).pieces@[i as int].offset,
            final(self).pieces@[i as int].size == old(self).pieces@[i as int].size,
    {
        let piece = ValuePiece {
            offset: self.pieces[i].offset,
            size: self.pieces[i].size,
            live: false,
            value: Vec::new(),
        };
        self.pieces[i] = piece;
        self.free.push(i);
        proof {
            assert forall|t1: int, t2: int|
                0 <= t1 < t2 < self.free@.len() implies #[trigger] self.free@[t1]
                != #[trigger] self.free@[t2] by {
                if t2 == self.free@.len() - 1 {
                    assert(!old(self).pieces@[old(self).free@[t1] as int].live);
                }
            }
        }
    }
}

} // verus!
