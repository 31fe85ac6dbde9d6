//! The binary images of a keyspace's three backing files.
//!
//! The hash directory image is bit-exact: a 128-byte header (engine magic,
//! per-key-type signature, bucket count, item count, zero-filled reserve)
//! followed by one little-endian 8-byte head offset per bucket. The key and
//! value storage images hold a 128-byte header followed by the pieces at
//! their offsets, each carrying its size word, a live flag, its lengths as
//! variable-length integers, and its payload, zero-padded to its size.
//!
//! Reopening validates both signatures (a mismatch is the fatal
//! `InvalidSignature`), re-reads every live piece, and rebuilds the chains;
//! the bucket count and the live contents carry over exactly, while freed
//! space is compacted away.
use crate::piece::KeyFile;
use crate::piece::KeyPiece;
use crate::piece::ValueFile;
use crate::piece::ValuePiece;
use crate::varint::starts_with_vu64;
use crate::varint::vu64_bytes;
use crate::varint::vu64_decode_prefix;
use crate::varint::vu64_encode;
use crate::varint::vu64_encoded_len;
use crate::DbError;
use vstd::bytes::spec_u32_to_le_bytes;
use vstd::bytes::spec_u64_to_le_bytes;
use vstd::prelude::*;

verus! {

/// A run of zero bytes.
pub open spec fn spec_zeros(n: int) -> Seq<u8> {
    Seq::new(n as nat, |i: int| 0u8)
}

/// The engine magic of the hash directory file.
pub open spec fn spec_htx_sig1() -> Seq<u8> {
    seq![0x61u8, 0x62u8, 0x79u8, 0x73u8, 0x64u8, 0x62u8, 0x48u8, 0u8]
}

/// The engine magic of the key storage file.
pub open spec fn spec_key_sig1() -> Seq<u8> {
    seq![0x61u8, 0x62u8, 0x79u8, 0x73u8, 0x64u8, 0x62u8, 0x4bu8, 0u8]
}

/// The engine magic of the value storage file.
pub open spec fn spec_val_sig1() -> Seq<u8> {
    seq![0x61u8, 0x62u8, 0x79u8, 0x73u8, 0x64u8, 0x62u8, 0x56u8, 0u8]
}

/// The little-endian bucket table.
pub open spec fn spec_bucket_bytes(b: Seq<u64>) -> Seq<u8>
    decreases b.len(),
{
    if b.len() == 0 {
        Seq::empty()
    } else {
        spec_bucket_bytes(b.drop_last()) + spec_u64_to_le_bytes(b.last())
    }
}

/// The hash directory image: header then bucket table.
pub open spec fn spec_htx_image(h: crate::htx::HtxFile) -> Seq<u8> {
    spec_htx_sig1() + h.sig2@ + spec_u64_to_le_bytes(h.buckets@.len() as u64)
        + spec_u64_to_le_bytes(h.item_count) + spec_zeros(96) + spec_bucket_bytes(h.buckets@)
}

/// One key piece on file.
pub closed spec fn spec_key_piece_bytes(p: KeyPiece) -> Seq<u8> {
    if p.live {
        spec_u32_to_le_bytes(p.size) + seq![1u8] + vu64_bytes(p.key@.len() as u64)
            + spec_u64_to_le_bytes(p.value_offset) + spec_u64_to_le_bytes(p.bucket_next_offset)
            + p.key@ + spec_zeros(p.size - crate::piece::spec_key_need(p.key@))
    } else {
        spec_u32_to_le_bytes(p.size) + seq![0u8] + spec_zeros(p.size - 5)
    }
}

/// One value piece on file.
pub closed spec fn spec_val_piece_bytes(p: ValuePiece) -> Seq<u8> {
    if p.live {
        spec_u32_to_le_bytes(p.size) + seq![1u8] + vu64_bytes(p.value@.len() as u64) + p.value@
            + spec_zeros(p.size - crate::piece::spec_val_need(p.value@))
    } else {
        spec_u32_to_le_bytes(p.size) + seq![0u8] + spec_zeros(p.size - 5)
    }
}

pub closed spec fn spec_key_pieces_bytes(s: Seq<KeyPiece>) -> Seq<u8>
    decreases s.len(),
{
    if s.len() == 0 {
        Seq::empty()
    } else {
        spec_key_pieces_bytes(s.drop_last()) + spec_key_piece_bytes(s.last())
    }
}

pub closed spec fn spec_val_pieces_bytes(s: Seq<ValuePiece>) -> Seq<u8>
    decreases s.len(),
{
    if s.len() == 0 {
        Seq::empty()
    } else {
        spec_val_pieces_bytes(s.drop_last()) + spec_val_piece_bytes(s.last())
    }
}

/// The key storage image: header then pieces in offset order.
pub closed spec fn spec_key_file_image(kf: KeyFile, sig2: Seq<u8>) -> Seq<u8> {
    spec_key_sig1() + sig2 + spec_zeros(112) + spec_key_pieces_bytes(kf.pieces@)
}

/// The value storage image: header then pieces in offset order.
pub closed spec fn spec_val_file_image(vf: ValueFile, sig2: Seq<u8>) -> Seq<u8> {
    spec_val_sig1() + sig2 + spec_zeros(112) + spec_val_pieces_bytes(vf.pieces@)
}

/// The live key pieces of a key file, each as its key bytes and value
/// piece offset, in file order.
pub(crate) open spec fn spec_live_key_entries(s: Seq<KeyPiece>) -> Seq<(Seq<u8>, u64)>
    decreases s.len(),
{
    if s.len() == 0 {
        Seq::empty()
    } else {
        spec_live_key_entries(s.drop_last()) + if s.last().live {
            seq![(s.last().key@, s.last().value_offset)]
        } else {
            Seq::empty()
        }
    }
}

/// The live value pieces of a value file, each as its offset and value
/// bytes, in file order.
pub(crate) open spec fn spec_live_val_entries(s: Seq<ValuePiece>) -> Seq<(u64, Seq<u8>)>
    decreases s.len(),
{
    if s.len() == 0 {
        Seq::empty()
    } else {
        spec_live_val_entries(s.drop_last()) + if s.last().live {
            seq![(s.last().offset, s.last().value@)]
        } else {
            Seq::empty()
        }
    }
}

/// Sum of a sequence of integers.
pub(crate) open spec fn sum_ints(s: Seq<int>) -> int
    decreases s.len(),
{
    if s.len() == 0 {
        0
    } else {
        sum_ints(s.drop_last()) + s.last()
    }
}

pub(crate) proof fn lemma_sum_ints_nonneg(s: Seq<int>)
    requires
        forall|t: int| 0 <= t < s.len() ==> #[trigger] s[t] >= 0,
    ensures
        sum_ints(s) >= 0,
    decreases s.len(),
{
    if s.len() > 0 {
        lemma_sum_ints_nonneg(s.drop_last());
    }
}

/// A prefix of nonnegative values sums to at most the whole.
pub(crate) proof fn lemma_sum_ints_take(s: Seq<int>, t: int)
    requires
        forall|u: int| 0 <= u < s.len() ==> #[trigger] s[u] >= 0,
        0 <= t <= s.len(),
    ensures
        sum_ints(s.take(t)) <= sum_ints(s),
    decreases s.len(),
{
    if t == s.len() {
        assert(s.take(t) =~= s);
    } else {
        assert(s.take(t) =~= s.drop_last().take(t));
        lemma_sum_ints_take(s.drop_last(), t);
    }
}

/// One more prefix element adds its value to the prefix sum.
pub(crate) proof fn lemma_sum_ints_take_step(s: Seq<int>, t: int)
    requires
        0 <= t < s.len(),
    ensures
        sum_ints(s.take(t + 1)) == sum_ints(s.take(t)) + s[t],
{
    assert(s.take(t + 1).drop_last() =~= s.take(t));
    assert(s.take(t + 1).last() == s[t]);
}

/// Sum of the values picked by a list of indices.
pub(crate) open spec fn sum_picks(w: Seq<int>, used: Seq<int>) -> int
    decreases used.len(),
{
    if used.len() == 0 {
        0
    } else {
        sum_picks(w, used.drop_last()) + w[used.last()]
    }
}

pub(crate) proof fn lemma_sum_picks_remove(w: Seq<int>, used: Seq<int>, p: int)
    requires
        0 <= p < used.len(),
    ensures
        sum_picks(w, used.remove(p)) == sum_picks(w, used) - w[used[p]],
    decreases used.len(),
{
    if p == used.len() - 1 {
        assert(used.remove(p) =~= used.drop_last());
    } else {
        assert(used.remove(p).drop_last() =~= used.drop_last().remove(p));
        assert(used.remove(p).last() == used.last());
        lemma_sum_picks_remove(w, used.drop_last(), p);
    }
}

/// Picks that never reach the last value sum the same over the shorter
/// list.
pub(crate) proof fn lemma_sum_picks_restrict(w: Seq<int>, used: Seq<int>)
    requires
        w.len() > 0,
        forall|u: int| 0 <= u < used.len() ==> 0 <= #[trigger] used[u] < w.len() - 1,
    ensures
        sum_picks(w, used) == sum_picks(w.drop_last(), used),
    decreases used.len(),
{
    if used.len() > 0 {
        lemma_sum_picks_restrict(w, used.drop_last());
        assert(w[used.last()] == w.drop_last()[used.last()]);
    }
}

/// Distinct picks out of nonnegative values sum to at most the whole.
pub(crate) proof fn lemma_sum_picks_le(w: Seq<int>, used: Seq<int>)
    requires
        forall|t: int| 0 <= t < w.len() ==> #[trigger] w[t] >= 0,
        forall|u: int| 0 <= u < used.len() ==> 0 <= #[trigger] used[u] < w.len(),
        forall|u1: int, u2: int|
            0 <= u1 < u2 < used.len() ==> #[trigger] used[u1] != #[trigger] used[u2],
    ensures
        sum_picks(w, used) <= sum_ints(w),
    decreases w.len(),
{
    if w.len() == 0 {
        assert(used.len() == 0) by {
            if used.len() > 0 {
                assert(0 <= used[0] < w.len());
            }
        }
    } else if exists|p: int| 0 <= p < used.len() && #[trigger] used[p] == w.len() - 1 {
        let p = choose|p: int| 0 <= p < used.len() && #[trigger] used[p] == w.len() - 1;
        let used2 = used.remove(p);
        lemma_sum_picks_remove(w, used, p);
        assert forall|u: int| 0 <= u < used2.len() implies 0 <= #[trigger] used2[u] < w.len()
            - 1 by {
            let m = if u < p {
                u
            } else {
                u + 1
            };
            assert(used2[u] == used[m]);
            if used[m] == w.len() - 1 {
                if m < p {
                    assert(used[m] != used[p]);
                } else {
                    assert(used[p] != used[m]);
                }
            }
        }
        assert forall|u1: int, u2: int| 0 <= u1 < u2 < used2.len() implies #[trigger] used2[u1]
            != #[trigger] used2[u2] by {
            let m1 = if u1 < p {
                u1
            } else {
                u1 + 1
            };
            let m2 = if u2 < p {
                u2
            } else {
                u2 + 1
            };
            assert(used2[u1] == used[m1] && used2[u2] == used[m2]);
        }
        lemma_sum_picks_restrict(w, used2);
        lemma_sum_picks_le(w.drop_last(), used2);
    } else {
        assert forall|u: int| 0 <= u < used.len() implies 0 <= #[trigger] used[u] < w.len()
            - 1 by {}
        lemma_sum_picks_restrict(w, used);
        lemma_sum_picks_le(w.drop_last(), used);
        lemma_sum_ints_nonneg(w);
    }
}

/// The rounded piece sizes the live key entries need.
pub(crate) open spec fn spec_key_entry_weights(es: Seq<(Seq<u8>, u64)>) -> Seq<int> {
    Seq::new(es.len(), |t: int| crate::piece::spec_round_size(crate::piece::spec_key_need(es[t].0)))
}

/// The rounded piece sizes the live value entries need.
pub(crate) open spec fn spec_val_entry_weights(es: Seq<(u64, Seq<u8>)>) -> Seq<int> {
    Seq::new(es.len(), |t: int| crate::piece::spec_round_size(crate::piece::spec_val_need(es[t].1)))
}

/// Summed piece sizes of a key piece run.
pub(crate) open spec fn spec_key_sizes_sum(s: Seq<KeyPiece>) -> int
    decreases s.len(),
{
    if s.len() == 0 {
        0
    } else {
        spec_key_sizes_sum(s.drop_last()) + s.last().size
    }
}

pub(crate) open spec fn spec_val_sizes_sum(s: Seq<ValuePiece>) -> int
    decreases s.len(),
{
    if s.len() == 0 {
        0
    } else {
        spec_val_sizes_sum(s.drop_last()) + s.last().size
    }
}

/// The live entries' rounded needs sum to at most the pieces' sizes.
pub(crate) proof fn lemma_key_weights_le_sizes(s: Seq<KeyPiece>)
    requires
        forall|i: int| 0 <= i < s.len() ==> crate::piece::key_piece_wf(#[trigger] s[i]),
    ensures
        sum_ints(spec_key_entry_weights(spec_live_key_entries(s))) <= spec_key_sizes_sum(s),
        spec_key_sizes_sum(s) >= 0,
    decreases s.len(),
{
    if s.len() == 0 {
        assert(spec_live_key_entries(s) =~= Seq::<(Seq<u8>, u64)>::empty());
        assert(spec_key_entry_weights(spec_live_key_entries(s)) =~= Seq::<int>::empty());
    } else {
        assert forall|i: int| 0 <= i < s.drop_last().len() implies crate::piece::key_piece_wf(
            #[trigger] s.drop_last()[i],
        ) by {
            assert(s.drop_last()[i] == s[i]);
        }
        lemma_key_weights_le_sizes(s.drop_last());
        let prev = spec_live_key_entries(s.drop_last());
        let es = spec_live_key_entries(s);
        if s.last().live {
            assert(spec_key_entry_weights(es).drop_last() =~= spec_key_entry_weights(prev));
            assert(spec_key_entry_weights(es).last() == crate::piece::spec_round_size(
                crate::piece::spec_key_need(s.last().key@),
            ));
            assert(crate::piece::key_piece_wf(s[s.len() - 1]));
            crate::piece::lemma_round_le_size(
                crate::piece::spec_key_need(s.last().key@),
                s.last().size as int,
            );
        } else {
            assert(es =~= prev);
        }
    }
}

pub(crate) proof fn lemma_val_weights_le_sizes(s: Seq<ValuePiece>)
    requires
        forall|i: int| 0 <= i < s.len() ==> crate::piece::val_piece_wf(#[trigger] s[i]),
    ensures
        sum_ints(spec_val_entry_weights(spec_live_val_entries(s))) <= spec_val_sizes_sum(s),
        spec_val_sizes_sum(s) >= 0,
    decreases s.len(),
{
    if s.len() == 0 {
        assert(spec_live_val_entries(s) =~= Seq::<(u64, Seq<u8>)>::empty());
        assert(spec_val_entry_weights(spec_live_val_entries(s)) =~= Seq::<int>::empty());
    } else {
        assert forall|i: int| 0 <= i < s.drop_last().len() implies crate::piece::val_piece_wf(
            #[trigger] s.drop_last()[i],
        ) by {
            assert(s.drop_last()[i] == s[i]);
        }
        lemma_val_weights_le_sizes(s.drop_last());
        let prev = spec_live_val_entries(s.drop_last());
        let es = spec_live_val_entries(s);
        if s.last().live {
            assert(spec_val_entry_weights(es).drop_last() =~= spec_val_entry_weights(prev));
            assert(spec_val_entry_weights(es).last() == crate::piece::spec_round_size(
                crate::piece::spec_val_need(s.last().value@),
            ));
            assert(crate::piece::val_piece_wf(s[s.len() - 1]));
            crate::piece::lemma_round_le_size(
                crate::piece::spec_val_need(s.last().value@),
                s.last().size as int,
            );
        } else {
            assert(es =~= prev);
        }
    }
}

/// The pieces' sizes fill the file body exactly.
pub(crate) proof fn lemma_key_sizes_sum_is_tail(kf: KeyFile)
    requires
        kf.wf(),
    ensures
        spec_key_sizes_sum(kf.pieces@) == kf.tail - 128,
        16 * kf.pieces@.len() <= kf.tail - 128,
    decreases kf.pieces@.len(),
{
    lemma_key_sizes_sum_parts(kf.pieces@);
    lemma_key_prefix_len(kf, kf.pieces@.len() as int);
    assert(kf.pieces@.subrange(0, kf.pieces@.len() as int) =~= kf.pieces@);
}

pub(crate) proof fn lemma_key_sizes_sum_parts(s: Seq<KeyPiece>)
    requires
        forall|i: int| 0 <= i < s.len() ==> crate::piece::key_piece_wf(#[trigger] s[i]),
    ensures
        spec_key_pieces_bytes(s).len() == spec_key_sizes_sum(s),
        spec_key_sizes_sum(s) >= 16 * s.len(),
    decreases s.len(),
{
    if s.len() > 0 {
        assert forall|i: int| 0 <= i < s.drop_last().len() implies crate::piece::key_piece_wf(
            #[trigger] s.drop_last()[i],
        ) by {
            assert(s.drop_last()[i] == s[i]);
        }
        lemma_key_sizes_sum_parts(s.drop_last());
        assert(crate::piece::key_piece_wf(s[s.len() - 1]));
        lemma_key_piece_bytes_len(s.last());
    }
}

pub(crate) proof fn lemma_val_sizes_sum_is_tail(vf: ValueFile)
    requires
        vf.wf(),
    ensures
        spec_val_sizes_sum(vf.pieces@) == vf.tail - 128,
        16 * vf.pieces@.len() <= vf.tail - 128,
    decreases vf.pieces@.len(),
{
    lemma_val_sizes_sum_parts(vf.pieces@);
    lemma_val_prefix_len(vf, vf.pieces@.len() as int);
    assert(vf.pieces@.subrange(0, vf.pieces@.len() as int) =~= vf.pieces@);
}

pub(crate) proof fn lemma_val_sizes_sum_parts(s: Seq<ValuePiece>)
    requires
        forall|i: int| 0 <= i < s.len() ==> crate::piece::val_piece_wf(#[trigger] s[i]),
    ensures
        spec_val_pieces_bytes(s).len() == spec_val_sizes_sum(s),
        spec_val_sizes_sum(s) >= 16 * s.len(),
    decreases s.len(),
{
    if s.len() > 0 {
        assert forall|i: int| 0 <= i < s.drop_last().len() implies crate::piece::val_piece_wf(
            #[trigger] s.drop_last()[i],
        ) by {
            assert(s.drop_last()[i] == s[i]);
        }
        lemma_val_sizes_sum_parts(s.drop_last());
        assert(crate::piece::val_piece_wf(s[s.len() - 1]));
        lemma_val_piece_bytes_len(s.last());
    }
}

/// The index of the piece behind the `t`-th live entry.
pub(crate) open spec fn live_key_index(s: Seq<KeyPiece>, t: int) -> int
    decreases s.len(),
{
    if s.len() == 0 {
        0
    } else if t < spec_live_key_entries(s.drop_last()).len() {
        live_key_index(s.drop_last(), t)
    } else {
        s.len() - 1
    }
}

/// The live entries come from their pieces in file order.
pub(crate) proof fn lemma_live_key_index(s: Seq<KeyPiece>, t: int)
    requires
        0 <= t < spec_live_key_entries(s).len(),
    ensures
        0 <= live_key_index(s, t) < s.len(),
        s[live_key_index(s, t)].live,
        spec_live_key_entries(s)[t] == (
            s[live_key_index(s, t)].key@,
            s[live_key_index(s, t)].value_offset,
        ),
    decreases s.len(),
{
    if s.len() > 0 {
        let prev = spec_live_key_entries(s.drop_last());
        if t < prev.len() {
            lemma_live_key_index(s.drop_last(), t);
            assert(s.drop_last()[live_key_index(s.drop_last(), t)] == s[live_key_index(s, t)]);
        } else {
            assert(s.last().live);
            assert(spec_live_key_entries(s)[t] == (s.last().key@, s.last().value_offset));
        }
    }
}

pub(crate) proof fn lemma_live_key_index_mono(s: Seq<KeyPiece>, t1: int, t2: int)
    requires
        0 <= t1 < t2 < spec_live_key_entries(s).len(),
    ensures
        live_key_index(s, t1) < live_key_index(s, t2),
    decreases s.len(),
{
    if s.len() > 0 {
        let prev = spec_live_key_entries(s.drop_last());
        if t2 < prev.len() {
            lemma_live_key_index_mono(s.drop_last(), t1, t2);
        } else {
            lemma_live_key_index(s.drop_last(), t1);
        }
    }
}

/// Each live key piece appears among the live entries.
pub(crate) proof fn lemma_live_key_entry_of(s: Seq<KeyPiece>, i: int)
    requires
        0 <= i < s.len(),
        s[i].live,
    ensures
        exists|t: int|
            0 <= t < spec_live_key_entries(s).len() && #[trigger] spec_live_key_entries(s)[t] == (
            s[i].key@,
            s[i].value_offset,
            ),
    decreases s.len(),
{
    if i == s.len() - 1 {
        let es = spec_live_key_entries(s);
        assert(es[es.len() - 1] == (s[i].key@, s[i].value_offset));
    } else {
        lemma_live_key_entry_of(s.drop_last(), i);
        let t0 = choose|t: int|
            0 <= t < spec_live_key_entries(s.drop_last()).len()
                && #[trigger] spec_live_key_entries(s.drop_last())[t] == (
            s.drop_last()[i].key@,
            s.drop_last()[i].value_offset,
            );
        assert(spec_live_key_entries(s)[t0] == (s[i].key@, s[i].value_offset));
    }
}

/// Each live value piece appears among the live entries.
pub(crate) proof fn lemma_live_val_entry_of(s: Seq<ValuePiece>, i: int)
    requires
        0 <= i < s.len(),
        s[i].live,
    ensures
        exists|t: int|
            0 <= t < spec_live_val_entries(s).len() && #[trigger] spec_live_val_entries(s)[t] == (
            s[i].offset,
            s[i].value@,
            ),
    decreases s.len(),
{
    if i == s.len() - 1 {
        let es = spec_live_val_entries(s);
        assert(es[es.len() - 1] == (s[i].offset, s[i].value@));
    } else {
        lemma_live_val_entry_of(s.drop_last(), i);
        let t0 = choose|t: int|
            0 <= t < spec_live_val_entries(s.drop_last()).len()
                && #[trigger] spec_live_val_entries(s.drop_last())[t] == (
            s.drop_last()[i].offset,
            s.drop_last()[i].value@,
            );
        assert(spec_live_val_entries(s)[t0] == (s[i].offset, s[i].value@));
    }
}

pub(crate) proof fn lemma_key_piece_bytes_len(p: KeyPiece)
    requires
        crate::piece::key_piece_wf(p),
    ensures
        spec_key_piece_bytes(p).len() == p.size,
{
    vstd::bytes::lemma_auto_spec_u64_to_from_le_bytes();
    vstd::bytes::lemma_auto_spec_u32_to_from_le_bytes();
}

pub(crate) proof fn lemma_val_piece_bytes_len(p: ValuePiece)
    requires
        crate::piece::val_piece_wf(p),
    ensures
        spec_val_piece_bytes(p).len() == p.size,
{
    vstd::bytes::lemma_auto_spec_u64_to_from_le_bytes();
    vstd::bytes::lemma_auto_spec_u32_to_from_le_bytes();
}

/// The encoded pieces before index `idx` fill the image exactly up to
/// piece `idx`'s offset (or up to the tail, after the last piece).
pub(crate) proof fn lemma_key_prefix_len(kf: KeyFile, idx: int)
    requires
        kf.wf(),
        0 <= idx <= kf.pieces@.len(),
    ensures
        spec_key_pieces_bytes(kf.pieces@.subrange(0, idx)).len() + 128 == (if idx
            < kf.pieces@.len() {
            kf.pieces@[idx].offset as int
        } else {
            kf.tail as int
        }),
    decreases idx,
{
    if idx == 0 {
        assert(kf.pieces@.subrange(0, 0) =~= Seq::<KeyPiece>::empty());
    } else {
        lemma_key_prefix_len(kf, idx - 1);
        assert(kf.pieces@.subrange(0, idx).drop_last() =~= kf.pieces@.subrange(0, idx - 1));
        assert(kf.pieces@.subrange(0, idx).last() == kf.pieces@[idx - 1]);
        assert(crate::piece::key_piece_wf(kf.pieces@[idx - 1]));
        lemma_key_piece_bytes_len(kf.pieces@[idx - 1]);
        if idx < kf.pieces@.len() {
            assert(kf.pieces@[idx - 1 + 1].offset as int == kf.pieces@[idx - 1].offset
                + kf.pieces@[idx - 1].size);
        } else {
            assert(kf.pieces@.last() == kf.pieces@[idx - 1]);
        }
    }
}

pub(crate) proof fn lemma_val_prefix_len(vf: ValueFile, idx: int)
    requires
        vf.wf(),
        0 <= idx <= vf.pieces@.len(),
    ensures
        spec_val_pieces_bytes(vf.pieces@.subrange(0, idx)).len() + 128 == (if idx
            < vf.pieces@.len() {
            vf.pieces@[idx].offset as int
        } else {
            vf.tail as int
        }),
    decreases idx,
{
    if idx == 0 {
        assert(vf.pieces@.subrange(0, 0) =~= Seq::<ValuePiece>::empty());
    } else {
        lemma_val_prefix_len(vf, idx - 1);
        assert(vf.pieces@.subrange(0, idx).drop_last() =~= vf.pieces@.subrange(0, idx - 1));
        assert(vf.pieces@.subrange(0, idx).last() == vf.pieces@[idx - 1]);
        assert(crate::piece::val_piece_wf(vf.pieces@[idx - 1]));
        lemma_val_piece_bytes_len(vf.pieces@[idx - 1]);
        if idx < vf.pieces@.len() {
            assert(vf.pieces@[idx - 1 + 1].offset as int == vf.pieces@[idx - 1].offset
                + vf.pieces@[idx - 1].size);
        } else {
            assert(vf.pieces@.last() == vf.pieces@[idx - 1]);
        }
    }
}

/// The encoded pieces split at any index into the encoded prefix and the
/// encoded rest.
pub(crate) proof fn lemma_key_pieces_bytes_split(s: Seq<KeyPiece>, i: int)
    requires
        0 <= i <= s.len(),
    ensures
        spec_key_pieces_bytes(s) == spec_key_pieces_bytes(s.subrange(0, i))
            + spec_key_pieces_bytes(s.subrange(i, s.len() as int)),
    decreases s.len() - i,
{
    if i == s.len() {
        assert(s.subrange(0, i) =~= s);
        assert(s.subrange(i, s.len() as int) =~= Seq::<KeyPiece>::empty());
        assert(spec_key_pieces_bytes(s) =~= spec_key_pieces_bytes(s.subrange(0, i))
            + spec_key_pieces_bytes(s.subrange(i, s.len() as int)));
    } else {
        lemma_key_pieces_bytes_split(s, i + 1);
        assert(s.subrange(0, i + 1).drop_last() =~= s.subrange(0, i));
        assert(s.subrange(0, i + 1).last() == s[i]);
        assert(s.subrange(i, s.len() as int).drop_last() =~= s.subrange(i, s.len() - 1));
        // splitting one piece off the front of the rest
        lemma_key_pieces_rest_unfold(s, i);
        assert(spec_key_pieces_bytes(s) =~= spec_key_pieces_bytes(s.subrange(0, i))
            + spec_key_pieces_bytes(s.subrange(i, s.len() as int)));
    }
}

/// The encoded rest from index `i` starts with piece `i`'s bytes.
pub(crate) proof fn lemma_key_pieces_rest_unfold(s: Seq<KeyPiece>, i: int)
    requires
        0 <= i < s.len(),
    ensures
        spec_key_pieces_bytes(s.subrange(i, s.len() as int)) == spec_key_piece_bytes(s[i])
            + spec_key_pieces_bytes(s.subrange(i + 1, s.len() as int)),
    decreases s.len() - i,
{
    let rest = s.subrange(i, s.len() as int);
    if i == s.len() - 1 {
        assert(rest.drop_last() =~= Seq::<KeyPiece>::empty());
        assert(rest.last() == s[i]);
        assert(s.subrange(i + 1, s.len() as int) =~= Seq::<KeyPiece>::empty());
        assert(spec_key_pieces_bytes(rest) =~= spec_key_piece_bytes(s[i]) + spec_key_pieces_bytes(
            s.subrange(i + 1, s.len() as int),
        ));
    } else {
        lemma_key_pieces_rest_unfold(s.drop_last(), i);
        assert(s.drop_last().subrange(i, s.drop_last().len() as int) =~= s.subrange(
            i,
            s.len() - 1,
        ));
        assert(s.drop_last().subrange(i + 1, s.drop_last().len() as int) =~= s.subrange(
            i + 1,
            s.len() - 1,
        ));
        assert(s.drop_last()[i] == s[i]);
        assert(rest.drop_last() =~= s.subrange(i, s.len() - 1));
        assert(rest.last() == s.last());
        assert(s.subrange(i + 1, s.len() as int).drop_last() =~= s.subrange(i + 1, s.len() - 1));
        assert(s.subrange(i + 1, s.len() as int).last() == s.last());
        assert(spec_key_pieces_bytes(rest) =~= spec_key_piece_bytes(s[i]) + spec_key_pieces_bytes(
            s.subrange(i + 1, s.len() as int),
        ));
    }
}

pub(crate) proof fn lemma_val_pieces_bytes_split(s: Seq<ValuePiece>, i: int)
    requires
        0 <= i <= s.len(),
    ensures
        spec_val_pieces_bytes(s) == spec_val_pieces_bytes(s.subrange(0, i))
            + spec_val_pieces_bytes(s.subrange(i, s.len() as int)),
    decreases s.len() - i,
{
    if i == s.len() {
        assert(s.subrange(0, i) =~= s);
        assert(s.subrange(i, s.len() as int) =~= Seq::<ValuePiece>::empty());
        assert(spec_val_pieces_bytes(s) =~= spec_val_pieces_bytes(s.subrange(0, i))
            + spec_val_pieces_bytes(s.subrange(i, s.len() as int)));
    } else {
        lemma_val_pieces_bytes_split(s, i + 1);
        assert(s.subrange(0, i + 1).drop_last() =~= s.subrange(0, i));
        assert(s.subrange(0, i + 1).last() == s[i]);
        lemma_val_pieces_rest_unfold(s, i);
        assert(spec_val_pieces_bytes(s) =~= spec_val_pieces_bytes(s.subrange(0, i))
            + spec_val_pieces_bytes(s.subrange(i, s.len() as int)));
    }
}

pub(crate) proof fn lemma_val_pieces_rest_unfold(s: Seq<ValuePiece>, i: int)
    requires
        0 <= i < s.len(),
    ensures
        spec_val_pieces_bytes(s.subrange(i, s.len() as int)) == spec_val_piece_bytes(s[i])
            + spec_val_pieces_bytes(s.subrange(i + 1, s.len() as int)),
    decreases s.len() - i,
{
    let rest = s.subrange(i, s.len() as int);
    if i == s.len() - 1 {
        assert(rest.drop_last() =~= Seq::<ValuePiece>::empty());
        assert(rest.last() == s[i]);
        assert(s.subrange(i + 1, s.len() as int) =~= Seq::<ValuePiece>::empty());
        assert(spec_val_pieces_bytes(rest) =~= spec_val_piece_bytes(s[i]) + spec_val_pieces_bytes(
            s.subrange(i + 1, s.len() as int),
        ));
    } else {
        lemma_val_pieces_rest_unfold(s.drop_last(), i);
        assert(s.drop_last().subrange(i, s.drop_last().len() as int) =~= s.subrange(
            i,
            s.len() - 1,
        ));
        assert(s.drop_last().subrange(i + 1, s.drop_last().len() as int) =~= s.subrange(
            i + 1,
            s.len() - 1,
        ));
        assert(s.drop_last()[i] == s[i]);
        assert(rest.drop_last() =~= s.subrange(i, s.len() - 1));
        assert(rest.last() == s.last());
        assert(s.subrange(i + 1, s.len() as int).drop_last() =~= s.subrange(i + 1, s.len() - 1));
        assert(s.subrange(i + 1, s.len() as int).last() == s.last());
        assert(spec_val_pieces_bytes(rest) =~= spec_val_piece_bytes(s[i]) + spec_val_pieces_bytes(
            s.subrange(i + 1, s.len() as int),
        ));
    }
}

pub(crate) proof fn lemma_bucket_bytes_len(b: Seq<u64>)
    ensures
        spec_bucket_bytes(b).len() == 8 * b.len(),
    decreases b.len(),
{
    vstd::bytes::lemma_auto_spec_u64_to_from_le_bytes();
    if b.len() > 0 {
        lemma_bucket_bytes_len(b.drop_last());
    }
}

/// Law (persistence of the directory): the directory image written for a
/// keyspace holds exactly the header and the bucket table, its signatures
/// validate, and its bucket count and item count decode back to the
/// counts written, so reopening from the image sees the same directory.
pub proof fn lemma_htx_image_round_trip(h: crate::htx::HtxFile)
    ensures
        spec_htx_image(h).len() == 128 + 8 * h.buckets@.len(),
        spec_htx_image(h).subrange(0, 8) == spec_htx_sig1(),
        spec_htx_image(h).subrange(8, 16) == h.sig2@,
        vstd::bytes::spec_u64_from_le_bytes(spec_htx_image(h).subrange(16, 24)) == (
        h.buckets@.len() as u64),
        vstd::bytes::spec_u64_from_le_bytes(spec_htx_image(h).subrange(24, 32)) == h.item_count,
{
    vstd::bytes::lemma_auto_spec_u64_to_from_le_bytes();
    lemma_bucket_bytes_len(h.buckets@);
    let img = spec_htx_image(h);
    assert(img.subrange(0, 8) =~= spec_htx_sig1());
    assert(img.subrange(8, 16) =~= h.sig2@);
    assert(img.subrange(16, 24) =~= spec_u64_to_le_bytes(h.buckets@.len() as u64));
    assert(img.subrange(24, 32) =~= spec_u64_to_le_bytes(h.item_count));
}

/// Appends `n` zero bytes.
fn push_zeros(v: &mut Vec<u8>, n: usize)
    ensures
        final(v)@ == old(v)@ + spec_zeros(n as int),
{
    let mut t: usize = 0;
    while t < n
        invariant
            t <= n,
            v@ == old(v)@ + spec_zeros(t as int),
        decreases n - t,
    {
        v.push(0);
        proof {
            assert(v@ =~= old(v)@ + spec_zeros(t + 1));
        }
        t += 1;
    }
    proof {
        assert(old(v)@ + spec_zeros(0) =~= old(v)@);
    }
}

/// Appends the little-endian bytes of a 64-bit word.
fn push_u64_le(v: &mut Vec<u8>, x: u64)
    ensures
        final(v)@ == old(v)@ + spec_u64_to_le_bytes(x),
{
    let mut b = vstd::bytes::u64_to_le_bytes(x);
    v.append(&mut b);
}

/// Appends the little-endian bytes of a 32-bit word.
fn push_u32_le(v: &mut Vec<u8>, x: u32)
    ensures
        final(v)@ == old(v)@ + spec_u32_to_le_bytes(x),
{
    let mut b = vstd::bytes::u32_to_le_bytes(x);
    v.append(&mut b);
}

/// Appends a copy of a byte string.
fn push_bytes(v: &mut Vec<u8>, b: &[u8])
    ensures
        final(v)@ == old(v)@ + b@,
{
    let mut c = vstd::slice::slice_to_vec(b);
    v.append(&mut c);
}

/// The engine magic bytes of the three files.
fn htx_sig1_bytes() -> (r: Vec<u8>)
    ensures
        r@ == spec_htx_sig1(),
{
    let mut v: Vec<u8> = Vec::new();
    v.push(0x61);
    v.push(0x62);
    v.push(0x79);
    v.push(0x73);
    v.push(0x64);
    v.push(0x62);
    v.push(0x48);
    v.push(0);
    proof {
        assert(v@ =~= spec_htx_sig1());
    }
    v
}

fn key_sig1_bytes() -> (r: Vec<u8>)
    ensures
        r@ == spec_key_sig1(),
{
    let mut v: Vec<u8> = Vec::new();
    v.push(0x61);
    v.push(0x62);
    v.push(0x79);
    v.push(0x73);
    v.push(0x64);
    v.push(0x62);
    v.push(0x4b);
    v.push(0);
    proof {
        assert(v@ =~= spec_key_sig1());
    }
    v
}

fn val_sig1_bytes() -> (r: Vec<u8>)
    ensures
        r@ == spec_val_sig1(),
{
    let mut v: Vec<u8> = Vec::new();
    v.push(0x61);
    v.push(0x62);
    v.push(0x79);
    v.push(0x73);
    v.push(0x64);
    v.push(0x62);
    v.push(0x56);
    v.push(0);
    proof {
        assert(v@ =~= spec_val_sig1());
    }
    v
}

/// Encodes the hash directory: the bit-exact header, then one 8-byte head
/// offset per bucket.
pub fn htx_to_image(h: &crate::htx::HtxFile) -> (r: Vec<u8>)
    ensures
        r@ == spec_htx_image(*h),
{
    let mut v = htx_sig1_bytes();
    let mut t: usize = 0;
    while t < 8
        invariant
            t <= 8,
            v@ == spec_htx_sig1() + h.sig2@.subrange(0, t as int),
        decreases 8 - t,
    {
        v.push(h.sig2[t]);
        proof {
            assert(v@ =~= spec_htx_sig1() + h.sig2@.subrange(0, t + 1));
        }
        t += 1;
    }
    proof {
        assert(h.sig2@.subrange(0, 8) =~= h.sig2@);
        assert(spec_htx_sig1() + h.sig2@.subrange(0, 0) =~= spec_htx_sig1());
    }
    push_u64_le(&mut v, h.buckets.len() as u64);
    push_u64_le(&mut v, h.item_count);
    push_zeros(&mut v, 96);
    let n = h.buckets.len();
    let mut b: usize = 0;
    let ghost header = spec_htx_sig1() + h.sig2@ + spec_u64_to_le_bytes(h.buckets@.len() as u64)
        + spec_u64_to_le_bytes(h.item_count) + spec_zeros(96);
    while b < n
        invariant
            b <= n,
            n == h.buckets@.len(),
            header == spec_htx_sig1() + h.sig2@ + spec_u64_to_le_bytes(h.buckets@.len() as u64)
                + spec_u64_to_le_bytes(h.item_count) + spec_zeros(96),
            v@ == header + spec_bucket_bytes(h.buckets@.subrange(0, b as int)),
        decreases n - b,
    {
        push_u64_le(&mut v, h.buckets[b]);
        proof {
            assert(h.buckets@.subrange(0, b + 1).drop_last() =~= h.buckets@.subrange(0, b as int));
            assert(h.buckets@.subrange(0, b + 1).last() == h.buckets@[b as int]);
            assert(v@ =~= header + spec_bucket_bytes(h.buckets@.subrange(0, b + 1)));
        }
        b += 1;
    }
    proof {
        assert(h.buckets@.subrange(0, 0) =~= Seq::<u64>::empty());
        assert(h.buckets@.subrange(0, n as int) =~= h.buckets@);
        assert(v@ =~= spec_htx_image(*h));
    }
    v
}

/// Encodes the key storage file: header, then each piece at its offset.
pub(crate) fn key_file_to_image(kf: &KeyFile, sig2: &[u8]) -> (r: Vec<u8>)
    requires
        kf.wf(),
    ensures
        r@ == spec_key_file_image(*kf, sig2@),
{
    let mut v = key_sig1_bytes();
    push_bytes(&mut v, sig2);
    push_zeros(&mut v, 112);
    let ghost header = spec_key_sig1() + sig2@ + spec_zeros(112);
    let n = kf.pieces.len();
    let mut i: usize = 0;
    while i < n
        invariant
            i <= n,
            kf.wf(),
            n == kf.pieces@.len(),
            header == spec_key_sig1() + sig2@ + spec_zeros(112),
            v@ == header + spec_key_pieces_bytes(kf.pieces@.subrange(0, i as int)),
        decreases n - i,
    {
        proof {
            assert(crate::piece::key_piece_wf(kf.pieces@[i as int]));
        }
        push_u32_le(&mut v, kf.pieces[i].size);
        if kf.pieces[i].live {
            v.push(1);
            let klen = kf.pieces[i].key.len();
            let enc = vu64_encoded_len(klen as u64);
            let mut kl = vu64_encode(klen as u64);
            v.append(&mut kl);
            push_u64_le(&mut v, kf.pieces[i].value_offset);
            push_u64_le(&mut v, kf.pieces[i].bucket_next_offset);
            push_bytes(&mut v, kf.pieces[i].key.as_slice());
            let pad = kf.pieces[i].size as usize - 21 - enc as usize - klen;
            push_zeros(&mut v, pad);
        } else {
            v.push(0);
            let pad = kf.pieces[i].size as usize - 5;
            push_zeros(&mut v, pad);
        }
        proof {
            assert(kf.pieces@.subrange(0, i + 1).drop_last() =~= kf.pieces@.subrange(0, i as int));
            assert(kf.pieces@.subrange(0, i + 1).last() == kf.pieces@[i as int]);
            assert(v@ =~= header + spec_key_pieces_bytes(kf.pieces@.subrange(0, i + 1)));
        }
        i += 1;
    }
    proof {
        assert(kf.pieces@.subrange(0, 0) =~= Seq::<KeyPiece>::empty());
        assert(kf.pieces@.subrange(0, n as int) =~= kf.pieces@);
        assert(v@ =~= spec_key_file_image(*kf, sig2@));
    }
    v
}

/// Encodes the value storage file: header, then each piece at its offset.
pub(crate) fn val_file_to_image(vf: &ValueFile, sig2: &[u8]) -> (r: Vec<u8>)
    requires
        vf.wf(),
    ensures
        r@ == spec_val_file_image(*vf, sig2@),
{
    let mut v = val_sig1_bytes();
    push_bytes(&mut v, sig2);
    push_zeros(&mut v, 112);
    let ghost header = spec_val_sig1() + sig2@ + spec_zeros(112);
    let n = vf.pieces.len();
    let mut i: usize = 0;
    while i < n
        invariant
            i <= n,
            vf.wf(),
            n == vf.pieces@.len(),
            header == spec_val_sig1() + sig2@ + spec_zeros(112),
            v@ == header + spec_val_pieces_bytes(vf.pieces@.subrange(0, i as int)),
        decreases n - i,
    {
        proof {
            assert(crate::piece::val_piece_wf(vf.pieces@[i as int]));
        }
        push_u32_le(&mut v, vf.pieces[i].size);
        if vf.pieces[i].live {
            v.push(1);
            let vlen = vf.pieces[i].value.len();
            let enc = vu64_encoded_len(vlen as u64);
            let mut vl = vu64_encode(vlen as u64);
            v.append(&mut vl);
            push_bytes(&mut v, vf.pieces[i].value.as_slice());
            let pad = vf.pieces[i].size as usize - 5 - enc as usize - vlen;
            push_zeros(&mut v, pad);
        } else {
            v.push(0);
            let pad = vf.pieces[i].size as usize - 5;
            push_zeros(&mut v, pad);
        }
        proof {
            assert(vf.pieces@.subrange(0, i + 1).drop_last() =~= vf.pieces@.subrange(0, i as int));
            assert(vf.pieces@.subrange(0, i + 1).last() == vf.pieces@[i as int]);
            assert(v@ =~= header + spec_val_pieces_bytes(vf.pieces@.subrange(0, i + 1)));
        }
        i += 1;
    }
    proof {
        assert(vf.pieces@.subrange(0, 0) =~= Seq::<ValuePiece>::empty());
        assert(vf.pieces@.subrange(0, n as int) =~= vf.pieces@);
        assert(v@ =~= spec_val_file_image(*vf, sig2@));
    }
    v
}

/// Reads the 32-bit little-endian word at `pos`.
fn read_u32_at(bytes: &[u8], pos: usize) -> (r: u32)
    requires
        pos + 4 <= bytes@.len(),
    ensures
        r == vstd::bytes::spec_u32_from_le_bytes(bytes@.subrange(pos as int, pos + 4)),
{
    let _bound = bytes.len();
    let s = vstd::slice::slice_subrange(bytes, pos, pos + 4);
    vstd::bytes::u32_from_le_bytes(s)
}

/// Reads the 64-bit little-endian word at `pos`.
fn read_u64_at(bytes: &[u8], pos: usize) -> (r: u64)
    requires
        pos + 8 <= bytes@.len(),
    ensures
        r == vstd::bytes::spec_u64_from_le_bytes(bytes@.subrange(pos as int, pos + 8)),
{
    let _bound = bytes.len();
    let s = vstd::slice::slice_subrange(bytes, pos, pos + 8);
    vstd::bytes::u64_from_le_bytes(s)
}

/// Validates a 128-byte file header: engine magic, then the per-key-type
/// signature. A mismatch of either is the fatal signature error.
fn check_file_header(bytes: &[u8], sig1: &Vec<u8>, sig2: &[u8]) -> (r: Result<(), DbError>)
    requires
        sig1@.len() == 8,
        sig2@.len() == 8,
    ensures
        match r {
            Ok(()) => bytes@.len() >= 128 && bytes@.subrange(0, 8) == sig1@ && bytes@.subrange(
                8,
                16,
            ) == sig2@,
            Err(e) => e == DbError::Corrupt && bytes@.len() < 128 || e == DbError::InvalidSignature
                && bytes@.len() >= 128 && (bytes@.subrange(0, 8) != sig1@ || bytes@.subrange(8, 16)
                != sig2@),
        },
{
    if bytes.len() < 128 {
        return Err(DbError::Corrupt);
    }
    let head1 = vstd::slice::slice_subrange(bytes, 0, 8);
    if !crate::util::bytes_eq(head1, sig1.as_slice()) {
        return Err(DbError::InvalidSignature);
    }
    let head2 = vstd::slice::slice_subrange(bytes, 8, 16);
    if !crate::util::bytes_eq(head2, sig2) {
        return Err(DbError::InvalidSignature);
    }
    Ok(())
}

/// Validates the hash directory header and reads the bucket count and the
/// item count; the image must hold exactly the header and the bucket
/// table.
pub fn check_htxf_header(bytes: &[u8], sig2: &[u8]) -> (r: Result<(u64, u64), DbError>)
    requires
        sig2@.len() == 8,
    ensures
        match r {
            Ok((n, count)) => {
                &&& bytes@.len() >= 128
                &&& bytes@.subrange(0, 8) == spec_htx_sig1()
                &&& bytes@.subrange(8, 16) == sig2@
                &&& n == vstd::bytes::spec_u64_from_le_bytes(bytes@.subrange(16, 24))
                &&& count == vstd::bytes::spec_u64_from_le_bytes(bytes@.subrange(24, 32))
                &&& 1 <= n <= usize::MAX as u64
            },
            Err(e) => e == DbError::Corrupt || e == DbError::InvalidSignature || e
                == DbError::TooLarge,
        },
        r.is_err() ==> bytes@.len() < 128 || bytes@.subrange(0, 8) != spec_htx_sig1()
            || bytes@.subrange(8, 16) != sig2@ || ({
            let n = vstd::bytes::spec_u64_from_le_bytes(bytes@.subrange(16, 24));
            n == 0 || n > usize::MAX as u64 || n > (u64::MAX - 128) / 8 || (bytes@.len() as u64)
                < 128 + 8 * n
        }),
{
    let sig1 = htx_sig1_bytes();
    match check_file_header(bytes, &sig1, sig2) {
        Ok(()) => {},
        Err(e) => { return Err(e) },
    }
    let n = read_u64_at(bytes, 16);
    let count = read_u64_at(bytes, 24);
    if n == 0 {
        return Err(DbError::Corrupt);
    }
    if n > usize::MAX as u64 {
        return Err(DbError::TooLarge);
    }
    if n > ((u64::MAX - 128) / 8) {
        return Err(DbError::Corrupt);
    }
    if (bytes.len() as u64) < 128 + 8 * n {
        return Err(DbError::Corrupt);
    }
    Ok((n, count))
}

/// Reads the live key pieces out of a key storage image: for each, the
/// key bytes and the value piece offset. On the exact image of a
/// well-formed key file this recovers exactly its live pieces, in file
/// order.
#[verifier::rlimit(100)]
#[verifier::spinoff_prover]
pub(crate) fn parse_key_pieces(bytes: &[u8], sig2: &[u8], gkf: Ghost<Option<KeyFile>>) -> (r:
    Result<Vec<(Vec<u8>, u64)>, DbError>)
    requires
        sig2@.len() == 8,
        gkf@ matches Some(kf) ==> kf.wf() && bytes@ == spec_key_file_image(kf, sig2@),
    ensures
        match r {
            Ok(_) => true,
            Err(e) => e == DbError::Corrupt || e == DbError::InvalidSignature,
        },
        gkf@ matches Some(kf) ==> match r {
            Ok(list) => {
                &&& list@.len() == spec_live_key_entries(kf.pieces@).len()
                &&& forall|t: int|
                    0 <= t < list@.len() ==> ((#[trigger] list@[t]).0@, list@[t].1)
                        == spec_live_key_entries(kf.pieces@)[t]
            },
            Err(_) => false,
        },
{
    let sig1 = key_sig1_bytes();
    proof {
        if let Some(kf) = gkf@ {
            assert(bytes@.subrange(0, 8) =~= spec_key_sig1());
            assert(bytes@.subrange(8, 16) =~= sig2@);
            lemma_key_prefix_len(kf, kf.pieces@.len() as int);
            assert(kf.pieces@.subrange(0, kf.pieces@.len() as int) =~= kf.pieces@);
            assert(bytes@.len() == kf.tail);
        }
    }
    match check_file_header(bytes, &sig1, sig2) {
        Ok(()) => {},
        Err(DbError::InvalidSignature) => { return Err(DbError::InvalidSignature) },
        Err(_) => { return Err(DbError::Corrupt) },
    }
    let len = bytes.len();
    let mut pos: usize = 128;
    let mut out: Vec<(Vec<u8>, u64)> = Vec::new();
    let ghost mut gidx: int = 0;
    proof {
        if let Some(kf) = gkf@ {
            lemma_key_prefix_len(kf, 0);
            assert(spec_live_key_entries(kf.pieces@.subrange(0, 0)) =~= Seq::<(
                Seq<u8>,
                u64,
            )>::empty());
        }
    }
    while pos < len
        invariant
            128 <= pos,
            len == bytes@.len(),
            sig2@.len() == 8,
            gkf@ matches Some(kf) ==> kf.wf() && bytes@ == spec_key_file_image(kf, sig2@),
            gkf@ matches Some(kf) ==> {
                &&& bytes@.len() == kf.tail
                &&& 0 <= gidx <= kf.pieces@.len()
                &&& pos as int == (if gidx < kf.pieces@.len() {
                    kf.pieces@[gidx].offset as int
                } else {
                    kf.tail as int
                })
                &&& out@.len() == spec_live_key_entries(kf.pieces@.subrange(0, gidx)).len()
                &&& forall|t: int|
                    0 <= t < out@.len() ==> ((#[trigger] out@[t]).0@, out@[t].1)
                        == spec_live_key_entries(kf.pieces@.subrange(0, gidx))[t]
            },
        decreases len - pos,
    {
        proof {
            if let Some(kf) = gkf@ {
                assert(gidx < kf.pieces@.len());
                let piece = kf.pieces@[gidx];
                assert(crate::piece::key_piece_wf(piece));
                lemma_key_piece_bytes_len(piece);
                lemma_key_pieces_bytes_split(kf.pieces@, gidx);
                lemma_key_pieces_rest_unfold(kf.pieces@, gidx);
                lemma_key_prefix_len(kf, gidx);
                kf.lemma_below_tail(gidx);
                vstd::bytes::lemma_auto_spec_u64_to_from_le_bytes();
                vstd::bytes::lemma_auto_spec_u32_to_from_le_bytes();
                assert(bytes@.subrange(pos as int, pos + piece.size) =~= spec_key_piece_bytes(
                    piece,
                ));
                assert(bytes@.subrange(pos as int, pos + 4) =~= spec_key_piece_bytes(
                    piece,
                ).subrange(0, 4));
                assert(spec_key_piece_bytes(piece).subrange(0, 4) =~= spec_u32_to_le_bytes(
                    piece.size,
                ));
                assert(bytes@[pos + 4] == spec_key_piece_bytes(piece)[4]);
            }
        }
        if len - pos < 16 {
            proof {
                if let Some(kf) = gkf@ {
                    assert(false);
                }
            }
            return Err(DbError::Corrupt);
        }
        let size = read_u32_at(bytes, pos);
        proof {
            if let Some(kf) = gkf@ {
                assert(size == kf.pieces@[gidx].size);
            }
        }
        if size < 16 || size as usize % 8 != 0 {
            proof {
                if let Some(kf) = gkf@ {
                    assert(false);
                }
            }
            return Err(DbError::Corrupt);
        }
        if (size as u64) > (len - pos) as u64 {
            proof {
                if let Some(kf) = gkf@ {
                    assert(false);
                }
            }
            return Err(DbError::Corrupt);
        }
        let flag = bytes[pos + 4];
        if flag == 1 {
            proof {
                if let Some(kf) = gkf@ {
                    let piece = kf.pieces@[gidx];
                    assert(piece.live);
                    let encl = vu64_bytes(piece.key@.len() as u64).len() as int;
                    lemma_key_piece_bytes_len(piece);
                    assert(bytes@.subrange(pos + 5, pos + piece.size).subrange(0, encl)
                        =~= vu64_bytes(piece.key@.len() as u64));
                    assert(starts_with_vu64(
                        bytes@.subrange(pos + 5, pos + piece.size),
                        piece.key@.len() as u64,
                    ));
                }
            }
            let body = vstd::slice::slice_subrange(bytes, pos + 5, pos + size as usize);
            let klen = match vu64_decode_prefix(body) {
                Some(v) => v,
                None => {
                    proof {
                        if let Some(kf) = gkf@ {
                            assert(false);
                        }
                    }
                    return Err(DbError::Corrupt)
                },
            };
            let enc = vu64_encoded_len(klen);
            proof {
                if let Some(kf) = gkf@ {
                    let piece = kf.pieces@[gidx];
                    assert(klen == piece.key@.len() as u64);
                    assert(enc as int == vu64_bytes(piece.key@.len() as u64).len());
                }
            }
            if klen > size as u64 {
                proof {
                    if let Some(kf) = gkf@ {
                        assert(false);
                    }
                }
                return Err(DbError::Corrupt);
            }
            let fixed = 21 + enc as u64 + klen;
            if fixed > size as u64 {
                proof {
                    if let Some(kf) = gkf@ {
                        assert(false);
                    }
                }
                return Err(DbError::Corrupt);
            }
            proof {
                if let Some(kf) = gkf@ {
                    let piece = kf.pieces@[gidx];
                    let encl = vu64_bytes(piece.key@.len() as u64).len() as int;
                    vstd::bytes::lemma_auto_spec_u64_to_from_le_bytes();
                    assert(bytes@.subrange(pos + 5 + encl, pos + 5 + encl + 8)
                        =~= spec_u64_to_le_bytes(piece.value_offset));
                    assert(bytes@.subrange(
                        pos + 5 + encl + 16,
                        pos + 5 + encl + 16 + piece.key@.len(),
                    ) =~= piece.key@);
                }
            }
            let koff = pos + 5 + enc as usize + 16;
            let value_offset = read_u64_at(bytes, pos + 5 + enc as usize);
            let key = vstd::slice::slice_subrange(bytes, koff, koff + klen as usize);
            out.push((vstd::slice::slice_to_vec(key), value_offset));
            proof {
                if let Some(kf) = gkf@ {
                    let piece = kf.pieces@[gidx];
                    assert(spec_live_key_entries(kf.pieces@.subrange(0, gidx + 1)).drop_last()
                        =~= spec_live_key_entries(kf.pieces@.subrange(0, gidx))) by {
                        assert(kf.pieces@.subrange(0, gidx + 1).drop_last() =~= kf.pieces@.subrange(
                            0,
                            gidx,
                        ));
                        assert(kf.pieces@.subrange(0, gidx + 1).last() == piece);
                    }
                    assert(spec_live_key_entries(kf.pieces@.subrange(0, gidx + 1)).last() == (
                        piece.key@,
                        piece.value_offset,
                    )) by {
                        assert(kf.pieces@.subrange(0, gidx + 1).drop_last() =~= kf.pieces@.subrange(
                            0,
                            gidx,
                        ));
                        assert(kf.pieces@.subrange(0, gidx + 1).last() == piece);
                    }
                }
            }
        } else if flag != 0 {
            proof {
                if let Some(kf) = gkf@ {
                    assert(false);
                }
            }
            return Err(DbError::Corrupt);
        } else {
            proof {
                if let Some(kf) = gkf@ {
                    let piece = kf.pieces@[gidx];
                    assert(!piece.live);
                    assert(kf.pieces@.subrange(0, gidx + 1).drop_last() =~= kf.pieces@.subrange(
                        0,
                        gidx,
                    ));
                    assert(kf.pieces@.subrange(0, gidx + 1).last() == piece);
                    assert(spec_live_key_entries(kf.pieces@.subrange(0, gidx + 1))
                        =~= spec_live_key_entries(kf.pieces@.subrange(0, gidx)));
                }
            }
        }
        pos = pos + size as usize;
        proof {
            if let Some(kf) = gkf@ {
                if gidx + 1 < kf.pieces@.len() {
                    assert(kf.pieces@[gidx + 1].offset as int == kf.pieces@[gidx].offset
                        + kf.pieces@[gidx].size);
                }
                lemma_key_prefix_len(kf, gidx + 1);
                gidx = gidx + 1;
            }
        }
    }
    proof {
        if let Some(kf) = gkf@ {
            assert(gidx == kf.pieces@.len()) by {
                if gidx < kf.pieces@.len() {
                    assert(crate::piece::key_piece_wf(kf.pieces@[gidx]));
                    kf.lemma_below_tail(gidx);
                }
            }
            assert(kf.pieces@.subrange(0, gidx) =~= kf.pieces@);
        }
    }
    Ok(out)
}

/// Reads the live value pieces out of a value storage image: for each,
/// its offset in the image and its value bytes. On the exact image of a
/// well-formed value file this recovers exactly its live pieces, in
/// offset order.
#[verifier::rlimit(100)]
#[verifier::spinoff_prover]
pub(crate) fn parse_val_pieces(bytes: &[u8], sig2: &[u8], gvf: Ghost<Option<ValueFile>>) -> (r:
    Result<Vec<(u64, Vec<u8>)>, DbError>)
    requires
        sig2@.len() == 8,
        gvf@ matches Some(vf) ==> vf.wf() && bytes@ == spec_val_file_image(vf, sig2@),
    ensures
        match r {
            Ok(list) => forall|t1: int, t2: int|
                0 <= t1 < t2 < list@.len() ==> (#[trigger] list@[t1]).0 < (#[trigger] list@[t2]).0,
            Err(e) => e == DbError::Corrupt || e == DbError::InvalidSignature,
        },
        gvf@ matches Some(vf) ==> match r {
            Ok(list) => {
                &&& list@.len() == spec_live_val_entries(vf.pieces@).len()
                &&& forall|t: int|
                    0 <= t < list@.len() ==> ((#[trigger] list@[t]).0, list@[t].1@)
                        == spec_live_val_entries(vf.pieces@)[t]
            },
            Err(_) => false,
        },
{
    let sig1 = val_sig1_bytes();
    proof {
        if let Some(vf) = gvf@ {
            assert(bytes@.subrange(0, 8) =~= spec_val_sig1());
            assert(bytes@.subrange(8, 16) =~= sig2@);
            lemma_val_prefix_len(vf, vf.pieces@.len() as int);
            assert(vf.pieces@.subrange(0, vf.pieces@.len() as int) =~= vf.pieces@);
            assert(bytes@.len() == vf.tail);
        }
    }
    match check_file_header(bytes, &sig1, sig2) {
        Ok(()) => {},
        Err(DbError::InvalidSignature) => { return Err(DbError::InvalidSignature) },
        Err(_) => { return Err(DbError::Corrupt) },
    }
    let len = bytes.len();
    let mut pos: usize = 128;
    let mut out: Vec<(u64, Vec<u8>)> = Vec::new();
    let ghost mut gidx: int = 0;
    proof {
        if let Some(vf) = gvf@ {
            lemma_val_prefix_len(vf, 0);
            assert(spec_live_val_entries(vf.pieces@.subrange(0, 0)) =~= Seq::<(
                u64,
                Seq<u8>,
            )>::empty());
        }
    }
    while pos < len
        invariant
            128 <= pos,
            len == bytes@.len(),
            sig2@.len() == 8,
            forall|t: int| 0 <= t < out@.len() ==> (#[trigger] out@[t]).0 < pos as u64,
            forall|t1: int, t2: int|
                0 <= t1 < t2 < out@.len() ==> (#[trigger] out@[t1]).0 < (#[trigger] out@[t2]).0,
            gvf@ matches Some(vf) ==> vf.wf() && bytes@ == spec_val_file_image(vf, sig2@),
            gvf@ matches Some(vf) ==> {
                &&& bytes@.len() == vf.tail
                &&& 0 <= gidx <= vf.pieces@.len()
                &&& pos as int == (if gidx < vf.pieces@.len() {
                    vf.pieces@[gidx].offset as int
                } else {
                    vf.tail as int
                })
                &&& out@.len() == spec_live_val_entries(vf.pieces@.subrange(0, gidx)).len()
                &&& forall|t: int|
                    0 <= t < out@.len() ==> ((#[trigger] out@[t]).0, out@[t].1@)
                        == spec_live_val_entries(vf.pieces@.subrange(0, gidx))[t]
            },
        decreases len - pos,
    {
        proof {
            if let Some(vf) = gvf@ {
                assert(gidx < vf.pieces@.len());
                let piece = vf.pieces@[gidx];
                assert(crate::piece::val_piece_wf(piece));
                lemma_val_piece_bytes_len(piece);
                lemma_val_pieces_bytes_split(vf.pieces@, gidx);
                lemma_val_pieces_rest_unfold(vf.pieces@, gidx);
                lemma_val_prefix_len(vf, gidx);
                vf.lemma_below_tail(gidx);
                vstd::bytes::lemma_auto_spec_u64_to_from_le_bytes();
                vstd::bytes::lemma_auto_spec_u32_to_from_le_bytes();
                assert(bytes@.subrange(pos as int, pos + piece.size) =~= spec_val_piece_bytes(
                    piece,
                ));
                assert(bytes@.subrange(pos as int, pos + 4) =~= spec_val_piece_bytes(
                    piece,
                ).subrange(0, 4));
                assert(spec_val_piece_bytes(piece).subrange(0, 4) =~= spec_u32_to_le_bytes(
                    piece.size,
                ));
                assert(bytes@[pos + 4] == spec_val_piece_bytes(piece)[4]);
            }
        }
        if len - pos < 16 {
            proof {
                if let Some(vf) = gvf@ {
                    assert(false);
                }
            }
            return Err(DbError::Corrupt);
        }
        let size = read_u32_at(bytes, pos);
        proof {
            if let Some(vf) = gvf@ {
                assert(size == vf.pieces@[gidx].size);
            }
        }
        if size < 16 || size as usize % 8 != 0 {
            proof {
                if let Some(vf) = gvf@ {
                    assert(false);
                }
            }
            return Err(DbError::Corrupt);
        }
        if (size as u64) > (len - pos) as u64 {
            proof {
                if let Some(vf) = gvf@ {
                    assert(false);
                }
            }
            return Err(DbError::Corrupt);
        }
        let flag = bytes[pos + 4];
        if flag == 1 {
            proof {
                if let Some(vf) = gvf@ {
                    let piece = vf.pieces@[gidx];
                    assert(piece.live);
                    let encl = vu64_bytes(piece.value@.len() as u64).len() as int;
                    assert(bytes@.subrange(pos + 5, pos + piece.size).subrange(0, encl)
                        =~= vu64_bytes(piece.value@.len() as u64));
                    assert(starts_with_vu64(
                        bytes@.subrange(pos + 5, pos + piece.size),
                        piece.value@.len() as u64,
                    ));
                }
            }
            let body = vstd::slice::slice_subrange(bytes, pos + 5, pos + size as usize);
            let vlen = match vu64_decode_prefix(body) {
                Some(v) => v,
                None => {
                    proof {
                        if let Some(vf) = gvf@ {
                            assert(false);
                        }
                    }
                    return Err(DbError::Corrupt)
                },
            };
            let enc = vu64_encoded_len(vlen);
            proof {
                if let Some(vf) = gvf@ {
                    let piece = vf.pieces@[gidx];
                    assert(vlen == piece.value@.len() as u64);
                    assert(enc as int == vu64_bytes(piece.value@.len() as u64).len());
                }
            }
            if vlen > size as u64 {
                proof {
                    if let Some(vf) = gvf@ {
                        assert(false);
                    }
                }
                return Err(DbError::Corrupt);
            }
            let fixed = 5 + enc as u64 + vlen;
            if fixed > size as u64 {
                proof {
                    if let Some(vf) = gvf@ {
                        assert(false);
                    }
                }
                return Err(DbError::Corrupt);
            }
            proof {
                if let Some(vf) = gvf@ {
                    let piece = vf.pieces@[gidx];
                    let encl = vu64_bytes(piece.value@.len() as u64).len() as int;
                    assert(bytes@.subrange(pos + 5 + encl, pos + 5 + encl + piece.value@.len())
                        =~= piece.value@);
                    assert(piece.offset == pos as u64);
                }
            }
            let voff = pos + 5 + enc as usize;
            let value = vstd::slice::slice_subrange(bytes, voff, voff + vlen as usize);
            out.push((pos as u64, vstd::slice::slice_to_vec(value)));
            proof {
                if let Some(vf) = gvf@ {
                    let piece = vf.pieces@[gidx];
                    assert(spec_live_val_entries(vf.pieces@.subrange(0, gidx + 1)).drop_last()
                        =~= spec_live_val_entries(vf.pieces@.subrange(0, gidx))) by {
                        assert(vf.pieces@.subrange(0, gidx + 1).drop_last() =~= vf.pieces@.subrange(
                            0,
                            gidx,
                        ));
                        assert(vf.pieces@.subrange(0, gidx + 1).last() == piece);
                    }
                    assert(spec_live_val_entries(vf.pieces@.subrange(0, gidx + 1)).last() == (
                        piece.offset,
                        piece.value@,
                    )) by {
                        assert(vf.pieces@.subrange(0, gidx + 1).drop_last() =~= vf.pieces@.subrange(
                            0,
                            gidx,
                        ));
                        assert(vf.pieces@.subrange(0, gidx + 1).last() == piece);
                    }
                }
            }
        } else if flag != 0 {
            proof {
                if let Some(vf) = gvf@ {
                    assert(false);
                }
            }
            return Err(DbError::Corrupt);
        } else {
            proof {
                if let Some(vf) = gvf@ {
                    let piece = vf.pieces@[gidx];
                    assert(!piece.live);
                    assert(vf.pieces@.subrange(0, gidx + 1).drop_last() =~= vf.pieces@.subrange(
                        0,
                        gidx,
                    ));
                    assert(vf.pieces@.subrange(0, gidx + 1).last() == piece);
                    assert(spec_live_val_entries(vf.pieces@.subrange(0, gidx + 1))
                        =~= spec_live_val_entries(vf.pieces@.subrange(0, gidx)));
                }
            }
        }
        pos = pos + size as usize;
        proof {
            if let Some(vf) = gvf@ {
                if gidx + 1 < vf.pieces@.len() {
                    assert(vf.pieces@[gidx + 1].offset as int == vf.pieces@[gidx].offset
                        + vf.pieces@[gidx].size);
                }
                lemma_val_prefix_len(vf, gidx + 1);
                gidx = gidx + 1;
            }
        }
    }
    proof {
        if let Some(vf) = gvf@ {
            assert(gidx == vf.pieces@.len()) by {
                if gidx < vf.pieces@.len() {
                    assert(crate::piece::val_piece_wf(vf.pieces@[gidx]));
                    vf.lemma_below_tail(gidx);
                }
            }
            assert(vf.pieces@.subrange(0, gidx) =~= vf.pieces@);
        }
    }
    Ok(out)
}

/// Finds the parsed value piece at the given offset.
pub(crate) fn find_parsed_val(vals: &Vec<(u64, Vec<u8>)>, off: u64) -> (r: Option<usize>)
    ensures
        match r {
            Some(i) => i < vals@.len() && vals@[i as int].0 == off,
            None => forall|t: int| 0 <= t < vals@.len() ==> (#[trigger] vals@[t]).0 != off,
        },
{
    let n = vals.len();
    let mut i: usize = 0;
    while i < n
        invariant
            i <= n,
            n == vals@.len(),
            forall|t: int| 0 <= t < i ==> (#[trigger] vals@[t]).0 != off,
        decreases n - i,
    {
        if vals[i].0 == off {
            return Some(i);
        }
        i += 1;
    }
    None
}

} // verus!
