//! The xorshift-based mixing hasher used to place raw key bytes into hash
//! buckets: the key bytes are consumed in 8-byte little-endian chunks, a
//! trailing partial chunk is folded in big-endian order, and each chunk is
//! mixed into the running state with one xorshift round.
use vstd::prelude::*;

verus! {

/// One xorshift mixing round.
pub open spec fn spec_xorshift64s(a: u64) -> u64 {
    let x1 = a ^ (a >> 12);
    let x2 = x1 ^ ((x1 << 25) as u64);
    x2 ^ (x2 >> 27)
}

/// Big-endian fold of a partial (under 8 bytes) trailing chunk.
pub open spec fn spec_fold_partial(s: Seq<u8>) -> u64
    decreases s.len(),
{
    if s.len() == 0 {
        0u64
    } else {
        ((spec_fold_partial(s.drop_last()) << 8) | (s.last() as u64)) as u64
    }
}

/// Hash state after absorbing `s`, starting from `state`.
pub open spec fn spec_hash_from(state: u64, s: Seq<u8>) -> u64
    decreases s.len(),
{
    if s.len() == 0 {
        state
    } else if s.len() >= 8 {
        let chunk = vstd::bytes::spec_u64_from_le_bytes(s.take(8));
        spec_hash_from(
            spec_xorshift64s(vstd::wrapping::u64_specs::wrapping_add(state, chunk)),
            s.skip(8),
        )
    } else {
        spec_xorshift64s(vstd::wrapping::u64_specs::wrapping_add(state, spec_fold_partial(s)))
    }
}

/// The 64-bit hash of a raw key byte sequence.
pub open spec fn spec_hash_bytes(s: Seq<u8>) -> u64 {
    spec_hash_from(0u64, s)
}

fn _xorshift64s(a: u64) -> (r: u64)
    ensures
        r == spec_xorshift64s(a),
{
    let mut x = a;
    x ^= x >> 12u64;
    x ^= x << 25u64;
    x ^= x >> 27u64;
    x
}

/// Computes the hash of raw key bytes, chunk by chunk.
pub fn bytes_hash_value(key: &[u8]) -> (r: u64)
    ensures
        r == spec_hash_bytes(key@),
{
    let len: usize = key.len();
    let mut state: u64 = 0;
    let mut i: usize = 0;
    proof {
        assert(key@.skip(0) =~= key@);
    }
    while len - i >= 8
        invariant
            i <= len,
            len == key@.len(),
            spec_hash_from(state, key@.skip(i as int)) == spec_hash_bytes(key@),
        decreases len - i,
    {
        let chunk_slice = vstd::slice::slice_subrange(key, i, i + 8);
        let chunk = vstd::bytes::u64_from_le_bytes(chunk_slice);
        proof {
            assert(key@.skip(i as int).take(8) =~= key@.subrange(i as int, i + 8));
            assert(key@.skip(i as int).skip(8) =~= key@.skip(i + 8));
            assert(key@.skip(i as int).len() >= 8);
            assert(chunk == vstd::bytes::spec_u64_from_le_bytes(key@.skip(i as int).take(8)));
        }
        state = _xorshift64s(state.wrapping_add(chunk));
        i += 8;
    }
    if i < len {
        let ghost tail = key@.skip(i as int);
        let mut a: u64 = 0;
        let mut k: usize = i;
        while k < len
            invariant
                i <= k <= len,
                len == key@.len(),
                a == spec_fold_partial(key@.subrange(i as int, k as int)),
            decreases len - k,
        {
            a = (a << 8u64) | (key[k] as u64);
            proof {
                assert(key@.subrange(i as int, k + 1).drop_last() =~= key@.subrange(
                    i as int,
                    k as int,
                ));
            }
            k += 1;
        }
        proof {
            assert(key@.subrange(i as int, len as int) =~= tail);
            assert(tail.len() < 8 && tail.len() > 0);
        }
        state = _xorshift64s(state.wrapping_add(a));
    }
    proof {
        assert(key@.skip(len as int) =~= Seq::<u8>::empty());
    }
    state
}

} // verus!
