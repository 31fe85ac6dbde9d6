//! Variable-length integer encoding used inside piece records and by the
//! variable-length integer key type. The encoding itself is done by the
//! `vu64` crate; its result is named by `vu64_bytes`, and the trusted
//! wrappers below state how encoding and decoding relate to that name.
use vstd::prelude::*;

verus! {

/// The canonical prefix-coded byte sequence that `vu64` produces for a value.
pub uninterp spec fn vu64_bytes(v: u64) -> Seq<u8>;

/// Whether `s` begins with the canonical encoding of `v`.
pub open spec fn starts_with_vu64(s: Seq<u8>, v: u64) -> bool {
    &&& s.len() >= vu64_bytes(v).len()
    &&& s.subrange(0, vu64_bytes(v).len() as int) == vu64_bytes(v)
}

/// Whether `s` is exactly the canonical encoding of some value.
pub open spec fn is_vu64(s: Seq<u8>) -> bool {
    exists|v: u64| s == vu64_bytes(v)
}

/// Relies on vu64::encoded_len: the length in bytes of the encoding of
/// `value`, between 1 and 9 (`vu64::MAX_BYTES`).
#[verifier::external_body]
pub fn vu64_encoded_len(value: u64) -> (r: u8)
    ensures
        r as int == vu64_bytes(value).len(),
        1 <= r <= 9,
{
    vu64::encoded_len(value)
}

/// Relies on vu64::encode: returns the canonical encoding of `value`,
/// between 1 and 9 bytes long.
#[verifier::external_body]
pub fn vu64_encode(value: u64) -> (r: Vec<u8>)
    ensures
        r@ == vu64_bytes(value),
        1 <= r@.len() <= 9,
{
    vu64::encode(value).as_ref().to_vec()
}

/// Relies on vu64::decode: reads one canonical encoding from the front of
/// `bytes`. It succeeds exactly when such a prefix is present, it returns
/// the one value with that prefix (the length is fixed by the first byte,
/// and redundant encodings are rejected), and it reads nothing past it.
#[verifier::external_body]
pub fn vu64_decode_prefix(bytes: &[u8]) -> (r: Option<u64>)
    ensures
        match r {
            Some(v) => starts_with_vu64(bytes@, v) && forall|w: u64|
                starts_with_vu64(bytes@, w) ==> w == v,
            None => forall|w: u64| !starts_with_vu64(bytes@, w),
        },
{
    match vu64::decode(bytes) {
        Ok(v) => Some(v),
        Err(_) => None,
    }
}

} // verus!
