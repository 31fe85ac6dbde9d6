//! The fixed-width signed integer key type: eight little-endian bytes.
use crate::hash::bytes_hash_value;
use crate::util::compare_bytes;
use crate::DbMapKeyType;
use crate::HashValue;
use vstd::prelude::*;

verus! {

/// A signed 64-bit integer key held as eight little-endian bytes.
#[derive(Debug, Default, Clone, PartialEq, PartialOrd, Eq, Ord, Hash)]
pub struct DbI64(Vec<u8>);

impl HashValue for DbI64 {
    closed spec fn key_bytes(&self) -> Seq<u8> {
        self.0@
    }

    fn hash_value(&self) -> (r: u64) {
        bytes_hash_value(self.0.as_slice())
    }
}

impl DbMapKeyType for DbI64 {
    open spec fn valid_bytes(b: Seq<u8>) -> bool {
        true
    }

    open spec fn spec_cmp(a: Seq<u8>, b: Seq<u8>) -> core::cmp::Ordering {
        crate::util::spec_lex_cmp(a, b)
    }

    open spec fn spec_signature() -> Seq<u8> {
        seq![0x69u8, 0x36u8, 0x34u8, 0x5fu8, 0x6cu8, 0x65u8, 0u8, 0u8]
    }

    fn from_bytes(bytes: &[u8]) -> (r: Self) {
        DbI64(vstd::slice::slice_to_vec(bytes))
    }

    fn signature() -> (r: [u8; 8]) {
        let r: [u8; 8] = [0x69u8, 0x36u8, 0x34u8, 0x5fu8, 0x6cu8, 0x65u8, 0u8, 0u8];
        proof {
            assert(r@ =~= Self::spec_signature());
        }
        r
    }

    fn as_bytes(&self) -> (r: &[u8]) {
        self.0.as_slice()
    }

    fn cmp_u8(&self, other: &[u8]) -> (r: core::cmp::Ordering) {
        compare_bytes(self.0.as_slice(), other)
    }
}

impl From<i64> for DbI64 {
    fn from(a: i64) -> (r: DbI64) {
        DbI64(vstd::bytes::u64_to_le_bytes(a as u64))
    }
}

impl vstd::std_specs::convert::FromSpecImpl<i64> for DbI64 {
    open spec fn obeys_from_spec() -> bool {
        false
    }

    open spec fn from_spec(a: i64) -> DbI64 {
        vstd::pervasive::arbitrary()
    }
}

impl From<&i64> for DbI64 {
    fn from(a: &i64) -> (r: DbI64) {
        DbI64(vstd::bytes::u64_to_le_bytes(*a as u64))
    }
}

impl vstd::std_specs::convert::FromSpecImpl<&i64> for DbI64 {
    open spec fn obeys_from_spec() -> bool {
        false
    }

    open spec fn from_spec(a: &i64) -> DbI64 {
        vstd::pervasive::arbitrary()
    }
}

impl From<&[u8]> for DbI64 {
    fn from(a: &[u8]) -> (r: DbI64) {
        DbI64(vstd::slice::slice_to_vec(a))
    }
}

impl vstd::std_specs::convert::FromSpecImpl<&[u8]> for DbI64 {
    open spec fn obeys_from_spec() -> bool {
        false
    }

    open spec fn from_spec(a: &[u8]) -> DbI64 {
        vstd::pervasive::arbitrary()
    }
}

impl From<&DbI64> for DbI64 {
    fn from(a: &DbI64) -> (r: DbI64) {
        DbI64(vstd::slice::slice_to_vec(a.0.as_slice()))
    }
}

impl vstd::std_specs::convert::FromSpecImpl<&DbI64> for DbI64 {
    open spec fn obeys_from_spec() -> bool {
        false
    }

    open spec fn from_spec(a: &DbI64) -> DbI64 {
        vstd::pervasive::arbitrary()
    }
}


impl From<DbI64> for i64 {
    fn from(a: DbI64) -> (r: i64) {
        i64::from(&a)
    }
}

impl vstd::std_specs::convert::FromSpecImpl<DbI64> for i64 {
    open spec fn obeys_from_spec() -> bool {
        false
    }

    open spec fn from_spec(a: DbI64) -> i64 {
        vstd::pervasive::arbitrary()
    }
}

impl From<&DbI64> for i64 {
    /// Reads the key back as its integer: the stored little-endian
    /// bytes, zero-padded or truncated to eight.
    fn from(a: &DbI64) -> (r: i64) {
        let bytes = a.as_bytes();
        let mut padded: Vec<u8> = Vec::new();
        let mut t: usize = 0;
        while t < 8
            invariant
                padded@.len() == t,
                t <= 8,
            decreases 8 - t,
        {
            if t < bytes.len() {
                padded.push(bytes[t]);
            } else {
                padded.push(0);
            }
            t += 1;
        }
        vstd::bytes::u64_from_le_bytes(padded.as_slice()) as i64
    }
}

impl vstd::std_specs::convert::FromSpecImpl<&DbI64> for i64 {
    open spec fn obeys_from_spec() -> bool {
        false
    }

    open spec fn from_spec(a: &DbI64) -> i64 {
        vstd::pervasive::arbitrary()
    }
}

/// Builds the key for a signed 64-bit value; its bytes are the value's
/// eight little-endian two's-complement bytes.
pub fn i64_key(a: i64) -> (r: DbI64)
    ensures
        r.key_bytes() == vstd::bytes::spec_u64_to_le_bytes(a as u64),
{
    DbI64(vstd::bytes::u64_to_le_bytes(a as u64))
}

} // verus!
