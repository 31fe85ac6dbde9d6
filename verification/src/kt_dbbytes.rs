//! The raw byte-blob key type.
use crate::hash::bytes_hash_value;
use crate::util::compare_bytes;
use crate::DbMapKeyType;
use crate::HashValue;
use vstd::prelude::*;

verus! {

/// A key of arbitrary raw bytes.
#[derive(Debug, Default, Clone, PartialEq, PartialOrd, Eq, Ord, Hash)]
pub struct DbBytes(Vec<u8>);

impl HashValue for DbBytes {
    closed spec fn key_bytes(&self) -> Seq<u8> {
        self.0@
    }

    fn hash_value(&self) -> (r: u64) {
        bytes_hash_value(self.0.as_slice())
    }
}

impl DbMapKeyType for DbBytes {
    open spec fn valid_bytes(b: Seq<u8>) -> bool {
        true
    }

    open spec fn spec_cmp(a: Seq<u8>, b: Seq<u8>) -> core::cmp::Ordering {
        crate::util::spec_lex_cmp(a, b)
    }

    open spec fn spec_signature() -> Seq<u8> {
        seq![0x62u8, 0x79u8, 0x74u8, 0x65u8, 0x73u8, 0u8, 0u8, 0u8]
    }

    fn from_bytes(bytes: &[u8]) -> (r: Self) {
        DbBytes(vstd::slice::slice_to_vec(bytes))
    }

    fn signature() -> (r: [u8; 8]) {
        let r: [u8; 8] = [0x62u8, 0x79u8, 0x74u8, 0x65u8, 0x73u8, 0u8, 0u8, 0u8];
        proof {
            assert(r@ =~= Self::spec_signature());
        }
        r
    }

    fn as_bytes(&self) -> (r: &[u8]) {
        self.0.as_slice()
    }

    fn cmp_u8(&self, other: &[u8]) -> (r: core::cmp::Ordering) {
        compare_bytes(self.0.as_slice(), other)
    }
}

impl From<&[u8]> for DbBytes {
    fn from(a: &[u8]) -> (r: DbBytes) {
        DbBytes(vstd::slice::slice_to_vec(a))
    }
}

impl vstd::std_specs::convert::FromSpecImpl<&[u8]> for DbBytes {
    open spec fn obeys_from_spec() -> bool {
        false
    }

    open spec fn from_spec(a: &[u8]) -> DbBytes {
        vstd::pervasive::arbitrary()
    }
}

impl From<Vec<u8>> for DbBytes {
    fn from(a: Vec<u8>) -> (r: DbBytes) {
        DbBytes(a)
    }
}

impl vstd::std_specs::convert::FromSpecImpl<Vec<u8>> for DbBytes {
    open spec fn obeys_from_spec() -> bool {
        false
    }

    open spec fn from_spec(a: Vec<u8>) -> DbBytes {
        vstd::pervasive::arbitrary()
    }
}

impl From<&str> for DbBytes {
    fn from(a: &str) -> (r: DbBytes) {
        DbBytes(vstd::slice::slice_to_vec(a.as_bytes()))
    }
}

impl vstd::std_specs::convert::FromSpecImpl<&str> for DbBytes {
    open spec fn obeys_from_spec() -> bool {
        false
    }

    open spec fn from_spec(a: &str) -> DbBytes {
        vstd::pervasive::arbitrary()
    }
}

impl From<&DbBytes> for DbBytes {
    fn from(a: &DbBytes) -> (r: DbBytes) {
        DbBytes(vstd::slice::slice_to_vec(a.0.as_slice()))
    }
}

impl vstd::std_specs::convert::FromSpecImpl<&DbBytes> for DbBytes {
    open spec fn obeys_from_spec() -> bool {
        false
    }

    open spec fn from_spec(a: &DbBytes) -> DbBytes {
        vstd::pervasive::arbitrary()
    }
}

/// Builds the key for a byte string; its bytes are exactly those bytes.
pub fn bytes_key(a: &[u8]) -> (r: DbBytes)
    ensures
        r.key_bytes() == a@,
{
    DbBytes(vstd::slice::slice_to_vec(a))
}

} // verus!
