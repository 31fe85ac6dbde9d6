//! The variable-length unsigned integer key type: a key is the canonical
//! variable-length encoding of a 64-bit value, and keys compare by their
//! decoded values.
use crate::hash::bytes_hash_value;
use crate::varint::is_vu64;
use crate::varint::vu64_bytes;
use crate::varint::vu64_decode_prefix;
use crate::varint::vu64_encode;
use crate::DbMapKeyType;
use crate::HashValue;
use vstd::prelude::*;

verus! {

/// An unsigned 64-bit integer key held as its canonical variable-length
/// encoding.
#[derive(Debug, Default, Clone, PartialEq, PartialOrd, Eq, Ord, Hash)]
pub struct DbVu64(Vec<u8>);

impl HashValue for DbVu64 {
    closed spec fn key_bytes(&self) -> Seq<u8> {
        self.0@
    }

    fn hash_value(&self) -> (r: u64) {
        bytes_hash_value(self.0.as_slice())
    }
}

impl DbMapKeyType for DbVu64 {
    /// Only canonical encodings are well-formed keys of this type: the
    /// comparator decodes them.
    open spec fn valid_bytes(b: Seq<u8>) -> bool {
        is_vu64(b)
    }

    /// Canonical encodings order by the values they encode.
    open spec fn spec_cmp(a: Seq<u8>, b: Seq<u8>) -> core::cmp::Ordering {
        let va = choose|v: u64| a == vu64_bytes(v);
        let vb = choose|v: u64| b == vu64_bytes(v);
        if va == vb {
            core::cmp::Ordering::Equal
        } else if va < vb {
            core::cmp::Ordering::Less
        } else {
            core::cmp::Ordering::Greater
        }
    }

    open spec fn spec_signature() -> Seq<u8> {
        seq![0x75u8, 0x36u8, 0x34u8, 0x5fu8, 0x6cu8, 0x65u8, 0u8, 0u8]
    }

    fn from_bytes(bytes: &[u8]) -> (r: Self) {
        DbVu64(vstd::slice::slice_to_vec(bytes))
    }

    fn signature() -> (r: [u8; 8]) {
        let r: [u8; 8] = [0x75u8, 0x36u8, 0x34u8, 0x5fu8, 0x6cu8, 0x65u8, 0u8, 0u8];
        proof {
            assert(r@ =~= Self::spec_signature());
        }
        r
    }

    fn as_bytes(&self) -> (r: &[u8]) {
        self.0.as_slice()
    }

    /// Compares by decoded value; two canonical encodings decode equal
    /// exactly when their bytes are equal.
    fn cmp_u8(&self, other: &[u8]) -> (r: core::cmp::Ordering) {
        proof {
            assert(self.0@.subrange(0, self.0@.len() as int) =~= self.0@);
            assert(other@.subrange(0, other@.len() as int) =~= other@);
        }
        let my: u64 = match vu64_decode_prefix(self.0.as_slice()) {
            Some(v) => v,
            None => {
                proof {
                    let w = choose|w: u64| self.0@ == vu64_bytes(w);
                    assert(crate::varint::starts_with_vu64(self.0@, w));
                    assert(false);
                }
                return core::cmp::Ordering::Equal;
            },
        };
        let other_v: u64 = match vu64_decode_prefix(other) {
            Some(v) => v,
            None => {
                proof {
                    let w = choose|w: u64| other@ == vu64_bytes(w);
                    assert(crate::varint::starts_with_vu64(other@, w));
                    assert(false);
                }
                return core::cmp::Ordering::Equal;
            },
        };
        proof {
            let w1 = choose|w: u64| self.0@ == vu64_bytes(w);
            assert(crate::varint::starts_with_vu64(self.0@, w1));
            assert(my == w1);
            let w2 = choose|w: u64| other@ == vu64_bytes(w);
            assert(crate::varint::starts_with_vu64(other@, w2));
            assert(other_v == w2);
            if self.0@ == other@ {
                assert(crate::varint::starts_with_vu64(self.0@, w2));
            }
            assert(w1 == choose|v: u64| self.key_bytes() == vu64_bytes(v));
            assert(w2 == choose|v: u64| other@ == vu64_bytes(v));
        }
        if my == other_v {
            core::cmp::Ordering::Equal
        } else if my < other_v {
            core::cmp::Ordering::Less
        } else {
            core::cmp::Ordering::Greater
        }
    }
}

impl From<u64> for DbVu64 {
    fn from(a: u64) -> (r: DbVu64) {
        DbVu64(vu64_encode(a))
    }
}

impl vstd::std_specs::convert::FromSpecImpl<u64> for DbVu64 {
    open spec fn obeys_from_spec() -> bool {
        false
    }

    open spec fn from_spec(a: u64) -> DbVu64 {
        vstd::pervasive::arbitrary()
    }
}

impl From<&u64> for DbVu64 {
    fn from(a: &u64) -> (r: DbVu64) {
        DbVu64(vu64_encode(*a))
    }
}

impl vstd::std_specs::convert::FromSpecImpl<&u64> for DbVu64 {
    open spec fn obeys_from_spec() -> bool {
        false
    }

    open spec fn from_spec(a: &u64) -> DbVu64 {
        vstd::pervasive::arbitrary()
    }
}

impl From<&[u8]> for DbVu64 {
    fn from(a: &[u8]) -> (r: DbVu64) {
        DbVu64(vstd::slice::slice_to_vec(a))
    }
}

impl vstd::std_specs::convert::FromSpecImpl<&[u8]> for DbVu64 {
    open spec fn obeys_from_spec() -> bool {
        false
    }

    open spec fn from_spec(a: &[u8]) -> DbVu64 {
        vstd::pervasive::arbitrary()
    }
}

impl From<&DbVu64> for DbVu64 {
    fn from(a: &DbVu64) -> (r: DbVu64) {
        DbVu64(vstd::slice::slice_to_vec(a.0.as_slice()))
    }
}

impl vstd::std_specs::convert::FromSpecImpl<&DbVu64> for DbVu64 {
    open spec fn obeys_from_spec() -> bool {
        false
    }

    open spec fn from_spec(a: &DbVu64) -> DbVu64 {
        vstd::pervasive::arbitrary()
    }
}

/// Checks that raw bytes are one whole canonical encoding and builds
/// the key from them: the way to recover a well-formed key from stored
/// raw bytes, for example out of an iterator.
pub fn checked_vu64_key(bytes: &[u8]) -> (r: Option<DbVu64>)
    ensures
        match r {
            Some(k) => k.key_bytes() == bytes@ && is_vu64(bytes@),
            None => !is_vu64(bytes@),
        },
{
    let decoded = match vu64_decode_prefix(bytes) {
        Some(v) => v,
        None => {
            proof {
                if is_vu64(bytes@) {
                    let w = choose|w: u64| bytes@ == vu64_bytes(w);
                    assert(bytes@.subrange(0, bytes@.len() as int) =~= bytes@);
                    assert(crate::varint::starts_with_vu64(bytes@, w));
                }
            }
            return None;
        },
    };
    let enc = crate::varint::vu64_encoded_len(decoded);
    if enc as usize == bytes.len() {
        proof {
            assert(bytes@.subrange(0, bytes@.len() as int) =~= bytes@);
        }
        Some(DbVu64(vstd::slice::slice_to_vec(bytes)))
    } else {
        proof {
            if is_vu64(bytes@) {
                let w = choose|w: u64| bytes@ == vu64_bytes(w);
                assert(bytes@.subrange(0, bytes@.len() as int) =~= bytes@);
                assert(crate::varint::starts_with_vu64(bytes@, w));
                assert(w == decoded);
            }
        }
        None
    }
}

/// Builds the key for a 64-bit value; its bytes are the canonical
/// encoding of that value.
pub fn vu64_key(a: u64) -> (r: DbVu64)
    ensures
        r.key_bytes() == vu64_bytes(a),
        is_vu64(r.key_bytes()),
{
    DbVu64(vu64_encode(a))
}

} // verus!
