//! The text key type: a key is a raw byte string, usually text.
use crate::hash::bytes_hash_value;
use crate::util::compare_bytes;
use crate::DbMapKeyType;
use crate::HashValue;
use vstd::prelude::*;

verus! {

/// A text key held as its raw bytes.
#[derive(Debug, Default, Clone, PartialEq, PartialOrd, Eq, Ord, Hash)]
pub struct DbString(Vec<u8>);

impl HashValue for DbString {
    closed spec fn key_bytes(&self) -> Seq<u8> {
        self.0@
    }

    fn hash_value(&self) -> (r: u64) {
        bytes_hash_value(self.0.as_slice())
    }
}

impl DbMapKeyType for DbString {
    open spec fn valid_bytes(b: Seq<u8>) -> bool {
        true
    }

    open spec fn spec_cmp(a: Seq<u8>, b: Seq<u8>) -> core::cmp::Ordering {
        crate::util::spec_lex_cmp(a, b)
    }

    open spec fn spec_signature() -> Seq<u8> {
        seq![0x73u8, 0x74u8, 0x72u8, 0x69u8, 0x6eu8, 0x67u8, 0u8, 0u8]
    }

    fn from_bytes(bytes: &[u8]) -> (r: Self) {
        DbString(vstd::slice::slice_to_vec(bytes))
    }

    fn signature() -> (r: [u8; 8]) {
        let r: [u8; 8] = [0x73u8, 0x74u8, 0x72u8, 0x69u8, 0x6eu8, 0x67u8, 0u8, 0u8];
        proof {
            assert(r@ =~= Self::spec_signature());
        }
        r
    }

    fn as_bytes(&self) -> (r: &[u8]) {
        self.0.as_slice()
    }

    fn cmp_u8(&self, other: &[u8]) -> (r: core::cmp::Ordering) {
        compare_bytes(self.0.as_slice(), other)
    }
}

impl From<&str> for DbString {
    fn from(a: &str) -> (r: DbString) {
        DbString(vstd::slice::slice_to_vec(a.as_bytes()))
    }
}

impl vstd::std_specs::convert::FromSpecImpl<&str> for DbString {
    open spec fn obeys_from_spec() -> bool {
        false
    }

    open spec fn from_spec(a: &str) -> DbString {
        vstd::pervasive::arbitrary()
    }
}

impl From<String> for DbString {
    fn from(a: String) -> (r: DbString) {
        DbString(vstd::slice::slice_to_vec(a.as_str().as_bytes()))
    }
}

impl vstd::std_specs::convert::FromSpecImpl<String> for DbString {
    open spec fn obeys_from_spec() -> bool {
        false
    }

    open spec fn from_spec(a: String) -> DbString {
        vstd::pervasive::arbitrary()
    }
}

impl From<&String> for DbString {
    fn from(a: &String) -> (r: DbString) {
        DbString(vstd::slice::slice_to_vec(a.as_str().as_bytes()))
    }
}

impl vstd::std_specs::convert::FromSpecImpl<&String> for DbString {
    open spec fn obeys_from_spec() -> bool {
        false
    }

    open spec fn from_spec(a: &String) -> DbString {
        vstd::pervasive::arbitrary()
    }
}

impl From<&[u8]> for DbString {
    fn from(a: &[u8]) -> (r: DbString) {
        DbString(vstd::slice::slice_to_vec(a))
    }
}

impl vstd::std_specs::convert::FromSpecImpl<&[u8]> for DbString {
    open spec fn obeys_from_spec() -> bool {
        false
    }

    open spec fn from_spec(a: &[u8]) -> DbString {
        vstd::pervasive::arbitrary()
    }
}

impl From<Vec<u8>> for DbString {
    fn from(a: Vec<u8>) -> (r: DbString) {
        DbString(a)
    }
}

impl vstd::std_specs::convert::FromSpecImpl<Vec<u8>> for DbString {
    open spec fn obeys_from_spec() -> bool {
        false
    }

    open spec fn from_spec(a: Vec<u8>) -> DbString {
        vstd::pervasive::arbitrary()
    }
}

impl From<&DbString> for DbString {
    fn from(a: &DbString) -> (r: DbString) {
        DbString(vstd::slice::slice_to_vec(a.0.as_slice()))
    }
}

impl vstd::std_specs::convert::FromSpecImpl<&DbString> for DbString {
    open spec fn obeys_from_spec() -> bool {
        false
    }

    open spec fn from_spec(a: &DbString) -> DbString {
        vstd::pervasive::arbitrary()
    }
}

/// Builds the key for a text value; its bytes are the text's bytes.
pub fn string_key(a: &str) -> (r: DbString)
    ensures
        r.key_bytes() == vstd::utf8::encode_utf8(a@),
{
    DbString(vstd::slice::slice_to_vec(a.as_bytes()))
}

} // verus!
