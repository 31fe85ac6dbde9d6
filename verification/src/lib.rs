//! An embedded, single-process key-value store: independent named keyspaces,
//! each a fixed-size hash-bucket table with chained collision resolution over
//! piece-based key and value storage, together with a compact binary
//! directory image and explicit flush/sync durability.
#![allow(unused_imports)]
use vstd::prelude::*;

pub mod codec;
pub mod dbmap;
pub mod dbxxx;
pub mod filedb;
pub mod hash;
pub mod htx;
pub mod laws;
pub mod kt_dbbytes;
pub mod kt_dbi64;
pub mod kt_dbstring;
pub mod kt_dbu64;
pub mod kt_dbvu64;
pub mod piece;
pub mod stats;
pub mod util;
pub mod varint;

pub use dbmap::DbXxxIntoIter;
pub use dbmap::DbXxxIter;
pub use dbmap::DbXxxIterMut;
pub use dbmap::DbXxxKeys;
pub use dbmap::DbXxxValues;
pub use dbmap::FileDbMap;
pub use dbmap::FileDbMapDbBytes;
pub use dbmap::FileDbMapDbI64;
pub use dbmap::FileDbMapDbString;
pub use dbmap::FileDbMapDbU64;
pub use dbmap::FileDbMapDbVu64;
pub use dbxxx::FileDbXxxInner;
pub use filedb::FileBufSizeParam;
pub use filedb::FileDb;
pub use filedb::FileDbInner;
pub use filedb::FileDbParams;
pub use filedb::HashBucketsParam;
pub use stats::CheckFileDbMap;
pub use stats::CountOfPerSize;
pub use stats::KeysCountStats;
pub use stats::LengthStats;
pub use stats::RecordSizeStats;
pub use kt_dbbytes::bytes_key;
pub use kt_dbbytes::DbBytes;
pub use kt_dbi64::i64_key;
pub use kt_dbi64::DbI64;
pub use kt_dbstring::string_key;
pub use kt_dbstring::DbString;
pub use kt_dbu64::u64_key;
pub use kt_dbu64::DbU64;
pub use kt_dbvu64::checked_vu64_key;
pub use kt_dbvu64::vu64_key;
pub use kt_dbvu64::DbVu64;

pub use htx::capacity_to_buckets_size;
pub use htx::HtxFile;

verus! {

/// Errors surfaced by the store.
///
/// `TooLarge` reports exhaustion of the 64-bit offset space or a piece
/// beyond the 32-bit size field; `ZeroCapacity` rejects creating a keyspace
/// with a zero capacity hint; `InvalidSignature` is the fatal mismatch of a
/// header signature on reopen; `Corrupt` reports an undecodable image.
#[derive(Debug, Clone, Copy, PartialEq, Eq)]
pub enum DbError {
    TooLarge,
    ZeroCapacity,
    InvalidSignature,
    Corrupt,
}

/// Hashing of raw key bytes for bucket placement.
pub trait HashValue {
    /// The raw bytes that stand for this key on file.
    spec fn key_bytes(&self) -> Seq<u8>;

    /// The 64-bit hash of the raw key bytes.
    fn hash_value(&self) -> (r: u64)
        ensures
            r == crate::hash::spec_hash_bytes(self.key_bytes()),
    ;
}

/// A key type: a conversion between domain values and the raw comparable
/// byte sequences that the keyspace stores, an 8-byte type signature that
/// tags the keyspace on file, and a byte-level comparator.
pub trait DbMapKeyType: HashValue + Sized {
    /// Which byte sequences are well-formed keys of this type. Operations
    /// on a keyspace only accept well-formed keys; for most key types
    /// every byte sequence is well formed.
    spec fn valid_bytes(b: Seq<u8>) -> bool;

    /// How well-formed raw keys of this type order: lexicographic byte
    /// order for the plain types, decoded-value order for the
    /// variable-length integer keys.
    spec fn spec_cmp(a: Seq<u8>, b: Seq<u8>) -> core::cmp::Ordering;

    /// The signature value as a byte sequence.
    spec fn spec_signature() -> Seq<u8>;

    /// Converts a stored byte sequence back to a key.
    fn from_bytes(bytes: &[u8]) -> (r: Self)
        ensures
            r.key_bytes() == bytes@,
    ;

    /// The per-key-type tag written into the directory header.
    fn signature() -> (r: [u8; 8])
        ensures
            r@ == Self::spec_signature(),
    ;

    /// The raw bytes to be stored for this key.
    fn as_bytes(&self) -> (r: &[u8])
        ensures
            r@ == self.key_bytes(),
    ;

    /// Compares this key against stored raw bytes in the key type's
    /// order; equality coincides with equality of the raw byte
    /// sequences.
    fn cmp_u8(&self, other: &[u8]) -> (r: core::cmp::Ordering)
        requires
            Self::valid_bytes(self.key_bytes()),
            Self::valid_bytes(other@),
        ensures
            r == Self::spec_cmp(self.key_bytes(), other@),
            (r == core::cmp::Ordering::Equal) <==> (self.key_bytes() == other@),
    ;
}

/// The base interface of a keyspace: its size and its durability
/// operations, independent of the key type.
pub trait DbXxxBase: Sized {
    /// The abstract contents: a map from raw key bytes to value bytes.
    spec fn db_view(&self) -> Map<Seq<u8>, Seq<u8>>;

    /// The representation invariant.
    spec fn db_wf(&self) -> bool;

    /// Whether changes since the last flush or sync are still pending.
    spec fn db_dirty(&self) -> bool;

    /// The number of elements in the map.
    fn len(&self) -> (r: Result<u64, DbError>)
        requires
            self.db_wf(),
        ensures
            match r {
                Ok(l) => self.db_view().dom().finite() && l as int == self.db_view().dom().len(),
                Err(_) => false,
            },
    ;

    /// Whether the map holds no element.
    fn is_empty(&self) -> (r: Result<bool, DbError>)
        requires
            self.db_wf(),
        ensures
            match r {
                Ok(b) => self.db_view().dom().finite() && b == (self.db_view().dom().len() == 0),
                Err(_) => false,
            },
    ;

    /// Pre-reads file buffers; the in-memory state is already complete,
    /// so nothing changes.
    fn read_fill_buffer(&mut self) -> (r: Result<(), DbError>)
        requires
            old(self).db_wf(),
        ensures
            r.is_ok(),
            *final(self) == *old(self),
    ;

    /// Writes pending changes out to the durable images and clears the
    /// dirty flag.
    fn flush(&mut self) -> (r: Result<(), DbError>)
        requires
            old(self).db_wf(),
        ensures
            r.is_ok(),
            final(self).db_wf(),
            final(self).db_view() == old(self).db_view(),
            !final(self).db_dirty(),
    ;

    /// Synchronizes all contents and metadata; on the durable images this
    /// acts as `flush` does.
    fn sync_all(&mut self) -> (r: Result<(), DbError>)
        requires
            old(self).db_wf(),
        ensures
            r.is_ok(),
            final(self).db_wf(),
            final(self).db_view() == old(self).db_view(),
            !final(self).db_dirty(),
    ;

    /// Synchronizes contents; on the durable images this acts as `flush`
    /// does.
    fn sync_data(&mut self) -> (r: Result<(), DbError>)
        requires
            old(self).db_wf(),
        ensures
            r.is_ok(),
            final(self).db_wf(),
            final(self).db_view() == old(self).db_view(),
            !final(self).db_dirty(),
    ;
}

/// The object-safe keyed interface of a keyspace.
pub trait DbXxxObjectSafe<KT: DbMapKeyType>: DbXxxBase {
    /// Whether a put of this key and value must fail for want of space in
    /// the 32-bit piece sizes, the 64-bit offset space, or the 64-bit
    /// item count.
    spec fn db_put_overflows(&self, k: Seq<u8>, v: Seq<u8>) -> bool;

    /// Returns the value stored for the key.
    fn get_kt(&mut self, key: &KT) -> (r: Result<Option<Vec<u8>>, DbError>)
        requires
            old(self).db_wf(),
            KT::valid_bytes(key.key_bytes()),
        ensures
            *final(self) == *old(self),
            match r {
                Ok(Some(v)) => old(self).db_view().contains_key(key.key_bytes()) && v@ == old(
                    self,
                ).db_view()[key.key_bytes()],
                Ok(None) => !old(self).db_view().contains_key(key.key_bytes()),
                Err(_) => false,
            },
    ;

    /// Inserts a key-value pair, overwriting any value stored for the key.
    fn put_kt(&mut self, key: &KT, value: &[u8]) -> (r: Result<(), DbError>)
        requires
            old(self).db_wf(),
            KT::valid_bytes(key.key_bytes()),
        ensures
            final(self).db_wf(),
            match r {
                Ok(()) => final(self).db_view() == old(self).db_view().insert(
                    key.key_bytes(),
                    value@,
                ) && final(self).db_dirty(),
                Err(e) => e == DbError::TooLarge && *final(self) == *old(self),
            },
            r.is_ok() <==> !old(self).db_put_overflows(key.key_bytes(), value@),
    ;

    /// Removes a key and returns the value it held.
    fn del_kt(&mut self, key: &KT) -> (r: Result<Option<Vec<u8>>, DbError>)
        requires
            old(self).db_wf(),
            KT::valid_bytes(key.key_bytes()),
        ensures
            final(self).db_wf(),
            final(self).db_view() == old(self).db_view().remove(key.key_bytes()),
            match r {
                Ok(Some(v)) => old(self).db_view().contains_key(key.key_bytes()) && v@ == old(
                    self,
                ).db_view()[key.key_bytes()] && final(self).db_dirty(),
                Ok(None) => !old(self).db_view().contains_key(key.key_bytes()) && *final(self)
                    == *old(self),
                Err(_) => false,
            },
    ;

    /// Whether the map holds a value for the key.
    fn includes_key_kt(&mut self, key: &KT) -> (r: Result<bool, DbError>)
        requires
            old(self).db_wf(),
            KT::valid_bytes(key.key_bytes()),
        ensures
            *final(self) == *old(self),
            match r {
                Ok(b) => b == old(self).db_view().contains_key(key.key_bytes()),
                Err(_) => false,
            },
    ;
}

/// Map contents after inserting the listed pairs in order; a later pair
/// with the same key wins.
pub open spec fn spec_bulk_put(m: Map<Seq<u8>, Seq<u8>>, items: Seq<(Seq<u8>, Seq<u8>)>) -> Map<
    Seq<u8>,
    Seq<u8>,
>
    decreases items.len(),
{
    if items.len() == 0 {
        m
    } else {
        spec_bulk_put(m, items.drop_last()).insert(items.last().0, items.last().1)
    }
}

/// Map contents after deleting the listed keys in order.
pub open spec fn spec_bulk_del(m: Map<Seq<u8>, Seq<u8>>, keys: Seq<Seq<u8>>) -> Map<
    Seq<u8>,
    Seq<u8>,
>
    decreases keys.len(),
{
    if keys.len() == 0 {
        m
    } else {
        spec_bulk_del(m, keys.drop_last()).remove(keys.last())
    }
}

/// The key-value byte pairs a bulk put list stands for.
pub open spec fn spec_bulk_pairs<KT: DbMapKeyType>(bulk: Seq<(KT, Vec<u8>)>) -> Seq<
    (Seq<u8>, Seq<u8>),
> {
    bulk.map_values(|p: (KT, Vec<u8>)| (p.0.key_bytes(), p.1@))
}

/// The key-value byte pairs a bulk put list of text values stands for.
pub open spec fn spec_bulk_string_pairs<KT: DbMapKeyType>(bulk: Seq<(KT, String)>) -> Seq<
    (Seq<u8>, Seq<u8>),
> {
    bulk.map_values(|p: (KT, String)| (p.0.key_bytes(), vstd::utf8::encode_utf8(p.1@)))
}

/// The keyed convenience interface: string values and bulk operations.
pub trait DbXxx<KT: DbMapKeyType>: DbXxxObjectSafe<KT> {
    /// Returns the value stored for the key.
    fn get(&mut self, key: &KT) -> (r: Result<Option<Vec<u8>>, DbError>)
        requires
            old(self).db_wf(),
            KT::valid_bytes(key.key_bytes()),
        ensures
            *final(self) == *old(self),
            match r {
                Ok(Some(v)) => old(self).db_view().contains_key(key.key_bytes()) && v@ == old(
                    self,
                ).db_view()[key.key_bytes()],
                Ok(None) => !old(self).db_view().contains_key(key.key_bytes()),
                Err(_) => false,
            },
    ;

    /// Returns the value stored for the key, lossily decoded as text.
    fn get_string(&mut self, key: &KT) -> (r: Result<Option<String>, DbError>)
        requires
            old(self).db_wf(),
            KT::valid_bytes(key.key_bytes()),
        ensures
            *final(self) == *old(self),
            match r {
                Ok(Some(s)) => old(self).db_view().contains_key(key.key_bytes()) && s@
                    == crate::util::lossy_utf8(old(self).db_view()[key.key_bytes()]),
                Ok(None) => !old(self).db_view().contains_key(key.key_bytes()),
                Err(_) => false,
            },
    ;

    /// Inserts a key-value pair.
    fn put(&mut self, key: &KT, value: &[u8]) -> (r: Result<(), DbError>)
        requires
            old(self).db_wf(),
            KT::valid_bytes(key.key_bytes()),
        ensures
            final(self).db_wf(),
            match r {
                Ok(()) => final(self).db_view() == old(self).db_view().insert(
                    key.key_bytes(),
                    value@,
                ) && final(self).db_dirty(),
                Err(e) => e == DbError::TooLarge && *final(self) == *old(self),
            },
            r.is_ok() <==> !old(self).db_put_overflows(key.key_bytes(), value@),
    ;

    /// Inserts a key-value pair, the value given as text.
    fn put_string(&mut self, key: &KT, value: &str) -> (r: Result<(), DbError>)
        requires
            old(self).db_wf(),
            KT::valid_bytes(key.key_bytes()),
        ensures
            final(self).db_wf(),
            match r {
                Ok(()) => final(self).db_view() == old(self).db_view().insert(
                    key.key_bytes(),
                    vstd::utf8::encode_utf8(value@),
                ) && final(self).db_dirty(),
                Err(e) => e == DbError::TooLarge && *final(self) == *old(self),
            },
            r.is_ok() <==> !old(self).db_put_overflows(
                key.key_bytes(),
                vstd::utf8::encode_utf8(value@),
            ),
    ;

    /// Removes a key and returns the value it held.
    fn delete(&mut self, key: &KT) -> (r: Result<Option<Vec<u8>>, DbError>)
        requires
            old(self).db_wf(),
            KT::valid_bytes(key.key_bytes()),
        ensures
            final(self).db_wf(),
            final(self).db_view() == old(self).db_view().remove(key.key_bytes()),
            match r {
                Ok(Some(v)) => old(self).db_view().contains_key(key.key_bytes()) && v@ == old(
                    self,
                ).db_view()[key.key_bytes()] && final(self).db_dirty(),
                Ok(None) => !old(self).db_view().contains_key(key.key_bytes()) && *final(self)
                    == *old(self),
                Err(_) => false,
            },
    ;

    /// Removes a key and returns the value it held, lossily decoded as
    /// text.
    fn delete_string(&mut self, key: &KT) -> (r: Result<Option<String>, DbError>)
        requires
            old(self).db_wf(),
            KT::valid_bytes(key.key_bytes()),
        ensures
            final(self).db_wf(),
            final(self).db_view() == old(self).db_view().remove(key.key_bytes()),
            match r {
                Ok(Some(s)) => old(self).db_view().contains_key(key.key_bytes()) && s@
                    == crate::util::lossy_utf8(old(self).db_view()[key.key_bytes()]),
                Ok(None) => !old(self).db_view().contains_key(key.key_bytes()),
                Err(_) => false,
            },
    ;

    /// Whether the map holds a value for the key.
    fn includes_key(&mut self, key: &KT) -> (r: Result<bool, DbError>)
        requires
            old(self).db_wf(),
            KT::valid_bytes(key.key_bytes()),
        ensures
            *final(self) == *old(self),
            match r {
                Ok(b) => b == old(self).db_view().contains_key(key.key_bytes()),
                Err(_) => false,
            },
    ;

    /// Looks up each listed key in order.
    fn bulk_get(&mut self, bulk_keys: &Vec<KT>) -> (r: Result<Vec<Option<Vec<u8>>>, DbError>)
        requires
            old(self).db_wf(),
            forall|t: int|
                0 <= t < bulk_keys@.len() ==> KT::valid_bytes(
                    (#[trigger] bulk_keys@[t]).key_bytes(),
                ),
        ensures
            *final(self) == *old(self),
            match r {
                Ok(rs) => rs@.len() == bulk_keys@.len() && forall|t: int|
                    0 <= t < rs@.len() ==> match #[trigger] rs@[t] {
                        Some(v) => old(self).db_view().contains_key(bulk_keys@[t].key_bytes())
                            && v@ == old(self).db_view()[bulk_keys@[t].key_bytes()],
                        None => !old(self).db_view().contains_key(bulk_keys@[t].key_bytes()),
                    },
                Err(_) => false,
            },
    ;

    /// Looks up each listed key in order, values lossily decoded as text.
    fn bulk_get_string(&mut self, bulk_keys: &Vec<KT>) -> (r: Result<Vec<Option<String>>, DbError>)
        requires
            old(self).db_wf(),
            forall|t: int|
                0 <= t < bulk_keys@.len() ==> KT::valid_bytes(
                    (#[trigger] bulk_keys@[t]).key_bytes(),
                ),
        ensures
            *final(self) == *old(self),
            match r {
                Ok(rs) => rs@.len() == bulk_keys@.len() && forall|t: int|
                    0 <= t < rs@.len() ==> match #[trigger] rs@[t] {
                        Some(s) => old(self).db_view().contains_key(bulk_keys@[t].key_bytes())
                            && s@ == crate::util::lossy_utf8(
                            old(self).db_view()[bulk_keys@[t].key_bytes()],
                        ),
                        None => !old(self).db_view().contains_key(bulk_keys@[t].key_bytes()),
                    },
                Err(_) => false,
            },
    ;

    /// Inserts each listed pair in order.
    fn bulk_put(&mut self, bulk: &Vec<(KT, Vec<u8>)>) -> (r: Result<(), DbError>)
        requires
            old(self).db_wf(),
            forall|t: int|
                0 <= t < bulk@.len() ==> KT::valid_bytes((#[trigger] bulk@[t]).0.key_bytes()),
        ensures
            final(self).db_wf(),
            match r {
                Ok(()) => final(self).db_view() == spec_bulk_put(
                    old(self).db_view(),
                    spec_bulk_pairs(bulk@),
                ),
                Err(e) => e == DbError::TooLarge && exists|t: int|
                    0 <= t <= bulk@.len() && final(self).db_view() == #[trigger] spec_bulk_put(
                        old(self).db_view(),
                        spec_bulk_pairs(bulk@).take(t),
                    ),
            },
    ;

    /// Inserts each listed pair in order, values given as text.
    fn bulk_put_string(&mut self, bulk: &Vec<(KT, String)>) -> (r: Result<(), DbError>)
        requires
            old(self).db_wf(),
            forall|t: int|
                0 <= t < bulk@.len() ==> KT::valid_bytes((#[trigger] bulk@[t]).0.key_bytes()),
        ensures
            final(self).db_wf(),
            match r {
                Ok(()) => final(self).db_view() == spec_bulk_put(
                    old(self).db_view(),
                    spec_bulk_string_pairs(bulk@),
                ),
                Err(e) => e == DbError::TooLarge && exists|t: int|
                    0 <= t <= bulk@.len() && final(self).db_view() == #[trigger] spec_bulk_put(
                        old(self).db_view(),
                        spec_bulk_string_pairs(bulk@).take(t),
                    ),
            },
    ;

    /// Deletes each listed key in order, returning for each the value it
    /// held right before its own deletion.
    fn bulk_delete(&mut self, bulk_keys: &Vec<KT>) -> (r: Result<Vec<Option<Vec<u8>>>, DbError>)
        requires
            old(self).db_wf(),
            forall|t: int|
                0 <= t < bulk_keys@.len() ==> KT::valid_bytes(
                    (#[trigger] bulk_keys@[t]).key_bytes(),
                ),
        ensures
            final(self).db_wf(),
            final(self).db_view() == spec_bulk_del(
                old(self).db_view(),
                bulk_keys@.map_values(|k: KT| k.key_bytes()),
            ),
            match r {
                Ok(rs) => rs@.len() == bulk_keys@.len() && forall|t: int|
                    0 <= t < rs@.len() ==> {
                        let m_t = spec_bulk_del(
                            old(self).db_view(),
                            bulk_keys@.map_values(|k: KT| k.key_bytes()).take(t),
                        );
                        match #[trigger] rs@[t] {
                            Some(v) => m_t.contains_key(bulk_keys@[t].key_bytes()) && v@
                                == m_t[bulk_keys@[t].key_bytes()],
                            None => !m_t.contains_key(bulk_keys@[t].key_bytes()),
                        }
                    },
                Err(_) => false,
            },
    ;

    /// Deletes each listed key in order, returning for each the value it
    /// held right before its own deletion, lossily decoded as text.
    fn bulk_delete_string(&mut self, bulk_keys: &Vec<KT>) -> (r: Result<
        Vec<Option<String>>,
        DbError,
    >)
        requires
            old(self).db_wf(),
            forall|t: int|
                0 <= t < bulk_keys@.len() ==> KT::valid_bytes(
                    (#[trigger] bulk_keys@[t]).key_bytes(),
                ),
        ensures
            final(self).db_wf(),
            final(self).db_view() == spec_bulk_del(
                old(self).db_view(),
                bulk_keys@.map_values(|k: KT| k.key_bytes()),
            ),
            match r {
                Ok(rs) => rs@.len() == bulk_keys@.len() && forall|t: int|
                    0 <= t < rs@.len() ==> {
                        let m_t = spec_bulk_del(
                            old(self).db_view(),
                            bulk_keys@.map_values(|k: KT| k.key_bytes()).take(t),
                        );
                        match #[trigger] rs@[t] {
                            Some(s) => m_t.contains_key(bulk_keys@[t].key_bytes()) && s@
                                == crate::util::lossy_utf8(m_t[bulk_keys@[t].key_bytes()]),
                            None => !m_t.contains_key(bulk_keys@[t].key_bytes()),
                        }
                    },
                Err(_) => false,
            },
    ;

    /// Inserts every pair of the list in order.
    fn put_from_iter(&mut self, items: &Vec<(KT, Vec<u8>)>) -> (r: Result<(), DbError>)
        requires
            old(self).db_wf(),
            forall|t: int|
                0 <= t < items@.len() ==> KT::valid_bytes((#[trigger] items@[t]).0.key_bytes()),
        ensures
            final(self).db_wf(),
            match r {
                Ok(()) => final(self).db_view() == spec_bulk_put(
                    old(self).db_view(),
                    spec_bulk_pairs(items@),
                ),
                Err(e) => e == DbError::TooLarge && exists|t: int|
                    0 <= t <= items@.len() && final(self).db_view() == #[trigger] spec_bulk_put(
                        old(self).db_view(),
                        spec_bulk_pairs(items@).take(t),
                    ),
            },
    ;
}

/// Opens a database: a registry of named keyspaces stored under one
/// path. Behaves exactly as opening the database directly: the path is
/// recorded and no keyspaces are held yet.
pub fn open_file(path: &str) -> (r: Result<filedb::FileDb, DbError>)
    ensures
        match r {
            Ok(d) => {
                &&& d.wf()
                &&& d.spec_path() == vstd::utf8::encode_utf8(path@)
                &&& d.string_reg().len() == 0
                &&& d.bytes_reg().len() == 0
                &&& d.i64_reg().len() == 0
                &&& d.u64_reg().len() == 0
                &&& d.vu64_reg().len() == 0
            },
            Err(_) => false,
        },
{
    filedb::FileDb::open(path)
}

} // verus!
