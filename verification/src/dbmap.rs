//! The typed keyspace handle and its iterators. A `FileDbMap` owns one
//! keyspace engine; iterators snapshot the pairs at construction and hand
//! them out one by one.
use crate::dbxxx::FileDbXxxInner;
use crate::filedb::FileDbParams;
use crate::DbError;
use crate::DbMapKeyType;
use crate::DbXxx;
use crate::DbXxxBase;
use crate::DbXxxObjectSafe;
use crate::HashValue;
use crate::spec_bulk_del;
use crate::spec_bulk_put;
use vstd::prelude::*;

verus! {

/// Whether a pair list holds exactly the contents of a map: every listed
/// pair is in the map, no key is listed twice, and every key of the map
/// is listed.
pub open spec fn pairs_of<KT: DbMapKeyType>(
    s: Seq<(KT, Vec<u8>)>,
    m: Map<Seq<u8>, Seq<u8>>,
) -> bool {
    &&& forall|t: int|
        0 <= t < s.len() ==> m.contains_key((#[trigger] s[t]).0.key_bytes()) && s[t].1@
            == m[s[t].0.key_bytes()]
    &&& forall|t1: int, t2: int|
        0 <= t1 < t2 < s.len() ==> s[t1].0.key_bytes() != s[t2].0.key_bytes()
    &&& forall|k: Seq<u8>|
        m.contains_key(k) ==> exists|t: int| 0 <= t < s.len() && (#[trigger] s[t]).0.key_bytes()
            == k
}

/// A keyspace handle with a typed key.
pub struct FileDbMap<KT: DbMapKeyType> {
    inner: FileDbXxxInner<KT>,
}

/// A keyspace keyed by text.
pub type FileDbMapDbString = FileDbMap<crate::DbString>;

/// A keyspace keyed by raw bytes.
pub type FileDbMapDbBytes = FileDbMap<crate::DbBytes>;

/// A keyspace keyed by signed 64-bit integers.
pub type FileDbMapDbI64 = FileDbMap<crate::DbI64>;

/// A keyspace keyed by unsigned 64-bit integers.
pub type FileDbMapDbU64 = FileDbMap<crate::DbU64>;

/// A keyspace keyed by variable-length unsigned integers.
pub type FileDbMapDbVu64 = FileDbMap<crate::DbVu64>;

impl<KT: DbMapKeyType> FileDbMap<KT> {
    /// Opens a fresh keyspace sized from the parameters.
    pub fn open(params: &FileDbParams) -> (r: Result<FileDbMap<KT>, DbError>)
        ensures
            match r {
                Ok(d) => d.db_wf() && d.db_view() == Map::<Seq<u8>, Seq<u8>>::empty()
                    && !d.db_dirty() && d.spec_type_tagged()
                    && crate::stats::CheckFileDbMap::db_buckets(&d)
                    == crate::filedb::spec_buckets_of_params(*params),
                Err(e) => if params.buckets_size matches crate::filedb::HashBucketsParam::Capacity(
                    c,
                ) && c == 0 {
                    e == DbError::ZeroCapacity
                } else {
                    e == DbError::TooLarge
                },
            },
            (params.buckets_size matches crate::filedb::HashBucketsParam::Capacity(c) && c == 0)
                ==> r.is_err(),
            crate::filedb::spec_params_accepted(*params) ==> r.is_ok(),
    {
        match FileDbXxxInner::<KT>::open_with_params(params) {
            Ok(inner) => Ok(FileDbMap { inner }),
            Err(e) => Err(e),
        }
    }

    /// Whether changes since the last flush or sync are pending.
    pub fn is_dirty(&self) -> (r: bool)
        ensures
            r == self.db_dirty(),
    {
        self.inner.is_dirty()
    }

    /// An iterator over all key-value pairs, in an arbitrary order.
    pub fn iter(&self) -> (r: Result<DbXxxIter<KT>, DbError>)
        requires
            self.db_wf(),
        ensures
            match r {
                Ok(it) => self.db_view().dom().finite() && it.remaining().len()
                    == self.db_view().dom().len() && pairs_of(it.remaining(), self.db_view()),
                Err(_) => false,
            },
    {
        DbXxxIter::new(&self.inner)
    }

    /// An iterator over all key-value pairs that allows replacing values
    /// through later puts.
    pub fn iter_mut(&mut self) -> (r: Result<DbXxxIterMut<KT>, DbError>)
        requires
            old(self).db_wf(),
        ensures
            *final(self) == *old(self),
            match r {
                Ok(it) => old(self).db_view().dom().finite() && it.remaining().len() == old(
                    self,
                ).db_view().dom().len() && pairs_of(it.remaining(), old(self).db_view()),
                Err(_) => false,
            },
    {
        DbXxxIterMut::new(&self.inner)
    }

    /// Consumes the handle into an iterator over all pairs.
    pub fn into_iter(self) -> (r: Result<DbXxxIntoIter<KT>, DbError>)
        requires
            self.db_wf(),
        ensures
            match r {
                Ok(it) => self.db_view().dom().finite() && it.remaining().len()
                    == self.db_view().dom().len() && pairs_of(it.remaining(), self.db_view()),
                Err(_) => false,
            },
    {
        DbXxxIntoIter::new(&self.inner)
    }

    /// An iterator over all keys, in an arbitrary order: every live key
    /// exactly once.
    pub fn keys(&self) -> (r: Result<DbXxxKeys<KT>, DbError>)
        requires
            self.db_wf(),
        ensures
            match r {
                Ok(it) => {
                    &&& self.db_view().dom().finite()
                    &&& it.remaining().len() == self.db_view().dom().len()
                    &&& forall|t: int|
                        0 <= t < it.remaining().len() ==> self.db_view().contains_key(
                            (#[trigger] it.remaining()[t]).key_bytes(),
                        )
                    &&& forall|t1: int, t2: int|
                        0 <= t1 < t2 < it.remaining().len() ==> (
                        #[trigger] it.remaining()[t1]).key_bytes() != (
                        #[trigger] it.remaining()[t2]).key_bytes()
                    &&& forall|k: Seq<u8>|
                        self.db_view().contains_key(k) ==> exists|t: int|
                            0 <= t < it.remaining().len() && (
                            #[trigger] it.remaining()[t]).key_bytes() == k
                },
                Err(_) => false,
            },
    {
        DbXxxKeys::new(&self.inner)
    }

    /// Whether the directory carries this key type's signature; every
    /// keyspace this type opens or reopens does.
    pub closed spec fn spec_type_tagged(self) -> bool {
        self.inner.spec_type_tagged()
    }

    /// The durable images of the three backing files for the current
    /// contents.
    pub closed spec fn spec_images(self) -> (Seq<u8>, Seq<u8>, Seq<u8>) {
        self.inner.spec_images()
    }

    /// Encodes the current contents as the three file images: hash
    /// directory, key storage, value storage.
    pub fn to_images(&self) -> (r: (Vec<u8>, Vec<u8>, Vec<u8>))
        requires
            self.db_wf(),
        ensures
            r.0@ == self.spec_images().0,
            r.1@ == self.spec_images().1,
            r.2@ == self.spec_images().2,
    {
        self.inner.to_images()
    }

    /// Reopens a keyspace from its three file images: on the images of a
    /// well-formed keyspace of this key type it never reports a corrupt
    /// image or a signature mismatch, and the reopened keyspace holds
    /// exactly as many keys as the directory image's item count.
    pub fn open_from_images(htx_img: &[u8], key_img: &[u8], val_img: &[u8]) -> (r: Result<
        Self,
        crate::DbError,
    >)
        ensures
            match r {
                Ok(d) => d.db_wf() && !d.db_dirty() && d.spec_type_tagged()
                    && d.db_view().dom().finite() && d.db_view().dom().len() as int
                    == vstd::bytes::spec_u64_from_le_bytes(htx_img@.subrange(24, 32)) as int
                    && crate::stats::CheckFileDbMap::db_buckets(&d)
                    == vstd::bytes::spec_u64_from_le_bytes(htx_img@.subrange(16, 24)) as int,
                Err(e) => e == crate::DbError::InvalidSignature || e == crate::DbError::Corrupt
                    || e == crate::DbError::TooLarge,
            },
            (exists|d0: Self|
                #![trigger d0.spec_images()]
                d0.db_wf() && d0.spec_type_tagged() && htx_img@ == d0.spec_images().0 && key_img@
                    == d0.spec_images().1 && val_img@ == d0.spec_images().2) ==> r matches Ok(_),
    {
        proof {
            if exists|d0: Self|
                #![trigger d0.spec_images()]
                d0.db_wf() && d0.spec_type_tagged() && htx_img@ == d0.spec_images().0 && key_img@
                    == d0.spec_images().1 && val_img@ == d0.spec_images().2 {
                let d0 = choose|d0: Self|
                    #![trigger d0.spec_images()]
                    d0.db_wf() && d0.spec_type_tagged() && htx_img@ == d0.spec_images().0
                        && key_img@ == d0.spec_images().1 && val_img@ == d0.spec_images().2;
                assert(d0.inner.db_wf() && d0.inner.spec_type_tagged() && htx_img@
                    == d0.inner.spec_images().0 && key_img@ == d0.inner.spec_images().1
                    && val_img@ == d0.inner.spec_images().2);
            }
        }
        match FileDbXxxInner::<KT>::open_from_images(htx_img, key_img, val_img) {
            Ok(inner) => Ok(FileDbMap { inner }),
            Err(e) => Err(e),
        }
    }

    /// An iterator over all values, in an arbitrary order: the values of
    /// the held pairs, with multiplicity.
    pub fn values(&self) -> (r: Result<DbXxxValues<KT>, DbError>)
        requires
            self.db_wf(),
        ensures
            match r {
                Ok(it) => {
                    &&& self.db_view().dom().finite()
                    &&& pairs_of(it.source_pairs(), self.db_view())
                    &&& it.source_pairs().len() == self.db_view().dom().len()
                    &&& it.remaining().len() == it.source_pairs().len()
                    &&& forall|t: int|
                        0 <= t < it.remaining().len() ==> #[trigger] it.remaining()[t]
                            == it.source_pairs()[it.source_pairs().len() - 1 - t].1
                },
                Err(_) => false,
            },
    {
        DbXxxValues::new(&self.inner)
    }
}

impl<KT: DbMapKeyType> DbXxxBase for FileDbMap<KT> {
    closed spec fn db_view(&self) -> Map<Seq<u8>, Seq<u8>> {
        self.inner.db_view()
    }

    closed spec fn db_wf(&self) -> bool {
        self.inner.db_wf()
    }

    closed spec fn db_dirty(&self) -> bool {
        self.inner.db_dirty()
    }

    fn len(&self) -> (r: Result<u64, DbError>) {
        self.inner.len()
    }

    fn is_empty(&self) -> (r: Result<bool, DbError>) {
        self.inner.is_empty()
    }

    fn read_fill_buffer(&mut self) -> (r: Result<(), DbError>) {
        self.inner.read_fill_buffer()
    }

    fn flush(&mut self) -> (r: Result<(), DbError>) {
        self.inner.flush()
    }

    fn sync_all(&mut self) -> (r: Result<(), DbError>) {
        self.inner.sync_all()
    }

    fn sync_data(&mut self) -> (r: Result<(), DbError>) {
        self.inner.sync_data()
    }
}

impl<KT: DbMapKeyType> DbXxxObjectSafe<KT> for FileDbMap<KT> {
    closed spec fn db_put_overflows(&self, k: Seq<u8>, v: Seq<u8>) -> bool {
        self.inner.db_put_overflows(k, v)
    }

    fn get_kt(&mut self, key: &KT) -> (r: Result<Option<Vec<u8>>, DbError>) {
        self.inner.get_kt(key)
    }

    fn put_kt(&mut self, key: &KT, value: &[u8]) -> (r: Result<(), DbError>) {
        self.inner.put_kt(key, value)
    }

    fn del_kt(&mut self, key: &KT) -> (r: Result<Option<Vec<u8>>, DbError>) {
        self.inner.del_kt(key)
    }

    fn includes_key_kt(&mut self, key: &KT) -> (r: Result<bool, DbError>) {
        self.inner.includes_key_kt(key)
    }
}

impl<KT: DbMapKeyType> DbXxx<KT> for FileDbMap<KT> {
    fn get(&mut self, key: &KT) -> (r: Result<Option<Vec<u8>>, DbError>) {
        self.inner.get(key)
    }

    fn get_string(&mut self, key: &KT) -> (r: Result<Option<String>, DbError>) {
        self.inner.get_string(key)
    }

    fn put(&mut self, key: &KT, value: &[u8]) -> (r: Result<(), DbError>) {
        self.inner.put(key, value)
    }

    fn put_string(&mut self, key: &KT, value: &str) -> (r: Result<(), DbError>) {
        self.inner.put_string(key, value)
    }

    fn delete(&mut self, key: &KT) -> (r: Result<Option<Vec<u8>>, DbError>) {
        self.inner.delete(key)
    }

    fn delete_string(&mut self, key: &KT) -> (r: Result<Option<String>, DbError>) {
        self.inner.delete_string(key)
    }

    fn includes_key(&mut self, key: &KT) -> (r: Result<bool, DbError>) {
        self.inner.includes_key(key)
    }

    fn bulk_get(&mut self, bulk_keys: &Vec<KT>) -> (r: Result<Vec<Option<Vec<u8>>>, DbError>) {
        self.inner.bulk_get(bulk_keys)
    }

    fn bulk_get_string(&mut self, bulk_keys: &Vec<KT>) -> (r: Result<Vec<Option<String>>, DbError>) {
        self.inner.bulk_get_string(bulk_keys)
    }

    fn bulk_put(&mut self, bulk: &Vec<(KT, Vec<u8>)>) -> (r: Result<(), DbError>) {
        let r = self.inner.bulk_put(bulk);
        proof {
            if r is Err {
                let t = choose|t: int|
                    0 <= t <= bulk@.len() && self.inner.db_view() == #[trigger] crate::spec_bulk_put(
                        old(self).inner.db_view(),
                        crate::spec_bulk_pairs(bulk@).take(t),
                    );
                assert(self.db_view() == crate::spec_bulk_put(
                    old(self).db_view(),
                    crate::spec_bulk_pairs(bulk@).take(t),
                ));
            }
        }
        r
    }

    fn bulk_put_string(&mut self, bulk: &Vec<(KT, String)>) -> (r: Result<(), DbError>) {
        let r = self.inner.bulk_put_string(bulk);
        proof {
            if r is Err {
                let t = choose|t: int|
                    0 <= t <= bulk@.len() && self.inner.db_view() == #[trigger] crate::spec_bulk_put(
                        old(self).inner.db_view(),
                        crate::spec_bulk_string_pairs(bulk@).take(t),
                    );
                assert(self.db_view() == crate::spec_bulk_put(
                    old(self).db_view(),
                    crate::spec_bulk_string_pairs(bulk@).take(t),
                ));
            }
        }
        r
    }

    fn bulk_delete(&mut self, bulk_keys: &Vec<KT>) -> (r: Result<Vec<Option<Vec<u8>>>, DbError>) {
        self.inner.bulk_delete(bulk_keys)
    }

    fn bulk_delete_string(&mut self, bulk_keys: &Vec<KT>) -> (r: Result<
        Vec<Option<String>>,
        DbError,
    >) {
        self.inner.bulk_delete_string(bulk_keys)
    }

    fn put_from_iter(&mut self, items: &Vec<(KT, Vec<u8>)>) -> (r: Result<(), DbError>) {
        let r = self.inner.put_from_iter(items);
        proof {
            if r is Err {
                let t = choose|t: int|
                    0 <= t <= items@.len() && self.inner.db_view() == #[trigger] crate::spec_bulk_put(
                        old(self).inner.db_view(),
                        crate::spec_bulk_pairs(items@).take(t),
                    );
                assert(self.db_view() == crate::spec_bulk_put(
                    old(self).db_view(),
                    crate::spec_bulk_pairs(items@).take(t),
                ));
            }
        }
        r
    }
}

impl<KT: DbMapKeyType> crate::stats::CheckFileDbMap for FileDbMap<KT> {
    closed spec fn db_buckets(&self) -> int {
        crate::stats::CheckFileDbMap::db_buckets(&self.inner)
    }

    fn ht_size_and_count(&self) -> (r: Result<(u64, u64), crate::DbError>) {
        self.inner.ht_size_and_count()
    }

    fn count_of_free_key_piece(&self) -> (r: Result<crate::stats::CountOfPerSize, crate::DbError>) {
        self.inner.count_of_free_key_piece()
    }

    fn count_of_free_value_piece(&self) -> (r: Result<
        crate::stats::CountOfPerSize,
        crate::DbError,
    >) {
        self.inner.count_of_free_value_piece()
    }

    fn buf_stats(&self) -> (r: Vec<(String, i64)>) {
        self.inner.buf_stats()
    }

    fn key_piece_size_stats(&self) -> (r: Result<crate::stats::RecordSizeStats, crate::DbError>) {
        self.inner.key_piece_size_stats()
    }

    fn value_piece_size_stats(&self) -> (r: Result<crate::stats::RecordSizeStats, crate::DbError>) {
        self.inner.value_piece_size_stats()
    }

    fn keys_count_stats(&self) -> (r: Result<crate::stats::KeysCountStats, crate::DbError>) {
        self.inner.keys_count_stats()
    }

    fn key_length_stats(&self) -> (r: Result<crate::stats::LengthStats, crate::DbError>) {
        self.inner.key_length_stats()
    }

    fn value_length_stats(&self) -> (r: Result<crate::stats::LengthStats, crate::DbError>) {
        self.inner.value_length_stats()
    }

    fn htx_filling_rate_per_mill(&self) -> (r: Result<(u64, u32), crate::DbError>) {
        self.inner.htx_filling_rate_per_mill()
    }
}

/// An iterator over the key-value pairs of a keyspace, snapshot at
/// construction.
pub struct DbXxxIter<KT: DbMapKeyType> {
    pairs: Vec<(KT, Vec<u8>)>,
}

impl<KT: DbMapKeyType> DbXxxIter<KT> {
    /// The pairs not yet handed out.
    pub closed spec fn remaining(self) -> Seq<(KT, Vec<u8>)> {
        self.pairs@
    }

    /// Snapshots the keyspace's pairs.
    pub fn new(db: &FileDbXxxInner<KT>) -> (r: Result<Self, DbError>)
        requires
            db.db_wf(),
        ensures
            match r {
                Ok(it) => db.db_view().dom().finite() && it.remaining().len()
                    == db.db_view().dom().len() && pairs_of(it.remaining(), db.db_view()),
                Err(_) => false,
            },
    {
        Ok(DbXxxIter { pairs: db.all_pairs() })
    }

    /// The next pair, or nothing once all have been handed out.
    pub fn next(&mut self) -> (r: Option<(KT, Vec<u8>)>)
        ensures
            old(self).remaining().len() == 0 ==> r is None && final(self).remaining() == old(
                self,
            ).remaining(),
            old(self).remaining().len() > 0 ==> r == Some(old(self).remaining().last())
                && final(self).remaining() == old(self).remaining().drop_last(),
    {
        self.pairs.pop()
    }

    /// How many pairs are left: the exact count, as lower and upper
    /// bound.
    pub fn size_hint(&self) -> (r: (usize, Option<usize>))
        ensures
            r.0 == self.remaining().len(),
            r.1 == Some(self.remaining().len() as usize),
    {
        (self.pairs.len(), Some(self.pairs.len()))
    }
}

/// An iterator over the key-value pairs of a keyspace; values put back
/// through the handle afterwards replace the snapshot ones.
pub struct DbXxxIterMut<KT: DbMapKeyType> {
    pairs: Vec<(KT, Vec<u8>)>,
}

impl<KT: DbMapKeyType> DbXxxIterMut<KT> {
    /// The pairs not yet handed out.
    pub closed spec fn remaining(self) -> Seq<(KT, Vec<u8>)> {
        self.pairs@
    }

    /// Snapshots the keyspace's pairs.
    pub fn new(db: &FileDbXxxInner<KT>) -> (r: Result<Self, DbError>)
        requires
            db.db_wf(),
        ensures
            match r {
                Ok(it) => db.db_view().dom().finite() && it.remaining().len()
                    == db.db_view().dom().len() && pairs_of(it.remaining(), db.db_view()),
                Err(_) => false,
            },
    {
        Ok(DbXxxIterMut { pairs: db.all_pairs() })
    }

    /// The next pair, or nothing once all have been handed out.
    pub fn next(&mut self) -> (r: Option<(KT, Vec<u8>)>)
        ensures
            old(self).remaining().len() == 0 ==> r is None && final(self).remaining() == old(
                self,
            ).remaining(),
            old(self).remaining().len() > 0 ==> r == Some(old(self).remaining().last())
                && final(self).remaining() == old(self).remaining().drop_last(),
    {
        self.pairs.pop()
    }

    /// How many pairs are left.
    pub fn size_hint(&self) -> (r: (usize, Option<usize>))
        ensures
            r.0 == self.remaining().len(),
            r.1 == Some(self.remaining().len() as usize),
    {
        (self.pairs.len(), Some(self.pairs.len()))
    }
}

/// A consuming iterator over the key-value pairs of a keyspace.
pub struct DbXxxIntoIter<KT: DbMapKeyType> {
    pairs: Vec<(KT, Vec<u8>)>,
}

impl<KT: DbMapKeyType> DbXxxIntoIter<KT> {
    /// The pairs not yet handed out.
    pub closed spec fn remaining(self) -> Seq<(KT, Vec<u8>)> {
        self.pairs@
    }

    /// Snapshots the keyspace's pairs.
    pub fn new(db: &FileDbXxxInner<KT>) -> (r: Result<Self, DbError>)
        requires
            db.db_wf(),
        ensures
            match r {
                Ok(it) => db.db_view().dom().finite() && it.remaining().len()
                    == db.db_view().dom().len() && pairs_of(it.remaining(), db.db_view()),
                Err(_) => false,
            },
    {
        Ok(DbXxxIntoIter { pairs: db.all_pairs() })
    }

    /// The next pair, or nothing once all have been handed out.
    pub fn next(&mut self) -> (r: Option<(KT, Vec<u8>)>)
        ensures
            old(self).remaining().len() == 0 ==> r is None && final(self).remaining() == old(
                self,
            ).remaining(),
            old(self).remaining().len() > 0 ==> r == Some(old(self).remaining().last())
                && final(self).remaining() == old(self).remaining().drop_last(),
    {
        self.pairs.pop()
    }

    /// How many pairs are left.
    pub fn size_hint(&self) -> (r: (usize, Option<usize>))
        ensures
            r.0 == self.remaining().len(),
            r.1 == Some(self.remaining().len() as usize),
    {
        (self.pairs.len(), Some(self.pairs.len()))
    }
}

/// An iterator over the keys of a keyspace.
pub struct DbXxxKeys<KT: DbMapKeyType> {
    keys: Vec<KT>,
}

impl<KT: DbMapKeyType> DbXxxKeys<KT> {
    /// The keys not yet handed out.
    pub closed spec fn remaining(self) -> Seq<KT> {
        self.keys@
    }

    /// Snapshots the keyspace's keys: every live key exactly once.
    pub fn new(db: &FileDbXxxInner<KT>) -> (r: Result<Self, DbError>)
        requires
            db.db_wf(),
        ensures
            match r {
                Ok(it) => {
                    &&& db.db_view().dom().finite()
                    &&& it.remaining().len() == db.db_view().dom().len()
                    &&& forall|t: int|
                        0 <= t < it.remaining().len() ==> db.db_view().contains_key(
                            (#[trigger] it.remaining()[t]).key_bytes(),
                        )
                    &&& forall|t1: int, t2: int|
                        0 <= t1 < t2 < it.remaining().len() ==> (
                        #[trigger] it.remaining()[t1]).key_bytes() != (
                        #[trigger] it.remaining()[t2]).key_bytes()
                    &&& forall|k: Seq<u8>|
                        db.db_view().contains_key(k) ==> exists|t: int|
                            0 <= t < it.remaining().len() && (
                            #[trigger] it.remaining()[t]).key_bytes() == k
                },
                Err(_) => false,
            },
    {
        let pairs = db.all_pairs();
        let mut keys: Vec<KT> = Vec::new();
        let mut pv = pairs;
        let ghost orig = pv@;
        loop
            invariant
                pv@.len() + keys@.len() == orig.len(),
                pv@ == orig.take(pv@.len() as int),
                forall|t: int|
                    0 <= t < keys@.len() ==> #[trigger] keys@[t].key_bytes() == orig[orig.len() - 1
                        - t].0.key_bytes(),
            ensures
                pv@.len() == 0,
                keys@.len() == orig.len(),
                forall|t: int|
                    0 <= t < keys@.len() ==> #[trigger] keys@[t].key_bytes() == orig[orig.len() - 1
                        - t].0.key_bytes(),
            decreases pv@.len(),
        {
            proof {
                assert(orig.take(pv@.len() as int).len() == pv@.len());
            }
            match pv.pop() {
                Some(p) => {
                    proof {
                        assert(orig.take((pv@.len() + 1) as int).drop_last() =~= orig.take(pv@.len() as int));
                        assert(orig.take((pv@.len() + 1) as int).last() == orig[pv@.len() as int]);
                    }
                    keys.push(p.0);
                },
                None => {
                    break ;
                },
            }
        }
        proof {
            assert forall|t: int| 0 <= t < keys@.len() implies db.db_view().contains_key(
                (#[trigger] keys@[t]).key_bytes(),
            ) by {
                assert(keys@[t].key_bytes() == orig[orig.len() - 1 - t].0.key_bytes());
            }
            assert forall|t1: int, t2: int| 0 <= t1 < t2 < keys@.len() implies (
            #[trigger] keys@[t1]).key_bytes() != (#[trigger] keys@[t2]).key_bytes() by {
                assert(keys@[t1].key_bytes() == orig[orig.len() - 1 - t1].0.key_bytes());
                assert(keys@[t2].key_bytes() == orig[orig.len() - 1 - t2].0.key_bytes());
                assert(orig[orig.len() - 1 - t2].0.key_bytes() != orig[orig.len() - 1
                    - t1].0.key_bytes());
            }
            assert forall|k: Seq<u8>| db.db_view().contains_key(k) implies exists|t: int|
                0 <= t < keys@.len() && (#[trigger] keys@[t]).key_bytes() == k by {
                let t0 = choose|t0: int|
                    0 <= t0 < orig.len() && (#[trigger] orig[t0]).0.key_bytes() == k;
                assert(keys@[orig.len() - 1 - t0].key_bytes() == k);
            }
        }
        Ok(DbXxxKeys { keys })
    }

    /// The next key, or nothing once all have been handed out.
    pub fn next(&mut self) -> (r: Option<KT>)
        ensures
            old(self).remaining().len() == 0 ==> r is None && final(self).remaining() == old(
                self,
            ).remaining(),
            old(self).remaining().len() > 0 ==> r == Some(old(self).remaining().last())
                && final(self).remaining() == old(self).remaining().drop_last(),
    {
        self.keys.pop()
    }

    /// How many keys are left.
    pub fn size_hint(&self) -> (r: (usize, Option<usize>))
        ensures
            r.0 == self.remaining().len(),
            r.1 == Some(self.remaining().len() as usize),
    {
        (self.keys.len(), Some(self.keys.len()))
    }
}

/// An iterator over the values of a keyspace.
pub struct DbXxxValues<KT: DbMapKeyType> {
    values: Vec<Vec<u8>>,
    src: Ghost<Seq<(KT, Vec<u8>)>>,
}

impl<KT: DbMapKeyType> DbXxxValues<KT> {
    /// The values not yet handed out.
    pub closed spec fn remaining(self) -> Seq<Vec<u8>> {
        self.values@
    }

    /// The key-value pairs this snapshot was drawn from: one per live
    /// key.
    pub closed spec fn source_pairs(self) -> Seq<(KT, Vec<u8>)> {
        self.src@
    }

    /// Snapshots the keyspace's values: the values of its pairs, with
    /// multiplicity, in reverse pair order.
    pub fn new(db: &FileDbXxxInner<KT>) -> (r: Result<Self, DbError>)
        requires
            db.db_wf(),
        ensures
            match r {
                Ok(it) => {
                    &&& db.db_view().dom().finite()
                    &&& pairs_of(it.source_pairs(), db.db_view())
                    &&& it.source_pairs().len() == db.db_view().dom().len()
                    &&& it.remaining().len() == it.source_pairs().len()
                    &&& forall|t: int|
                        0 <= t < it.remaining().len() ==> #[trigger] it.remaining()[t]
                            == it.source_pairs()[it.source_pairs().len() - 1 - t].1
                },
                Err(_) => false,
            },
    {
        let pairs = db.all_pairs();
        let mut values: Vec<Vec<u8>> = Vec::new();
        let mut pv = pairs;
        let ghost orig = pv@;
        loop
            invariant
                pv@.len() + values@.len() == orig.len(),
                pv@ == orig.take(pv@.len() as int),
                forall|t: int|
                    0 <= t < values@.len() ==> #[trigger] values@[t] == orig[orig.len() - 1 - t].1,
            ensures
                pv@.len() == 0,
                values@.len() == orig.len(),
                forall|t: int|
                    0 <= t < values@.len() ==> #[trigger] values@[t] == orig[orig.len() - 1 - t].1,
            decreases pv@.len(),
        {
            proof {
                assert(orig.take(pv@.len() as int).len() == pv@.len());
            }
            match pv.pop() {
                Some(p) => {
                    proof {
                        assert(orig.take((pv@.len() + 1) as int).drop_last() =~= orig.take(
                            pv@.len() as int,
                        ));
                        assert(orig.take((pv@.len() + 1) as int).last() == orig[pv@.len() as int]);
                    }
                    values.push(p.1);
                },
                None => {
                    break ;
                },
            }
        }
        Ok(DbXxxValues { values, src: Ghost(orig) })
    }

    /// The next value, or nothing once all have been handed out.
    pub fn next(&mut self) -> (r: Option<Vec<u8>>)
        ensures
            final(self).source_pairs() == old(self).source_pairs(),
            old(self).remaining().len() == 0 ==> r is None && final(self).remaining() == old(
                self,
            ).remaining(),
            old(self).remaining().len() > 0 ==> r == Some(old(self).remaining().last())
                && final(self).remaining() == old(self).remaining().drop_last(),
    {
        self.values.pop()
    }

    /// How many values are left.
    pub fn size_hint(&self) -> (r: (usize, Option<usize>))
        ensures
            r.0 == self.remaining().len(),
            r.1 == Some(self.remaining().len() as usize),
    {
        (self.values.len(), Some(self.values.len()))
    }
}

} // verus!
