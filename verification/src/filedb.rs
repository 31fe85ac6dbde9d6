//! Creation parameters for keyspaces and the multi-keyspace registry: a
//! database is a family of independently named keyspaces. Every keyspace
//! handle is exclusively owned: a lookup takes the keyspace out of the
//! registry and hands it to the caller, and an insert puts one back under
//! its name.
use crate::DbError;
use crate::DbXxxBase;
use vstd::prelude::*;

verus! {

/// Buffer sizing hint for one backing file.
#[derive(Debug, Clone)]
pub enum FileBufSizeParam {
    /// Fixed buffer size.
    Size(u32),
    /// Buffer size proportional to the file size, in thousandths.
    PerMille(u16),
    /// Automatic buffer size.
    Auto,
}

/// How to size the hash bucket table at creation time.
#[derive(Debug, Clone)]
pub enum HashBucketsParam {
    /// Exact bucket count, rounded up to a power of two.
    BucketsSize(u64),
    /// Expected item capacity; the bucket count is derived from it.
    Capacity(u64),
    /// The default bucket count.
    Default,
}

/// Parameters of a keyspace: per-file buffer hints and the bucket table
/// sizing.
#[derive(Debug, Clone)]
pub struct FileDbParams {
    /// Buffer hint for the value storage file.
    pub val_buf_size: FileBufSizeParam,
    /// Buffer hint for the key storage file.
    pub key_buf_size: FileBufSizeParam,
    /// Buffer hint for the index file.
    pub idx_buf_size: FileBufSizeParam,
    /// Buffer hint for the hash directory file.
    pub htx_buf_size: FileBufSizeParam,
    /// Bucket table sizing.
    pub buckets_size: HashBucketsParam,
}

/// Parameters on which creating a keyspace is owed to succeed: the
/// default sizing, a bucket count whose power-of-two rounding fits the
/// machine's address range, or a capacity hint in range.
pub open spec fn spec_params_accepted(p: FileDbParams) -> bool {
    match p.buckets_size {
        HashBucketsParam::BucketsSize(x) => 2 * x <= usize::MAX as int + 1,
        HashBucketsParam::Capacity(c) => 1 <= c && c < 0x1000000000000000 && 2 * (c + c / 8)
            <= usize::MAX as int,
        HashBucketsParam::Default => true,
    }
}

/// The bucket count a keyspace created from these parameters gets: an
/// exact bucket count rounded up to a power of two, the load-factor
/// sizing rule for a capacity hint, or the default.
pub open spec fn spec_buckets_of_params(p: FileDbParams) -> int {
    match p.buckets_size {
        HashBucketsParam::BucketsSize(x) => if x <= 1 {
            1int
        } else {
            crate::htx::spec_next_pow2(x as int)
        },
        HashBucketsParam::Capacity(c) => if c < 8 {
            8int
        } else {
            crate::htx::spec_next_pow2(c + c / 8)
        },
        HashBucketsParam::Default => crate::htx::DEFAULT_HT_SIZE as int,
    }
}

impl Default for FileDbParams {
    fn default() -> (r: Self)
        ensures
            r.buckets_size matches HashBucketsParam::Default,
            spec_params_accepted(r),
    {
        FileDbParams {
            val_buf_size: FileBufSizeParam::Auto,
            key_buf_size: FileBufSizeParam::PerMille(1000),
            idx_buf_size: FileBufSizeParam::PerMille(1000),
            htx_buf_size: FileBufSizeParam::PerMille(1000),
            buckets_size: HashBucketsParam::Default,
        }
    }
}

/// Whether a registry list binds this name.
pub open spec fn reg_holds<M>(s: Seq<(Vec<u8>, M)>, n: Seq<u8>) -> bool {
    exists|i: int| 0 <= i < s.len() && (#[trigger] s[i]).0@ == n
}

/// The keyspace a registry list binds to this name.
pub open spec fn reg_at<M>(s: Seq<(Vec<u8>, M)>, n: Seq<u8>) -> M {
    s[choose|i: int| 0 <= i < s.len() && (#[trigger] s[i]).0@ == n].1
}

/// A well-formed registry list: every held keyspace is well formed and
/// each name is bound at most once.
pub open spec fn reg_wf<M: DbXxxBase>(s: Seq<(Vec<u8>, M)>) -> bool {
    &&& forall|i: int| 0 <= i < s.len() ==> (#[trigger] s[i]).1.db_wf()
    &&& forall|i: int, j: int|
        0 <= i < j < s.len() ==> (#[trigger] s[i]).0@ != (#[trigger] s[j]).0@
}

/// With names bound at most once, the entry at a bound name is the one
/// entry carrying it.
pub(crate) proof fn lemma_reg_at<M>(s: Seq<(Vec<u8>, M)>, n: Seq<u8>, i: int)
    requires
        0 <= i < s.len(),
        s[i].0@ == n,
        forall|i1: int, j1: int|
            0 <= i1 < j1 < s.len() ==> (#[trigger] s[i1]).0@ != (#[trigger] s[j1]).0@,
    ensures
        reg_holds(s, n),
        reg_at(s, n) == s[i].1,
{
    assert(reg_holds(s, n));
    let i2 = choose|i2: int| 0 <= i2 < s.len() && (#[trigger] s[i2]).0@ == n;
    if i2 < i {
        assert(s[i2].0@ != s[i].0@);
    } else if i < i2 {
        assert(s[i].0@ != s[i2].0@);
    }
}

/// Takes the keyspace bound to `name` out of a registry list; every other
/// binding stays as it was.
fn reg_take<M: DbXxxBase>(v: &mut Vec<(Vec<u8>, M)>, name: &[u8]) -> (r: Option<M>)
    requires
        reg_wf(old(v)@),
    ensures
        reg_wf(final(v)@),
        match r {
            Some(m) => {
                &&& reg_holds(old(v)@, name@)
                &&& m == reg_at(old(v)@, name@)
                &&& m.db_wf()
                &&& !reg_holds(final(v)@, name@)
                &&& final(v)@.len() == old(v)@.len() - 1
                &&& forall|n2: Seq<u8>|
                    n2 != name@ ==> #[trigger] reg_holds(final(v)@, n2) == reg_holds(old(v)@, n2)
                        && (reg_holds(old(v)@, n2) ==> reg_at(final(v)@, n2) == reg_at(
                        old(v)@,
                        n2,
                    ))
            },
            None => !reg_holds(old(v)@, name@) && *final(v) == *old(v),
        },
{
    let n = v.len();
    let mut i: usize = 0;
    while i < n
        invariant
            i <= n,
            n == v@.len(),
            reg_wf(v@),
            *v == *old(v),
            forall|t: int| 0 <= t < i ==> (#[trigger] v@[t]).0@ != name@,
        decreases n - i,
    {
        if crate::util::vec_bytes_eq(&v[i].0, name) {
            proof {
                lemma_reg_at(v@, name@, i as int);
            }
            let entry = v.remove(i);
            proof {
                let pre = old(v)@;
                assert forall|i1: int, j1: int| 0 <= i1 < j1 < v@.len() implies (
                #[trigger] v@[i1]).0@ != (#[trigger] v@[j1]).0@ by {
                    let m1 = if i1 < i as int { i1 } else { i1 + 1 };
                    let m2 = if j1 < i as int { j1 } else { j1 + 1 };
                    assert(v@[i1] == pre[m1] && v@[j1] == pre[m2]);
                }
                assert forall|t: int| 0 <= t < v@.len() implies (#[trigger] v@[t]).1.db_wf() by {
                    let m = if t < i as int { t } else { t + 1 };
                    assert(v@[t] == pre[m]);
                }
                assert(!reg_holds(v@, name@)) by {
                    if reg_holds(v@, name@) {
                        let j = choose|j: int| 0 <= j < v@.len() && (#[trigger] v@[j]).0@ == name@;
                        let m = if j < i as int { j } else { j + 1 };
                        assert(pre[m].0@ == name@ && pre[i as int].0@ == name@ && m != i as int);
                        if m < i as int {
                            assert(pre[m].0@ != pre[i as int].0@);
                        } else {
                            assert(pre[i as int].0@ != pre[m].0@);
                        }
                    }
                }
                assert forall|n2: Seq<u8>| n2 != name@ implies #[trigger] reg_holds(v@, n2)
                    == reg_holds(pre, n2) && (reg_holds(pre, n2) ==> reg_at(v@, n2) == reg_at(
                    pre,
                    n2,
                )) by {
                    if reg_holds(pre, n2) {
                        let j = choose|j: int| 0 <= j < pre.len() && (#[trigger] pre[j]).0@ == n2;
                        let t = if j < i as int { j } else { j - 1 };
                        assert(v@[t] == pre[j]);
                        lemma_reg_at(v@, n2, t);
                        lemma_reg_at(pre, n2, j);
                    }
                    if reg_holds(v@, n2) {
                        let t = choose|t: int| 0 <= t < v@.len() && (#[trigger] v@[t]).0@ == n2;
                        let m = if t < i as int { t } else { t + 1 };
                        assert(pre[m] == v@[t]);
                        assert(reg_holds(pre, n2));
                    }
                }
            }
            return Some(entry.1);
        }
        i += 1;
    }
    None
}

/// Binds `name` to `child` in a registry list, returning any keyspace
/// previously bound to it; every other binding stays as it was.
fn reg_put<M: DbXxxBase>(v: &mut Vec<(Vec<u8>, M)>, name: &[u8], child: M) -> (r: Option<M>)
    requires
        reg_wf(old(v)@),
        child.db_wf(),
    ensures
        reg_wf(final(v)@),
        reg_holds(final(v)@, name@),
        reg_at(final(v)@, name@) == child,
        forall|n2: Seq<u8>|
            n2 != name@ ==> #[trigger] reg_holds(final(v)@, n2) == reg_holds(old(v)@, n2) && (
            reg_holds(old(v)@, n2) ==> reg_at(final(v)@, n2) == reg_at(old(v)@, n2)),
        match r {
            Some(m) => reg_holds(old(v)@, name@) && m == reg_at(old(v)@, name@) && m.db_wf(),
            None => !reg_holds(old(v)@, name@),
        },
{
    let prev = reg_take(v, name);
    let ghost mid = v@;
    v.push((vstd::slice::slice_to_vec(name), child));
    proof {
        assert(v@[v@.len() - 1].0@ == name@ && v@[v@.len() - 1].1 == child);
        assert forall|t: int| 0 <= t < v@.len() implies (#[trigger] v@[t]).1.db_wf() by {
            if t < v@.len() - 1 {
                assert(v@[t] == mid[t]);
            }
        }
        assert forall|i1: int, j1: int| 0 <= i1 < j1 < v@.len() implies (#[trigger] v@[i1]).0@ != (
        #[trigger] v@[j1]).0@ by {
            if j1 < v@.len() - 1 {
                assert(v@[i1] == mid[i1] && v@[j1] == mid[j1]);
            } else {
                assert(v@[i1] == mid[i1]);
                if v@[i1].0@ == name@ {
                    assert(reg_holds(mid, name@));
                }
            }
        }
        lemma_reg_at(v@, name@, v@.len() - 1);
        assert forall|n2: Seq<u8>| n2 != name@ implies #[trigger] reg_holds(v@, n2) == reg_holds(
            mid,
            n2,
        ) && (reg_holds(mid, n2) ==> reg_at(v@, n2) == reg_at(mid, n2)) by {
            if reg_holds(mid, n2) {
                let j = choose|j: int| 0 <= j < mid.len() && (#[trigger] mid[j]).0@ == n2;
                assert(v@[j] == mid[j]);
                lemma_reg_at(v@, n2, j);
                lemma_reg_at(mid, n2, j);
            }
            if reg_holds(v@, n2) {
                let t = choose|t: int| 0 <= t < v@.len() && (#[trigger] v@[t]).0@ == n2;
                assert(t < v@.len() - 1);
                assert(mid[t] == v@[t]);
                assert(reg_holds(mid, n2));
            }
        }
    }
    prev
}

/// Synchronizes every keyspace in a registry list in place: each keeps
/// its name and contents and comes out clean.
fn reg_sync_all<M: DbXxxBase>(v: &mut Vec<(Vec<u8>, M)>)
    requires
        reg_wf(old(v)@),
    ensures
        reg_wf(final(v)@),
        final(v)@.len() == old(v)@.len(),
        forall|i: int|
            0 <= i < final(v)@.len() ==> (#[trigger] final(v)@[i]).0@ == old(v)@[i].0@ && final(v)@[i].1.db_view() == old(v)@[i].1.db_view() && !final(v)@[i].1.db_dirty(),
{
    let ghost orig = v@;
    let mut rev: Vec<(Vec<u8>, M)> = Vec::new();
    loop
        invariant
            v@.len() + rev@.len() == orig.len(),
            v@ == orig.take(v@.len() as int),
            reg_wf(orig),
            forall|t: int|
                0 <= t < rev@.len() ==> (#[trigger] rev@[t]).0@ == orig[orig.len() - 1 - t].0@
                    && rev@[t].1.db_view() == orig[orig.len() - 1 - t].1.db_view()
                    && !rev@[t].1.db_dirty() && rev@[t].1.db_wf(),
        ensures
            v@.len() == 0,
            rev@.len() == orig.len(),
            forall|t: int|
                0 <= t < rev@.len() ==> (#[trigger] rev@[t]).0@ == orig[orig.len() - 1 - t].0@
                    && rev@[t].1.db_view() == orig[orig.len() - 1 - t].1.db_view()
                    && !rev@[t].1.db_dirty() && rev@[t].1.db_wf(),
        decreases v@.len(),
    {
        proof {
            assert(orig.take(v@.len() as int).len() == v@.len());
            if v@.len() > 0 {
                assert(orig.take(v@.len() as int).last() == orig[v@.len() - 1]);
            }
        }
        match v.pop() {
            Some(mut entry) => {
                proof {
                    assert(orig.take((v@.len() + 1) as int).drop_last() =~= orig.take(
                        v@.len() as int,
                    ));
                }
                let _ = entry.1.sync_all();
                rev.push(entry);
            },
            None => {
                break ;
            },
        }
    }
    let ghost full = rev@;
    loop
        invariant
            rev@.len() + v@.len() == orig.len(),
            rev@ == full.take(rev@.len() as int),
            full == rev@.take(full.len() as int) || full.len() == orig.len(),
            full.len() == orig.len(),
            forall|t: int|
                0 <= t < full.len() ==> (#[trigger] full[t]).0@ == orig[orig.len() - 1 - t].0@
                    && full[t].1.db_view() == orig[orig.len() - 1 - t].1.db_view()
                    && !full[t].1.db_dirty() && full[t].1.db_wf(),
            forall|u: int|
                0 <= u < v@.len() ==> #[trigger] v@[u] == full[full.len() - 1 - u],
        ensures
            rev@.len() == 0,
            v@.len() == orig.len(),
            forall|u: int| 0 <= u < v@.len() ==> #[trigger] v@[u] == full[full.len() - 1 - u],
        decreases rev@.len(),
    {
        proof {
            assert(full.take(rev@.len() as int).len() == rev@.len());
            if rev@.len() > 0 {
                assert(full.take(rev@.len() as int).last() == full[rev@.len() - 1]);
            }
        }
        match rev.pop() {
            Some(entry) => {
                proof {
                    assert(full.take((rev@.len() + 1) as int).drop_last() =~= full.take(
                        rev@.len() as int,
                    ));
                }
                v.push(entry);
            },
            None => {
                break ;
            },
        }
    }
    proof {
        assert forall|i: int| 0 <= i < v@.len() implies (#[trigger] v@[i]).0@ == orig[i].0@
            && v@[i].1.db_view() == orig[i].1.db_view() && !v@[i].1.db_dirty()
            && v@[i].1.db_wf() by {
            assert(v@[i] == full[full.len() - 1 - i]);
        }
        assert forall|i1: int, j1: int| 0 <= i1 < j1 < v@.len() implies (#[trigger] v@[i1]).0@ != (
        #[trigger] v@[j1]).0@ by {
            assert(orig[i1].0@ != orig[j1].0@);
        }
    }
}


/// The multi-keyspace registry: the named keyspaces of one database.
/// Every keyspace handle is exclusively owned; taking one out of the
/// registry hands it to the caller, and inserting it back returns it to
/// the registry's care.
pub struct FileDbInner {
    pub string_maps: Vec<(Vec<u8>, crate::dbmap::FileDbMapDbString)>,
    pub bytes_maps: Vec<(Vec<u8>, crate::dbmap::FileDbMapDbBytes)>,
    pub i64_maps: Vec<(Vec<u8>, crate::dbmap::FileDbMapDbI64)>,
    pub u64_maps: Vec<(Vec<u8>, crate::dbmap::FileDbMapDbU64)>,
    pub vu64_maps: Vec<(Vec<u8>, crate::dbmap::FileDbMapDbVu64)>,
    pub path: Vec<u8>,
}

impl FileDbInner {
    /// Every keyspace held by the registry is well formed, and each name
    /// binds at most one keyspace per key type.
    pub open spec fn wf(self) -> bool {
        &&& reg_wf(self.string_maps@)
        &&& reg_wf(self.bytes_maps@)
        &&& reg_wf(self.i64_maps@)
        &&& reg_wf(self.u64_maps@)
        &&& reg_wf(self.vu64_maps@)
    }

    /// The database path this registry was opened with, as raw bytes.
    pub open spec fn spec_path(self) -> Seq<u8> {
        self.path@
    }

    /// Creates an empty registry remembering the database's path.
    pub fn open(path: &str) -> (r: FileDbInner)
        ensures
            r.wf(),
            r.spec_path() == vstd::utf8::encode_utf8(path@),
            r.string_maps@.len() == 0,
            r.bytes_maps@.len() == 0,
            r.i64_maps@.len() == 0,
            r.u64_maps@.len() == 0,
            r.vu64_maps@.len() == 0,
    {
        FileDbInner {
            string_maps: Vec::new(),
            bytes_maps: Vec::new(),
            i64_maps: Vec::new(),
            u64_maps: Vec::new(),
            vu64_maps: Vec::new(),
            path: vstd::slice::slice_to_vec(path.as_bytes()),
        }
    }

    /// The database path this registry was opened with.
    pub fn path(&self) -> (r: &Vec<u8>)
        ensures
            r@ == self.spec_path(),
    {
        &self.path
    }

    /// Synchronizes every keyspace currently held by the registry: each
    /// keeps its name and contents and comes out clean.
    pub fn sync_all(&mut self) -> (r: Result<(), crate::DbError>)
        requires
            old(self).wf(),
        ensures
            final(self).wf(),
            final(self).path@ == old(self).path@,
            r.is_ok(),
            final(self).string_maps@.len() == old(self).string_maps@.len() && forall|i: int|
                0 <= i < final(self).string_maps@.len() ==> (#[trigger] final(self).string_maps@[i]).0@
                    == old(self).string_maps@[i].0@ && final(self).string_maps@[i].1.db_view() == old(
                    self,
                ).string_maps@[i].1.db_view() && !final(self).string_maps@[i].1.db_dirty(),
            final(self).bytes_maps@.len() == old(self).bytes_maps@.len() && forall|i: int|
                0 <= i < final(self).bytes_maps@.len() ==> (#[trigger] final(self).bytes_maps@[i]).0@
                    == old(self).bytes_maps@[i].0@ && final(self).bytes_maps@[i].1.db_view() == old(
                    self,
                ).bytes_maps@[i].1.db_view() && !final(self).bytes_maps@[i].1.db_dirty(),
            final(self).i64_maps@.len() == old(self).i64_maps@.len() && forall|i: int|
                0 <= i < final(self).i64_maps@.len() ==> (#[trigger] final(self).i64_maps@[i]).0@
                    == old(self).i64_maps@[i].0@ && final(self).i64_maps@[i].1.db_view() == old(
                    self,
                ).i64_maps@[i].1.db_view() && !final(self).i64_maps@[i].1.db_dirty(),
            final(self).u64_maps@.len() == old(self).u64_maps@.len() && forall|i: int|
                0 <= i < final(self).u64_maps@.len() ==> (#[trigger] final(self).u64_maps@[i]).0@
                    == old(self).u64_maps@[i].0@ && final(self).u64_maps@[i].1.db_view() == old(
                    self,
                ).u64_maps@[i].1.db_view() && !final(self).u64_maps@[i].1.db_dirty(),
            final(self).vu64_maps@.len() == old(self).vu64_maps@.len() && forall|i: int|
                0 <= i < final(self).vu64_maps@.len() ==> (#[trigger] final(self).vu64_maps@[i]).0@
                    == old(self).vu64_maps@[i].0@ && final(self).vu64_maps@[i].1.db_view() == old(
                    self,
                ).vu64_maps@[i].1.db_view() && !final(self).vu64_maps@[i].1.db_dirty(),
    {
        reg_sync_all(&mut self.string_maps);
        reg_sync_all(&mut self.bytes_maps);
        reg_sync_all(&mut self.i64_maps);
        reg_sync_all(&mut self.u64_maps);
        reg_sync_all(&mut self.vu64_maps);
        Ok(())
    }

    /// Synchronizes the contents of every keyspace currently held by the
    /// registry, as `sync_all` does.
    pub fn sync_data(&mut self) -> (r: Result<(), crate::DbError>)
        requires
            old(self).wf(),
        ensures
            final(self).wf(),
            final(self).path@ == old(self).path@,
            r.is_ok(),
            final(self).string_maps@.len() == old(self).string_maps@.len() && forall|i: int|
                0 <= i < final(self).string_maps@.len() ==> (#[trigger] final(self).string_maps@[i]).0@
                    == old(self).string_maps@[i].0@ && final(self).string_maps@[i].1.db_view() == old(
                    self,
                ).string_maps@[i].1.db_view() && !final(self).string_maps@[i].1.db_dirty(),
            final(self).bytes_maps@.len() == old(self).bytes_maps@.len() && forall|i: int|
                0 <= i < final(self).bytes_maps@.len() ==> (#[trigger] final(self).bytes_maps@[i]).0@
                    == old(self).bytes_maps@[i].0@ && final(self).bytes_maps@[i].1.db_view() == old(
                    self,
                ).bytes_maps@[i].1.db_view() && !final(self).bytes_maps@[i].1.db_dirty(),
            final(self).i64_maps@.len() == old(self).i64_maps@.len() && forall|i: int|
                0 <= i < final(self).i64_maps@.len() ==> (#[trigger] final(self).i64_maps@[i]).0@
                    == old(self).i64_maps@[i].0@ && final(self).i64_maps@[i].1.db_view() == old(
                    self,
                ).i64_maps@[i].1.db_view() && !final(self).i64_maps@[i].1.db_dirty(),
            final(self).u64_maps@.len() == old(self).u64_maps@.len() && forall|i: int|
                0 <= i < final(self).u64_maps@.len() ==> (#[trigger] final(self).u64_maps@[i]).0@
                    == old(self).u64_maps@[i].0@ && final(self).u64_maps@[i].1.db_view() == old(
                    self,
                ).u64_maps@[i].1.db_view() && !final(self).u64_maps@[i].1.db_dirty(),
            final(self).vu64_maps@.len() == old(self).vu64_maps@.len() && forall|i: int|
                0 <= i < final(self).vu64_maps@.len() ==> (#[trigger] final(self).vu64_maps@[i]).0@
                    == old(self).vu64_maps@[i].0@ && final(self).vu64_maps@[i].1.db_view() == old(
                    self,
                ).vu64_maps@[i].1.db_view() && !final(self).vu64_maps@[i].1.db_dirty(),
    {
        self.sync_all()
    }

    /// Takes the string-keyed keyspace bound to `name` out of the
    /// registry, if one is held; every other binding stays as it was, and
    /// the caller owns the keyspace until it is inserted back.
    pub fn db_map_string(&mut self, name: &str) -> (r: Option<crate::dbmap::FileDbMapDbString>)
        requires
            old(self).wf(),
        ensures
            final(self).wf(),
            final(self).path@ == old(self).path@,
            final(self).bytes_maps == old(self).bytes_maps && final(self).i64_maps == old(self).i64_maps && final(self).u64_maps == old(self).u64_maps && final(self).vu64_maps == old(self).vu64_maps,
            match r {
                Some(m) => {
                    &&& reg_holds(old(self).string_maps@, vstd::utf8::encode_utf8(name@))
                    &&& m == reg_at(old(self).string_maps@, vstd::utf8::encode_utf8(name@))
                    &&& m.db_wf()
                    &&& !reg_holds(final(self).string_maps@, vstd::utf8::encode_utf8(name@))
                    &&& forall|n2: Seq<u8>|
                        n2 != vstd::utf8::encode_utf8(name@) ==> #[trigger] reg_holds(
                            final(self).string_maps@,
                            n2,
                        ) == reg_holds(old(self).string_maps@, n2) && (reg_holds(
                            old(self).string_maps@,
                            n2,
                        ) ==> reg_at(final(self).string_maps@, n2) == reg_at(old(self).string_maps@, n2))
                },
                None => !reg_holds(old(self).string_maps@, vstd::utf8::encode_utf8(name@)) && *final(self) == *old(self),
            },
    {
        reg_take(&mut self.string_maps, name.as_bytes())
    }

    /// Binds `name` to the given string-keyed keyspace, returning any
    /// keyspace previously bound under that name; every other binding
    /// stays as it was.
    pub fn db_map_insert(&mut self, name: &str, child: crate::dbmap::FileDbMapDbString) -> (r: Option<
        crate::dbmap::FileDbMapDbString,
    >)
        requires
            old(self).wf(),
            child.db_wf(),
        ensures
            final(self).wf(),
            final(self).path@ == old(self).path@,
            final(self).bytes_maps == old(self).bytes_maps && final(self).i64_maps == old(self).i64_maps && final(self).u64_maps == old(self).u64_maps && final(self).vu64_maps == old(self).vu64_maps,
            reg_holds(final(self).string_maps@, vstd::utf8::encode_utf8(name@)),
            reg_at(final(self).string_maps@, vstd::utf8::encode_utf8(name@)) == child,
            forall|n2: Seq<u8>|
                n2 != vstd::utf8::encode_utf8(name@) ==> #[trigger] reg_holds(
                    final(self).string_maps@,
                    n2,
                ) == reg_holds(old(self).string_maps@, n2) && (reg_holds(old(self).string_maps@, n2)
                    ==> reg_at(final(self).string_maps@, n2) == reg_at(old(self).string_maps@, n2)),
            match r {
                Some(m) => reg_holds(old(self).string_maps@, vstd::utf8::encode_utf8(name@)) && m
                    == reg_at(old(self).string_maps@, vstd::utf8::encode_utf8(name@)) && m.db_wf(),
                None => !reg_holds(old(self).string_maps@, vstd::utf8::encode_utf8(name@)),
            },
    {
        reg_put(&mut self.string_maps, name.as_bytes(), child)
    }

    /// Creates a fresh string-keyed keyspace and binds `name` to it.
    pub(crate) fn create_db_map(&mut self, name: &str, params: &FileDbParams) -> (r: Result<
        (),
        crate::DbError,
    >)
        requires
            old(self).wf(),
        ensures
            final(self).wf(),
            match r {
                Ok(()) => reg_holds(final(self).string_maps@, vstd::utf8::encode_utf8(name@))
                    && reg_at(final(self).string_maps@, vstd::utf8::encode_utf8(name@)).db_view()
                    == Map::<Seq<u8>, Seq<u8>>::empty(),
                Err(e) => (e == crate::DbError::ZeroCapacity || e == crate::DbError::TooLarge)
                    && *final(self) == *old(self),
            },
            spec_params_accepted(*params) ==> r.is_ok(),
    {
        let child = match crate::dbmap::FileDbMapDbString::open(params) {
            Ok(c) => c,
            Err(e) => { return Err(e) },
        };
        let _ = self.db_map_insert(name, child);
        Ok(())
    }

    /// Takes the bytes-keyed keyspace bound to `name` out of the
    /// registry, if one is held; every other binding stays as it was, and
    /// the caller owns the keyspace until it is inserted back.
    pub fn db_map_bytes(&mut self, name: &str) -> (r: Option<crate::dbmap::FileDbMapDbBytes>)
        requires
            old(self).wf(),
        ensures
            final(self).wf(),
            final(self).path@ == old(self).path@,
            final(self).string_maps == old(self).string_maps && final(self).i64_maps == old(self).i64_maps && final(self).u64_maps == old(self).u64_maps && final(self).vu64_maps == old(self).vu64_maps,
            match r {
                Some(m) => {
                    &&& reg_holds(old(self).bytes_maps@, vstd::utf8::encode_utf8(name@))
                    &&& m == reg_at(old(self).bytes_maps@, vstd::utf8::encode_utf8(name@))
                    &&& m.db_wf()
                    &&& !reg_holds(final(self).bytes_maps@, vstd::utf8::encode_utf8(name@))
                    &&& forall|n2: Seq<u8>|
                        n2 != vstd::utf8::encode_utf8(name@) ==> #[trigger] reg_holds(
                            final(self).bytes_maps@,
                            n2,
                        ) == reg_holds(old(self).bytes_maps@, n2) && (reg_holds(
                            old(self).bytes_maps@,
                            n2,
                        ) ==> reg_at(final(self).bytes_maps@, n2) == reg_at(old(self).bytes_maps@, n2))
                },
                None => !reg_holds(old(self).bytes_maps@, vstd::utf8::encode_utf8(name@)) && *final(self) == *old(self),
            },
    {
        reg_take(&mut self.bytes_maps, name.as_bytes())
    }

    /// Binds `name` to the given bytes-keyed keyspace, returning any
    /// keyspace previously bound under that name; every other binding
    /// stays as it was.
    pub fn db_map_bytes_insert(&mut self, name: &str, child: crate::dbmap::FileDbMapDbBytes) -> (r: Option<
        crate::dbmap::FileDbMapDbBytes,
    >)
        requires
            old(self).wf(),
            child.db_wf(),
        ensures
            final(self).wf(),
            final(self).path@ == old(self).path@,
            final(self).string_maps == old(self).string_maps && final(self).i64_maps == old(self).i64_maps && final(self).u64_maps == old(self).u64_maps && final(self).vu64_maps == old(self).vu64_maps,
            reg_holds(final(self).bytes_maps@, vstd::utf8::encode_utf8(name@)),
            reg_at(final(self).bytes_maps@, vstd::utf8::encode_utf8(name@)) == child,
            forall|n2: Seq<u8>|
                n2 != vstd::utf8::encode_utf8(name@) ==> #[trigger] reg_holds(
                    final(self).bytes_maps@,
                    n2,
                ) == reg_holds(old(self).bytes_maps@, n2) && (reg_holds(old(self).bytes_maps@, n2)
                    ==> reg_at(final(self).bytes_maps@, n2) == reg_at(old(self).bytes_maps@, n2)),
            match r {
                Some(m) => reg_holds(old(self).bytes_maps@, vstd::utf8::encode_utf8(name@)) && m
                    == reg_at(old(self).bytes_maps@, vstd::utf8::encode_utf8(name@)) && m.db_wf(),
                None => !reg_holds(old(self).bytes_maps@, vstd::utf8::encode_utf8(name@)),
            },
    {
        reg_put(&mut self.bytes_maps, name.as_bytes(), child)
    }

    /// Creates a fresh bytes-keyed keyspace and binds `name` to it.
    pub(crate) fn create_db_map_bytes(&mut self, name: &str, params: &FileDbParams) -> (r: Result<
        (),
        crate::DbError,
    >)
        requires
            old(self).wf(),
        ensures
            final(self).wf(),
            match r {
                Ok(()) => reg_holds(final(self).bytes_maps@, vstd::utf8::encode_utf8(name@))
                    && reg_at(final(self).bytes_maps@, vstd::utf8::encode_utf8(name@)).db_view()
                    == Map::<Seq<u8>, Seq<u8>>::empty(),
                Err(e) => (e == crate::DbError::ZeroCapacity || e == crate::DbError::TooLarge)
                    && *final(self) == *old(self),
            },
            spec_params_accepted(*params) ==> r.is_ok(),
    {
        let child = match crate::dbmap::FileDbMapDbBytes::open(params) {
            Ok(c) => c,
            Err(e) => { return Err(e) },
        };
        let _ = self.db_map_bytes_insert(name, child);
        Ok(())
    }

    /// Takes the i64-keyed keyspace bound to `name` out of the
    /// registry, if one is held; every other binding stays as it was, and
    /// the caller owns the keyspace until it is inserted back.
    pub fn db_map_i64(&mut self, name: &str) -> (r: Option<crate::dbmap::FileDbMapDbI64>)
        requires
            old(self).wf(),
        ensures
            final(self).wf(),
            final(self).path@ == old(self).path@,
            final(self).string_maps == old(self).string_maps && final(self).bytes_maps == old(self).bytes_maps && final(self).u64_maps == old(self).u64_maps && final(self).vu64_maps == old(self).vu64_maps,
            match r {
                Some(m) => {
                    &&& reg_holds(old(self).i64_maps@, vstd::utf8::encode_utf8(name@))
                    &&& m == reg_at(old(self).i64_maps@, vstd::utf8::encode_utf8(name@))
                    &&& m.db_wf()
                    &&& !reg_holds(final(self).i64_maps@, vstd::utf8::encode_utf8(name@))
                    &&& forall|n2: Seq<u8>|
                        n2 != vstd::utf8::encode_utf8(name@) ==> #[trigger] reg_holds(
                            final(self).i64_maps@,
                            n2,
                        ) == reg_holds(old(self).i64_maps@, n2) && (reg_holds(
                            old(self).i64_maps@,
                            n2,
                        ) ==> reg_at(final(self).i64_maps@, n2) == reg_at(old(self).i64_maps@, n2))
                },
                None => !reg_holds(old(self).i64_maps@, vstd::utf8::encode_utf8(name@)) && *final(self) == *old(self),
            },
    {
        reg_take(&mut self.i64_maps, name.as_bytes())
    }

    /// Binds `name` to the given i64-keyed keyspace, returning any
    /// keyspace previously bound under that name; every other binding
    /// stays as it was.
    pub fn db_map_dbi64_insert(&mut self, name: &str, child: crate::dbmap::FileDbMapDbI64) -> (r: Option<
        crate::dbmap::FileDbMapDbI64,
    >)
        requires
            old(self).wf(),
            child.db_wf(),
        ensures
            final(self).wf(),
            final(self).path@ == old(self).path@,
            final(self).string_maps == old(self).string_maps && final(self).bytes_maps == old(self).bytes_maps && final(self).u64_maps == old(self).u64_maps && final(self).vu64_maps == old(self).vu64_maps,
            reg_holds(final(self).i64_maps@, vstd::utf8::encode_utf8(name@)),
            reg_at(final(self).i64_maps@, vstd::utf8::encode_utf8(name@)) == child,
            forall|n2: Seq<u8>|
                n2 != vstd::utf8::encode_utf8(name@) ==> #[trigger] reg_holds(
                    final(self).i64_maps@,
                    n2,
                ) == reg_holds(old(self).i64_maps@, n2) && (reg_holds(old(self).i64_maps@, n2)
                    ==> reg_at(final(self).i64_maps@, n2) == reg_at(old(self).i64_maps@, n2)),
            match r {
                Some(m) => reg_holds(old(self).i64_maps@, vstd::utf8::encode_utf8(name@)) && m
                    == reg_at(old(self).i64_maps@, vstd::utf8::encode_utf8(name@)) && m.db_wf(),
                None => !reg_holds(old(self).i64_maps@, vstd::utf8::encode_utf8(name@)),
            },
    {
        reg_put(&mut self.i64_maps, name.as_bytes(), child)
    }

    /// Creates a fresh i64-keyed keyspace and binds `name` to it.
    pub(crate) fn create_db_map_dbi64(&mut self, name: &str, params: &FileDbParams) -> (r: Result<
        (),
        crate::DbError,
    >)
        requires
            old(self).wf(),
        ensures
            final(self).wf(),
            match r {
                Ok(()) => reg_holds(final(self).i64_maps@, vstd::utf8::encode_utf8(name@))
                    && reg_at(final(self).i64_maps@, vstd::utf8::encode_utf8(name@)).db_view()
                    == Map::<Seq<u8>, Seq<u8>>::empty(),
                Err(e) => (e == crate::DbError::ZeroCapacity || e == crate::DbError::TooLarge)
                    && *final(self) == *old(self),
            },
            spec_params_accepted(*params) ==> r.is_ok(),
    {
        let child = match crate::dbmap::FileDbMapDbI64::open(params) {
            Ok(c) => c,
            Err(e) => { return Err(e) },
        };
        let _ = self.db_map_dbi64_insert(name, child);
        Ok(())
    }

    /// Takes the u64-keyed keyspace bound to `name` out of the
    /// registry, if one is held; every other binding stays as it was, and
    /// the caller owns the keyspace until it is inserted back.
    pub fn db_map_u64(&mut self, name: &str) -> (r: Option<crate::dbmap::FileDbMapDbU64>)
        requires
            old(self).wf(),
        ensures
            final(self).wf(),
            final(self).path@ == old(self).path@,
            final(self).string_maps == old(self).string_maps && final(self).bytes_maps == old(self).bytes_maps && final(self).i64_maps == old(self).i64_maps && final(self).vu64_maps == old(self).vu64_maps,
            match r {
                Some(m) => {
                    &&& reg_holds(old(self).u64_maps@, vstd::utf8::encode_utf8(name@))
                    &&& m == reg_at(old(self).u64_maps@, vstd::utf8::encode_utf8(name@))
                    &&& m.db_wf()
                    &&& !reg_holds(final(self).u64_maps@, vstd::utf8::encode_utf8(name@))
                    &&& forall|n2: Seq<u8>|
                        n2 != vstd::utf8::encode_utf8(name@) ==> #[trigger] reg_holds(
                            final(self).u64_maps@,
                            n2,
                        ) == reg_holds(old(self).u64_maps@, n2) && (reg_holds(
                            old(self).u64_maps@,
                            n2,
                        ) ==> reg_at(final(self).u64_maps@, n2) == reg_at(old(self).u64_maps@, n2))
                },
                None => !reg_holds(old(self).u64_maps@, vstd::utf8::encode_utf8(name@)) && *final(self) == *old(self),
            },
    {
        reg_take(&mut self.u64_maps, name.as_bytes())
    }

    /// Binds `name` to the given u64-keyed keyspace, returning any
    /// keyspace previously bound under that name; every other binding
    /// stays as it was.
    pub fn db_map_dbu64_insert(&mut self, name: &str, child: crate::dbmap::FileDbMapDbU64) -> (r: Option<
        crate::dbmap::FileDbMapDbU64,
    >)
        requires
            old(self).wf(),
            child.db_wf(),
        ensures
            final(self).wf(),
            final(self).path@ == old(self).path@,
            final(self).string_maps == old(self).string_maps && final(self).bytes_maps == old(self).bytes_maps && final(self).i64_maps == old(self).i64_maps && final(self).vu64_maps == old(self).vu64_maps,
            reg_holds(final(self).u64_maps@, vstd::utf8::encode_utf8(name@)),
            reg_at(final(self).u64_maps@, vstd::utf8::encode_utf8(name@)) == child,
            forall|n2: Seq<u8>|
                n2 != vstd::utf8::encode_utf8(name@) ==> #[trigger] reg_holds(
                    final(self).u64_maps@,
                    n2,
                ) == reg_holds(old(self).u64_maps@, n2) && (reg_holds(old(self).u64_maps@, n2)
                    ==> reg_at(final(self).u64_maps@, n2) == reg_at(old(self).u64_maps@, n2)),
            match r {
                Some(m) => reg_holds(old(self).u64_maps@, vstd::utf8::encode_utf8(name@)) && m
                    == reg_at(old(self).u64_maps@, vstd::utf8::encode_utf8(name@)) && m.db_wf(),
                None => !reg_holds(old(self).u64_maps@, vstd::utf8::encode_utf8(name@)),
            },
    {
        reg_put(&mut self.u64_maps, name.as_bytes(), child)
    }

    /// Creates a fresh u64-keyed keyspace and binds `name` to it.
    pub(crate) fn create_db_map_dbu64(&mut self, name: &str, params: &FileDbParams) -> (r: Result<
        (),
        crate::DbError,
    >)
        requires
            old(self).wf(),
        ensures
            final(self).wf(),
            match r {
                Ok(()) => reg_holds(final(self).u64_maps@, vstd::utf8::encode_utf8(name@))
                    && reg_at(final(self).u64_maps@, vstd::utf8::encode_utf8(name@)).db_view()
                    == Map::<Seq<u8>, Seq<u8>>::empty(),
                Err(e) => (e == crate::DbError::ZeroCapacity || e == crate::DbError::TooLarge)
                    && *final(self) == *old(self),
            },
            spec_params_accepted(*params) ==> r.is_ok(),
    {
        let child = match crate::dbmap::FileDbMapDbU64::open(params) {
            Ok(c) => c,
            Err(e) => { return Err(e) },
        };
        let _ = self.db_map_dbu64_insert(name, child);
        Ok(())
    }

    /// Takes the vu64-keyed keyspace bound to `name` out of the
    /// registry, if one is held; every other binding stays as it was, and
    /// the caller owns the keyspace until it is inserted back.
    pub fn db_map_vu64(&mut self, name: &str) -> (r: Option<crate::dbmap::FileDbMapDbVu64>)
        requires
            old(self).wf(),
        ensures
            final(self).wf(),
            final(self).path@ == old(self).path@,
            final(self).string_maps == old(self).string_maps && final(self).bytes_maps == old(self).bytes_maps && final(self).i64_maps == old(self).i64_maps && final(self).u64_maps == old(self).u64_maps,
            match r {
                Some(m) => {
                    &&& reg_holds(old(self).vu64_maps@, vstd::utf8::encode_utf8(name@))
                    &&& m == reg_at(old(self).vu64_maps@, vstd::utf8::encode_utf8(name@))
                    &&& m.db_wf()
                    &&& !reg_holds(final(self).vu64_maps@, vstd::utf8::encode_utf8(name@))
                    &&& forall|n2: Seq<u8>|
                        n2 != vstd::utf8::encode_utf8(name@) ==> #[trigger] reg_holds(
                            final(self).vu64_maps@,
                            n2,
                        ) == reg_holds(old(self).vu64_maps@, n2) && (reg_holds(
                            old(self).vu64_maps@,
                            n2,
                        ) ==> reg_at(final(self).vu64_maps@, n2) == reg_at(old(self).vu64_maps@, n2))
                },
                None => !reg_holds(old(self).vu64_maps@, vstd::utf8::encode_utf8(name@)) && *final(self) == *old(self),
            },
    {
        reg_take(&mut self.vu64_maps, name.as_bytes())
    }

    /// Binds `name` to the given vu64-keyed keyspace, returning any
    /// keyspace previously bound under that name; every other binding
    /// stays as it was.
    pub fn db_map_dbvu64_insert(&mut self, name: &str, child: crate::dbmap::FileDbMapDbVu64) -> (r: Option<
        crate::dbmap::FileDbMapDbVu64,
    >)
        requires
            old(self).wf(),
            child.db_wf(),
        ensures
            final(self).wf(),
            final(self).path@ == old(self).path@,
            final(self).string_maps == old(self).string_maps && final(self).bytes_maps == old(self).bytes_maps && final(self).i64_maps == old(self).i64_maps && final(self).u64_maps == old(self).u64_maps,
            reg_holds(final(self).vu64_maps@, vstd::utf8::encode_utf8(name@)),
            reg_at(final(self).vu64_maps@, vstd::utf8::encode_utf8(name@)) == child,
            forall|n2: Seq<u8>|
                n2 != vstd::utf8::encode_utf8(name@) ==> #[trigger] reg_holds(
                    final(self).vu64_maps@,
                    n2,
                ) == reg_holds(old(self).vu64_maps@, n2) && (reg_holds(old(self).vu64_maps@, n2)
                    ==> reg_at(final(self).vu64_maps@, n2) == reg_at(old(self).vu64_maps@, n2)),
            match r {
                Some(m) => reg_holds(old(self).vu64_maps@, vstd::utf8::encode_utf8(name@)) && m
                    == reg_at(old(self).vu64_maps@, vstd::utf8::encode_utf8(name@)) && m.db_wf(),
                None => !reg_holds(old(self).vu64_maps@, vstd::utf8::encode_utf8(name@)),
            },
    {
        reg_put(&mut self.vu64_maps, name.as_bytes(), child)
    }

    /// Creates a fresh vu64-keyed keyspace and binds `name` to it.
    pub(crate) fn create_db_map_dbvu64(&mut self, name: &str, params: &FileDbParams) -> (r: Result<
        (),
        crate::DbError,
    >)
        requires
            old(self).wf(),
        ensures
            final(self).wf(),
            match r {
                Ok(()) => reg_holds(final(self).vu64_maps@, vstd::utf8::encode_utf8(name@))
                    && reg_at(final(self).vu64_maps@, vstd::utf8::encode_utf8(name@)).db_view()
                    == Map::<Seq<u8>, Seq<u8>>::empty(),
                Err(e) => (e == crate::DbError::ZeroCapacity || e == crate::DbError::TooLarge)
                    && *final(self) == *old(self),
            },
            spec_params_accepted(*params) ==> r.is_ok(),
    {
        let child = match crate::dbmap::FileDbMapDbVu64::open(params) {
            Ok(c) => c,
            Err(e) => { return Err(e) },
        };
        let _ = self.db_map_dbvu64_insert(name, child);
        Ok(())
    }
}

/// A database: a registry of named keyspaces under one path.
pub struct FileDb {
    inner: FileDbInner,
}

impl FileDb {
    /// Every keyspace held by the database is well formed, and each name
    /// binds at most one keyspace per key type.
    pub closed spec fn wf(self) -> bool {
        self.inner.wf()
    }

    /// The database path, as raw bytes.
    pub closed spec fn spec_path(self) -> Seq<u8> {
        self.inner.spec_path()
    }

    /// The string-keyed registry list.
    pub closed spec fn string_reg(self) -> Seq<(Vec<u8>, crate::dbmap::FileDbMapDbString)> {
        self.inner.string_maps@
    }

    /// The bytes-keyed registry list.
    pub closed spec fn bytes_reg(self) -> Seq<(Vec<u8>, crate::dbmap::FileDbMapDbBytes)> {
        self.inner.bytes_maps@
    }

    /// The i64-keyed registry list.
    pub closed spec fn i64_reg(self) -> Seq<(Vec<u8>, crate::dbmap::FileDbMapDbI64)> {
        self.inner.i64_maps@
    }

    /// The u64-keyed registry list.
    pub closed spec fn u64_reg(self) -> Seq<(Vec<u8>, crate::dbmap::FileDbMapDbU64)> {
        self.inner.u64_maps@
    }

    /// The vu64-keyed registry list.
    pub closed spec fn vu64_reg(self) -> Seq<(Vec<u8>, crate::dbmap::FileDbMapDbVu64)> {
        self.inner.vu64_maps@
    }

    /// Opens a database at the given path, with no keyspaces held yet.
    pub fn open(path: &str) -> (r: Result<FileDb, DbError>)
        ensures
            match r {
                Ok(d) => {
                    &&& d.wf()
                    &&& d.spec_path() == vstd::utf8::encode_utf8(path@)
                    &&& d.string_reg().len() == 0
                    &&& d.bytes_reg().len() == 0
                    &&& d.i64_reg().len() == 0
                    &&& d.u64_reg().len() == 0
                    &&& d.vu64_reg().len() == 0
                },
                Err(_) => false,
            },
    {
        Ok(FileDb { inner: FileDbInner::open(path) })
    }

    /// The database path.
    pub fn path(&self) -> (r: &Vec<u8>)
        ensures
            r@ == self.spec_path(),
    {
        self.inner.path()
    }

    /// Synchronizes every keyspace currently held by the registry: each
    /// keeps its name and contents and comes out clean.
    pub fn sync_all(&mut self) -> (r: Result<(), DbError>)
        requires
            old(self).wf(),
        ensures
            final(self).wf(),
            final(self).spec_path() == old(self).spec_path(),
            r.is_ok(),
            final(self).string_reg().len() == old(self).string_reg().len() && forall|i: int|
                0 <= i < final(self).string_reg().len() ==> (#[trigger] final(self).string_reg()[i]).0@
                    == old(self).string_reg()[i].0@ && final(self).string_reg()[i].1.db_view() == old(
                    self,
                ).string_reg()[i].1.db_view() && !final(self).string_reg()[i].1.db_dirty(),
            final(self).bytes_reg().len() == old(self).bytes_reg().len() && forall|i: int|
                0 <= i < final(self).bytes_reg().len() ==> (#[trigger] final(self).bytes_reg()[i]).0@
                    == old(self).bytes_reg()[i].0@ && final(self).bytes_reg()[i].1.db_view() == old(
                    self,
                ).bytes_reg()[i].1.db_view() && !final(self).bytes_reg()[i].1.db_dirty(),
            final(self).i64_reg().len() == old(self).i64_reg().len() && forall|i: int|
                0 <= i < final(self).i64_reg().len() ==> (#[trigger] final(self).i64_reg()[i]).0@
                    == old(self).i64_reg()[i].0@ && final(self).i64_reg()[i].1.db_view() == old(
                    self,
                ).i64_reg()[i].1.db_view() && !final(self).i64_reg()[i].1.db_dirty(),
            final(self).u64_reg().len() == old(self).u64_reg().len() && forall|i: int|
                0 <= i < final(self).u64_reg().len() ==> (#[trigger] final(self).u64_reg()[i]).0@
                    == old(self).u64_reg()[i].0@ && final(self).u64_reg()[i].1.db_view() == old(
                    self,
                ).u64_reg()[i].1.db_view() && !final(self).u64_reg()[i].1.db_dirty(),
            final(self).vu64_reg().len() == old(self).vu64_reg().len() && forall|i: int|
                0 <= i < final(self).vu64_reg().len() ==> (#[trigger] final(self).vu64_reg()[i]).0@
                    == old(self).vu64_reg()[i].0@ && final(self).vu64_reg()[i].1.db_view() == old(
                    self,
                ).vu64_reg()[i].1.db_view() && !final(self).vu64_reg()[i].1.db_dirty(),
    {
        self.inner.sync_all()
    }

    /// Synchronizes the contents of every keyspace currently held by the
    /// registry, as `sync_all` does.
    pub fn sync_data(&mut self) -> (r: Result<(), DbError>)
        requires
            old(self).wf(),
        ensures
            final(self).wf(),
            final(self).spec_path() == old(self).spec_path(),
            r.is_ok(),
            final(self).string_reg().len() == old(self).string_reg().len() && forall|i: int|
                0 <= i < final(self).string_reg().len() ==> (#[trigger] final(self).string_reg()[i]).0@
                    == old(self).string_reg()[i].0@ && final(self).string_reg()[i].1.db_view() == old(
                    self,
                ).string_reg()[i].1.db_view() && !final(self).string_reg()[i].1.db_dirty(),
            final(self).bytes_reg().len() == old(self).bytes_reg().len() && forall|i: int|
                0 <= i < final(self).bytes_reg().len() ==> (#[trigger] final(self).bytes_reg()[i]).0@
                    == old(self).bytes_reg()[i].0@ && final(self).bytes_reg()[i].1.db_view() == old(
                    self,
                ).bytes_reg()[i].1.db_view() && !final(self).bytes_reg()[i].1.db_dirty(),
            final(self).i64_reg().len() == old(self).i64_reg().len() && forall|i: int|
                0 <= i < final(self).i64_reg().len() ==> (#[trigger] final(self).i64_reg()[i]).0@
                    == old(self).i64_reg()[i].0@ && final(self).i64_reg()[i].1.db_view() == old(
                    self,
                ).i64_reg()[i].1.db_view() && !final(self).i64_reg()[i].1.db_dirty(),
            final(self).u64_reg().len() == old(self).u64_reg().len() && forall|i: int|
                0 <= i < final(self).u64_reg().len() ==> (#[trigger] final(self).u64_reg()[i]).0@
                    == old(self).u64_reg()[i].0@ && final(self).u64_reg()[i].1.db_view() == old(
                    self,
                ).u64_reg()[i].1.db_view() && !final(self).u64_reg()[i].1.db_dirty(),
            final(self).vu64_reg().len() == old(self).vu64_reg().len() && forall|i: int|
                0 <= i < final(self).vu64_reg().len() ==> (#[trigger] final(self).vu64_reg()[i]).0@
                    == old(self).vu64_reg()[i].0@ && final(self).vu64_reg()[i].1.db_view() == old(
                    self,
                ).vu64_reg()[i].1.db_view() && !final(self).vu64_reg()[i].1.db_dirty(),
    {
        self.inner.sync_data()
    }

    /// The string-keyed keyspace named `name`: taken out of the registry
    /// when held there (parameters ignored), else created fresh with the
    /// default parameters. The caller owns the handle; inserting it back
    /// returns it to the database's care.
    pub fn db_map_string(&mut self, name: &str) -> (r: Result<crate::dbmap::FileDbMapDbString, DbError>)
        requires
            old(self).wf(),
        ensures
            final(self).wf(),
            final(self).spec_path() == old(self).spec_path(),
            final(self).bytes_reg() == old(self).bytes_reg() && final(self).i64_reg() == old(self).i64_reg() && final(self).u64_reg() == old(self).u64_reg() && final(self).vu64_reg() == old(self).vu64_reg(),
            r.is_ok(),
            match r {
                Ok(m) => m.db_wf() && if reg_holds(
                    old(self).string_reg(),
                    vstd::utf8::encode_utf8(name@),
                ) {
                    &&& m == reg_at(old(self).string_reg(), vstd::utf8::encode_utf8(name@))
                    &&& !reg_holds(final(self).string_reg(), vstd::utf8::encode_utf8(name@))
                    &&& forall|n2: Seq<u8>|
                        n2 != vstd::utf8::encode_utf8(name@) ==> #[trigger] reg_holds(
                            final(self).string_reg(),
                            n2,
                        ) == reg_holds(old(self).string_reg(), n2) && (reg_holds(old(self).string_reg(), n2)
                            ==> reg_at(final(self).string_reg(), n2) == reg_at(old(self).string_reg(), n2))
                } else {
                    &&& m.db_view() == Map::<Seq<u8>, Seq<u8>>::empty()
                    &&& !m.db_dirty()
                    &&& *final(self) == *old(self)
                },
                Err(_) => false,
            },
    {
        self.db_map_string_with_params(name, &FileDbParams::default())
    }

    /// The string-keyed keyspace named `name`: taken out of the registry
    /// when held there (parameters ignored), else created fresh from the
    /// given parameters. Creating with a zero capacity hint fails.
    pub fn db_map_string_with_params(&mut self, name: &str, params: &FileDbParams) -> (r: Result<
        crate::dbmap::FileDbMapDbString,
        DbError,
    >)
        requires
            old(self).wf(),
        ensures
            final(self).wf(),
            final(self).spec_path() == old(self).spec_path(),
            final(self).bytes_reg() == old(self).bytes_reg() && final(self).i64_reg() == old(self).i64_reg() && final(self).u64_reg() == old(self).u64_reg() && final(self).vu64_reg() == old(self).vu64_reg(),
            match r {
                Ok(m) => m.db_wf() && if reg_holds(
                    old(self).string_reg(),
                    vstd::utf8::encode_utf8(name@),
                ) {
                    &&& m == reg_at(old(self).string_reg(), vstd::utf8::encode_utf8(name@))
                    &&& !reg_holds(final(self).string_reg(), vstd::utf8::encode_utf8(name@))
                    &&& forall|n2: Seq<u8>|
                        n2 != vstd::utf8::encode_utf8(name@) ==> #[trigger] reg_holds(
                            final(self).string_reg(),
                            n2,
                        ) == reg_holds(old(self).string_reg(), n2) && (reg_holds(old(self).string_reg(), n2)
                            ==> reg_at(final(self).string_reg(), n2) == reg_at(old(self).string_reg(), n2))
                } else {
                    &&& m.db_view() == Map::<Seq<u8>, Seq<u8>>::empty()
                    &&& !m.db_dirty()
                    &&& *final(self) == *old(self)
                },
                Err(e) => (if params.buckets_size matches HashBucketsParam::Capacity(c) && c == 0 {
                    e == DbError::ZeroCapacity
                } else {
                    e == DbError::TooLarge
                }) && *final(self) == *old(self),
            },
            (reg_holds(old(self).string_reg(), vstd::utf8::encode_utf8(name@)) || spec_params_accepted(
                *params,
            )) ==> r.is_ok(),
    {
        match self.inner.db_map_string(name) {
            Some(m) => Ok(m),
            None => {
                match crate::dbmap::FileDbMapDbString::open(params) {
                    Ok(m) => Ok(m),
                    Err(e) => Err(e),
                }
            },
        }
    }

    /// Binds `name` to the given string-keyed keyspace in the registry,
    /// returning any keyspace previously bound under that name.
    pub fn db_map_insert(&mut self, name: &str, child: crate::dbmap::FileDbMapDbString) -> (r: Option<
        crate::dbmap::FileDbMapDbString,
    >)
        requires
            old(self).wf(),
            child.db_wf(),
        ensures
            final(self).wf(),
            final(self).spec_path() == old(self).spec_path(),
            final(self).bytes_reg() == old(self).bytes_reg() && final(self).i64_reg() == old(self).i64_reg() && final(self).u64_reg() == old(self).u64_reg() && final(self).vu64_reg() == old(self).vu64_reg(),
            reg_holds(final(self).string_reg(), vstd::utf8::encode_utf8(name@)),
            reg_at(final(self).string_reg(), vstd::utf8::encode_utf8(name@)) == child,
            forall|n2: Seq<u8>|
                n2 != vstd::utf8::encode_utf8(name@) ==> #[trigger] reg_holds(
                    final(self).string_reg(),
                    n2,
                ) == reg_holds(old(self).string_reg(), n2) && (reg_holds(old(self).string_reg(), n2)
                    ==> reg_at(final(self).string_reg(), n2) == reg_at(old(self).string_reg(), n2)),
            match r {
                Some(m) => reg_holds(old(self).string_reg(), vstd::utf8::encode_utf8(name@)) && m
                    == reg_at(old(self).string_reg(), vstd::utf8::encode_utf8(name@)) && m.db_wf(),
                None => !reg_holds(old(self).string_reg(), vstd::utf8::encode_utf8(name@)),
            },
    {
        self.inner.db_map_insert(name, child)
    }

    /// The bytes-keyed keyspace named `name`: taken out of the registry
    /// when held there (parameters ignored), else created fresh with the
    /// default parameters. The caller owns the handle; inserting it back
    /// returns it to the database's care.
    pub fn db_map_bytes(&mut self, name: &str) -> (r: Result<crate::dbmap::FileDbMapDbBytes, DbError>)
        requires
            old(self).wf(),
        ensures
            final(self).wf(),
            final(self).spec_path() == old(self).spec_path(),
            final(self).string_reg() == old(self).string_reg() && final(self).i64_reg() == old(self).i64_reg() && final(self).u64_reg() == old(self).u64_reg() && final(self).vu64_reg() == old(self).vu64_reg(),
            r.is_ok(),
            match r {
                Ok(m) => m.db_wf() && if reg_holds(
                    old(self).bytes_reg(),
                    vstd::utf8::encode_utf8(name@),
                ) {
                    &&& m == reg_at(old(self).bytes_reg(), vstd::utf8::encode_utf8(name@))
                    &&& !reg_holds(final(self).bytes_reg(), vstd::utf8::encode_utf8(name@))
                    &&& forall|n2: Seq<u8>|
                        n2 != vstd::utf8::encode_utf8(name@) ==> #[trigger] reg_holds(
                            final(self).bytes_reg(),
                            n2,
                        ) == reg_holds(old(self).bytes_reg(), n2) && (reg_holds(old(self).bytes_reg(), n2)
                            ==> reg_at(final(self).bytes_reg(), n2) == reg_at(old(self).bytes_reg(), n2))
                } else {
                    &&& m.db_view() == Map::<Seq<u8>, Seq<u8>>::empty()
                    &&& !m.db_dirty()
                    &&& *final(self) == *old(self)
                },
                Err(_) => false,
            },
    {
        self.db_map_bytes_with_params(name, &FileDbParams::default())
    }

    /// The bytes-keyed keyspace named `name`: taken out of the registry
    /// when held there (parameters ignored), else created fresh from the
    /// given parameters. Creating with a zero capacity hint fails.
    pub fn db_map_bytes_with_params(&mut self, name: &str, params: &FileDbParams) -> (r: Result<
        crate::dbmap::FileDbMapDbBytes,
        DbError,
    >)
        requires
            old(self).wf(),
        ensures
            final(self).wf(),
            final(self).spec_path() == old(self).spec_path(),
            final(self).string_reg() == old(self).string_reg() && final(self).i64_reg() == old(self).i64_reg() && final(self).u64_reg() == old(self).u64_reg() && final(self).vu64_reg() == old(self).vu64_reg(),
            match r {
                Ok(m) => m.db_wf() && if reg_holds(
                    old(self).bytes_reg(),
                    vstd::utf8::encode_utf8(name@),
                ) {
                    &&& m == reg_at(old(self).bytes_reg(), vstd::utf8::encode_utf8(name@))
                    &&& !reg_holds(final(self).bytes_reg(), vstd::utf8::encode_utf8(name@))
                    &&& forall|n2: Seq<u8>|
                        n2 != vstd::utf8::encode_utf8(name@) ==> #[trigger] reg_holds(
                            final(self).bytes_reg(),
                            n2,
                        ) == reg_holds(old(self).bytes_reg(), n2) && (reg_holds(old(self).bytes_reg(), n2)
                            ==> reg_at(final(self).bytes_reg(), n2) == reg_at(old(self).bytes_reg(), n2))
                } else {
                    &&& m.db_view() == Map::<Seq<u8>, Seq<u8>>::empty()
                    &&& !m.db_dirty()
                    &&& *final(self) == *old(self)
                },
                Err(e) => (if params.buckets_size matches HashBucketsParam::Capacity(c) && c == 0 {
                    e == DbError::ZeroCapacity
                } else {
                    e == DbError::TooLarge
                }) && *final(self) == *old(self),
            },
            (reg_holds(old(self).bytes_reg(), vstd::utf8::encode_utf8(name@)) || spec_params_accepted(
                *params,
            )) ==> r.is_ok(),
    {
        match self.inner.db_map_bytes(name) {
            Some(m) => Ok(m),
            None => {
                match crate::dbmap::FileDbMapDbBytes::open(params) {
                    Ok(m) => Ok(m),
                    Err(e) => Err(e),
                }
            },
        }
    }

    /// Binds `name` to the given bytes-keyed keyspace in the registry,
    /// returning any keyspace previously bound under that name.
    pub fn db_map_bytes_insert(&mut self, name: &str, child: crate::dbmap::FileDbMapDbBytes) -> (r: Option<
        crate::dbmap::FileDbMapDbBytes,
    >)
        requires
            old(self).wf(),
            child.db_wf(),
        ensures
            final(self).wf(),
            final(self).spec_path() == old(self).spec_path(),
            final(self).string_reg() == old(self).string_reg() && final(self).i64_reg() == old(self).i64_reg() && final(self).u64_reg() == old(self).u64_reg() && final(self).vu64_reg() == old(self).vu64_reg(),
            reg_holds(final(self).bytes_reg(), vstd::utf8::encode_utf8(name@)),
            reg_at(final(self).bytes_reg(), vstd::utf8::encode_utf8(name@)) == child,
            forall|n2: Seq<u8>|
                n2 != vstd::utf8::encode_utf8(name@) ==> #[trigger] reg_holds(
                    final(self).bytes_reg(),
                    n2,
                ) == reg_holds(old(self).bytes_reg(), n2) && (reg_holds(old(self).bytes_reg(), n2)
                    ==> reg_at(final(self).bytes_reg(), n2) == reg_at(old(self).bytes_reg(), n2)),
            match r {
                Some(m) => reg_holds(old(self).bytes_reg(), vstd::utf8::encode_utf8(name@)) && m
                    == reg_at(old(self).bytes_reg(), vstd::utf8::encode_utf8(name@)) && m.db_wf(),
                None => !reg_holds(old(self).bytes_reg(), vstd::utf8::encode_utf8(name@)),
            },
    {
        self.inner.db_map_bytes_insert(name, child)
    }

    /// The i64-keyed keyspace named `name`: taken out of the registry
    /// when held there (parameters ignored), else created fresh with the
    /// default parameters. The caller owns the handle; inserting it back
    /// returns it to the database's care.
    pub fn db_map_i64(&mut self, name: &str) -> (r: Result<crate::dbmap::FileDbMapDbI64, DbError>)
        requires
            old(self).wf(),
        ensures
            final(self).wf(),
            final(self).spec_path() == old(self).spec_path(),
            final(self).string_reg() == old(self).string_reg() && final(self).bytes_reg() == old(self).bytes_reg() && final(self).u64_reg() == old(self).u64_reg() && final(self).vu64_reg() == old(self).vu64_reg(),
            r.is_ok(),
            match r {
                Ok(m) => m.db_wf() && if reg_holds(
                    old(self).i64_reg(),
                    vstd::utf8::encode_utf8(name@),
                ) {
                    &&& m == reg_at(old(self).i64_reg(), vstd::utf8::encode_utf8(name@))
                    &&& !reg_holds(final(self).i64_reg(), vstd::utf8::encode_utf8(name@))
                    &&& forall|n2: Seq<u8>|
                        n2 != vstd::utf8::encode_utf8(name@) ==> #[trigger] reg_holds(
                            final(self).i64_reg(),
                            n2,
                        ) == reg_holds(old(self).i64_reg(), n2) && (reg_holds(old(self).i64_reg(), n2)
                            ==> reg_at(final(self).i64_reg(), n2) == reg_at(old(self).i64_reg(), n2))
                } else {
                    &&& m.db_view() == Map::<Seq<u8>, Seq<u8>>::empty()
                    &&& !m.db_dirty()
                    &&& *final(self) == *old(self)
                },
                Err(_) => false,
            },
    {
        self.db_map_i64_with_params(name, &FileDbParams::default())
    }

    /// The i64-keyed keyspace named `name`: taken out of the registry
    /// when held there (parameters ignored), else created fresh from the
    /// given parameters. Creating with a zero capacity hint fails.
    pub fn db_map_i64_with_params(&mut self, name: &str, params: &FileDbParams) -> (r: Result<
        crate::dbmap::FileDbMapDbI64,
        DbError,
    >)
        requires
            old(self).wf(),
        ensures
            final(self).wf(),
            final(self).spec_path() == old(self).spec_path(),
            final(self).string_reg() == old(self).string_reg() && final(self).bytes_reg() == old(self).bytes_reg() && final(self).u64_reg() == old(self).u64_reg() && final(self).vu64_reg() == old(self).vu64_reg(),
            match r {
                Ok(m) => m.db_wf() && if reg_holds(
                    old(self).i64_reg(),
                    vstd::utf8::encode_utf8(name@),
                ) {
                    &&& m == reg_at(old(self).i64_reg(), vstd::utf8::encode_utf8(name@))
                    &&& !reg_holds(final(self).i64_reg(), vstd::utf8::encode_utf8(name@))
                    &&& forall|n2: Seq<u8>|
                        n2 != vstd::utf8::encode_utf8(name@) ==> #[trigger] reg_holds(
                            final(self).i64_reg(),
                            n2,
                        ) == reg_holds(old(self).i64_reg(), n2) && (reg_holds(old(self).i64_reg(), n2)
                            ==> reg_at(final(self).i64_reg(), n2) == reg_at(old(self).i64_reg(), n2))
                } else {
                    &&& m.db_view() == Map::<Seq<u8>, Seq<u8>>::empty()
                    &&& !m.db_dirty()
                    &&& *final(self) == *old(self)
                },
                Err(e) => (if params.buckets_size matches HashBucketsParam::Capacity(c) && c == 0 {
                    e == DbError::ZeroCapacity
                } else {
                    e == DbError::TooLarge
                }) && *final(self) == *old(self),
            },
            (reg_holds(old(self).i64_reg(), vstd::utf8::encode_utf8(name@)) || spec_params_accepted(
                *params,
            )) ==> r.is_ok(),
    {
        match self.inner.db_map_i64(name) {
            Some(m) => Ok(m),
            None => {
                match crate::dbmap::FileDbMapDbI64::open(params) {
                    Ok(m) => Ok(m),
                    Err(e) => Err(e),
                }
            },
        }
    }

    /// Binds `name` to the given i64-keyed keyspace in the registry,
    /// returning any keyspace previously bound under that name.
    pub fn db_map_dbi64_insert(&mut self, name: &str, child: crate::dbmap::FileDbMapDbI64) -> (r: Option<
        crate::dbmap::FileDbMapDbI64,
    >)
        requires
            old(self).wf(),
            child.db_wf(),
        ensures
            final(self).wf(),
            final(self).spec_path() == old(self).spec_path(),
            final(self).string_reg() == old(self).string_reg() && final(self).bytes_reg() == old(self).bytes_reg() && final(self).u64_reg() == old(self).u64_reg() && final(self).vu64_reg() == old(self).vu64_reg(),
            reg_holds(final(self).i64_reg(), vstd::utf8::encode_utf8(name@)),
            reg_at(final(self).i64_reg(), vstd::utf8::encode_utf8(name@)) == child,
            forall|n2: Seq<u8>|
                n2 != vstd::utf8::encode_utf8(name@) ==> #[trigger] reg_holds(
                    final(self).i64_reg(),
                    n2,
                ) == reg_holds(old(self).i64_reg(), n2) && (reg_holds(old(self).i64_reg(), n2)
                    ==> reg_at(final(self).i64_reg(), n2) == reg_at(old(self).i64_reg(), n2)),
            match r {
                Some(m) => reg_holds(old(self).i64_reg(), vstd::utf8::encode_utf8(name@)) && m
                    == reg_at(old(self).i64_reg(), vstd::utf8::encode_utf8(name@)) && m.db_wf(),
                None => !reg_holds(old(self).i64_reg(), vstd::utf8::encode_utf8(name@)),
            },
    {
        self.inner.db_map_dbi64_insert(name, child)
    }

    /// The u64-keyed keyspace named `name`: taken out of the registry
    /// when held there (parameters ignored), else created fresh with the
    /// default parameters. The caller owns the handle; inserting it back
    /// returns it to the database's care.
    pub fn db_map_u64(&mut self, name: &str) -> (r: Result<crate::dbmap::FileDbMapDbU64, DbError>)
        requires
            old(self).wf(),
        ensures
            final(self).wf(),
            final(self).spec_path() == old(self).spec_path(),
            final(self).string_reg() == old(self).string_reg() && final(self).bytes_reg() == old(self).bytes_reg() && final(self).i64_reg() == old(self).i64_reg() && final(self).vu64_reg() == old(self).vu64_reg(),
            r.is_ok(),
            match r {
                Ok(m) => m.db_wf() && if reg_holds(
                    old(self).u64_reg(),
                    vstd::utf8::encode_utf8(name@),
                ) {
                    &&& m == reg_at(old(self).u64_reg(), vstd::utf8::encode_utf8(name@))
                    &&& !reg_holds(final(self).u64_reg(), vstd::utf8::encode_utf8(name@))
                    &&& forall|n2: Seq<u8>|
                        n2 != vstd::utf8::encode_utf8(name@) ==> #[trigger] reg_holds(
                            final(self).u64_reg(),
                            n2,
                        ) == reg_holds(old(self).u64_reg(), n2) && (reg_holds(old(self).u64_reg(), n2)
                            ==> reg_at(final(self).u64_reg(), n2) == reg_at(old(self).u64_reg(), n2))
                } else {
                    &&& m.db_view() == Map::<Seq<u8>, Seq<u8>>::empty()
                    &&& !m.db_dirty()
                    &&& *final(self) == *old(self)
                },
                Err(_) => false,
            },
    {
        self.db_map_u64_with_params(name, &FileDbParams::default())
    }

    /// The u64-keyed keyspace named `name`: taken out of the registry
    /// when held there (parameters ignored), else created fresh from the
    /// given parameters. Creating with a zero capacity hint fails.
    pub fn db_map_u64_with_params(&mut self, name: &str, params: &FileDbParams) -> (r: Result<
        crate::dbmap::FileDbMapDbU64,
        DbError,
    >)
        requires
            old(self).wf(),
        ensures
            final(self).wf(),
            final(self).spec_path() == old(self).spec_path(),
            final(self).string_reg() == old(self).string_reg() && final(self).bytes_reg() == old(self).bytes_reg() && final(self).i64_reg() == old(self).i64_reg() && final(self).vu64_reg() == old(self).vu64_reg(),
            match r {
                Ok(m) => m.db_wf() && if reg_holds(
                    old(self).u64_reg(),
                    vstd::utf8::encode_utf8(name@),
                ) {
                    &&& m == reg_at(old(self).u64_reg(), vstd::utf8::encode_utf8(name@))
                    &&& !reg_holds(final(self).u64_reg(), vstd::utf8::encode_utf8(name@))
                    &&& forall|n2: Seq<u8>|
                        n2 != vstd::utf8::encode_utf8(name@) ==> #[trigger] reg_holds(
                            final(self).u64_reg(),
                            n2,
                        ) == reg_holds(old(self).u64_reg(), n2) && (reg_holds(old(self).u64_reg(), n2)
                            ==> reg_at(final(self).u64_reg(), n2) == reg_at(old(self).u64_reg(), n2))
                } else {
                    &&& m.db_view() == Map::<Seq<u8>, Seq<u8>>::empty()
                    &&& !m.db_dirty()
                    &&& *final(self) == *old(self)
                },
                Err(e) => (if params.buckets_size matches HashBucketsParam::Capacity(c) && c == 0 {
                    e == DbError::ZeroCapacity
                } else {
                    e == DbError::TooLarge
                }) && *final(self) == *old(self),
            },
            (reg_holds(old(self).u64_reg(), vstd::utf8::encode_utf8(name@)) || spec_params_accepted(
                *params,
            )) ==> r.is_ok(),
    {
        match self.inner.db_map_u64(name) {
            Some(m) => Ok(m),
            None => {
                match crate::dbmap::FileDbMapDbU64::open(params) {
                    Ok(m) => Ok(m),
                    Err(e) => Err(e),
                }
            },
        }
    }

    /// Binds `name` to the given u64-keyed keyspace in the registry,
    /// returning any keyspace previously bound under that name.
    pub fn db_map_dbu64_insert(&mut self, name: &str, child: crate::dbmap::FileDbMapDbU64) -> (r: Option<
        crate::dbmap::FileDbMapDbU64,
    >)
        requires
            old(self).wf(),
            child.db_wf(),
        ensures
            final(self).wf(),
            final(self).spec_path() == old(self).spec_path(),
            final(self).string_reg() == old(self).string_reg() && final(self).bytes_reg() == old(self).bytes_reg() && final(self).i64_reg() == old(self).i64_reg() && final(self).vu64_reg() == old(self).vu64_reg(),
            reg_holds(final(self).u64_reg(), vstd::utf8::encode_utf8(name@)),
            reg_at(final(self).u64_reg(), vstd::utf8::encode_utf8(name@)) == child,
            forall|n2: Seq<u8>|
                n2 != vstd::utf8::encode_utf8(name@) ==> #[trigger] reg_holds(
                    final(self).u64_reg(),
                    n2,
                ) == reg_holds(old(self).u64_reg(), n2) && (reg_holds(old(self).u64_reg(), n2)
                    ==> reg_at(final(self).u64_reg(), n2) == reg_at(old(self).u64_reg(), n2)),
            match r {
                Some(m) => reg_holds(old(self).u64_reg(), vstd::utf8::encode_utf8(name@)) && m
                    == reg_at(old(self).u64_reg(), vstd::utf8::encode_utf8(name@)) && m.db_wf(),
                None => !reg_holds(old(self).u64_reg(), vstd::utf8::encode_utf8(name@)),
            },
    {
        self.inner.db_map_dbu64_insert(name, child)
    }

    /// The vu64-keyed keyspace named `name`: taken out of the registry
    /// when held there (parameters ignored), else created fresh with the
    /// default parameters. The caller owns the handle; inserting it back
    /// returns it to the database's care.
    pub fn db_map_vu64(&mut self, name: &str) -> (r: Result<crate::dbmap::FileDbMapDbVu64, DbError>)
        requires
            old(self).wf(),
        ensures
            final(self).wf(),
            final(self).spec_path() == old(self).spec_path(),
            final(self).string_reg() == old(self).string_reg() && final(self).bytes_reg() == old(self).bytes_reg() && final(self).i64_reg() == old(self).i64_reg() && final(self).u64_reg() == old(self).u64_reg(),
            r.is_ok(),
            match r {
                Ok(m) => m.db_wf() && if reg_holds(
                    old(self).vu64_reg(),
                    vstd::utf8::encode_utf8(name@),
                ) {
                    &&& m == reg_at(old(self).vu64_reg(), vstd::utf8::encode_utf8(name@))
                    &&& !reg_holds(final(self).vu64_reg(), vstd::utf8::encode_utf8(name@))
                    &&& forall|n2: Seq<u8>|
                        n2 != vstd::utf8::encode_utf8(name@) ==> #[trigger] reg_holds(
                            final(self).vu64_reg(),
                            n2,
                        ) == reg_holds(old(self).vu64_reg(), n2) && (reg_holds(old(self).vu64_reg(), n2)
                            ==> reg_at(final(self).vu64_reg(), n2) == reg_at(old(self).vu64_reg(), n2))
                } else {
                    &&& m.db_view() == Map::<Seq<u8>, Seq<u8>>::empty()
                    &&& !m.db_dirty()
                    &&& *final(self) == *old(self)
                },
                Err(_) => false,
            },
    {
        self.db_map_vu64_with_params(name, &FileDbParams::default())
    }

    /// The vu64-keyed keyspace named `name`: taken out of the registry
    /// when held there (parameters ignored), else created fresh from the
    /// given parameters. Creating with a zero capacity hint fails.
    pub fn db_map_vu64_with_params(&mut self, name: &str, params: &FileDbParams) -> (r: Result<
        crate::dbmap::FileDbMapDbVu64,
        DbError,
    >)
        requires
            old(self).wf(),
        ensures
            final(self).wf(),
            final(self).spec_path() == old(self).spec_path(),
            final(self).string_reg() == old(self).string_reg() && final(self).bytes_reg() == old(self).bytes_reg() && final(self).i64_reg() == old(self).i64_reg() && final(self).u64_reg() == old(self).u64_reg(),
            match r {
                Ok(m) => m.db_wf() && if reg_holds(
                    old(self).vu64_reg(),
                    vstd::utf8::encode_utf8(name@),
                ) {
                    &&& m == reg_at(old(self).vu64_reg(), vstd::utf8::encode_utf8(name@))
                    &&& !reg_holds(final(self).vu64_reg(), vstd::utf8::encode_utf8(name@))
                    &&& forall|n2: Seq<u8>|
                        n2 != vstd::utf8::encode_utf8(name@) ==> #[trigger] reg_holds(
                            final(self).vu64_reg(),
                            n2,
                        ) == reg_holds(old(self).vu64_reg(), n2) && (reg_holds(old(self).vu64_reg(), n2)
                            ==> reg_at(final(self).vu64_reg(), n2) == reg_at(old(self).vu64_reg(), n2))
                } else {
                    &&& m.db_view() == Map::<Seq<u8>, Seq<u8>>::empty()
                    &&& !m.db_dirty()
                    &&& *final(self) == *old(self)
                },
                Err(e) => (if params.buckets_size matches HashBucketsParam::Capacity(c) && c == 0 {
                    e == DbError::ZeroCapacity
                } else {
                    e == DbError::TooLarge
                }) && *final(self) == *old(self),
            },
            (reg_holds(old(self).vu64_reg(), vstd::utf8::encode_utf8(name@)) || spec_params_accepted(
                *params,
            )) ==> r.is_ok(),
    {
        match self.inner.db_map_vu64(name) {
            Some(m) => Ok(m),
            None => {
                match crate::dbmap::FileDbMapDbVu64::open(params) {
                    Ok(m) => Ok(m),
                    Err(e) => Err(e),
                }
            },
        }
    }

    /// Binds `name` to the given vu64-keyed keyspace in the registry,
    /// returning any keyspace previously bound under that name.
    pub fn db_map_dbvu64_insert(&mut self, name: &str, child: crate::dbmap::FileDbMapDbVu64) -> (r: Option<
        crate::dbmap::FileDbMapDbVu64,
    >)
        requires
            old(self).wf(),
            child.db_wf(),
        ensures
            final(self).wf(),
            final(self).spec_path() == old(self).spec_path(),
            final(self).string_reg() == old(self).string_reg() && final(self).bytes_reg() == old(self).bytes_reg() && final(self).i64_reg() == old(self).i64_reg() && final(self).u64_reg() == old(self).u64_reg(),
            reg_holds(final(self).vu64_reg(), vstd::utf8::encode_utf8(name@)),
            reg_at(final(self).vu64_reg(), vstd::utf8::encode_utf8(name@)) == child,
            forall|n2: Seq<u8>|
                n2 != vstd::utf8::encode_utf8(name@) ==> #[trigger] reg_holds(
                    final(self).vu64_reg(),
                    n2,
                ) == reg_holds(old(self).vu64_reg(), n2) && (reg_holds(old(self).vu64_reg(), n2)
                    ==> reg_at(final(self).vu64_reg(), n2) == reg_at(old(self).vu64_reg(), n2)),
            match r {
                Some(m) => reg_holds(old(self).vu64_reg(), vstd::utf8::encode_utf8(name@)) && m
                    == reg_at(old(self).vu64_reg(), vstd::utf8::encode_utf8(name@)) && m.db_wf(),
                None => !reg_holds(old(self).vu64_reg(), vstd::utf8::encode_utf8(name@)),
            },
    {
        self.inner.db_map_dbvu64_insert(name, child)
    }
}

} // verus!
