//! The laws of the keyspace map, stated over the abstract views that the
//! operation contracts use. `put` ensures the view becomes
//! `old.insert(key, value)`, `delete` ensures it becomes
//! `old.remove(key)`, `get` and `includes_key` ensure their results read
//! the view, and `len` ensures its result counts the view's keys; the
//! lemmas below state what those contracts together guarantee across
//! calls.
use vstd::prelude::*;

verus! {

/// Law: a put followed by a get of the same key yields exactly the value
/// put, whatever the map held before.
pub proof fn lemma_put_then_get(m: Map<Seq<u8>, Seq<u8>>, k: Seq<u8>, v: Seq<u8>)
    ensures
        m.insert(k, v).contains_key(k),
        m.insert(k, v)[k] == v,
{
}

/// Law: a put of one key leaves every other key's presence and value
/// unchanged.
pub proof fn lemma_put_preserves_others(m: Map<Seq<u8>, Seq<u8>>, k: Seq<u8>, v: Seq<u8>, k2: Seq<
    u8,
>)
    requires
        k2 != k,
    ensures
        m.insert(k, v).contains_key(k2) == m.contains_key(k2),
        m.contains_key(k2) ==> m.insert(k, v)[k2] == m[k2],
{
}

/// Law: deleting is idempotent. A delete of an absent key changes
/// nothing; after a delete the key is gone, so a get misses and a second
/// delete of the same key changes nothing and returns nothing.
pub proof fn lemma_delete_idempotent(m: Map<Seq<u8>, Seq<u8>>, k: Seq<u8>)
    ensures
        !m.contains_key(k) ==> m.remove(k) == m,
        !m.remove(k).contains_key(k),
        m.remove(k).remove(k) == m.remove(k),
{
    if !m.contains_key(k) {
        assert(m.remove(k) =~= m);
    }
    assert(m.remove(k).remove(k) =~= m.remove(k));
}

/// Law: membership follows the history. A key is held exactly when a put
/// of it has not been followed by a delete of it: right after a put the
/// key is a member, and right after a delete it is not, whatever came
/// before.
pub proof fn lemma_membership(m: Map<Seq<u8>, Seq<u8>>, k: Seq<u8>, v: Seq<u8>)
    ensures
        m.insert(k, v).contains_key(k),
        !m.remove(k).contains_key(k),
{
}

/// Law: overwriting a key keeps the key count. Two puts of the same key
/// leave exactly the second value, and the map's keys are the same as
/// after a single put, so the length does not grow.
pub proof fn lemma_overwrite(m: Map<Seq<u8>, Seq<u8>>, k: Seq<u8>, v1: Seq<u8>, v2: Seq<u8>)
    ensures
        m.insert(k, v1).insert(k, v2) == m.insert(k, v2),
        m.insert(k, v1).insert(k, v2)[k] == v2,
        m.insert(k, v1).dom() == m.insert(k, v2).dom(),
{
    assert(m.insert(k, v1).insert(k, v2) =~= m.insert(k, v2));
    assert(m.insert(k, v1).dom() =~= m.insert(k, v2).dom());
}

/// Law: the key count moves by one. A put of an absent key grows the
/// count by one, a put of a present key keeps it, and a delete of a
/// present key shrinks it by one; `len` reads exactly this count.
pub proof fn lemma_count_moves_by_one(m: Map<Seq<u8>, Seq<u8>>, k: Seq<u8>, v: Seq<u8>)
    requires
        m.dom().finite(),
    ensures
        !m.contains_key(k) ==> m.insert(k, v).dom().len() == m.dom().len() + 1,
        m.contains_key(k) ==> m.insert(k, v).dom().len() == m.dom().len(),
        m.contains_key(k) ==> m.remove(k).dom().len() == m.dom().len() - 1,
{
    if m.contains_key(k) {
        assert(m.insert(k, v).dom() =~= m.dom());
        m.lemma_remove_key_len(k);
    } else {
        assert(m.insert(k, v).dom() =~= m.dom().insert(k));
        assert(m.dom().insert(k).len() == m.dom().len() + 1);
    }
}

} // verus!
