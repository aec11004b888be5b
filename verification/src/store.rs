//! Handles and the deduplication model of the object store.
//!
//! A [`Handle`] is a reference to a store-resident object: it carries the
//! slot index that the store assigned and its own copy of the canonical
//! value. Within one well-formed store, two handles are equal exactly when
//! they name the same slot.
//!
//! The store itself keeps one duplicate-free sequence of objects per kind.
//! Its insert-or-reuse behaviour is captured by the spec functions
//! [`store_insert`] and [`store_insert_id`], and the laws of idempotence and
//! deduplication are proved of that model once, for every kind.

use vstd::prelude::*;

verus! {

/// A reference to an object held by the store: the slot index the store
/// assigned, together with the canonical value that lives in that slot.
#[derive(Clone, Copy, PartialEq, Eq, Structural, Debug)]
pub struct Handle<T> {
    /// The store slot that the handle names.
    pub id: u64,
    /// The canonical value held in that slot.
    pub obj: T,
}

impl<T> Handle<T> {
    /// The referenced canonical value.
    pub fn get(&self) -> (r: &T)
        ensures
            *r == self.obj,
    {
        &self.obj
    }
}

/// A context-local representation of an object, paired with the handle of
/// its canonical, store-resident version.
#[derive(Clone, Copy, PartialEq, Eq, Structural, Debug)]
pub struct LocalForm<L, C> {
    /// The representation local to one topological context.
    pub local: L,
    /// The handle of the shared canonical object.
    pub canonical: Handle<C>,
}

impl<L, C> LocalForm<L, C> {
    /// Pairs a local representation with the canonical handle it refines.
    pub fn new(local: L, canonical: Handle<C>) -> (r: Self)
        ensures
            r.local == local,
            r.canonical == canonical,
    {
        LocalForm { local, canonical }
    }

    /// The local representation.
    pub fn local(&self) -> (r: &L)
        ensures
            *r == self.local,
    {
        &self.local
    }

    /// The canonical handle.
    pub fn canonical(&self) -> (r: &Handle<C>)
        ensures
            *r == self.canonical,
    {
        &self.canonical
    }
}

impl<C: Copy> LocalForm<C, C> {
    /// A local form whose local representation is the canonical value itself.
    pub fn canonical_only(canonical: Handle<C>) -> (r: Self)
        ensures
            r.local == canonical.obj,
            r.canonical == canonical,
    {
        LocalForm { local: canonical.obj, canonical }
    }
}

/// The index of the first occurrence of `v` in `s`; `s.len()` if absent.
pub open spec fn first_index_of<V>(s: Seq<V>, v: V) -> int
    decreases s.len(),
{
    if s.len() == 0 {
        0
    } else if s[0] == v {
        0
    } else {
        1 + first_index_of(s.drop_first(), v)
    }
}

/// What insert-or-reuse leaves in a store slot sequence: the sequence
/// unchanged when the value is already present, else the value appended.
pub open spec fn store_insert<V>(s: Seq<V>, v: V) -> Seq<V> {
    if s.contains(v) {
        s
    } else {
        s.push(v)
    }
}

/// The slot that insert-or-reuse hands back: the first occurrence when the
/// value is already present, else the freshly filled slot at the end.
pub open spec fn store_insert_id<V>(s: Seq<V>, v: V) -> int {
    if s.contains(v) {
        first_index_of(s, v)
    } else {
        s.len() as int
    }
}

/// A sequence without duplicates: distinct slots hold distinct values.
pub open spec fn uniq<V>(s: Seq<V>) -> bool {
    forall|i: int, j: int| 0 <= i < j < s.len() ==> s[i] != s[j]
}

/// When `v` occurs in `s`, `first_index_of` points at its first occurrence.
pub proof fn lemma_first_index_of<V>(s: Seq<V>, v: V)
    requires
        s.contains(v),
    ensures
        0 <= first_index_of(s, v) < s.len(),
        s[first_index_of(s, v)] == v,
        forall|j: int| 0 <= j < first_index_of(s, v) ==> s[j] != v,
    decreases s.len(),
{
    if s.len() == 0 {
    } else if s[0] == v {
    } else {
        assert(s.drop_first().contains(v)) by {
            let i = choose|i: int| 0 <= i < s.len() && s[i] == v;
            assert(s.drop_first()[i - 1] == v);
        }
        lemma_first_index_of(s.drop_first(), v);
        assert forall|j: int| 0 <= j < first_index_of(s, v) implies s[j] != v by {
            if j > 0 {
                assert(s.drop_first()[j - 1] == s[j]);
            }
        }
    }
}

/// Appending entries to a sequence moves no existing first occurrence.
pub proof fn lemma_first_index_of_prefix<V>(s1: Seq<V>, s2: Seq<V>, v: V)
    requires
        s1.is_prefix_of(s2),
        s1.contains(v),
    ensures
        s2.contains(v),
        first_index_of(s2, v) == first_index_of(s1, v),
    decreases s1.len(),
{
    lemma_first_index_of(s1, v);
    let i = first_index_of(s1, v);
    assert(s2[i] == v);
    assert(s2.contains(v));
    if s1[0] == v {
    } else {
        assert(s1.drop_first().contains(v)) by {
            assert(s1.drop_first()[i - 1] == v);
        }
        assert(s1.drop_first().is_prefix_of(s2.drop_first()));
        lemma_first_index_of_prefix(s1.drop_first(), s2.drop_first(), v);
    }
}

/// In a duplicate-free sequence, any slot holding `v` is its first
/// occurrence: a value determines its slot.
pub proof fn lemma_uniq_index_determined<V>(s: Seq<V>, v: V, i: int)
    requires
        uniq(s),
        0 <= i < s.len(),
        s[i] == v,
    ensures
        s.contains(v),
        first_index_of(s, v) == i,
{
    assert(s.contains(v));
    lemma_first_index_of(s, v);
    let f = first_index_of(s, v);
    if f < i {
        assert(s[f] == s[i]);
    }
}

/// Idempotent merge: inserting a value that is already canonical leaves the
/// store unchanged and hands back the slot it already occupies.
pub proof fn lemma_store_insert_idempotent<V>(s: Seq<V>, v: V, i: int)
    requires
        uniq(s),
        0 <= i < s.len(),
        s[i] == v,
    ensures
        store_insert(s, v) == s,
        store_insert_id(s, v) == i,
{
    lemma_uniq_index_determined(s, v, i);
}

/// Deduplication: inserting the same value twice yields the same slot both
/// times, and the store after both inserts is the store after one.
pub proof fn lemma_store_insert_dedup<V>(s: Seq<V>, v: V)
    ensures
        store_insert(store_insert(s, v), v) == store_insert(s, v),
        store_insert_id(store_insert(s, v), v) == store_insert_id(s, v),
        store_insert(store_insert(s, v), v).len() == store_insert(s, v).len(),
    decreases s.len(),
{
    let s1 = store_insert(s, v);
    if s.contains(v) {
        assert(s1 == s);
    } else {
        assert(s1 == s.push(v));
        assert(s1[s.len() as int] == v);
        assert(s1.contains(v));
        assert(store_insert(s1, v) == s1);
        lemma_first_index_of_absent_push(s, v);
    }
}

/// Inserting a fresh value fills the new last slot.
pub proof fn lemma_first_index_of_absent_push<V>(s: Seq<V>, v: V)
    requires
        !s.contains(v),
    ensures
        first_index_of(s.push(v), v) == s.len(),
    decreases s.len(),
{
    if s.len() == 0 {
        assert(s.push(v)[0] == v);
    } else {
        assert(s[0] != v);
        assert(s.push(v)[0] == s[0]);
        assert(!s.drop_first().contains(v)) by {
            if s.drop_first().contains(v) {
                let i = choose|i: int|
                    0 <= i < s.drop_first().len() && s.drop_first()[i] == v;
                assert(s[i + 1] == v);
            }
        }
        lemma_first_index_of_absent_push(s.drop_first(), v);
        assert(s.push(v).drop_first() =~= s.drop_first().push(v));
    }
}

/// Insert-or-reuse keeps a store duplicate-free.
pub proof fn lemma_store_insert_uniq<V>(s: Seq<V>, v: V)
    requires
        uniq(s),
    ensures
        uniq(store_insert(s, v)),
        store_insert(s, v).contains(v),
        0 <= store_insert_id(s, v) < store_insert(s, v).len(),
        store_insert(s, v)[store_insert_id(s, v)] == v,
        store_insert_id(s, v) == first_index_of(store_insert(s, v), v),
        s.is_prefix_of(store_insert(s, v)),
{
    if s.contains(v) {
        lemma_first_index_of(s, v);
        assert(s.is_prefix_of(s));
    } else {
        let s1 = s.push(v);
        assert(s1[s.len() as int] == v);
        assert(s1.contains(v));
        assert forall|i: int, j: int| 0 <= i < j < s1.len() implies s1[i] != s1[j] by {
            if j == s.len() as int {
                assert(s1[i] == s[i]);
                assert(!s.contains(v) ==> s[i] != v) by {
                    if s[i] == v {
                        assert(s.contains(v));
                    }
                }
            }
        }
        lemma_first_index_of_absent_push(s, v);
    }
}


/// One sequence extends another: the old entries keep their slots.
pub open spec fn grows_seq<V>(a: Seq<V>, b: Seq<V>) -> bool {
    a.len() <= b.len() && forall|i: int| 0 <= i < a.len() ==> a[i] == b[i]
}

/// A value found at `k` by a scan from the front, with no earlier match,
/// sits at its first occurrence.
pub proof fn lemma_first_index_from_scan<V>(s: Seq<V>, v: V, k: int)
    requires
        0 <= k < s.len(),
        s[k] == v,
        forall|j: int| 0 <= j < k ==> s[j] != v,
    ensures
        s.contains(v),
        first_index_of(s, v) == k,
    decreases k,
{
    assert(s.contains(v));
    if k > 0 {
        assert(s.drop_first()[k - 1] == s[k]);
        assert forall|j: int| 0 <= j < k - 1 implies s.drop_first()[j] != v by {
            assert(s[j + 1] == s.drop_first()[j]);
        }
        lemma_first_index_from_scan(s.drop_first(), v, k - 1);
    }
}

/// A full scan that found nothing means the value is absent.
pub proof fn lemma_not_contains_from_scan<V>(s: Seq<V>, v: V)
    requires
        forall|j: int| 0 <= j < s.len() ==> s[j] != v,
    ensures
        !s.contains(v),
{
    if s.contains(v) {
        let j = choose|j: int| 0 <= j < s.len() && s[j] == v;
        assert(s[j] != v);
    }
}

/// Growing a store moves no existing first occurrence.
pub proof fn lemma_first_index_grows<V>(s1: Seq<V>, s2: Seq<V>, v: V)
    requires
        grows_seq(s1, s2),
        s1.contains(v),
    ensures
        s2.contains(v),
        first_index_of(s2, v) == first_index_of(s1, v),
{
    assert(s1.is_prefix_of(s2)) by {
        assert(s1 =~= s2.subrange(0, s1.len() as int));
    }
    lemma_first_index_of_prefix(s1, s2, v);
}

/// Insert-or-reuse only grows the store.
pub proof fn lemma_store_insert_grows<V>(s: Seq<V>, v: V)
    ensures
        grows_seq(s, store_insert(s, v)),
        store_insert(s, v).contains(v),
        store_insert(s, v)[store_insert_id(s, v)] == v,
        0 <= store_insert_id(s, v) < store_insert(s, v).len(),
{
    if s.contains(v) {
        lemma_first_index_of(s, v);
    } else {
        assert(s.push(v)[s.len() as int] == v);
    }
}


} // verus!
