use std::sync::Arc;
use vstd::prelude::*;
use vstd::rwlock::RwLock;
use vstd::string::StringExecFns;

use crate::model::error::Error;

verus! {

/// Interface of the key-value store that the dispatcher drives.
///
/// The visitor-style read hands the current value (or an absence marker) to
/// `carrier` while read access is held, so no owned copy of the value is
/// made on a miss; the visitor must not re-enter the store. A generic
/// implementation promises only the lock discipline: on success the answer
/// is one possible output of the visitor. The concrete store below adds the
/// outcomes it can actually produce.
pub trait Db {
    /// Inserts or overwrites the value for `key`.
    fn insert(&self, key: String, value: String) -> Result<(), Error>;

    /// Looks up `key` and invokes `carrier` with either the current value
    /// or `None`, returning the visitor's answer.
    fn with_value<C, T>(&self, key: &str, carrier: C) -> (r: Result<T, Error>) where
        C: FnOnce(Option<&str>) -> T,

        requires
            forall|v: Option<&str>| call_requires(carrier, (v,)),
        ensures
            match r {
                Ok(out) => exists|v: Option<&str>| call_ensures(carrier, (v,), out),
                Err(e) => true,
            },
    ;

    /// Removes `key` if present; reports `KeyNotFound` if absent.
    fn delete(&self, key: &str) -> Result<(), Error>;
}

/// The mapping a key-value association list denotes: later entries win.
spec fn assoc_map(s: Seq<(String, String)>) -> Map<Seq<char>, Seq<char>>
    decreases s.len(),
{
    if s.len() == 0 {
        Map::<Seq<char>, Seq<char>>::empty()
    } else {
        assoc_map(s.drop_last()).insert(s.last().0@, s.last().1@)
    }
}

/// Whether the keys of `s` are pairwise distinct.
spec fn uniq_keys(s: Seq<(String, String)>) -> bool {
    forall|i: int, j: int| 0 <= i < j < s.len() ==> (#[trigger] s[i]).0@ != (#[trigger] s[j]).0@
}

/// A key is in the map exactly when some entry holds it.
proof fn lemma_assoc_contains(s: Seq<(String, String)>, k: Seq<char>)
    ensures
        assoc_map(s).contains_key(k) <==> exists|i: int| 0 <= i < s.len() && (#[trigger] s[i]).0@
            == k,
    decreases s.len(),
{
    if s.len() == 0 {
    } else {
        let pre = s.drop_last();
        lemma_assoc_contains(pre, k);
        if s.last().0@ == k {
            assert(s[s.len() - 1].0@ == k);
        } else {
            if assoc_map(s).contains_key(k) {
                let i = choose|i: int| 0 <= i < pre.len() && (#[trigger] pre[i]).0@ == k;
                assert(s[i].0@ == k);
            }
            if exists|i: int| 0 <= i < s.len() && (#[trigger] s[i]).0@ == k {
                let i = choose|i: int| 0 <= i < s.len() && (#[trigger] s[i]).0@ == k;
                assert(pre[i].0@ == k);
            }
        }
    }
}

/// Under distinct keys, the entry holding a key gives its mapped value.
proof fn lemma_assoc_lookup(s: Seq<(String, String)>, i: int)
    requires
        uniq_keys(s),
        0 <= i < s.len(),
    ensures
        assoc_map(s).contains_key(s[i].0@),
        assoc_map(s)[s[i].0@] == s[i].1@,
    decreases s.len(),
{
    let pre = s.drop_last();
    if i == s.len() - 1 {
    } else {
        assert(uniq_keys(pre));
        assert(pre[i] == s[i]);
        lemma_assoc_lookup(pre, i);
        assert(s.last().0@ != s[i].0@);
    }
}

/// Under distinct keys, removing the entry holding a key removes the key.
proof fn lemma_assoc_remove(s: Seq<(String, String)>, i: int)
    requires
        uniq_keys(s),
        0 <= i < s.len(),
    ensures
        assoc_map(s.remove(i)) == assoc_map(s).remove(s[i].0@),
    decreases s.len(),
{
    let pre = s.drop_last();
    let k = s[i].0@;
    if i == s.len() - 1 {
        assert(s.remove(i) =~= pre);
        lemma_assoc_contains(pre, k);
        assert(!assoc_map(pre).contains_key(k));
        assert(assoc_map(pre) =~= assoc_map(pre).insert(k, s.last().1@).remove(k));
    } else {
        assert(uniq_keys(pre));
        assert(pre[i] == s[i]);
        lemma_assoc_remove(pre, i);
        assert(s.remove(i).drop_last() =~= pre.remove(i));
        assert(s.remove(i).last() == s.last());
        assert(s.last().0@ != k);
        assert(assoc_map(s.remove(i)) == assoc_map(pre.remove(i)).insert(
            s.last().0@,
            s.last().1@,
        ));
        assert(assoc_map(pre).remove(k).insert(s.last().0@, s.last().1@) =~= assoc_map(pre).insert(
            s.last().0@,
            s.last().1@,
        ).remove(k));
    }
}

/// The in-memory association of keys to values, read and written under the
/// store's lock. Later entries never repeat an earlier key.
pub struct AtomicDbInner {
    data: Vec<(String, String)>,
}

impl View for AtomicDbInner {
    type V = Map<Seq<char>, Seq<char>>;

    closed spec fn view(&self) -> Map<Seq<char>, Seq<char>> {
        assoc_map(self.data@)
    }
}

impl AtomicDbInner {
    /// Each key appears in at most one entry.
    pub closed spec fn wf(&self) -> bool {
        uniq_keys(self.data@)
    }

    /// An empty store.
    pub fn new() -> (r: Self)
        ensures
            r.wf(),
            r@ == Map::<Seq<char>, Seq<char>>::empty(),
    {
        AtomicDbInner { data: Vec::new() }
    }

    /// The index of the entry holding `key`, if any.
    fn find(&self, key: &String) -> (r: Option<usize>)
        ensures
            match r {
                Some(i) => i < self.data@.len() && self.data@[i as int].0@ == key@,
                None => forall|i: int|
                    0 <= i < self.data@.len() ==> (#[trigger] self.data@[i]).0@ != key@,
            },
    {
        let mut i: usize = 0;
        while i < self.data.len()
            invariant
                0 <= i <= self.data@.len(),
                forall|t: int| 0 <= t < i ==> (#[trigger] self.data@[t]).0@ != key@,
            decreases self.data@.len() - i,
        {
            if self.data[i].0 == *key {
                return Some(i);
            }
            i = i + 1;
        }
        None
    }

    /// Borrows the value stored for `key`, or reports its absence.
    pub fn get<'a>(&'a self, key: &String) -> (r: Option<&'a String>)
        requires
            self.wf(),
        ensures
            match r {
                Some(v) => self@.contains_key(key@) && v@ == self@[key@],
                None => !self@.contains_key(key@),
            },
    {
        match self.find(key) {
            Some(i) => {
                proof {
                    lemma_assoc_lookup(self.data@, i as int);
                }
                Some(&self.data[i].1)
            },
            None => {
                proof {
                    lemma_assoc_contains(self.data@, key@);
                }
                None
            },
        }
    }

    /// Inserts or overwrites the value for `key`.
    pub fn insert(&mut self, key: String, value: String)
        requires
            old(self).wf(),
        ensures
            final(self).wf(),
            final(self)@ == old(self)@.insert(key@, value@),
    {
        let ghost k = key@;
        let ghost v = value@;
        let _ = self.remove(&key);
        let ghost mid = self.data@;
        self.data.push((key, value));
        proof {
            lemma_assoc_contains(mid, k);
            assert(self.data@.drop_last() =~= mid);
            assert(self.data@.last().0@ == k && self.data@.last().1@ == v);
            assert(forall|i: int| 0 <= i < mid.len() ==> (#[trigger] mid[i]).0@ != k);
            assert forall|a: int, b: int|
                0 <= a < b < self.data@.len() implies (#[trigger] self.data@[a]).0@ != (
            #[trigger] self.data@[b]).0@ by {
                assert(self.data@[a] == mid[a]);
                if b < mid.len() {
                    assert(self.data@[b] == mid[b]);
                } else {
                    assert(self.data@[b].0@ == k);
                }
            }
            assert(self@ == assoc_map(mid).insert(k, v));
            assert(old(self)@.remove(k).insert(k, v) =~= old(self)@.insert(k, v));
        }
    }

    /// Removes the entry for `key`; reports whether one was present.
    pub fn remove(&mut self, key: &String) -> (r: bool)
        requires
            old(self).wf(),
        ensures
            final(self).wf(),
            r == old(self)@.contains_key(key@),
            final(self)@ == old(self)@.remove(key@),
            !final(self)@.contains_key(key@),
    {
        let ghost pre = self.data@;
        proof {
            lemma_assoc_contains(pre, key@);
        }
        match self.find(key) {
            Some(i) => {
                let ghost ii = i as int;
                let _ = self.data.remove(i);
                proof {
                    lemma_assoc_remove(pre, ii);
                    assert forall|a: int, b: int|
                        0 <= a < b < self.data@.len() implies (#[trigger] self.data@[a]).0@ != (
                    #[trigger] self.data@[b]).0@ by {
                        if a < ii {
                            assert(self.data@[a] == pre[a]);
                        } else {
                            assert(self.data@[a] == pre[a + 1]);
                        }
                        if b < ii {
                            assert(self.data@[b] == pre[b]);
                        } else {
                            assert(self.data@[b] == pre[b + 1]);
                        }
                    }
                    assert forall|t: int|
                        0 <= t < self.data@.len() implies (#[trigger] self.data@[t]).0@
                        != key@ by {
                        if t < ii {
                            assert(self.data@[t] == pre[t]);
                            assert(pre[t].0@ != pre[ii].0@);
                        } else {
                            assert(self.data@[t] == pre[t + 1]);
                            assert(pre[t + 1].0@ != pre[ii].0@);
                        }
                    }
                    lemma_assoc_contains(self.data@, key@);
                }
                true
            },
            None => {
                proof {
                    assert(old(self)@.remove(key@) =~= old(self)@);
                }
                false
            },
        }
    }
}

/// The shared key-value store: one association list behind a
/// reader-writer lock, shared by every connection handler.
///
/// Every handle clones to the same lock; each operation acquires it, so
/// all reads and writes are serialized and a reader only ever observes a
/// fully completed prior mutation. The lock cannot be poisoned: everything
/// run under it is verified not to panic, so no operation here ever
/// reports `DbPoisoned`.
pub struct AtomicDb {
    inner: Arc<RwLock<AtomicDbInner, spec_fn(AtomicDbInner) -> bool>>,
}

impl AtomicDb {
    #[verifier::type_invariant]
    spec fn locked_wf(&self) -> bool {
        self.inner.pred() == (|s: AtomicDbInner| s.wf())
    }

    /// An empty store behind a fresh lock.
    pub fn new() -> (r: Self) {
        let inner = AtomicDbInner::new();
        let lock = RwLock::<AtomicDbInner, spec_fn(AtomicDbInner) -> bool>::new(
            inner,
            Ghost(|s: AtomicDbInner| s.wf()),
        );
        AtomicDb { inner: Arc::new(lock) }
    }

    /// Relies on `Arc::clone`: the returned handle points to the very
    /// allocation of `a`, so as a value it equals `a`.
    #[verifier::external_body]
    fn clone_arc(
        a: &Arc<RwLock<AtomicDbInner, spec_fn(AtomicDbInner) -> bool>>,
    ) -> (r: Arc<RwLock<AtomicDbInner, spec_fn(AtomicDbInner) -> bool>>)
        ensures
            r == *a,
    {
        Arc::clone(a)
    }
}

impl Clone for AtomicDb {
    /// Another handle to the same store.
    fn clone(&self) -> (r: Self)
        ensures
            r == *self,
    {
        proof {
            use_type_invariant(self);
        }
        AtomicDb { inner: AtomicDb::clone_arc(&self.inner) }
    }
}

impl Db for AtomicDb {
    /// Inserts or overwrites the value for `key` under the write lock;
    /// with an unpoisonable lock this always succeeds.
    fn insert(&self, key: String, value: String) -> (r: Result<(), Error>)
        ensures
            r is Ok,
    {
        proof {
            use_type_invariant(self);
        }
        let (mut map, handle) = self.inner.acquire_write();
        map.insert(key, value);
        handle.release_write(map);
        Ok(())
    }

    /// Hands `carrier` the value stored for `key`, or `None`, under the
    /// read lock; with an unpoisonable lock this always succeeds.
    fn with_value<C, T>(&self, key: &str, carrier: C) -> (r: Result<T, Error>) where
        C: FnOnce(Option<&str>) -> T,
        ensures
            r is Ok,
    {
        proof {
            use_type_invariant(self);
        }
        let read_handle = self.inner.acquire_read();
        let map = read_handle.borrow();
        let k = String::from_str(key);
        let arg: Option<&str> = match map.get(&k) {
            Some(v) => Some(v.as_str()),
            None => None,
        };
        let out = carrier(arg);
        read_handle.release_read();
        let r: Result<T, Error> = Ok(out);
        proof {
            assert(call_ensures(carrier, (arg,), r->Ok_0));
        }
        r
    }

    /// Removes `key` under the write lock; reports `KeyNotFound` exactly
    /// when the store held no value for `key`.
    fn delete(&self, key: &str) -> (r: Result<(), Error>)
        ensures
            r matches Err(e) ==> e == Error::KeyNotFound,
    {
        proof {
            use_type_invariant(self);
        }
        let (mut map, handle) = self.inner.acquire_write();
        let k = String::from_str(key);
        let present = map.remove(&k);
        handle.release_write(map);
        if present {
            Ok(())
        } else {
            Err(Error::KeyNotFound)
        }
    }
}

/// A key never inserted is absent: a fresh store maps no key at all, so a
/// read of any key observes the absence marker.
pub proof fn lemma_fresh_store_is_empty(k: Seq<char>)
    ensures
        !Map::<Seq<char>, Seq<char>>::empty().contains_key(k),
{
}

/// Write-then-read consistency: after inserting `v` for `k`, a read of
/// `k` observes exactly `v`.
pub proof fn lemma_write_then_read(m: Map<Seq<char>, Seq<char>>, k: Seq<char>, v: Seq<char>)
    ensures
        m.insert(k, v).contains_key(k),
        m.insert(k, v)[k] == v,
{
}

/// Last write wins: inserting `v1` and then `v2` for the same key leaves
/// exactly `v2`, whatever the store held before.
pub proof fn lemma_overwrite(
    m: Map<Seq<char>, Seq<char>>,
    k: Seq<char>,
    v1: Seq<char>,
    v2: Seq<char>,
)
    ensures
        m.insert(k, v1).insert(k, v2).contains_key(k),
        m.insert(k, v1).insert(k, v2)[k] == v2,
{
}

/// Deleting a present key removes it: a subsequent read observes absence.
pub proof fn lemma_delete_removes(m: Map<Seq<char>, Seq<char>>, k: Seq<char>)
    ensures
        !m.remove(k).contains_key(k),
{
}

/// Deleting an absent key leaves the store unchanged.
pub proof fn lemma_delete_absent_unchanged(m: Map<Seq<char>, Seq<char>>, k: Seq<char>)
    requires
        !m.contains_key(k),
    ensures
        m.remove(k) == m,
{
    assert(m.remove(k) =~= m);
}

/// The writes to one key that a serialization order applies, in that
/// order.
pub open spec fn apply_writes(
    m: Map<Seq<char>, Seq<char>>,
    k: Seq<char>,
    vs: Seq<Seq<char>>,
) -> Map<Seq<char>, Seq<char>>
    decreases vs.len(),
{
    if vs.len() == 0 {
        m
    } else {
        apply_writes(m, k, vs.drop_last()).insert(k, vs.last())
    }
}

/// Serialized writes never corrupt: after any run of inserts to one key,
/// the key holds exactly the whole value written last in the
/// serialization order, which is one of the submitted values.
pub proof fn lemma_serialized_writes(m: Map<Seq<char>, Seq<char>>, k: Seq<char>, vs: Seq<Seq<char>>)
    requires
        vs.len() > 0,
    ensures
        apply_writes(m, k, vs).contains_key(k),
        apply_writes(m, k, vs)[k] == vs.last(),
        vs.contains(apply_writes(m, k, vs)[k]),
{
    assert(vs[vs.len() - 1] == vs.last());
}

} // verus!

