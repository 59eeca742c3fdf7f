//! The typed keyspace store: a map from byte-string keys to payloads of
//! one data type. One `TypedStore` exists per data type, so unrelated
//! types never interfere. Containers persist once created: no list
//! command deletes a key, even after its container drains to empty.
//!
//! Exclusive write access follows a take / put-back discipline:
//! `take` removes the payload under a key, the caller mutates it, and
//! `insert` puts it back. Together they play the role of a scoped
//! mutable view of one key's payload.

use vstd::prelude::*;
use vstd::slice::slice_to_vec;

verus! {

/// One key/payload pair held by a typed store.
struct Entry<V> {
    key: Vec<u8>,
    val: V,
}

/// Does some entry of `s` carry the key `k`?
spec fn has_key<V>(s: Seq<Entry<V>>, k: Seq<u8>) -> bool {
    exists|i: int| 0 <= i < s.len() && s[i].key@ == k
}

/// No two entries of `s` carry the same key.
spec fn distinct_keys<V>(s: Seq<Entry<V>>) -> bool {
    forall|i: int, j: int| 0 <= i < j < s.len() ==> s[i].key@ != s[j].key@
}

/// The mapping that a sequence of entries represents; later entries win,
/// though under `distinct_keys` every key occurs at most once.
spec fn map_of<V: DeepView>(s: Seq<Entry<V>>) -> Map<Seq<u8>, <V as DeepView>::V>
    decreases s.len(),
{
    if s.len() == 0 {
        Map::empty()
    } else {
        map_of(s.drop_last()).insert(s.last().key@, s.last().val.deep_view())
    }
}

proof fn lemma_map_of_dom<V: DeepView>(s: Seq<Entry<V>>, k: Seq<u8>)
    ensures
        map_of(s).contains_key(k) <==> has_key(s, k),
    decreases s.len(),
{
    if s.len() == 0 {
    } else {
        lemma_map_of_dom(s.drop_last(), k);
        if s.last().key@ == k {
            assert(s[s.len() - 1].key@ == k);
        } else {
            if has_key(s, k) {
                let i = choose|i: int| 0 <= i < s.len() && s[i].key@ == k;
                assert(s.drop_last()[i].key@ == k);
            }
            if has_key(s.drop_last(), k) {
                let i = choose|i: int|
                    0 <= i < s.drop_last().len() && s.drop_last()[i].key@ == k;
                assert(s[i].key@ == k);
            }
        }
    }
}

proof fn lemma_distinct_drop_last<V>(s: Seq<Entry<V>>)
    requires
        distinct_keys(s),
        s.len() > 0,
    ensures
        distinct_keys(s.drop_last()),
{
    assert forall|i: int, j: int|
        0 <= i < j < s.drop_last().len() implies s.drop_last()[i].key@
        != s.drop_last()[j].key@ by {
        assert(s[i].key@ != s[j].key@);
    }
}

proof fn lemma_map_of_get<V: DeepView>(s: Seq<Entry<V>>, i: int)
    requires
        distinct_keys(s),
        0 <= i < s.len(),
    ensures
        map_of(s).contains_key(s[i].key@),
        map_of(s)[s[i].key@] == s[i].val.deep_view(),
    decreases s.len(),
{
    lemma_map_of_dom(s, s[i].key@);
    if i < s.len() - 1 {
        assert(s.last().key@ != s[i].key@);
        lemma_distinct_drop_last(s);
        lemma_map_of_get(s.drop_last(), i);
        assert(s.drop_last()[i] == s[i]);
    }
}

proof fn lemma_no_other_occurrence<V>(s: Seq<Entry<V>>, i: int)
    requires
        distinct_keys(s),
        0 <= i < s.len(),
    ensures
        !has_key(s.remove(i), s[i].key@),
{
    let k = s[i].key@;
    if has_key(s.remove(i), k) {
        let j = choose|j: int| 0 <= j < s.remove(i).len() && s.remove(i)[j].key@ == k;
        if j < i {
            assert(s.remove(i)[j] == s[j]);
            assert(s[j].key@ == s[i].key@);
        } else {
            assert(s.remove(i)[j] == s[j + 1]);
            assert(s[i].key@ == s[j + 1].key@);
        }
    }
}

proof fn lemma_distinct_remove<V>(s: Seq<Entry<V>>, i: int)
    requires
        distinct_keys(s),
        0 <= i < s.len(),
    ensures
        distinct_keys(s.remove(i)),
{
    assert forall|a: int, b: int|
        0 <= a < b < s.remove(i).len() implies s.remove(i)[a].key@
        != s.remove(i)[b].key@ by {
        let a0: int = if a < i { a } else { a + 1 };
        let b0: int = if b < i { b } else { b + 1 };
        assert(s.remove(i)[a] == s[a0]);
        assert(s.remove(i)[b] == s[b0]);
        assert(s[a0].key@ != s[b0].key@);
    }
}

proof fn lemma_map_of_remove<V: DeepView>(s: Seq<Entry<V>>, i: int)
    requires
        distinct_keys(s),
        0 <= i < s.len(),
    ensures
        map_of(s.remove(i)) == map_of(s).remove(s[i].key@),
    decreases s.len(),
{
    let k = s[i].key@;
    if i == s.len() - 1 {
        assert(s.remove(i) =~= s.drop_last());
        lemma_map_of_dom(s.drop_last(), k);
        lemma_no_other_occurrence(s, i);
        assert forall|j: int|
            0 <= j < s.drop_last().len() implies s.drop_last()[j].key@ != k by {
            assert(s.remove(i)[j] == s[j]);
        }
        assert(!has_key(s.drop_last(), k));
        assert(map_of(s).remove(k) =~= map_of(s.drop_last()));
    } else {
        let dl = s.drop_last();
        lemma_distinct_drop_last(s);
        lemma_map_of_remove(dl, i);
        assert(s.remove(i).drop_last() =~= dl.remove(i));
        assert(s.remove(i).last() == s.last());
        assert(s.remove(i).len() == s.len() - 1);
        let lastk = s.last().key@;
        let lastv = s.last().val.deep_view();
        assert(map_of(s.remove(i)) == map_of(dl.remove(i)).insert(lastk, lastv));
        assert(s[i].key@ != lastk);
        assert(map_of(dl).remove(k).insert(lastk, lastv) =~= map_of(dl).insert(
            lastk,
            lastv,
        ).remove(k));
    }
}

proof fn lemma_map_of_push<V: DeepView>(s: Seq<Entry<V>>, e: Entry<V>)
    ensures
        map_of(s.push(e)) == map_of(s).insert(e.key@, e.val.deep_view()),
{
    assert(s.push(e).drop_last() =~= s);
    assert(s.push(e).last() == e);
    assert(s.push(e).len() == s.len() + 1);
}

proof fn lemma_distinct_push<V>(s: Seq<Entry<V>>, e: Entry<V>)
    requires
        distinct_keys(s),
        !has_key(s, e.key@),
    ensures
        distinct_keys(s.push(e)),
{
    assert forall|i: int, j: int|
        0 <= i < j < s.push(e).len() implies s.push(e)[i].key@ != s.push(e)[j].key@ by {
        if j < s.len() {
            assert(s.push(e)[i] == s[i]);
            assert(s.push(e)[j] == s[j]);
        } else {
            assert(s.push(e)[j] == e);
            assert(s.push(e)[i] == s[i]);
            assert(s[i].key@ != e.key@);
        }
    }
}

/// Byte-for-byte equality of two byte strings.
pub(crate) fn bytes_eq(a: &[u8], b: &[u8]) -> (r: bool)
    ensures
        r <==> a@ == b@,
{
    if a.len() != b.len() {
        return false;
    }
    let n = a.len();
    let mut i: usize = 0;
    while i < n
        invariant
            n == a@.len(),
            n == b@.len(),
            0 <= i <= n,
            forall|j: int| 0 <= j < i ==> a@[j] == b@[j],
        decreases n - i,
    {
        if a[i] != b[i] {
            return false;
        }
        i += 1;
    }
    proof {
        assert(a@ =~= b@);
    }
    true
}

/// One data type's keyspace: byte-string keys mapped to payloads of
/// type `V`, with each key present at most once.
pub struct TypedStore<V> {
    entries: Vec<Entry<V>>,
}

impl<V: DeepView> View for TypedStore<V> {
    type V = Map<Seq<u8>, <V as DeepView>::V>;

    closed spec fn view(&self) -> Map<Seq<u8>, <V as DeepView>::V> {
        map_of(self.entries@)
    }
}

impl<V: DeepView> DeepView for TypedStore<V> {
    type V = Map<Seq<u8>, <V as DeepView>::V>;

    open spec fn deep_view(&self) -> Map<Seq<u8>, <V as DeepView>::V> {
        self.view()
    }
}

impl<V: DeepView> TypedStore<V> {
    /// Every key occurs in at most one entry.
    pub closed spec fn wf(&self) -> bool {
        distinct_keys(self.entries@)
    }

    /// An empty store, the state of every type's map at startup.
    pub fn new() -> (s: Self)
        ensures
            s.wf(),
            s@ == Map::<Seq<u8>, <V as DeepView>::V>::empty(),
    {
        let s = TypedStore { entries: Vec::new() };
        proof {
            assert(s.entries@.len() == 0);
        }
        s
    }

    /// The index of the entry carrying `key`, if one exists.
    fn find(&self, key: &[u8]) -> (r: Option<usize>)
        ensures
            match r {
                Some(i) => 0 <= i < self.entries@.len() && self.entries@[i as int].key@
                    == key@,
                None => !has_key(self.entries@, key@),
            },
    {
        let n = self.entries.len();
        let mut i: usize = 0;
        while i < n
            invariant
                n == self.entries@.len(),
                0 <= i <= n,
                forall|j: int| 0 <= j < i ==> self.entries@[j].key@ != key@,
            decreases n - i,
        {
            if bytes_eq(self.entries[i].key.as_slice(), key) {
                return Some(i);
            }
            i += 1;
        }
        None
    }

    /// Does any payload live under `key`? Testing existence never
    /// creates a container.
    pub fn contains_key(&self, key: &[u8]) -> (r: bool)
        ensures
            r == self@.contains_key(key@),
    {
        proof {
            lemma_map_of_dom(self.entries@, key@);
        }
        match self.find(key) {
            Some(_) => true,
            None => false,
        }
    }

    /// A read-only borrow of the payload under `key`, the shared-access
    /// half of the store's contract.
    pub fn get_read(&self, key: &[u8]) -> (r: Option<&V>)
        requires
            self.wf(),
        ensures
            match r {
                Some(v) => self@.contains_key(key@) && v.deep_view() == self@[key@],
                None => !self@.contains_key(key@),
            },
    {
        proof {
            lemma_map_of_dom(self.entries@, key@);
        }
        match self.find(key) {
            Some(i) => {
                proof {
                    lemma_map_of_get(self.entries@, i as int);
                }
                Some(&self.entries[i].val)
            },
            None => None,
        }
    }

    /// Remove and return the payload under `key`; the caller mutates it
    /// and puts it back with `insert`.
    pub fn take(&mut self, key: &[u8]) -> (r: Option<V>)
        requires
            old(self).wf(),
        ensures
            final(self).wf(),
            match r {
                Some(v) => {
                    &&& old(self)@.contains_key(key@)
                    &&& v.deep_view() == old(self)@[key@]
                    &&& final(self)@ == old(self)@.remove(key@)
                },
                None => {
                    &&& !old(self)@.contains_key(key@)
                    &&& final(self)@ == old(self)@
                },
            },
    {
        proof {
            lemma_map_of_dom(self.entries@, key@);
        }
        match self.find(key) {
            Some(i) => {
                proof {
                    lemma_map_of_get(self.entries@, i as int);
                    lemma_map_of_remove(self.entries@, i as int);
                    lemma_distinct_remove(self.entries@, i as int);
                }
                let e = self.entries.remove(i);
                Some(e.val)
            },
            None => None,
        }
    }

    /// Bind `val` to `key`, replacing any payload already there.
    pub fn insert(&mut self, key: Vec<u8>, val: V)
        requires
            old(self).wf(),
        ensures
            final(self).wf(),
            final(self)@ == old(self)@.insert(key@, val.deep_view()),
    {
        let ghost s0 = self.entries@;
        let ghost k = key@;
        let ghost dv = val.deep_view();
        match self.find(key.as_slice()) {
            Some(i) => {
                proof {
                    lemma_map_of_remove(s0, i as int);
                    lemma_distinct_remove(s0, i as int);
                    lemma_no_other_occurrence(s0, i as int);
                }
                self.entries.remove(i);
            },
            None => {},
        }
        let ghost s1 = self.entries@;
        self.entries.push(Entry { key, val });
        proof {
            let e = self.entries@.last();
            assert(self.entries@ =~= s1.push(e));
            assert(e.key@ == k);
            assert(e.val.deep_view() == dv);
            lemma_map_of_push(s1, e);
            lemma_distinct_push(s1, e);
            assert(map_of(s1).insert(k, dv) =~= map_of(s0).insert(k, dv));
        }
    }

    /// Create an empty container under `key` only if none exists;
    /// idempotent, the race-free equivalent of check-then-create.
    pub fn create_if_absent(&mut self, key: &[u8], fresh: V)
        requires
            old(self).wf(),
        ensures
            final(self).wf(),
            final(self)@ == if old(self)@.contains_key(key@) {
                old(self)@
            } else {
                old(self)@.insert(key@, fresh.deep_view())
            },
    {
        if !self.contains_key(key) {
            self.insert(slice_to_vec(key), fresh);
        }
    }
}

} // verus!
