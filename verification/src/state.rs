//! The process-wide keyspace state: one independent typed store per data
//! type, plus the per-key registry of suspended callers for blocking
//! list reads.
//!
//! One `State` is constructed at startup and handed by the embedding
//! program to every connection handler; the handlers serialize access to
//! it (the caveat of the design: all keys of one type contend on that
//! type's single guard, and a snapshot taken type by type is not an
//! atomic cut across types).

use vstd::prelude::*;
use vstd::slice::slice_to_vec;

use crate::store::TypedStore;
use crate::values::ListValue;
use crate::values::SetValue;

verus! {

/// A token standing for one suspended caller. The embedding program maps
/// each token to the scheduler handle that actually resumes the task.
pub type WaiterId = u64;

/// The mathematical content of a `State`: one map per data type, plus
/// the waiter registry.
pub struct StateView {
    pub lists: Map<Seq<u8>, Seq<Seq<u8>>>,
    pub hashes: Map<Seq<u8>, Map<Seq<u8>, Seq<u8>>>,
    pub sets: Map<Seq<u8>, Set<Seq<u8>>>,
    pub zsets: Map<Seq<u8>, Map<Seq<u8>, i64>>,
    pub list_wakers: Map<Seq<u8>, Seq<WaiterId>>,
}

/// The whole keyspace: an independent byte-keyed store per data type.
/// A sorted-set member's score is held as a 64-bit integer.
pub struct State {
    pub lists: TypedStore<ListValue>,
    pub hashes: TypedStore<TypedStore<Vec<u8>>>,
    pub sets: TypedStore<SetValue>,
    pub zsets: TypedStore<TypedStore<i64>>,
    pub list_wakers: TypedStore<Vec<WaiterId>>,
}

impl View for State {
    type V = StateView;

    open spec fn view(&self) -> StateView {
        StateView {
            lists: self.lists@,
            hashes: self.hashes@,
            sets: self.sets@,
            zsets: self.zsets@,
            list_wakers: self.list_wakers@,
        }
    }
}

impl State {
    /// Every typed store keeps each key at most once.
    pub open spec fn wf(&self) -> bool {
        &&& self.lists.wf()
        &&& self.hashes.wf()
        &&& self.sets.wf()
        &&& self.zsets.wf()
        &&& self.list_wakers.wf()
    }

    /// An empty keyspace, the state at startup when nothing is restored.
    pub fn new() -> (s: Self)
        ensures
            s.wf(),
            s@.lists == Map::<Seq<u8>, Seq<Seq<u8>>>::empty(),
            s@.hashes == Map::<Seq<u8>, Map<Seq<u8>, Seq<u8>>>::empty(),
            s@.sets == Map::<Seq<u8>, Set<Seq<u8>>>::empty(),
            s@.zsets == Map::<Seq<u8>, Map<Seq<u8>, i64>>::empty(),
            s@.list_wakers == Map::<Seq<u8>, Seq<WaiterId>>::empty(),
    {
        State {
            lists: TypedStore::new(),
            hashes: TypedStore::new(),
            sets: TypedStore::new(),
            zsets: TypedStore::new(),
            list_wakers: TypedStore::new(),
        }
    }

    /// Create an empty list under `list_key` unless one exists already;
    /// the lazy-creation step of the pushing list commands.
    pub fn create_list_if_necessary(&mut self, list_key: &[u8])
        requires
            old(self).wf(),
        ensures
            final(self).wf(),
            final(self)@.lists == if old(self)@.lists.contains_key(list_key@) {
                old(self)@.lists
            } else {
                old(self)@.lists.insert(list_key@, Seq::<Seq<u8>>::empty())
            },
            final(self)@.hashes == old(self)@.hashes,
            final(self)@.sets == old(self)@.sets,
            final(self)@.zsets == old(self)@.zsets,
            final(self)@.list_wakers == old(self)@.list_wakers,
    {
        self.lists.create_if_absent(list_key, ListValue::new());
    }

    /// Create an empty hash under `hashes_key` unless one exists already.
    pub fn create_hashes_if_necessary(&mut self, hashes_key: &[u8])
        requires
            old(self).wf(),
        ensures
            final(self).wf(),
            final(self)@.hashes == if old(self)@.hashes.contains_key(hashes_key@) {
                old(self)@.hashes
            } else {
                old(self)@.hashes.insert(
                    hashes_key@,
                    Map::<Seq<u8>, Seq<u8>>::empty(),
                )
            },
            final(self)@.lists == old(self)@.lists,
            final(self)@.sets == old(self)@.sets,
            final(self)@.zsets == old(self)@.zsets,
            final(self)@.list_wakers == old(self)@.list_wakers,
    {
        self.hashes.create_if_absent(hashes_key, TypedStore::new());
    }

    /// Create an empty set under `set_key` unless one exists already.
    pub fn create_set_if_necessary(&mut self, set_key: &[u8])
        requires
            old(self).wf(),
        ensures
            final(self).wf(),
            final(self)@.sets == if old(self)@.sets.contains_key(set_key@) {
                old(self)@.sets
            } else {
                old(self)@.sets.insert(set_key@, Set::<Seq<u8>>::empty())
            },
            final(self)@.lists == old(self)@.lists,
            final(self)@.hashes == old(self)@.hashes,
            final(self)@.zsets == old(self)@.zsets,
            final(self)@.list_wakers == old(self)@.list_wakers,
    {
        self.sets.create_if_absent(set_key, SetValue::new());
    }

    /// Create an empty sorted set under `set_key` unless one exists
    /// already.
    pub fn create_zset_if_necessary(&mut self, set_key: &[u8])
        requires
            old(self).wf(),
        ensures
            final(self).wf(),
            final(self)@.zsets == if old(self)@.zsets.contains_key(set_key@) {
                old(self)@.zsets
            } else {
                old(self)@.zsets.insert(set_key@, Map::<Seq<u8>, i64>::empty())
            },
            final(self)@.lists == old(self)@.lists,
            final(self)@.hashes == old(self)@.hashes,
            final(self)@.sets == old(self)@.sets,
            final(self)@.list_wakers == old(self)@.list_wakers,
    {
        self.zsets.create_if_absent(set_key, TypedStore::new());
    }

    /// Deregister and return every waiter parked on `list_key`. A wake is
    /// a hint: each returned waiter must re-attempt its command from
    /// scratch, since another caller may consume the data first.
    pub fn wake_list(&mut self, list_key: &[u8]) -> (woken: Vec<WaiterId>)
        requires
            old(self).wf(),
        ensures
            final(self).wf(),
            woken@ == if old(self)@.list_wakers.contains_key(list_key@) {
                old(self)@.list_wakers[list_key@]
            } else {
                Seq::<WaiterId>::empty()
            },
            final(self)@.list_wakers == old(self)@.list_wakers.remove(list_key@),
            final(self)@.lists == old(self)@.lists,
            final(self)@.hashes == old(self)@.hashes,
            final(self)@.sets == old(self)@.sets,
            final(self)@.zsets == old(self)@.zsets,
    {
        match self.list_wakers.take(list_key) {
            Some(ws) => {
                proof {
                    assert(ws.deep_view() =~= ws@);
                }
                ws
            },
            None => {
                proof {
                    assert(old(self)@.list_wakers.remove(list_key@)
                        =~= old(self)@.list_wakers);
                }
                Vec::new()
            },
        }
    }

    /// Park one waiter on `list_key`; it stays registered until a
    /// mutation of that key wakes it or the embedding program cancels it.
    pub fn sleep_list(&mut self, list_key: &[u8], waiter: WaiterId)
        requires
            old(self).wf(),
        ensures
            final(self).wf(),
            final(self)@.list_wakers == old(self)@.list_wakers.insert(
                list_key@,
                (if old(self)@.list_wakers.contains_key(list_key@) {
                    old(self)@.list_wakers[list_key@]
                } else {
                    Seq::<WaiterId>::empty()
                }).push(waiter),
            ),
            final(self)@.lists == old(self)@.lists,
            final(self)@.hashes == old(self)@.hashes,
            final(self)@.sets == old(self)@.sets,
            final(self)@.zsets == old(self)@.zsets,
    {
        let mut ws = match self.list_wakers.take(list_key) {
            Some(ws) => ws,
            None => Vec::new(),
        };
        let ghost before = ws.deep_view();
        ws.push(waiter);
        proof {
            assert(ws.deep_view() =~= before.push(waiter));
            assert(ws.deep_view() =~= ws@);
        }
        self.list_wakers.insert(slice_to_vec(list_key), ws);
        proof {
            if old(self)@.list_wakers.contains_key(list_key@) {
                assert(old(self)@.list_wakers.remove(list_key@).insert(
                    list_key@,
                    old(self)@.list_wakers[list_key@].push(waiter),
                ) =~= old(self)@.list_wakers.insert(
                    list_key@,
                    old(self)@.list_wakers[list_key@].push(waiter),
                ));
            }
        }
    }
}

} // verus!
