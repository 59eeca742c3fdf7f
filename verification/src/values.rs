//! The container payloads that live under a key: a double-ended list of
//! byte strings, and a set of byte strings.

use std::collections::VecDeque;
use vstd::prelude::*;

verus! {

/// A double-ended ordered sequence of byte strings. Index 0 is the head,
/// the side that `LPUSH` pushes onto and `LPOP` takes from.
pub struct ListValue {
    items: VecDeque<Vec<u8>>,
}

impl View for ListValue {
    type V = Seq<Seq<u8>>;

    closed spec fn view(&self) -> Seq<Seq<u8>> {
        Seq::new(self.items@.len(), |i: int| self.items@[i]@)
    }
}

impl DeepView for ListValue {
    type V = Seq<Seq<u8>>;

    open spec fn deep_view(&self) -> Seq<Seq<u8>> {
        self.view()
    }
}

impl ListValue {
    /// An empty list, the state a container is created in.
    pub fn new() -> (l: Self)
        ensures
            l@ == Seq::<Seq<u8>>::empty(),
    {
        let l = ListValue { items: VecDeque::new() };
        proof {
            assert(l@ =~= Seq::<Seq<u8>>::empty());
        }
        l
    }

    pub fn len(&self) -> (n: usize)
        ensures
            n == self@.len(),
    {
        self.items.len()
    }

    /// Push one value onto the head.
    pub fn push_front(&mut self, v: Vec<u8>)
        ensures
            final(self)@ == seq![v@] + old(self)@,
    {
        let ghost vv = v@;
        self.items.push_front(v);
        proof {
            assert(self@ =~= seq![vv] + old(self)@);
        }
    }

    /// Push one value onto the tail.
    pub fn push_back(&mut self, v: Vec<u8>)
        ensures
            final(self)@ == old(self)@ + seq![v@],
    {
        let ghost vv = v@;
        self.items.push_back(v);
        proof {
            assert(self@ =~= old(self)@ + seq![vv]);
        }
    }

    /// Remove and return the head element.
    pub fn pop_front(&mut self) -> (r: Option<Vec<u8>>)
        ensures
            match r {
                Some(v) => old(self)@.len() > 0 && v@ == old(self)@[0] && final(self)@
                    == old(self)@.drop_first(),
                None => old(self)@.len() == 0 && final(self)@ == old(self)@,
            },
    {
        let r = self.items.pop_front();
        proof {
            if old(self)@.len() > 0 {
                assert(self@ =~= old(self)@.drop_first());
            } else {
                assert(self@ =~= old(self)@);
            }
        }
        r
    }

    /// Remove and return the tail element.
    pub fn pop_back(&mut self) -> (r: Option<Vec<u8>>)
        ensures
            match r {
                Some(v) => old(self)@.len() > 0 && v@ == old(self)@.last()
                    && final(self)@ == old(self)@.drop_last(),
                None => old(self)@.len() == 0 && final(self)@ == old(self)@,
            },
    {
        let r = self.items.pop_back();
        proof {
            if old(self)@.len() > 0 {
                assert(self@ =~= old(self)@.drop_last());
            } else {
                assert(self@ =~= old(self)@);
            }
        }
        r
    }

    /// A read-only borrow of the element at absolute index `i`.
    pub fn get(&self, i: usize) -> (r: &Vec<u8>)
        requires
            i < self@.len(),
        ensures
            r@ == self@[i as int],
    {
        &self.items[i]
    }

    /// Replace the element at absolute index `i` in place.
    pub fn set(&mut self, i: usize, v: Vec<u8>)
        requires
            i < old(self)@.len(),
        ensures
            final(self)@ == old(self)@.update(i as int, v@),
    {
        let ghost vv = v@;
        self.items.remove(i);
        self.items.insert(i, v);
        proof {
            assert(self@ =~= old(self)@.update(i as int, vv));
        }
    }

    /// Keep only the first `n` elements.
    pub fn truncate(&mut self, n: usize)
        ensures
            n <= old(self)@.len() ==> final(self)@ == old(self)@.take(n as int),
            n > old(self)@.len() ==> final(self)@ == old(self)@,
    {
        self.items.truncate(n);
        proof {
            if n <= old(self)@.len() {
                assert(self@ =~= old(self)@.take(n as int));
            } else {
                assert(self@ =~= old(self)@);
            }
        }
    }
}

/// An unordered collection of distinct byte strings.
pub struct SetValue {
    items: Vec<Vec<u8>>,
}

impl View for SetValue {
    type V = Set<Seq<u8>>;

    closed spec fn view(&self) -> Set<Seq<u8>> {
        self.items.deep_view().to_set()
    }
}

impl DeepView for SetValue {
    type V = Set<Seq<u8>>;

    open spec fn deep_view(&self) -> Set<Seq<u8>> {
        self.view()
    }
}

impl SetValue {
    /// An empty set, the state a container is created in.
    pub fn new() -> (s: Self)
        ensures
            s@ == Set::<Seq<u8>>::empty(),
    {
        let s = SetValue { items: Vec::new() };
        proof {
            assert(s.items.deep_view() =~= Seq::<Seq<u8>>::empty());
            assert(s@ =~= Set::<Seq<u8>>::empty());
        }
        s
    }
}

} // verus!
