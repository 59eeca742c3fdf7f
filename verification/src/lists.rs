//! The list command engine: Redis-style list operations over the
//! keyspace, with exact index-normalization, range-clamping and
//! lazy-creation semantics.
//!
//! `apply_list_op` is the mathematical model: it says, for every
//! operation and every starting list map, what the new map and the
//! result are. `ListOps::interact` is the executable engine, proved to
//! agree with the model on every input.

use vstd::prelude::*;
use vstd::slice::slice_to_vec;

use crate::state::State;
use crate::store::TypedStore;
use crate::store::bytes_eq;
use crate::types::ErrMsg;
use crate::types::Index;
use crate::types::InteractionRes;
use crate::types::Key;
use crate::types::ResView;
use crate::types::Value;
use crate::values::ListValue;

verus! {

/// The lists of the keyspace, as mathematics: byte-string keys mapped to
/// sequences of byte strings, head at index 0.
pub type ListsView = Map<Seq<u8>, Seq<Seq<u8>>>;

/// A list operation: a command name with its key(s) and arguments.
#[derive(Debug, Clone)]
pub enum ListOps {
    LIndex(Key, Index),
    LLen(Key),
    LPop(Key),
    LPush(Key, Vec<Value>),
    LPushX(Key, Value),
    LRange(Key, Index, Index),
    LSet(Key, Index, Value),
    LTrim(Key, Index, Index),
    RPop(Key),
    RPush(Key, Vec<Value>),
    RPushX(Key, Value),
    RPopLPush(Key, Key),
}

/// The mathematical shape of a `ListOps` value.
pub enum ListOpView {
    LIndex(Seq<u8>, int),
    LLen(Seq<u8>),
    LPop(Seq<u8>),
    LPush(Seq<u8>, Seq<Seq<u8>>),
    LPushX(Seq<u8>, Seq<u8>),
    LRange(Seq<u8>, int, int),
    LSet(Seq<u8>, int, Seq<u8>),
    LTrim(Seq<u8>, int, int),
    RPop(Seq<u8>),
    RPush(Seq<u8>, Seq<Seq<u8>>),
    RPushX(Seq<u8>, Seq<u8>),
    RPopLPush(Seq<u8>, Seq<u8>),
}

impl View for ListOps {
    type V = ListOpView;

    open spec fn view(&self) -> ListOpView {
        match self {
            ListOps::LIndex(k, i) => ListOpView::LIndex(k@, *i as int),
            ListOps::LLen(k) => ListOpView::LLen(k@),
            ListOps::LPop(k) => ListOpView::LPop(k@),
            ListOps::LPush(k, vs) => ListOpView::LPush(k@, vs.deep_view()),
            ListOps::LPushX(k, v) => ListOpView::LPushX(k@, v@),
            ListOps::LRange(k, s, e) => ListOpView::LRange(k@, *s as int, *e as int),
            ListOps::LSet(k, i, v) => ListOpView::LSet(k@, *i as int, v@),
            ListOps::LTrim(k, s, e) => ListOpView::LTrim(k@, *s as int, *e as int),
            ListOps::RPop(k) => ListOpView::RPop(k@),
            ListOps::RPush(k, vs) => ListOpView::RPush(k@, vs.deep_view()),
            ListOps::RPushX(k, v) => ListOpView::RPushX(k@, v@),
            ListOps::RPopLPush(s, d) => ListOpView::RPopLPush(s@, d@),
        }
    }
}

/// The list stored under `k`, or the empty list if `k` is absent.
pub open spec fn list_at(lists: ListsView, k: Seq<u8>) -> Seq<Seq<u8>> {
    if lists.contains_key(k) {
        lists[k]
    } else {
        Seq::empty()
    }
}

/// Normalize a raw index against length `len`: a negative index counts
/// back from the tail.
pub open spec fn norm_index(len: int, i: int) -> int {
    if i < 0 {
        len + i
    } else {
        i
    }
}

/// The effective (inclusive) lower bound of a range: a negative raw
/// start that normalizes below 0 clamps to 0.
pub open spec fn range_lo(len: int, start: int) -> int {
    if start < 0 {
        if len + start < 0 {
            0
        } else {
            len + start
        }
    } else {
        start
    }
}

/// The effective (exclusive) upper bound of a range: a negative raw end
/// normalizes to `len + end` with no clamping below, and the bound never
/// exceeds the length.
pub open spec fn range_hi(len: int, end: int) -> int {
    let eff = if end < 0 {
        len + end
    } else {
        end
    };
    if eff + 1 <= len {
        eff + 1
    } else {
        len
    }
}

/// The inclusive slice `[start, end]` of `l` after normalization and
/// clamping; empty whenever the effective bounds cross.
pub open spec fn slice_of(l: Seq<Seq<u8>>, start: int, end: int) -> Seq<Seq<u8>> {
    let lo = range_lo(l.len() as int, start);
    let hi = range_hi(l.len() as int, end);
    if lo >= hi {
        Seq::empty()
    } else {
        l.subrange(lo, hi)
    }
}

/// The full functional model of the list commands: for a starting list
/// map and one operation, the list map afterwards and the result
/// delivered to the caller.
pub open spec fn apply_list_op(lists: ListsView, op: ListOpView) -> (ListsView, ResView) {
    match op {
        ListOpView::LPush(k, vals) => {
            let nl = vals.reverse() + list_at(lists, k);
            (lists.insert(k, nl), ResView::IntRes(nl.len() as int))
        },
        ListOpView::RPush(k, vals) => {
            let nl = list_at(lists, k) + vals;
            (lists.insert(k, nl), ResView::IntRes(nl.len() as int))
        },
        ListOpView::LPushX(k, v) => {
            if !lists.contains_key(k) {
                (lists, ResView::IntRes(0))
            } else {
                let nl = seq![v] + lists[k];
                (lists.insert(k, nl), ResView::IntRes(nl.len() as int))
            }
        },
        ListOpView::RPushX(k, v) => {
            if !lists.contains_key(k) {
                (lists, ResView::IntRes(0))
            } else {
                let nl = lists[k].push(v);
                (lists.insert(k, nl), ResView::IntRes(nl.len() as int))
            }
        },
        ListOpView::LLen(k) => (
            lists,
            ResView::IntRes(
                if lists.contains_key(k) {
                    lists[k].len() as int
                } else {
                    0
                },
            ),
        ),
        ListOpView::LPop(k) => {
            if lists.contains_key(k) && lists[k].len() > 0 {
                (lists.insert(k, lists[k].drop_first()), ResView::StringRes(lists[k][0]))
            } else {
                (lists, ResView::Nil)
            }
        },
        ListOpView::RPop(k) => {
            if lists.contains_key(k) && lists[k].len() > 0 {
                (lists.insert(k, lists[k].drop_last()), ResView::StringRes(lists[k].last()))
            } else {
                (lists, ResView::Nil)
            }
        },
        ListOpView::LIndex(k, i) => {
            if !lists.contains_key(k) {
                (lists, ResView::Nil)
            } else {
                let l = lists[k];
                let r = norm_index(l.len() as int, i);
                if 0 <= r < l.len() {
                    (lists, ResView::StringRes(l[r]))
                } else {
                    (lists, ResView::Error(ErrMsg::BadRange))
                }
            }
        },
        ListOpView::LSet(k, i, v) => {
            if !lists.contains_key(k) {
                (lists, ResView::Error(ErrMsg::NoList))
            } else {
                let l = lists[k];
                let r = norm_index(l.len() as int, i);
                if 0 <= r < l.len() {
                    (lists.insert(k, l.update(r, v)), ResView::OkRes)
                } else {
                    (lists, ResView::Error(ErrMsg::BadRange))
                }
            }
        },
        ListOpView::LRange(k, s, e) => {
            if !lists.contains_key(k) {
                (lists, ResView::MultiStringRes(Seq::empty()))
            } else {
                (lists, ResView::MultiStringRes(slice_of(lists[k], s, e)))
            }
        },
        ListOpView::LTrim(k, s, e) => {
            if !lists.contains_key(k) {
                (lists, ResView::OkRes)
            } else {
                (lists.insert(k, slice_of(lists[k], s, e)), ResView::OkRes)
            }
        },
        ListOpView::RPopLPush(src, dst) => {
            if src == dst {
                if lists.contains_key(src) && lists[src].len() > 0 {
                    let l = lists[src];
                    (
                        lists.insert(src, seq![l.last()] + l.drop_last()),
                        ResView::StringRes(l.last()),
                    )
                } else {
                    (lists, ResView::Nil)
                }
            } else {
                let base = if lists.contains_key(dst) {
                    lists
                } else {
                    lists.insert(dst, Seq::empty())
                };
                if lists.contains_key(src) && lists[src].len() > 0 {
                    let v = lists[src].last();
                    (
                        base.insert(src, lists[src].drop_last()).insert(
                            dst,
                            seq![v] + base[dst],
                        ),
                        ResView::StringRes(v),
                    )
                } else {
                    (base, ResView::Nil)
                }
            }
        },
    }
}

/// Copy a byte string.
fn clone_bytes(v: &Vec<u8>) -> (r: Vec<u8>)
    ensures
        r@ == v@,
{
    slice_to_vec(v.as_slice())
}

/// Push every value of `vals` onto the head of the list at `key`, in
/// input order, creating the list if absent; the last input value ends
/// nearest the head.
fn do_lpush(lists: &mut TypedStore<ListValue>, key: Key, vals: Vec<Value>) -> (r:
    InteractionRes)
    requires
        old(lists).wf(),
    ensures
        final(lists).wf(),
        final(lists)@ == apply_list_op(old(lists)@, ListOpView::LPush(key@, vals.deep_view())).0,
        r@ == apply_list_op(old(lists)@, ListOpView::LPush(key@, vals.deep_view())).1,
{
    let ghost vals0 = vals.deep_view();
    let ghost k = key@;
    let mut vals = vals;
    lists.create_if_absent(key.as_slice(), ListValue::new());
    let mut l = lists.take(key.as_slice()).unwrap();
    let ghost l_init = l@;
    proof {
        assert(l_init == list_at(old(lists)@, k));
    }
    while vals.len() > 0
        invariant
            vals.deep_view() == vals0.skip(vals0.len() - vals.deep_view().len()),
            vals.deep_view().len() <= vals0.len(),
            l@ == vals0.take(vals0.len() - vals.deep_view().len()).reverse() + l_init,
        decreases vals.len(),
    {
        let ghost c = vals0.len() - vals.deep_view().len();
        let v = vals.remove(0);
        proof {
            assert(vals.deep_view() =~= vals0.skip(c).drop_first());
            assert(vals.deep_view() =~= vals0.skip(c + 1));
            assert(v@ == vals0.skip(c)[0]);
            assert(v@ == vals0[c]);
        }
        l.push_front(v);
        proof {
            assert(vals0.take(c + 1).reverse() =~= seq![vals0[c]] + vals0.take(c).reverse());
            assert(l@ =~= vals0.take(c + 1).reverse() + l_init);
        }
    }
    proof {
        assert(vals0.take(vals0.len() as int) =~= vals0);
        assert(l@ == vals0.reverse() + l_init);
    }
    let n = l.len();
    lists.insert(key, l);
    proof {
        assert(lists@ =~= old(lists)@.insert(k, vals0.reverse() + l_init));
    }
    InteractionRes::IntRes(n)
}

/// Push every value of `vals` onto the tail of the list at `key`, in
/// input order, creating the list if absent; the last input value ends
/// nearest the tail.
fn do_rpush(lists: &mut TypedStore<ListValue>, key: Key, vals: Vec<Value>) -> (r:
    InteractionRes)
    requires
        old(lists).wf(),
    ensures
        final(lists).wf(),
        final(lists)@ == apply_list_op(old(lists)@, ListOpView::RPush(key@, vals.deep_view())).0,
        r@ == apply_list_op(old(lists)@, ListOpView::RPush(key@, vals.deep_view())).1,
{
    let ghost vals0 = vals.deep_view();
    let ghost k = key@;
    let mut vals = vals;
    lists.create_if_absent(key.as_slice(), ListValue::new());
    let mut l = lists.take(key.as_slice()).unwrap();
    let ghost l_init = l@;
    proof {
        assert(l_init == list_at(old(lists)@, k));
    }
    while vals.len() > 0
        invariant
            vals.deep_view() == vals0.skip(vals0.len() - vals.deep_view().len()),
            vals.deep_view().len() <= vals0.len(),
            l@ == l_init + vals0.take(vals0.len() - vals.deep_view().len()),
        decreases vals.len(),
    {
        let ghost c = vals0.len() - vals.deep_view().len();
        let v = vals.remove(0);
        proof {
            assert(vals.deep_view() =~= vals0.skip(c).drop_first());
            assert(vals.deep_view() =~= vals0.skip(c + 1));
            assert(v@ == vals0.skip(c)[0]);
            assert(v@ == vals0[c]);
        }
        l.push_back(v);
        proof {
            assert(l@ =~= l_init + vals0.take(c + 1));
        }
    }
    proof {
        assert(vals0.take(vals0.len() as int) =~= vals0);
        assert(l@ == l_init + vals0);
    }
    let n = l.len();
    lists.insert(key, l);
    proof {
        assert(lists@ =~= old(lists)@.insert(k, l_init + vals0));
    }
    InteractionRes::IntRes(n)
}

/// Push one value onto the head of the list at `key` only if the list
/// exists; never creates it.
fn do_lpushx(lists: &mut TypedStore<ListValue>, key: Key, val: Value) -> (r: InteractionRes)
    requires
        old(lists).wf(),
    ensures
        final(lists).wf(),
        final(lists)@ == apply_list_op(old(lists)@, ListOpView::LPushX(key@, val@)).0,
        r@ == apply_list_op(old(lists)@, ListOpView::LPushX(key@, val@)).1,
{
    let ghost k = key@;
    let ghost vv = val@;
    match lists.take(key.as_slice()) {
        None => InteractionRes::IntRes(0),
        Some(mut l) => {
            l.push_front(val);
            let n = l.len();
            lists.insert(key, l);
            proof {
                assert(lists@ =~= old(lists)@.insert(k, seq![vv] + old(lists)@[k]));
            }
            InteractionRes::IntRes(n)
        },
    }
}

/// Push one value onto the tail of the list at `key` only if the list
/// exists; never creates it.
fn do_rpushx(lists: &mut TypedStore<ListValue>, key: Key, val: Value) -> (r: InteractionRes)
    requires
        old(lists).wf(),
    ensures
        final(lists).wf(),
        final(lists)@ == apply_list_op(old(lists)@, ListOpView::RPushX(key@, val@)).0,
        r@ == apply_list_op(old(lists)@, ListOpView::RPushX(key@, val@)).1,
{
    let ghost k = key@;
    let ghost vv = val@;
    match lists.take(key.as_slice()) {
        None => InteractionRes::IntRes(0),
        Some(mut l) => {
            l.push_back(val);
            let n = l.len();
            lists.insert(key, l);
            proof {
                assert(old(lists)@[k].push(vv) =~= old(lists)@[k] + seq![vv]);
                assert(lists@ =~= old(lists)@.insert(k, old(lists)@[k].push(vv)));
            }
            InteractionRes::IntRes(n)
        },
    }
}

/// The length of the list at `key`, 0 if absent.
fn do_llen(lists: &TypedStore<ListValue>, key: &[u8]) -> (r: InteractionRes)
    requires
        lists.wf(),
    ensures
        r@ == apply_list_op(lists@, ListOpView::LLen(key@)).1,
{
    match lists.get_read(key) {
        Some(l) => InteractionRes::IntRes(l.len()),
        None => InteractionRes::IntRes(0),
    }
}

/// Remove and return the head element of the list at `key`.
fn do_lpop(lists: &mut TypedStore<ListValue>, key: Key) -> (r: InteractionRes)
    requires
        old(lists).wf(),
    ensures
        final(lists).wf(),
        final(lists)@ == apply_list_op(old(lists)@, ListOpView::LPop(key@)).0,
        r@ == apply_list_op(old(lists)@, ListOpView::LPop(key@)).1,
{
    let ghost k = key@;
    match lists.take(key.as_slice()) {
        None => InteractionRes::Nil,
        Some(mut l) => {
            match l.pop_front() {
                None => {
                    lists.insert(key, l);
                    proof {
                        assert(lists@ =~= old(lists)@);
                    }
                    InteractionRes::Nil
                },
                Some(v) => {
                    lists.insert(key, l);
                    proof {
                        assert(lists@ =~= old(lists)@.insert(k, old(lists)@[k].drop_first()));
                    }
                    InteractionRes::StringRes(v)
                },
            }
        },
    }
}

/// Remove and return the tail element of the list at `key`.
fn do_rpop(lists: &mut TypedStore<ListValue>, key: Key) -> (r: InteractionRes)
    requires
        old(lists).wf(),
    ensures
        final(lists).wf(),
        final(lists)@ == apply_list_op(old(lists)@, ListOpView::RPop(key@)).0,
        r@ == apply_list_op(old(lists)@, ListOpView::RPop(key@)).1,
{
    let ghost k = key@;
    match lists.take(key.as_slice()) {
        None => InteractionRes::Nil,
        Some(mut l) => {
            match l.pop_back() {
                None => {
                    lists.insert(key, l);
                    proof {
                        assert(lists@ =~= old(lists)@);
                    }
                    InteractionRes::Nil
                },
                Some(v) => {
                    lists.insert(key, l);
                    proof {
                        assert(lists@ =~= old(lists)@.insert(k, old(lists)@[k].drop_last()));
                    }
                    InteractionRes::StringRes(v)
                },
            }
        },
    }
}

/// The element at the normalized index of the list at `key`.
fn do_lindex(lists: &TypedStore<ListValue>, key: &[u8], index: Index) -> (r: InteractionRes)
    requires
        lists.wf(),
    ensures
        r@ == apply_list_op(lists@, ListOpView::LIndex(key@, index as int)).1,
{
    match lists.get_read(key) {
        None => InteractionRes::Nil,
        Some(l) => {
            let len = l.len();
            let eff: i128 = if index < 0 {
                len as i128 + index as i128
            } else {
                index as i128
            };
            if eff >= 0 && eff < len as i128 {
                InteractionRes::StringRes(clone_bytes(l.get(eff as usize)))
            } else {
                InteractionRes::Error(ErrMsg::BadRange)
            }
        },
    }
}

/// Replace the element at the normalized index of the list at `key`.
fn do_lset(lists: &mut TypedStore<ListValue>, key: Key, index: Index, val: Value) -> (r:
    InteractionRes)
    requires
        old(lists).wf(),
    ensures
        final(lists).wf(),
        final(lists)@ == apply_list_op(old(lists)@, ListOpView::LSet(key@, index as int, val@)).0,
        r@ == apply_list_op(old(lists)@, ListOpView::LSet(key@, index as int, val@)).1,
{
    let ghost k = key@;
    let ghost vv = val@;
    match lists.take(key.as_slice()) {
        None => InteractionRes::Error(ErrMsg::NoList),
        Some(mut l) => {
            let len = l.len();
            let eff: i128 = if index < 0 {
                len as i128 + index as i128
            } else {
                index as i128
            };
            if eff >= 0 && eff < len as i128 {
                l.set(eff as usize, val);
                lists.insert(key, l);
                proof {
                    let r = norm_index(old(lists)@[k].len() as int, index as int);
                    assert(lists@ =~= old(lists)@.insert(k, old(lists)@[k].update(r, vv)));
                }
                InteractionRes::OkRes
            } else {
                lists.insert(key, l);
                proof {
                    assert(lists@ =~= old(lists)@);
                }
                InteractionRes::Error(ErrMsg::BadRange)
            }
        },
    }
}

/// The inclusive, clamped slice `[start, end]` of the list at `key`.
fn do_lrange(lists: &TypedStore<ListValue>, key: &[u8], start: Index, end: Index) -> (r:
    InteractionRes)
    requires
        lists.wf(),
    ensures
        r@ == apply_list_op(lists@, ListOpView::LRange(key@, start as int, end as int)).1,
{
    match lists.get_read(key) {
        None => {
            let ret: Vec<Vec<u8>> = Vec::new();
            proof {
                assert(ret.deep_view() =~= Seq::<Seq<u8>>::empty());
            }
            InteractionRes::MultiStringRes(ret)
        },
        Some(l) => {
            let len = l.len();
            let lo128: i128 = if start < 0 {
                let t: i128 = len as i128 + start as i128;
                if t < 0 {
                    0
                } else {
                    t
                }
            } else {
                start as i128
            };
            let e128: i128 = if end < 0 {
                len as i128 + end as i128
            } else {
                end as i128
            };
            let hi128: i128 = if e128 + 1 <= len as i128 {
                e128 + 1
            } else {
                len as i128
            };
            let ghost glo = range_lo(l@.len() as int, start as int);
            let ghost ghi = range_hi(l@.len() as int, end as int);
            let mut ret: Vec<Vec<u8>> = Vec::new();
            proof {
                assert(lo128 == glo);
                assert(hi128 == ghi);
                assert(ret.deep_view() =~= Seq::<Seq<u8>>::empty());
            }
            if lo128 < hi128 {
                let mut idx: usize = lo128 as usize;
                let hi: usize = hi128 as usize;
                while idx < hi
                    invariant
                        glo == range_lo(l@.len() as int, start as int),
                        ghi == range_hi(l@.len() as int, end as int),
                        glo <= idx as int <= hi as int,
                        hi as int == ghi,
                        ghi <= l@.len(),
                        ret@.len() == idx as int - glo,
                        forall|j: int| #![auto] 0 <= j < ret@.len() ==> ret@[j]@ == l@[glo + j],
                    decreases hi - idx,
                {
                    let ghost bv = ret@;
                    let v = clone_bytes(l.get(idx));
                    let ghost vv = v@;
                    ret.push(v);
                    proof {
                        assert(ret@.len() == bv.len() + 1);
                        assert(vv == l@[idx as int]);
                        assert forall|j: int| #![auto]
                            0 <= j < ret@.len() implies ret@[j]@ == l@[glo + j] by {
                            if j < bv.len() {
                                assert(ret@[j] == bv[j]);
                            } else {
                                assert(ret@[j]@ == vv);
                            }
                        }
                    }
                    idx += 1;
                }
            }
            proof {
                let sl = slice_of(l@, start as int, end as int);
                assert(ret.deep_view().len() == sl.len());
                assert forall|j: int| 0 <= j < sl.len() implies ret.deep_view()[j] == sl[j] by {
                    assert(ret@[j]@ == l@[glo + j]);
                    assert(sl[j] == l@[glo + j]);
                }
                assert(ret.deep_view() =~= sl);
            }
            InteractionRes::MultiStringRes(ret)
        },
    }
}

/// Keep only the inclusive, clamped slice `[start, end]` of the list at
/// `key`: truncate the tail past `end`, then drop `start` elements from
/// the head.
fn do_ltrim(lists: &mut TypedStore<ListValue>, key: Key, start: Index, end: Index) -> (r:
    InteractionRes)
    requires
        old(lists).wf(),
    ensures
        final(lists).wf(),
        final(lists)@ == apply_list_op(old(lists)@, ListOpView::LTrim(key@, start as int, end as int)).0,
        r@ == apply_list_op(old(lists)@, ListOpView::LTrim(key@, start as int, end as int)).1,
{
    let ghost k = key@;
    match lists.take(key.as_slice()) {
        None => InteractionRes::OkRes,
        Some(mut l) => {
            let ghost l0 = l@;
            let len = l.len();
            let lo128: i128 = if start < 0 {
                let t: i128 = len as i128 + start as i128;
                if t < 0 {
                    0
                } else {
                    t
                }
            } else {
                start as i128
            };
            let e128: i128 = if end < 0 {
                len as i128 + end as i128
            } else {
                end as i128
            };
            let hi128: i128 = if e128 + 1 <= len as i128 {
                e128 + 1
            } else {
                len as i128
            };
            let hic: usize = if hi128 < 0 {
                0
            } else {
                hi128 as usize
            };
            let ghost glo = range_lo(l0.len() as int, start as int);
            let ghost ghi = range_hi(l0.len() as int, end as int);
            l.truncate(hic);
            let ghost t0 = l0.take(hic as int);
            let d: usize = if lo128 < hic as i128 {
                lo128 as usize
            } else {
                hic
            };
            let mut c: usize = 0;
            while c < d
                invariant
                    c <= d,
                    d <= t0.len(),
                    l@ == t0.skip(c as int),
                decreases d - c,
            {
                l.pop_front();
                proof {
                    assert(t0.skip(c as int).drop_first() =~= t0.skip(c + 1));
                }
                c += 1;
            }
            proof {
                assert(l@ =~= slice_of(l0, start as int, end as int));
            }
            lists.insert(key, l);
            proof {
                assert(lists@ =~= old(lists)@.insert(k, slice_of(l0, start as int, end as int)));
            }
            InteractionRes::OkRes
        },
    }
}

/// Atomically move the tail element of `source` to the head of `dest`;
/// with `source == dest` the tail rotates to the head. `dest` is created
/// lazily only when the two keys differ.
fn do_rpoplpush(lists: &mut TypedStore<ListValue>, source: Key, dest: Key) -> (r: InteractionRes)
    requires
        old(lists).wf(),
    ensures
        final(lists).wf(),
        final(lists)@ == apply_list_op(old(lists)@, ListOpView::RPopLPush(source@, dest@)).0,
        r@ == apply_list_op(old(lists)@, ListOpView::RPopLPush(source@, dest@)).1,
{
    let ghost s = source@;
    let ghost d = dest@;
    if bytes_eq(source.as_slice(), dest.as_slice()) {
        match lists.take(source.as_slice()) {
            None => InteractionRes::Nil,
            Some(mut l) => {
                match l.pop_back() {
                    None => {
                        lists.insert(source, l);
                        proof {
                            assert(lists@ =~= old(lists)@);
                        }
                        InteractionRes::Nil
                    },
                    Some(v) => {
                        l.push_front(clone_bytes(&v));
                        lists.insert(source, l);
                        proof {
                            let ol = old(lists)@[s];
                            assert(lists@ =~= old(lists)@.insert(s, seq![ol.last()] + ol.drop_last()));
                        }
                        InteractionRes::StringRes(v)
                    },
                }
            },
        }
    } else {
        lists.create_if_absent(dest.as_slice(), ListValue::new());
        let ghost base = lists@;
        match lists.take(source.as_slice()) {
            None => InteractionRes::Nil,
            Some(mut sl) => {
                match sl.pop_back() {
                    None => {
                        lists.insert(source, sl);
                        proof {
                            assert(lists@ =~= base);
                        }
                        InteractionRes::Nil
                    },
                    Some(v) => {
                        lists.insert(source, sl);
                        let mut dl = lists.take(dest.as_slice()).unwrap();
                        dl.push_front(clone_bytes(&v));
                        lists.insert(dest, dl);
                        proof {
                            let ol = old(lists)@[s];
                            assert(lists@ =~= base.insert(s, ol.drop_last()).insert(
                                d,
                                seq![ol.last()] + base[d],
                            ));
                        }
                        InteractionRes::StringRes(v)
                    },
                }
            },
        }
    }
}

impl ListOps {
    /// Execute one list command against the shared state and return its
    /// result. The new list map and the result are exactly what
    /// `apply_list_op` says for the old list map and this operation; no
    /// other typed map changes.
    pub fn interact(self, state: &mut State) -> (r: InteractionRes)
        requires
            old(state).wf(),
        ensures
            final(state).wf(),
            final(state)@.lists == apply_list_op(old(state)@.lists, self@).0,
            r@ == apply_list_op(old(state)@.lists, self@).1,
            final(state)@.hashes == old(state)@.hashes,
            final(state)@.sets == old(state)@.sets,
            final(state)@.zsets == old(state)@.zsets,
            final(state)@.list_wakers == old(state)@.list_wakers,
    {
        match self {
            ListOps::LPush(key, vals) => do_lpush(&mut state.lists, key, vals),
            ListOps::LPushX(key, val) => do_lpushx(&mut state.lists, key, val),
            ListOps::LLen(key) => do_llen(&state.lists, key.as_slice()),
            ListOps::LPop(key) => do_lpop(&mut state.lists, key),
            ListOps::RPop(key) => do_rpop(&mut state.lists, key),
            ListOps::RPush(key, vals) => do_rpush(&mut state.lists, key, vals),
            ListOps::RPushX(key, val) => do_rpushx(&mut state.lists, key, val),
            ListOps::LIndex(key, index) => do_lindex(&state.lists, key.as_slice(), index),
            ListOps::LSet(key, index, value) => do_lset(&mut state.lists, key, index, value),
            ListOps::LRange(key, start, end) => do_lrange(&state.lists, key.as_slice(), start, end),
            ListOps::LTrim(key, start, end) => do_ltrim(&mut state.lists, key, start, end),
            ListOps::RPopLPush(source, dest) => do_rpoplpush(&mut state.lists, source, dest),
        }
    }
}

} // verus!
