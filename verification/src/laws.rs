//! Laws of the list command engine, proved once and for all over the
//! mathematical model `apply_list_op`.

use vstd::prelude::*;

use crate::lists::ListOpView;
use crate::lists::ListsView;
use crate::lists::apply_list_op;
use crate::lists::list_at;
use crate::types::ResView;

verus! {

/// Is `op` a push (head or tail) onto the key `k`?
pub open spec fn is_push_on(op: ListOpView, k: Seq<u8>) -> bool {
    match op {
        ListOpView::LPush(k2, _) => k2 == k,
        ListOpView::RPush(k2, _) => k2 == k,
        _ => false,
    }
}

/// The total number of values carried by the push operations of `ops`.
pub open spec fn pushed_count(ops: Seq<ListOpView>) -> int
    decreases ops.len(),
{
    if ops.len() == 0 {
        0
    } else {
        pushed_count(ops.drop_last()) + (match ops.last() {
            ListOpView::LPush(_, vals) => vals.len() as int,
            ListOpView::RPush(_, vals) => vals.len() as int,
            _ => 0,
        })
    }
}

/// The list map after applying every operation of `ops` in order.
pub open spec fn apply_ops(lists: ListsView, ops: Seq<ListOpView>) -> ListsView
    decreases ops.len(),
{
    if ops.len() == 0 {
        lists
    } else {
        apply_list_op(apply_ops(lists, ops.drop_last()), ops.last()).0
    }
}

proof fn lemma_push_ops_len(lists: ListsView, k: Seq<u8>, ops: Seq<ListOpView>)
    requires
        !lists.contains_key(k),
        forall|i: int| 0 <= i < ops.len() ==> is_push_on(#[trigger] ops[i], k),
    ensures
        list_at(apply_ops(lists, ops), k).len() == pushed_count(ops),
    decreases ops.len(),
{
    if ops.len() > 0 {
        let pre = ops.drop_last();
        assert(forall|i: int| 0 <= i < pre.len() ==> is_push_on(#[trigger] pre[i], k));
        lemma_push_ops_len(lists, k, pre);
        assert(is_push_on(ops[ops.len() - 1], k));
    }
}

/// LLEN counts pushes: starting from a key that holds no list, after any
/// sequence of LPUSH/RPUSH operations on that key, LLEN reports exactly
/// the total number of values pushed so far.
pub proof fn lemma_llen_counts_pushes(lists: ListsView, k: Seq<u8>, ops: Seq<ListOpView>)
    requires
        !lists.contains_key(k),
        forall|i: int| 0 <= i < ops.len() ==> is_push_on(#[trigger] ops[i], k),
    ensures
        apply_list_op(apply_ops(lists, ops), ListOpView::LLen(k)).1 == ResView::IntRes(
            pushed_count(ops),
        ),
{
    lemma_push_ops_len(lists, k, ops);
}

/// Pushing `[a, b]` at the head of an empty or absent list and popping
/// the head three times yields `b`, then `a`, then Nil.
pub proof fn lemma_lpush_lpop_order(lists: ListsView, k: Seq<u8>, a: Seq<u8>, b: Seq<u8>)
    requires
        !lists.contains_key(k) || lists[k].len() == 0,
    ensures
        ({
            let s1 = apply_list_op(lists, ListOpView::LPush(k, seq![a, b])).0;
            let s2 = apply_list_op(s1, ListOpView::LPop(k)).0;
            let s3 = apply_list_op(s2, ListOpView::LPop(k)).0;
            &&& apply_list_op(s1, ListOpView::LPop(k)).1 == ResView::StringRes(b)
            &&& apply_list_op(s2, ListOpView::LPop(k)).1 == ResView::StringRes(a)
            &&& apply_list_op(s3, ListOpView::LPop(k)).1 == ResView::Nil
        }),
{
    let s1 = apply_list_op(lists, ListOpView::LPush(k, seq![a, b])).0;
    assert(seq![a, b].reverse() =~= seq![b, a]);
    assert(s1[k] =~= seq![b, a]);
    let s2 = apply_list_op(s1, ListOpView::LPop(k)).0;
    assert(s2[k] =~= seq![a]);
    let s3 = apply_list_op(s2, ListOpView::LPop(k)).0;
    assert(s3[k].len() == 0);
}

/// The last value pushed by LPUSH ends nearest the head, so index -1 (the
/// tail) holds the first-pushed value: after LPUSH(k, [a, b, c]) on a
/// fresh key, LINDEX(k, -1) returns a.
pub proof fn lemma_lpush_lindex_tail(
    lists: ListsView,
    k: Seq<u8>,
    a: Seq<u8>,
    b: Seq<u8>,
    c: Seq<u8>,
)
    requires
        !lists.contains_key(k),
    ensures
        ({
            let s1 = apply_list_op(lists, ListOpView::LPush(k, seq![a, b, c])).0;
            apply_list_op(s1, ListOpView::LIndex(k, -1)).1 == ResView::StringRes(a)
        }),
{
    let s1 = apply_list_op(lists, ListOpView::LPush(k, seq![a, b, c])).0;
    assert(seq![a, b, c].reverse() =~= seq![c, b, a]);
    assert(s1[k] =~= seq![c, b, a]);
    assert(s1[k][2] == a);
}

/// LRANGE(k, 0, -1) returns the entire list in order; on an absent key it
/// returns the empty sequence.
pub proof fn lemma_lrange_whole(lists: ListsView, k: Seq<u8>)
    ensures
        lists.contains_key(k) ==> apply_list_op(lists, ListOpView::LRange(k, 0, -1)).1
            == ResView::MultiStringRes(lists[k]),
        !lists.contains_key(k) ==> apply_list_op(lists, ListOpView::LRange(k, 0, -1)).1
            == ResView::MultiStringRes(Seq::<Seq<u8>>::empty()),
{
    if lists.contains_key(k) {
        let l = lists[k];
        if l.len() > 0 {
            assert(l.subrange(0, l.len() as int) =~= l);
        } else {
            assert(crate::lists::slice_of(l, 0, -1) =~= l);
        }
    }
}

/// LTRIM(k, 1, -1) on a list of length at least 2 removes exactly the
/// first element and keeps the rest, in order.
pub proof fn lemma_ltrim_drops_head(lists: ListsView, k: Seq<u8>)
    requires
        lists.contains_key(k),
        lists[k].len() >= 2,
    ensures
        apply_list_op(lists, ListOpView::LTrim(k, 1, -1)).0 == lists.insert(
            k,
            lists[k].drop_first(),
        ),
        apply_list_op(lists, ListOpView::LTrim(k, 1, -1)).1 == ResView::OkRes,
{
    assert(crate::lists::slice_of(lists[k], 1, -1) =~= lists[k].drop_first());
}

/// LPUSHX on an absent key reports 0 and creates no container, so a
/// following LLEN still reports 0.
pub proof fn lemma_lpushx_absent(lists: ListsView, k: Seq<u8>, v: Seq<u8>)
    requires
        !lists.contains_key(k),
    ensures
        apply_list_op(lists, ListOpView::LPushX(k, v)).0 == lists,
        apply_list_op(lists, ListOpView::LPushX(k, v)).1 == ResView::IntRes(0),
        !apply_list_op(lists, ListOpView::LPushX(k, v)).0.contains_key(k),
        apply_list_op(apply_list_op(lists, ListOpView::LPushX(k, v)).0, ListOpView::LLen(k)).1
            == ResView::IntRes(0),
{
}

/// RPOPLPUSH across two distinct keys conserves the total element count:
/// the moved value is the old tail of `source` and becomes the new head
/// of `dest`, and nothing else changes in either list.
pub proof fn lemma_rpoplpush_moves(lists: ListsView, source: Seq<u8>, dest: Seq<u8>)
    requires
        source != dest,
        lists.contains_key(source),
        lists[source].len() > 0,
    ensures
        ({
            let after = apply_list_op(lists, ListOpView::RPopLPush(source, dest)).0;
            let v = lists[source].last();
            &&& apply_list_op(lists, ListOpView::RPopLPush(source, dest)).1
                == ResView::StringRes(v)
            &&& after[source] == lists[source].drop_last()
            &&& after[dest] == seq![v] + list_at(lists, dest)
            &&& after[dest][0] == v
            &&& after[source].len() + after[dest].len() == lists[source].len() + list_at(
                lists,
                dest,
            ).len()
        }),
{
}

/// RPOPLPUSH of a key onto itself keeps the list's length and rotates its
/// tail element to the head.
pub proof fn lemma_rpoplpush_rotates(lists: ListsView, k: Seq<u8>)
    requires
        lists.contains_key(k),
        lists[k].len() > 0,
    ensures
        ({
            let after = apply_list_op(lists, ListOpView::RPopLPush(k, k)).0;
            &&& apply_list_op(lists, ListOpView::RPopLPush(k, k)).1 == ResView::StringRes(
                lists[k].last(),
            )
            &&& after[k] == seq![lists[k].last()] + lists[k].drop_last()
            &&& after[k].len() == lists[k].len()
            &&& after[k][0] == lists[k].last()
        }),
{
}

/// LSET on an absent key reports the missing list; on a present list an
/// index that normalizes out of bounds reports a bad range; neither case
/// changes any list.
pub proof fn lemma_lset_errors(lists: ListsView, k: Seq<u8>, i: int, v: Seq<u8>)
    ensures
        !lists.contains_key(k) ==> apply_list_op(lists, ListOpView::LSet(k, i, v))
            == (lists, ResView::Error(crate::types::ErrMsg::NoList)),
        lists.contains_key(k) && !(0 <= crate::lists::norm_index(lists[k].len() as int, i)
            < lists[k].len()) ==> apply_list_op(lists, ListOpView::LSet(k, i, v))
            == (lists, ResView::Error(crate::types::ErrMsg::BadRange)),
{
}

} // verus!
