use memstore::lists::ListOps;
use memstore::state::State;
use memstore::types::{ErrMsg, InteractionRes};

fn b(s: &str) -> Vec<u8> {
    s.as_bytes().to_vec()
}

#[test]
fn llen_counts_pushes() {
    let mut st = State::new();
    let r = ListOps::LPush(b("k"), vec![b("a"), b("b")]).interact(&mut st);
    assert_eq!(r, InteractionRes::IntRes(2));
    let r = ListOps::RPush(b("k"), vec![b("c"), b("d"), b("e")]).interact(&mut st);
    assert_eq!(r, InteractionRes::IntRes(5));
    let r = ListOps::LLen(b("k")).interact(&mut st);
    assert_eq!(r, InteractionRes::IntRes(5));
}

#[test]
fn llen_absent_is_zero() {
    let mut st = State::new();
    let r = ListOps::LLen(b("nope")).interact(&mut st);
    assert_eq!(r, InteractionRes::IntRes(0));
}

#[test]
fn lpush_lpop_order() {
    let mut st = State::new();
    ListOps::LPush(b("k"), vec![b("a"), b("b")]).interact(&mut st);
    let r = ListOps::LPop(b("k")).interact(&mut st);
    assert_eq!(r, InteractionRes::StringRes(b("b")));
    let r = ListOps::LPop(b("k")).interact(&mut st);
    assert_eq!(r, InteractionRes::StringRes(b("a")));
    let r = ListOps::LPop(b("k")).interact(&mut st);
    assert_eq!(r, InteractionRes::Nil);
}

#[test]
fn lpush_lindex_tail_is_first_pushed() {
    let mut st = State::new();
    ListOps::LPush(b("k"), vec![b("a"), b("b"), b("c")]).interact(&mut st);
    let r = ListOps::LIndex(b("k"), -1).interact(&mut st);
    assert_eq!(r, InteractionRes::StringRes(b("a")));
    let r = ListOps::LIndex(b("k"), 0).interact(&mut st);
    assert_eq!(r, InteractionRes::StringRes(b("c")));
}

#[test]
fn lindex_out_of_range_and_absent() {
    let mut st = State::new();
    ListOps::RPush(b("k"), vec![b("a"), b("b")]).interact(&mut st);
    let r = ListOps::LIndex(b("k"), 2).interact(&mut st);
    assert_eq!(r, InteractionRes::Error(ErrMsg::BadRange));
    let r = ListOps::LIndex(b("k"), -3).interact(&mut st);
    assert_eq!(r, InteractionRes::Error(ErrMsg::BadRange));
    let r = ListOps::LIndex(b("gone"), 0).interact(&mut st);
    assert_eq!(r, InteractionRes::Nil);
}

#[test]
fn lset_errors() {
    let mut st = State::new();
    ListOps::RPush(b("k"), vec![b("a"), b("b")]).interact(&mut st);
    let r = ListOps::LSet(b("k"), 5, b("x")).interact(&mut st);
    assert_eq!(r, InteractionRes::Error(ErrMsg::BadRange));
    let r = ListOps::LSet(b("absent"), 0, b("x")).interact(&mut st);
    assert_eq!(r, InteractionRes::Error(ErrMsg::NoList));
}

#[test]
fn lset_replaces_in_place() {
    let mut st = State::new();
    ListOps::RPush(b("k"), vec![b("a"), b("b"), b("c")]).interact(&mut st);
    let r = ListOps::LSet(b("k"), 1, b("B")).interact(&mut st);
    assert_eq!(r, InteractionRes::OkRes);
    let r = ListOps::LSet(b("k"), -1, b("C")).interact(&mut st);
    assert_eq!(r, InteractionRes::OkRes);
    let r = ListOps::LRange(b("k"), 0, -1).interact(&mut st);
    assert_eq!(
        r,
        InteractionRes::MultiStringRes(vec![b("a"), b("B"), b("C")])
    );
}

#[test]
fn lrange_whole_and_absent() {
    let mut st = State::new();
    ListOps::RPush(b("k"), vec![b("a"), b("b"), b("c")]).interact(&mut st);
    let r = ListOps::LRange(b("k"), 0, -1).interact(&mut st);
    assert_eq!(
        r,
        InteractionRes::MultiStringRes(vec![b("a"), b("b"), b("c")])
    );
    let r = ListOps::LRange(b("gone"), 0, -1).interact(&mut st);
    assert_eq!(r, InteractionRes::MultiStringRes(vec![]));
}

#[test]
fn lrange_clamps_and_normalizes() {
    let mut st = State::new();
    ListOps::RPush(b("k"), vec![b("a"), b("b"), b("c"), b("d")]).interact(&mut st);
    // negative start counts back from the tail
    let r = ListOps::LRange(b("k"), -2, -1).interact(&mut st);
    assert_eq!(r, InteractionRes::MultiStringRes(vec![b("c"), b("d")]));
    // a start that normalizes below zero clamps to the head
    let r = ListOps::LRange(b("k"), -9, 1).interact(&mut st);
    assert_eq!(r, InteractionRes::MultiStringRes(vec![b("a"), b("b")]));
    // an end past the tail clamps to the tail
    let r = ListOps::LRange(b("k"), 2, 99).interact(&mut st);
    assert_eq!(r, InteractionRes::MultiStringRes(vec![b("c"), b("d")]));
    // an end that normalizes below the start yields the empty sequence
    let r = ListOps::LRange(b("k"), 0, -9).interact(&mut st);
    assert_eq!(r, InteractionRes::MultiStringRes(vec![]));
}

#[test]
fn ltrim_drops_head() {
    let mut st = State::new();
    ListOps::RPush(b("k"), vec![b("a"), b("b"), b("c")]).interact(&mut st);
    let r = ListOps::LTrim(b("k"), 1, -1).interact(&mut st);
    assert_eq!(r, InteractionRes::OkRes);
    let r = ListOps::LRange(b("k"), 0, -1).interact(&mut st);
    assert_eq!(r, InteractionRes::MultiStringRes(vec![b("b"), b("c")]));
}

#[test]
fn ltrim_middle_and_absent() {
    let mut st = State::new();
    let r = ListOps::LTrim(b("gone"), 0, 1).interact(&mut st);
    assert_eq!(r, InteractionRes::OkRes);
    ListOps::RPush(b("k"), vec![b("a"), b("b"), b("c"), b("d")]).interact(&mut st);
    let r = ListOps::LTrim(b("k"), 1, 2).interact(&mut st);
    assert_eq!(r, InteractionRes::OkRes);
    let r = ListOps::LRange(b("k"), 0, -1).interact(&mut st);
    assert_eq!(r, InteractionRes::MultiStringRes(vec![b("b"), b("c")]));
}

#[test]
fn ltrim_crossed_bounds_empties_list() {
    let mut st = State::new();
    ListOps::RPush(b("k"), vec![b("a"), b("b")]).interact(&mut st);
    let r = ListOps::LTrim(b("k"), 1, 0).interact(&mut st);
    assert_eq!(r, InteractionRes::OkRes);
    let r = ListOps::LLen(b("k")).interact(&mut st);
    assert_eq!(r, InteractionRes::IntRes(0));
    // the drained container itself persists
    assert!(st.lists.contains_key(b"k"));
}

#[test]
fn lpushx_absent_creates_nothing() {
    let mut st = State::new();
    let r = ListOps::LPushX(b("k"), b("v")).interact(&mut st);
    assert_eq!(r, InteractionRes::IntRes(0));
    let r = ListOps::LLen(b("k")).interact(&mut st);
    assert_eq!(r, InteractionRes::IntRes(0));
    assert!(!st.lists.contains_key(b"k"));
}

#[test]
fn pushx_on_existing_list() {
    let mut st = State::new();
    ListOps::RPush(b("k"), vec![b("b")]).interact(&mut st);
    let r = ListOps::LPushX(b("k"), b("a")).interact(&mut st);
    assert_eq!(r, InteractionRes::IntRes(2));
    let r = ListOps::RPushX(b("k"), b("c")).interact(&mut st);
    assert_eq!(r, InteractionRes::IntRes(3));
    let r = ListOps::LRange(b("k"), 0, -1).interact(&mut st);
    assert_eq!(
        r,
        InteractionRes::MultiStringRes(vec![b("a"), b("b"), b("c")])
    );
}

#[test]
fn rpushx_absent_creates_nothing() {
    let mut st = State::new();
    let r = ListOps::RPushX(b("k"), b("v")).interact(&mut st);
    assert_eq!(r, InteractionRes::IntRes(0));
    assert!(!st.lists.contains_key(b"k"));
}

#[test]
fn rpop_takes_tail() {
    let mut st = State::new();
    ListOps::RPush(b("k"), vec![b("a"), b("b")]).interact(&mut st);
    let r = ListOps::RPop(b("k")).interact(&mut st);
    assert_eq!(r, InteractionRes::StringRes(b("b")));
    let r = ListOps::RPop(b("k")).interact(&mut st);
    assert_eq!(r, InteractionRes::StringRes(b("a")));
    let r = ListOps::RPop(b("k")).interact(&mut st);
    assert_eq!(r, InteractionRes::Nil);
    // drained, never deleted
    assert!(st.lists.contains_key(b"k"));
}

#[test]
fn rpoplpush_moves_tail_to_head() {
    let mut st = State::new();
    ListOps::RPush(b("src"), vec![b("a"), b("b"), b("c")]).interact(&mut st);
    ListOps::RPush(b("dst"), vec![b("x")]).interact(&mut st);
    let r = ListOps::RPopLPush(b("src"), b("dst")).interact(&mut st);
    assert_eq!(r, InteractionRes::StringRes(b("c")));
    let r = ListOps::LRange(b("src"), 0, -1).interact(&mut st);
    assert_eq!(r, InteractionRes::MultiStringRes(vec![b("a"), b("b")]));
    let r = ListOps::LRange(b("dst"), 0, -1).interact(&mut st);
    assert_eq!(r, InteractionRes::MultiStringRes(vec![b("c"), b("x")]));
    // total element count is conserved: 2 + 2 == 3 + 1
    let lens = match (
        ListOps::LLen(b("src")).interact(&mut st),
        ListOps::LLen(b("dst")).interact(&mut st),
    ) {
        (InteractionRes::IntRes(a), InteractionRes::IntRes(c)) => a + c,
        _ => panic!("LLEN did not return an Int"),
    };
    assert_eq!(lens, 4);
}

#[test]
fn rpoplpush_same_key_rotates() {
    let mut st = State::new();
    ListOps::RPush(b("k"), vec![b("a"), b("b"), b("c")]).interact(&mut st);
    let r = ListOps::RPopLPush(b("k"), b("k")).interact(&mut st);
    assert_eq!(r, InteractionRes::StringRes(b("c")));
    let r = ListOps::LRange(b("k"), 0, -1).interact(&mut st);
    assert_eq!(
        r,
        InteractionRes::MultiStringRes(vec![b("c"), b("a"), b("b")])
    );
}

#[test]
fn rpoplpush_absent_source() {
    let mut st = State::new();
    let r = ListOps::RPopLPush(b("src"), b("dst")).interact(&mut st);
    assert_eq!(r, InteractionRes::Nil);
    // the destination was created lazily before the source was found empty
    assert!(st.lists.contains_key(b"dst"));
    assert!(!st.lists.contains_key(b"src"));
}

#[test]
fn error_texts() {
    assert_eq!(ErrMsg::BadRange.text(), "Bad Range!");
    assert_eq!(ErrMsg::NoList.text(), "No list at key!");
}
