use memstore::lists::ListOps;
use memstore::state::State;
use memstore::types::InteractionRes;

fn b(s: &str) -> Vec<u8> {
    s.as_bytes().to_vec()
}

#[test]
fn create_list_if_necessary_is_idempotent() {
    let mut st = State::new();
    assert!(!st.lists.contains_key(b"k"));
    st.create_list_if_necessary(b"k");
    assert!(st.lists.contains_key(b"k"));
    st.create_list_if_necessary(b"k");
    assert!(st.lists.contains_key(b"k"));
    match st.lists.get_read(b"k") {
        Some(l) => assert_eq!(l.len(), 0),
        None => panic!("the created list is missing"),
    }
}

#[test]
fn create_does_not_overwrite() {
    let mut st = State::new();
    ListOps::RPush(b("k"), vec![b("a")]).interact(&mut st);
    st.create_list_if_necessary(b"k");
    match st.lists.get_read(b"k") {
        Some(l) => assert_eq!(l.len(), 1),
        None => panic!("the list vanished"),
    }
}

#[test]
fn create_hashes_if_necessary() {
    let mut st = State::new();
    assert!(!st.hashes.contains_key(b"h"));
    st.create_hashes_if_necessary(b"h");
    assert!(st.hashes.contains_key(b"h"));
    st.create_hashes_if_necessary(b"h");
    assert!(st.hashes.contains_key(b"h"));
}

#[test]
fn create_set_if_necessary() {
    let mut st = State::new();
    assert!(!st.sets.contains_key(b"s"));
    st.create_set_if_necessary(b"s");
    assert!(st.sets.contains_key(b"s"));
}

#[test]
fn create_zset_if_necessary() {
    let mut st = State::new();
    assert!(!st.zsets.contains_key(b"z"));
    st.create_zset_if_necessary(b"z");
    assert!(st.zsets.contains_key(b"z"));
}

#[test]
fn typed_maps_are_independent() {
    let mut st = State::new();
    st.create_list_if_necessary(b"k");
    st.create_set_if_necessary(b"k");
    assert!(st.lists.contains_key(b"k"));
    assert!(st.sets.contains_key(b"k"));
    assert!(!st.hashes.contains_key(b"k"));
    assert!(!st.zsets.contains_key(b"k"));
}

#[test]
fn sleep_then_wake_returns_every_waiter() {
    let mut st = State::new();
    st.sleep_list(b"k", 7);
    st.sleep_list(b"k", 8);
    st.sleep_list(b"other", 9);
    let woken = st.wake_list(b"k");
    assert_eq!(woken, vec![7, 8]);
    // a second wake finds nobody parked
    let woken = st.wake_list(b"k");
    assert_eq!(woken, Vec::<u64>::new());
    // waiters on other keys are untouched
    let woken = st.wake_list(b"other");
    assert_eq!(woken, vec![9]);
}

#[test]
fn wake_without_sleepers_is_empty() {
    let mut st = State::new();
    let woken = st.wake_list(b"nobody");
    assert!(woken.is_empty());
}

#[test]
fn woken_waiter_rechecks_after_race() {
    let mut st = State::new();
    // a blocked caller parks on the empty key
    st.sleep_list(b"k", 1);
    // another caller pushes and wakes everyone parked on the key
    ListOps::LPush(b("k"), vec![b("v")]).interact(&mut st);
    let woken = st.wake_list(b"k");
    assert_eq!(woken, vec![1]);
    // a non-blocked racer consumes the value first
    let r = ListOps::LPop(b("k")).interact(&mut st);
    assert_eq!(r, InteractionRes::StringRes(b("v")));
    // the woken caller re-attempts, finds nothing, and parks again:
    // no value is delivered twice
    let r = ListOps::LPop(b("k")).interact(&mut st);
    assert_eq!(r, InteractionRes::Nil);
    st.sleep_list(b"k", 1);
    let woken = st.wake_list(b"k");
    assert_eq!(woken, vec![1]);
}

#[test]
fn woken_waiter_gets_value_without_race() {
    let mut st = State::new();
    st.sleep_list(b"k", 2);
    ListOps::RPush(b("k"), vec![b("v")]).interact(&mut st);
    let woken = st.wake_list(b"k");
    assert_eq!(woken, vec![2]);
    // the woken caller re-attempts its pop and receives the pushed value
    let r = ListOps::LPop(b("k")).interact(&mut st);
    assert_eq!(r, InteractionRes::StringRes(b("v")));
}
