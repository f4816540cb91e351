use kv_store::storage::Storage;
use kv_store::time_manager::TimeManager;
use kv_store::value::Value;

fn store_started_at(start_time: u64) -> Storage {
    Storage::new(TimeManager { start_time })
}

fn value(data: &str, ttl: i32) -> Value {
    Value { data: data.to_string(), ttl }
}

#[test]
fn value_without_expiry_never_expires() {
    let v = Value::new("x".to_string(), None);
    assert_eq!(v.data(), "x");
    assert_eq!(v.ttl(), -1);
    let v = Value::new("y".to_string(), Some(30));
    assert_eq!(v.data(), "y");
    assert_eq!(v.ttl(), 30);
    assert_eq!(v, value("y", 30));
}

#[test]
fn new_store_is_empty() {
    let mut s = store_started_at(100);
    assert_eq!(s.get_at("a", 100), Ok(value("(null)", -1)));
    assert_eq!(s.stats_at(100), value("", -1));
}

#[test]
fn set_without_expiry_then_get() {
    let mut s = store_started_at(100);
    assert_eq!(s.set_at("k", "v", -1, 100), Ok(value("Ok", -1)));
    assert_eq!(s.get_at("k", 100), Ok(value("v", -1)));
    assert_eq!(s.get_at("k", u64::MAX), Ok(value("v", -1)));
}

#[test]
fn set_then_get_with_reads_of_other_keys_between() {
    let mut s = store_started_at(100);
    s.set_at("other", "o", 1, 100).unwrap();
    s.set_at("k", "v", -1, 100).unwrap();
    assert_eq!(s.get_at("other", 105), Ok(value("(null)", -1)));
    assert_eq!(s.get_at("missing", 106), Ok(value("(null)", -1)));
    assert_eq!(s.stats_at(107), value("key=k,value=v,ttl=-1", -1));
    assert_eq!(s.get_at("k", 1_000_000), Ok(value("v", -1)));
}

#[test]
fn set_replaces_the_record() {
    let mut s = store_started_at(0);
    s.set_at("k", "one", -1, 0).unwrap();
    s.set_at("k", "two", 5, 3).unwrap();
    assert_eq!(s.get_at("k", 3), Ok(value("two", 8)));
    assert_eq!(s.stats_at(3), value("key=k,value=two,ttl=8", -1));
}

#[test]
fn delete_then_get_is_absent() {
    let mut s = store_started_at(0);
    s.set_at("k", "v", -1, 0).unwrap();
    assert_eq!(s.del("k"), Ok(value("Ok", -1)));
    assert_eq!(s.get_at("k", 0), Ok(value("(null)", -1)));
    assert_eq!(s.stats_at(0), value("", -1));
}

#[test]
fn delete_of_an_absent_key_is_acknowledged() {
    let mut s = store_started_at(0);
    assert_eq!(s.del("nothing"), Ok(value("Ok", -1)));
    assert_eq!(s.get_at("nothing", 0), Ok(value("(null)", -1)));
}

#[test]
fn delete_twice_is_acknowledged_twice() {
    let mut s = store_started_at(0);
    s.set_at("a", "1", -1, 0).unwrap();
    s.set_at("b", "2", -1, 0).unwrap();
    assert_eq!(s.del("a"), Ok(value("Ok", -1)));
    let once = s.stats_at(0);
    assert_eq!(s.del("a"), Ok(value("Ok", -1)));
    assert_eq!(s.stats_at(0), once);
    assert_eq!(once, value("key=b,value=2,ttl=-1", -1));
}

#[test]
fn set_twice_is_as_set_once() {
    let mut once = store_started_at(10);
    once.set_at("a", "1", -1, 10).unwrap();
    once.set_at("k", "v", 30, 12).unwrap();
    once.set_at("z", "9", -1, 12).unwrap();
    let mut twice = store_started_at(10);
    twice.set_at("a", "1", -1, 10).unwrap();
    twice.set_at("k", "v", 30, 12).unwrap();
    twice.set_at("z", "9", -1, 12).unwrap();
    assert_eq!(twice.set_at("k", "v", 30, 12), Ok(value("Ok", -1)));
    assert_eq!(twice.stats_at(12), once.stats_at(12));
    assert_eq!(twice.get_at("k", 12), once.get_at("k", 12));
    assert_eq!(twice.get_at("k", 43), once.get_at("k", 43));
}

#[test]
fn zero_ttl_is_found_in_the_same_instant() {
    let mut s = store_started_at(100);
    s.set_at("k", "v", 0, 107).unwrap();
    assert_eq!(s.get_at("k", 107), Ok(value("v", 7)));
}

#[test]
fn zero_ttl_is_absent_one_tick_later() {
    let mut s = store_started_at(100);
    s.set_at("k", "v", 0, 107).unwrap();
    assert_eq!(s.get_at("k", 108), Ok(value("(null)", -1)));
    // The lookup removed the record: it stays absent even if the clock is set back.
    assert_eq!(s.get_at("k", 107), Ok(value("(null)", -1)));
}

#[test]
fn ttl_counts_from_the_moment_of_the_set() {
    let mut s = store_started_at(1_000);
    s.set_at("k", "v", 10, 1_020).unwrap();
    assert_eq!(s.get_at("k", 1_029), Ok(value("v", 30)));
    assert_eq!(s.get_at("k", 1_030), Ok(value("v", 30)));
    assert_eq!(s.get_at("k", 1_031), Ok(value("(null)", -1)));
}

#[test]
fn stored_null_text_past_expiry_is_removed_like_any_other() {
    let mut s = store_started_at(0);
    s.set_at("k", "(null)", 0, 0).unwrap();
    assert_eq!(s.get_at("k", 0), Ok(value("(null)", 0)));
    assert_eq!(s.get_at("k", 1), Ok(value("(null)", -1)));
    assert_eq!(s.stats_at(0), value("", -1));
}

#[test]
fn stats_lists_records_in_the_order_they_were_first_set() {
    let mut s = store_started_at(0);
    s.set_at("b", "2", -1, 0).unwrap();
    s.set_at("a", "1", 5, 0).unwrap();
    s.set_at("c", "3", 0, 2).unwrap();
    s.set_at("b", "two", -1, 2).unwrap();
    assert_eq!(
        s.stats_at(2),
        value("key=b,value=two,ttl=-1|key=a,value=1,ttl=5|key=c,value=3,ttl=2", -1)
    );
}

#[test]
fn stats_passes_over_the_expired_and_removes_nothing() {
    let mut s = store_started_at(0);
    s.set_at("a", "1", 1, 0).unwrap();
    s.set_at("b", "2", -1, 0).unwrap();
    s.set_at("c", "3", 3, 0).unwrap();
    assert_eq!(s.stats_at(2), value("key=b,value=2,ttl=-1|key=c,value=3,ttl=3", -1));
    assert_eq!(s.stats_at(4), value("key=b,value=2,ttl=-1", -1));
    // Nothing was removed: with the clock back at the start all three show.
    assert_eq!(
        s.stats_at(0),
        value("key=a,value=1,ttl=1|key=b,value=2,ttl=-1|key=c,value=3,ttl=3", -1)
    );
    // A lookup removes what it finds past its expiry.
    assert_eq!(s.get_at("a", 2), Ok(value("(null)", -1)));
    assert_eq!(s.stats_at(0), value("key=b,value=2,ttl=-1|key=c,value=3,ttl=3", -1));
}

#[test]
fn delete_keeps_the_order_of_the_others() {
    let mut s = store_started_at(0);
    s.set_at("a", "1", -1, 0).unwrap();
    s.set_at("b", "2", -1, 0).unwrap();
    s.set_at("c", "3", -1, 0).unwrap();
    s.del("b").unwrap();
    assert_eq!(s.stats_at(0), value("key=a,value=1,ttl=-1|key=c,value=3,ttl=-1", -1));
    s.set_at("b", "again", -1, 0).unwrap();
    assert_eq!(
        s.stats_at(0),
        value("key=a,value=1,ttl=-1|key=c,value=3,ttl=-1|key=b,value=again,ttl=-1", -1)
    );
}

#[test]
fn expiry_beyond_the_largest_value_is_held_there() {
    let mut s = store_started_at(0);
    s.set_at("k", "v", i32::MAX, 10).unwrap();
    assert_eq!(s.get_at("k", 10), Ok(value("v", i32::MAX)));
    assert_eq!(s.get_at("k", i32::MAX as u64), Ok(value("v", i32::MAX)));
    assert_eq!(s.get_at("k", i32::MAX as u64 + 1), Ok(value("(null)", -1)));
}

#[test]
fn ping_answers_pong() {
    let s = store_started_at(0);
    assert_eq!(s.ping(), value("PONG", -1));
}

#[test]
fn keys_are_compared_character_by_character() {
    let mut s = store_started_at(0);
    s.set_at("key", "1", -1, 0).unwrap();
    s.set_at("Key", "2", -1, 0).unwrap();
    s.set_at("", "empty", -1, 0).unwrap();
    assert_eq!(s.get_at("key", 0), Ok(value("1", -1)));
    assert_eq!(s.get_at("Key", 0), Ok(value("2", -1)));
    assert_eq!(s.get_at("", 0), Ok(value("empty", -1)));
    assert_eq!(s.get_at("ke", 0), Ok(value("(null)", -1)));
}

#[test]
fn system_clock_set_get_delete() {
    let mut s = Storage::new(TimeManager::new());
    assert_eq!(s.set("a", "hello", -1), Ok(value("Ok", -1)));
    assert_eq!(s.get("a"), Ok(value("hello", -1)));
    assert_eq!(s.set("t", "soon", 1_000), Ok(value("Ok", -1)));
    let got = s.get("t").unwrap();
    assert_eq!(got.data, "soon");
    assert!(got.ttl >= 1_000 && got.ttl < 1_010);
    assert_eq!(s.stats().data, format!("key=a,value=hello,ttl=-1|key=t,value=soon,ttl={}", got.ttl));
    assert_eq!(s.del("a"), Ok(value("Ok", -1)));
    assert_eq!(s.get("a"), Ok(value("(null)", -1)));
}

#[test]
fn system_clock_zero_ttl_expires_after_a_tick() {
    let tm = TimeManager::new();
    let mut s = Storage::new(tm);
    assert_eq!(s.set("b", "world", 0), Ok(value("Ok", -1)));
    let set_time = s.now();
    // Wait for the clock to move on by a second or two.
    while s.now() <= set_time + 1 {}
    assert_eq!(s.stats(), value("", -1));
    assert_eq!(s.get("b"), Ok(value("(null)", -1)));
}

#[test]
fn peek_answers_what_needs_no_change() {
    let mut s = store_started_at(100);
    s.set_at("k", "v", 5, 100).unwrap();
    s.set_at("forever", "f", -1, 100).unwrap();
    assert_eq!(s.peek_at("missing", 100), Some(value("(null)", -1)));
    assert_eq!(s.peek_at("k", 105), Some(value("v", 5)));
    assert_eq!(s.peek_at("forever", u64::MAX), Some(value("f", -1)));
    assert_eq!(s.peek_at("k", 106), None);
    // The store is as it was: the record is still found at an earlier reading.
    assert_eq!(s.peek_at("k", 100), Some(value("v", 5)));
    assert_eq!(s.get_at("k", 106), Ok(value("(null)", -1)));
    assert_eq!(s.peek_at("k", 100), Some(value("(null)", -1)));
}
