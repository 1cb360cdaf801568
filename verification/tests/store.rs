use bytes::Bytes;
use resp_kv::db::{Db, StringDb, Ttl};

fn b(s: &str) -> Bytes {
    Bytes::from(s.to_string())
}

#[test]
fn set_should_work() {
    let mut db = StringDb::new();
    assert_eq!(None, db.get("foo", 0));

    db.set("foo".into(), "bar".into(), None, false, 0);
    assert_eq!(Some("bar".into()), db.get("foo", 0));

    db.set("foo".into(), "bar".into(), Some(Ttl::from_secs(1)), false, 0);
    assert_eq!(None, db.get("foo", 1001));
}

#[test]
fn del_should_work() {
    let mut db = StringDb::new();
    db.set("foo".into(), "bar".into(), None, false, 0);
    assert_eq!(Some("bar".into()), db.get("foo", 0));
    db.del("foo");
    assert_eq!(None, db.get("foo", 0));
}

#[test]
fn check_exist_should_work() {
    let mut db = StringDb::new();
    db.set("foo".into(), "bar".into(), None, false, 0);
    assert!(db.check_exist("foo", 0));
}

#[test]
fn get_ttl_should_work() {
    let mut db = StringDb::new();
    db.set("foo".into(), "bar".into(), Some(Ttl::from_secs(1)), false, 0);
    let ttl = db.get_ttl("foo", 0);
    assert!(ttl.is_some());
    assert!(Ttl::from_secs(1).millis - ttl.unwrap().millis < Ttl::from_millis(100).millis);
}

#[test]
fn get_of_unset_key_is_nothing() {
    let mut db = StringDb::new();
    assert_eq!(db.get("k", 0), None);
    db.set("other".into(), b("v"), None, false, 0);
    assert_eq!(db.get("k", 5), None);
    assert_eq!(db.get("", 5), None);
    assert_eq!(db.get("other", 5), Some(b("v")));
}

#[test]
fn last_write_wins() {
    let mut db = StringDb::new();
    db.set("k".into(), b("v1"), None, false, 0);
    db.set("k".into(), b("v2"), None, false, 1);
    assert_eq!(db.get("k", 2), Some(b("v2")));
}

#[test]
fn plain_set_clears_an_expiry() {
    let mut db = StringDb::new();
    db.set("k".into(), b("v1"), Some(Ttl::from_millis(10)), false, 0);
    db.set("k".into(), b("v2"), None, false, 1);
    assert_eq!(db.get("k", 1_000_000), Some(b("v2")));
    assert_eq!(db.get_ttl("k", 1_000_000), Some(Ttl::from_millis(0)));
}

#[test]
fn expiry_is_checked_on_access() {
    let mut db = StringDb::new();
    db.set("k".into(), b("v"), Some(Ttl::from_secs(1)), false, 100);
    assert_eq!(db.get("k", 100), Some(b("v")));
    assert_eq!(db.get("k", 1100), Some(b("v")));
    assert_eq!(db.get("k", 1101), None);
    assert!(!db.check_exist("k", 0));
    db.set("k".into(), b("w"), None, true, 2000);
    assert_eq!(db.get("k", u64::MAX), Some(b("w")));
}

#[test]
fn expired_entry_is_removed_by_get() {
    let mut db = StringDb::new();
    db.set("k".into(), b("v"), Some(Ttl::from_millis(5)), false, 0);
    assert_eq!(db.get("k", 6), None);
    assert_eq!(db.get("k", 0), None);
    assert_eq!(db.get_ttl("k", 0), None);
}

#[test]
fn keep_ttl_keeps_the_expiry() {
    let mut db = StringDb::new();
    db.set("k".into(), b("v1"), Some(Ttl::from_secs(100)), false, 0);
    db.set("k".into(), b("v2"), None, true, 50_000);
    assert_eq!(db.get("k", 60_000), Some(b("v2")));
    assert_eq!(db.get_ttl("k", 60_000), Some(Ttl::from_secs(40)));
    assert_eq!(db.get("k", 100_000), Some(b("v2")));
    assert_eq!(db.get("k", 100_001), None);
}

#[test]
fn keep_ttl_on_a_persistent_key_stays_persistent() {
    let mut db = StringDb::new();
    db.set("k".into(), b("v1"), None, false, 0);
    db.set("k".into(), b("v2"), None, true, 1);
    assert_eq!(db.get("k", u64::MAX), Some(b("v2")));
}

#[test]
fn px_and_ex_lifetimes() {
    assert_eq!(Ttl::from_secs(2).millis, 2000);
    assert_eq!(Ttl::from_millis(2).millis, 2);
    assert_eq!(Ttl::from_secs(u64::MAX).millis, (u64::MAX as u128) * 1000);
    let mut db = StringDb::new();
    db.set("a".into(), b("1"), Some(Ttl::from_millis(1)), false, 10);
    db.set("b".into(), b("2"), Some(Ttl::from_secs(u64::MAX)), false, u64::MAX);
    assert_eq!(db.get("a", 11), Some(b("1")));
    assert_eq!(db.get("a", 12), None);
    assert_eq!(db.get("b", u64::MAX), Some(b("2")));
}

#[test]
fn lifetime_beyond_the_clock_never_expires() {
    let mut db = StringDb::new();
    db.set("k".into(), b("v"), Some(Ttl { millis: u128::MAX }), false, 1);
    assert_eq!(db.get("k", u64::MAX), Some(b("v")));
    assert_eq!(db.get_ttl("k", 5), Some(Ttl { millis: 0 }));
}

#[test]
fn get_ttl_counts_down() {
    let mut db = StringDb::new();
    db.set("k".into(), b("v"), Some(Ttl::from_secs(1)), false, 0);
    assert_eq!(db.get_ttl("k", 0), Some(Ttl::from_millis(1000)));
    assert_eq!(db.get_ttl("k", 400), Some(Ttl::from_millis(600)));
    assert_eq!(db.get_ttl("k", 1000), Some(Ttl::from_millis(0)));
    assert_eq!(db.get_ttl("k", 1001), None);
    assert_eq!(db.get_ttl("absent", 0), None);
}

#[test]
fn check_exist_sees_expiry() {
    let mut db = StringDb::new();
    assert!(!db.check_exist("k", 0));
    db.set("k".into(), b("v"), Some(Ttl::from_millis(10)), false, 0);
    assert!(db.check_exist("k", 10));
    assert!(!db.check_exist("k", 11));
    assert!(!db.check_exist("k", 0));
}

#[test]
fn del_removes_only_its_key() {
    let mut db = StringDb::new();
    db.set("a".into(), b("1"), None, false, 0);
    db.set("b".into(), b("2"), None, false, 0);
    db.set("c".into(), b("3"), None, false, 0);
    db.del("b");
    db.del("nothing");
    assert_eq!(db.get("a", 0), Some(b("1")));
    assert_eq!(db.get("b", 0), None);
    assert_eq!(db.get("c", 0), Some(b("3")));
}

#[test]
fn many_keys_stay_apart() {
    let mut db = StringDb::new();
    for i in 0..50u64 {
        db.set(format!("key{}", i), Bytes::from(format!("value{}", i)), None, false, i);
    }
    for i in 0..50u64 {
        assert_eq!(db.get(&format!("key{}", i), 100), Some(Bytes::from(format!("value{}", i))));
    }
    db.set("key7".into(), b("changed"), None, false, 100);
    assert_eq!(db.get("key7", 100), Some(b("changed")));
    assert_eq!(db.get("key8", 100), Some(b("value8")));
}

#[test]
fn two_sets_in_either_order_leave_one_whole_value() {
    let mut first = StringDb::new();
    first.set("k".into(), b("aaaa"), None, false, 0);
    first.set("k".into(), b("bb"), None, false, 0);
    assert_eq!(first.get("k", 0), Some(b("bb")));
    let mut second = StringDb::new();
    second.set("k".into(), b("bb"), None, false, 0);
    second.set("k".into(), b("aaaa"), None, false, 0);
    assert_eq!(second.get("k", 0), Some(b("aaaa")));
}

#[test]
fn db_wraps_a_string_db() {
    let mut inner = StringDb::new();
    inner.set("k".into(), b("v"), None, false, 0);
    let mut db = Db::new(inner);
    assert_eq!(db.get("k", 0), Some(b("v")));
    db.set("k".into(), b("w"), Some(Ttl::from_millis(5)), false, 10);
    assert_eq!(db.get("k", 15), Some(b("w")));
    assert_eq!(db.get("k", 16), None);
    assert_eq!(db.get("k", 0), None);
}
