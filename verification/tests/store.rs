//! The key/value store: SET/GET round trips, time-to-live expiry through the
//! purge pass, and pub/sub fan-out through real broadcasters.
use mini_redis::db::Db;

#[test]
fn get_missing_key_is_none() {
    let db = Db::new();
    assert!(db.get("foo").is_none());
}

#[test]
fn set_then_get_round_trip() {
    let mut db = Db::new();
    db.set("hello".to_string(), b"world".to_vec(), None, 0);
    assert_eq!(db.get("hello").unwrap(), b"world".to_vec());
    db.set("hello".to_string(), b"again".to_vec(), None, 5);
    assert_eq!(db.get("hello").unwrap(), b"again".to_vec());
}

#[test]
fn keys_are_independent() {
    let mut db = Db::new();
    db.set("a".to_string(), b"1".to_vec(), None, 0);
    db.set("b".to_string(), b"2".to_vec(), None, 0);
    assert_eq!(db.get("a").unwrap(), b"1".to_vec());
    assert_eq!(db.get("b").unwrap(), b"2".to_vec());
    assert!(db.get("c").is_none());
}

#[test]
fn ttl_expires_at_the_purge_pass() {
    let mut db = Db::new();
    // SET k v PX 50 at instant 0.
    let notify = db.set("k".to_string(), b"v".to_vec(), Some(50), 0);
    assert!(notify, "the first deadline must wake the expirer");
    // Within the deadline the key lives.
    assert_eq!(db.get("k").unwrap(), b"v".to_vec());
    let next = db.purge_expired_keys(20);
    assert_eq!(next, Some(50));
    assert_eq!(db.get("k").unwrap(), b"v".to_vec());
    // At or past the deadline a purge pass removes it.
    let next = db.purge_expired_keys(150);
    assert_eq!(next, None);
    assert!(db.get("k").is_none());
}

#[test]
fn overwrite_discards_previous_ttl() {
    let mut db = Db::new();
    db.set("k".to_string(), b"v1".to_vec(), Some(50), 0);
    // Overwrite without a time-to-live: the old deadline must not fire.
    db.set("k".to_string(), b"v2".to_vec(), None, 10);
    assert_eq!(db.next_expiration(), None);
    db.purge_expired_keys(1000);
    assert_eq!(db.get("k").unwrap(), b"v2".to_vec());
}

#[test]
fn at_most_one_expiration_record_per_key() {
    let mut db = Db::new();
    db.set("k".to_string(), b"v1".to_vec(), Some(100), 0);
    db.set("k".to_string(), b"v2".to_vec(), Some(200), 0);
    db.set("x".to_string(), b"y".to_vec(), Some(50), 0);
    // Only the latest deadline for `k` remains: purging past it must leave
    // nothing pending.
    assert_eq!(db.next_expiration(), Some(50));
    let next = db.purge_expired_keys(60);
    assert_eq!(next, Some(200));
    assert!(db.get("x").is_none());
    assert_eq!(db.get("k").unwrap(), b"v2".to_vec());
    let next = db.purge_expired_keys(200);
    assert_eq!(next, None);
    assert!(db.get("k").is_none());
}

#[test]
fn notify_only_for_an_earlier_deadline() {
    let mut db = Db::new();
    assert!(db.set("a".to_string(), b"1".to_vec(), Some(100), 0));
    assert!(!db.set("b".to_string(), b"2".to_vec(), Some(200), 0));
    assert!(db.set("c".to_string(), b"3".to_vec(), Some(10), 0));
    assert_eq!(db.next_expiration(), Some(10));
}

#[test]
fn purge_after_shutdown_does_nothing() {
    let mut db = Db::new();
    db.set("k".to_string(), b"v".to_vec(), Some(10), 0);
    db.set_shutdown();
    assert!(db.is_shutdown());
    assert_eq!(db.purge_expired_keys(100), None);
    // The entry is left alone.
    assert_eq!(db.get("k").unwrap(), b"v".to_vec());
}

#[test]
fn publish_without_broadcaster_counts_zero() {
    let db = Db::new();
    assert_eq!(db.publish("nobody", b"msg".to_vec()), 0);
}

#[test]
fn publish_counts_live_receivers() {
    let mut db = Db::new();
    let rx1 = db.subscribe("foo".to_string());
    let rx2 = db.subscribe("foo".to_string());
    // Two receivers live: the reported count is bounded by them.
    let n = db.publish("foo", b"bar".to_vec());
    assert!(n <= 2);
    assert_eq!(n, 2);
    drop(rx1);
    let n = db.publish("foo", b"baz".to_vec());
    assert!(n <= 1);
    drop(rx2);
    // No receivers left: the count is zero even though the broadcaster is
    // retained.
    assert_eq!(db.publish("foo", b"gone".to_vec()), 0);
}

#[test]
fn published_message_reaches_subscriber() {
    let rt = tokio::runtime::Builder::new_current_thread().build().unwrap();
    let mut db = Db::new();
    let mut rx = db.subscribe("foo".to_string());
    assert_eq!(db.publish("foo", b"bar".to_vec()), 1);
    let got = rt.block_on(rx.recv()).unwrap();
    assert_eq!(got, b"bar".to_vec());
}
