//! TTL filtering over the in-memory store: expired entries read as absent
//! and the cursor skips them in both directions.

use resource_control::kv::{KvIterator, MemSnapshot, Snapshot};
use resource_control::ttl::{append_expire_ts, get_expire_ts, strip_expire_ts, truncate_expire_ts,
    TTLSnapshot, TtlError};

// the tests' fixed current time: entries with expiry 10 are stale, with 20
// still live, with 0 permanent
const TEST_CURRENT_TS: u64 = 15;

fn build_store() -> MemSnapshot {
    let mut kvdb = MemSnapshot::new();

    let key1 = b"key1";
    let mut value1 = b"value1".to_vec();
    append_expire_ts(&mut value1, 10);
    kvdb.put(key1.to_vec(), value1);
    let mut value10 = b"value1".to_vec();
    append_expire_ts(&mut value10, 20);
    kvdb.put(key1.to_vec(), value10);

    let key2 = b"key2";
    let mut value2 = b"value2".to_vec();
    append_expire_ts(&mut value2, 20);
    kvdb.put(key2.to_vec(), value2);
    let mut value20 = b"value2".to_vec();
    append_expire_ts(&mut value20, 10);
    kvdb.put(key2.to_vec(), value20);

    let key3 = b"key3";
    let mut value3 = b"value3".to_vec();
    append_expire_ts(&mut value3, 0);
    kvdb.put(key3.to_vec(), value3);

    kvdb
}

#[test]
fn test_ttl_snapshot() {
    let kvdb = build_store();

    let ttl_snapshot = TTLSnapshot::new(kvdb, TEST_CURRENT_TS);
    assert_eq!(
        ttl_snapshot.get(b"key1").unwrap(),
        Some(b"value1".to_vec())
    );
    assert_eq!(ttl_snapshot.get(b"key2").unwrap(), None);
    assert_eq!(
        ttl_snapshot.get(b"key3").unwrap(),
        Some(b"value3".to_vec())
    );
}

#[test]
fn test_ttl_iterator() {
    let mut kvdb = build_store();

    let key4 = b"key4";
    let mut value4 = b"value4".to_vec();
    append_expire_ts(&mut value4, 10);
    kvdb.put(key4.to_vec(), value4);

    let key5 = b"key5";
    let mut value5 = b"value5".to_vec();
    append_expire_ts(&mut value5, 0);
    kvdb.put(key5.to_vec(), value5);
    let mut value50 = b"value5".to_vec();
    append_expire_ts(&mut value50, 10);
    kvdb.put(key5.to_vec(), value50);

    let ttl_snapshot = TTLSnapshot::new(kvdb, TEST_CURRENT_TS);
    let mut iter = ttl_snapshot.iter();
    iter.seek_to_first().unwrap();
    assert_eq!(iter.key(), b"key1");
    assert_eq!(iter.value(), b"value1");
    assert_eq!(iter.next().unwrap(), true);
    assert_eq!(iter.key(), b"key3");
    assert_eq!(iter.value(), b"value3");
    assert_eq!(iter.next().unwrap(), false);

    iter.seek_to_last().unwrap();
    assert_eq!(iter.key(), b"key3");
    assert_eq!(iter.value(), b"value3");
    assert_eq!(iter.prev().unwrap(), true);
    assert_eq!(iter.key(), b"key1");
    assert_eq!(iter.value(), b"value1");
    assert_eq!(iter.prev().unwrap(), false);

    iter.seek(b"key2").unwrap();
    assert_eq!(iter.valid(), true);
    assert_eq!(iter.key(), b"key3");
    assert_eq!(iter.value(), b"value3");
    iter.seek(b"key4").unwrap();
    assert_eq!(iter.valid(), false);

    iter.seek_for_prev(b"key2").unwrap();
    assert_eq!(iter.valid(), true);
    assert_eq!(iter.key(), b"key1");
    assert_eq!(iter.value(), b"value1");
    iter.seek_for_prev(b"key1").unwrap();
    assert_eq!(iter.valid(), true);
    assert_eq!(iter.key(), b"key1");
    assert_eq!(iter.value(), b"value1");
}

#[test]
fn expire_ts_codec_round_trip() {
    let mut v = b"data".to_vec();
    append_expire_ts(&mut v, 0x0102_0304_0506_0708);
    assert_eq!(v.len(), 12);
    assert_eq!(v[4..].to_vec(), vec![1u8, 2, 3, 4, 5, 6, 7, 8]);
    assert_eq!(get_expire_ts(&v).unwrap(), 0x0102_0304_0506_0708);
    assert_eq!(strip_expire_ts(&v), b"data");
    assert_eq!(truncate_expire_ts(&mut v), Ok(()));
    assert_eq!(v, b"data".to_vec());
}

#[test]
fn short_value_is_an_error() {
    assert_eq!(get_expire_ts(b"abc"), Err(TtlError::ValueTooShort));
    let mut v = b"abc".to_vec();
    assert_eq!(truncate_expire_ts(&mut v), Err(TtlError::ValueTooShort));

    // a stored value too short for a timestamp errors through the snapshot
    let mut kvdb = MemSnapshot::new();
    kvdb.put(b"bad".to_vec(), b"xy".to_vec());
    let ttl_snapshot = TTLSnapshot::new(kvdb, TEST_CURRENT_TS);
    assert_eq!(ttl_snapshot.get(b"bad"), Err(TtlError::ValueTooShort));
    assert_eq!(ttl_snapshot.get(b"absent").unwrap(), None);
}

#[test]
fn mem_store_orders_and_overwrites() {
    let mut kvdb = MemSnapshot::new();
    kvdb.put(b"b".to_vec(), b"2".to_vec());
    kvdb.put(b"c".to_vec(), b"3".to_vec());
    kvdb.put(b"a".to_vec(), b"1".to_vec());
    kvdb.put(b"b".to_vec(), b"22".to_vec());
    assert_eq!(kvdb.get(b"a"), Some(b"1".to_vec()));
    assert_eq!(kvdb.get(b"b"), Some(b"22".to_vec()));
    assert_eq!(kvdb.get(b"d"), None);

    let mut it = kvdb.iter();
    assert!(!it.valid());
    it.seek_to_first();
    assert_eq!(it.key(), b"a");
    it.next();
    assert_eq!(it.key(), b"b");
    assert_eq!(it.value(), b"22");
    it.next();
    assert_eq!(it.key(), b"c");
    assert!(!it.next());
}

#[test]
fn malformed_value_stops_the_cursor() {
    let mut kvdb = MemSnapshot::new();
    let mut good = b"fine".to_vec();
    append_expire_ts(&mut good, 0);
    kvdb.put(b"a".to_vec(), good);
    let mut stale = b"old".to_vec();
    append_expire_ts(&mut stale, 10);
    kvdb.put(b"b".to_vec(), stale);
    kvdb.put(b"c".to_vec(), b"xy".to_vec());  // too short for a timestamp

    let ttl_snapshot = TTLSnapshot::new(kvdb, TEST_CURRENT_TS);
    let mut iter = ttl_snapshot.iter();
    assert_eq!(iter.seek_to_first(), Ok(true));
    assert_eq!(iter.key(), b"a");
    // stepping over the expired entry runs into the malformed one
    assert_eq!(iter.next(), Err(TtlError::ValueTooShort));
}
