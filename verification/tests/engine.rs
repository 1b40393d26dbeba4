use std::collections::HashMap;

use kvs::error::KvStoreError;
use kvs::kvengine::KvEngine;
use kvs::kvstore::{KvStore, COMPACT_THRESHOLD};

fn text(s: &str) -> String {
    s.to_string()
}

fn empty() -> KvStore {
    KvStore::open(Vec::new()).unwrap()
}

const PUT_A_1: &str = "{\n  \"Set\": {\n    \"key\": \"a\",\n    \"value\": \"1\"\n  }\n}";
const PUT_A_2: &str = "{\n  \"Set\": {\n    \"key\": \"a\",\n    \"value\": \"2\"\n  }\n}";
const PUT_A_9: &str = "{\n  \"Set\": {\n    \"key\": \"a\",\n    \"value\": \"9\"\n  }\n}";
const RM_A: &str = "{\n  \"Rm\": {\n    \"key\": \"a\"\n  }\n}";

#[test]
fn set_then_get_returns_the_value() {
    let mut store = empty();
    store.set(text("a"), text("1")).unwrap();
    assert_eq!(store.get(text("a")).unwrap(), Some(text("1")));
}

#[test]
fn get_of_a_key_never_set_is_none() {
    let mut store = empty();
    assert_eq!(store.get(text("a")).unwrap(), None);
    store.set(text("a"), text("1")).unwrap();
    assert_eq!(store.get(text("b")).unwrap(), None);
    assert_eq!(store.get(text("")).unwrap(), None);
}

#[test]
fn remove_on_empty_store_is_key_not_found() {
    let mut store = empty();
    let err = store.remove(text("a")).unwrap_err();
    assert!(matches!(err, KvStoreError::RemoveNonExistKey));
    assert!(store.log().is_empty());
    assert_eq!(store.offset(), 0);
}

#[test]
fn overwrite_keeps_both_records_and_points_at_the_second() {
    let mut store = empty();
    store.set(text("a"), text("1")).unwrap();
    assert_eq!(store.locate(&text("a")), Some((0, PUT_A_1.len() as u64)));
    store.set(text("a"), text("2")).unwrap();
    assert_eq!(store.get(text("a")).unwrap(), Some(text("2")));
    let log = String::from_utf8(store.log().to_vec()).unwrap();
    assert_eq!(log, format!("{}{}", PUT_A_1, PUT_A_2));
    assert_eq!(store.locate(&text("a")), Some((PUT_A_1.len() as u64, PUT_A_2.len() as u64)));
    assert_eq!(store.offset(), (PUT_A_1.len() + PUT_A_2.len()) as u64);
}

#[test]
fn set_then_remove_then_get_is_none() {
    let mut store = empty();
    store.set(text("a"), text("1")).unwrap();
    store.remove(text("a")).unwrap();
    assert_eq!(store.get(text("a")).unwrap(), None);
    assert_eq!(store.locate(&text("a")), None);
    let log = String::from_utf8(store.log().to_vec()).unwrap();
    assert_eq!(log, format!("{}{}", PUT_A_1, RM_A));
}

#[test]
fn removing_twice_fails_the_second_time_and_writes_nothing() {
    let mut store = empty();
    store.set(text("a"), text("1")).unwrap();
    store.remove(text("a")).unwrap();
    let before = store.log().to_vec();
    let err = store.remove(text("a")).unwrap_err();
    assert!(matches!(err, KvStoreError::RemoveNonExistKey));
    assert_eq!(store.log(), &before[..]);
}

#[test]
fn exceeding_the_threshold_compacts_and_keeps_every_live_key() {
    let mut store = empty();
    let value = "v".repeat(1000);
    let mut i = 0;
    let mut largest = 0;
    while store.generation() == 0 {
        store.set(format!("key{}", i % 600), format!("{}{}", value, i)).unwrap();
        if store.generation() == 0 {
            largest = store.log().len();
        }
        i += 1;
        assert!(i < 5000);
    }
    assert_eq!(store.generation(), 1);
    assert!(largest as u64 <= COMPACT_THRESHOLD);
    assert!(store.log().len() <= largest);
    assert!((store.log().len() as u64) < COMPACT_THRESHOLD);
    assert_eq!(store.offset(), store.log().len() as u64);
    assert!(i > 600);
    for k in 0..600 {
        let last = (i - 1) - ((i - 1 - k) % 600);
        assert_eq!(store.get(format!("key{}", k)).unwrap(), Some(format!("{}{}", value, last)));
    }
}

#[test]
fn reopening_after_compaction_rebuilds_the_same_index() {
    let mut store = empty();
    let value = "w".repeat(2000);
    let mut i = 0;
    while store.generation() == 0 {
        store.set(format!("key{}", i % 100), format!("{}{}", value, i)).unwrap();
        i += 1;
        assert!(i < 5000);
    }
    store.remove(text("key7")).unwrap();
    let reopened = KvStore::open(store.log().to_vec()).unwrap();
    assert_eq!(reopened.offset(), store.offset());
    for k in 0..100 {
        let key = format!("key{}", k);
        assert_eq!(reopened.locate(&key), store.locate(&key));
        assert_eq!(reopened.get(key.clone()).unwrap(), store.get(key).unwrap());
    }
    assert_eq!(reopened.get(text("key7")).unwrap(), None);
}

#[test]
fn the_last_write_wins_over_any_run_of_writes_and_removals() {
    let mut store = empty();
    let mut model: HashMap<String, String> = HashMap::new();
    let mut seed: u32 = 12345;
    for step in 0..400 {
        seed = seed.wrapping_mul(1103515245).wrapping_add(12345);
        let key = format!("k{}", (seed >> 16) % 13);
        if (seed >> 8) % 3 == 0 {
            let removed = store.remove(key.clone());
            match model.remove(&key) {
                Some(_) => removed.unwrap(),
                None => assert!(matches!(removed, Err(KvStoreError::RemoveNonExistKey))),
            }
        } else {
            let value = format!("v{}", step);
            store.set(key.clone(), value.clone()).unwrap();
            model.insert(key, value);
        }
    }
    for k in 0..13 {
        let key = format!("k{}", k);
        assert_eq!(store.get(key.clone()).unwrap(), model.get(&key).cloned());
    }
}

#[test]
fn writes_to_different_keys_are_all_there_in_any_order() {
    let mut forward = empty();
    let mut backward = empty();
    for k in 0..50 {
        forward.set(format!("k{}", k), format!("v{}", k)).unwrap();
        backward.set(format!("k{}", 49 - k), format!("v{}", 49 - k)).unwrap();
    }
    for k in 0..50 {
        assert_eq!(forward.get(format!("k{}", k)).unwrap(), Some(format!("v{}", k)));
        assert_eq!(backward.get(format!("k{}", k)).unwrap(), Some(format!("v{}", k)));
    }
}

#[test]
fn reopening_a_store_gives_the_same_mapping_and_index() {
    let mut store = empty();
    store.set(text("a"), text("1")).unwrap();
    store.set(text("b"), text("2")).unwrap();
    store.set(text("a"), text("3")).unwrap();
    store.remove(text("b")).unwrap();
    store.set(text("c"), text("{\"Rm\":{\"key\":\"a\"}}")).unwrap();
    let reopened = KvStore::open(store.log().to_vec()).unwrap();
    assert_eq!(reopened.generation(), 0);
    assert_eq!(reopened.offset(), store.offset());
    for key in ["a", "b", "c", "d"] {
        assert_eq!(reopened.get(text(key)).unwrap(), store.get(text(key)).unwrap());
        assert_eq!(reopened.locate(&text(key)), store.locate(&text(key)));
    }
    assert_eq!(reopened.get(text("a")).unwrap(), Some(text("3")));
    assert_eq!(reopened.get(text("b")).unwrap(), None);
}

#[test]
fn compaction_keeps_the_mapping_and_drops_dead_records() {
    let mut store = empty();
    store.set(text("a"), text("1")).unwrap();
    store.set(text("b"), text("x")).unwrap();
    store.set(text("a"), text("2")).unwrap();
    store.set(text("c"), text("y")).unwrap();
    store.remove(text("c")).unwrap();
    let before = store.log().len();
    store.compact().unwrap();
    assert_eq!(store.generation(), 1);
    let b = "{\n  \"Set\": {\n    \"key\": \"b\",\n    \"value\": \"x\"\n  }\n}";
    let log = String::from_utf8(store.log().to_vec()).unwrap();
    assert_eq!(log, format!("{}{}", b, PUT_A_2));
    assert!(store.log().len() < before);
    assert_eq!(store.offset(), store.log().len() as u64);
    assert_eq!(store.get(text("a")).unwrap(), Some(text("2")));
    assert_eq!(store.get(text("b")).unwrap(), Some(text("x")));
    assert_eq!(store.get(text("c")).unwrap(), None);
    assert_eq!(store.locate(&text("b")), Some((0, b.len() as u64)));
    assert_eq!(store.locate(&text("a")), Some((b.len() as u64, PUT_A_2.len() as u64)));
}

#[test]
fn compaction_of_a_log_without_dead_records_writes_the_same_log() {
    let mut store = empty();
    store.set(text("a"), text("1")).unwrap();
    store.set(text("b"), text("2")).unwrap();
    let before = store.log().to_vec();
    store.compact().unwrap();
    assert_eq!(store.log(), &before[..]);
    assert_eq!(store.generation(), 1);
    store.compact().unwrap();
    assert_eq!(store.generation(), 2);
}

#[test]
fn compaction_of_an_empty_store_leaves_it_empty() {
    let mut store = empty();
    store.compact().unwrap();
    assert!(store.log().is_empty());
    assert_eq!(store.get(text("a")).unwrap(), None);
}

#[test]
fn compaction_can_lengthen_a_log_that_was_written_more_tightly() {
    let tight = b"{\"Set\":{\"key\":\"a\",\"value\":\"1\"}}".to_vec();
    let mut store = KvStore::open(tight.clone()).unwrap();
    assert_eq!(store.get(text("a")).unwrap(), Some(text("1")));
    store.compact().unwrap();
    assert_eq!(store.log(), PUT_A_1.as_bytes());
    assert!(store.log().len() > tight.len());
    assert_eq!(store.get(text("a")).unwrap(), Some(text("1")));
}

#[test]
fn a_log_written_elsewhere_is_replayed_with_its_own_spans() {
    let log = " {\"Set\":{\"key\":\"a\",\"value\":\"1\"}}\n{\"Rm\":{\"key\":\"b\"}}\n\n{\"Set\":{\"value\":\"2\",\"key\":\"b\"}}";
    let mut store = KvStore::open(log.as_bytes().to_vec()).unwrap();
    assert_eq!(store.get(text("a")).unwrap(), Some(text("1")));
    assert_eq!(store.get(text("b")).unwrap(), Some(text("2")));
    assert_eq!(store.locate(&text("a")), Some((0, 32)));
    assert_eq!(store.locate(&text("b")), Some((51, 33)));
    store.set(text("a"), text("9")).unwrap();
    assert_eq!(store.locate(&text("a")), Some((log.len() as u64, PUT_A_9.len() as u64)));
    assert_eq!(store.get(text("a")).unwrap(), Some(text("9")));
}

#[test]
fn opening_bytes_that_are_no_log_fails() {
    let cases: [&[u8]; 6] = [
        b"garbage",
        b"{\"Set\":{\"key\":\"a\",\"value\":\"1\"}",
        b"{\"Set\":{\"key\":\"a\",\"value\":\"1\"}}\n",
        b"{\"Set\":{\"key\":\"a\",\"value\":\"1\"}}{\"Nope\":{}}",
        b"{\"Set\":{\"key\":\"a\",\"value\":1}}",
        b"\n",
    ];
    for bad in cases {
        let err = KvStore::open(bad.to_vec()).err().unwrap();
        assert!(matches!(err, KvStoreError::RebuildIndexError));
    }
}

#[test]
fn keys_and_values_may_hold_any_text() {
    let mut store = empty();
    let texts = ["", " ", "{", "}", "\"", "\\", "\\\"", "{\"Set\":{}}", "line\nbreak", "tab\t", "\u{0}", "\u{e9}\u{4e2d}\u{1F600}"];
    for (i, key) in texts.iter().enumerate() {
        store.set(key.to_string(), texts[texts.len() - 1 - i].to_string()).unwrap();
    }
    let reopened = KvStore::open(store.log().to_vec()).unwrap();
    for (i, key) in texts.iter().enumerate() {
        let expected = Some(texts[texts.len() - 1 - i].to_string());
        assert_eq!(store.get(key.to_string()).unwrap(), expected);
        assert_eq!(reopened.get(key.to_string()).unwrap(), expected);
    }
    store.compact().unwrap();
    for (i, key) in texts.iter().enumerate() {
        assert_eq!(store.get(key.to_string()).unwrap(), Some(texts[texts.len() - 1 - i].to_string()));
    }
    store.remove(text("")).unwrap();
    assert_eq!(store.get(text("")).unwrap(), None);
    assert_eq!(store.get(text(" ")).unwrap(), Some(text("\u{0}")));
}

#[test]
fn a_removal_that_crosses_the_threshold_compacts_too() {
    let mut store = empty();
    let frame = "{\n  \"Set\": {\n    \"key\": \"big\",\n    \"value\": \"\"\n  }\n}".len();
    let value = "z".repeat(COMPACT_THRESHOLD as usize - frame - PUT_A_1.len() - 10);
    store.set(text("big"), value).unwrap();
    assert_eq!(store.generation(), 0);
    store.set(text("a"), text("1")).unwrap();
    assert_eq!(store.generation(), 0);
    assert_eq!(store.offset(), COMPACT_THRESHOLD - 10);
    store.remove(text("big")).unwrap();
    assert_eq!(store.generation(), 1);
    assert_eq!(store.log(), PUT_A_1.as_bytes());
    assert_eq!(store.get(text("big")).unwrap(), None);
    assert_eq!(store.get(text("a")).unwrap(), Some(text("1")));
}

#[test]
fn a_log_exactly_at_the_threshold_is_not_compacted() {
    let mut store = empty();
    let frame = "{\n  \"Set\": {\n    \"key\": \"k\",\n    \"value\": \"\"\n  }\n}".len();
    store.set(text("k"), "x".repeat(COMPACT_THRESHOLD as usize - frame)).unwrap();
    assert_eq!(store.offset(), COMPACT_THRESHOLD);
    assert_eq!(store.generation(), 0);
    store.set(text("k"), text("")).unwrap();
    assert_eq!(store.generation(), 1);
    assert_eq!(store.offset(), frame as u64);
}
