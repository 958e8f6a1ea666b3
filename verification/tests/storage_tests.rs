//! Storage: writing, reading, deleting, expiry and listing.

use auth_kademlia::storage::ForgetfulStorage;
use auth_kademlia::storage::IStorage;
use auth_kademlia::storage::DEFAULT_TTL;

const SECOND: u128 = 1_000_000_000;
const MILLI: u128 = 1_000_000;

fn wait(storage: &ForgetfulStorage, millis: u128) {
    let start = storage.now();
    while storage.now() - start < millis * MILLI {}
}

#[test]
fn set_and_get() {
    let mut s = ForgetfulStorage::new(-1);
    s.set(b"key".to_vec(), b"value".to_vec());
    assert_eq!(s.get(b"key"), Some(b"value".to_vec()));
}

#[test]
fn delete() {
    let mut s = ForgetfulStorage::new(-1);
    s.set(b"k".to_vec(), b"v".to_vec());
    s.delete(b"k");
    assert_eq!(s.get(b"k"), None);
}

#[test]
fn ttl_expiry() {
    let mut s = ForgetfulStorage::new(1);
    s.set(b"k".to_vec(), b"v".to_vec());
    wait(&s, 1100);
    assert_eq!(s.get(b"k"), None);
}

#[test]
fn no_ttl_never_expires() {
    let mut s = ForgetfulStorage::new(-1);
    s.set(b"k".to_vec(), b"v".to_vec());
    wait(&s, 10);
    assert_eq!(s.get(b"k"), Some(b"v".to_vec()));
    assert_eq!(s.get_at(b"k", u128::MAX), Some(b"v".to_vec()));
}

#[test]
fn iter_older_than() {
    let mut s = ForgetfulStorage::new(-1);
    s.set(b"a".to_vec(), b"1".to_vec());
    wait(&s, 1100);
    s.set(b"b".to_vec(), b"2".to_vec());
    let old = s.iter_older_than(1);
    assert_eq!(old.len(), 1);
    assert_eq!(old[0].0, b"a".to_vec());
}

#[test]
fn insert_if_absent_new_key() {
    let mut s = ForgetfulStorage::new(-1);
    assert!(s.insert_if_absent(b"k".to_vec(), b"v1".to_vec()));
    assert_eq!(s.get(b"k"), Some(b"v1".to_vec()));
}

#[test]
fn insert_if_absent_existing_key() {
    let mut s = ForgetfulStorage::new(-1);
    s.set(b"k".to_vec(), b"v1".to_vec());
    assert!(!s.insert_if_absent(b"k".to_vec(), b"v2".to_vec()));
    assert_eq!(s.get(b"k"), Some(b"v1".to_vec()));
}

#[test]
fn insert_if_absent_replaces_expired() {
    let mut s = ForgetfulStorage::new(1);
    s.set(b"k".to_vec(), b"old".to_vec());
    wait(&s, 1100);
    assert!(s.insert_if_absent(b"k".to_vec(), b"new".to_vec()));
    assert_eq!(s.get(b"k"), Some(b"new".to_vec()));
}

#[test]
fn test_basic_set_and_get() {
    let mut s = ForgetfulStorage::new(-1);
    s.set(b"key1".to_vec(), b"value1".to_vec());
    assert_eq!(s.get(b"key1"), Some(b"value1".to_vec()));
}

#[test]
fn test_get_missing_key_returns_none() {
    let s = ForgetfulStorage::new(-1);
    assert_eq!(s.get(b"ghost"), None);
}

#[test]
fn test_get_default_fallback() {
    let s = ForgetfulStorage::new(-1);
    let fallback = Some(b"default".to_vec());
    assert_eq!(s.get_default(b"missing", fallback.clone()), fallback);
}

#[test]
fn test_get_default_prefers_stored_value() {
    let mut s = ForgetfulStorage::new(-1);
    s.set(b"k".to_vec(), b"real".to_vec());
    assert_eq!(s.get_default(b"k", Some(b"fallback".to_vec())), Some(b"real".to_vec()));
}

#[test]
fn test_overwrite_replaces_value() {
    let mut s = ForgetfulStorage::new(-1);
    s.set(b"k".to_vec(), b"first".to_vec());
    s.set(b"k".to_vec(), b"second".to_vec());
    assert_eq!(s.get(b"k"), Some(b"second".to_vec()));
}

#[test]
fn test_delete_removes_entry() {
    let mut s = ForgetfulStorage::new(-1);
    s.set(b"k".to_vec(), b"v".to_vec());
    s.delete(b"k");
    assert_eq!(s.get(b"k"), None);
}

#[test]
fn test_delete_nonexistent_key_is_noop() {
    let mut s = ForgetfulStorage::new(-1);
    s.delete(b"ghost");
}

#[test]
fn test_no_ttl_entries_persist_forever() {
    let mut s = ForgetfulStorage::new(-1);
    s.set(b"k".to_vec(), b"v".to_vec());
    wait(&s, 50);
    s.set(b"other".to_vec(), b"x".to_vec());
    assert_eq!(s.get(b"k"), Some(b"v".to_vec()));
}

#[test]
fn test_entry_expires_after_ttl() {
    let mut s = ForgetfulStorage::new(1);
    s.set(b"k".to_vec(), b"v".to_vec());
    wait(&s, 1100);
    s.set(b"trigger_cull".to_vec(), b"x".to_vec());
    assert_eq!(s.get(b"k"), None);
}

#[test]
fn test_entry_survives_within_ttl() {
    let mut s = ForgetfulStorage::new(60);
    s.set(b"k".to_vec(), b"v".to_vec());
    wait(&s, 50);
    assert_eq!(s.get(b"k"), Some(b"v".to_vec()));
}

#[test]
fn test_default_ttl_constant_is_one_week() {
    assert_eq!(DEFAULT_TTL, 604_800);
}

#[test]
fn test_iter_older_than_returns_stale_entries() {
    let mut s = ForgetfulStorage::new(-1);
    s.set(b"old".to_vec(), b"1".to_vec());
    wait(&s, 1100);
    s.set(b"new".to_vec(), b"2".to_vec());
    let stale = s.iter_older_than(1);
    assert_eq!(stale.len(), 1, "only the old entry should be returned");
    assert_eq!(stale[0].0, b"old".to_vec());
}

#[test]
fn test_iter_older_than_zero_returns_all() {
    let mut s = ForgetfulStorage::new(-1);
    s.set(b"a".to_vec(), b"1".to_vec());
    s.set(b"b".to_vec(), b"2".to_vec());
    wait(&s, 10);
    let all = s.iter_older_than(0);
    assert_eq!(all.len(), 2);
}

#[test]
fn test_iter_all_returns_all_entries() {
    let mut s = ForgetfulStorage::new(-1);
    s.set(b"a".to_vec(), b"1".to_vec());
    s.set(b"b".to_vec(), b"2".to_vec());
    s.set(b"c".to_vec(), b"3".to_vec());
    assert_eq!(s.iter_all().len(), 3);
}

#[test]
fn test_iter_all_excludes_expired_entries() {
    let mut s = ForgetfulStorage::new(1);
    s.set(b"will_expire".to_vec(), b"x".to_vec());
    wait(&s, 1100);
    s.set(b"fresh".to_vec(), b"y".to_vec());
    let live = s.iter_all();
    assert_eq!(live.len(), 1, "only the fresh entry should survive");
    assert_eq!(live[0].0, b"fresh".to_vec());
}

#[test]
fn test_large_binary_value_roundtrip() {
    let mut s = ForgetfulStorage::new(-1);
    let payload: Vec<u8> = (0u8..=255).cycle().take(12 + 2420 + 512).collect();
    s.set(b"did:iiot:test".to_vec(), payload.clone());
    assert_eq!(s.get(b"did:iiot:test"), Some(payload));
}

#[test]
fn test_multiple_independent_keys() {
    let mut s = ForgetfulStorage::new(-1);
    for i in 0u8..20 {
        s.set(vec![i], vec![i * 2]);
    }
    for i in 0u8..20 {
        assert_eq!(s.get(&[i]), Some(vec![i * 2]));
    }
}

#[test]
fn an_entry_expires_only_after_its_last_moment() {
    let mut s = ForgetfulStorage::new(2);
    s.set_at(b"k".to_vec(), b"v".to_vec(), 5 * SECOND);
    assert_eq!(s.get_at(b"k", 7 * SECOND), Some(b"v".to_vec()));
    assert_eq!(s.get_at(b"k", 7 * SECOND + 1), None);
    assert_eq!(s.get_at(b"k", 0), Some(b"v".to_vec()));
}

#[test]
fn a_negative_ttl_is_read_as_unsigned() {
    let mut s = ForgetfulStorage::new(-2);
    s.set_at(b"k".to_vec(), b"v".to_vec(), 0);
    assert_eq!(s.get_at(b"k", (u64::MAX as u128 - 1) * SECOND), Some(b"v".to_vec()));
    assert_eq!(s.get_at(b"k", (u64::MAX as u128 - 1) * SECOND + 1), None);
}

#[test]
fn the_clock_of_a_storage_runs() {
    let s = ForgetfulStorage::new(-1);
    let first = s.now();
    let mut later = s.now();
    for _ in 0..1000 {
        later = s.now();
    }
    assert!(later >= first);
}

#[test]
fn aged_entries_are_listed_from_the_exact_age_on() {
    let mut s = ForgetfulStorage::new(-1);
    s.set_at(b"k".to_vec(), b"v".to_vec(), 0);
    assert!(s.iter_older_than_at(3600, 3600 * SECOND - 1).is_empty());
    assert_eq!(s.iter_older_than_at(3600, 3600 * SECOND), vec![(b"k".to_vec(), b"v".to_vec())]);
}

#[test]
fn writing_one_key_leaves_the_others() {
    let mut s = ForgetfulStorage::new(-1);
    s.set(b"a".to_vec(), b"1".to_vec());
    s.set(b"b".to_vec(), b"2".to_vec());
    s.delete(b"a");
    assert_eq!(s.get(b"b"), Some(b"2".to_vec()));
    assert!(s.insert_if_absent(b"a".to_vec(), b"3".to_vec()));
    assert_eq!(s.get(b"b"), Some(b"2".to_vec()));
    assert_eq!(s.get(b"a"), Some(b"3".to_vec()));
}

#[test]
fn expiry_can_be_told_at_given_times() {
    let mut s = ForgetfulStorage::new(1);
    s.set_at(b"k".to_vec(), b"old".to_vec(), 0);
    s.set_at(b"fresh".to_vec(), b"y".to_vec(), 1100 * MILLI);
    assert_eq!(s.get_at(b"k", 1100 * MILLI), None);
    assert_eq!(s.iter_all_at(1100 * MILLI), vec![(b"fresh".to_vec(), b"y".to_vec())]);
    assert_eq!(s.iter_older_than_at(1, 1000 * MILLI).len(), 1);
    assert!(s.insert_if_absent_at(b"k".to_vec(), b"new".to_vec(), 1100 * MILLI));
    assert!(!s.insert_if_absent_at(b"k".to_vec(), b"newer".to_vec(), 2100 * MILLI));
    assert_eq!(s.get_at(b"k", 1100 * MILLI), Some(b"new".to_vec()));
}
