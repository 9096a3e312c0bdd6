use redis_lite::commands::CommandError;
use redis_lite::storage::{instant_from, DBEntry, DBEntryValueType, Store};

fn message_of(error: CommandError) -> (String, String) {
    match error {
        CommandError::CommandNotFound(what) => ("CommandNotFound".to_string(), what),
        CommandError::InvalidArgument(what) => ("InvalidArgument".to_string(), what),
        CommandError::StorageError(what) => ("StorageError".to_string(), what),
        CommandError::ErrorWhileExecution(what) => ("ErrorWhileExecution".to_string(), what),
    }
}

#[test]
fn new_entry_holds_value_and_never_expires() {
    let entry = DBEntry::from_string_at("bar", DBEntryValueType::StringType, 1_000);
    assert_eq!(entry.value(), "bar");
    assert_eq!(entry.value_type(), DBEntryValueType::StringType);
    assert_eq!(entry.created_at(), 1_000);
    assert_eq!(entry.ttl(), None);
    assert!(entry.still_valid(0));
    assert!(entry.still_valid(1_000));
    assert!(entry.still_valid(u64::MAX));
    assert_eq!(entry.to_string_at(u64::MAX).unwrap(), "bar");
}

#[test]
fn entry_made_by_the_clock_is_read_back() {
    let entry = DBEntry::from_string("value", DBEntryValueType::StringType);
    assert_eq!(entry.value(), "value");
    assert_eq!(entry.ttl(), None);
    assert_eq!(entry.to_string().unwrap(), "value");
}

#[test]
fn clock_counts_milliseconds_since_the_epoch() {
    let before = std::time::SystemTime::now()
        .duration_since(std::time::UNIX_EPOCH)
        .unwrap()
        .as_millis() as u64;
    let entry = DBEntry::from_string("v", DBEntryValueType::StringType);
    let after = std::time::SystemTime::now()
        .duration_since(std::time::UNIX_EPOCH)
        .unwrap()
        .as_millis() as u64;
    assert!(before <= entry.created_at());
    assert!(entry.created_at() <= after);
}

#[test]
fn entry_with_a_long_ttl_is_live_by_the_clock() {
    let mut entry = DBEntry::from_string("v", DBEntryValueType::StringType);
    entry.set_ttl(Some(&"3600000".to_string())).unwrap();
    assert_eq!(entry.to_string().unwrap(), "v");
}

#[test]
fn entry_created_long_ago_has_expired_by_the_clock() {
    let mut entry = DBEntry::from_string_at("v", DBEntryValueType::StringType, 1_000);
    entry.set_ttl(Some(&"100".to_string())).unwrap();
    let (kind, what) = message_of(entry.to_string().err().unwrap());
    assert_eq!(kind, "StorageError");
    assert_eq!(what, "Value has expired");
}

#[test]
fn ttl_is_counted_from_creation() {
    let mut entry = DBEntry::from_string_at("v", DBEntryValueType::StringType, 1_000);
    assert!(entry.set_ttl(Some(&"100".to_string())).is_ok());
    assert_eq!(entry.ttl(), Some(100));
    assert_eq!(entry.created_at(), 1_000);
    assert_eq!(entry.value(), "v");
    assert!(entry.still_valid(999));
    assert!(entry.still_valid(1_000));
    assert!(entry.still_valid(1_099));
    assert!(entry.still_valid(1_100));
    assert!(!entry.still_valid(1_101));
    assert!(!entry.still_valid(1_200));
    assert_eq!(entry.to_string_at(1_100).unwrap(), "v");
    let (kind, what) = message_of(entry.to_string_at(1_101).err().unwrap());
    assert_eq!(kind, "StorageError");
    assert_eq!(what, "Value has expired");
}

#[test]
fn ttl_of_zero_expires_after_the_creation_instant() {
    let mut entry = DBEntry::from_string_at("v", DBEntryValueType::StringType, 50);
    entry.set_ttl(Some(&"0".to_string())).unwrap();
    assert!(entry.still_valid(50));
    assert!(!entry.still_valid(51));
}

#[test]
fn expiry_beyond_the_last_instant_never_comes() {
    let mut entry = DBEntry::from_string_at("v", DBEntryValueType::StringType, u64::MAX - 5);
    entry.set_ttl(Some(&"18446744073709551615".to_string())).unwrap();
    assert_eq!(entry.ttl(), Some(u64::MAX));
    assert!(entry.still_valid(u64::MAX));
    assert!(entry.still_valid(0));
    let mut entry = DBEntry::from_string_at("v", DBEntryValueType::StringType, u64::MAX - 5);
    entry.set_ttl(Some(&"5".to_string())).unwrap();
    assert!(entry.still_valid(u64::MAX));
    entry.set_ttl(Some(&"4".to_string())).unwrap();
    assert!(!entry.still_valid(u64::MAX));
    assert!(entry.still_valid(u64::MAX - 1));
}

#[test]
fn set_ttl_replaces_an_earlier_ttl() {
    let mut entry = DBEntry::from_string_at("v", DBEntryValueType::StringType, 0);
    entry.set_ttl(Some(&"10".to_string())).unwrap();
    entry.set_ttl(Some(&"+20".to_string())).unwrap();
    assert_eq!(entry.ttl(), Some(20));
}

#[test]
fn absent_duration_is_an_invalid_argument() {
    let mut entry = DBEntry::from_string_at("v", DBEntryValueType::StringType, 0);
    let (kind, what) = message_of(entry.set_ttl(None).err().unwrap());
    assert_eq!(kind, "InvalidArgument");
    assert_eq!(what, "Duration was not provided");
    assert_eq!(entry.ttl(), None);
}

#[test]
fn duration_that_is_no_number_is_an_invalid_argument() {
    for text in ["abc", "", "-5", "1.5", "10ms", " 10", "18446744073709551616"] {
        let mut entry = DBEntry::from_string_at("v", DBEntryValueType::StringType, 7);
        entry.set_ttl(Some(&"33".to_string())).unwrap();
        let (kind, what) = message_of(entry.set_ttl(Some(&text.to_string())).err().unwrap());
        assert_eq!(kind, "InvalidArgument");
        assert_eq!(what, format!("Invalid duration provided '{}'", text));
        assert_eq!(entry.ttl(), Some(33));
        assert_eq!(entry.value(), "v");
        assert_eq!(entry.created_at(), 7);
    }
}

#[test]
fn list_kind_is_kept() {
    let entry = DBEntry::from_string_at("x", DBEntryValueType::_ListType, 0);
    assert_eq!(entry.value_type(), DBEntryValueType::_ListType);
}

#[test]
fn store_starts_empty() {
    let store = Store::new();
    assert_eq!(store.len(), 0);
    assert!(store.get("foo", 0).is_none());
}

#[test]
fn insert_then_get_finds_the_entry() {
    let mut store = Store::new();
    store.insert("foo".to_string(), DBEntry::from_string_at("bar", DBEntryValueType::StringType, 5));
    assert_eq!(store.len(), 1);
    let found = store.get("foo", 99).unwrap();
    assert_eq!(found.value(), "bar");
    assert_eq!(found.created_at(), 5);
    assert!(store.get("Foo", 99).is_none());
    assert!(store.get("fo", 99).is_none());
}

#[test]
fn insert_overwrites_value_creation_and_ttl() {
    let mut store = Store::new();
    let mut first = DBEntry::from_string_at("v1", DBEntryValueType::StringType, 10);
    first.set_ttl(Some(&"5".to_string())).unwrap();
    store.insert("k".to_string(), first);
    store.insert("k".to_string(), DBEntry::from_string_at("v2", DBEntryValueType::StringType, 20));
    assert_eq!(store.len(), 1);
    let found = store.get("k", 1_000_000).unwrap();
    assert_eq!(found.value(), "v2");
    assert_eq!(found.created_at(), 20);
    assert_eq!(found.ttl(), None);
}

#[test]
fn expired_entry_reads_as_a_miss_and_stays_until_evicted() {
    let mut store = Store::new();
    let mut entry = DBEntry::from_string_at("v", DBEntryValueType::StringType, 1_000);
    entry.set_ttl(Some(&"100".to_string())).unwrap();
    store.insert("k".to_string(), entry);
    assert_eq!(store.get("k", 1_100).unwrap().value(), "v");
    assert!(store.get("k", 1_101).is_none());
    assert_eq!(store.len(), 1);
    store.evict_expired("k", 1_100);
    assert_eq!(store.len(), 1);
    store.evict_expired("other", 5_000);
    assert_eq!(store.len(), 1);
    store.evict_expired("k", 1_101);
    assert_eq!(store.len(), 0);
    assert!(store.get("k", 0).is_none());
}

#[test]
fn evicting_leaves_other_keys_alone() {
    let mut store = Store::new();
    let mut short = DBEntry::from_string_at("a", DBEntryValueType::StringType, 0);
    short.set_ttl(Some(&"1".to_string())).unwrap();
    store.insert("short".to_string(), short);
    store.insert("long".to_string(), DBEntry::from_string_at("b", DBEntryValueType::StringType, 0));
    store.evict_expired("short", 10);
    store.evict_expired("long", 10);
    assert_eq!(store.len(), 1);
    assert_eq!(store.get("long", 10).unwrap().value(), "b");
}

#[test]
fn clock_reading_becomes_an_instant() {
    assert_eq!(instant_from(None), 0);
    assert_eq!(instant_from(Some(0)), 0);
    assert_eq!(instant_from(Some(1_700_000_000_123)), 1_700_000_000_123);
    assert_eq!(instant_from(Some(u64::MAX as u128)), u64::MAX);
    assert_eq!(instant_from(Some(u64::MAX as u128 + 1)), u64::MAX);
    assert_eq!(instant_from(Some(u128::MAX)), u64::MAX);
}
