use std::cell::Cell;

use pbt_scrape::cache::Cache;
use pbt_scrape::cache_map::CacheMap;
use pbt_scrape::guard_stack::GuardStack;

#[test]
fn first_call_refreshes_empty_cell() {
    let mut cache: Cache<u32> = Cache::new(0);
    assert!(cache.needs_refresh(0, 10));
    let calls = Cell::new(0);
    let v = *cache
        .retrieve_or_update(5, 10, || -> Result<u32, String> {
            calls.set(calls.get() + 1);
            Ok(7)
        })
        .unwrap();
    assert_eq!(v, 7);
    assert_eq!(calls.get(), 1);
    assert_eq!(cache.timestamp(), Some(5));
}

#[test]
fn second_call_within_interval_does_not_refresh() {
    let mut cache: Cache<u32> = Cache::new(0);
    let calls = Cell::new(0);
    let update = || -> Result<u32, String> {
        calls.set(calls.get() + 1);
        Ok(calls.get())
    };
    assert_eq!(*cache.retrieve_or_update(100, 10, &update).unwrap(), 1);
    assert_eq!(*cache.retrieve_or_update(109, 10, &update).unwrap(), 1);
    assert_eq!(calls.get(), 1);
    assert_eq!(*cache.retrieve_or_update(110, 10, &update).unwrap(), 2);
    assert_eq!(calls.get(), 2);
}

#[test]
fn failed_refresh_keeps_value_and_time() {
    let mut cache: Cache<u32> = Cache::new(0);
    cache.retrieve_or_update(0, 10, || -> Result<u32, String> { Ok(3) }).unwrap();
    let err = cache
        .retrieve_or_update(20, 10, || -> Result<u32, String> { Err("down".to_string()) })
        .unwrap_err();
    assert_eq!(err, "down");
    assert_eq!(*cache.value(), 3);
    assert_eq!(cache.timestamp(), Some(0));
    assert!(cache.needs_refresh(20, 10));
    let calls = Cell::new(0);
    let v = *cache
        .retrieve_or_update(21, 10, || -> Result<u32, String> {
            calls.set(calls.get() + 1);
            Ok(4)
        })
        .unwrap();
    assert_eq!((v, calls.get()), (4, 1));
}

#[test]
fn callers_in_turn_share_one_refresh() {
    let mut cache: Cache<String> = Cache::new(String::new());
    let calls = Cell::new(0);
    let update = || -> Result<String, ()> {
        calls.set(calls.get() + 1);
        Ok("page".to_string())
    };
    for now in [50u64, 50, 51, 55, 59] {
        assert_eq!(cache.retrieve_or_update(now, 10, &update).unwrap(), "page");
    }
    assert_eq!(calls.get(), 1);
}

#[test]
fn commit_and_staleness_by_hand() {
    let mut cache: Cache<u32> = Cache::new(1);
    assert!(cache.commit(Err::<u32, &str>("no"), 3).is_err());
    assert_eq!(cache.timestamp(), None);
    assert!(cache.commit(Ok::<u32, &str>(9), 3).is_ok());
    assert_eq!(*cache.value(), 9);
    assert!(!cache.needs_refresh(3, 1));
    assert!(cache.needs_refresh(4, 1));
    assert!(!cache.needs_refresh(2, 1));
    assert!(cache.needs_refresh(2, 0));
}

#[test]
fn table_creates_each_key_once() {
    let mut table: CacheMap<u32> = CacheMap::new();
    let made = Cell::new(0);
    let fresh = || {
        made.set(made.get() + 1);
        made.get() * 10
    };
    let a = table.get("a", &fresh);
    let b = table.get("b", &fresh);
    let a2 = table.get("a", &fresh);
    assert_eq!(a, a2);
    assert_ne!(a, b);
    assert_eq!(made.get(), 2);
    assert_eq!(*table.cell(a), 10);
    assert_eq!(*table.cell(b), 20);
    assert_eq!(table.len(), 2);
    assert_eq!(table.find("b"), Some(b));
    assert_eq!(table.find("c"), None);
}

#[test]
fn table_keys_are_independent() {
    let mut table: CacheMap<Cache<u32>> = CacheMap::new();
    let slow = table.get("slow", || Cache::new(0));
    let quick = table.get("quick", || Cache::new(0));
    let before = table.cell(slow).timestamp();
    let _ = table.get("other", || Cache::new(5));
    assert_eq!(table.cell(slow).timestamp(), before);
    assert_eq!(table.find("quick"), Some(quick));
    assert_eq!(table.find("slow"), Some(slow));
}

#[test]
fn guard_stack_keeps_scopes_with_value() {
    let stack = GuardStack::new("table", 3u32);
    assert_eq!(*stack.value(), 3);
    let stack = stack.push_guard("cell", "value");
    assert_eq!(*stack.value(), "value");
    let stack = stack.map(|v: &str| v.len());
    let (guards, value) = stack.into_parts();
    assert_eq!(guards, ("table", "cell"));
    assert_eq!(value, 5);
    let failed = GuardStack::new((), 1u8).try_map(|_| Err::<u8, &str>("gone"));
    assert_eq!(failed.err(), Some("gone"));
}
