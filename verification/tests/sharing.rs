//! The shared cache and the registry of running computations.
use picante::inflight::{
    parse_limit, InFlightEntry, InFlightKey, InFlightRegistry, InFlightState, SharedCache,
    SharedCacheRecord, TryLeadResult,
};
use picante::{Key, PicanteError, QueryKindId, Revision, RuntimeId};
use std::sync::Arc;

fn record(value: u64) -> SharedCacheRecord<u64> {
    SharedCacheRecord {
        value: Arc::new(value),
        deps: Arc::new(vec![]),
        changed_at: Revision(1),
        verified_at: Revision(1),
        settled: true,
        insert_id: 0,
    }
}

fn key(n: u8) -> Key {
    Key::from_bytes(vec![n])
}

fn put(cache: &mut SharedCache<u64>, n: u8, value: u64) {
    cache.shared_cache_put(RuntimeId(1), QueryKindId(2), &key(n), record(value), None);
}

fn get(cache: &SharedCache<u64>, n: u8) -> Option<u64> {
    cache.shared_cache_get(RuntimeId(1), QueryKindId(2), &key(n)).map(|r| *r.value)
}

#[test]
fn a_record_is_found_by_runtime_kind_and_key() {
    let mut cache = SharedCache::new();
    put(&mut cache, 1, 10);
    assert_eq!(get(&cache, 1), Some(10));
    assert_eq!(get(&cache, 2), None);
    assert!(cache.shared_cache_get(RuntimeId(2), QueryKindId(2), &key(1)).is_none());
    assert!(cache.shared_cache_get(RuntimeId(1), QueryKindId(3), &key(1)).is_none());
    put(&mut cache, 1, 11);
    assert_eq!(get(&cache, 1), Some(11));
    cache.clear();
    assert_eq!(get(&cache, 1), None);
}

#[test]
fn the_oldest_records_are_evicted() {
    let mut cache = SharedCache::new();
    cache.set_max_entries(2);
    for n in 0..10 {
        put(&mut cache, n, n as u64);
    }
    let held: Vec<u8> = (0..10).filter(|n| get(&cache, *n).is_some()).collect();
    assert_eq!(held, [8, 9]);

    // What is put again counts as fresh, and takes no more room.
    put(&mut cache, 8, 80);
    assert_eq!(get(&cache, 9), Some(9));
    put(&mut cache, 7, 7);
    assert_eq!(get(&cache, 8), Some(80));
    assert_eq!(get(&cache, 7), Some(7));
    assert_eq!(get(&cache, 9), None);
}

#[test]
fn a_limit_of_one_keeps_the_last_record() {
    let mut cache = SharedCache::new();
    cache.set_max_entries(1);
    put(&mut cache, 1, 10);
    put(&mut cache, 2, 20);
    assert_eq!(get(&cache, 1), None);
    assert_eq!(get(&cache, 2), Some(20));

    // The last record is kept whatever the limit.
    let mut cache = SharedCache::new();
    for n in 0..3 {
        cache.shared_cache_put(RuntimeId(1), QueryKindId(2), &key(n), record(5), Some("0"));
    }
    let held: Vec<u8> = (0..3).filter(|n| get(&cache, *n).is_some()).collect();
    assert_eq!(held, [2]);
}

#[test]
fn insertion_ids_go_up() {
    let mut cache = SharedCache::new();
    let id = |cache: &SharedCache<u64>, n: u8| {
        cache.shared_cache_get(RuntimeId(1), QueryKindId(2), &key(n)).unwrap().insert_id
    };
    put(&mut cache, 1, 10);
    put(&mut cache, 2, 20);
    assert!(id(&cache, 1) < id(&cache, 2));
    put(&mut cache, 1, 11);
    assert!(id(&cache, 1) > id(&cache, 2));
}

#[test]
fn the_limit_can_come_from_the_environment() {
    let cache: SharedCache<u64> = SharedCache::new();
    assert_eq!(cache.shared_cache_max_entries(None), 20_000);
    assert_eq!(cache.shared_cache_max_entries(Some("1000")), 1000);
    assert_eq!(cache.shared_cache_max_entries(Some("nonsense")), 20_000);
    let mut fixed: SharedCache<u64> = SharedCache::new();
    fixed.set_max_entries(5);
    assert_eq!(fixed.shared_cache_max_entries(Some("1000")), 5);
    assert_eq!(parse_limit("+7"), Some(7));
    assert_eq!(parse_limit(""), None);
    assert_eq!(parse_limit("99999999999999999999999999"), None);
}

#[test]
fn one_computation_leads_at_a_time() {
    let mut registry: InFlightRegistry<u32> = InFlightRegistry::new();
    let flight = |revision: u64| InFlightKey {
        runtime_id: RuntimeId(1),
        revision: Revision(revision),
        kind: QueryKindId(2),
        key: key(1),
    };
    let first = Arc::new(1);
    let second = Arc::new(2);
    let guard = match registry.try_lead(&flight(1), &first) {
        TryLeadResult::Leader(guard) => guard,
        TryLeadResult::Follower(_) => panic!("expected to lead"),
    };
    match registry.try_lead(&flight(1), &second) {
        TryLeadResult::Follower(entry) => assert!(Arc::ptr_eq(&entry, &first)),
        TryLeadResult::Leader(_) => panic!("expected to follow"),
    }
    // Another revision computes independently.
    assert!(matches!(registry.try_lead(&flight(2), &second), TryLeadResult::Leader(_)));
    registry.finish(guard);
    assert!(matches!(registry.try_lead(&flight(1), &second), TryLeadResult::Leader(_)));
}

#[test]
fn an_entry_tells_how_its_computation_ended() {
    let mut entry: InFlightEntry<u64> = InFlightEntry::new();
    assert!(matches!(entry.state(), InFlightState::Running));
    entry.complete(Arc::new(3), Arc::new(vec![]), Revision(4));
    match entry.state() {
        InFlightState::Done { value, changed_at, .. } => {
            assert_eq!(*value, 3);
            assert_eq!(changed_at, Revision(4));
        }
        _ => panic!("expected Done"),
    }
    let mut failed: InFlightEntry<u64> = InFlightEntry::new();
    failed.fail(Arc::new(PicanteError::Panic { message: "x".to_string() }));
    assert!(matches!(failed.state(), InFlightState::Failed(_)));
    let mut cancelled: InFlightEntry<u64> = InFlightEntry::new();
    cancelled.cancel();
    assert!(matches!(cancelled.state(), InFlightState::Cancelled));
}
