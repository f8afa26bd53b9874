use fantoccini_session_manager::{distinct_webdrivers, Binding, Error, FantocciniConnectionManager, Session};

fn pool(addrs: &[&str]) -> FantocciniConnectionManager<u32> {
    let bindings = addrs
        .iter()
        .enumerate()
        .map(|(i, a)| Binding { webdriver: a.to_string(), client: i as u32 })
        .collect();
    FantocciniConnectionManager::new(bindings)
}

fn session(expires_at: Option<i64>) -> Session<u32> {
    Session { id: "s".to_string(), expires_at, webdriver: "http://localhost:4444".to_string(), client: 0 }
}

#[test]
fn new_pool_has_every_endpoint_free() {
    let p = pool(&["a", "b", "c"]);
    assert_eq!(p.free_count(), 3);
    assert_eq!(p.session_count(), 0);
    assert_eq!(p.webdrivers(), &vec!["a".to_string(), "b".to_string(), "c".to_string()]);
    assert_eq!(p.next_free().unwrap().webdriver, "c");
}

#[test]
fn counts_add_up_after_each_operation() {
    let mut p = pool(&["a", "b", "c"]);
    p.create_session_at("x".to_string(), 0, None).unwrap();
    assert_eq!(p.free_count() + p.session_count(), 3);
    p.create_session_at("y".to_string(), 0, Some(5)).unwrap();
    assert_eq!(p.free_count() + p.session_count(), 3);
    p.release_session("x".to_string(), Some(7)).unwrap();
    assert_eq!(p.free_count() + p.session_count(), 3);
    assert_eq!(p.free_count(), 2);
    assert_eq!(p.session_count(), 1);
}

#[test]
fn free_and_leased_endpoints_are_disjoint() {
    let mut p = pool(&["a", "b", "c"]);
    let leased = p.create_session_at("x".to_string(), 0, None).unwrap().webdriver.clone();
    assert_eq!(leased, "c");
    let all = p.clear();
    assert_eq!(all[0].webdriver, leased);
    let free: Vec<String> = all[1..].iter().map(|b| b.webdriver.clone()).collect();
    assert!(!free.contains(&leased));
    assert_eq!(free, vec!["a".to_string(), "b".to_string()]);
}

#[test]
fn lease_every_endpoint_then_exhausted() {
    let mut p = pool(&["a", "b"]);
    assert!(p.create_session_at("1".to_string(), 0, None).is_ok());
    assert!(p.create_session_at("2".to_string(), 0, None).is_ok());
    assert_eq!(p.create_session_at("3".to_string(), 0, None).unwrap_err(), Error::NoClientsAvailable);
    assert_eq!(p.session_count(), 2);
    assert_eq!(p.free_count(), 0);
    assert!(p.next_free().is_none());
}

#[test]
fn created_session_takes_last_free_binding() {
    let mut p = pool(&["a", "b"]);
    let s = p.create_session_at("id-1".to_string(), 1_000, Some(250)).unwrap();
    assert_eq!(s.id, "id-1");
    assert_eq!(s.webdriver, "b");
    assert_eq!(s.client, 1);
    assert_eq!(s.expires_at, Some(1_250));
}

#[test]
fn expiry_is_clamped_at_the_last_instant() {
    let mut p = pool(&["a"]);
    let s = p.create_session_at("x".to_string(), i64::MAX - 5, Some(100)).unwrap();
    assert_eq!(s.expires_at, Some(i64::MAX));
}

#[test]
fn get_session_finds_active_and_rejects_unknown() {
    let mut p = pool(&["a", "b"]);
    p.create_session_at("x".to_string(), 0, None).unwrap();
    p.create_session_at("y".to_string(), 0, Some(3)).unwrap();
    let s = p.get_session("x".to_string()).unwrap();
    assert_eq!(s.webdriver, "b");
    assert_eq!(s.expires_at, None);
    assert_eq!(p.get_session("y".to_string()).unwrap().webdriver, "a");
    assert_eq!(p.get_session("z".to_string()).unwrap_err(), Error::NoSuchSession);
}

#[test]
fn release_unknown_fails_and_changes_nothing() {
    let mut p = pool(&["a", "b"]);
    p.create_session_at("x".to_string(), 0, None).unwrap();
    assert_eq!(p.release_session("nope".to_string(), Some(9)).unwrap_err(), Error::NoSuchSession);
    assert_eq!(p.session_count(), 1);
    assert_eq!(p.free_count(), 1);
    assert_eq!(p.next_free().unwrap().client, 0);
    assert!(p.get_session("x".to_string()).is_ok());
}

#[test]
fn release_twice_fails_the_second_time() {
    let mut p = pool(&["a"]);
    p.create_session_at("x".to_string(), 0, None).unwrap();
    let old = p.release_session("x".to_string(), Some(5)).unwrap();
    assert_eq!(old.id, "x");
    assert_eq!(old.client, 0);
    assert_eq!(p.release_session("x".to_string(), Some(6)).unwrap_err(), Error::NoSuchSession);
    assert_eq!(p.free_count(), 1);
}

#[test]
fn release_with_fresh_connection_returns_endpoint() {
    let mut p = pool(&["a", "b"]);
    p.create_session_at("x".to_string(), 0, None).unwrap();
    p.release_session("x".to_string(), Some(42)).unwrap();
    let b = p.next_free().unwrap();
    assert_eq!(b.webdriver, "b");
    assert_eq!(b.client, 42);
    assert_eq!(p.free_count(), 2);
}

#[test]
fn release_without_connection_gives_endpoint_up() {
    let mut p = pool(&["a", "b"]);
    p.create_session_at("x".to_string(), 0, None).unwrap();
    p.release_session("x".to_string(), None).unwrap();
    assert_eq!(p.free_count(), 1);
    assert_eq!(p.session_count(), 0);
    assert_eq!(p.next_free().unwrap().webdriver, "a");
}

#[test]
fn zero_ttl_session_is_reclaimed_on_next_cycle() {
    let mut p = pool(&["a"]);
    p.create_session_at("x".to_string(), 10_000, Some(0)).unwrap();
    assert!(p.expired_session_ids_at(10_000).is_empty());
    let ids = p.expired_session_ids_at(11_000);
    assert_eq!(ids, vec!["x".to_string()]);
    for id in ids {
        p.release_session(id, Some(3)).unwrap();
    }
    assert!(p.get_session("x".to_string()).is_err());
    assert!(p.create_session_at("y".to_string(), 11_000, None).is_ok());
}

#[test]
fn expired_ids_skip_live_and_unbounded_sessions() {
    let mut p = pool(&["a", "b", "c", "d"]);
    p.create_session_at("forever".to_string(), 0, None).unwrap();
    p.create_session_at("short".to_string(), 0, Some(10)).unwrap();
    p.create_session_at("long".to_string(), 0, Some(1_000)).unwrap();
    p.create_session_at("shorter".to_string(), 0, Some(5)).unwrap();
    assert_eq!(p.expired_session_ids_at(11), vec!["short".to_string(), "shorter".to_string()]);
    assert_eq!(p.expired_session_ids_at(10), vec!["shorter".to_string()]);
    assert!(p.expired_session_ids_at(5).is_empty());
}

#[test]
fn clear_empties_pool_and_later_lease_fails() {
    let mut p = pool(&["a", "b", "c"]);
    p.create_session_at("x".to_string(), 0, None).unwrap();
    let dropped = p.clear();
    assert_eq!(dropped.len(), 3);
    assert_eq!(dropped[0].client, 2);
    assert_eq!(p.session_count(), 0);
    assert_eq!(p.free_count(), 0);
    assert_eq!(p.create_session_at("y".to_string(), 0, None).unwrap_err(), Error::NoClientsAvailable);
}

#[test]
fn last_binding_is_leased_once() {
    let mut p = pool(&["a", "b"]);
    p.create_session_at("x".to_string(), 0, None).unwrap();
    let first = p.create_session_at("y".to_string(), 0, None);
    assert!(first.is_ok());
    let second = p.create_session_at("z".to_string(), 0, None);
    assert_eq!(second.unwrap_err(), Error::NoClientsAvailable);
    assert_eq!(p.session_count(), 2);
}

#[test]
fn has_expired_at_is_strictly_after_expiry() {
    assert!(!session(Some(100)).has_expired_at(100));
    assert!(session(Some(100)).has_expired_at(101));
    assert!(!session(Some(100)).has_expired_at(99));
    assert!(!session(None).has_expired_at(i64::MAX));
}

#[test]
fn has_expired_reads_the_wall_clock() {
    assert!(session(Some(0)).has_expired());
    assert!(!session(Some(i64::MAX)).has_expired());
    assert!(!session(None).has_expired());
}

#[test]
fn wall_clock_lease_and_scan() {
    let mut p = pool(&["a", "b"]);
    let s = p.create_session("x".to_string(), Some(3_600_000)).unwrap();
    assert!(s.expires_at.unwrap() > 1_600_000_000_000);
    p.create_session("y".to_string(), None).unwrap();
    assert!(p.expired_session_ids().is_empty());
    assert_eq!(p.create_session("z".to_string(), None).unwrap_err(), Error::NoClientsAvailable);
}

#[test]
fn repeated_addresses_are_dropped() {
    let given: Vec<String> = ["a", "b", "a", "c", "b"].iter().map(|s| s.to_string()).collect();
    let kept = distinct_webdrivers(&given);
    assert_eq!(kept, vec!["a".to_string(), "b".to_string(), "c".to_string()]);
    assert!(distinct_webdrivers(&Vec::new()).is_empty());
}

#[test]
fn clear_hands_back_session_connections_then_free_ones() {
    let mut p = pool(&["a", "b", "c"]);
    p.create_session_at("x".to_string(), 0, None).unwrap();
    p.create_session_at("y".to_string(), 0, None).unwrap();
    let clients: Vec<u32> = p.clear().iter().map(|b| b.client).collect();
    assert_eq!(clients, vec![2, 1, 0]);
}
