use multicast_dns::browser::ServiceBrowser;
use multicast_dns::connection::ConnectionState;
use multicast_dns::connection::HandshakeOutcome;
use multicast_dns::connection::ResponderConnection;
use multicast_dns::errors::BrowseError;
use multicast_dns::events::BrowseEvent;
use multicast_dns::events::DiscoveryEvent;
use multicast_dns::keys::ServiceKey;

fn running_connection() -> ResponderConnection {
    ResponderConnection::open(HandshakeOutcome::Established).unwrap()
}

fn http_key(name: &str) -> ServiceKey {
    ServiceKey::new(
        name.to_string(),
        "_http._tcp".to_string(),
        "local".to_string(),
        -1,
        -1,
    )
}

fn fresh_browser() -> ServiceBrowser {
    let conn = running_connection();
    ServiceBrowser::subscribe(&conn, "_http._tcp".to_string(), "local".to_string()).unwrap()
}

#[test]
fn subscribe_on_running_connection_succeeds() {
    let b = fresh_browser();
    assert!(b.active);
    assert_eq!(b.instances.len(), 0);
    assert_eq!(b.subscription.service_type, "_http._tcp");
    assert_eq!(b.subscription.domain, "local");
}

#[test]
fn subscribe_rejects_malformed_service_type() {
    let conn = running_connection();
    let r = ServiceBrowser::subscribe(&conn, "http".to_string(), "local".to_string());
    assert!(matches!(r, Err(BrowseError::MalformedServiceType)));
}

#[test]
fn subscribe_rejects_closed_connection() {
    let mut conn = running_connection();
    conn.close();
    assert_eq!(conn.current_state(), ConnectionState::Closed);
    let r = ServiceBrowser::subscribe(&conn, "_http._tcp".to_string(), "local".to_string());
    assert!(matches!(r, Err(BrowseError::ConnectionNotRunning)));
}

#[test]
fn printer_burst_yields_exactly_one_added_then_settle() {
    // Subscribing for `_http._tcp`, then New(printer1) followed by AllForNow:
    // exactly one InstanceAdded for printer1, then only the settle signal.
    let mut b = fresh_browser();
    let out1 = b.handle_event(BrowseEvent::New { key: http_key("printer1") }, 1);
    match out1 {
        Some(DiscoveryEvent::InstanceAdded { key, description }) => {
            assert_eq!(key.name, "printer1");
            assert_eq!(description.name, "printer1");
            assert_eq!(description.service_type, "_http._tcp");
            assert_eq!(description.domain, "local");
        }
        other => panic!("expected InstanceAdded, got {}", dispatched_name(&other)),
    }
    let out2 = b.handle_event(BrowseEvent::AllForNow, 2);
    assert!(matches!(out2, Some(DiscoveryEvent::BrowseSettled)));
    assert_eq!(b.instances.len(), 1);
}

#[test]
fn redelivered_new_is_idempotent_and_refreshes_timestamp() {
    let mut b = fresh_browser();
    let first = b.handle_event(BrowseEvent::New { key: http_key("a") }, 7);
    assert!(matches!(first, Some(DiscoveryEvent::InstanceAdded { .. })));
    assert_eq!(b.instances[0].discovered_at, 7);
    let second = b.handle_event(BrowseEvent::New { key: http_key("a") }, 9);
    assert!(second.is_none());
    assert_eq!(b.instances.len(), 1);
    assert_eq!(b.instances[0].discovered_at, 9);
}

#[test]
fn removed_unknown_key_is_noop() {
    let mut b = fresh_browser();
    let out = b.handle_event(BrowseEvent::Removed { key: http_key("ghost") }, 1);
    assert!(out.is_none());
    assert_eq!(b.instances.len(), 0);
}

#[test]
fn full_disappearance_and_return_yields_three_events() {
    // New(a) -> Removed(a) -> New(a): three events, not coalesced.
    let mut b = fresh_browser();
    let e1 = b.handle_event(BrowseEvent::New { key: http_key("a") }, 1);
    let e2 = b.handle_event(BrowseEvent::Removed { key: http_key("a") }, 2);
    let e3 = b.handle_event(BrowseEvent::New { key: http_key("a") }, 3);
    assert!(matches!(e1, Some(DiscoveryEvent::InstanceAdded { .. })));
    match e2 {
        Some(DiscoveryEvent::InstanceRemoved { key }) => assert_eq!(key.name, "a"),
        other => panic!("expected InstanceRemoved, got {}", dispatched_name(&other)),
    }
    assert!(matches!(e3, Some(DiscoveryEvent::InstanceAdded { .. })));
    assert_eq!(b.instances.len(), 1);
}

#[test]
fn tracked_set_follows_add_remove_algebra() {
    // The tracked set equals the keys whose latest New is not followed by a
    // Removed, whatever the interleaving.
    let mut b = fresh_browser();
    b.handle_event(BrowseEvent::New { key: http_key("a") }, 1);
    b.handle_event(BrowseEvent::New { key: http_key("b") }, 2);
    b.handle_event(BrowseEvent::New { key: http_key("a") }, 3);
    b.handle_event(BrowseEvent::Removed { key: http_key("b") }, 4);
    b.handle_event(BrowseEvent::Removed { key: http_key("b") }, 5);
    b.handle_event(BrowseEvent::New { key: http_key("c") }, 6);
    let names: Vec<&str> = b.instances.iter().map(|i| i.key.name.as_str()).collect();
    assert_eq!(names, vec!["a", "c"]);
}

#[test]
fn cache_exhausted_is_forwarded_without_mutation() {
    let mut b = fresh_browser();
    b.handle_event(BrowseEvent::New { key: http_key("a") }, 1);
    let out = b.handle_event(BrowseEvent::CacheExhausted, 2);
    assert!(matches!(out, Some(DiscoveryEvent::CacheExhausted)));
    assert_eq!(b.instances.len(), 1);
}

#[test]
fn unsubscribe_deactivates() {
    let mut b = fresh_browser();
    b.unsubscribe();
    assert!(!b.active);
    b.unsubscribe();
    assert!(!b.active);
}

fn dispatched_name(e: &Option<DiscoveryEvent>) -> &'static str {
    match e {
        None => "nothing",
        Some(DiscoveryEvent::InstanceAdded { .. }) => "InstanceAdded",
        Some(DiscoveryEvent::InstanceRemoved { .. }) => "InstanceRemoved",
        Some(DiscoveryEvent::BrowseSettled) => "BrowseSettled",
        Some(DiscoveryEvent::CacheExhausted) => "CacheExhausted",
        Some(DiscoveryEvent::ResolveCompleted { .. }) => "ResolveCompleted",
    }
}
