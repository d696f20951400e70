use multicast_dns::browser::ServiceBrowser;
use multicast_dns::connection::HandshakeOutcome;
use multicast_dns::connection::ResponderConnection;
use multicast_dns::errors::DiscoveryError;
use multicast_dns::errors::ResolveError;
use multicast_dns::events::BrowseEvent;
use multicast_dns::events::DiscoveryEvent;
use multicast_dns::keys::ResolvedService;
use multicast_dns::keys::ServiceKey;
use multicast_dns::manager::DiscoverySession;
use multicast_dns::manager::ResponderEvent;
use multicast_dns::manager::ServiceDiscoveryManager;
use multicast_dns::resolver::ResolveRequest;

fn http_key(name: &str) -> ServiceKey {
    ServiceKey::new(
        name.to_string(),
        "_http._tcp".to_string(),
        "local".to_string(),
        -1,
        -1,
    )
}

fn fresh_session() -> DiscoverySession {
    let conn = ResponderConnection::open(HandshakeOutcome::Established).unwrap();
    let browser =
        ServiceBrowser::subscribe(&conn, "_http._tcp".to_string(), "local".to_string()).unwrap();
    DiscoverySession::begin(conn, browser)
}

fn new_event(name: &str) -> ResponderEvent {
    ResponderEvent::Browse { event: BrowseEvent::New { key: http_key(name) } }
}

fn removed_event(name: &str) -> ResponderEvent {
    ResponderEvent::Browse { event: BrowseEvent::Removed { key: http_key(name) } }
}

fn resolved(host: &str) -> ResolvedService {
    ResolvedService::new(
        host.to_string(),
        "192.168.1.9".to_string(),
        8080,
        "local".to_string(),
        Vec::new(),
    )
}

#[test]
fn rejected_handshake_fails_before_the_loop_starts() {
    // No responder reachable: discover fails synchronously with the
    // responder's diagnostic; no event of the script is processed.
    let manager = ServiceDiscoveryManager::new();
    let script = vec![new_event("printer1"), new_event("printer2")];
    let r = manager.discover_services(
        "_http._tcp".to_string(),
        "local".to_string(),
        HandshakeOutcome::Rejected { diagnostic: "Daemon not running".to_string() },
        script,
    );
    match r {
        Err(DiscoveryError::Connection(e)) => assert_eq!(e.reason, "Daemon not running"),
        _ => panic!("expected a connection error"),
    }
}

#[test]
fn malformed_service_type_is_rejected_synchronously() {
    let manager = ServiceDiscoveryManager::new();
    let r = manager.discover_services(
        "printer".to_string(),
        "local".to_string(),
        HandshakeOutcome::Established,
        Vec::new(),
    );
    assert!(matches!(r, Err(DiscoveryError::Browse(_))));
}

#[test]
fn printer_burst_dispatches_one_added_and_settle() {
    // New(printer1, _http._tcp, local) then AllForNow: exactly one
    // InstanceAdded for printer1, then the settle signal, nothing more.
    let manager = ServiceDiscoveryManager::new();
    let script = vec![
        new_event("printer1"),
        ResponderEvent::Browse { event: BrowseEvent::AllForNow },
    ];
    let report = manager
        .discover_services(
            "_http._tcp".to_string(),
            "local".to_string(),
            HandshakeOutcome::Established,
            script,
        )
        .unwrap_or_else(|_| panic!("discovery failed"));
    assert!(report.conclusion.is_ok());
    assert_eq!(report.events.len(), 2);
    match &report.events[0] {
        DiscoveryEvent::InstanceAdded { key, description } => {
            assert_eq!(key.name, "printer1");
            assert_eq!(description.service_type, "_http._tcp");
        }
        _ => panic!("expected InstanceAdded first"),
    }
    assert!(matches!(report.events[1], DiscoveryEvent::BrowseSettled));
}

#[test]
fn disappearance_and_return_are_not_coalesced() {
    // New(a) -> Removed(a) -> New(a) dispatches three events.
    let manager = ServiceDiscoveryManager::new();
    let script = vec![new_event("a"), removed_event("a"), new_event("a")];
    let report = manager
        .discover_services(
            "_http._tcp".to_string(),
            "local".to_string(),
            HandshakeOutcome::Established,
            script,
        )
        .unwrap_or_else(|_| panic!("discovery failed"));
    assert_eq!(report.events.len(), 3);
    assert!(matches!(report.events[0], DiscoveryEvent::InstanceAdded { .. }));
    assert!(matches!(report.events[1], DiscoveryEvent::InstanceRemoved { .. }));
    assert!(matches!(report.events[2], DiscoveryEvent::InstanceAdded { .. }));
}

#[test]
fn removal_during_resolution_completes_with_instance_gone() {
    // resolve(a) outstanding, then Removed(a) arrives: exactly one
    // ResolveCompleted(a, Err(InstanceGone)), and a late responder answer
    // yields no Ok afterwards.
    let mut s = fresh_session();
    s.step(new_event("a"));
    assert_eq!(s.request_resolution(&http_key("a")), Some(ResolveRequest::Issued));
    s.step(removed_event("a"));
    s.step(ResponderEvent::Resolution {
        key: http_key("a"),
        outcome: Ok(resolved("stale.local")),
    });
    let report = s.finish();
    assert_eq!(report.events.len(), 3);
    assert!(matches!(report.events[0], DiscoveryEvent::InstanceAdded { .. }));
    assert!(matches!(report.events[1], DiscoveryEvent::InstanceRemoved { .. }));
    match &report.events[2] {
        DiscoveryEvent::ResolveCompleted { key, outcome } => {
            assert_eq!(key.name, "a");
            assert!(matches!(outcome, Err(ResolveError::InstanceGone)));
        }
        _ => panic!("expected the cancellation completion"),
    }
}

#[test]
fn successful_resolution_is_dispatched_once() {
    let mut s = fresh_session();
    s.step(new_event("a"));
    assert_eq!(s.request_resolution(&http_key("a")), Some(ResolveRequest::Issued));
    assert_eq!(
        s.request_resolution(&http_key("a")),
        Some(ResolveRequest::Coalesced)
    );
    s.step(ResponderEvent::Resolution {
        key: http_key("a"),
        outcome: Ok(resolved("box.local")),
    });
    let report = s.finish();
    assert_eq!(report.events.len(), 2);
    match &report.events[1] {
        DiscoveryEvent::ResolveCompleted { outcome, .. } => {
            assert_eq!(outcome.as_ref().unwrap().host, "box.local");
            assert_eq!(outcome.as_ref().unwrap().port, 8080);
        }
        _ => panic!("expected the resolution completion"),
    }
}

#[test]
fn stop_request_silences_the_rest_of_the_script() {
    // Events after the stop request dispatch nothing: the loop returns
    // within the iteration that saw the stop.
    let manager = ServiceDiscoveryManager::new();
    let script = vec![
        new_event("a"),
        ResponderEvent::StopRequested,
        new_event("b"),
        removed_event("a"),
    ];
    let report = manager
        .discover_services(
            "_http._tcp".to_string(),
            "local".to_string(),
            HandshakeOutcome::Established,
            script,
        )
        .unwrap_or_else(|_| panic!("discovery failed"));
    assert!(report.conclusion.is_ok());
    assert_eq!(report.events.len(), 1);
    assert!(matches!(report.events[0], DiscoveryEvent::InstanceAdded { .. }));
}

#[test]
fn stop_method_deactivates_and_resolution_is_refused() {
    let mut s = fresh_session();
    s.step(new_event("a"));
    assert!(s.is_active());
    s.stop();
    s.stop();
    assert!(!s.is_active());
    assert_eq!(s.request_resolution(&http_key("a")), None);
    let n = s.step(new_event("b"));
    assert_eq!(n, 0);
    let report = s.finish();
    assert_eq!(report.events.len(), 1);
}

#[test]
fn connection_failure_ends_with_its_diagnostic() {
    let manager = ServiceDiscoveryManager::new();
    let script = vec![
        new_event("a"),
        ResponderEvent::ConnectionFailed { diagnostic: "Connection reset".to_string() },
        new_event("b"),
    ];
    let report = manager
        .discover_services(
            "_http._tcp".to_string(),
            "local".to_string(),
            HandshakeOutcome::Established,
            script,
        )
        .unwrap_or_else(|_| panic!("discovery failed"));
    assert_eq!(report.events.len(), 1);
    match report.conclusion {
        Err(e) => assert_eq!(e.reason, "Connection reset"),
        Ok(()) => panic!("expected a fatal conclusion"),
    }
}

#[test]
fn resolution_timeout_arrives_as_ordinary_completion() {
    let mut s = fresh_session();
    s.step(new_event("a"));
    s.request_resolution(&http_key("a"));
    s.step(ResponderEvent::Resolution {
        key: http_key("a"),
        outcome: Err(ResolveError::Timeout),
    });
    let report = s.finish();
    match &report.events[1] {
        DiscoveryEvent::ResolveCompleted { outcome, .. } => {
            assert!(matches!(outcome, Err(ResolveError::Timeout)));
        }
        _ => panic!("expected the timeout completion"),
    }
}

#[test]
fn discovery_timestamps_follow_arrival_order() {
    let mut s = fresh_session();
    s.step(new_event("a"));
    s.step(ResponderEvent::Browse { event: BrowseEvent::AllForNow });
    s.step(new_event("b"));
    assert_eq!(s.browser.instances[0].discovered_at, 1);
    assert_eq!(s.browser.instances[1].discovered_at, 3);
}
