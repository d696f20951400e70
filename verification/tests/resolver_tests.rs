use multicast_dns::errors::ResolveError;
use multicast_dns::events::DiscoveryEvent;
use multicast_dns::keys::ResolvedService;
use multicast_dns::keys::ServiceKey;
use multicast_dns::keys::TxtEntry;
use multicast_dns::resolver::ResolveRequest;
use multicast_dns::resolver::Resolver;

fn http_key(name: &str) -> ServiceKey {
    ServiceKey::new(
        name.to_string(),
        "_http._tcp".to_string(),
        "local".to_string(),
        -1,
        -1,
    )
}

fn resolved(host: &str) -> ResolvedService {
    ResolvedService::new(
        host.to_string(),
        "192.168.1.9".to_string(),
        8080,
        "local".to_string(),
        Vec::new(),
    )
}

#[test]
fn duplicate_resolve_is_coalesced() {
    // A second resolve for the same key while one is outstanding issues no
    // second wire request.
    let mut r = Resolver::new();
    assert_eq!(r.resolve(&http_key("a")), ResolveRequest::Issued);
    assert_eq!(r.resolve(&http_key("a")), ResolveRequest::Coalesced);
    assert_eq!(r.pending.len(), 1);
    assert_eq!(r.resolve(&http_key("b")), ResolveRequest::Issued);
    assert_eq!(r.pending.len(), 2);
}

#[test]
fn coalesced_request_shares_one_completion() {
    let mut r = Resolver::new();
    r.resolve(&http_key("a"));
    r.resolve(&http_key("a"));
    let out = r.complete(http_key("a"), Ok(resolved("box.local")));
    match out {
        Some(DiscoveryEvent::ResolveCompleted { key, outcome }) => {
            assert_eq!(key.name, "a");
            assert_eq!(outcome.unwrap().host, "box.local");
        }
        _ => panic!("expected one completion"),
    }
    // Nothing left in flight: the one completion answered both requesters.
    assert_eq!(r.pending.len(), 0);
    let again = r.complete(http_key("a"), Ok(resolved("box.local")));
    assert!(again.is_none());
}

#[test]
fn removal_cancels_with_instance_gone() {
    // resolve(a), then the instance vanishes: exactly one completion, and it
    // carries InstanceGone.
    let mut r = Resolver::new();
    r.resolve(&http_key("a"));
    let out = r.cancel_removed(http_key("a"));
    match out {
        Some(DiscoveryEvent::ResolveCompleted { key, outcome }) => {
            assert_eq!(key.name, "a");
            assert_eq!(outcome.unwrap_err(), ResolveError::InstanceGone);
        }
        _ => panic!("expected a cancellation completion"),
    }
    // A late responder answer for the cancelled key is dropped: no stale Ok.
    let late = r.complete(http_key("a"), Ok(resolved("stale.local")));
    assert!(late.is_none());
}

#[test]
fn cancel_of_unknown_key_is_silent() {
    let mut r = Resolver::new();
    let out = r.cancel_removed(http_key("never-requested"));
    assert!(out.is_none());
}

#[test]
fn timeout_is_an_ordinary_failure_completion() {
    let mut r = Resolver::new();
    r.resolve(&http_key("slow"));
    let out = r.complete(http_key("slow"), Err(ResolveError::Timeout));
    match out {
        Some(DiscoveryEvent::ResolveCompleted { outcome, .. }) => {
            assert_eq!(outcome.unwrap_err(), ResolveError::Timeout);
        }
        _ => panic!("expected a timeout completion"),
    }
    assert_eq!(r.pending.len(), 0);
}

#[test]
fn not_found_is_reported_to_the_requester() {
    let mut r = Resolver::new();
    r.resolve(&http_key("nobody"));
    let out = r.complete(http_key("nobody"), Err(ResolveError::NotFound));
    match out {
        Some(DiscoveryEvent::ResolveCompleted { outcome, .. }) => {
            assert_eq!(outcome.unwrap_err(), ResolveError::NotFound);
        }
        _ => panic!("expected a NotFound completion"),
    }
}

#[test]
fn transport_failure_is_contained_per_request() {
    let mut r = Resolver::new();
    r.resolve(&http_key("a"));
    r.resolve(&http_key("b"));
    let out = r.complete(http_key("a"), Err(ResolveError::Transport));
    match out {
        Some(DiscoveryEvent::ResolveCompleted { key, outcome }) => {
            assert_eq!(key.name, "a");
            assert_eq!(outcome.unwrap_err(), ResolveError::Transport);
        }
        _ => panic!("expected a Transport completion"),
    }
    // The other request stays in flight: the failure is per-request.
    assert_eq!(r.pending.len(), 1);
    assert_eq!(r.pending[0].name, "b");
}

#[test]
fn cancel_all_invalidates_silently() {
    let mut r = Resolver::new();
    r.resolve(&http_key("a"));
    r.resolve(&http_key("b"));
    r.cancel_all();
    assert_eq!(r.pending.len(), 0);
    assert!(r.complete(http_key("a"), Err(ResolveError::NotFound)).is_none());
}

#[test]
fn resolved_service_deduplicates_txt_keys() {
    let txt = vec![
        TxtEntry { key: "path".to_string(), value: "/".to_string() },
        TxtEntry { key: "path".to_string(), value: "/admin".to_string() },
        TxtEntry { key: "ver".to_string(), value: "2".to_string() },
    ];
    let r = ResolvedService::new(
        "box.local".to_string(),
        "192.168.1.9".to_string(),
        80,
        "local".to_string(),
        txt,
    );
    assert_eq!(r.txt.len(), 2);
    assert_eq!(r.txt_value(&"path".to_string()), Some(&"/".to_string()));
    assert_eq!(r.txt_value(&"ver".to_string()), Some(&"2".to_string()));
    assert_eq!(r.txt_value(&"missing".to_string()), None);
}

#[test]
fn key_equality_is_exact_component_match() {
    let a = http_key("printer");
    let b = http_key("printer");
    assert!(a.key_eq(&b));
    let c = ServiceKey::new(
        "printer".to_string(),
        "_http._tcp".to_string(),
        "local".to_string(),
        2,
        -1,
    );
    assert!(!a.key_eq(&c));
    let d = ServiceKey::new(
        "Printer".to_string(),
        "_http._tcp".to_string(),
        "local".to_string(),
        -1,
        -1,
    );
    assert!(!a.key_eq(&d));
    assert!(a.key_eq(&a.duplicate()));
}
