use multicast_dns::connection::ConnectionState;
use multicast_dns::connection::HandshakeOutcome;
use multicast_dns::connection::ResponderConnection;
use multicast_dns::keys::ServiceDescription;
use multicast_dns::service_type::check_service_type;

#[test]
fn common_service_types_are_accepted() {
    assert!(check_service_type("_http._tcp"));
    assert!(check_service_type("_ipp._tcp"));
    assert!(check_service_type("_googlecast._tcp"));
    assert!(check_service_type("_sleep-proxy._udp"));
    assert!(check_service_type("_a._tcp"));
}

#[test]
fn malformed_service_types_are_rejected() {
    assert!(!check_service_type(""));
    assert!(!check_service_type("http"));
    assert!(!check_service_type("http._tcp"));
    assert!(!check_service_type("_http_tcp"));
    assert!(!check_service_type("_http._ucp"));
    assert!(!check_service_type("_._tcp"));
    assert!(!check_service_type("_http._tcpx"));
    assert!(!check_service_type("_http.tcp"));
    assert!(!check_service_type("_much-too-long-a-name._tcp"));
    assert!(!check_service_type("_sp\u{e9}cial._tcp"));
}

#[test]
fn open_reports_running_or_the_diagnostic() {
    let ok = ResponderConnection::open(HandshakeOutcome::Established).unwrap();
    assert_eq!(ok.current_state(), ConnectionState::Running);
    let err = ResponderConnection::open(HandshakeOutcome::Rejected {
        diagnostic: "permission denied".to_string(),
    })
    .unwrap_err();
    assert_eq!(err.reason, "permission denied");
}

#[test]
fn failed_connection_is_terminal() {
    let mut c = ResponderConnection::open(HandshakeOutcome::Established).unwrap();
    c.fail("protocol error".to_string());
    assert_eq!(c.current_state(), ConnectionState::Failed);
    c.close();
    assert_eq!(c.current_state(), ConnectionState::Failed);
    assert_eq!(c.failure.as_deref(), Some("protocol error"));
}

#[test]
fn close_is_idempotent() {
    let mut c = ResponderConnection::open(HandshakeOutcome::Established).unwrap();
    c.close();
    c.close();
    assert_eq!(c.current_state(), ConnectionState::Closed);
    assert!(c.failure.is_none());
}

#[test]
fn service_description_keeps_the_raw_fields() {
    let d = ServiceDescription::new(
        "printer1".to_string(),
        "_http._tcp".to_string(),
        "local".to_string(),
    );
    assert_eq!(d.name, "printer1");
    assert_eq!(d.service_type, "_http._tcp");
    assert_eq!(d.domain, "local");
}
