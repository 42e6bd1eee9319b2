use servicing::dispatcher::Dispatcher;
use servicing::endpoint::extract_endpoint;
use servicing::error::ServicingError;
use servicing::probe::reports_not_ready;

#[test]
fn endpoint_extraction_finds_the_token() {
    let mut dis = Dispatcher::new();
    dis.add_service("svc".to_string(), None).unwrap();
    dis.up("svc".to_string(), "... 10.0.0.5:8080 ...").unwrap();
    assert_eq!(dis.get_url("svc".to_string()).unwrap(), "10.0.0.5:8080");
}

#[test]
fn endpoint_extraction_fails_without_a_token() {
    let mut dis = Dispatcher::new();
    dis.add_service("svc".to_string(), None).unwrap();
    let r = dis.up("svc".to_string(), "no address has been assigned yet");
    assert_eq!(r, Err(ServicingError::EndpointNotFound("svc".to_string())));
    // the failed launch left the record configured, so a retry is possible
    assert!(dis.up("svc".to_string(), "now at 10.0.0.9:80").is_ok());
}

#[test]
fn extract_endpoint_picks_the_first_token() {
    let out = "replica one 10.0.0.1:8080 replica two 10.0.0.2:9090";
    assert_eq!(extract_endpoint(out).as_deref(), Some("10.0.0.1:8080"));
}

#[test]
fn extract_endpoint_respects_token_boundaries() {
    // a word character before the address breaks the boundary
    assert_eq!(extract_endpoint("x10.0.0.5:8080"), None);
    // a word character after the port does too
    assert_eq!(extract_endpoint("10.0.0.5:8080x"), None);
    // an overlong octet never matches
    assert_eq!(extract_endpoint("1234.5.6.7:80"), None);
    // punctuation around the token is fine
    assert_eq!(
        extract_endpoint("(10.0.0.5:8080)").as_deref(),
        Some("10.0.0.5:8080")
    );
    // the token may span the whole text
    assert_eq!(
        extract_endpoint("192.168.10.20:65535").as_deref(),
        Some("192.168.10.20:65535")
    );
    // too few octets never match
    assert_eq!(extract_endpoint("10.0.5:8080"), None);
    // a missing port never matches
    assert_eq!(extract_endpoint("10.0.0.5: 8080"), None);
}

#[test]
fn probe_marker_is_found_case_insensitively() {
    assert!(reports_not_ready("status: No READY Replicas so far"));
    assert!(reports_not_ready("no ready replicas"));
    assert!(!reports_not_ready("2 ready replicas"));
    assert!(!reports_not_ready(""));
    assert!(!reports_not_ready("no ready replica"));
}
