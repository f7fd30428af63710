use call_graph_generator::config::LspConfig;
use call_graph_generator::lsp::{encode_frame, parse_content_length, LspClient, SessionState};
use call_graph_generator::CallGraphError;

fn default_client() -> LspClient {
    LspClient::new(&LspConfig::default())
}

#[test]
fn test_lsp_client_creation_placeholder() {
    let client = default_client();
    assert_eq!(client.pending_count(), 0);
    assert_eq!(client.timeout_ms, 30_000);
    assert_eq!(client.state, SessionState::NotInitialized);
}

#[test]
fn test_initialize_without_call_hierarchy_fails() {
    // the capability response omits call-hierarchy support: the session
    // fails with a capability error and no request can be issued
    let mut client = default_client();
    let err = client.initialize(true, false).unwrap_err();
    match err {
        CallGraphError::CapabilityError(m) => assert!(m.contains("call hierarchy")),
        other => panic!("unexpected error {other:?}"),
    }
    assert_eq!(client.state, SessionState::NotInitialized);
    assert_eq!(
        client.register_request(0).unwrap_err(),
        CallGraphError::NotInitializedError
    );
}

#[test]
fn test_initialize_without_document_symbols_fails() {
    let mut client = default_client();
    let err = client.initialize(false, true).unwrap_err();
    match err {
        CallGraphError::CapabilityError(m) => assert!(m.contains("document symbols")),
        other => panic!("unexpected error {other:?}"),
    }
}

#[test]
fn test_request_ids_unique_and_completed_by_id() {
    let mut client = default_client();
    client.initialize(true, true).unwrap();
    assert_eq!(client.state, SessionState::Ready);
    let a = client.register_request(1_000).unwrap();
    let b = client.register_request(2_000).unwrap();
    assert_ne!(a, b);
    assert_eq!(client.pending_count(), 2);
    assert!(client.complete_request(a));
    assert!(!client.complete_request(a));
    assert_eq!(client.pending_count(), 1);
    assert!(client.complete_request(b));
    assert_eq!(client.pending_count(), 0);
}

#[test]
fn test_request_timeout_expires_only_that_request() {
    let mut client = default_client();
    client.initialize(true, true).unwrap();
    let a = client.register_request(0).unwrap();
    let b = client.register_request(25_000).unwrap();
    // at 30s only the first deadline (0 + 30_000) has passed
    assert_eq!(client.expire_next(30_000), Some(a));
    assert_eq!(client.expire_next(30_000), None);
    assert_eq!(client.pending_count(), 1);
    // a late response for the expired id finds nothing to match
    assert!(!client.complete_request(a));
    assert!(client.complete_request(b));
}

#[test]
fn test_shutdown_fails_outstanding_requests() {
    let mut client = default_client();
    client.initialize(true, true).unwrap();
    let a = client.register_request(0).unwrap();
    let b = client.register_request(0).unwrap();
    let failed = client.shutdown();
    assert_eq!(failed, vec![a, b]);
    assert_eq!(client.pending_count(), 0);
    assert_eq!(
        client.register_request(0).unwrap_err(),
        CallGraphError::ShutdownError
    );
}

#[test]
fn test_frame_encoding() {
    let frame = encode_frame("{\"jsonrpc\":\"2.0\"}");
    assert_eq!(frame, "Content-Length: 17\r\n\r\n{\"jsonrpc\":\"2.0\"}");
    assert_eq!(encode_frame(""), "Content-Length: 0\r\n\r\n");
}

#[test]
fn test_parse_content_length_header() {
    assert_eq!(parse_content_length(b"Content-Length: 123"), Some(123));
    assert_eq!(parse_content_length(b"Content-Length:8"), Some(8));
    assert_eq!(parse_content_length(b"Content-Length:   42  "), Some(42));
    assert_eq!(parse_content_length(b"Content-Type: utf-8"), None);
    assert_eq!(parse_content_length(b"Content-Length: "), None);
    assert_eq!(parse_content_length(b"Content-Length: 12a"), None);
    assert_eq!(parse_content_length(b""), None);
}
