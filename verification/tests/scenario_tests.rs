use boring_proxy::cert_manager::{CertManager, CertName, LeafMaterial, RootMaterial};
use boring_proxy::headers::is_websocket_upgrade;
use boring_proxy::http_handler::serialize_response;
use boring_proxy::proxy::{
    authority_host, build_forward_plan, effective_url, marshal_response, plan_inner_request,
    route_request, tunnel_step, InnerAction, RoutePlan, TunnelEvent, TunnelState,
};
use boring_proxy::request_parser::parse_request;
use boring_proxy::session_manager::SessionManager;
use boring_proxy::tls_handler::{connect_url, TlsHandler};
use boring_proxy::types::{HttpMethod, ProxyError};

fn hdr(name: &str, value: &str) -> (String, String) {
    (name.to_string(), value.to_string())
}

fn test_root() -> RootMaterial {
    RootMaterial {
        cert_der: vec![0xca],
        cert_pem: "PEM".to_string(),
        subject: CertName {
            common_name: "<BORING-PROXY CA>".to_string(),
            organization: "Boring Proxy".to_string(),
        },
    }
}

#[test]
fn connect_interception_walks_the_state_machine() {
    let s = TunnelState::Idle;
    let s = tunnel_step(s, TunnelEvent::ConnectReceived);
    assert_eq!(s, TunnelState::MintingCert);
    let s = tunnel_step(s, TunnelEvent::MintSucceeded);
    assert_eq!(s, TunnelState::TlsHandshake);
    let s = tunnel_step(s, TunnelEvent::HandshakeSucceeded);
    assert_eq!(s, TunnelState::Serving);
    let s = tunnel_step(s, TunnelEvent::ConnectionClosed);
    assert_eq!(s, TunnelState::Closed);
    let still = tunnel_step(s, TunnelEvent::ConnectReceived);
    assert_eq!(still, TunnelState::Closed);
}

#[test]
fn failed_mint_or_handshake_closes_with_error() {
    let s = tunnel_step(TunnelState::MintingCert, TunnelEvent::MintFailed);
    assert_eq!(s, TunnelState::ErrorClose);
    let s = tunnel_step(TunnelState::TlsHandshake, TunnelEvent::HandshakeFailed);
    assert_eq!(s, TunnelState::ErrorClose);
    assert_eq!(tunnel_step(s, TunnelEvent::ConnectReceived), TunnelState::ErrorClose);
}

#[test]
fn upgrade_detection_moves_the_tunnel_to_the_bridge() {
    let s = tunnel_step(TunnelState::Serving, TunnelEvent::UpgradeDetected);
    assert_eq!(s, TunnelState::WsBridge);
    assert_eq!(tunnel_step(s, TunnelEvent::ConnectionClosed), TunnelState::Closed);
}

#[test]
fn s1_connect_and_forward() {
    // The CONNECT names the host.
    let plan = route_request(
        &"CONNECT".to_string(),
        &Some("example.test:443".to_string()),
    )
    .unwrap();
    let host = match plan {
        RoutePlan::ConnectTunnel { host } => host,
        RoutePlan::DirectForward { .. } => panic!("CONNECT must open a tunnel"),
    };
    assert_eq!(host, "example.test");

    // The decrypted inner request is parsed and forwarded as HTTPS.
    let inner = parse_request(b"GET / HTTP/1.1\r\nHost: example.test\r\n\r\n").unwrap();
    let url = effective_url(&None, &None, &host, &inner.path);
    assert_eq!(url, "https://example.test/");
    let out = build_forward_plan(&inner.method, url, &inner.headers, Vec::new());
    assert_eq!(out.method, HttpMethod::Get);
    // No client User-Agent reaches the upstream; Host is regenerated.
    assert!(out.headers.iter().all(|h| h.0 != "User-Agent" && h.0 != "Host"));

    // The upstream response is returned verbatim but for the status line.
    let (head, body) = marshal_response(
        200,
        vec![hdr("Content-Length", "2")],
        b"hi".to_vec(),
    );
    assert_eq!(head.status, 200);
    assert_eq!(head.headers, vec![hdr("Content-Length", "2")]);
    let bytes = serialize_response(head.status, &head.headers, &body);
    assert_eq!(bytes, b"HTTP/1.1 200 OK\r\nContent-Length: 2\r\n\r\nhi".to_vec());
}

#[test]
fn s2_plain_http_passes_status_through() {
    let plan = route_request(&"GET".to_string(), &Some("plain.test".to_string())).unwrap();
    match plan {
        RoutePlan::DirectForward { host } => assert_eq!(host, "plain.test"),
        RoutePlan::ConnectTunnel { .. } => panic!("plain requests forward directly"),
    }
    let (head, body) = marshal_response(404, vec![], Vec::new());
    let bytes = serialize_response(head.status, &head.headers, &body);
    assert_eq!(bytes, b"HTTP/1.1 404 Not Found\r\n\r\n".to_vec());
}

#[test]
fn s3_websocket_upgrade_is_detected_inside_the_tunnel() {
    let headers = vec![
        hdr("Upgrade", "websocket"),
        hdr("Connection", "Upgrade"),
        hdr("Sec-WebSocket-Key", "dGhlIHNhbXBsZQ=="),
        hdr("Sec-WebSocket-Version", "13"),
    ];
    assert!(is_websocket_upgrade(&headers));
    let s = tunnel_step(TunnelState::Serving, TunnelEvent::UpgradeDetected);
    assert_eq!(s, TunnelState::WsBridge);
}

#[test]
fn s4_missing_authority_is_refused() {
    let e = route_request(&"CONNECT".to_string(), &None).unwrap_err();
    assert!(matches!(e, ProxyError::NoAuthority));
    assert_eq!(e.message(), "no authority in request");
}

#[test]
fn s5_rotation_with_cookie_continuity() {
    let mut sessions = SessionManager::new();
    let host = "h.test".to_string();
    let first = sessions.get_or_create_session_with(&host, 0, 2);
    let second = sessions.get_or_create_session_with(&host, 1, 40);
    assert_ne!(first.profile, second.profile);
    assert_eq!(first.jar, second.jar);
}

#[test]
fn s6_concurrent_mints_converge_to_one_entry() {
    let mut mgr = CertManager::new(test_root());
    let host = "x.test".to_string();
    let mut chains = Vec::new();
    for i in 0..32u8 {
        let m = LeafMaterial { leaf_der: vec![i, i], key_der: vec![i] };
        let (chain, _) = mgr.get_or_create_cert(&host, 0, m);
        chains.push(chain);
    }
    for chain in &chains {
        assert_eq!(chain, &chains[0]);
    }
}

#[test]
fn inner_requests_dispatch_on_the_handshake() {
    let upgrade_headers = vec![
        hdr("Upgrade", "websocket"),
        hdr("Connection", "Upgrade"),
        hdr("Sec-WebSocket-Key", "dGhlIHNhbXBsZQ=="),
        hdr("Sec-WebSocket-Version", "13"),
    ];
    let action = plan_inner_request(
        &"GET".to_string(),
        &None,
        &None,
        &"example.test".to_string(),
        &"/chat".to_string(),
        &upgrade_headers,
        Vec::new(),
    );
    match action {
        InnerAction::UpgradeWebSocket { response } => {
            assert_eq!(response.status, 101);
            assert_eq!(
                response.headers,
                vec![hdr("connection", "upgrade"), hdr("upgrade", "websocket")]
            );
        }
        InnerAction::Forward { .. } => panic!("a full handshake must upgrade"),
    }

    let plain_headers = vec![hdr("X-A", "1"), hdr("User-Agent", "x")];
    let action = plan_inner_request(
        &"POST".to_string(),
        &None,
        &None,
        &"example.test".to_string(),
        &"/submit".to_string(),
        &plain_headers,
        b"ab".to_vec(),
    );
    match action {
        InnerAction::Forward { plan } => {
            assert_eq!(plan.url, "https://example.test/submit");
            assert_eq!(plan.method, HttpMethod::Post);
            assert_eq!(plan.headers, vec![hdr("X-A", "1"), hdr("content-length", "2")]);
            assert_eq!(plan.body.as_deref(), Some(b"ab".as_slice()));
        }
        InnerAction::UpgradeWebSocket { .. } => panic!("no handshake, no upgrade"),
    }
}

#[test]
fn authorities_keep_ipv6_brackets() {
    assert_eq!(authority_host(&"example.test:443".to_string()), "example.test");
    assert_eq!(authority_host(&"[::1]:443".to_string()), "[::1]");
    assert_eq!(authority_host(&"plain.test".to_string()), "plain.test");
}

#[test]
fn forward_plan_sets_content_length_for_bodies() {
    let plan = build_forward_plan(
        &"POST".to_string(),
        "https://example.test/".to_string(),
        &vec![hdr("X-A", "1")],
        b"abc".to_vec(),
    );
    assert_eq!(plan.headers.last().unwrap(), &hdr("content-length", "3"));
    assert_eq!(plan.body.as_deref(), Some(b"abc".as_slice()));
    let empty = build_forward_plan(
        &"GET".to_string(),
        "https://example.test/".to_string(),
        &vec![],
        Vec::new(),
    );
    assert!(empty.body.is_none());
    assert!(empty.headers.is_empty());
}

#[test]
fn tunnelled_requests_forward_as_https() {
    assert_eq!(
        connect_url(&"example.test".to_string(), &"/a?b=c".to_string()),
        "https://example.test/a?b=c"
    );
}

#[test]
fn tls_handler_parses_decrypted_heads() {
    let handler = TlsHandler::new(CertManager::new(test_root()));
    assert_eq!(handler.profile, 0);
    let (method, path) = handler
        .parse_request(b"POST /x HTTP/1.1\r\n\r\npayload")
        .unwrap();
    assert_eq!(method, "POST");
    assert_eq!(path, "/x");
    assert_eq!(
        handler.get_request_body(b"POST /x HTTP/1.1\r\n\r\npayload").as_deref(),
        Some("payload")
    );
}

#[test]
fn tls_config_rejects_garbage_material() {
    let mut handler = TlsHandler::new(CertManager::new(test_root()));
    let result = handler.inbound_tls_config(
        &"x.test".to_string(),
        0,
        LeafMaterial { leaf_der: vec![0], key_der: vec![0] },
    );
    assert!(matches!(result.unwrap_err(), ProxyError::TlsConfigRejected));
}
