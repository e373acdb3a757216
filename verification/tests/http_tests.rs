use boring_proxy::headers::{
    contains_ignore_case, eq_ignore_case, filter_request_headers, header_get, header_get_ci,
    is_forwardable_header, is_hop_by_hop_header, is_websocket_upgrade, is_ws_forwardable_header,
    starts_with_ignore_case, str_starts_with,
};
use boring_proxy::http_handler::{
    bad_gateway_response, connect_established_response, host_of_url, serialize_response,
    serialize_response_head, HttpHandler, WebSocketContext,
};
use boring_proxy::request_parser::{get_request_body, parse_request, Request};
use boring_proxy::session_manager::SessionManager;
use boring_proxy::types::{
    format_log_line, method_from_name, u64_to_dec, HttpMethod, ProxyError,
};

fn hdr(name: &str, value: &str) -> (String, String) {
    (name.to_string(), value.to_string())
}

#[test]
fn decimal_rendering_is_exact() {
    assert_eq!(u64_to_dec(0), "0");
    assert_eq!(u64_to_dec(8192), "8192");
    assert_eq!(u64_to_dec(18446744073709551615), "18446744073709551615");
}

#[test]
fn log_lines_carry_timestamp_tag_and_message() {
    assert_eq!(format_log_line(1234, "CERT", "hello"), "[1234][CERT] hello");
}

#[test]
fn error_messages_name_the_failure() {
    assert_eq!(ProxyError::NoAuthority.message(), "no authority in request");
    assert_eq!(ProxyError::IncompleteRequest.message(), "incomplete request");
    assert_eq!(ProxyError::TlsConfigRejected.message(), "tls configuration rejected");
}

#[test]
fn case_insensitive_comparison() {
    assert!(eq_ignore_case("WebSocket", "websocket"));
    assert!(!eq_ignore_case("WebSockets", "websocket"));
    assert!(contains_ignore_case("keep-alive, Upgrade", "upgrade"));
    assert!(!contains_ignore_case("keep-alive", "upgrade"));
    assert!(starts_with_ignore_case("Sec-WebSocket-Key", "sec-"));
    assert!(!starts_with_ignore_case("X-Sec", "sec-"));
    assert!(str_starts_with("http://x", "http://"));
    assert!(!str_starts_with("https://x", "http://"));
}

#[test]
fn profile_owned_headers_are_not_forwardable() {
    assert!(is_forwardable_header("X-Custom"));
    assert!(is_forwardable_header("X-Accept"));
    assert!(is_forwardable_header("Connection"));
    assert!(!is_forwardable_header("User-Agent"));
    assert!(!is_forwardable_header("Accept"));
    assert!(!is_forwardable_header("Accept-Encoding"));
    assert!(!is_forwardable_header("Accept-Language"));
    assert!(!is_forwardable_header("Host"));
    assert!(!is_forwardable_header("Sec-Foo"));
    assert!(is_ws_forwardable_header("Sec-WebSocket-Key"));
    assert!(is_ws_forwardable_header("Sec-WebSocket-Version"));
    assert!(is_ws_forwardable_header("Sec-WebSocket-Protocol"));
    assert!(!is_ws_forwardable_header("Sec-Fetch-Mode"));
    assert!(!is_ws_forwardable_header("User-Agent"));
}

#[test]
fn header_filtering_keeps_custom_headers_only() {
    let headers = vec![
        hdr("User-Agent", "X"),
        hdr("Accept", "Y"),
        hdr("Sec-Foo", "Z"),
        hdr("X-Custom", "W"),
    ];
    let kept = filter_request_headers(&headers);
    assert_eq!(kept, vec![hdr("X-Custom", "W")]);
}

#[test]
fn hop_by_hop_headers_are_recognised() {
    assert!(is_hop_by_hop_header("Connection"));
    assert!(is_hop_by_hop_header("transfer-encoding"));
    assert!(!is_hop_by_hop_header("Content-Type"));
}

#[test]
fn the_filter_governs_both_forwarding_paths() {
    let headers = vec![
        hdr("Connection", "keep-alive"),
        hdr("X-Accept", "v"),
        hdr("User-Agent", "x"),
        hdr("Sec-Foo", "z"),
    ];
    let kept = filter_request_headers(&headers);
    assert_eq!(kept, vec![hdr("Connection", "keep-alive"), hdr("X-Accept", "v")]);
}

#[test]
fn exact_lookup_takes_the_last_occurrence() {
    let headers = vec![hdr("Upgrade", "h2c"), hdr("Upgrade", "websocket")];
    assert_eq!(header_get(&headers, "Upgrade").unwrap(), "websocket");
    assert!(header_get(&headers, "upgrade").is_none());
}

#[test]
fn ci_lookup_takes_the_first_occurrence() {
    let headers = vec![hdr("UPGRADE", "websocket"), hdr("upgrade", "h2c")];
    assert_eq!(header_get_ci(&headers, "Upgrade").unwrap(), "websocket");
}

#[test]
fn upgrade_detection_needs_all_four_headers() {
    let full = vec![
        hdr("Upgrade", "websocket"),
        hdr("Connection", "keep-alive, Upgrade"),
        hdr("Sec-WebSocket-Key", "dGhlIHNhbXBsZQ=="),
        hdr("Sec-WebSocket-Version", "13"),
    ];
    assert!(is_websocket_upgrade(&full));
    let missing_key: Vec<(String, String)> =
        full.iter().filter(|h| h.0 != "Sec-WebSocket-Key").cloned().collect();
    assert!(!is_websocket_upgrade(&missing_key));
}

#[test]
fn method_names_fold_to_the_outbound_set() {
    assert_eq!(method_from_name("GET"), HttpMethod::Get);
    assert_eq!(method_from_name("post"), HttpMethod::Post);
    assert_eq!(method_from_name("Put"), HttpMethod::Put);
    assert_eq!(method_from_name("DELETE"), HttpMethod::Delete);
    assert_eq!(method_from_name("PATCH"), HttpMethod::Patch);
    assert_eq!(method_from_name("OPTIONS"), HttpMethod::Get);
    assert_eq!(method_from_name("TRACE"), HttpMethod::Get);
}

#[test]
fn parse_request_reads_the_head() {
    let req = parse_request(b"GET / HTTP/1.1\r\nHost: example.test\r\n\r\n").unwrap();
    assert_eq!(req.method, "GET");
    assert_eq!(req.path, "/");
    assert_eq!(req.headers, vec![hdr("Host", "example.test")]);
    assert_eq!(req.body.as_deref(), Some(""));
    assert!(!req.is_websocket);
}

#[test]
fn parse_request_trims_header_values() {
    let req = parse_request(b"GET / HTTP/1.1\r\nX-Pad:   spaced \t\r\n\r\n").unwrap();
    assert_eq!(req.headers, vec![hdr("X-Pad", "spaced")]);
}

#[test]
fn parse_request_reports_incomplete_heads() {
    let e = parse_request(b"GET / HTTP/1.1\r\nHost: x").unwrap_err();
    assert!(matches!(e, ProxyError::IncompleteRequest));
}

#[test]
fn parse_request_reports_malformed_request_lines() {
    let e = parse_request(b"NOSPACES\r\n\r\n").unwrap_err();
    assert!(matches!(e, ProxyError::MalformedRequest));
}

#[test]
fn parse_request_skips_headers_with_invalid_utf8() {
    let mut raw = b"GET / HTTP/1.1\r\nX-Bad: ".to_vec();
    raw.push(0xff);
    raw.extend_from_slice(b"\r\nX-Good: ok\r\n\r\n");
    let req = parse_request(&raw).unwrap();
    assert_eq!(req.headers, vec![hdr("X-Good", "ok")]);
    assert!(req.body.is_none());
}

#[test]
fn parse_request_flags_websocket_upgrades() {
    let req = parse_request(
        b"GET /chat HTTP/1.1\r\nUpgrade: WebSocket\r\nConnection: Upgrade\r\n\r\n",
    )
    .unwrap();
    assert!(req.is_websocket);
    assert!(req.is_upgrade_request());
}

#[test]
fn request_body_is_the_text_after_the_blank_line() {
    assert_eq!(get_request_body(b"A: b\r\n\r\nhello").as_deref(), Some("hello"));
    assert_eq!(get_request_body(b"no blank line").as_deref(), None);
}

#[test]
fn url_hosts_are_extracted() {
    assert_eq!(host_of_url("http://plain.test/x").unwrap(), "plain.test");
    assert_eq!(host_of_url("http://h:8080/").unwrap(), "h");
    assert_eq!(host_of_url("https://a.b.c").unwrap(), "a.b.c");
    assert!(matches!(host_of_url("nourl").unwrap_err(), ProxyError::InvalidHost));
    assert!(matches!(host_of_url("http:///path").unwrap_err(), ProxyError::InvalidHost));
}

#[test]
fn plain_requests_are_planned_for_forwarding() {
    let handler = HttpHandler::new(SessionManager::new());
    let req = Request {
        method: "GET".to_string(),
        path: "http://plain.test/".to_string(),
        headers: vec![hdr("X-Token", "t"), hdr("User-Agent", "x")],
        body: None,
        is_websocket: false,
    };
    let plan = handler.plan_request(&req).unwrap();
    assert_eq!(plan.url, "http://plain.test/");
    assert_eq!(plan.host, "plain.test");
    assert_eq!(plan.method, HttpMethod::Get);
    assert_eq!(plan.headers, vec![hdr("X-Token", "t")]);
    assert!(plan.body.is_none());
}

#[test]
fn plain_requests_get_a_scheme_when_missing() {
    let handler = HttpHandler::new(SessionManager::new());
    let req = Request {
        method: "POST".to_string(),
        path: "plain.test/submit".to_string(),
        headers: vec![],
        body: Some("a=b".to_string()),
        is_websocket: false,
    };
    let plan = handler.plan_request(&req).unwrap();
    assert_eq!(plan.url, "http://plain.test/submit");
    assert_eq!(plan.method, HttpMethod::Post);
    assert_eq!(plan.body.as_deref(), Some("a=b"));
}

#[test]
fn bodies_ride_only_on_post_and_put() {
    let handler = HttpHandler::new(SessionManager::new());
    let req = Request {
        method: "GET".to_string(),
        path: "http://plain.test/".to_string(),
        headers: vec![],
        body: Some("ignored".to_string()),
        is_websocket: false,
    };
    let plan = handler.plan_request(&req).unwrap();
    assert!(plan.body.is_none());
}

#[test]
fn responses_serialize_with_exact_layout() {
    let head = serialize_response_head(200, &vec![hdr("content-length", "2")]);
    assert_eq!(head, "HTTP/1.1 200 OK\r\ncontent-length: 2\r\n\r\n");
    let full = serialize_response(200, &vec![hdr("content-length", "2")], &b"hi".to_vec());
    assert_eq!(full, b"HTTP/1.1 200 OK\r\ncontent-length: 2\r\n\r\nhi".to_vec());
}

#[test]
fn bad_gateway_carries_the_error_text() {
    let bytes = bad_gateway_response("connection refused");
    assert_eq!(bytes, b"HTTP/1.1 502 Bad Gateway\r\n\r\nconnection refused".to_vec());
}

#[test]
fn connect_tunnel_response_is_fixed() {
    assert_eq!(
        connect_established_response(),
        b"HTTP/1.1 200 Connection Established\r\n\r\n".to_vec()
    );
}

#[test]
fn websocket_context_reads_the_handshake() {
    let headers = vec![
        hdr("Sec-WebSocket-Key", "dGhlIHNhbXBsZQ=="),
        hdr("Sec-WebSocket-Version", "13"),
        hdr("Sec-WebSocket-Protocol", "chat, superchat"),
    ];
    let ctx = WebSocketContext::from_headers(&headers).unwrap();
    assert_eq!(ctx.key, "dGhlIHNhbXBsZQ==");
    assert_eq!(ctx.version, "13");
    assert_eq!(ctx.protocols, vec!["chat".to_string(), "superchat".to_string()]);
}

#[test]
fn websocket_context_needs_key_and_version() {
    let headers = vec![hdr("Sec-WebSocket-Key", "k")];
    assert!(WebSocketContext::from_headers(&headers).is_none());
}
