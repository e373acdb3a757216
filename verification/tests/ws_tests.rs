use boring_proxy::websocket_handler::{
    client_to_upstream, code_from_u16, code_to_u16, create_websocket_response, redirect_target,
    upstream_to_client, ClientMessage, CloseFrameData, UpstreamMessage, WsCloseCode,
};

#[test]
fn close_codes_translate_over_the_standard_set() {
    assert_eq!(code_from_u16(1000), WsCloseCode::Normal);
    assert_eq!(code_from_u16(1001), WsCloseCode::Away);
    assert_eq!(code_from_u16(1011), WsCloseCode::Error);
    assert_eq!(code_to_u16(WsCloseCode::Again), 1013);
    for x in [1000u16, 1001, 1002, 1003, 1005, 1006, 1007, 1008, 1009, 1010, 1011, 1012, 1013] {
        assert_eq!(code_to_u16(code_from_u16(x)), x);
    }
}

#[test]
fn unknown_close_codes_fold_to_normal() {
    assert_eq!(code_from_u16(1004), WsCloseCode::Normal);
    assert_eq!(code_from_u16(4000), WsCloseCode::Normal);
}

#[test]
fn text_messages_round_trip() {
    let out = client_to_upstream(ClientMessage::Text("ping".to_string())).unwrap();
    assert!(matches!(&out, UpstreamMessage::Text(s) if s == "ping"));
    let back = upstream_to_client(out);
    assert!(matches!(&back, ClientMessage::Text(s) if s == "ping"));
}

#[test]
fn binary_ping_pong_round_trip() {
    let out = client_to_upstream(ClientMessage::Binary(vec![1, 2, 3])).unwrap();
    assert!(matches!(&out, UpstreamMessage::Binary(d) if d == &vec![1, 2, 3]));
    let back = upstream_to_client(out);
    assert!(matches!(&back, ClientMessage::Binary(d) if d == &vec![1, 2, 3]));

    let ping = client_to_upstream(ClientMessage::Ping(vec![9])).unwrap();
    assert!(matches!(&ping, UpstreamMessage::Ping(d) if d == &vec![9]));
    let pong = client_to_upstream(ClientMessage::Pong(vec![8])).unwrap();
    assert!(matches!(&pong, UpstreamMessage::Pong(d) if d == &vec![8]));
}

#[test]
fn graceful_close_round_trips() {
    let close = ClientMessage::Close(Some(CloseFrameData {
        code: 1000,
        reason: "bye".to_string(),
    }));
    let out = client_to_upstream(close).unwrap();
    assert!(matches!(
        &out,
        UpstreamMessage::Close { code: WsCloseCode::Normal, reason: Some(r) } if r == "bye"
    ));
    let back = upstream_to_client(out);
    match back {
        ClientMessage::Close(Some(frame)) => {
            assert_eq!(frame.code, 1000);
            assert_eq!(frame.reason, "bye");
        }
        other => panic!("unexpected translation: {:?}", other),
    }
}

#[test]
fn close_without_frame_becomes_normal() {
    let out = client_to_upstream(ClientMessage::Close(None)).unwrap();
    assert!(matches!(&out, UpstreamMessage::Close { code: WsCloseCode::Normal, reason: None }));
}

#[test]
fn raw_frames_are_dropped() {
    assert!(client_to_upstream(ClientMessage::Frame(vec![0])).is_none());
}

#[test]
fn upgrade_response_switches_protocols() {
    let r = create_websocket_response();
    assert_eq!(r.status, 101);
    assert_eq!(
        r.headers,
        vec![
            ("connection".to_string(), "upgrade".to_string()),
            ("upgrade".to_string(), "websocket".to_string())
        ]
    );
}

#[test]
fn ws_header_filter_keeps_the_handshake() {
    let headers = vec![
        ("User-Agent".to_string(), "X".to_string()),
        ("Sec-WebSocket-Key".to_string(), "k".to_string()),
        ("Sec-WebSocket-Version".to_string(), "13".to_string()),
        ("Sec-Fetch-Mode".to_string(), "websocket".to_string()),
        ("X-Custom".to_string(), "w".to_string()),
    ];
    let kept = boring_proxy::headers::filter_ws_headers(&headers);
    assert_eq!(
        kept,
        vec![
            ("Sec-WebSocket-Key".to_string(), "k".to_string()),
            ("Sec-WebSocket-Version".to_string(), "13".to_string()),
            ("X-Custom".to_string(), "w".to_string())
        ]
    );
}

#[test]
fn websocket_upgrades_are_planned_with_their_handshake() {
    let handler = boring_proxy::http_handler::HttpHandler::new(
        boring_proxy::session_manager::SessionManager::new(),
    );
    let req = boring_proxy::request_parser::Request {
        method: "GET".to_string(),
        path: "echo.test/chat".to_string(),
        headers: vec![
            ("Sec-WebSocket-Key".to_string(), "dGhlIHNhbXBsZQ==".to_string()),
            ("Sec-WebSocket-Version".to_string(), "13".to_string()),
        ],
        body: None,
        is_websocket: true,
    };
    let plan = handler.plan_websocket(&req).unwrap();
    assert_eq!(plan.url, "ws://echo.test/chat");
    assert_eq!(plan.host, "echo.test");
    assert_eq!(plan.context.key, "dGhlIHNhbXBsZQ==");
    assert_eq!(plan.context.version, "13");
    assert!(plan.context.protocols.is_empty());

    let missing = boring_proxy::request_parser::Request {
        method: "GET".to_string(),
        path: "echo.test/chat".to_string(),
        headers: vec![],
        body: None,
        is_websocket: false,
    };
    assert!(matches!(
        handler.plan_websocket(&missing).unwrap_err(),
        boring_proxy::types::ProxyError::MissingWebSocketHeaders
    ));
}

#[test]
fn websocket_follows_upstream_redirects() {
    let requested = "https://a.test/ws".to_string();
    let (target, moved) = redirect_target(&requested, "https://b.test/ws".to_string());
    assert_eq!(target, "https://b.test/ws");
    assert!(moved);
    let (same, unmoved) = redirect_target(&requested, "https://a.test/ws".to_string());
    assert_eq!(same, requested);
    assert!(!unmoved);
}
