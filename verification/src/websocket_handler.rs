use vstd::prelude::*;

use crate::headers::hdrs_v;
use crate::types::ResponseHead;

verus! {

// ---------------------------------------------------------------------------
// Close codes
// ---------------------------------------------------------------------------

/// The standard close codes the bridge translates; every other code folds to
/// `Normal`.
#[derive(Clone, Copy, Debug, PartialEq, Eq)]
pub enum WsCloseCode {
    Normal,
    Away,
    Protocol,
    Unsupported,
    Status,
    Abnormal,
    Invalid,
    Policy,
    Size,
    Extension,
    Error,
    Restart,
    Again,
}

pub open spec fn spec_code_to_u16(c: WsCloseCode) -> u16 {
    match c {
        WsCloseCode::Normal => 1000,
        WsCloseCode::Away => 1001,
        WsCloseCode::Protocol => 1002,
        WsCloseCode::Unsupported => 1003,
        WsCloseCode::Status => 1005,
        WsCloseCode::Abnormal => 1006,
        WsCloseCode::Invalid => 1007,
        WsCloseCode::Policy => 1008,
        WsCloseCode::Size => 1009,
        WsCloseCode::Extension => 1010,
        WsCloseCode::Error => 1011,
        WsCloseCode::Restart => 1012,
        WsCloseCode::Again => 1013,
    }
}

pub open spec fn spec_is_standard_code(x: u16) -> bool {
    (1000 <= x <= 1003) || (1005 <= x <= 1013)
}

pub open spec fn spec_code_from_u16(x: u16) -> WsCloseCode {
    if x == 1000 { WsCloseCode::Normal }
    else if x == 1001 { WsCloseCode::Away }
    else if x == 1002 { WsCloseCode::Protocol }
    else if x == 1003 { WsCloseCode::Unsupported }
    else if x == 1005 { WsCloseCode::Status }
    else if x == 1006 { WsCloseCode::Abnormal }
    else if x == 1007 { WsCloseCode::Invalid }
    else if x == 1008 { WsCloseCode::Policy }
    else if x == 1009 { WsCloseCode::Size }
    else if x == 1010 { WsCloseCode::Extension }
    else if x == 1011 { WsCloseCode::Error }
    else if x == 1012 { WsCloseCode::Restart }
    else if x == 1013 { WsCloseCode::Again }
    else { WsCloseCode::Normal }
}

pub fn code_to_u16(c: WsCloseCode) -> (r: u16)
    ensures
        r == spec_code_to_u16(c),
{
    match c {
        WsCloseCode::Normal => 1000,
        WsCloseCode::Away => 1001,
        WsCloseCode::Protocol => 1002,
        WsCloseCode::Unsupported => 1003,
        WsCloseCode::Status => 1005,
        WsCloseCode::Abnormal => 1006,
        WsCloseCode::Invalid => 1007,
        WsCloseCode::Policy => 1008,
        WsCloseCode::Size => 1009,
        WsCloseCode::Extension => 1010,
        WsCloseCode::Error => 1011,
        WsCloseCode::Restart => 1012,
        WsCloseCode::Again => 1013,
    }
}

pub fn code_from_u16(x: u16) -> (r: WsCloseCode)
    ensures
        r == spec_code_from_u16(x),
{
    if x == 1000 { WsCloseCode::Normal }
    else if x == 1001 { WsCloseCode::Away }
    else if x == 1002 { WsCloseCode::Protocol }
    else if x == 1003 { WsCloseCode::Unsupported }
    else if x == 1005 { WsCloseCode::Status }
    else if x == 1006 { WsCloseCode::Abnormal }
    else if x == 1007 { WsCloseCode::Invalid }
    else if x == 1008 { WsCloseCode::Policy }
    else if x == 1009 { WsCloseCode::Size }
    else if x == 1010 { WsCloseCode::Extension }
    else if x == 1011 { WsCloseCode::Error }
    else if x == 1012 { WsCloseCode::Restart }
    else if x == 1013 { WsCloseCode::Again }
    else { WsCloseCode::Normal }
}

// ---------------------------------------------------------------------------
// Messages and their translation
// ---------------------------------------------------------------------------

/// A close frame as the client-facing (server-role) library carries it: a
/// raw code and a reason string.
#[derive(Debug, Clone)]
pub struct CloseFrameData {
    pub code: u16,
    pub reason: String,
}

/// A message on the client-facing leg.  `Frame` stands for the raw-frame
/// kind that the upstream-facing library has no counterpart for.
#[derive(Debug, Clone)]
pub enum ClientMessage {
    Text(String),
    Binary(Vec<u8>),
    Ping(Vec<u8>),
    Pong(Vec<u8>),
    Close(Option<CloseFrameData>),
    Frame(Vec<u8>),
}

/// A message on the upstream-facing leg.
#[derive(Debug, Clone)]
pub enum UpstreamMessage {
    Text(String),
    Binary(Vec<u8>),
    Ping(Vec<u8>),
    Pong(Vec<u8>),
    Close { code: WsCloseCode, reason: Option<String> },
}

/// Mathematical image of a client-leg message.
pub enum ClientMsgV {
    Text(Seq<char>),
    Binary(Seq<u8>),
    Ping(Seq<u8>),
    Pong(Seq<u8>),
    Close(Option<(u16, Seq<char>)>),
    Frame(Seq<u8>),
}

/// Mathematical image of an upstream-leg message.
pub enum UpstreamMsgV {
    Text(Seq<char>),
    Binary(Seq<u8>),
    Ping(Seq<u8>),
    Pong(Seq<u8>),
    Close(WsCloseCode, Option<Seq<char>>),
}

pub open spec fn client_msg_v(m: ClientMessage) -> ClientMsgV {
    match m {
        ClientMessage::Text(s) => ClientMsgV::Text(s@),
        ClientMessage::Binary(d) => ClientMsgV::Binary(d@),
        ClientMessage::Ping(d) => ClientMsgV::Ping(d@),
        ClientMessage::Pong(d) => ClientMsgV::Pong(d@),
        ClientMessage::Close(f) => ClientMsgV::Close(
            match f {
                Option::Some(fr) => Option::Some((fr.code, fr.reason@)),
                Option::None => Option::None,
            },
        ),
        ClientMessage::Frame(d) => ClientMsgV::Frame(d@),
    }
}

pub open spec fn upstream_msg_v(m: UpstreamMessage) -> UpstreamMsgV {
    match m {
        UpstreamMessage::Text(s) => UpstreamMsgV::Text(s@),
        UpstreamMessage::Binary(d) => UpstreamMsgV::Binary(d@),
        UpstreamMessage::Ping(d) => UpstreamMsgV::Ping(d@),
        UpstreamMessage::Pong(d) => UpstreamMsgV::Pong(d@),
        UpstreamMessage::Close { code, reason } => UpstreamMsgV::Close(
            code,
            match reason {
                Option::Some(s) => Option::Some(s@),
                Option::None => Option::None,
            },
        ),
    }
}

/// Client-to-upstream translation: the message kinds map one to one, a
/// missing close frame becomes a Normal close, unknown close codes fold to
/// Normal, and the raw-frame kind is dropped.
pub open spec fn spec_client_to_upstream(m: ClientMsgV) -> Option<UpstreamMsgV> {
    match m {
        ClientMsgV::Text(s) => Option::Some(UpstreamMsgV::Text(s)),
        ClientMsgV::Binary(d) => Option::Some(UpstreamMsgV::Binary(d)),
        ClientMsgV::Ping(d) => Option::Some(UpstreamMsgV::Ping(d)),
        ClientMsgV::Pong(d) => Option::Some(UpstreamMsgV::Pong(d)),
        ClientMsgV::Close(Option::Some((code, reason))) => Option::Some(
            UpstreamMsgV::Close(spec_code_from_u16(code), Option::Some(reason)),
        ),
        ClientMsgV::Close(Option::None) => Option::Some(
            UpstreamMsgV::Close(WsCloseCode::Normal, Option::None),
        ),
        ClientMsgV::Frame(_) => Option::None,
    }
}

/// Upstream-to-client translation: total; a missing close reason becomes the
/// empty string.
pub open spec fn spec_upstream_to_client(m: UpstreamMsgV) -> ClientMsgV {
    match m {
        UpstreamMsgV::Text(s) => ClientMsgV::Text(s),
        UpstreamMsgV::Binary(d) => ClientMsgV::Binary(d),
        UpstreamMsgV::Ping(d) => ClientMsgV::Ping(d),
        UpstreamMsgV::Pong(d) => ClientMsgV::Pong(d),
        UpstreamMsgV::Close(code, Option::Some(reason)) => ClientMsgV::Close(
            Option::Some((spec_code_to_u16(code), reason)),
        ),
        UpstreamMsgV::Close(code, Option::None) => ClientMsgV::Close(
            Option::Some((spec_code_to_u16(code), Seq::empty())),
        ),
    }
}

/// Translates one message read from the client toward the upstream; `None`
/// is a dropped raw frame.
pub fn client_to_upstream(m: ClientMessage) -> (r: Option<UpstreamMessage>)
    ensures
        match r {
            Option::Some(u) => spec_client_to_upstream(client_msg_v(m)) == Option::Some(
                upstream_msg_v(u),
            ),
            Option::None => spec_client_to_upstream(client_msg_v(m)) == Option::<
                UpstreamMsgV,
            >::None,
        },
{
    match m {
        ClientMessage::Text(s) => Some(UpstreamMessage::Text(s)),
        ClientMessage::Binary(d) => Some(UpstreamMessage::Binary(d)),
        ClientMessage::Ping(d) => Some(UpstreamMessage::Ping(d)),
        ClientMessage::Pong(d) => Some(UpstreamMessage::Pong(d)),
        ClientMessage::Close(Some(frame)) => Some(
            UpstreamMessage::Close {
                code: code_from_u16(frame.code),
                reason: Some(frame.reason),
            },
        ),
        ClientMessage::Close(None) => Some(
            UpstreamMessage::Close { code: WsCloseCode::Normal, reason: None },
        ),
        ClientMessage::Frame(_) => None,
    }
}

/// Translates one message read from the upstream toward the client.
pub fn upstream_to_client(m: UpstreamMessage) -> (r: ClientMessage)
    ensures
        client_msg_v(r) == spec_upstream_to_client(upstream_msg_v(m)),
{
    match m {
        UpstreamMessage::Text(s) => ClientMessage::Text(s),
        UpstreamMessage::Binary(d) => ClientMessage::Binary(d),
        UpstreamMessage::Ping(d) => ClientMessage::Ping(d),
        UpstreamMessage::Pong(d) => ClientMessage::Pong(d),
        UpstreamMessage::Close { code, reason } => {
            let reason_text = match reason {
                Some(s) => s,
                None => String::new(),
            };
            ClientMessage::Close(
                Some(CloseFrameData { code: code_to_u16(code), reason: reason_text }),
            )
        },
    }
}

// ---------------------------------------------------------------------------
// Laws
// ---------------------------------------------------------------------------

/// Folding a standard close code to the bridge's own set and back returns
/// the code unchanged.
pub proof fn lemma_close_code_roundtrip(x: u16)
    requires
        spec_is_standard_code(x),
    ensures
        spec_code_to_u16(spec_code_from_u16(x)) == x,
{
}

/// The law of the WebSocket round trip: a Text, Binary, Ping or Pong
/// message, or a close frame with a standard code, sent through the bridge's
/// client-to-upstream translation and back, returns unchanged.
pub proof fn lemma_ws_roundtrip(m: ClientMsgV)
    requires
        match m {
            ClientMsgV::Text(_) => true,
            ClientMsgV::Binary(_) => true,
            ClientMsgV::Ping(_) => true,
            ClientMsgV::Pong(_) => true,
            ClientMsgV::Close(f) => f is Some && spec_is_standard_code((f->0).0),
            ClientMsgV::Frame(_) => false,
        },
    ensures
        spec_client_to_upstream(m) is Some,
        spec_upstream_to_client(spec_client_to_upstream(m)->Some_0) == m,
{
    match m {
        ClientMsgV::Close(f) => {
            lemma_close_code_roundtrip((f->0).0);
        },
        _ => {},
    }
}

/// Only the raw-frame kind is dropped by the bridge.
pub proof fn lemma_only_frames_dropped(m: ClientMsgV)
    ensures
        (spec_client_to_upstream(m) is None) <==> (m is Frame),
{
}

// ---------------------------------------------------------------------------
// The 101 response and redirect handling
// ---------------------------------------------------------------------------

/// The response that switches the client connection to the WebSocket
/// protocol: status 101 with `Connection: upgrade` and `Upgrade: websocket`,
/// and an empty body.
pub fn create_websocket_response() -> (r: ResponseHead)
    ensures
        r.status == 101,
        hdrs_v(r.headers@) == seq![
            ("connection"@, "upgrade"@),
            ("upgrade"@, "websocket"@),
        ],
{
    let mut headers: Vec<(String, String)> = Vec::new();
    headers.push((String::from_str("connection"), String::from_str("upgrade")));
    headers.push((String::from_str("upgrade"), String::from_str("websocket")));
    let r = ResponseHead { status: 101, headers };
    proof {
        assert(hdrs_v(r.headers@) =~= seq![
            ("connection"@, "upgrade"@),
            ("upgrade"@, "websocket"@),
        ]);
    }
    r
}

/// Before the upgrade the bridge probes the requested URL and follows the
/// upstream's redirects: the WebSocket request goes to the final URL.
pub fn redirect_target(requested: &String, final_url: String) -> (r: (String, bool))
    ensures
        r.0@ == final_url@,
        r.1 == (final_url@ != requested@),
{
    let moved = !crate::headers::str_eq(requested.as_str(), final_url.as_str());
    (final_url, moved)
}

} // verus!
