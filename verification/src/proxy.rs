use vstd::prelude::*;

use crate::cert_manager::{CertManager, LeafMaterial, RootMaterial, root_v, spec_mint, spec_mint_leaf};
use crate::headers::{
    find_char_from, find_char, hdrs_v, filter_request_headers, spec_forwardable,
    str_eq,
};
use crate::session_manager::SessionManager;
use crate::types::{HttpMethod, ProxyError, spec_method_from_name, method_from_name,
    spec_dec_digits, u64_to_dec};

verus! {

// ---------------------------------------------------------------------------
// The intercepted-tunnel state machine
// ---------------------------------------------------------------------------

/// The states one intercepted connection moves through, from the CONNECT to
/// its end.
#[derive(Clone, Copy, Debug, PartialEq, Eq)]
pub enum TunnelState {
    Idle,
    MintingCert,
    TlsHandshake,
    Serving,
    WsBridge,
    ErrorClose,
    Closed,
}

/// What can happen to an intercepted connection.
#[derive(Clone, Copy, Debug, PartialEq, Eq)]
pub enum TunnelEvent {
    ConnectReceived,
    MintSucceeded,
    MintFailed,
    HandshakeSucceeded,
    HandshakeFailed,
    UpgradeDetected,
    ConnectionClosed,
}

/// The transition relation of the tunnel: an event that a state does not
/// expect leaves it unchanged.
pub open spec fn spec_tunnel_step(s: TunnelState, e: TunnelEvent) -> TunnelState {
    match (s, e) {
        (TunnelState::Idle, TunnelEvent::ConnectReceived) => TunnelState::MintingCert,
        (TunnelState::MintingCert, TunnelEvent::MintSucceeded) => TunnelState::TlsHandshake,
        (TunnelState::MintingCert, TunnelEvent::MintFailed) => TunnelState::ErrorClose,
        (TunnelState::TlsHandshake, TunnelEvent::HandshakeSucceeded) => TunnelState::Serving,
        (TunnelState::TlsHandshake, TunnelEvent::HandshakeFailed) => TunnelState::ErrorClose,
        (TunnelState::Serving, TunnelEvent::UpgradeDetected) => TunnelState::WsBridge,
        (TunnelState::Serving, TunnelEvent::ConnectionClosed) => TunnelState::Closed,
        (TunnelState::WsBridge, TunnelEvent::ConnectionClosed) => TunnelState::Closed,
        _ => s,
    }
}

pub fn tunnel_step(s: TunnelState, e: TunnelEvent) -> (r: TunnelState)
    ensures
        r == spec_tunnel_step(s, e),
{
    match (s, e) {
        (TunnelState::Idle, TunnelEvent::ConnectReceived) => TunnelState::MintingCert,
        (TunnelState::MintingCert, TunnelEvent::MintSucceeded) => TunnelState::TlsHandshake,
        (TunnelState::MintingCert, TunnelEvent::MintFailed) => TunnelState::ErrorClose,
        (TunnelState::TlsHandshake, TunnelEvent::HandshakeSucceeded) => TunnelState::Serving,
        (TunnelState::TlsHandshake, TunnelEvent::HandshakeFailed) => TunnelState::ErrorClose,
        (TunnelState::Serving, TunnelEvent::UpgradeDetected) => TunnelState::WsBridge,
        (TunnelState::Serving, TunnelEvent::ConnectionClosed) => TunnelState::Closed,
        (TunnelState::WsBridge, TunnelEvent::ConnectionClosed) => TunnelState::Closed,
        _ => s,
    }
}

/// `Closed` and `ErrorClose` are terminal: no event leaves them.
pub proof fn lemma_terminal_states_absorb(e: TunnelEvent)
    ensures
        spec_tunnel_step(TunnelState::Closed, e) == TunnelState::Closed,
        spec_tunnel_step(TunnelState::ErrorClose, e) == TunnelState::ErrorClose,
{
}

/// A failed mint or handshake reaches ErrorClose, never a serving state.
pub proof fn lemma_failures_close()
    ensures
        spec_tunnel_step(TunnelState::MintingCert, TunnelEvent::MintFailed)
            == TunnelState::ErrorClose,
        spec_tunnel_step(TunnelState::TlsHandshake, TunnelEvent::HandshakeFailed)
            == TunnelState::ErrorClose,
{
}

// ---------------------------------------------------------------------------
// Routing
// ---------------------------------------------------------------------------

/// The host named by an authority: up to the closing bracket of an IPv6
/// literal, else up to the port colon, else the whole authority.
pub open spec fn spec_authority_host(a: Seq<char>) -> Seq<char> {
    if a.len() > 0 && a[0] == '[' {
        match find_char_from(a, 0, ']') {
            Option::Some(j) => a.take(j + 1),
            Option::None => a,
        }
    } else {
        match find_char_from(a, 0, ':') {
            Option::Some(j) => a.take(j),
            Option::None => a,
        }
    }
}

pub fn authority_host(a: &String) -> (r: String)
    ensures
        r@ == spec_authority_host(a@),
{
    let text = a.as_str();
    let n = text.unicode_len();
    if n > 0 && text.get_char(0) == '[' {
        match find_char(text, 0, ']') {
            Some(j) => {
                proof {
                    crate::headers::lemma_find_char_props(text@, 0, ']');
                }
                let h = text.substring_char(0, j + 1);
                proof {
                    assert(text@.subrange(0, j + 1) =~= a@.take(j + 1));
                }
                h.to_owned()
            },
            None => a.clone(),
        }
    } else {
        match find_char(text, 0, ':') {
            Some(j) => {
                proof {
                    crate::headers::lemma_find_char_props(text@, 0, ':');
                }
                let h = text.substring_char(0, j);
                proof {
                    assert(text@.subrange(0, j as int) =~= a@.take(j as int));
                }
                h.to_owned()
            },
            None => a.clone(),
        }
    }
}

/// Where a request goes: through an intercepted tunnel (CONNECT) or straight
/// out (absolute-form plain HTTP).
#[derive(Debug)]
pub enum RoutePlan {
    ConnectTunnel { host: String },
    DirectForward { host: String },
}

/// Routes one inbound request by its method and authority.  A request
/// without an authority is refused.
pub fn route_request(method: &String, authority: &Option<String>) -> (r: Result<
    RoutePlan,
    ProxyError,
>)
    ensures
        (r is Err) <==> (authority is None),
        r is Err ==> r->Err_0 is NoAuthority,
        r is Ok ==> match r->Ok_0 {
            RoutePlan::ConnectTunnel { host } => method@ == "CONNECT"@ && host@
                == spec_authority_host(authority->0@),
            RoutePlan::DirectForward { host } => method@ != "CONNECT"@ && host@
                == spec_authority_host(authority->0@),
        },
{
    let auth = match authority {
        Some(a) => a,
        None => {
            return Err(ProxyError::NoAuthority);
        },
    };
    let host = authority_host(auth);
    if str_eq(method.as_str(), "CONNECT") {
        Ok(RoutePlan::ConnectTunnel { host })
    } else {
        Ok(RoutePlan::DirectForward { host })
    }
}

// ---------------------------------------------------------------------------
// Forward planning
// ---------------------------------------------------------------------------

/// The URL an inner request is forwarded to.  A request decrypted from the
/// tunnel lacks scheme and authority; they are synthesised as `https` and
/// the tunnel's host.
pub open spec fn spec_effective_url(
    scheme: Option<Seq<char>>,
    authority: Option<Seq<char>>,
    host: Seq<char>,
    path_and_query: Seq<char>,
) -> Seq<char> {
    (match scheme {
        Option::Some(s) => s,
        Option::None => "https"@,
    }) + "://"@ + (match authority {
        Option::Some(a) => a,
        Option::None => host,
    }) + path_and_query
}

pub fn effective_url(
    scheme: &Option<String>,
    authority: &Option<String>,
    host: &String,
    path_and_query: &String,
) -> (r: String)
    ensures
        r@ == spec_effective_url(
            match scheme {
                Option::Some(s) => Option::Some(s@),
                Option::None => Option::None,
            },
            match authority {
                Option::Some(a) => Option::Some(a@),
                Option::None => Option::None,
            },
            host@,
            path_and_query@,
        ),
{
    let mut url = match scheme {
        Some(s) => s.clone(),
        None => String::from_str("https"),
    };
    url.append("://");
    match authority {
        Some(a) => url.append(a.as_str()),
        None => url.append(host.as_str()),
    };
    url.append(path_and_query.as_str());
    url
}

/// One outbound request, ready for the impersonating client: the URL, the
/// folded method, the filtered headers (with Content-Length appended when a
/// body rides along), and the body.
pub struct HttpForwardPlan {
    pub url: String,
    pub method: HttpMethod,
    pub headers: Vec<(String, String)>,
    pub body: Option<Vec<u8>>,
}

/// Builds the outbound plan for one inner request: the method folds to the
/// outbound set, profile-owned and `Sec-*` headers are dropped, and a
/// non-empty body is attached with its exact Content-Length.
pub fn build_forward_plan(
    method_name: &String,
    url: String,
    headers: &Vec<(String, String)>,
    body: Vec<u8>,
) -> (r: HttpForwardPlan)
    ensures
        r.url@ == url@,
        r.method == spec_method_from_name(method_name@),
        body@.len() == 0 ==> {
            &&& hdrs_v(r.headers@) == hdrs_v(headers@).filter(
                |p: (Seq<char>, Seq<char>)| spec_forwardable(p.0),
            )
            &&& r.body is None
        },
        body@.len() > 0 ==> {
            &&& hdrs_v(r.headers@) == hdrs_v(headers@).filter(
                |p: (Seq<char>, Seq<char>)| spec_forwardable(p.0),
            ).push(("content-length"@, spec_dec_digits(body@.len() as nat)))
            &&& r.body matches Option::Some(b) && b@ == body@
        },
{
    let method = method_from_name(method_name.as_str());
    let mut out_headers = filter_request_headers(headers);
    let ghost filtered0 = hdrs_v(out_headers@);
    if body.len() > 0 {
        let len_text = u64_to_dec(body.len() as u64);
        out_headers.push((String::from_str("content-length"), len_text));
        proof {
            assert(hdrs_v(out_headers@) =~= filtered0.push(
                ("content-length"@, spec_dec_digits(body@.len() as nat)),
            ));
        }
        HttpForwardPlan { url, method, headers: out_headers, body: Some(body) }
    } else {
        HttpForwardPlan { url, method, headers: out_headers, body: None }
    }
}

/// What one decrypted inner request leads to: a WebSocket upgrade answered
/// with a 101 and bridged, or an outbound forward.
pub enum InnerAction {
    UpgradeWebSocket { response: crate::types::ResponseHead },
    Forward { plan: HttpForwardPlan },
}

/// Dispatches one inner request: a request carrying the full WebSocket
/// handshake is answered with the switching response; anything else becomes
/// an outbound forward to its effective URL, with the filtered headers and
/// the body under its exact Content-Length.
pub fn plan_inner_request(
    method_name: &String,
    scheme: &Option<String>,
    authority: &Option<String>,
    host: &String,
    path_and_query: &String,
    headers: &Vec<(String, String)>,
    body: Vec<u8>,
) -> (r: InnerAction)
    ensures
        ({
            let url = spec_effective_url(
                match scheme {
                    Option::Some(s) => Option::Some(s@),
                    Option::None => Option::None,
                },
                match authority {
                    Option::Some(a) => Option::Some(a@),
                    Option::None => Option::None,
                },
                host@,
                path_and_query@,
            );
            let kept = hdrs_v(headers@).filter(
                |p: (Seq<char>, Seq<char>)| spec_forwardable(p.0),
            );
            if crate::headers::spec_is_upgrade(hdrs_v(headers@)) {
                r matches InnerAction::UpgradeWebSocket { response } && response.status == 101
                    && hdrs_v(response.headers@) == seq![
                    ("connection"@, "upgrade"@),
                    ("upgrade"@, "websocket"@),
                ]
            } else {
                r matches InnerAction::Forward { plan } && {
                    &&& plan.url@ == url
                    &&& plan.method == spec_method_from_name(method_name@)
                    &&& (body@.len() == 0 ==> hdrs_v(plan.headers@) == kept && plan.body
                        is None)
                    &&& (body@.len() > 0 ==> hdrs_v(plan.headers@) == kept.push(
                        ("content-length"@, spec_dec_digits(body@.len() as nat)),
                    ) && (plan.body matches Option::Some(b) && b@ == body@))
                }
            }
        }),
{
    if crate::headers::is_websocket_upgrade(headers) {
        InnerAction::UpgradeWebSocket {
            response: crate::websocket_handler::create_websocket_response(),
        }
    } else {
        let url = effective_url(scheme, authority, host, path_and_query);
        InnerAction::Forward { plan: build_forward_plan(method_name, url, headers, body) }
    }
}

/// Marshals an upstream response back to the client: the status and every
/// header verbatim, the body as received.
pub fn marshal_response(status: u16, headers: Vec<(String, String)>, body: Vec<u8>) -> (r: (
    crate::types::ResponseHead,
    Vec<u8>,
))
    ensures
        r.0.status == status,
        r.0.headers == headers,
        r.1 == body,
{
    (crate::types::ResponseHead { status, headers }, body)
}

// ---------------------------------------------------------------------------
// The proxy
// ---------------------------------------------------------------------------

/// The certificate authority and the session pool, assembled for the
/// request pipeline.
pub struct Proxy {
    pub cert_manager: CertManager,
    pub session_manager: SessionManager,
}

impl Proxy {
    pub open spec fn wf(&self) -> bool {
        &&& self.cert_manager.wf()
        &&& self.session_manager.wf()
    }

    /// A proxy around materialised root data, with empty caches.
    pub fn new(root: RootMaterial) -> (r: Proxy)
        ensures
            r.wf(),
            r.cert_manager.root_view() == root_v(root),
            r.cert_manager.cache_view() =~= Seq::<(Seq<char>, crate::cert_manager::LeafV)>::empty(),
            r.session_manager.table() =~= Seq::<(
                Seq<char>,
                crate::session_manager::SessionV,
            )>::empty(),
    {
        Proxy {
            cert_manager: CertManager::new(root),
            session_manager: SessionManager::new(),
        }
    }

    /// The root certificate PEM, for installation in a client trust store.
    pub fn get_ca_cert_pem(&self) -> (r: String)
        ensures
            r@ == self.cert_manager.root_view().cert_pem,
    {
        self.cert_manager.get_ca_cert_pem()
    }

    /// The session pool.
    pub fn session_manager(&self) -> (r: &SessionManager)
        ensures
            r == &self.session_manager,
    {
        &self.session_manager
    }

    /// The TLS server configuration for an intercepted host: the minted
    /// chain and key under an ALPN offer restricted to HTTP/1.1.  The leaf
    /// cache sees exactly one mint step, and the call succeeds exactly when
    /// rustls accepts the minted chain and key.
    pub fn create_server_config(
        &mut self,
        host: &String,
        now_ms: u64,
        material: LeafMaterial,
    ) -> (r: Result<rustls::ServerConfig, ProxyError>)
        requires
            old(self).wf(),
        ensures
            final(self).wf(),
            final(self).cert_manager.root_view() == old(self).cert_manager.root_view(),
            final(self).cert_manager.cache_view() == spec_mint(
                old(self).cert_manager.cache_view(),
                host@,
                now_ms as int,
                material.leaf_der@,
                material.key_der@,
            ),
            final(self).session_manager == old(self).session_manager,
            ({
                let picked = spec_mint_leaf(
                    old(self).cert_manager.cache_view(),
                    host@,
                    now_ms as int,
                    material.leaf_der@,
                    material.key_der@,
                );
                &&& ((r is Ok) <==> rustls_accepts(
                    seq![picked.0, old(self).cert_manager.root_view().cert_der],
                    picked.1,
                ))
                &&& (r is Err ==> r->Err_0 is TlsConfigRejected)
            }),
    {
        let (chain, key) = self.cert_manager.get_or_create_cert(host, now_ms, material);
        let mut alpn: Vec<Vec<u8>> = Vec::new();
        alpn.push("http/1.1".as_bytes_vec());
        proof {
            let picked = spec_mint_leaf(
                old(self).cert_manager.cache_view(),
                host@,
                now_ms as int,
                material.leaf_der@,
                material.key_der@,
            );
            assert(chain@.map_values(|c: Vec<u8>| c@) =~= seq![
                picked.0,
                old(self).cert_manager.root_view().cert_der,
            ]);
        }
        build_server_config(chain, key, alpn)
    }
}

/// Whether rustls accepts a DER chain and key for a server configuration.
/// `with_single_cert` fails exactly when the key cannot be parsed as a
/// supported signing key, a function of the bytes alone; the chain is
/// stored as given.
pub uninterp spec fn rustls_accepts(chain: Seq<Seq<u8>>, key: Seq<u8>) -> bool;

/// Relies on rustls's ServerConfig builder with safe defaults, no client
/// auth and with_single_cert: a server configuration for the given DER chain
/// and PKCS#8/PKCS#1 DER key, offering the given ALPN protocols.  It
/// succeeds exactly when rustls accepts the chain and key.
#[verifier::external_body]
pub(crate) fn build_server_config(chain: Vec<Vec<u8>>, key: Vec<u8>, alpn: Vec<Vec<u8>>) -> (r:
    Result<rustls::ServerConfig, ProxyError>)
    ensures
        (r is Ok) <==> rustls_accepts(chain@.map_values(|c: Vec<u8>| c@), key@),
        r is Err ==> r->Err_0 is TlsConfigRejected,
{
    let certs: Vec<rustls::Certificate> = chain.into_iter().map(rustls::Certificate).collect();
    let built = rustls::ServerConfig::builder()
        .with_safe_defaults()
        .with_no_client_auth()
        .with_single_cert(certs, rustls::PrivateKey(key));
    match built {
        Ok(mut config) => {
            config.alpn_protocols = alpn;
            Ok(config)
        },
        Err(_) => Err(ProxyError::TlsConfigRejected),
    }
}

#[verifier::external_type_specification]
#[verifier::external_body]
pub struct ExServerConfig(rustls::ServerConfig);

} // verus!
