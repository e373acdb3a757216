use vstd::prelude::*;

use vstd::utf8::decode_utf8;

use crate::cert_manager::{CertManager, LeafMaterial, spec_mint, spec_mint_leaf};
use crate::request_parser::{
    self, spec_head_end, spec_request_line_wf, spec_method_bytes, spec_path_bytes,
    spec_request_body,
};
use crate::types::ProxyError;

verus! {

/// The tunnel-side handler: the certificate authority for inbound TLS, and
/// the fixed impersonation profile its outbound leg uses.  Index 0 of the
/// catalogue stands for the default desktop browser profile.
pub struct TlsHandler {
    pub cert_manager: CertManager,
    pub profile: usize,
}

impl TlsHandler {
    pub fn new(cert_manager: CertManager) -> (r: TlsHandler)
        ensures
            r.cert_manager == cert_manager,
            r.profile == 0,
    {
        TlsHandler { cert_manager, profile: 0 }
    }

    /// The TLS server configuration that terminates an inbound tunnel for
    /// `host`: one mint step on the leaf cache, no ALPN restriction.  The
    /// call succeeds exactly when rustls accepts the minted chain and key.
    pub fn inbound_tls_config(
        &mut self,
        host: &String,
        now_ms: u64,
        material: LeafMaterial,
    ) -> (r: Result<rustls::ServerConfig, ProxyError>)
        requires
            old(self).cert_manager.wf(),
        ensures
            final(self).cert_manager.wf(),
            final(self).cert_manager.root_view() == old(self).cert_manager.root_view(),
            final(self).cert_manager.cache_view() == spec_mint(
                old(self).cert_manager.cache_view(),
                host@,
                now_ms as int,
                material.leaf_der@,
                material.key_der@,
            ),
            final(self).profile == old(self).profile,
            ({
                let picked = spec_mint_leaf(
                    old(self).cert_manager.cache_view(),
                    host@,
                    now_ms as int,
                    material.leaf_der@,
                    material.key_der@,
                );
                &&& ((r is Ok) <==> crate::proxy::rustls_accepts(
                    seq![picked.0, old(self).cert_manager.root_view().cert_der],
                    picked.1,
                ))
                &&& (r is Err ==> r->Err_0 is TlsConfigRejected)
            }),
    {
        let (chain, key) = self.cert_manager.get_or_create_cert(host, now_ms, material);
        let alpn: Vec<Vec<u8>> = Vec::new();
        proof {
            let picked = spec_mint_leaf(
                old(self).cert_manager.cache_view(),
                host@,
                now_ms as int,
                material.leaf_der@,
                material.key_der@,
            );
            assert(chain@.map_values(|c: Vec<u8>| c@) =~= seq![
                picked.0,
                old(self).cert_manager.root_view().cert_der,
            ]);
        }
        crate::proxy::build_server_config(chain, key, alpn)
    }

    /// The method and path of a decrypted request head.
    pub fn parse_request(&self, buffer: &[u8]) -> (r: Result<(String, String), ProxyError>)
        ensures
            match r {
                Result::Ok(mp) => {
                    &&& spec_head_end(buffer@) is Some
                    &&& spec_request_line_wf(buffer@)
                    &&& mp.0@ == decode_utf8(spec_method_bytes(buffer@))
                    &&& mp.1@ == decode_utf8(spec_path_bytes(buffer@))
                },
                Result::Err(e) => {
                    &&& (e is IncompleteRequest <==> spec_head_end(buffer@) is None)
                    &&& (e is MalformedRequest <==> spec_head_end(buffer@) is Some
                        && !spec_request_line_wf(buffer@))
                    &&& (e is IncompleteRequest || e is MalformedRequest)
                },
            },
    {
        match request_parser::parse_request(buffer) {
            Ok(req) => Ok((req.method, req.path)),
            Err(e) => Err(e),
        }
    }

    /// The body text of a decrypted request.
    pub fn get_request_body(&self, buffer: &[u8]) -> (r: Option<String>)
        ensures
            match r {
                Option::Some(s) => spec_request_body(buffer@) == Option::Some(s@),
                Option::None => spec_request_body(buffer@) == Option::<Seq<char>>::None,
            },
    {
        request_parser::get_request_body(buffer)
    }
}

/// The outbound URL of a tunnelled request: always HTTPS on the tunnel's
/// host.
pub fn connect_url(host: &String, path: &String) -> (r: String)
    ensures
        r@ == "https://"@ + host@ + path@,
{
    let mut url = String::from_str("https://");
    url.append(host.as_str());
    url.append(path.as_str());
    url
}

} // verus!
