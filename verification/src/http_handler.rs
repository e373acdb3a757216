use vstd::prelude::*;

use vstd::utf8::encode_utf8;

use crate::headers::{
    hdrs_v, spec_lookup, spec_forwardable, spec_starts_with, header_get,
    filter_request_headers, str_starts_with,
};
use crate::request_parser::Request;
use crate::session_manager::SessionManager;
use crate::types::{HttpMethod, ProxyError, spec_method_from_name, method_from_name,
    spec_dec_digits, u64_to_dec};

verus! {

// ---------------------------------------------------------------------------
// Response serialisation
// ---------------------------------------------------------------------------

/// The reason phrases the proxy itself emits.
pub open spec fn spec_reason_phrase(status: u16) -> Seq<char> {
    if status == 101 { "Switching Protocols"@ }
    else if status == 200 { "OK"@ }
    else if status == 400 { "Bad Request"@ }
    else if status == 404 { "Not Found"@ }
    else if status == 500 { "Internal Server Error"@ }
    else if status == 502 { "Bad Gateway"@ }
    else { "Unknown"@ }
}

fn reason_phrase(status: u16) -> (r: &'static str)
    ensures
        r@ == spec_reason_phrase(status),
{
    if status == 101 { "Switching Protocols" }
    else if status == 200 { "OK" }
    else if status == 400 { "Bad Request" }
    else if status == 404 { "Not Found" }
    else if status == 500 { "Internal Server Error" }
    else if status == 502 { "Bad Gateway" }
    else { "Unknown" }
}

/// The header block: `name: value` lines in order.
pub open spec fn spec_headers_chars(hs: Seq<(Seq<char>, Seq<char>)>) -> Seq<char>
    decreases hs.len(),
{
    if hs.len() == 0 {
        Seq::empty()
    } else {
        hs.first().0 + ": "@ + hs.first().1 + "\r\n"@ + spec_headers_chars(hs.drop_first())
    }
}

/// The whole response head: status line, headers, blank line.
pub open spec fn spec_response_head_chars(status: u16, hs: Seq<(Seq<char>, Seq<char>)>) -> Seq<
    char,
> {
    "HTTP/1.1 "@ + spec_dec_digits(status as nat) + " "@ + spec_reason_phrase(status) + "\r\n"@
        + spec_headers_chars(hs) + "\r\n"@
}

/// Renders the response head as text.
pub fn serialize_response_head(status: u16, headers: &Vec<(String, String)>) -> (r: String)
    ensures
        r@ == spec_response_head_chars(status, hdrs_v(headers@)),
{
    let ghost hv = hdrs_v(headers@);
    let mut s = String::from_str("HTTP/1.1 ");
    let num = u64_to_dec(status as u64);
    s.append(num.as_str());
    s.append(" ");
    s.append(reason_phrase(status));
    s.append("\r\n");
    let ghost pre = s@;
    let n = headers.len();
    let mut i: usize = 0;
    proof {
        assert(hv.skip(0) =~= hv);
    }
    while i < n
        invariant
            n == headers@.len(),
            hv == hdrs_v(headers@),
            0 <= i <= n,
            s@ + spec_headers_chars(hv.skip(i as int)) == pre + spec_headers_chars(hv),
        decreases n - i,
    {
        proof {
            assert(hv.skip(i as int).first() == hv[i as int]);
            assert(hv.skip(i as int).drop_first() =~= hv.skip(i + 1));
        }
        let ghost before = s@;
        s.append(headers[i].0.as_str());
        s.append(": ");
        s.append(headers[i].1.as_str());
        s.append("\r\n");
        proof {
            assert(s@ =~= before + (hv[i as int].0 + ": "@ + hv[i as int].1 + "\r\n"@));
            assert(s@ + spec_headers_chars(hv.skip(i + 1)) =~= before + spec_headers_chars(
                hv.skip(i as int),
            ));
        }
        i += 1;
    }
    proof {
        assert(spec_headers_chars(hv.skip(n as int)) =~= Seq::<char>::empty());
        assert(s@ =~= pre + spec_headers_chars(hv));
    }
    s.append("\r\n");
    proof {
        assert(s@ =~= spec_response_head_chars(status, hv));
    }
    s
}

/// Renders a whole response: the head in UTF-8, then the body bytes as they
/// came from the upstream.
pub fn serialize_response(status: u16, headers: &Vec<(String, String)>, body: &Vec<u8>) -> (r:
    Vec<u8>)
    ensures
        r@ == encode_utf8(spec_response_head_chars(status, hdrs_v(headers@))) + body@,
{
    let head = serialize_response_head(status, headers);
    let mut out = head.as_str().as_bytes_vec();
    out.extend_from_slice(body.as_slice());
    proof {
        assert(out@ =~= encode_utf8(spec_response_head_chars(status, hdrs_v(headers@)))
            + body@);
    }
    out
}

/// The one response an upstream failure produces: `502 Bad Gateway` with the
/// error text as its body.
pub fn bad_gateway_response(error_text: &str) -> (r: Vec<u8>)
    ensures
        r@ == encode_utf8("HTTP/1.1 502 Bad Gateway\r\n\r\n"@ + error_text@),
{
    let mut s = String::from_str("HTTP/1.1 502 Bad Gateway\r\n\r\n");
    s.append(error_text);
    proof {
        assert(s@ =~= "HTTP/1.1 502 Bad Gateway\r\n\r\n"@ + error_text@);
    }
    s.as_str().as_bytes_vec()
}

/// The response that establishes a CONNECT tunnel.
pub fn connect_established_response() -> (r: Vec<u8>)
    ensures
        r@ == encode_utf8("HTTP/1.1 200 Connection Established\r\n\r\n"@),
{
    let text = "HTTP/1.1 200 Connection Established\r\n\r\n";
    text.as_bytes_vec()
}

// ---------------------------------------------------------------------------
// URL host extraction
// ---------------------------------------------------------------------------

/// The scheme separator `://` at position `i`.
pub open spec fn is_scheme_sep_at(s: Seq<char>, i: int) -> bool {
    &&& 0 <= i
    &&& i + 3 <= s.len()
    &&& s[i] == ':'
    &&& s[i + 1] == '/'
    &&& s[i + 2] == '/'
}

pub open spec fn find_scheme_sep(s: Seq<char>, from: int) -> Option<int>
    decreases s.len() - from when 0 <= from
{
    if from + 3 > s.len() {
        Option::None
    } else if is_scheme_sep_at(s, from) {
        Option::Some(from)
    } else {
        find_scheme_sep(s, from + 1)
    }
}

/// A character that ends the host part of a URL.
pub open spec fn is_host_end(c: char) -> bool {
    c == ':' || c == '/' || c == '?' || c == '#'
}

pub open spec fn find_host_end(s: Seq<char>, from: int) -> Option<int>
    decreases s.len() - from when 0 <= from
{
    if from >= s.len() {
        Option::None
    } else if is_host_end(s[from]) {
        Option::Some(from)
    } else {
        find_host_end(s, from + 1)
    }
}

/// The host of a URL: what stands between `://` and the next `:`, `/`, `?`
/// or `#`.  A URL without a separator or with an empty host has none.
pub open spec fn spec_host_of_url(s: Seq<char>) -> Option<Seq<char>> {
    match find_scheme_sep(s, 0) {
        Option::None => Option::None,
        Option::Some(i) => {
            let rest = s.skip(i + 3);
            let host = match find_host_end(rest, 0) {
                Option::Some(e) => rest.take(e),
                Option::None => rest,
            };
            if host.len() == 0 {
                Option::None
            } else {
                Option::Some(host)
            }
        },
    }
}

proof fn lemma_find_scheme_sep_at(s: Seq<char>, from: int, i: int)
    requires
        0 <= from <= i,
        is_scheme_sep_at(s, i),
        forall|j: int| from <= j < i ==> !is_scheme_sep_at(s, j),
    ensures
        find_scheme_sep(s, from) == Option::Some(i),
    decreases i - from,
{
    if from == i {
    } else {
        lemma_find_scheme_sep_at(s, from + 1, i);
    }
}

proof fn lemma_find_scheme_sep_none(s: Seq<char>, from: int)
    requires
        0 <= from,
        forall|j: int| from <= j ==> !is_scheme_sep_at(s, j),
    ensures
        find_scheme_sep(s, from) == Option::<int>::None,
    decreases s.len() - from,
{
    if from + 3 > s.len() {
    } else {
        lemma_find_scheme_sep_none(s, from + 1);
    }
}

proof fn lemma_find_host_end_at(s: Seq<char>, from: int, i: int)
    requires
        0 <= from <= i < s.len(),
        is_host_end(s[i]),
        forall|j: int| from <= j < i ==> !is_host_end(s[j]),
    ensures
        find_host_end(s, from) == Option::Some(i),
    decreases i - from,
{
    if from == i {
    } else {
        lemma_find_host_end_at(s, from + 1, i);
    }
}

proof fn lemma_find_host_end_none(s: Seq<char>, from: int)
    requires
        0 <= from,
        forall|j: int| from <= j < s.len() ==> !is_host_end(s[j]),
    ensures
        find_host_end(s, from) == Option::<int>::None,
    decreases s.len() - from,
{
    if from >= s.len() {
    } else {
        lemma_find_host_end_none(s, from + 1);
    }
}

/// Extracts the host of a URL, or reports it invalid.
pub fn host_of_url(url: &str) -> (r: Result<String, ProxyError>)
    ensures
        match r {
            Result::Ok(h) => spec_host_of_url(url@) == Option::Some(h@),
            Result::Err(e) => spec_host_of_url(url@) is None && e is InvalidHost,
        },
{
    let n = url.unicode_len();
    let mut i: usize = 0;
    let mut sep: Option<usize> = None;
    while n - i >= 3 && sep.is_none()
        invariant
            n == url@.len(),
            0 <= i <= n,
            forall|j: int| 0 <= j < i ==> !is_scheme_sep_at(url@, j),
            match sep {
                Option::Some(k) => is_scheme_sep_at(url@, k as int) && forall|j: int|
                    0 <= j < k ==> !is_scheme_sep_at(url@, j),
                Option::None => true,
            },
        decreases n - i + (if sep is Some { 0int } else { 1int }),
    {
        if url.get_char(i) == ':' && url.get_char(i + 1) == '/' && url.get_char(i + 2) == '/' {
            sep = Some(i);
        } else {
            i += 1;
        }
    }
    let start = match sep {
        Some(k) => {
            proof {
                lemma_find_scheme_sep_at(url@, 0, k as int);
            }
            k + 3
        },
        None => {
            proof {
                lemma_find_scheme_sep_none(url@, 0);
            }
            return Err(ProxyError::InvalidHost);
        },
    };
    let ghost rest = url@.skip(start as int);
    let mut e: usize = start;
    let mut hit = false;
    while e < n && !hit
        invariant
            n == url@.len(),
            rest == url@.skip(start as int),
            start <= e <= n,
            start <= n,
            forall|j: int| start <= j < e ==> !is_host_end(url@[j]),
            hit ==> e < n && is_host_end(url@[e as int]),
        decreases n - e + (if hit { 0int } else { 1int }),
    {
        if is_host_end_char(url.get_char(e)) {
            hit = true;
        } else {
            e += 1;
        }
    }
    proof {
        assert(forall|j: int|
            0 <= j < rest.len() ==> rest[j] == url@[j + start]);
        if hit {
            lemma_find_host_end_at(rest, 0, e - start);
        } else {
            lemma_find_host_end_none(rest, 0);
        }
    }
    if e == start {
        proof {
            if hit {
                assert(rest.take(e - start) =~= Seq::<char>::empty());
            } else {
                assert(rest =~= Seq::<char>::empty());
            }
        }
        return Err(ProxyError::InvalidHost);
    }
    let host = url.substring_char(start, e);
    proof {
        if hit {
            assert(url@.subrange(start as int, e as int) =~= rest.take(e - start));
        } else {
            assert(url@.subrange(start as int, e as int) =~= rest);
        }
    }
    Ok(host.to_owned())
}

fn is_host_end_char(c: char) -> (r: bool)
    ensures
        r == is_host_end(c),
{
    c == ':' || c == '/' || c == '?' || c == '#'
}

// ---------------------------------------------------------------------------
// The handler
// ---------------------------------------------------------------------------

/// The forwarding plan of the plain-HTTP path: where the request goes, as
/// what, with which headers and body.
pub struct H1ForwardPlan {
    pub url: String,
    pub host: String,
    pub method: HttpMethod,
    pub headers: Vec<(String, String)>,
    pub body: Option<String>,
}

/// The URL the plain-HTTP path forwards to: the request path itself when it
/// is already absolute, else with `http://` put in front.
pub open spec fn spec_h1_url(path: Seq<char>) -> Seq<char> {
    if spec_starts_with(path, "http://"@) {
        path
    } else {
        "http://"@ + path
    }
}

/// The URL a WebSocket upgrade is forwarded to: the request path itself when
/// it is already a ws URL, else with `ws://` put in front.
pub open spec fn spec_ws_url(path: Seq<char>) -> Seq<char> {
    if spec_starts_with(path, "ws://"@) {
        path
    } else {
        "ws://"@ + path
    }
}

/// The forwarding plan of a WebSocket upgrade: the target URL and host, and
/// the handshake to replay.
#[derive(Debug)]
pub struct WsForwardPlan {
    pub url: String,
    pub host: String,
    pub context: WebSocketContext,
}

/// The plain-HTTP request handler: it owns the session pool and forwards
/// parsed requests.
pub struct HttpHandler {
    pub session_manager: SessionManager,
}

impl HttpHandler {
    pub fn new(session_manager: SessionManager) -> (r: HttpHandler)
        ensures
            r.session_manager == session_manager,
    {
        HttpHandler { session_manager }
    }

    /// Plans the forwarding of one parsed request: the absolute URL and its
    /// host, the folded method, the filtered headers, and the body when the
    /// method carries one.
    pub fn plan_request(&self, request: &Request) -> (r: Result<H1ForwardPlan, ProxyError>)
        ensures
            match r {
                Result::Ok(p) => {
                    &&& p.url@ == spec_h1_url(request.path@)
                    &&& spec_host_of_url(spec_h1_url(request.path@)) == Option::Some(p.host@)
                    &&& p.method == spec_method_from_name(request.method@)
                    &&& hdrs_v(p.headers@) == hdrs_v(request.headers@).filter(
                        |q: (Seq<char>, Seq<char>)| spec_forwardable(q.0),
                    )
                    &&& (match p.body {
                        Option::Some(b) => {
                            &&& (request.method@ == "POST"@ || request.method@ == "PUT"@)
                            &&& (request.body matches Option::Some(rb) && rb@ == b@)
                        },
                        Option::None => !(request.method@ == "POST"@ || request.method@
                            == "PUT"@) || request.body is None,
                    })
                },
                Result::Err(e) => {
                    &&& e is InvalidHost
                    &&& spec_host_of_url(spec_h1_url(request.path@)) is None
                },
            },
    {
        let url = if str_starts_with(request.path.as_str(), "http://") {
            request.path.clone()
        } else {
            let mut u = String::from_str("http://");
            u.append(request.path.as_str());
            u
        };
        let host = match host_of_url(url.as_str()) {
            Ok(h) => h,
            Err(e) => {
                return Err(e);
            },
        };
        let headers = filter_request_headers(&request.headers);
        let carries_body = crate::headers::str_eq(request.method.as_str(), "POST")
            || crate::headers::str_eq(request.method.as_str(), "PUT");
        let body = if carries_body {
            match &request.body {
                Some(b) => Some(b.clone()),
                None => None,
            }
        } else {
            None
        };
        let method = method_from_name(request.method.as_str());
        Ok(H1ForwardPlan { url, host, method, headers, body })
    }

    /// Plans the forwarding of a WebSocket upgrade: the ws URL and its host,
    /// and the client's handshake headers.  A request without the required
    /// Sec-WebSocket headers, or without a usable host, is refused.
    pub fn plan_websocket(&self, request: &Request) -> (r: Result<WsForwardPlan, ProxyError>)
        ensures
            match r {
                Result::Ok(p) => {
                    &&& p.url@ == spec_ws_url(request.path@)
                    &&& spec_host_of_url(spec_ws_url(request.path@)) == Option::Some(p.host@)
                    &&& spec_lookup(hdrs_v(request.headers@), "Sec-WebSocket-Key"@)
                        == Option::Some(p.context.key@)
                    &&& spec_lookup(hdrs_v(request.headers@), "Sec-WebSocket-Version"@)
                        == Option::Some(p.context.version@)
                },
                Result::Err(e) => {
                    ||| (e is MissingWebSocketHeaders && (spec_lookup(
                        hdrs_v(request.headers@),
                        "Sec-WebSocket-Key"@,
                    ) is None || spec_lookup(
                        hdrs_v(request.headers@),
                        "Sec-WebSocket-Version"@,
                    ) is None))
                    ||| (e is InvalidHost && spec_host_of_url(spec_ws_url(request.path@))
                        is None)
                },
            },
    {
        let context = match WebSocketContext::from_headers(&request.headers) {
            Some(c) => c,
            None => {
                return Err(ProxyError::MissingWebSocketHeaders);
            },
        };
        let url = if str_starts_with(request.path.as_str(), "ws://") {
            request.path.clone()
        } else {
            let mut u = String::from_str("ws://");
            u.append(request.path.as_str());
            u
        };
        let host = match host_of_url(url.as_str()) {
            Ok(h) => h,
            Err(_) => {
                return Err(ProxyError::InvalidHost);
            },
        };
        Ok(WsForwardPlan { url, host, context })
    }
}

// ---------------------------------------------------------------------------
// WebSocket context
// ---------------------------------------------------------------------------

/// Whitespace trimmed from the ends of a protocol name.
pub open spec fn is_ws_char(c: char) -> bool {
    c == ' ' || c == '\t'
}

pub open spec fn spec_trim_chars_front(s: Seq<char>) -> Seq<char>
    decreases s.len(),
{
    if s.len() > 0 && is_ws_char(s[0]) {
        spec_trim_chars_front(s.drop_first())
    } else {
        s
    }
}

pub open spec fn spec_trim_chars_back(s: Seq<char>) -> Seq<char>
    decreases s.len(),
{
    if s.len() > 0 && is_ws_char(s.last()) {
        spec_trim_chars_back(s.drop_last())
    } else {
        s
    }
}

pub open spec fn spec_trim_chars(s: Seq<char>) -> Seq<char> {
    spec_trim_chars_back(spec_trim_chars_front(s))
}

/// The comma-separated list `s`, each element trimmed.
pub open spec fn spec_split_trim(s: Seq<char>) -> Seq<Seq<char>>
    decreases s.len(),
{
    match crate::headers::find_char_from(s, 0, ',') {
        Option::Some(j) => {
            if 0 <= j < s.len() {
                seq![spec_trim_chars(s.take(j))] + spec_split_trim(s.skip(j + 1))
            } else {
                seq![spec_trim_chars(s)]
            }
        },
        Option::None => seq![spec_trim_chars(s)],
    }
}

proof fn lemma_trim_chars_front_skip(s: Seq<char>, a: int)
    requires
        0 <= a <= s.len(),
        forall|j: int| 0 <= j < a ==> is_ws_char(s[j]),
        a < s.len() ==> !is_ws_char(s[a]),
    ensures
        spec_trim_chars_front(s) == s.skip(a),
    decreases a,
{
    if a == 0 {
        assert(s.skip(0) =~= s);
    } else {
        assert(is_ws_char(s[0]));
        lemma_trim_chars_front_skip(s.drop_first(), a - 1);
        assert(s.drop_first().skip(a - 1) =~= s.skip(a));
    }
}

proof fn lemma_trim_chars_back_take(s: Seq<char>, z: int)
    requires
        0 <= z <= s.len(),
        forall|j: int| z <= j < s.len() ==> is_ws_char(s[j]),
        z > 0 ==> !is_ws_char(s[z - 1]),
    ensures
        spec_trim_chars_back(s) == s.take(z),
    decreases s.len() - z,
{
    if z == s.len() {
        assert(s.take(z) =~= s);
    } else {
        assert(is_ws_char(s.last()));
        lemma_trim_chars_back_take(s.drop_last(), z);
        assert(s.drop_last().take(z) =~= s.take(z));
    }
}

/// Trims spaces and tabs from both ends.
fn trim_str(s: &str) -> (r: String)
    ensures
        r@ == spec_trim_chars(s@),
{
    let n = s.unicode_len();
    let mut a: usize = 0;
    while a < n && (s.get_char(a) == ' ' || s.get_char(a) == '\t')
        invariant
            n == s@.len(),
            0 <= a <= n,
            forall|j: int| 0 <= j < a ==> is_ws_char(s@[j]),
        decreases n - a,
    {
        a += 1;
    }
    proof {
        lemma_trim_chars_front_skip(s@, a as int);
    }
    if a == n {
        proof {
            assert(spec_trim_chars_front(s@) =~= Seq::<char>::empty());
            assert(spec_trim_chars(s@) =~= Seq::<char>::empty());
        }
        return String::new();
    }
    let mut z: usize = n;
    while z > a && (s.get_char(z - 1) == ' ' || s.get_char(z - 1) == '\t')
        invariant
            n == s@.len(),
            a <= z <= n,
            a < n,
            !is_ws_char(s@[a as int]),
            forall|j: int| z <= j < n ==> is_ws_char(s@[j]),
        decreases z,
    {
        z -= 1;
    }
    proof {
        let front = s@.skip(a as int);
        assert(forall|j: int| 0 <= j < front.len() ==> front[j] == s@[j + a]);
        lemma_trim_chars_back_take(front, z - a);
        assert(front.take(z - a) =~= s@.subrange(a as int, z as int));
    }
    let piece = s.substring_char(a, z);
    piece.to_owned()
}

/// Splits a comma-separated protocol list, trimming each element.
fn split_trim(s: &str) -> (r: Vec<String>)
    ensures
        r@.map_values(|p: String| p@) == spec_split_trim(s@),
    decreases s@.len(),
{
    match crate::headers::find_char(s, 0, ',') {
        Some(j) => {
            proof {
                crate::headers::lemma_find_char_props(s@, 0, ',');
            }
            let n = s.unicode_len();
            let head = s.substring_char(0, j);
            let tail = s.substring_char(j + 1, n);
            let first = trim_str(head);
            let mut rest = split_trim(tail);
            let mut out: Vec<String> = Vec::new();
            out.push(first);
            out.append(&mut rest);
            proof {
                assert(head@ =~= s@.take(j as int));
                assert(tail@ =~= s@.skip(j + 1));
                assert(out@.map_values(|p: String| p@) =~= spec_split_trim(s@));
            }
            out
        },
        None => {
            let first = trim_str(s);
            let mut out: Vec<String> = Vec::new();
            out.push(first);
            proof {
                assert(out@.map_values(|p: String| p@) =~= spec_split_trim(s@));
            }
            out
        },
    }
}

/// The WebSocket handshake headers of a request: the key and version that
/// must be present, and the protocols the client offered.
#[derive(Debug)]
pub struct WebSocketContext {
    pub key: String,
    pub version: String,
    pub protocols: Vec<String>,
}

impl WebSocketContext {
    /// Reads the handshake out of a header list: `None` exactly when the key
    /// or the version is missing; the protocol list is split on commas and
    /// trimmed, and empty when absent.
    pub fn from_headers(headers: &Vec<(String, String)>) -> (r: Option<WebSocketContext>)
        ensures
            match r {
                Option::Some(c) => {
                    &&& spec_lookup(hdrs_v(headers@), "Sec-WebSocket-Key"@) == Option::Some(
                        c.key@,
                    )
                    &&& spec_lookup(hdrs_v(headers@), "Sec-WebSocket-Version"@)
                        == Option::Some(c.version@)
                    &&& c.protocols@.map_values(|p: String| p@) == (match spec_lookup(
                        hdrs_v(headers@),
                        "Sec-WebSocket-Protocol"@,
                    ) {
                        Option::Some(p) => spec_split_trim(p),
                        Option::None => Seq::<Seq<char>>::empty(),
                    })
                },
                Option::None => spec_lookup(hdrs_v(headers@), "Sec-WebSocket-Key"@) is None
                    || spec_lookup(hdrs_v(headers@), "Sec-WebSocket-Version"@) is None,
            },
    {
        let key = match header_get(headers, "Sec-WebSocket-Key") {
            Some(v) => v.clone(),
            None => {
                return None;
            },
        };
        let version = match header_get(headers, "Sec-WebSocket-Version") {
            Some(v) => v.clone(),
            None => {
                return None;
            },
        };
        let protocols = match header_get(headers, "Sec-WebSocket-Protocol") {
            Some(p) => split_trim(p.as_str()),
            None => {
                let v: Vec<String> = Vec::new();
                proof {
                    assert(v@.map_values(|p: String| p@) =~= Seq::<Seq<char>>::empty());
                }
                v
            },
        };
        Some(WebSocketContext { key, version, protocols })
    }
}

} // verus!
