use vstd::prelude::*;

verus! {

/// Number of entries in the impersonation-profile catalogue.  The catalogue
/// itself is a black-box enumeration of the outbound client library; the
/// verified code identifies a profile by its index alone.
pub const PROFILE_COUNT: usize = 52;

/// Errors the library itself can report.  Transport and cryptographic errors
/// arise outside the library and are carried as text where needed.
#[derive(Debug)]
pub enum ProxyError {
    /// A CONNECT or absolute-form request without an authority component.
    NoAuthority,
    /// The request head is not yet complete (no terminating blank line).
    IncompleteRequest,
    /// The request head is present but malformed.
    MalformedRequest,
    /// A URL whose host cannot be determined.
    InvalidHost,
    /// A WebSocket upgrade without the required Sec-WebSocket headers.
    MissingWebSocketHeaders,
    /// The TLS library rejected the certificate chain or key.
    TlsConfigRejected,
}

impl ProxyError {
    pub fn message(&self) -> (r: &'static str)
        ensures
            r@ == match self {
                ProxyError::NoAuthority => "no authority in request"@,
                ProxyError::IncompleteRequest => "incomplete request"@,
                ProxyError::MalformedRequest => "malformed request"@,
                ProxyError::InvalidHost => "invalid host"@,
                ProxyError::MissingWebSocketHeaders => "invalid websocket headers"@,
                ProxyError::TlsConfigRejected => "tls configuration rejected"@,
            },
    {
        match self {
            ProxyError::NoAuthority => "no authority in request",
            ProxyError::IncompleteRequest => "incomplete request",
            ProxyError::MalformedRequest => "malformed request",
            ProxyError::InvalidHost => "invalid host",
            ProxyError::MissingWebSocketHeaders => "invalid websocket headers",
            ProxyError::TlsConfigRejected => "tls configuration rejected",
        }
    }
}

/// The head of an HTTP response as the proxy hands it back: a status code and
/// the headers in emission order.
pub struct ResponseHead {
    pub status: u16,
    pub headers: Vec<(String, String)>,
}

/// The request methods the outbound client distinguishes.  Anything else is
/// folded to GET — a deliberate simplification of the forwarding path.
#[derive(Clone, Copy, Debug, PartialEq, Eq)]
pub enum HttpMethod {
    Get,
    Post,
    Put,
    Delete,
    Patch,
}

/// The fold from a method name, matched without regard to case.
pub open spec fn spec_method_from_name(m: Seq<char>) -> HttpMethod {
    if crate::headers::spec_lower(m) == "get"@ { HttpMethod::Get }
    else if crate::headers::spec_lower(m) == "post"@ { HttpMethod::Post }
    else if crate::headers::spec_lower(m) == "put"@ { HttpMethod::Put }
    else if crate::headers::spec_lower(m) == "delete"@ { HttpMethod::Delete }
    else if crate::headers::spec_lower(m) == "patch"@ { HttpMethod::Patch }
    else { HttpMethod::Get }
}

pub fn method_from_name(m: &str) -> (r: HttpMethod)
    ensures
        r == spec_method_from_name(m@),
{
    proof {
        reveal_strlit("get");
        reveal_strlit("post");
        reveal_strlit("put");
        reveal_strlit("delete");
        reveal_strlit("patch");
        assert(crate::headers::spec_lower("get"@) =~= "get"@);
        assert(crate::headers::spec_lower("post"@) =~= "post"@);
        assert(crate::headers::spec_lower("put"@) =~= "put"@);
        assert(crate::headers::spec_lower("delete"@) =~= "delete"@);
        assert(crate::headers::spec_lower("patch"@) =~= "patch"@);
    }
    if crate::headers::eq_ignore_case(m, "get") { HttpMethod::Get }
    else if crate::headers::eq_ignore_case(m, "post") { HttpMethod::Post }
    else if crate::headers::eq_ignore_case(m, "put") { HttpMethod::Put }
    else if crate::headers::eq_ignore_case(m, "delete") { HttpMethod::Delete }
    else if crate::headers::eq_ignore_case(m, "patch") { HttpMethod::Patch }
    else { HttpMethod::Get }
}

/// Each element of a filtered sequence is an element of the original.
pub proof fn lemma_filter_elems<A>(t: Seq<A>, pred: spec_fn(A) -> bool, k: int)
    requires
        0 <= k < t.filter(pred).len(),
    ensures
        exists|j: int| 0 <= j < t.len() && t[j] == t.filter(pred)[k],
    decreases t.len(),
{
    reveal(Seq::filter);
    if t.len() == 0 {
    } else {
        let prefix = t.drop_last();
        if pred(t.last()) && k == t.filter(pred).len() - 1 {
            assert(t[t.len() - 1] == t.filter(pred)[k]);
        } else {
            lemma_filter_elems(prefix, pred, k);
            let j = choose|j: int| 0 <= j < prefix.len() && prefix[j] == prefix.filter(pred)[k];
            assert(t[j] == t.filter(pred)[k]);
        }
    }
}

/// The decimal digit sequence of a natural number, most significant first.
pub open spec fn spec_dec_digits(n: nat) -> Seq<char>
    decreases n,
{
    if n < 10 {
        seq![spec_digit_char(n)]
    } else {
        spec_dec_digits(n / 10) + seq![spec_digit_char(n % 10)]
    }
}

pub open spec fn spec_digit_char(d: nat) -> char {
    if d == 0 { '0' }
    else if d == 1 { '1' }
    else if d == 2 { '2' }
    else if d == 3 { '3' }
    else if d == 4 { '4' }
    else if d == 5 { '5' }
    else if d == 6 { '6' }
    else if d == 7 { '7' }
    else if d == 8 { '8' }
    else { '9' }
}

fn digit_str(d: u64) -> (r: &'static str)
    requires
        d < 10,
    ensures
        r@ == seq![spec_digit_char(d as nat)],
{
    let r: &'static str = if d == 0 { "0" }
        else if d == 1 { "1" }
        else if d == 2 { "2" }
        else if d == 3 { "3" }
        else if d == 4 { "4" }
        else if d == 5 { "5" }
        else if d == 6 { "6" }
        else if d == 7 { "7" }
        else if d == 8 { "8" }
        else { "9" };
    proof {
        reveal_strlit("0");
        reveal_strlit("1");
        reveal_strlit("2");
        reveal_strlit("3");
        reveal_strlit("4");
        reveal_strlit("5");
        reveal_strlit("6");
        reveal_strlit("7");
        reveal_strlit("8");
        reveal_strlit("9");
        assert(r@ =~= seq![spec_digit_char(d as nat)]);
    }
    r
}

/// Renders a number in decimal, as header values and log lines need it.
pub fn u64_to_dec(n: u64) -> (r: String)
    ensures
        r@ == spec_dec_digits(n as nat),
    decreases n,
{
    if n < 10 {
        String::from_str(digit_str(n))
    } else {
        let mut s = u64_to_dec(n / 10);
        s.append(digit_str(n % 10));
        proof {
            assert(s@ =~= spec_dec_digits(n as nat));
        }
        s
    }
}

/// One log line: `[<unix-millis>][<component-tag>] <message>`.
pub fn format_log_line(timestamp_ms: u64, component: &str, message: &str) -> (r: String)
    ensures
        r@ == "["@ + spec_dec_digits(timestamp_ms as nat) + "]["@ + component@ + "] "@
            + message@,
{
    let mut s = String::from_str("[");
    let num = u64_to_dec(timestamp_ms);
    s.append(num.as_str());
    s.append("][");
    s.append(component);
    s.append("] ");
    s.append(message);
    proof {
        assert(s@ =~= "["@ + spec_dec_digits(timestamp_ms as nat) + "]["@ + component@
            + "] "@ + message@);
    }
    s
}

} // verus!
