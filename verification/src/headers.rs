use vstd::prelude::*;

verus! {

// ---------------------------------------------------------------------------
// ASCII case folding
// ---------------------------------------------------------------------------

/// ASCII lowercase of one character; everything else is left alone, as HTTP
/// header matching asks.
pub open spec fn spec_lower_char(c: char) -> char {
    if c == 'A' { 'a' }
    else if c == 'B' { 'b' }
    else if c == 'C' { 'c' }
    else if c == 'D' { 'd' }
    else if c == 'E' { 'e' }
    else if c == 'F' { 'f' }
    else if c == 'G' { 'g' }
    else if c == 'H' { 'h' }
    else if c == 'I' { 'i' }
    else if c == 'J' { 'j' }
    else if c == 'K' { 'k' }
    else if c == 'L' { 'l' }
    else if c == 'M' { 'm' }
    else if c == 'N' { 'n' }
    else if c == 'O' { 'o' }
    else if c == 'P' { 'p' }
    else if c == 'Q' { 'q' }
    else if c == 'R' { 'r' }
    else if c == 'S' { 's' }
    else if c == 'T' { 't' }
    else if c == 'U' { 'u' }
    else if c == 'V' { 'v' }
    else if c == 'W' { 'w' }
    else if c == 'X' { 'x' }
    else if c == 'Y' { 'y' }
    else if c == 'Z' { 'z' }
    else { c }
}

pub open spec fn spec_lower(s: Seq<char>) -> Seq<char> {
    s.map_values(|c: char| spec_lower_char(c))
}

fn lower_char(c: char) -> (r: char)
    ensures
        r == spec_lower_char(c),
{
    match c {
        'A' => 'a',
        'B' => 'b',
        'C' => 'c',
        'D' => 'd',
        'E' => 'e',
        'F' => 'f',
        'G' => 'g',
        'H' => 'h',
        'I' => 'i',
        'J' => 'j',
        'K' => 'k',
        'L' => 'l',
        'M' => 'm',
        'N' => 'n',
        'O' => 'o',
        'P' => 'p',
        'Q' => 'q',
        'R' => 'r',
        'S' => 's',
        'T' => 't',
        'U' => 'u',
        'V' => 'v',
        'W' => 'w',
        'X' => 'x',
        'Y' => 'y',
        'Z' => 'z',
        _ => c,
    }
}

/// Whether the window of `h` at `at` equals `n`, both taken lowercase.
fn window_matches_lower(h: &str, n: &str, at: usize) -> (r: bool)
    requires
        at + n@.len() <= h@.len(),
    ensures
        r == (spec_lower(h@).subrange(at as int, at + n@.len()) == spec_lower(n@)),
{
    let hl = h.unicode_len();
    let nl = n.unicode_len();
    let mut k: usize = 0;
    while k < nl
        invariant
            hl == h@.len(),
            nl == n@.len(),
            at + nl <= hl,
            0 <= k <= nl,
            forall|j: int| 0 <= j < k ==> spec_lower(h@)[at + j] == spec_lower(n@)[j],
        decreases nl - k,
    {
        let hc = lower_char(h.get_char(at + k));
        let nc = lower_char(n.get_char(k));
        if hc != nc {
            proof {
                assert(spec_lower(h@).subrange(at as int, at + n@.len())[k as int]
                    == spec_lower(h@)[at + k]);
                assert(spec_lower(h@)[at + k] != spec_lower(n@)[k as int]);
            }
            return false;
        }
        k += 1;
    }
    proof {
        assert(spec_lower(h@).subrange(at as int, at + n@.len()) =~= spec_lower(n@));
    }
    true
}

/// ASCII case-insensitive equality of two strings.
pub fn eq_ignore_case(a: &str, b: &str) -> (r: bool)
    ensures
        r == (spec_lower(a@) == spec_lower(b@)),
{
    let al = a.unicode_len();
    let bl = b.unicode_len();
    if al != bl {
        proof {
            assert(spec_lower(a@).len() != spec_lower(b@).len());
        }
        false
    } else {
        let r = window_matches_lower(a, b, 0);
        proof {
            assert(spec_lower(a@).subrange(0, b@.len() as int) =~= spec_lower(a@));
        }
        r
    }
}

/// Whether `s`, taken lowercase, begins with `prefix`, taken lowercase.
pub open spec fn spec_starts_with_lower(s: Seq<char>, prefix: Seq<char>) -> bool {
    prefix.len() <= s.len() && spec_lower(s).subrange(0, prefix.len() as int) == spec_lower(
        prefix,
    )
}

pub fn starts_with_ignore_case(s: &str, prefix: &str) -> (r: bool)
    ensures
        r == spec_starts_with_lower(s@, prefix@),
{
    let sl = s.unicode_len();
    let pl = prefix.unicode_len();
    if pl > sl {
        false
    } else {
        window_matches_lower(s, prefix, 0)
    }
}

/// Whether `needle` occurs in `hay`, both taken lowercase.
pub open spec fn spec_contains_lower(h: Seq<char>, n: Seq<char>) -> bool {
    exists|i: int|
        0 <= i <= h.len() - n.len() && #[trigger] spec_lower(h).subrange(i, i + n.len())
            == spec_lower(n)
}

pub fn contains_ignore_case(hay: &str, needle: &str) -> (r: bool)
    ensures
        r == spec_contains_lower(hay@, needle@),
{
    let hl = hay.unicode_len();
    let nl = needle.unicode_len();
    if nl > hl {
        proof {
            assert(!spec_contains_lower(hay@, needle@));
        }
        return false;
    }
    if nl == 0 {
        proof {
            assert(spec_lower(hay@).subrange(0, 0 + needle@.len() as int) =~= spec_lower(needle@));
        }
        return true;
    }
    let mut i: usize = 0;
    while i <= hl - nl
        invariant
            hl == hay@.len(),
            nl == needle@.len(),
            1 <= nl <= hl,
            0 <= i <= hl - nl + 1,
            forall|j: int|
                0 <= j < i ==> #[trigger] spec_lower(hay@).subrange(j, j + needle@.len())
                    != spec_lower(needle@),
        decreases hl - nl - i + 1,
    {
        if window_matches_lower(hay, needle, i) {
            proof {
                assert(0 <= i as int <= hay@.len() - needle@.len());
            }
            return true;
        }
        i += 1;
    }
    proof {
        assert(!spec_contains_lower(hay@, needle@));
    }
    false
}

// ---------------------------------------------------------------------------
// Header lists and lookups
// ---------------------------------------------------------------------------

/// Mathematical image of a header list.
pub open spec fn hdrs_v(hs: Seq<(String, String)>) -> Seq<(Seq<char>, Seq<char>)> {
    hs.map_values(|p: (String, String)| (p.0@, p.1@))
}

/// Exact-name lookup where a later header with the same name shadows an
/// earlier one, the way repeated insertion into a keyed map leaves the last
/// value visible.
pub open spec fn spec_lookup(hs: Seq<(Seq<char>, Seq<char>)>, name: Seq<char>) -> Option<
    Seq<char>,
>
    decreases hs.len(),
{
    if hs.len() == 0 {
        Option::None
    } else if hs.last().0 == name {
        Option::Some(hs.last().1)
    } else {
        spec_lookup(hs.drop_last(), name)
    }
}

/// Case-insensitive lookup returning the first matching header's value, the
/// way a standard header map answers `get`.
pub open spec fn spec_lookup_ci(hs: Seq<(Seq<char>, Seq<char>)>, name: Seq<char>) -> Option<
    Seq<char>,
>
    decreases hs.len(),
{
    if hs.len() == 0 {
        Option::None
    } else if spec_lower(hs.first().0) == spec_lower(name) {
        Option::Some(hs.first().1)
    } else {
        spec_lookup_ci(hs.drop_first(), name)
    }
}

/// Exact-name lookup, last occurrence winning.
pub fn header_get<'a>(headers: &'a Vec<(String, String)>, name: &str) -> (r: Option<&'a String>)
    ensures
        match r {
            Option::Some(v) => spec_lookup(hdrs_v(headers@), name@) == Option::Some(v@),
            Option::None => spec_lookup(hdrs_v(headers@), name@) == Option::<Seq<char>>::None,
        },
{
    let n = headers.len();
    let mut i: usize = n;
    proof {
        assert(hdrs_v(headers@).take(n as int) =~= hdrs_v(headers@));
    }
    while i > 0
        invariant
            n == headers@.len(),
            0 <= i <= n,
            spec_lookup(hdrs_v(headers@), name@) == spec_lookup(
                hdrs_v(headers@).take(i as int),
                name@,
            ),
        decreases i,
    {
        proof {
            assert(hdrs_v(headers@).take(i as int).last() == hdrs_v(headers@)[i - 1]);
            assert(hdrs_v(headers@).take(i as int).drop_last() =~= hdrs_v(headers@).take(
                i - 1,
            ));
        }
        let name_string = &headers[i - 1].0;
        let eq = str_eq(name_string.as_str(), name);
        if eq {
            return Some(&headers[i - 1].1);
        }
        i -= 1;
    }
    proof {
        assert(hdrs_v(headers@).take(0) =~= Seq::<(Seq<char>, Seq<char>)>::empty());
    }
    None
}

/// Case-insensitive lookup, first occurrence winning.
pub fn header_get_ci<'a>(headers: &'a Vec<(String, String)>, name: &str) -> (r: Option<
    &'a String,
>)
    ensures
        match r {
            Option::Some(v) => spec_lookup_ci(hdrs_v(headers@), name@) == Option::Some(v@),
            Option::None => spec_lookup_ci(hdrs_v(headers@), name@) == Option::<
                Seq<char>,
            >::None,
        },
{
    let n = headers.len();
    let mut i: usize = 0;
    proof {
        assert(hdrs_v(headers@).skip(0) =~= hdrs_v(headers@));
    }
    while i < n
        invariant
            n == headers@.len(),
            0 <= i <= n,
            spec_lookup_ci(hdrs_v(headers@), name@) == spec_lookup_ci(
                hdrs_v(headers@).skip(i as int),
                name@,
            ),
        decreases n - i,
    {
        proof {
            assert(hdrs_v(headers@).skip(i as int).first() == hdrs_v(headers@)[i as int]);
            assert(hdrs_v(headers@).skip(i as int).drop_first() =~= hdrs_v(headers@).skip(
                i + 1,
            ));
        }
        let eq = eq_ignore_case(headers[i].0.as_str(), name);
        if eq {
            return Some(&headers[i].1);
        }
        i += 1;
    }
    proof {
        assert(hdrs_v(headers@).skip(n as int) =~= Seq::<(Seq<char>, Seq<char>)>::empty());
    }
    None
}

// ---------------------------------------------------------------------------
// Header filtering
// ---------------------------------------------------------------------------

/// Whether an inbound request header may be copied to the outbound request.
/// `User-Agent`, the `Accept` family and `Host` are regenerated by the
/// impersonation profile, and `Sec-*` headers belong to the client-facing
/// leg, so none of them is forwarded.
pub open spec fn spec_forwardable(name: Seq<char>) -> bool {
    &&& spec_lower(name) != "user-agent"@
    &&& spec_lower(name) != "accept"@
    &&& spec_lower(name) != "accept-encoding"@
    &&& spec_lower(name) != "accept-language"@
    &&& spec_lower(name) != "host"@
    &&& !spec_starts_with_lower(name, "sec-"@)
}

/// Whether a header may accompany a WebSocket upgrade to the upstream: the
/// request filter of the forwarding path, except that the three
/// `Sec-WebSocket-*` handshake headers are honoured and kept.
pub open spec fn spec_ws_forwardable(name: Seq<char>) -> bool {
    &&& spec_lower(name) != "user-agent"@
    &&& spec_lower(name) != "accept"@
    &&& spec_lower(name) != "accept-encoding"@
    &&& spec_lower(name) != "accept-language"@
    &&& spec_lower(name) != "host"@
    &&& (!spec_starts_with_lower(name, "sec-"@) || spec_lower(name) == "sec-websocket-key"@
        || spec_lower(name) == "sec-websocket-version"@ || spec_lower(name)
        == "sec-websocket-protocol"@)
}

/// The hop-by-hop header names of HTTP/1.1: headers that speak about one
/// connection rather than the request itself.
pub open spec fn spec_hop_by_hop(name: Seq<char>) -> bool {
    ||| spec_lower(name) == "connection"@
    ||| spec_lower(name) == "keep-alive"@
    ||| spec_lower(name) == "proxy-authenticate"@
    ||| spec_lower(name) == "proxy-authorization"@
    ||| spec_lower(name) == "te"@
    ||| spec_lower(name) == "trailers"@
    ||| spec_lower(name) == "transfer-encoding"@
    ||| spec_lower(name) == "upgrade"@
}

proof fn lemma_blocklist_literals_lower()
    ensures
        spec_lower("user-agent"@) == "user-agent"@,
        spec_lower("accept"@) == "accept"@,
        spec_lower("accept-encoding"@) == "accept-encoding"@,
        spec_lower("accept-language"@) == "accept-language"@,
        spec_lower("host"@) == "host"@,
{
    reveal_strlit("user-agent");
    reveal_strlit("accept");
    reveal_strlit("accept-encoding");
    reveal_strlit("accept-language");
    reveal_strlit("host");
    assert(spec_lower("user-agent"@) =~= "user-agent"@);
    assert(spec_lower("accept"@) =~= "accept"@);
    assert(spec_lower("accept-encoding"@) =~= "accept-encoding"@);
    assert(spec_lower("accept-language"@) =~= "accept-language"@);
    assert(spec_lower("host"@) =~= "host"@);
}

pub fn is_forwardable_header(name: &str) -> (r: bool)
    ensures
        r == spec_forwardable(name@),
{
    proof {
        lemma_blocklist_literals_lower();
    }
    let blocked = eq_ignore_case(name, "user-agent") || eq_ignore_case(name, "accept")
        || eq_ignore_case(name, "accept-encoding") || eq_ignore_case(name, "accept-language")
        || eq_ignore_case(name, "host") || starts_with_ignore_case(name, "sec-");
    !blocked
}

pub fn is_ws_forwardable_header(name: &str) -> (r: bool)
    ensures
        r == spec_ws_forwardable(name@),
{
    proof {
        lemma_blocklist_literals_lower();
        reveal_strlit("sec-websocket-key");
        reveal_strlit("sec-websocket-version");
        reveal_strlit("sec-websocket-protocol");
        assert(spec_lower("sec-websocket-key"@) =~= "sec-websocket-key"@);
        assert(spec_lower("sec-websocket-version"@) =~= "sec-websocket-version"@);
        assert(spec_lower("sec-websocket-protocol"@) =~= "sec-websocket-protocol"@);
    }
    let blocked = eq_ignore_case(name, "user-agent") || eq_ignore_case(name, "accept")
        || eq_ignore_case(name, "accept-encoding") || eq_ignore_case(name, "accept-language")
        || eq_ignore_case(name, "host") || (starts_with_ignore_case(name, "sec-")
        && !eq_ignore_case(name, "sec-websocket-key") && !eq_ignore_case(
        name,
        "sec-websocket-version",
    ) && !eq_ignore_case(name, "sec-websocket-protocol"));
    !blocked
}

pub fn is_hop_by_hop_header(name: &str) -> (r: bool)
    ensures
        r == spec_hop_by_hop(name@),
{
    proof {
        reveal_strlit("connection");
        reveal_strlit("keep-alive");
        reveal_strlit("proxy-authenticate");
        reveal_strlit("proxy-authorization");
        reveal_strlit("te");
        reveal_strlit("trailers");
        reveal_strlit("transfer-encoding");
        reveal_strlit("upgrade");
        assert(spec_lower("connection"@) =~= "connection"@);
        assert(spec_lower("keep-alive"@) =~= "keep-alive"@);
        assert(spec_lower("proxy-authenticate"@) =~= "proxy-authenticate"@);
        assert(spec_lower("proxy-authorization"@) =~= "proxy-authorization"@);
        assert(spec_lower("te"@) =~= "te"@);
        assert(spec_lower("trailers"@) =~= "trailers"@);
        assert(spec_lower("transfer-encoding"@) =~= "transfer-encoding"@);
        assert(spec_lower("upgrade"@) =~= "upgrade"@);
    }
    eq_ignore_case(name, "connection") || eq_ignore_case(name, "keep-alive")
        || eq_ignore_case(name, "proxy-authenticate") || eq_ignore_case(
        name,
        "proxy-authorization",
    ) || eq_ignore_case(name, "te") || eq_ignore_case(name, "trailers") || eq_ignore_case(
        name,
        "transfer-encoding",
    ) || eq_ignore_case(name, "upgrade")
}

/// The headers that go on an outbound HTTP request: the inbound list with
/// every profile-owned and `Sec-*` header removed, order preserved.
pub fn filter_request_headers(headers: &Vec<(String, String)>) -> (r: Vec<(String, String)>)
    ensures
        hdrs_v(r@) == hdrs_v(headers@).filter(
            |p: (Seq<char>, Seq<char>)| spec_forwardable(p.0),
        ),
{
    let ghost pred = |p: (Seq<char>, Seq<char>)| spec_forwardable(p.0);
    let n = headers.len();
    let mut out: Vec<(String, String)> = Vec::new();
    let mut i: usize = 0;
    proof {
        assert(hdrs_v(headers@).take(0).filter(pred) =~= Seq::<(Seq<char>, Seq<char>)>::empty());
        assert(hdrs_v(out@) =~= hdrs_v(headers@).take(0).filter(pred));
    }
    while i < n
        invariant
            n == headers@.len(),
            0 <= i <= n,
            pred == (|p: (Seq<char>, Seq<char>)| spec_forwardable(p.0)),
            hdrs_v(out@) == hdrs_v(headers@).take(i as int).filter(pred),
        decreases n - i,
    {
        proof {
            reveal(Seq::filter);
            assert(hdrs_v(headers@).take(i + 1).drop_last() =~= hdrs_v(headers@).take(i as int));
            assert(hdrs_v(headers@).take(i + 1).last() == hdrs_v(headers@)[i as int]);
        }
        if is_forwardable_header(headers[i].0.as_str()) {
            let name = headers[i].0.clone();
            let value = headers[i].1.clone();
            out.push((name, value));
            proof {
                assert(hdrs_v(out@) =~= hdrs_v(headers@).take(i + 1).filter(pred));
            }
        } else {
            proof {
                assert(hdrs_v(out@) =~= hdrs_v(headers@).take(i + 1).filter(pred));
            }
        }
        i += 1;
    }
    proof {
        assert(hdrs_v(headers@).take(n as int) =~= hdrs_v(headers@));
    }
    out
}

/// The headers that accompany a WebSocket upgrade to the upstream.
pub fn filter_ws_headers(headers: &Vec<(String, String)>) -> (r: Vec<(String, String)>)
    ensures
        hdrs_v(r@) == hdrs_v(headers@).filter(
            |p: (Seq<char>, Seq<char>)| spec_ws_forwardable(p.0),
        ),
{
    let ghost pred = |p: (Seq<char>, Seq<char>)| spec_ws_forwardable(p.0);
    let n = headers.len();
    let mut out: Vec<(String, String)> = Vec::new();
    let mut i: usize = 0;
    proof {
        assert(hdrs_v(headers@).take(0).filter(pred) =~= Seq::<(Seq<char>, Seq<char>)>::empty());
        assert(hdrs_v(out@) =~= hdrs_v(headers@).take(0).filter(pred));
    }
    while i < n
        invariant
            n == headers@.len(),
            0 <= i <= n,
            pred == (|p: (Seq<char>, Seq<char>)| spec_ws_forwardable(p.0)),
            hdrs_v(out@) == hdrs_v(headers@).take(i as int).filter(pred),
        decreases n - i,
    {
        proof {
            reveal(Seq::filter);
            assert(hdrs_v(headers@).take(i + 1).drop_last() =~= hdrs_v(headers@).take(i as int));
            assert(hdrs_v(headers@).take(i + 1).last() == hdrs_v(headers@)[i as int]);
        }
        if is_ws_forwardable_header(headers[i].0.as_str()) {
            let name = headers[i].0.clone();
            let value = headers[i].1.clone();
            out.push((name, value));
            proof {
                assert(hdrs_v(out@) =~= hdrs_v(headers@).take(i + 1).filter(pred));
            }
        } else {
            proof {
                assert(hdrs_v(out@) =~= hdrs_v(headers@).take(i + 1).filter(pred));
            }
        }
        i += 1;
    }
    proof {
        assert(hdrs_v(headers@).take(n as int) =~= hdrs_v(headers@));
    }
    out
}

/// The law of header filtering: what the outbound request carries is exactly
/// the forwardable part of the inbound list; a custom header survives, while
/// `User-Agent`, the `Accept` family, `Host` and every `Sec-*` header are
/// dropped.
pub proof fn lemma_header_filtering(hs: Seq<(Seq<char>, Seq<char>)>)
    ensures
        ({
            let kept = hs.filter(|p: (Seq<char>, Seq<char>)| spec_forwardable(p.0));
            &&& forall|k: int|
                0 <= k < kept.len() ==> spec_forwardable((#[trigger] kept[k]).0)
            &&& forall|k: int| 0 <= k < kept.len() ==> hs.contains(#[trigger] kept[k])
            &&& forall|i: int|
                0 <= i < hs.len() && spec_forwardable((#[trigger] hs[i]).0) ==> kept.contains(
                    hs[i],
                )
        }),
{
    let pred = |p: (Seq<char>, Seq<char>)| spec_forwardable(p.0);
    let kept = hs.filter(pred);
    assert forall|k: int| 0 <= k < kept.len() implies spec_forwardable(
        (#[trigger] kept[k]).0,
    ) by {
        hs.lemma_filter_pred(pred, k);
    }
    assert forall|k: int| 0 <= k < kept.len() implies hs.contains(#[trigger] kept[k]) by {
        crate::types::lemma_filter_elems(hs, pred, k);
    }
    assert forall|i: int|
        0 <= i < hs.len() && spec_forwardable((#[trigger] hs[i]).0) implies kept.contains(
        hs[i],
    ) by {
        hs.lemma_filter_contains(pred, i);
    }
}

// ---------------------------------------------------------------------------
// WebSocket upgrade detection
// ---------------------------------------------------------------------------

/// A request asks for a WebSocket upgrade when all four hold: `Upgrade:
/// websocket`, `Connection` containing `upgrade` (both case-insensitive),
/// and the `Sec-WebSocket-Key` and `Sec-WebSocket-Version` headers present.
pub open spec fn spec_is_upgrade(hs: Seq<(Seq<char>, Seq<char>)>) -> bool {
    &&& match spec_lookup_ci(hs, "upgrade"@) {
        Option::Some(v) => spec_lower(v) == "websocket"@,
        Option::None => false,
    }
    &&& match spec_lookup_ci(hs, "connection"@) {
        Option::Some(v) => spec_contains_lower(v, "upgrade"@),
        Option::None => false,
    }
    &&& spec_lookup_ci(hs, "sec-websocket-key"@) is Some
    &&& spec_lookup_ci(hs, "sec-websocket-version"@) is Some
}

pub fn is_websocket_upgrade(headers: &Vec<(String, String)>) -> (r: bool)
    ensures
        r == spec_is_upgrade(hdrs_v(headers@)),
{
    proof {
        reveal_strlit("websocket");
        assert(spec_lower("websocket"@) =~= "websocket"@);
    }
    let upgrade_ok = match header_get_ci(headers, "upgrade") {
        Some(v) => eq_ignore_case(v.as_str(), "websocket"),
        None => false,
    };
    let connection_ok = match header_get_ci(headers, "connection") {
        Some(v) => contains_ignore_case(v.as_str(), "upgrade"),
        None => false,
    };
    let key_ok = match header_get_ci(headers, "sec-websocket-key") {
        Some(_) => true,
        None => false,
    };
    let version_ok = match header_get_ci(headers, "sec-websocket-version") {
        Some(_) => true,
        None => false,
    };
    upgrade_ok && connection_ok && key_ok && version_ok
}

// ---------------------------------------------------------------------------
// Character search
// ---------------------------------------------------------------------------

/// First occurrence of `c` in `s` at or after `from`.
pub open spec fn find_char_from(s: Seq<char>, from: int, c: char) -> Option<int>
    decreases s.len() - from when 0 <= from
{
    if from >= s.len() {
        Option::None
    } else if s[from] == c {
        Option::Some(from)
    } else {
        find_char_from(s, from + 1, c)
    }
}

pub proof fn lemma_find_char_props(s: Seq<char>, from: int, c: char)
    requires
        0 <= from,
    ensures
        match find_char_from(s, from, c) {
            Option::Some(i) => from <= i < s.len() && s[i] == c && forall|j: int|
                from <= j < i ==> s[j] != c,
            Option::None => forall|j: int| from <= j < s.len() ==> s[j] != c,
        },
    decreases s.len() - from,
{
    if from >= s.len() {
    } else if s[from] == c {
    } else {
        lemma_find_char_props(s, from + 1, c);
    }
}

pub proof fn lemma_find_char_at(s: Seq<char>, from: int, c: char, i: int)
    requires
        0 <= from <= i < s.len(),
        s[i] == c,
        forall|j: int| from <= j < i ==> s[j] != c,
    ensures
        find_char_from(s, from, c) == Option::Some(i),
    decreases i - from,
{
    if from == i {
    } else {
        lemma_find_char_at(s, from + 1, c, i);
    }
}

pub proof fn lemma_find_char_none(s: Seq<char>, from: int, c: char)
    requires
        0 <= from,
        forall|j: int| from <= j < s.len() ==> s[j] != c,
    ensures
        find_char_from(s, from, c) == Option::<int>::None,
    decreases s.len() - from,
{
    if from >= s.len() {
    } else {
        lemma_find_char_none(s, from + 1, c);
    }
}

/// First occurrence of `c` in `s` at or after `from`, executably.
pub fn find_char(s: &str, from: usize, c: char) -> (r: Option<usize>)
    ensures
        match r {
            Option::Some(i) => find_char_from(s@, from as int, c) == Option::Some(i as int),
            Option::None => find_char_from(s@, from as int, c) == Option::<int>::None,
        },
{
    let n = s.unicode_len();
    if from >= n {
        proof {
            lemma_find_char_none(s@, from as int, c);
        }
        return None;
    }
    let mut i: usize = from;
    while i < n
        invariant
            n == s@.len(),
            from <= i <= n,
            forall|j: int| from <= j < i ==> s@[j] != c,
        decreases n - i,
    {
        if s.get_char(i) == c {
            proof {
                lemma_find_char_at(s@, from as int, c, i as int);
            }
            return Some(i);
        }
        i += 1;
    }
    proof {
        lemma_find_char_none(s@, from as int, c);
    }
    None
}

/// Whether `s` starts with `prefix`, compared exactly.
pub open spec fn spec_starts_with(s: Seq<char>, prefix: Seq<char>) -> bool {
    prefix.len() <= s.len() && s.subrange(0, prefix.len() as int) == prefix
}

pub fn str_starts_with(s: &str, prefix: &str) -> (r: bool)
    ensures
        r == spec_starts_with(s@, prefix@),
{
    let sl = s.unicode_len();
    let pl = prefix.unicode_len();
    if pl > sl {
        return false;
    }
    let mut k: usize = 0;
    while k < pl
        invariant
            sl == s@.len(),
            pl == prefix@.len(),
            pl <= sl,
            0 <= k <= pl,
            forall|j: int| 0 <= j < k ==> s@[j] == prefix@[j],
        decreases pl - k,
    {
        if s.get_char(k) != prefix.get_char(k) {
            proof {
                assert(s@.subrange(0, prefix@.len() as int)[k as int] != prefix@[k as int]);
            }
            return false;
        }
        k += 1;
    }
    proof {
        assert(s@.subrange(0, prefix@.len() as int) =~= prefix@);
    }
    true
}

/// Exact string equality.
pub fn str_eq(a: &str, b: &str) -> (r: bool)
    ensures
        r == (a@ == b@),
{
    let al = a.unicode_len();
    let bl = b.unicode_len();
    if al != bl {
        return false;
    }
    let mut k: usize = 0;
    while k < al
        invariant
            al == a@.len(),
            al == b@.len(),
            0 <= k <= al,
            forall|j: int| 0 <= j < k ==> a@[j] == b@[j],
        decreases al - k,
    {
        if a.get_char(k) != b.get_char(k) {
            return false;
        }
        k += 1;
    }
    proof {
        assert(a@ =~= b@);
    }
    true
}

} // verus!
