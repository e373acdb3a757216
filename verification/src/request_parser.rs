use vstd::prelude::*;

use vstd::utf8::{valid_utf8, decode_utf8};

use crate::headers::{
    hdrs_v, spec_lookup, spec_lower, spec_contains_lower, header_get, contains_ignore_case,
    eq_ignore_case,
};
use crate::types::ProxyError;

verus! {

// ---------------------------------------------------------------------------
// The request-head grammar, over byte sequences
// ---------------------------------------------------------------------------

/// A CRLF CRLF at position `i`: the end of the request head.
pub open spec fn is_crlf2_at(b: Seq<u8>, i: int) -> bool {
    &&& 0 <= i
    &&& i + 4 <= b.len()
    &&& b[i] == 13u8
    &&& b[i + 1] == 10u8
    &&& b[i + 2] == 13u8
    &&& b[i + 3] == 10u8
}

/// First CRLF CRLF at or after `from`.
pub open spec fn find_crlf2_from(b: Seq<u8>, from: int) -> Option<int>
    decreases b.len() - from when 0 <= from
{
    if from + 4 > b.len() {
        Option::None
    } else if is_crlf2_at(b, from) {
        Option::Some(from)
    } else {
        find_crlf2_from(b, from + 1)
    }
}

/// A CRLF at position `i`.
pub open spec fn is_crlf_at(b: Seq<u8>, i: int) -> bool {
    &&& 0 <= i
    &&& i + 2 <= b.len()
    &&& b[i] == 13u8
    &&& b[i + 1] == 10u8
}

/// First CRLF at or after `from`.
pub open spec fn find_crlf_from(b: Seq<u8>, from: int) -> Option<int>
    decreases b.len() - from when 0 <= from
{
    if from + 2 > b.len() {
        Option::None
    } else if is_crlf_at(b, from) {
        Option::Some(from)
    } else {
        find_crlf_from(b, from + 1)
    }
}

/// First occurrence of byte `x` at or after `from`.
pub open spec fn find_byte_from(b: Seq<u8>, from: int, x: u8) -> Option<int>
    decreases b.len() - from when 0 <= from
{
    if from >= b.len() {
        Option::None
    } else if b[from] == x {
        Option::Some(from)
    } else {
        find_byte_from(b, from + 1, x)
    }
}

/// Where the request head ends: the first CRLF CRLF.
pub open spec fn spec_head_end(b: Seq<u8>) -> Option<int> {
    find_crlf2_from(b, 0)
}

/// The request line is `METHOD SP PATH SP VERSION CRLF`, with a non-empty
/// method and path, both valid UTF-8.
pub open spec fn spec_request_line_wf(b: Seq<u8>) -> bool {
    match (find_crlf_from(b, 0), find_byte_from(b, 0, 32u8)) {
        (Option::Some(le), Option::Some(s1)) => match find_byte_from(b, s1 + 1, 32u8) {
            Option::Some(s2) => {
                &&& 0 < s1
                &&& s1 + 1 < s2
                &&& s2 < le
                &&& valid_utf8(b.subrange(0, s1))
                &&& valid_utf8(b.subrange(s1 + 1, s2))
            },
            Option::None => false,
        },
        _ => false,
    }
}

pub open spec fn spec_method_bytes(b: Seq<u8>) -> Seq<u8> {
    b.subrange(0, find_byte_from(b, 0, 32u8)->Some_0)
}

pub open spec fn spec_path_bytes(b: Seq<u8>) -> Seq<u8> {
    let s1 = find_byte_from(b, 0, 32u8)->Some_0;
    b.subrange(s1 + 1, find_byte_from(b, s1 + 1, 32u8)->Some_0)
}

/// Optional whitespace around a header value.
pub open spec fn is_ows(x: u8) -> bool {
    x == 32u8 || x == 9u8
}

pub open spec fn spec_trim_front(s: Seq<u8>) -> Seq<u8>
    decreases s.len(),
{
    if s.len() > 0 && is_ows(s[0]) {
        spec_trim_front(s.drop_first())
    } else {
        s
    }
}

pub open spec fn spec_trim_back(s: Seq<u8>) -> Seq<u8>
    decreases s.len(),
{
    if s.len() > 0 && is_ows(s.last()) {
        spec_trim_back(s.drop_last())
    } else {
        s
    }
}

pub open spec fn spec_trim(s: Seq<u8>) -> Seq<u8> {
    spec_trim_back(spec_trim_front(s))
}

/// One header line: the name before the first colon, the value after it with
/// surrounding whitespace trimmed.  A line without a colon is no header.
pub open spec fn spec_header_line(line: Seq<u8>) -> Option<(Seq<u8>, Seq<u8>)> {
    match find_byte_from(line, 0, 58u8) {
        Option::Some(c) => Option::Some(
            (line.subrange(0, c), spec_trim(line.subrange(c + 1, line.len() as int))),
        ),
        Option::None => Option::None,
    }
}

/// The raw header pairs of the head region, line by line.  `end` is the
/// position of the terminating CRLF CRLF.
pub open spec fn spec_headers_from(b: Seq<u8>, pos: int, end: int) -> Seq<(Seq<u8>, Seq<u8>)>
    decreases end + 2 - pos when 0 <= pos
{
    if pos >= end + 2 {
        Seq::empty()
    } else {
        match find_crlf_from(b, pos) {
            Option::None => Seq::empty(),
            Option::Some(lend) => {
                if lend > end || lend < pos {
                    Seq::empty()
                } else {
                    let rest = spec_headers_from(b, lend + 2, end);
                    match spec_header_line(b.subrange(pos, lend)) {
                        Option::Some(pair) => seq![pair] + rest,
                        Option::None => rest,
                    }
                }
            },
        }
    }
}

/// The decoded header list: pairs whose name and value are valid UTF-8, in
/// order; the others are skipped.
pub open spec fn spec_decode_headers(raw: Seq<(Seq<u8>, Seq<u8>)>) -> Seq<(Seq<char>, Seq<char>)>
    decreases raw.len(),
{
    if raw.len() == 0 {
        Seq::empty()
    } else {
        let rest = spec_decode_headers(raw.drop_last());
        if valid_utf8(raw.last().0) && valid_utf8(raw.last().1) {
            rest.push((decode_utf8(raw.last().0), decode_utf8(raw.last().1)))
        } else {
            rest
        }
    }
}

/// The header list of a complete head.
pub open spec fn spec_request_headers(b: Seq<u8>) -> Seq<(Seq<char>, Seq<char>)> {
    spec_decode_headers(
        spec_headers_from(b, find_crlf_from(b, 0)->Some_0 + 2, spec_head_end(b)->Some_0),
    )
}

/// A blank line (CRLF CRLF) at position `i` of a character sequence.
pub open spec fn is_crlf2_chars_at(s: Seq<char>, i: int) -> bool {
    &&& 0 <= i
    &&& i + 4 <= s.len()
    &&& s[i] == '\r'
    &&& s[i + 1] == '\n'
    &&& s[i + 2] == '\r'
    &&& s[i + 3] == '\n'
}

/// First CRLF CRLF in a character sequence.
pub open spec fn find_crlf2_chars_from(s: Seq<char>, from: int) -> Option<int>
    decreases s.len() - from when 0 <= from
{
    if from + 4 > s.len() {
        Option::None
    } else if is_crlf2_chars_at(s, from) {
        Option::Some(from)
    } else {
        find_crlf2_chars_from(s, from + 1)
    }
}

/// What the body extractor returns: the text after the first blank line of
/// the decoded buffer, if the whole buffer decodes.
pub open spec fn spec_request_body(b: Seq<u8>) -> Option<Seq<char>> {
    if !valid_utf8(b) {
        Option::None
    } else {
        match find_crlf2_chars_from(decode_utf8(b), 0) {
            Option::Some(i) => Option::Some(decode_utf8(b).skip(i + 4)),
            Option::None => Option::None,
        }
    }
}

/// Whether the exact-name `Upgrade` header says `websocket`.
pub open spec fn spec_upgrade_is_websocket(hs: Seq<(Seq<char>, Seq<char>)>) -> bool {
    match spec_lookup(hs, "Upgrade"@) {
        Option::Some(v) => spec_lower(v) == "websocket"@,
        Option::None => false,
    }
}

// ---------------------------------------------------------------------------
// Find lemmas
// ---------------------------------------------------------------------------

proof fn lemma_find_crlf2_props(b: Seq<u8>, from: int)
    requires
        0 <= from,
    ensures
        match find_crlf2_from(b, from) {
            Option::Some(i) => from <= i && is_crlf2_at(b, i) && forall|j: int|
                from <= j < i ==> !is_crlf2_at(b, j),
            Option::None => forall|j: int| from <= j ==> !is_crlf2_at(b, j),
        },
    decreases b.len() - from,
{
    if from + 4 > b.len() {
    } else if is_crlf2_at(b, from) {
    } else {
        lemma_find_crlf2_props(b, from + 1);
    }
}

proof fn lemma_find_crlf2_at(b: Seq<u8>, from: int, i: int)
    requires
        0 <= from <= i,
        is_crlf2_at(b, i),
        forall|j: int| from <= j < i ==> !is_crlf2_at(b, j),
    ensures
        find_crlf2_from(b, from) == Option::Some(i),
    decreases i - from,
{
    if from == i {
    } else {
        lemma_find_crlf2_at(b, from + 1, i);
    }
}

proof fn lemma_find_crlf_props(b: Seq<u8>, from: int)
    requires
        0 <= from,
    ensures
        match find_crlf_from(b, from) {
            Option::Some(i) => from <= i && is_crlf_at(b, i) && forall|j: int|
                from <= j < i ==> !is_crlf_at(b, j),
            Option::None => forall|j: int| from <= j ==> !is_crlf_at(b, j),
        },
    decreases b.len() - from,
{
    if from + 2 > b.len() {
    } else if is_crlf_at(b, from) {
    } else {
        lemma_find_crlf_props(b, from + 1);
    }
}

proof fn lemma_find_crlf_at(b: Seq<u8>, from: int, i: int)
    requires
        0 <= from <= i,
        is_crlf_at(b, i),
        forall|j: int| from <= j < i ==> !is_crlf_at(b, j),
    ensures
        find_crlf_from(b, from) == Option::Some(i),
    decreases i - from,
{
    if from == i {
    } else {
        lemma_find_crlf_at(b, from + 1, i);
    }
}

proof fn lemma_find_byte_props(b: Seq<u8>, from: int, x: u8)
    requires
        0 <= from,
    ensures
        match find_byte_from(b, from, x) {
            Option::Some(i) => from <= i < b.len() && b[i] == x && forall|j: int|
                from <= j < i ==> b[j] != x,
            Option::None => forall|j: int| from <= j < b.len() ==> b[j] != x,
        },
    decreases b.len() - from,
{
    if from >= b.len() {
    } else if b[from] == x {
    } else {
        lemma_find_byte_props(b, from + 1, x);
    }
}

proof fn lemma_find_byte_at(b: Seq<u8>, from: int, x: u8, i: int)
    requires
        0 <= from <= i < b.len(),
        b[i] == x,
        forall|j: int| from <= j < i ==> b[j] != x,
    ensures
        find_byte_from(b, from, x) == Option::Some(i),
    decreases i - from,
{
    if from == i {
    } else {
        lemma_find_byte_at(b, from + 1, x, i);
    }
}

proof fn lemma_find_byte_none(b: Seq<u8>, from: int, x: u8)
    requires
        0 <= from,
        forall|j: int| from <= j < b.len() ==> b[j] != x,
    ensures
        find_byte_from(b, from, x) == Option::<int>::None,
    decreases b.len() - from,
{
    if from >= b.len() {
    } else {
        lemma_find_byte_none(b, from + 1, x);
    }
}

proof fn lemma_find_crlf2_chars_at(s: Seq<char>, from: int, i: int)
    requires
        0 <= from <= i,
        is_crlf2_chars_at(s, i),
        forall|j: int| from <= j < i ==> !is_crlf2_chars_at(s, j),
    ensures
        find_crlf2_chars_from(s, from) == Option::Some(i),
    decreases i - from,
{
    if from == i {
    } else {
        lemma_find_crlf2_chars_at(s, from + 1, i);
    }
}

proof fn lemma_find_crlf2_chars_none(s: Seq<char>, from: int)
    requires
        0 <= from,
        forall|j: int| from <= j ==> !is_crlf2_chars_at(s, j),
    ensures
        find_crlf2_chars_from(s, from) == Option::<int>::None,
    decreases s.len() - from,
{
    if from + 4 > s.len() {
    } else {
        lemma_find_crlf2_chars_none(s, from + 1);
    }
}

// ---------------------------------------------------------------------------
// Executable search
// ---------------------------------------------------------------------------

fn find_crlf2(buffer: &[u8]) -> (r: Option<usize>)
    ensures
        match r {
            Option::Some(i) => find_crlf2_from(buffer@, 0) == Option::Some(i as int),
            Option::None => find_crlf2_from(buffer@, 0) == Option::<int>::None,
        },
{
    let n = buffer.len();
    let mut i: usize = 0;
    while n - i >= 4
        invariant
            n == buffer@.len(),
            0 <= i,
            i <= n,
            forall|j: int| 0 <= j < i ==> !is_crlf2_at(buffer@, j),
        decreases n - i,
    {
        if buffer[i] == 13 && buffer[i + 1] == 10 && buffer[i + 2] == 13 && buffer[i + 3] == 10 {
            proof {
                lemma_find_crlf2_at(buffer@, 0, i as int);
            }
            return Some(i);
        }
        i += 1;
    }
    proof {
        lemma_find_crlf2_props(buffer@, 0);
        if find_crlf2_from(buffer@, 0) is Some {
            let w = find_crlf2_from(buffer@, 0)->Some_0;
            assert(!is_crlf2_at(buffer@, w));
        }
    }
    None
}

fn find_crlf(buffer: &[u8], from: usize) -> (r: Option<usize>)
    ensures
        match r {
            Option::Some(i) => find_crlf_from(buffer@, from as int) == Option::Some(i as int),
            Option::None => find_crlf_from(buffer@, from as int) == Option::<int>::None,
        },
{
    let n = buffer.len();
    if from > n {
        proof {
            lemma_find_crlf_props(buffer@, from as int);
            if find_crlf_from(buffer@, from as int) is Some {
                let w = find_crlf_from(buffer@, from as int)->Some_0;
                assert(!is_crlf_at(buffer@, w));
            }
        }
        return None;
    }
    let mut i: usize = from;
    while n - i >= 2
        invariant
            n == buffer@.len(),
            from <= i,
            i <= n,
            forall|j: int| from <= j < i ==> !is_crlf_at(buffer@, j),
        decreases n - i,
    {
        if buffer[i] == 13 && buffer[i + 1] == 10 {
            proof {
                lemma_find_crlf_at(buffer@, from as int, i as int);
            }
            return Some(i);
        }
        i += 1;
    }
    proof {
        lemma_find_crlf_props(buffer@, from as int);
        if find_crlf_from(buffer@, from as int) is Some {
            let w = find_crlf_from(buffer@, from as int)->Some_0;
            assert(!is_crlf_at(buffer@, w));
        }
    }
    None
}

fn find_byte(buffer: &[u8], from: usize, x: u8) -> (r: Option<usize>)
    ensures
        match r {
            Option::Some(i) => find_byte_from(buffer@, from as int, x) == Option::Some(i as int),
            Option::None => find_byte_from(buffer@, from as int, x) == Option::<int>::None,
        },
{
    let n = buffer.len();
    if from >= n {
        proof {
            lemma_find_byte_none(buffer@, from as int, x);
        }
        return None;
    }
    let mut i: usize = from;
    while i < n
        invariant
            n == buffer@.len(),
            from <= i,
            i <= n,
            forall|j: int| from <= j < i ==> buffer@[j] != x,
        decreases n - i,
    {
        if buffer[i] == x {
            proof {
                lemma_find_byte_at(buffer@, from as int, x, i as int);
            }
            return Some(i);
        }
        i += 1;
    }
    proof {
        lemma_find_byte_none(buffer@, from as int, x);
    }
    None
}

// ---------------------------------------------------------------------------
// Trimming
// ---------------------------------------------------------------------------

proof fn lemma_trim_front_skip(s: Seq<u8>, a: int)
    requires
        0 <= a <= s.len(),
        forall|j: int| 0 <= j < a ==> is_ows(s[j]),
        a < s.len() ==> !is_ows(s[a]),
    ensures
        spec_trim_front(s) == s.skip(a),
    decreases a,
{
    if a == 0 {
        assert(s.skip(0) =~= s);
    } else {
        assert(is_ows(s[0]));
        lemma_trim_front_skip(s.drop_first(), a - 1);
        assert(s.drop_first().skip(a - 1) =~= s.skip(a));
    }
}

proof fn lemma_trim_back_take(s: Seq<u8>, z: int)
    requires
        0 <= z <= s.len(),
        forall|j: int| z <= j < s.len() ==> is_ows(s[j]),
        z > 0 ==> !is_ows(s[z - 1]),
    ensures
        spec_trim_back(s) == s.take(z),
    decreases s.len() - z,
{
    if z == s.len() {
        assert(s.take(z) =~= s);
    } else {
        assert(is_ows(s.last()));
        lemma_trim_back_take(s.drop_last(), z);
        assert(s.drop_last().take(z) =~= s.take(z));
    }
}

/// The value of `v` with surrounding whitespace removed, as a subrange
/// `[r.0, r.1)` of `v`.
fn trim_bounds(v: &[u8]) -> (r: (usize, usize))
    ensures
        0 <= r.0 <= r.1 <= v@.len(),
        v@.subrange(r.0 as int, r.1 as int) == spec_trim(v@),
{
    let n = v.len();
    let mut a: usize = 0;
    while a < n && (v[a] == 32 || v[a] == 9)
        invariant
            n == v@.len(),
            0 <= a <= n,
            forall|j: int| 0 <= j < a ==> is_ows(v@[j]),
        decreases n - a,
    {
        a += 1;
    }
    proof {
        lemma_trim_front_skip(v@, a as int);
    }
    if a == n {
        proof {
            assert(spec_trim_front(v@) =~= Seq::<u8>::empty());
            assert(spec_trim(v@) =~= v@.subrange(a as int, a as int));
        }
        return (a, a);
    }
    let mut z: usize = n;
    while z > a && (v[z - 1] == 32 || v[z - 1] == 9)
        invariant
            n == v@.len(),
            a <= z <= n,
            a < n,
            !is_ows(v@[a as int]),
            forall|j: int| z <= j < n ==> is_ows(v@[j]),
        decreases z,
    {
        z -= 1;
    }
    proof {
        let front = v@.skip(a as int);
        assert(forall|j: int|
            0 <= j < front.len() ==> front[j] == v@[j + a]);
        lemma_trim_back_take(front, z - a);
        assert(front.take(z - a) =~= v@.subrange(a as int, z as int));
    }
    (a, z)
}

// ---------------------------------------------------------------------------
// Decoding
// ---------------------------------------------------------------------------

/// Relies on std's str::from_utf8: it accepts exactly the valid UTF-8 byte
/// strings and decodes them to the characters that decode_utf8 gives.
#[verifier::external_body]
fn bytes_to_string(v: &[u8]) -> (r: Option<String>)
    ensures
        match r {
            Option::Some(s) => valid_utf8(v@) && s@ == decode_utf8(v@),
            Option::None => !valid_utf8(v@),
        },
{
    match core::str::from_utf8(v) {
        Ok(s) => Some(s.to_string()),
        Err(_) => None,
    }
}

// ---------------------------------------------------------------------------
// The parsed request
// ---------------------------------------------------------------------------

/// A decoded request head: the request line, the headers in wire order, the
/// body text, and whether the head announces a WebSocket upgrade.
#[derive(Debug, Clone)]
pub struct Request {
    pub method: String,
    pub path: String,
    pub headers: Vec<(String, String)>,
    pub body: Option<String>,
    pub is_websocket: bool,
}

impl Request {
    /// Whether the stored headers ask for an upgrade: `Upgrade: websocket`
    /// with a `Connection` header containing `upgrade`, both values matched
    /// case-insensitively, the names exactly.
    pub fn is_upgrade_request(&self) -> (r: bool)
        ensures
            r == ({
                &&& spec_upgrade_is_websocket(hdrs_v(self.headers@))
                &&& match spec_lookup(hdrs_v(self.headers@), "Connection"@) {
                    Option::Some(v) => spec_contains_lower(v, "upgrade"@),
                    Option::None => false,
                }
            }),
    {
        proof {
            reveal_strlit("websocket");
            assert(spec_lower("websocket"@) =~= "websocket"@);
        }
        let up = match header_get(&self.headers, "Upgrade") {
            Some(v) => eq_ignore_case(v.as_str(), "websocket"),
            None => false,
        };
        let conn = match header_get(&self.headers, "Connection") {
            Some(v) => contains_ignore_case(v.as_str(), "upgrade"),
            None => false,
        };
        up && conn
    }
}

/// The request body: the text after the first blank line, provided the whole
/// buffer decodes as UTF-8.
pub fn get_request_body(buffer: &[u8]) -> (r: Option<String>)
    ensures
        match r {
            Option::Some(s) => spec_request_body(buffer@) == Option::Some(s@),
            Option::None => spec_request_body(buffer@) == Option::<Seq<char>>::None,
        },
{
    match bytes_to_string(buffer) {
        None => None,
        Some(s) => {
            let text = s.as_str();
            let n = text.unicode_len();
            let mut i: usize = 0;
            while n - i >= 4
                invariant
                    n == text@.len(),
                    text@ == decode_utf8(buffer@),
                    valid_utf8(buffer@),
                    0 <= i <= n,
                    forall|j: int| 0 <= j < i ==> !is_crlf2_chars_at(text@, j),
                decreases n - i,
            {
                if text.get_char(i) == '\r' && text.get_char(i + 1) == '\n' && text.get_char(
                    i + 2,
                ) == '\r' && text.get_char(i + 3) == '\n' {
                    proof {
                        lemma_find_crlf2_chars_at(text@, 0, i as int);
                    }
                    let body = text.substring_char(i + 4, n);
                    let owned = body.to_owned();
                    proof {
                        assert(text@.subrange(i + 4, n as int) =~= decode_utf8(buffer@).skip(
                            i + 4,
                        ));
                    }
                    return Some(owned);
                }
                i += 1;
            }
            proof {
                assert(forall|j: int| 0 <= j ==> !is_crlf2_chars_at(text@, j));
                lemma_find_crlf2_chars_none(text@, 0);
            }
            None
        },
    }
}

/// Parses a request head: the request line, then one header per line, the
/// head ending at the first blank line.  Returns the head still incomplete,
/// or malformed, as such.
pub fn parse_request(buffer: &[u8]) -> (r: Result<Request, ProxyError>)
    ensures
        match r {
            Result::Ok(req) => {
                &&& spec_head_end(buffer@) is Some
                &&& spec_request_line_wf(buffer@)
                &&& req.method@ == decode_utf8(spec_method_bytes(buffer@))
                &&& req.path@ == decode_utf8(spec_path_bytes(buffer@))
                &&& hdrs_v(req.headers@) == spec_request_headers(buffer@)
                &&& (match req.body {
                    Option::Some(s) => spec_request_body(buffer@) == Option::Some(s@),
                    Option::None => spec_request_body(buffer@) == Option::<Seq<char>>::None,
                })
                &&& req.is_websocket == spec_upgrade_is_websocket(
                    spec_request_headers(buffer@),
                )
            },
            Result::Err(e) => {
                &&& (e is IncompleteRequest <==> spec_head_end(buffer@) is None)
                &&& (e is MalformedRequest <==> spec_head_end(buffer@) is Some
                    && !spec_request_line_wf(buffer@))
                &&& (e is IncompleteRequest || e is MalformedRequest)
            },
        },
{
    let ghost b = buffer@;
    let n = buffer.len();
    let he = match find_crlf2(buffer) {
        None => {
            return Err(ProxyError::IncompleteRequest);
        },
        Some(h) => h,
    };
    proof {
        lemma_find_crlf2_props(b, 0);
    }
    let le = match find_crlf(buffer, 0) {
        None => {
            proof {
                lemma_find_crlf_props(b, 0);
                assert(is_crlf_at(b, he as int));
                assert(false);
            }
            return Err(ProxyError::MalformedRequest);
        },
        Some(l) => l,
    };
    let s1 = match find_byte(buffer, 0, 32) {
        None => {
            return Err(ProxyError::MalformedRequest);
        },
        Some(v) => v,
    };
    proof {
        lemma_find_byte_props(b, 0, 32u8);
    }
    let s2 = match find_byte(buffer, s1 + 1, 32) {
        None => {
            return Err(ProxyError::MalformedRequest);
        },
        Some(v) => v,
    };
    if !(0 < s1 && s1 + 1 < s2 && s2 < le) {
        return Err(ProxyError::MalformedRequest);
    }
    proof {
        lemma_find_byte_props(b, s1 + 1, 32u8);
        lemma_find_crlf_props(b, 0);
    }
    let method = match bytes_to_string(&buffer[0..s1]) {
        None => {
            return Err(ProxyError::MalformedRequest);
        },
        Some(m) => m,
    };
    let path = match bytes_to_string(&buffer[s1 + 1..s2]) {
        None => {
            return Err(ProxyError::MalformedRequest);
        },
        Some(p) => p,
    };
    proof {
        lemma_find_crlf_props(b, 0);
        assert(is_crlf_at(b, he as int));
        assert(le <= he);
    }
    let hstart = le + 2;
    let mut pos: usize = hstart;
    let mut headers: Vec<(String, String)> = Vec::new();
    let ghost raw_all = spec_headers_from(b, hstart as int, he as int);
    let ghost mut raw_acc: Seq<(Seq<u8>, Seq<u8>)> = Seq::empty();
    proof {
        assert(raw_all =~= raw_acc + spec_headers_from(b, pos as int, he as int));
        assert(hdrs_v(headers@) =~= spec_decode_headers(raw_acc));
    }
    while pos < he + 2
        invariant
            b == buffer@,
            n == b.len(),
            is_crlf2_at(b, he as int),
            hstart <= pos <= he + 2,
            raw_all == raw_acc + spec_headers_from(b, pos as int, he as int),
            hdrs_v(headers@) == spec_decode_headers(raw_acc),
        decreases he + 2 - pos,
    {
        let lend = match find_crlf(buffer, pos) {
            None => {
                proof {
                    lemma_find_crlf_props(b, pos as int);
                    if pos <= he {
                        assert(is_crlf_at(b, he as int));
                    } else {
                        assert(is_crlf_at(b, he + 2));
                    }
                    assert(false);
                }
                return Err(ProxyError::MalformedRequest);
            },
            Some(l) => l,
        };
        proof {
            lemma_find_crlf_props(b, pos as int);
        }
        if lend > he {
            proof {
                assert(spec_headers_from(b, pos as int, he as int) =~= Seq::<(
                    Seq<u8>,
                    Seq<u8>,
                )>::empty());
                assert(raw_all =~= raw_acc + spec_headers_from(b, he + 2, he as int));
            }
            pos = he + 2;
        } else {
            let line = &buffer[pos..lend];
            let ghost rest = spec_headers_from(b, lend + 2, he as int);
            proof {
                assert(line@ == b.subrange(pos as int, lend as int));
            }
            match find_byte(line, 0, 58) {
                Some(c) => {
                    proof {
                        lemma_find_byte_props(line@, 0, 58u8);
                    }
                    let ghost pair = (
                        line@.subrange(0, c as int),
                        spec_trim(line@.subrange(c + 1, line@.len() as int)),
                    );
                    proof {
                        assert(spec_header_line(line@) == Option::Some(pair));
                        assert(spec_headers_from(b, pos as int, he as int) == seq![pair]
                            + rest);
                        assert(raw_all =~= (raw_acc.push(pair)) + rest);
                    }
                    let name_b = &line[0..c];
                    let val_region = &line[c + 1..line.len()];
                    let bounds = trim_bounds(val_region);
                    let val_b = &val_region[bounds.0..bounds.1];
                    proof {
                        assert(name_b@ == pair.0);
                        assert(val_region@ == line@.subrange(c + 1, line@.len() as int));
                        assert(val_b@ == pair.1);
                    }
                    let name_s = bytes_to_string(name_b);
                    let val_s = bytes_to_string(val_b);
                    let ghost old_raw = raw_acc;
                    proof {
                        raw_acc = raw_acc.push(pair);
                        assert(raw_acc.drop_last() =~= old_raw);
                    }
                    match (name_s, val_s) {
                        (Some(nm), Some(vl)) => {
                            headers.push((nm, vl));
                            proof {
                                assert(hdrs_v(headers@) =~= spec_decode_headers(raw_acc));
                            }
                        },
                        _ => {
                            proof {
                                assert(hdrs_v(headers@) =~= spec_decode_headers(raw_acc));
                            }
                        },
                    }
                    pos = lend + 2;
                },
                None => {
                    proof {
                        assert(spec_header_line(line@) == Option::<(Seq<u8>, Seq<u8>)>::None);
                        assert(spec_headers_from(b, pos as int, he as int) == rest);
                    }
                    pos = lend + 2;
                },
            }
        }
    }
    proof {
        assert(spec_headers_from(b, pos as int, he as int) =~= Seq::<(Seq<u8>, Seq<u8>)>::empty());
        assert(raw_all =~= raw_acc);
        assert(hdrs_v(headers@) == spec_request_headers(b));
    }
    let is_websocket = match header_get(&headers, "Upgrade") {
        Some(v) => {
            proof {
                reveal_strlit("websocket");
                assert(spec_lower("websocket"@) =~= "websocket"@);
            }
            eq_ignore_case(v.as_str(), "websocket")
        },
        None => false,
    };
    let body = get_request_body(buffer);
    Ok(Request { method, path, headers, body, is_websocket })
}

} // verus!
