//! Request handling of the dashboard's static web server: which requests
//! ask for the connection settings, which name a file under the web root,
//! and the texts of the responses.
use vstd::prelude::*;
use crate::text::{
    chars_of, decimal, decimal_digits, same_str, spells, split_words, string_of, utf8_len, utf8_length, words,
};

verus! {

/// Bytes that are all ASCII.
pub open spec fn all_ascii_bytes(b: Seq<u8>) -> bool {
    forall|i: int| 0 <= i < b.len() ==> #[trigger] b[i] < 0x80
}

/// What `String::from_utf8_lossy` makes of bytes that are not all ASCII.
pub uninterp spec fn lossy_text_beyond_ascii(b: Seq<u8>) -> Seq<char>;

/// Bytes read as UTF-8, malformed sequences replaced: ASCII bytes read one
/// character each.
pub open spec fn lossy_text(b: Seq<u8>) -> Seq<char> {
    if all_ascii_bytes(b) {
        b.map_values(|x: u8| x as char)
    } else {
        lossy_text_beyond_ascii(b)
    }
}

/// `String::from_utf8_lossy`: ASCII bytes read one character each; other
/// byte strings read as the name `lossy_text_beyond_ascii`.
#[verifier::external_body]
fn decode_lossy(b: &[u8]) -> (s: String)
    ensures
        s@ == (if all_ascii_bytes(b@) {
            b@.map_values(|x: u8| x as char)
        } else {
            lossy_text_beyond_ascii(b@)
        }),
{
    String::from_utf8_lossy(b).into_owned()
}

/// Index of the first `'?'` at or after `i` (or the length).
pub open spec fn query_at(p: Seq<char>, i: int) -> int
    decreases p.len() - i,
{
    if i < 0 || i >= p.len() {
        p.len() as int
    } else if p[i] == '?' {
        i
    } else {
        query_at(p, i + 1)
    }
}

/// Index of the first character at or after `i` that is not `'/'`.
pub open spec fn past_slashes(p: Seq<char>, i: int) -> int
    decreases p.len() - i,
{
    if i < 0 || i >= p.len() {
        p.len() as int
    } else if p[i] == '/' {
        past_slashes(p, i + 1)
    } else {
        i
    }
}

/// The path a request asks for: for `GET` requests the second word, with
/// `/` read as `/index.html`, the query cut off and leading slashes removed.
pub open spec fn requested_path(text: Seq<char>) -> Option<Seq<char>> {
    let w = words(text);
    if w.len() >= 2 && w[0] == "GET"@ {
        let p = if w[1] == "/"@ { "/index.html"@ } else { w[1] };
        let q = p.subrange(0, query_at(p, 0));
        Some(q.subrange(past_slashes(q, 0), q.len() as int))
    } else {
        None
    }
}

/// The path asks for the connection settings.
pub open spec fn is_config_path(p: Seq<char>) -> bool {
    p == "config"@ || p == "config.json"@
}

/// What a request is answered with.
pub enum HttpRoute {
    /// Not a `GET` request: no answer.
    Ignore,
    /// The connection settings of the dashboard socket.
    Config,
    /// The file at this path under the web root, if there is one.
    File(String),
}

/// Index of the first `'?'` in `p`.
fn find_query(p: &[char]) -> (i: usize)
    ensures
        i == query_at(p@, 0),
{
    let mut i: usize = 0;
    while i < p.len() && p[i] != '?'
        invariant
            i <= p.len(),
            query_at(p@, i as int) == query_at(p@, 0),
        decreases p.len() - i,
    {
        i = i + 1;
    }
    i
}

/// Index of the first character of `p` that is not `'/'`.
fn skip_slashes(p: &[char]) -> (i: usize)
    ensures
        i == past_slashes(p@, 0),
{
    let mut i: usize = 0;
    while i < p.len() && p[i] == '/'
        invariant
            i <= p.len(),
            past_slashes(p@, i as int) == past_slashes(p@, 0),
        decreases p.len() - i,
    {
        i = i + 1;
    }
    i
}

proof fn lemma_query_at_bounds(p: Seq<char>, i: int)
    requires
        0 <= i <= p.len(),
    ensures
        i <= query_at(p, i) <= p.len(),
    decreases p.len() - i,
{
    if i < p.len() && p[i] != '?' {
        lemma_query_at_bounds(p, i + 1);
    }
}

proof fn lemma_past_slashes_bounds(p: Seq<char>, i: int)
    requires
        0 <= i <= p.len(),
    ensures
        i <= past_slashes(p, i) <= p.len(),
    decreases p.len() - i,
{
    if i < p.len() && p[i] == '/' {
        lemma_past_slashes_bounds(p, i + 1);
    }
}

/// The characters `s[lo..hi]`.
fn cut(s: &[char], lo: usize, hi: usize) -> (v: Vec<char>)
    requires
        lo <= hi <= s.len(),
    ensures
        v@ == s@.subrange(lo as int, hi as int),
{
    let mut v: Vec<char> = Vec::new();
    let mut k = lo;
    while k < hi
        invariant
            lo <= k <= hi <= s.len(),
            v@ == s@.subrange(lo as int, k as int),
        decreases hi - k,
    {
        v.push(s[k]);
        k = k + 1;
    }
    v
}

/// Decides what the request in `buffer` is answered with.
pub fn route_request(buffer: &[u8]) -> (r: HttpRoute)
    ensures
        match requested_path(lossy_text(buffer@)) {
            None => r is Ignore,
            Some(p) => if is_config_path(p) {
                r is Config
            } else {
                r matches HttpRoute::File(f) && f@ == p
            },
        },
{
    let text = decode_lossy(buffer);
    let chars = chars_of(text.as_str());
    let w = split_words(&chars);
    let ghost ws = words(lossy_text(buffer@));
    if w.len() < 2 {
        return HttpRoute::Ignore;
    }
    assert(w[0]@ == ws[0] && w[1]@ == ws[1]);
    if !spells(&w[0], "GET") {
        return HttpRoute::Ignore;
    }
    let p = if spells(&w[1], "/") {
        chars_of("/index.html")
    } else {
        let c = cut(&w[1], 0, w[1].len());
        assert(c@ =~= w[1]@);
        c
    };
    assert(p@ == (if ws[1] == "/"@ { "/index.html"@ } else { ws[1] }));
    let q_end = find_query(&p);
    proof {
        lemma_query_at_bounds(p@, 0);
    }
    let q = cut(&p, 0, q_end);
    let start = skip_slashes(&q);
    proof {
        lemma_past_slashes_bounds(q@, 0);
    }
    let path = cut(&q, start, q.len());
    assert(requested_path(lossy_text(buffer@)) == Some(path@));
    if spells(&path, "config") || spells(&path, "config.json") {
        HttpRoute::Config
    } else {
        HttpRoute::File(string_of(&path))
    }
}

/// Body of the connection-settings answer.
pub open spec fn config_body_of(ws_host: Seq<char>, ws_port: u16) -> Seq<char> {
    "{\"ws_host\": \""@ + ws_host + "\", \"ws_port\": "@ + decimal(ws_port as nat) + "}"@
}

/// Header of a successful answer with the given content type and length.
pub open spec fn ok_header_of(content_type: Seq<char>, length: nat) -> Seq<char> {
    "HTTP/1.1 200 OK\r\nContent-Type: "@ + content_type + "\r\nContent-Length: "@ + decimal(length)
        + "\r\nConnection: close\r\n\r\n"@
}

/// Appends the characters of `s` to `v`.
fn append_str(v: &mut Vec<char>, s: &str)
    ensures
        final(v)@ == old(v)@ + s@,
{
    let mut c = chars_of(s);
    v.append(&mut c);
}

/// Header of a successful answer with the given content type and length.
pub fn ok_header(content_type: &str, length: u128) -> (h: String)
    ensures
        h@ == ok_header_of(content_type@, length as nat),
{
    let mut v: Vec<char> = Vec::new();
    append_str(&mut v, "HTTP/1.1 200 OK\r\nContent-Type: ");
    append_str(&mut v, content_type);
    append_str(&mut v, "\r\nContent-Length: ");
    let mut d = decimal_digits(length);
    v.append(&mut d);
    append_str(&mut v, "\r\nConnection: close\r\n\r\n");
    string_of(&v)
}

/// The complete connection-settings answer: a JSON header whose length
/// counts the body's UTF-8 bytes, then the body.
pub fn config_response(ws_host: &str, ws_port: u16) -> (r: String)
    ensures
        r@ == ok_header_of("application/json"@, utf8_len(config_body_of(ws_host@, ws_port)))
            + config_body_of(ws_host@, ws_port),
{
    let mut body: Vec<char> = Vec::new();
    append_str(&mut body, "{\"ws_host\": \"");
    append_str(&mut body, ws_host);
    append_str(&mut body, "\", \"ws_port\": ");
    let mut d = decimal_digits(ws_port as u128);
    body.append(&mut d);
    append_str(&mut body, "}");
    let len = utf8_length(&body);
    let header = ok_header("application/json", len);
    let mut v = chars_of(header.as_str());
    v.append(&mut body);
    string_of(&v)
}

/// Content type served for a file extension.
pub open spec fn mime_of(ext: Option<Seq<char>>) -> Seq<char> {
    match ext {
        Some(e) => if e == "html"@ {
            "text/html"@
        } else if e == "css"@ {
            "text/css"@
        } else if e == "js"@ {
            "application/javascript"@
        } else if e == "png"@ {
            "image/png"@
        } else if e == "jpg"@ || e == "jpeg"@ {
            "image/jpeg"@
        } else {
            "application/octet-stream"@
        },
        None => "application/octet-stream"@,
    }
}

/// Content type served for a file extension.
pub fn mime_type(ext: Option<&str>) -> (m: &'static str)
    ensures
        m@ == mime_of(match ext {
            Some(e) => Some(e@),
            None => None,
        }),
{
    match ext {
        Some(e) => if same_str(e, "html") {
            "text/html"
        } else if same_str(e, "css") {
            "text/css"
        } else if same_str(e, "js") {
            "application/javascript"
        } else if same_str(e, "png") {
            "image/png"
        } else if same_str(e, "jpg") || same_str(e, "jpeg") {
            "image/jpeg"
        } else {
            "application/octet-stream"
        },
        None => "application/octet-stream",
    }
}

/// Path law: a requested path never starts with `'/'` and holds no `'?'`,
/// so it always names something below the web root's top level by a plain
/// relative path.
pub proof fn lemma_requested_path_is_relative(text: Seq<char>)
    ensures
        requested_path(text) matches Some(p) ==> (p.len() > 0 ==> p[0] != '/') && !p.contains('?'),
{
    let w = words(text);
    if w.len() >= 2 && w[0] == "GET"@ {
        let p = if w[1] == "/"@ { "/index.html"@ } else { w[1] };
        lemma_query_at_bounds(p, 0);
        let q = p.subrange(0, query_at(p, 0));
        lemma_no_query_before(p, 0);
        lemma_past_slashes_bounds(q, 0);
        lemma_past_slashes_stops(q, 0);
        let r = q.subrange(past_slashes(q, 0), q.len() as int);
        assert forall|k: int| 0 <= k < r.len() implies r[k] != '?' by {
            assert(r[k] == q[past_slashes(q, 0) + k]);
        }
    }
}

proof fn lemma_no_query_before(p: Seq<char>, i: int)
    requires
        0 <= i <= p.len(),
    ensures
        forall|k: int| i <= k < query_at(p, i) ==> p[k] != '?',
    decreases p.len() - i,
{
    if i < p.len() && p[i] != '?' {
        lemma_no_query_before(p, i + 1);
    }
}

proof fn lemma_past_slashes_stops(p: Seq<char>, i: int)
    requires
        0 <= i <= p.len(),
    ensures
        past_slashes(p, i) < p.len() ==> p[past_slashes(p, i)] != '/',
    decreases p.len() - i,
{
    if i < p.len() && p[i] == '/' {
        lemma_past_slashes_stops(p, i + 1);
    }
}

} // verus!
