//! What the proxy decides about the connections and requests it receives.

use crate::json::{lemma_member_get_after_remove, lemma_member_get_after_set, Json, JsonValue};
use crate::provider::gemini_cache::{
    api_key_of, bytes_or_empty, content_hash_of, gemini_first_step, handle_gemini_request, with_cached_content, GeminiCacheStore,
    GeminiStep,
};
use crate::provider::{
    inject_cache_headers, injection_result, lemma_strip_members_get, strip_cc, Provider, ProviderKind,
};
use crate::proxy::tls::{host_port, is_llm_domain, is_llm_host, parse_host};
use crate::text::{
    before_char, chars_of, concat, copy_str, decimal, decimal_string, find_char, index_of,
    lemma_index_of, lowercase, str_eq, string_from_range, to_lowercase,
    to_uppercase, uppercase, utf8_text, white_space, is_white_space,
};
use vstd::prelude::*;
use vstd::utf8::{decode_utf8, valid_utf8};

pub mod tls;

verus! {

/// The number of leading characters of `s` that are white space (`white`)
/// or that are not (`!white`).
pub open spec fn run_len(s: Seq<char>, white: bool) -> nat
    decreases s.len(),
{
    if s.len() > 0 && is_white_space(s[0]) == white {
        1 + run_len(s.drop_first(), white)
    } else {
        0
    }
}

proof fn lemma_run_len(s: Seq<char>, white: bool)
    ensures
        run_len(s, white) <= s.len(),
        forall|j: int| 0 <= j < run_len(s, white) ==> is_white_space(s[j]) == white,
        run_len(s, white) < s.len() ==> is_white_space(s[run_len(s, white) as int]) != white,
    decreases s.len(),
{
    if s.len() > 0 && is_white_space(s[0]) == white {
        lemma_run_len(s.drop_first(), white);
        assert forall|j: int| 0 <= j < run_len(s, white) implies is_white_space(s[j]) == white by {
            if j > 0 {
                assert(s[j] == s.drop_first()[j - 1]);
            }
        }
    }
}

proof fn lemma_run_len_at(s: Seq<char>, white: bool, i: int)
    requires
        0 <= i <= s.len(),
        forall|j: int| 0 <= j < i ==> is_white_space(s[j]) == white,
        i == s.len() || is_white_space(s[i]) != white,
    ensures
        run_len(s, white) == i,
    decreases s.len(),
{
    if s.len() > 0 && i > 0 {
        assert forall|j: int| 0 <= j < i - 1 implies is_white_space(s.drop_first()[j]) == white by {
            assert(s.drop_first()[j] == s[j + 1]);
        }
        lemma_run_len_at(s.drop_first(), white, i - 1);
    }
}

/// The position after the run of white (or non-white) characters that starts
/// at `from` in `v[from..to]`.
fn skip_run(v: &Vec<char>, from: usize, to: usize, white: bool) -> (r: usize)
    requires
        from <= to <= v@.len(),
    ensures
        from <= r <= to,
        r - from == run_len(v@.subrange(from as int, to as int), white),
{
    let mut i = from;
    while i < to && white_space(v[i]) == white
        invariant
            from <= i <= to <= v@.len(),
            forall|j: int| from <= j < i ==> is_white_space(v@[j]) == white,
        decreases to - i,
    {
        i = i + 1;
    }
    proof {
        let s = v@.subrange(from as int, to as int);
        assert forall|j: int| 0 <= j < i - from implies is_white_space(s[j]) == white by {
            assert(s[j] == v@[from + j]);
        }
        if i < to {
            assert(s[i - from] == v@[i as int]);
        }
        lemma_run_len_at(s, white, i - from);
    }
    i
}

/// The first word of `s` when split at white space (as `str::split_whitespace`
/// splits), and the text after that word.
pub open spec fn next_word(s: Seq<char>) -> (Seq<char>, Seq<char>) {
    let t = s.skip(run_len(s, true) as int);
    let n = run_len(t, false);
    (t.take(n as int), t.skip(n as int))
}

/// The first line of a text as `str::lines` yields it: the text up to the
/// first `\n`, without a `\r` right before that `\n`; the whole text when it
/// holds no `\n`; nothing for an empty text.
pub open spec fn first_line(s: Seq<char>) -> Option<Seq<char>> {
    if s.len() == 0 {
        None
    } else if index_of(s, '\n') < s.len() {
        let l = s.take(index_of(s, '\n') as int);
        if l.len() > 0 && l.last() == '\r' {
            Some(l.drop_last())
        } else {
            Some(l)
        }
    } else {
        Some(s)
    }
}

/// The target of a request line `CONNECT authority ...`: its first word is
/// `CONNECT` once uppercased, and its second word is split into host and port.
pub open spec fn connect_line_target(line: Seq<char>) -> Option<(Seq<char>, u16)> {
    let w1 = next_word(line).0;
    let w2 = next_word(next_word(line).1).0;
    if w1.len() == 0 || w2.len() == 0 || uppercase(w1) != "CONNECT"@ {
        None
    } else {
        Some(host_port(w2))
    }
}

/// The target of a tunnel request: the request must be UTF-8 text whose
/// first line is a `CONNECT` request line.
pub open spec fn connect_target(request: Seq<u8>) -> Option<(Seq<char>, u16)> {
    if !valid_utf8(request) {
        None
    } else {
        match first_line(decode_utf8(request)) {
            None => None,
            Some(line) => connect_line_target(line),
        }
    }
}

proof fn lemma_first_line(v: Seq<char>, nl: int, end: int)
    requires
        v.len() > 0,
        nl == index_of(v, '\n'),
        end == if nl < v.len() && nl > 0 && v[nl - 1] == '\r' {
            nl - 1
        } else {
            nl
        },
    ensures
        0 <= end <= v.len(),
        first_line(v) == Some(v.subrange(0, end)),
{
    lemma_index_of(v, '\n');
    let line = v.subrange(0, end);
    if nl < v.len() {
        if nl > 0 && v[nl - 1] == '\r' {
            assert(v.take(nl).drop_last() =~= line);
        } else {
            assert(v.take(nl) =~= line);
        }
    } else {
        assert(line =~= v);
    }
}

proof fn lemma_two_words(v: Seq<char>, end: int, a: int, b: int, c: int, d: int)
    requires
        0 <= a <= b <= c <= d <= end <= v.len(),
        a == run_len(v.subrange(0, end), true),
        b - a == run_len(v.subrange(a, end), false),
        c - b == run_len(v.subrange(b, end), true),
        d - c == run_len(v.subrange(c, end), false),
    ensures
        next_word(v.subrange(0, end)).0 == v.subrange(a, b),
        next_word(next_word(v.subrange(0, end)).1).0 == v.subrange(c, d),
{
    let line = v.subrange(0, end);
    let t = line.skip(a);
    assert(t =~= v.subrange(a, end));
    let rest = t.skip(b - a);
    assert(rest =~= v.subrange(b, end));
    assert(t.take(b - a) =~= v.subrange(a, b));
    let t2 = rest.skip(c - b);
    assert(t2 =~= v.subrange(c, end));
    assert(t2.take(d - c) =~= v.subrange(c, d));
}

/// The host and port of a `CONNECT` request (see `connect_target`), or `None`
/// for a malformed one.
pub fn parse_connect_request(buf: &[u8]) -> (r: Option<(String, u16)>)
    ensures
        match connect_target(buf@) {
            None => r is None,
            Some(t) => r matches Some(p) && p.0@ == t.0 && p.1 == t.1,
        },
{
    let s = match utf8_text(buf) {
        Some(s) => s,
        None => return None,
    };
    let v = chars_of(s);
    let n = v.len();
    if n == 0 {
        return None;
    }
    let nl = find_char(&v, 0, n, '\n');
    let end = if nl < n && nl > 0 && v[nl - 1] == '\r' {
        nl - 1
    } else {
        nl
    };
    proof {
        assert(v@.subrange(0, n as int) =~= v@);
        lemma_first_line(v@, nl as int, end as int);
    }
    let a = skip_run(&v, 0, end, true);
    let b = skip_run(&v, a, end, false);
    let c = skip_run(&v, b, end, true);
    let d = skip_run(&v, c, end, false);
    proof {
        lemma_two_words(v@, end as int, a as int, b as int, c as int, d as int);
    }
    if a == b || c == d {
        return None;
    }
    let w1 = string_from_range(&v, a, b);
    let up = to_uppercase(w1.as_str());
    if !str_eq(up.as_str(), "CONNECT") {
        return None;
    }
    let w2 = string_from_range(&v, c, d);
    let (host, port) = parse_host(w2.as_str());
    Some((host, port))
}

/// What the proxy does with a tunnel request.
pub enum TunnelAction {
    /// The request is malformed: answer `400 Bad Request`.
    Reject,
    /// An LLM API host on port 443: decrypt the tunnel and rewrite its requests.
    Intercept(String),
    /// Any other target: relay the bytes to `host:port` untouched.
    Passthrough(String, u16),
}

/// The action for a tunnel request: reject a malformed one; intercept an LLM
/// API host (see `is_llm_host`) on port 443; pass everything else through.
pub fn tunnel_action(request: &[u8]) -> (r: TunnelAction)
    ensures
        match connect_target(request@) {
            None => r is Reject,
            Some(t) => if is_llm_host(lowercase(t.0)) && t.1 == 443 {
                r matches TunnelAction::Intercept(h) && h@ == t.0
            } else {
                r matches TunnelAction::Passthrough(h, p) && h@ == t.0 && p == t.1
            },
        },
{
    match parse_connect_request(request) {
        None => TunnelAction::Reject,
        Some((host, port)) => {
            if is_llm_domain(host.as_str()) && port == 443 {
                TunnelAction::Intercept(host)
            } else {
                TunnelAction::Passthrough(host, port)
            }
        },
    }
}

/// The bytes of the word `CONNECT`, which opens a tunnel request.
pub open spec fn connect_bytes() -> Seq<u8> {
    seq![67u8, 79u8, 78u8, 78u8, 69u8, 67u8, 84u8]
}

/// Whether a connection whose first bytes are `peeked` asks for a tunnel:
/// they begin with `CONNECT` (any other connection is served as plain HTTP).
pub fn is_tunnel_request(peeked: &[u8]) -> (r: bool)
    ensures
        r == (peeked@.len() >= 7 && peeked@.take(7) == connect_bytes()),
{
    if peeked.len() < 7 {
        return false;
    }
    let r = peeked[0] == 67 && peeked[1] == 79 && peeked[2] == 78 && peeked[3] == 78 && peeked[4]
        == 69 && peeked[5] == 67 && peeked[6] == 84;
    proof {
        if r {
            assert(peeked@.take(7) =~= connect_bytes());
        } else {
            assert(peeked@.take(7) != connect_bytes()) by {
                if peeked@.take(7) == connect_bytes() {
                    assert(peeked@.take(7)[0] == peeked@[0]);
                    assert(peeked@.take(7)[1] == peeked@[1]);
                    assert(peeked@.take(7)[2] == peeked@[2]);
                    assert(peeked@.take(7)[3] == peeked@[3]);
                    assert(peeked@.take(7)[4] == peeked@[4]);
                    assert(peeked@.take(7)[5] == peeked@[5]);
                    assert(peeked@.take(7)[6] == peeked@[6]);
                }
            }
        }
    }
    r
}

/// The end of a request head, `\r\n\r\n`, occurs in `buf`.
pub open spec fn has_head_end(buf: Seq<u8>) -> bool {
    exists|i: int|
        0 <= i && i + 4 <= buf.len() && #[trigger] buf[i] == 13u8 && buf[i + 1] == 10u8 && buf[i
            + 2] == 13u8 && buf[i + 3] == 10u8
}

/// Whether the bytes read so far hold a whole request head (see `has_head_end`).
pub fn headers_complete(buf: &[u8]) -> (r: bool)
    ensures
        r == has_head_end(buf@),
{
    let n = buf.len();
    if n < 4 {
        return false;
    }
    let mut i: usize = 0;
    while i <= n - 4
        invariant
            n == buf@.len(),
            4 <= n,
            i <= n - 3,
            forall|k: int|
                0 <= k < i ==> !(#[trigger] buf@[k] == 13u8 && buf@[k + 1] == 10u8 && buf@[k + 2]
                    == 13u8 && buf@[k + 3] == 10u8),
        decreases n - i,
    {
        if buf[i] == 13 && buf[i + 1] == 10 && buf[i + 2] == 13 && buf[i + 3] == 10 {
            return true;
        }
        i = i + 1;
    }
    false
}

/// The address `host:port` that a passed-through tunnel connects to.
pub fn target_address(host: &str, port: u16) -> (r: String)
    ensures
        r@ == host@ + ":"@ + decimal(port as nat),
{
    let with_colon = concat(host, ":");
    let digits = decimal_string(port as u64);
    concat(with_colon.as_str(), digits.as_str())
}

/// The names under which a client addresses the proxy itself.
pub open spec fn is_local_name(h: Seq<char>) -> bool {
    h == "127.0.0.1"@ || h == "localhost"@ || h == "0.0.0.0"@
}

/// The upstream host of a direct request: the host of the request URI unless
/// it names the proxy itself; otherwise the `Host` header up to its first
/// `:`; otherwise the empty name.
pub open spec fn direct_host(uri_host: Option<Seq<char>>, host_header: Option<Seq<char>>) -> Seq<
    char,
> {
    if uri_host is Some && !is_local_name(uri_host->0) {
        uri_host->0
    } else {
        match host_header {
            Some(h) => before_char(h, ':'),
            None => Seq::empty(),
        }
    }
}

/// The upstream host of a direct request (see `direct_host`).
pub fn direct_target_host(uri_host: Option<&str>, host_header: Option<&str>) -> (r: String)
    ensures
        r@ == direct_host(
            match uri_host {
                Some(h) => Some(h@),
                None => None,
            },
            match host_header {
                Some(h) => Some(h@),
                None => None,
            },
        ),
{
    if let Some(h) = uri_host {
        proof {
            reveal_strlit("127.0.0.1");
            reveal_strlit("localhost");
            reveal_strlit("0.0.0.0");
        }
        if !(str_eq(h, "127.0.0.1") || str_eq(h, "localhost") || str_eq(h, "0.0.0.0")) {
            return copy_str(h);
        }
    }
    match host_header {
        Some(v) => {
            let c = chars_of(v);
            let n = c.len();
            let i = find_char(&c, 0, n, ':');
            proof {
                assert(c@.subrange(0, n as int) =~= c@);
                assert(c@.subrange(0, i as int) =~= c@.take(i as int));
            }
            string_from_range(&c, 0, i)
        },
        None => String::new(),
    }
}

/// The headers that are not copied from a client's request to the upstream one.
pub open spec fn is_hop_header(name: Seq<char>) -> bool {
    name == "host"@ || name == "proxy-connection"@ || name == "transfer-encoding"@
}

/// Exactly three request headers are withheld from the upstream request:
/// `host`, `proxy-connection` and `transfer-encoding` (by lowercase name);
/// every other header, such as `authorization`, `x-api-key` or
/// `anthropic-version`, is forwarded.
pub proof fn lemma_withheld_request_headers()
    ensures
        Set::new(|n: Seq<char>| is_hop_header(n)) == set![
            "host"@,
            "proxy-connection"@,
            "transfer-encoding"@,
        ],
{
    assert(Set::new(|n: Seq<char>| is_hop_header(n)) =~= set![
        "host"@,
        "proxy-connection"@,
        "transfer-encoding"@,
    ]);
}

/// Whether a request header named `name` is forwarded upstream: every header
/// but those of `is_hop_header`, compared in lowercase.
pub fn forwarded_request_header(name: &str) -> (r: bool)
    ensures
        r == !is_hop_header(lowercase(name@)),
{
    let n = to_lowercase(name);
    !(str_eq(n.as_str(), "host") || str_eq(n.as_str(), "proxy-connection") || str_eq(
        n.as_str(),
        "transfer-encoding",
    ))
}

/// The headers that are not passed back from an upstream response to the client.
pub open spec fn is_withheld_response_header(name: Seq<char>) -> bool {
    name == "transfer-encoding"@
}

/// Exactly one response header is withheld from the client:
/// `transfer-encoding` (by lowercase name); every other header, such as
/// `content-type` or `anthropic-ratelimit-requests-remaining`, is passed back.
pub proof fn lemma_withheld_response_headers()
    ensures
        Set::new(|n: Seq<char>| is_withheld_response_header(n)) == set!["transfer-encoding"@],
{
    assert(Set::new(|n: Seq<char>| is_withheld_response_header(n)) =~= set!["transfer-encoding"@]);
}

/// Whether a response header named `name` is passed back to the client: all
/// but those of `is_withheld_response_header`, compared in lowercase.
pub fn forwarded_response_header(name: &str) -> (r: bool)
    ensures
        r == (lowercase(name@) != "transfer-encoding"@),
        r == !is_withheld_response_header(lowercase(name@)),
{
    let n = to_lowercase(name);
    !str_eq(n.as_str(), "transfer-encoding")
}

/// The providers whose request bodies the proxy reads in direct mode: those
/// whose cache strategy changes the body (GLM's strips `cache_control`).
pub open spec fn rewrites_body(p: ProviderKind) -> bool {
    p is Anthropic || p is OpenAI || p is Gemini || p is GLM
}

/// Whether a direct request to `provider` has its JSON body read and rewritten.
pub fn needs_json_processing(provider: &Provider) -> (r: bool)
    ensures
        r == rewrites_body(provider@),
{
    match provider {
        Provider::Anthropic | Provider::OpenAI | Provider::Gemini | Provider::GLM => true,
        _ => false,
    }
}

/// The model named by a request body: its `model` member when that is a
/// string, else `unknown` (also when the body is not JSON).
pub open spec fn model_of(body: Option<crate::json::JsonValue>) -> Seq<char> {
    match body {
        Some(b) => match b.text_member("model"@) {
            Some(m) => m,
            None => "unknown"@,
        },
        None => "unknown"@,
    }
}

/// The model of a request (see `model_of`).
pub fn request_model(body: Option<&Json>) -> (r: String)
    ensures
        r@ == model_of(
            match body {
                Some(b) => Some(b@),
                None => None,
            },
        ),
{
    if let Some(b) = body {
        if let Some(m) = b.get("model") {
            if let Some(t) = m.as_str() {
                return copy_str(t);
            }
        }
    }
    copy_str("unknown")
}

/// The API key a Gemini request is made with: that of its URL (see
/// `api_key_of`), or the empty key.
pub open spec fn request_api_key(uri: Seq<char>) -> Seq<char> {
    match api_key_of(uri) {
        Some(k) => k,
        None => Seq::empty(),
    }
}

/// The first step of rewriting a request body for `provider`. A Gemini
/// request goes through the context cache (see `gemini_first_step`) with the
/// API key of `uri`, the model of the body, and the content hash of its
/// serialized `contents` and `system_instruction` (`contents_json` and
/// `system_json`, absent when the body has none); for every other provider
/// its cache strategy is applied (see `injection_result`) and the request is
/// done.
pub fn rewrite_request(
    provider: &Provider,
    body: &mut Json,
    uri: &str,
    contents_json: Option<&[u8]>,
    system_json: Option<&[u8]>,
    store: &GeminiCacheStore,
) -> (r: GeminiStep)
    ensures
        provider@ is Gemini ==> gemini_first_step(
            old(body)@,
            request_api_key(uri@),
            model_of(Some(old(body)@)),
            content_hash_of(bytes_or_empty(contents_json), bytes_or_empty(system_json)),
            store@,
            final(body)@,
            r,
        ),
        !(provider@ is Gemini) ==> (r matches GeminiStep::Done(inj) && injection_result(
            provider@,
            old(body)@,
        ) == (final(body)@, inj.injected, inj.messages())),
{
    match provider {
        Provider::Gemini => {
            let api_key = match GeminiCacheStore::extract_api_key(uri) {
                Some(k) => k,
                None => String::new(),
            };
            let model = request_model(Some(&*body));
            let content_hash = GeminiCacheStore::compute_hash(contents_json, system_json);
            handle_gemini_request(
                body,
                api_key.as_str(),
                model.as_str(),
                content_hash.as_str(),
                store,
            )
        },
        _ => GeminiStep::Done(inject_cache_headers(provider, body)),
    }
}

/// Applying a provider's cache strategy never changes the model a request
/// names.
pub proof fn lemma_rewrite_keeps_model(p: ProviderKind, b: JsonValue)
    ensures
        model_of(Some(injection_result(p, b).0)) == model_of(Some(b)),
{
    reveal_strlit("model");
    reveal_strlit("system");
    reveal_strlit("prompt_cache_key");
    reveal_strlit("cache_control");
    reveal_strlit("messages");
    assert("model"@.len() != "messages"@.len());
    assert("model"@.len() != "system"@.len());
    assert("model"@.len() != "prompt_cache_key"@.len());
    assert("model"@.len() != "cache_control"@.len());
    if let JsonValue::Object(m) = b {
        assert forall|k: Seq<char>, v: JsonValue|
            k != "model"@ implies #[trigger] crate::json::member_get(
            crate::json::member_set(m, k, v),
            "model"@,
        ) == crate::json::member_get(m, "model"@) by {
            lemma_member_get_after_set(m, k, v, "model"@);
        }
        lemma_strip_members_get(m, "model"@);
        match crate::json::member_get(m, "model"@) {
            Some(v) => {
                assert(strip_cc(v).as_text() == v.as_text());
            },
            None => {},
        }
    }
}

/// Referring to a Gemini context cache never changes the model a request
/// names.
pub proof fn lemma_cached_content_keeps_model(b: JsonValue, name: Seq<char>)
    ensures
        model_of(Some(with_cached_content(b, name))) == model_of(Some(b)),
{
    reveal_strlit("model");
    reveal_strlit("cachedContent");
    reveal_strlit("contents");
    reveal_strlit("system_instruction");
    assert("model"@.len() != "cachedContent"@.len());
    assert("model"@.len() != "contents"@.len());
    assert("model"@.len() != "system_instruction"@.len());
    if let JsonValue::Object(m) = b {
        let s1 = crate::json::member_set(m, "cachedContent"@, JsonValue::Text(name));
        let s2 = crate::json::member_remove(s1, "contents"@);
        lemma_member_get_after_set(m, "cachedContent"@, JsonValue::Text(name), "model"@);
        lemma_member_get_after_remove(s1, "contents"@, "model"@);
        lemma_member_get_after_remove(s2, "system_instruction"@, "model"@);
    }
}

/// The upstream URL of a request: `https://`, the host, then the path and query.
pub fn upstream_url(host: &str, path_and_query: &str) -> (r: String)
    ensures
        r@ == "https://"@ + host@ + path_and_query@,
{
    let head = concat("https://", host);
    concat(head.as_str(), path_and_query)
}

} // verus!
