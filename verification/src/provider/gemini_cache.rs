//! Gemini context caching.
//!
//! Gemini caches a context only through its `cachedContents` API: a request whose
//! context is long enough is looked up by the hash of its content; on a hit the
//! request refers to the cached content by name; on a miss the request is
//! forwarded unchanged while the cache is created (by the caller, which owns the
//! network) for the requests that follow.

use crate::digest::{digest_prefix_hex, hex_lower, is_hex_digit, sha256_digest};
use crate::keyed::{entries_map, has_key, is_first_key, lemma_exists_first_key, lemma_first_key};
use crate::json::{
    has_member, is_first_member, lemma_first_member, lemma_member_get_after_remove,
    lemma_member_get_after_set, member_get, member_remove, member_set, Json, JsonValue,
};
use crate::provider::gemini::{estimate_prompt_tokens, prompt_tokens, MIN_CACHE_TOKENS};
use crate::provider::{injected_with, no_injection, sat, CacheInjection};
use crate::text::{
    after_char, before_char, chars_of, concat, copy_str, decimal, decimal_string, find_char,
    lemma_index_of, str_eq, string_from_chars, string_from_range,
};
use vstd::prelude::*;

verus! {

/// The bytes of an optional serialized part; none when it is absent.
pub open spec fn bytes_or_empty(b: Option<&[u8]>) -> Seq<u8> {
    match b {
        Some(x) => x@,
        None => Seq::empty(),
    }
}

/// The content hash of a Gemini request whose serialized `contents` and
/// `system_instruction` are `contents` and `system`: the lowercase hex of the
/// first eight bytes of the SHA-256 digest of the two, one after the other.
pub open spec fn content_hash_of(contents: Seq<u8>, system: Seq<u8>) -> Seq<char> {
    hex_lower(sha256_digest(contents + system).take(8))
}

/// The members of a request body that its content hash covers, in the order
/// they are hashed: `contents` and `system_instruction`, each when present.
pub open spec fn hashed_members_of(body: JsonValue) -> (Option<JsonValue>, Option<JsonValue>) {
    (body.get("contents"@), body.get("system_instruction"@))
}

/// The members of `body` whose serialized texts `compute_hash` takes (see
/// `hashed_members_of`).
pub fn hashed_members(body: &Json) -> (r: (Option<&Json>, Option<&Json>))
    ensures
        (
            match r.0 {
                Some(v) => Some(v@),
                None => None,
            },
            match r.1 {
                Some(v) => Some(v@),
                None => None,
            },
        ) == hashed_members_of(body@),
{
    let contents = body.get("contents");
    let system = body.get("system_instruction");
    (contents, system)
}

/// The content hash covers two members alone: two request bodies that agree on
/// `contents` and on `system_instruction` give the same members to hash,
/// whatever else they hold.
pub proof fn lemma_hash_covers_two_members(a: JsonValue, b: JsonValue)
    requires
        a.get("contents"@) == b.get("contents"@),
        a.get("system_instruction"@) == b.get("system_instruction"@),
    ensures
        hashed_members_of(a) == hashed_members_of(b),
{
}

/// The cache name stored for `hash`, if any.
pub open spec fn lookup(m: Map<Seq<char>, Seq<char>>, hash: Seq<char>) -> Option<Seq<char>> {
    if m.contains_key(hash) {
        Some(m[hash])
    } else {
        None
    }
}

/// What a read gives back of a write: once `set_cache` has stored `name` for
/// `hash`, `get_cache` finds `name` for `hash` and, for every other hash,
/// what it found before.
pub proof fn lemma_get_after_set(
    m: Map<Seq<char>, Seq<char>>,
    hash: Seq<char>,
    name: Seq<char>,
    other: Seq<char>,
)
    ensures
        lookup(m.insert(hash, name), hash) == Some(name),
        other != hash ==> lookup(m.insert(hash, name), other) == lookup(m, other),
{
}

/// A new store finds nothing.
pub proof fn lemma_new_store_empty(hash: Seq<char>)
    ensures
        lookup(Map::<Seq<char>, Seq<char>>::empty(), hash) is None,
{
}

/// Names of created Gemini context caches, by content hash.
pub struct GeminiCacheStore {
    caches: Vec<(String, String)>,
}

impl View for GeminiCacheStore {
    type V = Map<Seq<char>, Seq<char>>;

    closed spec fn view(&self) -> Map<Seq<char>, Seq<char>> {
        entries_map(self.caches@.map_values(|e: (String, String)| (e.0@, e.1@)))
    }
}

impl GeminiCacheStore {
    closed spec fn entries(&self) -> Seq<(Seq<char>, Seq<char>)> {
        self.caches@.map_values(|e: (String, String)| (e.0@, e.1@))
    }

    /// An empty store.
    pub fn new() -> (r: Self)
        ensures
            r@ == Map::<Seq<char>, Seq<char>>::empty(),
    {
        let r = GeminiCacheStore { caches: Vec::new() };
        assert(r@ =~= Map::<Seq<char>, Seq<char>>::empty());
        r
    }

    fn find(&self, hash: &str) -> (r: Option<usize>)
        ensures
            match r {
                Some(i) => is_first_key(self.entries(), hash@, i as int),
                None => !has_key(self.entries(), hash@),
            },
    {
        let n = self.caches.len();
        for i in 0..n
            invariant
                n == self.caches@.len(),
                forall|j: int| 0 <= j < i ==> self.entries()[j].0 != hash@,
        {
            if str_eq(self.caches[i].0.as_str(), hash) {
                return Some(i);
            }
        }
        None
    }

    /// The cache name stored for `hash`.
    pub fn get_cache(&self, hash: &str) -> (r: Option<String>)
        ensures
            match r {
                Some(name) => lookup(self@, hash@) == Some(name@),
                None => lookup(self@, hash@) is None,
            },
    {
        match self.find(hash) {
            Some(i) => {
                proof {
                    lemma_first_key(self.entries(), hash@, i as int);
                }
                Some(self.caches[i].1.clone())
            },
            None => None,
        }
    }

    /// Stores `cache_name` for `hash`, replacing any name stored for it.
    pub fn set_cache(&mut self, hash: String, cache_name: String)
        ensures
            final(self)@ == old(self)@.insert(hash@, cache_name@),
    {
        let ghost old_entries = self.entries();
        match self.find(hash.as_str()) {
            Some(i) => {
                proof {
                    lemma_first_key(old_entries, hash@, i as int);
                }
                let ghost k = hash@;
                let ghost v = cache_name@;
                self.caches.set(i, (hash, cache_name));
                let ghost ne = self.entries();
                assert(ne =~= old_entries.update(i as int, (k, v)));
                assert forall|key: Seq<char>|
                    #[trigger] entries_map(ne).contains_key(key) == old(self)@.insert(
                        k,
                        v,
                    ).contains_key(key) by {
                    if key != k && has_key(old_entries, key) {
                        let w = choose|j: int| 0 <= j < old_entries.len() && old_entries[j].0 == key;
                        assert(ne[w].0 == key);
                    }
                    if key != k && has_key(ne, key) {
                        let w = choose|j: int| 0 <= j < ne.len() && ne[j].0 == key;
                        assert(old_entries[w].0 == key);
                    }
                    if key == k {
                        assert(ne[i as int].0 == key);
                    }
                }
                assert forall|key: Seq<char>| #[trigger]
                    entries_map(ne).contains_key(key) implies entries_map(ne)[key] == old(
                    self,
                )@.insert(k, v)[key] by {
                    if key == k {
                        lemma_first_key(ne, k, i as int);
                    } else {
                        let w = choose|j: int| is_first_key(old_entries, key, j);
                        assert(has_key(old_entries, key));
                        assert(exists|j: int| is_first_key(old_entries, key, j)) by {
                            lemma_exists_first_key(
                                old_entries,
                                key,
                            );
                        }
                        assert(is_first_key(old_entries, key, w));
                        assert(is_first_key(ne, key, w));
                        lemma_first_key(ne, key, w);
                    }
                }
                assert(entries_map(ne) =~= old(self)@.insert(k, v));
            },
            None => {
                let ghost k = hash@;
                let ghost v = cache_name@;
                self.caches.push((hash, cache_name));
                let ghost ne = self.entries();
                assert(ne =~= old_entries.push((k, v)));
                assert forall|key: Seq<char>|
                    #[trigger] entries_map(ne).contains_key(key) == old(self)@.insert(
                        k,
                        v,
                    ).contains_key(key) by {
                    if key != k && has_key(old_entries, key) {
                        let w = choose|j: int| 0 <= j < old_entries.len() && old_entries[j].0 == key;
                        assert(ne[w].0 == key);
                    }
                    if key != k && has_key(ne, key) {
                        let w = choose|j: int| 0 <= j < ne.len() && ne[j].0 == key;
                        assert(old_entries[w].0 == key);
                    }
                    if key == k {
                        assert(ne[old_entries.len() as int].0 == key);
                    }
                }
                assert forall|key: Seq<char>| #[trigger]
                    entries_map(ne).contains_key(key) implies entries_map(ne)[key] == old(
                    self,
                )@.insert(k, v)[key] by {
                    if key == k {
                        lemma_first_key(ne, k, old_entries.len() as int);
                    } else {
                        lemma_exists_first_key(old_entries, key);
                        let w = choose|j: int| is_first_key(old_entries, key, j);
                        assert(is_first_key(ne, key, w));
                        lemma_first_key(ne, key, w);
                    }
                }
                assert(entries_map(ne) =~= old(self)@.insert(k, v));
            },
        }
    }

    /// The content hash of a Gemini request: the lowercase hex of the first eight
    /// bytes of the SHA-256 digest of the serialized `contents` followed by the
    /// serialized `system_instruction` (each left out when absent).
    pub fn compute_hash(contents: Option<&[u8]>, system_instruction: Option<&[u8]>) -> (r: String)
        ensures
            r@ == content_hash_of(bytes_or_empty(contents), bytes_or_empty(system_instruction)),
            r@.len() == 16,
            forall|i: int| 0 <= i < r@.len() ==> is_hex_digit(#[trigger] r@[i]),
    {
        let mut data: Vec<u8> = Vec::new();
        match contents {
            Some(c) => {
                data.extend_from_slice(c);
            },
            None => {},
        }
        match system_instruction {
            Some(s) => {
                data.extend_from_slice(s);
            },
            None => {},
        }
        proof {
            let a = match contents {
                Some(c) => c@,
                None => Seq::<u8>::empty(),
            };
            let b = match system_instruction {
                Some(s) => s@,
                None => Seq::<u8>::empty(),
            };
            assert(data@ =~= a + b);
        }
        digest_prefix_hex(data.as_slice(), 8)
    }

    /// The API key of a request URL (see `api_key_of`).
    pub fn extract_api_key(url: &str) -> (r: Option<String>)
        ensures
            match r {
                Some(k) => api_key_of(url@) == Some(k@),
                None => api_key_of(url@) is None,
            },
    {
        let v = chars_of(url);
        let len = v.len();
        let q1 = find_char(&v, 0, len, '?');
        proof {
            assert(v@.subrange(0, len as int) =~= url@);
            lemma_index_of(url@, '?');
            reveal_strlit("");
        }
        if q1 == len {
            proof {
                first_key_empty();
            }
            return None;
        }
        let qs = q1 + 1;
        let qe = find_char(&v, qs, len, '?');
        let ghost query = v@.subrange(qs as int, qe as int);
        proof {
            assert(url@.skip(qs as int) =~= v@.subrange(qs as int, len as int));
            lemma_index_of(v@.subrange(qs as int, len as int), '?');
            assert(query_of(url@) =~= query);
        }
        let mut pos = qs;
        loop
            invariant
                v@ == url@,
                len == v@.len(),
                qs <= pos <= qe <= len,
                query == v@.subrange(qs as int, qe as int),
                api_key_of(url@) == first_key(v@.subrange(pos as int, qe as int)),
            decreases qe - pos,
        {
            let ghost s = v@.subrange(pos as int, qe as int);
            let e = find_char(&v, pos, qe, '&');
            let eq = find_char(&v, pos, e, '=');
            let ghost seg = v@.subrange(pos as int, e as int);
            proof {
                lemma_index_of(s, '&');
                lemma_index_of(seg, '=');
                assert(before_char(s, '&') =~= seg);
                reveal_strlit("key");
                if eq < e {
                    assert(after_char(seg, '=') == Some(v@.subrange(eq + 1, e as int))) by {
                        assert(seg.skip(eq - pos + 1) =~= v@.subrange(eq + 1, e as int));
                    }
                    assert(before_char(seg, '=') =~= v@.subrange(pos as int, eq as int));
                }
                if e < qe {
                    assert(s.skip(e - pos + 1) =~= v@.subrange(e + 1, qe as int));
                }
            }
            if eq < e && eq - pos == 3 && v[pos] == 'k' && v[pos + 1] == 'e' && v[pos + 2] == 'y'
                && eq + 1 < e {
                proof {
                    assert(v@.subrange(pos as int, eq as int) =~= "key"@);
                }
                return Some(string_from_range(&v, eq + 1, e));
            }
            proof {
                if eq < e && v@.subrange(pos as int, eq as int) == "key"@ {
                    assert(v@.subrange(pos as int, eq as int)[0] == v@[pos as int]);
                    assert(v@.subrange(pos as int, eq as int)[1] == v@[pos + 1]);
                    assert(v@.subrange(pos as int, eq as int)[2] == v@[pos + 2]);
                }
            }
            if e < qe {
                pos = e + 1;
            } else {
                return None;
            }
        }
    }
}

/// The query of a URL: the text between its first `?` and the next `?` or its end;
/// empty when it has no `?`.
pub open spec fn query_of(url: Seq<char>) -> Seq<char> {
    match after_char(url, '?') {
        Some(rest) => before_char(rest, '?'),
        None => Seq::empty(),
    }
}

/// The value of a `key=value` query parameter with a non-empty value.
pub open spec fn key_value(param: Seq<char>) -> Option<Seq<char>> {
    match after_char(param, '=') {
        Some(value) => if before_char(param, '=') == "key"@ && value.len() > 0 {
            Some(value)
        } else {
            None
        },
        None => None,
    }
}

/// The value of the first `key` parameter among the `&`-separated parameters of `q`.
pub open spec fn first_key(q: Seq<char>) -> Option<Seq<char>>
    decreases q.len(),
{
    match key_value(before_char(q, '&')) {
        Some(v) => Some(v),
        None => match after_char(q, '&') {
            Some(rest) => {
                proof {
                    lemma_index_of(q, '&');
                }
                first_key(rest)
            },
            None => None,
        },
    }
}

/// The API key carried by a request URL: the first non-empty `key` parameter of its query.
pub open spec fn api_key_of(url: Seq<char>) -> Option<Seq<char>> {
    first_key(query_of(url))
}

proof fn first_key_empty()
    ensures
        first_key(Seq::<char>::empty()) is None,
{
    let e = Seq::<char>::empty();
    assert(before_char(e, '&') =~= e);
    assert(after_char(e, '=') is None);
    assert(after_char(e, '&') is None);
}

/// The first eight characters of a content hash, as shown in messages (all of it
/// when shorter).
pub open spec fn hash_label(hash: Seq<char>) -> Seq<char> {
    if hash.len() >= 8 {
        hash.take(8)
    } else {
        hash
    }
}

fn label_of(hash: &str) -> (r: String)
    ensures
        r@ == hash_label(hash@),
{
    let v = chars_of(hash);
    if v.len() >= 8 {
        string_from_range(&v, 0, 8)
    } else {
        string_from_chars(&v)
    }
}

/// A request body that refers to cached content `name` in place of the content it caches:
/// `cachedContent` is set and `contents` and `system_instruction` are removed.
pub open spec fn with_cached_content(b: JsonValue, name: Seq<char>) -> JsonValue {
    match b {
        JsonValue::Object(m) => JsonValue::Object(
            member_remove(
                member_remove(member_set(m, "cachedContent"@, JsonValue::Text(name)), "contents"@),
                "system_instruction"@,
            ),
        ),
        _ => b,
    }
}

/// A request that refers to a cache names it in `cachedContent` and no longer
/// carries the `contents` and `system_instruction` that the cache holds.
pub proof fn lemma_cached_content_replaces_context(
    m: Seq<(Seq<char>, JsonValue)>,
    name: Seq<char>,
)
    ensures
        with_cached_content(JsonValue::Object(m), name).get("cachedContent"@) == Some(
            JsonValue::Text(name),
        ),
        with_cached_content(JsonValue::Object(m), name).get("contents"@) is None,
        with_cached_content(JsonValue::Object(m), name).get("system_instruction"@) is None,
{
    reveal_strlit("cachedContent");
    reveal_strlit("contents");
    reveal_strlit("system_instruction");
    assert("cachedContent"@.len() != "contents"@.len());
    assert("cachedContent"@.len() != "system_instruction"@.len());
    assert("contents"@.len() != "system_instruction"@.len());
    let s1 = member_set(m, "cachedContent"@, JsonValue::Text(name));
    let s2 = member_remove(s1, "contents"@);
    lemma_member_get_after_set(m, "cachedContent"@, JsonValue::Text(name), "cachedContent"@);
    lemma_member_get_after_remove(s1, "contents"@, "cachedContent"@);
    lemma_member_get_after_remove(s2, "system_instruction"@, "cachedContent"@);
    lemma_member_get_after_remove(s2, "system_instruction"@, "contents"@);
}

fn refer_to_cached_content(body: &mut Json, name: String)
    ensures
        final(body)@ == with_cached_content(old(body)@, name@),
{
    body.set_member("cachedContent", Json::Text(name));
    body.remove_member("contents");
    body.remove_member("system_instruction");
}

/// The URL of the cache API, with the API key.
pub open spec fn cache_api_url(api_key: Seq<char>) -> Seq<char> {
    "https://generativelanguage.googleapis.com/v1beta/cachedContents?key="@ + api_key
}

/// The model resource name: `model` when it starts with `models/`, else `models/` and `model`.
pub open spec fn model_resource(model: Seq<char>) -> Seq<char> {
    if model.len() >= 7 && model.take(7) == "models/"@ {
        model
    } else {
        "models/"@ + model
    }
}

/// The body of the cache creation request for a request body `b`: the model resource,
/// the request's `contents` and `system_instruction` (as `systemInstruction`) when
/// present, and a one-hour `ttl`.
pub open spec fn cache_request(b: JsonValue, model: Seq<char>) -> JsonValue {
    let m0 = seq![("model"@, JsonValue::Text(model_resource(model)))];
    let m1 = match b.get("contents"@) {
        Some(c) => member_set(m0, "contents"@, c),
        None => m0,
    };
    let m2 = match b.get("system_instruction"@) {
        Some(s) => member_set(m1, "systemInstruction"@, s),
        None => m1,
    };
    JsonValue::Object(member_set(m2, "ttl"@, JsonValue::Text("3600s"@)))
}

/// The cache creation request carries the request's `contents` exactly (or
/// none when the request has none), its `system_instruction` exactly as
/// `systemInstruction`, the model resource, and a one-hour `ttl`.
pub proof fn lemma_cache_request_members(b: JsonValue, model: Seq<char>)
    ensures
        cache_request(b, model).get("contents"@) == b.get("contents"@),
        cache_request(b, model).get("systemInstruction"@) == b.get("system_instruction"@),
        cache_request(b, model).get("model"@) == Some(JsonValue::Text(model_resource(model))),
        cache_request(b, model).get("ttl"@) == Some(JsonValue::Text("3600s"@)),
        forall|k: Seq<char>|
            k != "contents"@ && k != "systemInstruction"@ && k != "model"@ && k != "ttl"@
                ==> #[trigger] cache_request(b, model).get(k) is None,
{
    reveal_strlit("model");
    reveal_strlit("contents");
    reveal_strlit("systemInstruction");
    reveal_strlit("ttl");
    let base = seq![("model"@, JsonValue::Text(model_resource(model)))];
    let with_contents = match b.get("contents"@) {
        Some(cs) => member_set(base, "contents"@, cs),
        None => base,
    };
    let with_system = match b.get("system_instruction"@) {
        Some(sys) => member_set(with_contents, "systemInstruction"@, sys),
        None => with_contents,
    };
    let ttl = JsonValue::Text("3600s"@);
    assert(member_get(base, "model"@) == Some(JsonValue::Text(model_resource(model)))) by {
        assert(is_first_member(base, "model"@, 0));
        lemma_first_member(base, "model"@, 0);
    }
    assert(base.len() == 1 && base[0].0 == "model"@);
    assert("model"@.len() == 5 && "contents"@.len() == 8 && "systemInstruction"@.len() == 17);
    assert(member_get(base, "contents"@) is None) by {
        assert(!has_member(base, "contents"@));
    }
    assert(member_get(base, "systemInstruction"@) is None) by {
        assert(!has_member(base, "systemInstruction"@));
    }
    match b.get("contents"@) {
        Some(cs) => {
            lemma_member_get_after_set(base, "contents"@, cs, "contents"@);
            lemma_member_get_after_set(base, "contents"@, cs, "model"@);
            lemma_member_get_after_set(base, "contents"@, cs, "systemInstruction"@);
        },
        None => {},
    }
    match b.get("system_instruction"@) {
        Some(sys) => {
            lemma_member_get_after_set(with_contents, "systemInstruction"@, sys, "systemInstruction"@);
            lemma_member_get_after_set(with_contents, "systemInstruction"@, sys, "contents"@);
            lemma_member_get_after_set(with_contents, "systemInstruction"@, sys, "model"@);
        },
        None => {},
    }
    lemma_member_get_after_set(with_system, "ttl"@, ttl, "ttl"@);
    lemma_member_get_after_set(with_system, "ttl"@, ttl, "contents"@);
    lemma_member_get_after_set(with_system, "ttl"@, ttl, "systemInstruction"@);
    lemma_member_get_after_set(with_system, "ttl"@, ttl, "model"@);
    assert forall|k: Seq<char>|
        k != "contents"@ && k != "systemInstruction"@ && k != "model"@ && k != "ttl"@
            implies #[trigger] cache_request(b, model).get(k) is None by {
        assert(!has_member(base, k));
        match b.get("contents"@) {
            Some(cs) => {
                lemma_member_get_after_set(base, "contents"@, cs, k);
            },
            None => {},
        }
        match b.get("system_instruction"@) {
            Some(sys) => {
                lemma_member_get_after_set(with_contents, "systemInstruction"@, sys, k);
            },
            None => {},
        }
        lemma_member_get_after_set(with_system, "ttl"@, ttl, k);
    }
}

fn model_resource_name(model: &str) -> (r: String)
    ensures
        r@ == model_resource(model@),
{
    let v = chars_of(model);
    proof {
        reveal_strlit("models/");
    }
    if v.len() >= 7 && v[0] == 'm' && v[1] == 'o' && v[2] == 'd' && v[3] == 'e' && v[4] == 'l'
        && v[5] == 's' && v[6] == '/' {
        assert(model@.take(7) =~= "models/"@);
        model.to_owned()
    } else {
        proof {
            if v@.len() >= 7 && model@.take(7) == "models/"@ {
                assert(model@.take(7)[0] == model@[0]);
                assert(model@.take(7)[1] == model@[1]);
                assert(model@.take(7)[2] == model@[2]);
                assert(model@.take(7)[3] == model@[3]);
                assert(model@.take(7)[4] == model@[4]);
                assert(model@.take(7)[5] == model@[5]);
                assert(model@.take(7)[6] == model@[6]);
            }
        }
        concat("models/", model)
    }
}

/// Builds the cache creation request for a request body (see `cache_request`).
pub fn build_cache_request(body: &Json, model: &str) -> (r: Json)
    ensures
        r@ == cache_request(body@, model@),
{
    let mut req = Json::new_object();
    req.set_member("model", Json::Text(model_resource_name(model)));
    proof {
        assert(req@ == JsonValue::Object(seq![("model"@, JsonValue::Text(model_resource(model@)))]))
            by {
            assert(crate::json::member_set(Seq::empty(), "model"@, JsonValue::Text(model_resource(model@)))
                =~= seq![("model"@, JsonValue::Text(model_resource(model@)))]);
        }
    }
    match body.get("contents") {
        Some(c) => {
            req.set_member("contents", c.deep_clone());
        },
        None => {},
    }
    match body.get("system_instruction") {
        Some(s) => {
            req.set_member("systemInstruction", s.deep_clone());
        },
        None => {},
    }
    req.set_member("ttl", Json::text("3600s"));
    req
}

/// What the proxy does next with a Gemini request.
pub enum GeminiStep {
    /// The request is ready to forward; the injection says what was done to it.
    Done(CacheInjection),
    /// The request is forwarded unchanged, and a cache is to be created for its
    /// content hash: POST `request` to `url`, then hand the outcome to
    /// `finish_gemini_request`.
    CreateCache { url: String, request: Json, content_hash: String },
}

/// The message for a context too short for the cache API.
pub open spec fn short_message(tokens: u64) -> Seq<char> {
    "Gemini context too short: ~"@ + decimal(tokens as nat) + " tokens < "@ + decimal(
        MIN_CACHE_TOKENS as nat,
    )
}

/// The message for a request answered from an existing cache.
pub open spec fn hit_message(hash: Seq<char>, tokens: u64) -> Seq<char> {
    "Injected cachedContent (hash="@ + hash_label(hash) + ", ~"@ + decimal(tokens as nat)
        + " tokens)"@
}

/// The message for a request whose cache was just created.
pub open spec fn created_message(hash: Seq<char>, tokens: u64) -> Seq<char> {
    "Created Gemini Context Cache (hash="@ + hash_label(hash) + ", ~"@ + decimal(tokens as nat)
        + " tokens)"@
}

/// The message for a cache that could not be created.
pub open spec fn failed_message(hash: Seq<char>, error: Seq<char>) -> Seq<char> {
    "Failed to create Gemini cache for hash="@ + hash_label(hash) + ": "@ + error
}

fn hash_tokens_message(prefix: &str, hash: &str, tokens: u64) -> (r: String)
    ensures
        r@ == prefix@ + hash_label(hash@) + ", ~"@ + decimal(tokens as nat) + " tokens)"@,
{
    let a = concat(prefix, label_of(hash).as_str());
    let b = concat(a.as_str(), ", ~");
    let c = concat(b.as_str(), decimal_string(tokens).as_str());
    concat(c.as_str(), " tokens)")
}

/// What the first step does to a Gemini request body `b` with content hash
/// `hash`, given the store's names `store`: `after` is the body it leaves and
/// `r` its result. A context estimated under `MIN_CACHE_TOKENS` is left
/// alone; a stored hash makes the body refer to the stored cache; any other
/// hash leaves the body unchanged, to be forwarded as it came, and asks for the
/// cache to be created through the API with `api_key`, for `model`, for the
/// requests that follow.
pub open spec fn gemini_first_step(
    b: JsonValue,
    api_key: Seq<char>,
    model: Seq<char>,
    hash: Seq<char>,
    store: Map<Seq<char>, Seq<char>>,
    after: JsonValue,
    r: GeminiStep,
) -> bool {
    let t = sat(prompt_tokens(b) as int);
    if t < MIN_CACHE_TOKENS {
        &&& after == b
        &&& r matches GeminiStep::Done(inj)
        &&& !inj.injected
        &&& inj.messages() == seq![short_message(t)]
    } else if store.contains_key(hash) {
        &&& after == with_cached_content(b, store[hash])
        &&& r matches GeminiStep::Done(inj)
        &&& inj.injected
        &&& inj.messages() == seq![hit_message(hash, t)]
    } else {
        &&& after == b
        &&& r matches GeminiStep::CreateCache { url, request, content_hash }
        &&& content_hash@ == hash
        &&& url@ == cache_api_url(api_key)
        &&& request@ == cache_request(b, model)
    }
}

/// Once a cache has been created and stored for a content hash, the next
/// request with that content (and a context long enough to be cached) refers
/// to that cache instead of asking for another one.
pub proof fn lemma_created_cache_is_used(
    b: JsonValue,
    api_key: Seq<char>,
    model: Seq<char>,
    hash: Seq<char>,
    store: Map<Seq<char>, Seq<char>>,
    name: Seq<char>,
    after: JsonValue,
    r: GeminiStep,
)
    requires
        gemini_first_step(b, api_key, model, hash, store.insert(hash, name), after, r),
        sat(prompt_tokens(b) as int) >= MIN_CACHE_TOKENS,
    ensures
        after == with_cached_content(b, name),
        r matches GeminiStep::Done(inj) && inj.injected,
{
}

/// First step for a Gemini request whose content hashes to `content_hash` (see
/// `GeminiCacheStore::compute_hash`). A context estimated under `MIN_CACHE_TOKENS`
/// is left alone. A known hash makes the request refer to its cache. An unknown
/// hash leaves the request to be forwarded unchanged and asks for the cache to be
/// created through the API with `api_key`, for `model`, for later requests.
pub fn handle_gemini_request(
    body: &mut Json,
    api_key: &str,
    model: &str,
    content_hash: &str,
    cache_store: &GeminiCacheStore,
) -> (r: GeminiStep)
    ensures
        gemini_first_step(
            old(body)@,
            api_key@,
            model@,
            content_hash@,
            cache_store@,
            final(body)@,
            r,
        ),
{
    let total_tokens = estimate_prompt_tokens(body);
    if total_tokens < MIN_CACHE_TOKENS {
        let a = concat("Gemini context too short: ~", decimal_string(total_tokens).as_str());
        let b = concat(a.as_str(), " tokens < ");
        let c = concat(b.as_str(), decimal_string(MIN_CACHE_TOKENS).as_str());
        return GeminiStep::Done(no_injection(Some(c)));
    }
    match cache_store.get_cache(content_hash) {
        Some(cached_name) => {
            refer_to_cached_content(body, cached_name);
            GeminiStep::Done(
                injected_with(
                    hash_tokens_message("Injected cachedContent (hash=", content_hash, total_tokens),
                ),
            )
        },
        None => {
            let url = concat(
                "https://generativelanguage.googleapis.com/v1beta/cachedContents?key=",
                api_key,
            );
            let request = build_cache_request(body, model);
            GeminiStep::CreateCache { url, request, content_hash: copy_str(content_hash) }
        },
    }
}

/// Second step, once the cache creation requested by `handle_gemini_request`
/// for a request `body` has an outcome: a created cache is remembered for
/// `content_hash`, so that the requests that follow refer to it; an error is
/// reported. The request itself was forwarded unchanged, so nothing is
/// injected either way.
pub fn finish_gemini_request(
    body: &Json,
    content_hash: &str,
    created: Result<String, String>,
    cache_store: &mut GeminiCacheStore,
) -> (r: CacheInjection)
    ensures
        !r.injected,
        ({
            let t = sat(prompt_tokens(body@) as int);
            match created {
                Ok(name) => {
                    &&& final(cache_store)@ == old(cache_store)@.insert(content_hash@, name@)
                    &&& r.messages() == seq![created_message(content_hash@, t)]
                },
                Err(e) => {
                    &&& final(cache_store)@ == old(cache_store)@
                    &&& r.messages() == seq![failed_message(content_hash@, e@)]
                },
            }
        }),
{
    let total_tokens = estimate_prompt_tokens(body);
    match created {
        Ok(cache_name) => {
            cache_store.set_cache(content_hash.to_owned(), cache_name);
            no_injection(
                Some(
                    hash_tokens_message(
                        "Created Gemini Context Cache (hash=",
                        content_hash,
                        total_tokens,
                    ),
                ),
            )
        },
        Err(e) => {
            let a = concat("Failed to create Gemini cache for hash=", label_of(content_hash).as_str());
            let b = concat(a.as_str(), ": ");
            no_injection(Some(concat(b.as_str(), e.as_str())))
        },
    }
}

/// What the cache API's answer means: the name of the created cache, or an error text.
/// A failure status gives `Cache API returned {status}: {error.message}` (or `unknown
/// error`); a success without a string `name` is an error too.
pub open spec fn cache_response_outcome(success: bool, status: Seq<char>, resp: JsonValue) -> Result<
    Seq<char>,
    Seq<char>,
> {
    if !success {
        let msg = match resp.get("error"@) {
            Some(err) => match err.text_member("message"@) {
                Some(m) => m,
                None => "unknown error"@,
            },
            None => "unknown error"@,
        };
        Err("Cache API returned "@ + status + ": "@ + msg)
    } else {
        match resp.text_member("name"@) {
            Some(n) => Ok(n),
            None => Err("Cache API response missing 'name' field"@),
        }
    }
}

/// Reads the cache API's answer (see `cache_response_outcome`).
pub fn interpret_cache_response(success: bool, status: &str, resp: &Json) -> (r: Result<
    String,
    String,
>)
    ensures
        match r {
            Ok(n) => cache_response_outcome(success, status@, resp@) == Ok::<Seq<char>, Seq<char>>(n@),
            Err(e) => cache_response_outcome(success, status@, resp@) == Err::<Seq<char>, Seq<char>>(e@),
        },
{
    if !success {
        let msg: &str = match resp.get("error") {
            Some(err) => match err.get("message") {
                Some(m) => match m.as_str() {
                    Some(t) => t,
                    None => "unknown error",
                },
                None => "unknown error",
            },
            None => "unknown error",
        };
        let a = concat("Cache API returned ", status);
        let b = concat(a.as_str(), ": ");
        return Err(concat(b.as_str(), msg));
    }
    match resp.get("name") {
        Some(n) => match n.as_str() {
            Some(t) => Ok(t.to_owned()),
            None => Err("Cache API response missing 'name' field".to_owned()),
        },
        None => Err("Cache API response missing 'name' field".to_owned()),
    }
}

} // verus!
