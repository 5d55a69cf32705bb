//! OpenAI: adds a `prompt_cache_key` derived from the first message to long
//! prompts, and reads the cache counters of the `usage` block.

use crate::digest::{digest_prefix_hex, hex_lower, sha256_digest};
use crate::json::{
    lemma_member_get_after_set, lemma_view_list, member_get, member_set, view_list, Json, JsonValue,
};
use crate::provider::anthropic::u64_member;
use crate::provider::{injected_with, no_injection, sat, CacheInjection, CacheResult};
use crate::text::{concat, decimal, decimal_string};
use vstd::prelude::*;
use vstd::utf8::encode_utf8;

verus! {

/// The smallest estimated prompt, in tokens, worth caching.
pub const MIN_CACHE_TOKENS: u64 = 1024;

/// The byte-based estimate of a text: its UTF-8 length divided by four.
pub open spec fn byte_tokens(s: Seq<char>) -> nat {
    encode_utf8(s).len() / 4
}

/// The estimate of a message content: a string by `byte_tokens`; a list by the
/// sum over its elements; an object by its `text` member when that is a string;
/// anything else counts 0.
pub open spec fn content_tokens(v: JsonValue) -> nat
    decreases v,
{
    match v {
        JsonValue::Text(s) => byte_tokens(s),
        JsonValue::List(items) => content_list_tokens(items),
        JsonValue::Object(_) => match v.text_member("text"@) {
            Some(t) => byte_tokens(t),
            None => 0,
        },
        _ => 0,
    }
}

/// The sum of `content_tokens` over `s`.
pub open spec fn content_list_tokens(s: Seq<JsonValue>) -> nat
    decreases s,
{
    if s.len() == 0 {
        0
    } else {
        content_list_tokens(s.drop_last()) + content_tokens(s.last())
    }
}

/// The sum, over the messages in `s`, of the estimate of each message's `content`.
pub open spec fn messages_tokens(s: Seq<JsonValue>) -> nat
    decreases s.len(),
{
    if s.len() == 0 {
        0
    } else {
        messages_tokens(s.drop_last()) + match s.last().get("content"@) {
            Some(c) => content_tokens(c),
            None => 0,
        }
    }
}

/// The prompt estimate of a request: its `messages` plus a string `system`.
pub open spec fn prompt_tokens(b: JsonValue) -> nat {
    let from_messages = match b.get("messages"@) {
        Some(JsonValue::List(ms)) => messages_tokens(ms),
        _ => 0,
    };
    let from_system = match b.text_member("system"@) {
        Some(s) => byte_tokens(s),
        None => 0,
    };
    from_messages + from_system
}

/// A content that is an object whose `text` member is a string is estimated
/// at the UTF-8 byte length of that text divided by four.
pub proof fn lemma_content_tokens_text_object(v: JsonValue, t: Seq<char>)
    requires
        v is Object,
        v.get("text"@) == Some(JsonValue::Text(t)),
    ensures
        content_tokens(v) == encode_utf8(t).len() / 4,
{
}

/// A string content is estimated at its UTF-8 byte length divided by four.
pub proof fn lemma_content_tokens_text(t: Seq<char>)
    ensures
        content_tokens(JsonValue::Text(t)) == encode_utf8(t).len() / 4,
{
}

/// A list content counts as the sum of its elements: a one-element list as
/// that element, and any split of a list as the sum of its two halves.
pub proof fn lemma_content_list_tokens(a: Seq<JsonValue>, b: Seq<JsonValue>, v: JsonValue)
    ensures
        content_tokens(JsonValue::List(seq![v])) == content_tokens(v),
        content_tokens(JsonValue::List(a + b)) == content_tokens(JsonValue::List(a))
            + content_tokens(JsonValue::List(b)),
{
    assert(seq![v].drop_last() =~= Seq::<JsonValue>::empty());
    assert(content_list_tokens(Seq::<JsonValue>::empty()) == 0);
    lemma_content_list_concat(a, b);
}

proof fn lemma_content_list_concat(a: Seq<JsonValue>, b: Seq<JsonValue>)
    ensures
        content_list_tokens(a + b) == content_list_tokens(a) + content_list_tokens(b),
    decreases b.len(),
{
    if b.len() == 0 {
        assert(a + b =~= a);
    } else {
        lemma_content_list_concat(a, b.drop_last());
        assert((a + b).drop_last() =~= a + b.drop_last());
    }
}

/// Every message counts: the estimate of a list of messages is the sum of the
/// estimates of any split of it, and one message counts as its `content`.
pub proof fn lemma_messages_tokens(a: Seq<JsonValue>, b: Seq<JsonValue>, msg: JsonValue)
    ensures
        messages_tokens(a + b) == messages_tokens(a) + messages_tokens(b),
        messages_tokens(seq![msg]) == match msg.get("content"@) {
            Some(c) => content_tokens(c),
            None => 0,
        },
    decreases b.len(),
{
    assert(seq![msg].drop_last() =~= Seq::<JsonValue>::empty());
    assert(messages_tokens(Seq::<JsonValue>::empty()) == 0);
    if b.len() == 0 {
        assert(a + b =~= a);
    } else {
        lemma_messages_tokens(a, b.drop_last(), msg);
        assert((a + b).drop_last() =~= a + b.drop_last());
    }
}

/// Giving a request without a `system` member a string one raises its prompt
/// estimate by exactly the UTF-8 byte length of that string divided by four;
/// appending a message raises it by exactly that message's estimate.
pub proof fn lemma_prompt_tokens_parts(
    m: Seq<(Seq<char>, JsonValue)>,
    sys: Seq<char>,
    ms: Seq<JsonValue>,
    msg: JsonValue,
)
    ensures
        member_get(m, "system"@) is None ==> prompt_tokens(
            JsonValue::Object(member_set(m, "system"@, JsonValue::Text(sys))),
        ) == prompt_tokens(JsonValue::Object(m)) + encode_utf8(sys).len() / 4,
        member_get(m, "messages"@) == Some(JsonValue::List(ms)) ==> prompt_tokens(
            JsonValue::Object(member_set(m, "messages"@, JsonValue::List(ms.push(msg)))),
        ) == prompt_tokens(JsonValue::Object(m)) + messages_tokens(seq![msg]),
{
    reveal_strlit("messages");
    reveal_strlit("system");
    let v = JsonValue::Text(sys);
    lemma_member_get_after_set(m, "system"@, v, "system"@);
    lemma_member_get_after_set(m, "system"@, v, "messages"@);
    let w = JsonValue::List(ms.push(msg));
    lemma_member_get_after_set(m, "messages"@, w, "messages"@);
    lemma_member_get_after_set(m, "messages"@, w, "system"@);
    assert(ms + seq![msg] =~= ms.push(msg));
    lemma_messages_tokens(ms, seq![msg], msg);
}

/// The text the cache key is derived from: the `content` of the first message
/// when it is a string, else the empty text.
pub open spec fn key_source(b: JsonValue) -> Seq<char> {
    match b.get("messages"@) {
        Some(JsonValue::List(ms)) => if ms.len() > 0 {
            match ms[0].text_member("content"@) {
                Some(t) => t,
                None => Seq::empty(),
            }
        } else {
            Seq::empty()
        },
        _ => Seq::empty(),
    }
}

/// The cache key of a request: `tokenj-` and the hex of the first four bytes
/// (eight hex digits) of the SHA-256 digest of the key source.
pub open spec fn cache_key(b: JsonValue) -> Seq<char> {
    "tokenj-"@ + hex_lower(sha256_digest(encode_utf8(key_source(b))).take(4))
}

/// What `inject` does to a body `b`: the new body, whether it injected, and its messages.
pub open spec fn inject_result(b: JsonValue) -> (JsonValue, bool, Seq<Seq<char>>) {
    let total = sat(prompt_tokens(b) as int);
    if total < MIN_CACHE_TOKENS {
        (
            b,
            false,
            seq![
                "Prompt too short for caching: "@ + decimal(total as nat) + " tokens < "@
                    + decimal(MIN_CACHE_TOKENS as nat),
            ],
        )
    } else if b.get("prompt_cache_key"@) is Some {
        (b, false, seq!["prompt_cache_key already set, skipping"@])
    } else {
        (
            match b {
                JsonValue::Object(m) => JsonValue::Object(
                    crate::json::member_set(m, "prompt_cache_key"@, JsonValue::Text(cache_key(b))),
                ),
                _ => b,
            },
            true,
            seq!["Added prompt_cache_key (~"@ + decimal(total as nat) + " tokens, auto)"@],
        )
    }
}

/// The UTF-8 length of a string divided by four.
fn bytes_over_four(s: &str) -> (r: u64)
    ensures
        r == byte_tokens(s@),
{
    (s.as_bytes().len() / 4) as u64
}

/// The estimate of a message content (see `content_tokens`), saturating.
#[verifier::loop_isolation(false)]
fn estimate_content_tokens(value: &Json) -> (r: u64)
    ensures
        r == sat(content_tokens(value@) as int),
    decreases value,
{
    match value {
        Json::Text(s) => bytes_over_four(s.as_str()),
        Json::List(arr) => {
            let n = arr.len();
            let mut total: u64 = 0;
            for i in 0..n
                invariant
                    n == arr@.len(),
                    total == sat(content_list_tokens(view_list(arr@.take(i as int))) as int),
            {
                proof {
                    lemma_view_list(arr@.take(i + 1));
                    lemma_view_list(arr@.take(i as int));
                    assert(arr@.take(i + 1).drop_last() =~= arr@.take(i as int));
                    assert(view_list(arr@.take(i + 1)).drop_last() =~= view_list(
                        arr@.take(i as int),
                    ));
                }
                assert(decreases_to!(*value => value->List_0));
                assert(decreases_to!(*arr => arr@));
                assert(decreases_to!(arr@ => arr@[i as int]));
                let t = estimate_content_tokens(&arr[i]);
                total = total.saturating_add(t);
            }
            assert(arr@.take(n as int) =~= arr@);
            total
        },
        Json::Object(_) => match value.get("text") {
            Some(t) => match t.as_str() {
                Some(text) => bytes_over_four(text),
                None => 0,
            },
            None => 0,
        },
        _ => 0,
    }
}

/// The prompt estimate of a request (see `prompt_tokens`), saturating.
fn estimate_prompt_tokens(body: &Json) -> (r: u64)
    ensures
        r == sat(prompt_tokens(body@) as int),
{
    let mut total: u64 = 0;
    match body.get("messages") {
        Some(ms) => match ms.as_list() {
            Some(messages) => {
                let n = messages.len();
                proof {
                    lemma_view_list(messages@);
                }
                for i in 0..n
                    invariant
                        n == messages@.len(),
                        total == sat(messages_tokens(view_list(messages@).take(i as int)) as int),
                {
                    proof {
                        lemma_view_list(messages@);
                        assert(view_list(messages@).take(i + 1).drop_last() =~= view_list(
                            messages@,
                        ).take(i as int));
                    }
                    match messages[i].get("content") {
                        Some(c) => {
                            let t = estimate_content_tokens(c);
                            total = total.saturating_add(t);
                        },
                        None => {},
                    }
                }
                assert(view_list(messages@).take(n as int) =~= view_list(messages@));
            },
            None => {},
        },
        None => {},
    }
    match body.get("system") {
        Some(s) => match s.as_str() {
            Some(text) => {
                total = total.saturating_add(bytes_over_four(text));
            },
            None => {},
        },
        None => {},
    }
    total
}

/// The text the cache key is derived from (see `key_source`).
fn first_message_content(body: &Json) -> (r: &str)
    ensures
        r@ == key_source(body@),
{
    proof {
        reveal_strlit("");
    }
    match body.get("messages") {
        Some(ms) => match ms.as_list() {
            Some(messages) => {
                proof {
                    lemma_view_list(messages@);
                }
                if messages.len() > 0 {
                    match messages[0].get("content") {
                        Some(c) => match c.as_str() {
                            Some(t) => t,
                            None => "",
                        },
                        None => "",
                    }
                } else {
                    ""
                }
            },
            None => "",
        },
        None => "",
    }
}

/// The cache key of a request (see `cache_key`).
pub fn generate_cache_key(body: &Json) -> (r: String)
    ensures
        r@ == cache_key(body@),
{
    let content = first_message_content(body);
    let hash_hex = digest_prefix_hex(content.as_bytes(), 4);
    concat("tokenj-", hash_hex.as_str())
}

/// Adds a `prompt_cache_key` to a long enough prompt (see `inject_result`).
pub fn inject(body: &mut Json) -> (r: CacheInjection)
    ensures
        inject_result(old(body)@) == (final(body)@, r.injected, r.messages()),
{
    let total_tokens = estimate_prompt_tokens(body);
    if total_tokens < MIN_CACHE_TOKENS {
        let a = concat("Prompt too short for caching: ", decimal_string(total_tokens).as_str());
        let b = concat(a.as_str(), " tokens < ");
        let c = concat(b.as_str(), decimal_string(MIN_CACHE_TOKENS).as_str());
        return no_injection(Some(c));
    }
    if body.get("prompt_cache_key").is_some() {
        return no_injection(Some("prompt_cache_key already set, skipping".to_owned()));
    }
    let key = generate_cache_key(body);
    body.set_member("prompt_cache_key", Json::Text(key));
    let a = concat("Added prompt_cache_key (~", decimal_string(total_tokens).as_str());
    injected_with(concat(a.as_str(), " tokens, auto)"))
}

/// The counters of a chat-completions response body `b`: `usage.prompt_tokens`
/// (input), `usage.completion_tokens` (output) and
/// `usage.prompt_tokens_details.cached_tokens` (cached), each 0 when absent or not
/// a non-negative integer; there are no cache writes.
pub open spec fn usage_counts(b: JsonValue) -> (u64, u64, u64, u64) {
    let usage = match b.get("usage"@) {
        Some(u) => u,
        None => JsonValue::Object(seq![]),
    };
    let details = match usage.get("prompt_tokens_details"@) {
        Some(d) => d,
        None => JsonValue::Object(seq![]),
    };
    (
        usage.u64_or_zero("prompt_tokens"@),
        usage.u64_or_zero("completion_tokens"@),
        details.u64_or_zero("cached_tokens"@),
        0,
    )
}

/// Reads the cache counters of a response (see `usage_counts`).
pub fn parse_cache(body: &Json) -> (r: CacheResult)
    ensures
        usage_counts(body@) == (
            r.input_tokens,
            r.output_tokens,
            r.cached_tokens,
            r.cache_write_tokens,
        ),
{
    let usage = body.get("usage");
    let details = match usage {
        Some(u) => u.get("prompt_tokens_details"),
        None => None,
    };
    CacheResult {
        input_tokens: u64_member(usage, "prompt_tokens"),
        output_tokens: u64_member(usage, "completion_tokens"),
        cached_tokens: u64_member(details, "cached_tokens"),
        cache_write_tokens: 0,
    }
}

} // verus!
