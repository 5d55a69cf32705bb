//! Anthropic: marks a long system prompt, or else the last message of long
//! messages, with `cache_control`, and reads the cache counters of the `usage`
//! block.

use crate::json::{
    lemma_member_get_after_set, is_first_member, find_member, has_member, lemma_first_member, lemma_view_list,
    lemma_view_members, member_get, member_set, view_list, view_members, Json,
    JsonValue,
};
use crate::provider::{
    estimate_tokens, injected_with, join_injections, no_injection, sat, token_estimate,
    CacheInjection, CacheResult,
};
use crate::text::{concat, copy_str, decimal, decimal_string};
use vstd::prelude::*;

verus! {

/// The smallest estimated system prompt, in tokens, worth caching.
pub const MIN_CACHE_TOKENS: u64 = 1024;

/// The token estimate of a JSON value: a string by its text; a list by the
/// sum over its elements; an object by its `text` member when that is a
/// string, else by the sum over its member values; anything else counts 0.
pub open spec fn value_tokens(v: JsonValue) -> nat
    decreases v,
{
    match v {
        JsonValue::Text(s) => token_estimate(s),
        JsonValue::List(items) => list_tokens(items),
        JsonValue::Object(m) => match member_get(m, "text"@) {
            Some(JsonValue::Text(t)) => token_estimate(t),
            _ => members_tokens(m),
        },
        _ => 0,
    }
}

/// The sum of the token estimates of the values in `s`.
pub open spec fn list_tokens(s: Seq<JsonValue>) -> nat
    decreases s,
{
    if s.len() == 0 {
        0
    } else {
        list_tokens(s.drop_last()) + value_tokens(s.last())
    }
}

/// The sum of the token estimates of the member values in `m`.
pub open spec fn members_tokens(m: Seq<(Seq<char>, JsonValue)>) -> nat
    decreases m,
{
    if m.len() == 0 {
        0
    } else {
        members_tokens(m.drop_last()) + value_tokens(m.last().1)
    }
}

/// The token estimate of a JSON value (see `value_tokens`), saturating at `u64::MAX`.
#[verifier::loop_isolation(false)]
pub fn estimate_tokens_value(value: &Json) -> (r: u64)
    ensures
        r == sat(value_tokens(value@) as int),
    decreases value,
{
    match value {
        Json::Text(s) => estimate_tokens(s.as_str()),
        Json::List(arr) => {
            let n = arr.len();
            let mut total: u64 = 0;
            proof {
                lemma_view_list(arr@);
            }
            for i in 0..n
                invariant
                    n == arr@.len(),
                    total == sat(list_tokens(view_list(arr@.take(i as int))) as int),
            {
                proof {
                    lemma_view_list(arr@.take(i + 1));
                    assert(arr@.take(i + 1).drop_last() =~= arr@.take(i as int));
                    assert(view_list(arr@.take(i + 1)).drop_last() =~= view_list(
                        arr@.take(i as int),
                    ));
                }
                assert(decreases_to!(*value => value->List_0));
                assert(decreases_to!(*arr => arr@));
                assert(decreases_to!(arr@ => arr@[i as int]));
                let t = estimate_tokens_value(&arr[i]);
                total = total.saturating_add(t);
            }
            assert(arr@.take(n as int) =~= arr@);
            total
        },
        Json::Object(m) => {
            match value.get("text") {
                Some(v) => match v.as_str() {
                    Some(t) => {
                        return estimate_tokens(t);
                    },
                    None => {},
                },
                None => {},
            }
            let n = m.len();
            let mut total: u64 = 0;
            for i in 0..n
                invariant
                    n == m@.len(),
                    total == sat(members_tokens(view_members(m@.take(i as int))) as int),
            {
                proof {
                    lemma_view_members(m@.take(i + 1));
                    lemma_view_members(m@.take(i as int));
                    assert(m@.take(i + 1).drop_last() =~= m@.take(i as int));
                    assert(view_members(m@.take(i + 1)).drop_last() =~= view_members(
                        m@.take(i as int),
                    ));
                }
                assert(decreases_to!(*value => value->Object_0));
                assert(decreases_to!(*m => m@));
                assert(decreases_to!(m@ => m@[i as int]));
                assert(decreases_to!(m@[i as int] => m@[i as int].1));
                let t = estimate_tokens_value(&m[i].1);
                total = total.saturating_add(t);
            }
            assert(m@.take(n as int) =~= m@);
            total
        },
        _ => 0,
    }
}

/// `{"type": "ephemeral"}`, the cache marker.
pub open spec fn ephemeral_marker() -> JsonValue {
    JsonValue::Object(seq![("type"@, JsonValue::Text("ephemeral"@))])
}

/// The message for a marked system prompt block.
pub open spec fn added_message(tokens: u64) -> Seq<char> {
    "Added cache_control to system prompt (~"@ + decimal(tokens as nat) + " tokens)"@
}

/// The message for a system string rewritten into a marked block.
pub open spec fn converted_message(tokens: u64) -> Seq<char> {
    "Converted system to array + cache_control (~"@ + decimal(tokens as nat) + " tokens)"@
}

/// The message for a system prompt under the threshold.
pub open spec fn too_short_message(tokens: u64) -> Seq<char> {
    "System prompt too short for caching: "@ + decimal(tokens as nat) + " tokens < "@ + decimal(
        MIN_CACHE_TOKENS as nat,
    )
}

/// The single marked text block that replaces a system string `t`.
pub open spec fn system_block(t: Seq<char>) -> JsonValue {
    JsonValue::List(
        seq![
            JsonValue::Object(
                seq![
                    ("type"@, JsonValue::Text("text"@)),
                    ("text"@, JsonValue::Text(t)),
                    ("cache_control"@, ephemeral_marker()),
                ],
            ),
        ],
    )
}

/// What marking the system prompt of a body `b` does: the new body, whether it
/// injected, and its messages. A system prompt estimated at `MIN_CACHE_TOKENS` or
/// more gets a cache marker: a list has its last block marked when that block is an
/// object without one; a string becomes a single marked text block. A shorter
/// prompt is reported; a body without one is left alone.
pub open spec fn system_result(b: JsonValue) -> (JsonValue, bool, Seq<Seq<char>>) {
    match b {
        JsonValue::Object(m) => match member_get(m, "system"@) {
            None => (b, false, seq![]),
            Some(system) => {
                let tokens = sat(value_tokens(system) as int);
                if tokens >= MIN_CACHE_TOKENS {
                    match system {
                        JsonValue::List(items) => {
                            if items.len() > 0 && items.last().get("cache_control"@) is None
                                && items.last() is Object {
                                let marked = JsonValue::Object(
                                    member_set(
                                        items.last()->Object_0,
                                        "cache_control"@,
                                        ephemeral_marker(),
                                    ),
                                );
                                let new_system = JsonValue::List(
                                    items.update(items.len() - 1, marked),
                                );
                                (
                                    JsonValue::Object(member_set(m, "system"@, new_system)),
                                    true,
                                    seq![added_message(tokens)],
                                )
                            } else {
                                (b, false, seq![])
                            }
                        },
                        JsonValue::Text(t) => (
                            JsonValue::Object(member_set(m, "system"@, system_block(t))),
                            true,
                            seq![converted_message(tokens)],
                        ),
                        _ => (b, false, seq![]),
                    }
                } else {
                    (b, false, seq![too_short_message(tokens)])
                }
            },
        },
        _ => (b, false, seq![]),
    }
}

/// The single marked text block list holding `text` (see `system_block`).
fn text_block(text: String) -> (r: Json)
    ensures
        r@ == system_block(text@),
{
    let ghost text0 = text@;
    let mut block = Json::new_object();
    block.set_member("type", Json::text("text"));
    block.set_member("text", Json::Text(text));
    block.set_member("cache_control", ephemeral());
    let mut list = Vec::new();
    list.push(block);
    let r = Json::List(list);
    proof {
        reveal_strlit("type");
        reveal_strlit("text");
        reveal_strlit("cache_control");
        lemma_view_list(list@);
        let e: Seq<(Seq<char>, JsonValue)> = seq![];
        let s1 = member_set(e, "type"@, JsonValue::Text("text"@));
        assert(s1 =~= seq![("type"@, JsonValue::Text("text"@))]);
        let s2 = member_set(s1, "text"@, JsonValue::Text(text0));
        assert("type"@[1] != "text"@[1]);
        assert(!has_member(s1, "text"@));
        assert(s2 =~= seq![("type"@, JsonValue::Text("text"@)), ("text"@, JsonValue::Text(text0))]);
        let s3 = member_set(s2, "cache_control"@, ephemeral_marker());
        assert("type"@.len() != "cache_control"@.len());
        assert("text"@.len() != "cache_control"@.len());
        assert(!has_member(s2, "cache_control"@));
        assert(block@ == JsonValue::Object(s3));
        assert(s3 =~= seq![
            ("type"@, JsonValue::Text("text"@)),
            ("text"@, JsonValue::Text(text0)),
            ("cache_control"@, ephemeral_marker()),
        ]);
        assert(view_list(list@) =~= seq![block@]);
    }
    r
}

fn ephemeral() -> (r: Json)
    ensures
        r@ == ephemeral_marker(),
{
    let mut cc = Json::new_object();
    cc.set_member("type", Json::text("ephemeral"));
    assert(cc@ == ephemeral_marker());
    cc
}

fn message_with_count(prefix: &str, n: u64, suffix: &str) -> (r: String)
    ensures
        r@ == prefix@ + decimal(n as nat) + suffix@,
{
    let a = concat(prefix, decimal_string(n).as_str());
    concat(a.as_str(), suffix)
}

/// Adds a cache marker to a long enough system prompt (see `system_result`).
fn inject_system(body: &mut Json) -> (r: CacheInjection)
    ensures
        system_result(old(body)@) == (final(body)@, r.injected, r.messages()),
{
    let ghost b0 = body@;
    match body {
        Json::Object(m) => {
            let ghost m0 = view_members(m@);
            proof {
                lemma_view_members(m@);
            }
            let idx = find_member(m, "system");
            match idx {
                None => {
                    let r = no_injection(None);
                    assert(member_get(m0, "system"@) is None);
                    r
                },
                Some(i) => {
                    proof {
                        lemma_first_member(m0, "system"@, i as int);
                    }
                    let tokens = estimate_tokens_value(&m[i].1);
                    if tokens >= MIN_CACHE_TOKENS {
                        let mut system = Json::Null;
                        std::mem::swap(&mut m[i].1, &mut system);
                        let ghost sys0 = system@;
                        assert(sys0 == m0[i as int].1);
                        match system {
                            Json::List(mut items) => {
                                proof {
                                    lemma_view_list(items@);
                                }
                                let n = items.len();
                                if n > 0 {
                                    let last_ok = items[n - 1].get("cache_control").is_none()
                                        && items[n - 1].is_object();
                                    if last_ok {
                                        let ghost items0 = items@;
                                        let mut last = items.pop().unwrap();
                                        last.set_member("cache_control", ephemeral());
                                        items.push(last);
                                        proof {
                                            lemma_view_list(items@);
                                            assert(view_list(items@) =~= view_list(items0).update(
                                                n - 1,
                                                last@,
                                            ));
                                        }
                                        let new_system = Json::List(items);
                                        m.set(i, ("system".to_owned(), new_system));
                                        proof {
                                            lemma_view_members(m@);
                                            assert(view_members(m@) =~= member_set(
                                                m0,
                                                "system"@,
                                                new_system@,
                                            ));
                                        }
                                        return injected_with(
                                            message_with_count(
                                                "Added cache_control to system prompt (~",
                                                tokens,
                                                " tokens)",
                                            ),
                                        );
                                    }
                                }
                                m.set(i, ("system".to_owned(), Json::List(items)));
                                proof {
                                    lemma_view_members(m@);
                                    assert(view_members(m@) =~= m0);
                                }
                                no_injection(None)
                            },
                            Json::Text(text) => {
                                let new_system = text_block(text);
                                m.set(i, ("system".to_owned(), new_system));
                                proof {
                                    lemma_view_members(m@);
                                    assert(view_members(m@) =~= member_set(
                                        m0,
                                        "system"@,
                                        new_system@,
                                    ));
                                }
                                injected_with(
                                    message_with_count(
                                        "Converted system to array + cache_control (~",
                                        tokens,
                                        " tokens)",
                                    ),
                                )
                            },
                            other => {
                                m.set(i, ("system".to_owned(), other));
                                proof {
                                    lemma_view_members(m@);
                                    assert(view_members(m@) =~= m0);
                                }
                                no_injection(None)
                            },
                        }
                    } else {
                        let msg = message_with_count(
                            "System prompt too short for caching: ",
                            tokens,
                            " tokens < ",
                        );
                        let msg = concat(msg.as_str(), decimal_string(MIN_CACHE_TOKENS).as_str());
                        no_injection(Some(msg))
                    }
                },
            }
        },
        _ => no_injection(None),
    }
}

/// The system prompt of `b` is estimated at `MIN_CACHE_TOKENS` or more.
pub open spec fn system_long(b: JsonValue) -> bool {
    match b {
        JsonValue::Object(m) => match member_get(m, "system"@) {
            Some(system) => sat(value_tokens(system) as int) >= MIN_CACHE_TOKENS,
            None => false,
        },
        _ => false,
    }
}

/// The content `c` of a message with a cache marker added: a string becomes a
/// single marked text block; a list has its last block marked when that block
/// is an object without one; anything else cannot be marked.
pub open spec fn marked_content(c: JsonValue) -> Option<JsonValue> {
    match c {
        JsonValue::Text(t) => Some(system_block(t)),
        JsonValue::List(items) => if items.len() > 0 && items.last() is Object && items.last().get(
            "cache_control"@,
        ) is None {
            Some(
                JsonValue::List(
                    items.update(
                        items.len() - 1,
                        JsonValue::Object(
                            member_set(items.last()->Object_0, "cache_control"@, ephemeral_marker()),
                        ),
                    ),
                ),
            )
        } else {
            None
        },
        _ => None,
    }
}

/// The message for a marked last message.
pub open spec fn message_marked_message(tokens: u64) -> Seq<char> {
    "Added cache_control to last message (~"@ + decimal(tokens as nat) + " tokens)"@
}

/// The message for messages under the threshold.
pub open spec fn messages_short_message(tokens: u64) -> Seq<char> {
    "Messages too short for caching: "@ + decimal(tokens as nat) + " tokens < "@ + decimal(
        MIN_CACHE_TOKENS as nat,
    )
}

/// What marking the messages of a body `b` does: the new body, whether it
/// injected, and its messages. A `messages` list estimated at
/// `MIN_CACHE_TOKENS` or more (see `value_tokens`) gets a cache marker on the
/// content of its last message (see `marked_content`), when that message is an
/// object whose content can be marked; shorter messages are reported.
pub open spec fn messages_result(b: JsonValue) -> (JsonValue, bool, Seq<Seq<char>>) {
    match b {
        JsonValue::Object(m) => match member_get(m, "messages"@) {
            Some(JsonValue::List(msgs)) => {
                let tokens = sat(value_tokens(JsonValue::List(msgs)) as int);
                if tokens < MIN_CACHE_TOKENS {
                    (b, false, seq![messages_short_message(tokens)])
                } else if msgs.len() > 0 && msgs.last() is Object {
                    let last = msgs.last()->Object_0;
                    match member_get(last, "content"@) {
                        Some(c) => match marked_content(c) {
                            Some(nc) => (
                                JsonValue::Object(
                                    member_set(
                                        m,
                                        "messages"@,
                                        JsonValue::List(
                                            msgs.update(
                                                msgs.len() - 1,
                                                JsonValue::Object(member_set(last, "content"@, nc)),
                                            ),
                                        ),
                                    ),
                                ),
                                true,
                                seq![message_marked_message(tokens)],
                            ),
                            None => (b, false, seq![]),
                        },
                        None => (b, false, seq![]),
                    }
                } else {
                    (b, false, seq![])
                }
            },
            _ => (b, false, seq![]),
        },
        _ => (b, false, seq![]),
    }
}

/// What `inject` does to a body `b`: the new body, whether it injected, and
/// its messages. A long system prompt is marked as `system_result` says, and
/// the messages are left alone. Otherwise (no system prompt, or a short one)
/// the messages are marked as `messages_result` says, after the report on the
/// system prompt.
pub open spec fn inject_result(b: JsonValue) -> (JsonValue, bool, Seq<Seq<char>>) {
    if system_long(b) {
        system_result(b)
    } else {
        let r = messages_result(b);
        (r.0, r.1, system_result(b).2 + r.2)
    }
}

fn system_is_long(body: &Json) -> (r: bool)
    ensures
        r == system_long(body@),
{
    match body {
        Json::Object(_) => match body.get("system") {
            Some(system) => estimate_tokens_value(system) >= MIN_CACHE_TOKENS,
            None => false,
        },
        _ => false,
    }
}

/// The content `c` with a cache marker added (see `marked_content`).
fn mark_content(c: &Json) -> (r: Option<Json>)
    ensures
        match r {
            Some(x) => marked_content(c@) == Some(x@),
            None => marked_content(c@) is None,
        },
{
    match c {
        Json::Text(t) => Some(text_block(copy_str(t.as_str()))),
        Json::List(items) => {
            proof {
                lemma_view_list(items@);
            }
            let n = items.len();
            if n > 0 && items[n - 1].is_object() && items[n - 1].get("cache_control").is_none() {
                let copy = c.deep_clone();
                match copy {
                    Json::List(mut v) => {
                        let ghost v0 = v@;
                        proof {
                            lemma_view_list(v@);
                            assert(view_list(v0) == view_list(items@));
                        }
                        let mut last = v.pop().unwrap();
                        last.set_member("cache_control", ephemeral());
                        v.push(last);
                        proof {
                            lemma_view_list(v@);
                            assert(view_list(v@) =~= view_list(v0).update(n - 1, last@));
                        }
                        Some(Json::List(v))
                    },
                    _ => None,
                }
            } else {
                None
            }
        },
        _ => None,
    }
}

/// Adds a cache marker to the last message of long enough messages (see
/// `messages_result`).
fn inject_messages(body: &mut Json) -> (r: CacheInjection)
    ensures
        messages_result(old(body)@) == (final(body)@, r.injected, r.messages()),
{
    match body {
        Json::Object(m) => {
            let ghost m0 = view_members(m@);
            proof {
                lemma_view_members(m@);
            }
            match find_member(m, "messages") {
                None => {
                    assert(member_get(m0, "messages"@) is None);
                    no_injection(None)
                },
                Some(i) => {
                    proof {
                        lemma_first_member(m0, "messages"@, i as int);
                    }
                    if !(m[i].1.as_list().is_some()) {
                        return no_injection(None);
                    }
                    let tokens = estimate_tokens_value(&m[i].1);
                    if tokens < MIN_CACHE_TOKENS {
                        let msg = message_with_count("Messages too short for caching: ", tokens, " tokens < ");
                        let msg = concat(msg.as_str(), decimal_string(MIN_CACHE_TOKENS).as_str());
                        return no_injection(Some(msg));
                    }
                    let new_last: Option<Json> = match &m[i].1 {
                        Json::List(msgs) => {
                            proof {
                                lemma_view_list(msgs@);
                            }
                            let n = msgs.len();
                            if n == 0 || !msgs[n - 1].is_object() {
                                None
                            } else {
                                match msgs[n - 1].get("content") {
                                    Some(c) => match mark_content(c) {
                                        Some(nc) => {
                                            let mut last = msgs[n - 1].deep_clone();
                                            last.set_member("content", nc);
                                            Some(last)
                                        },
                                        None => None,
                                    },
                                    None => None,
                                }
                            }
                        },
                        _ => None,
                    };
                    match new_last {
                        Some(nl) => {
                            let copy = m[i].1.deep_clone();
                            match copy {
                                Json::List(mut v) => {
                                    let ghost v0 = v@;
                                    proof {
                                        lemma_view_list(v@);
                                    }
                                    let n = v.len();
                                    v.pop();
                                    v.push(nl);
                                    proof {
                                        lemma_view_list(v@);
                                        assert(view_list(v@) =~= view_list(v0).update(n - 1, nl@));
                                    }
                                    let new_messages = Json::List(v);
                                    m.set(i, ("messages".to_owned(), new_messages));
                                    proof {
                                        lemma_view_members(m@);
                                        assert(view_members(m@) =~= member_set(
                                            m0,
                                            "messages"@,
                                            new_messages@,
                                        ));
                                    }
                                    injected_with(
                                        message_with_count(
                                            "Added cache_control to last message (~",
                                            tokens,
                                            " tokens)",
                                        ),
                                    )
                                },
                                _ => no_injection(None),
                            }
                        },
                        None => no_injection(None),
                    }
                },
            }
        },
        _ => no_injection(None),
    }
}

/// Adds a cache marker to a long enough system prompt or, failing a long
/// system prompt, to the last message of long enough messages (see
/// `inject_result`).
pub fn inject(body: &mut Json) -> (r: CacheInjection)
    ensures
        inject_result(old(body)@) == (final(body)@, r.injected, r.messages()),
{
    if system_is_long(body) {
        inject_system(body)
    } else {
        let first = inject_system(body);
        let second = inject_messages(body);
        join_injections(first, second)
    }
}

/// The counters of a response body `b`: `usage.input_tokens`, `usage.output_tokens`,
/// `usage.cache_read_input_tokens` (cached) and `usage.cache_creation_input_tokens`
/// (cache writes), each 0 when absent or not a non-negative integer.
pub open spec fn usage_counts(b: JsonValue) -> (u64, u64, u64, u64) {
    let usage = match b.get("usage"@) {
        Some(u) => u,
        None => JsonValue::Object(seq![]),
    };
    (
        usage.u64_or_zero("input_tokens"@),
        usage.u64_or_zero("output_tokens"@),
        usage.u64_or_zero("cache_read_input_tokens"@),
        usage.u64_or_zero("cache_creation_input_tokens"@),
    )
}

/// Member `key` of `v` as a non-negative integer, 0 when absent or of another kind.
pub fn u64_member(v: Option<&Json>, key: &str) -> (r: u64)
    ensures
        r == match v {
            Some(j) => j@.u64_or_zero(key@),
            None => JsonValue::Object(seq![]).u64_or_zero(key@),
        },
{
    match v {
        Some(j) => match j.get(key) {
            Some(x) => match x.as_u64() {
                Some(n) => n,
                None => 0,
            },
            None => 0,
        },
        None => {
            assert(!has_member(Seq::<(Seq<char>, JsonValue)>::empty(), key@));
            0
        },
    }
}

/// Reads the cache counters of a response (see `usage_counts`).
pub fn parse_cache(body: &Json) -> (r: CacheResult)
    ensures
        usage_counts(body@) == (
            r.input_tokens,
            r.output_tokens,
            r.cached_tokens,
            r.cache_write_tokens,
        ),
{
    let usage = body.get("usage");
    CacheResult {
        input_tokens: u64_member(usage, "input_tokens"),
        output_tokens: u64_member(usage, "output_tokens"),
        cached_tokens: u64_member(usage, "cache_read_input_tokens"),
        cache_write_tokens: u64_member(usage, "cache_creation_input_tokens"),
    }
}


/// A long system prompt given as a list whose last block is an object without a
/// cache marker: `inject` marks exactly that block. The new list is as long as
/// the old one, every earlier block is unchanged, and the last block keeps each
/// of its members and gains `cache_control: {"type": "ephemeral"}`; every other
/// member of the body is unchanged, and the request counts as injected.
pub proof fn lemma_long_system_list_marks_last_block(b: JsonValue)
    requires
        system_long(b),
        b.get("system"@) matches Some(JsonValue::List(items)) && items.len() > 0
            && items.last() is Object && items.last().get("cache_control"@) is None,
    ensures
        inject_result(b).1,
        forall|k: Seq<char>| k != "system"@ ==> #[trigger] inject_result(b).0.get(k) == b.get(k),
        inject_result(b).0.get("system"@) matches Some(JsonValue::List(out)) && {
            let items = b.get("system"@)->0->List_0;
            &&& out.len() == items.len()
            &&& forall|i: int| 0 <= i < items.len() - 1 ==> #[trigger] out[i] == items[i]
            &&& out.last() is Object
            &&& out.last().get("cache_control"@) == Some(
                JsonValue::Object(seq![("type"@, JsonValue::Text("ephemeral"@))]),
            )
            &&& forall|k: Seq<char>|
                k != "cache_control"@ ==> #[trigger] out.last().get(k) == items.last().get(k)
        },
{
    let m = b->Object_0;
    let items = b.get("system"@)->0->List_0;
    let lm = items.last()->Object_0;
    let marked = JsonValue::Object(member_set(lm, "cache_control"@, ephemeral_marker()));
    let new_system = JsonValue::List(items.update(items.len() - 1, marked));
    assert(inject_result(b).0 == JsonValue::Object(member_set(m, "system"@, new_system)));
    assert forall|k: Seq<char>| k != "system"@ implies #[trigger] inject_result(b).0.get(k) == b.get(
        k,
    ) by {
        lemma_member_get_after_set(m, "system"@, new_system, k);
    }
    lemma_member_get_after_set(m, "system"@, new_system, "system"@);
    let out = items.update(items.len() - 1, marked);
    assert(out.last() == marked);
    lemma_member_get_after_set(lm, "cache_control"@, ephemeral_marker(), "cache_control"@);
    assert forall|k: Seq<char>| k != "cache_control"@ implies #[trigger] out.last().get(k)
        == items.last().get(k) by {
        lemma_member_get_after_set(lm, "cache_control"@, ephemeral_marker(), k);
    }
}

/// A long system prompt given as a string: `inject` replaces it with a list of
/// one text block that holds the string and carries
/// `cache_control: {"type": "ephemeral"}`; every other member of the body is
/// unchanged, and the request counts as injected.
pub proof fn lemma_long_system_text_becomes_marked_block(b: JsonValue, t: Seq<char>)
    requires
        system_long(b),
        b.get("system"@) == Some(JsonValue::Text(t)),
    ensures
        inject_result(b).1,
        forall|k: Seq<char>| k != "system"@ ==> #[trigger] inject_result(b).0.get(k) == b.get(k),
        inject_result(b).0.get("system"@) matches Some(JsonValue::List(out)) && {
            &&& out.len() == 1
            &&& out[0].get("type"@) == Some(JsonValue::Text("text"@))
            &&& out[0].get("text"@) == Some(JsonValue::Text(t))
            &&& out[0].get("cache_control"@) == Some(
                JsonValue::Object(seq![("type"@, JsonValue::Text("ephemeral"@))]),
            )
        },
{
    let m = b->Object_0;
    let block = system_block(t);
    assert(inject_result(b).0 == JsonValue::Object(member_set(m, "system"@, block)));
    assert forall|k: Seq<char>| k != "system"@ implies #[trigger] inject_result(b).0.get(k) == b.get(
        k,
    ) by {
        lemma_member_get_after_set(m, "system"@, block, k);
    }
    lemma_member_get_after_set(m, "system"@, block, "system"@);
    reveal_strlit("type");
    reveal_strlit("text");
    reveal_strlit("cache_control");
    let bm = block->List_0[0]->Object_0;
    assert(bm[0].0 == "type"@ && bm[1].0 == "text"@ && bm[2].0 == "cache_control"@);
    assert("type"@.len() == 4 && "text"@.len() == 4 && "cache_control"@.len() == 13);
    assert("type"@[1] == 'y' && "text"@[1] == 'e');
    assert(is_first_member(bm, "type"@, 0));
    lemma_first_member(bm, "type"@, 0);
    assert(is_first_member(bm, "text"@, 1));
    lemma_first_member(bm, "text"@, 1);
    assert(is_first_member(bm, "cache_control"@, 2));
    lemma_first_member(bm, "cache_control"@, 2);
}

/// A message content given as a list whose last block is an object without a
/// cache marker is marked on exactly that block: the same length, every
/// earlier block unchanged, and the last block keeps each of its members and
/// gains `cache_control: {"type": "ephemeral"}`. A content given as a string
/// becomes one text block that holds it and carries the marker.
pub proof fn lemma_marked_content_marks_last_block(items: Seq<JsonValue>, t: Seq<char>)
    ensures
        items.len() > 0 && items.last() is Object && items.last().get("cache_control"@) is None
            ==> (marked_content(JsonValue::List(items)) matches Some(JsonValue::List(out)) && {
            &&& out.len() == items.len()
            &&& forall|i: int| 0 <= i < items.len() - 1 ==> #[trigger] out[i] == items[i]
            &&& out.last() is Object
            &&& out.last().get("cache_control"@) == Some(
                JsonValue::Object(seq![("type"@, JsonValue::Text("ephemeral"@))]),
            )
            &&& forall|k: Seq<char>|
                k != "cache_control"@ ==> #[trigger] out.last().get(k) == items.last().get(k)
        }),
        marked_content(JsonValue::Text(t)) matches Some(JsonValue::List(out)) && {
            &&& out.len() == 1
            &&& out[0].get("type"@) == Some(JsonValue::Text("text"@))
            &&& out[0].get("text"@) == Some(JsonValue::Text(t))
            &&& out[0].get("cache_control"@) == Some(
                JsonValue::Object(seq![("type"@, JsonValue::Text("ephemeral"@))]),
            )
        },
{
    if items.len() > 0 && items.last() is Object && items.last().get("cache_control"@) is None {
        let lm = items.last()->Object_0;
        lemma_member_get_after_set(lm, "cache_control"@, ephemeral_marker(), "cache_control"@);
        assert forall|k: Seq<char>| k != "cache_control"@ implies #[trigger] member_get(
            member_set(lm, "cache_control"@, ephemeral_marker()),
            k,
        ) == member_get(lm, k) by {
            lemma_member_get_after_set(lm, "cache_control"@, ephemeral_marker(), k);
        }
    }
    reveal_strlit("type");
    reveal_strlit("text");
    reveal_strlit("cache_control");
    let bm = system_block(t)->List_0[0]->Object_0;
    assert(bm[0].0 == "type"@ && bm[1].0 == "text"@ && bm[2].0 == "cache_control"@);
    assert("type"@.len() == 4 && "text"@.len() == 4 && "cache_control"@.len() == 13);
    assert("type"@[1] == 'y' && "text"@[1] == 'e');
    assert(is_first_member(bm, "type"@, 0));
    lemma_first_member(bm, "type"@, 0);
    assert(is_first_member(bm, "text"@, 1));
    lemma_first_member(bm, "text"@, 1);
    assert(is_first_member(bm, "cache_control"@, 2));
    lemma_first_member(bm, "cache_control"@, 2);
}

/// When the messages are long enough and the last one is an object whose
/// content can be marked, `messages_result` changes only that content: the
/// message list keeps its length and every earlier message, the last message
/// keeps every other member and gets the marked content, every other member of
/// the body is unchanged, and the request counts as injected.
pub proof fn lemma_messages_marks_last_message(b: JsonValue)
    requires
        b.get("messages"@) matches Some(JsonValue::List(msgs)) && msgs.len() > 0
            && sat(value_tokens(JsonValue::List(msgs)) as int) >= MIN_CACHE_TOKENS
            && msgs.last() is Object && (msgs.last().get("content"@) matches Some(c)
            && marked_content(c) is Some),
    ensures
        messages_result(b).1,
        forall|k: Seq<char>| k != "messages"@ ==> #[trigger] messages_result(b).0.get(k) == b.get(k),
        messages_result(b).0.get("messages"@) matches Some(JsonValue::List(out)) && {
            let msgs = b.get("messages"@)->0->List_0;
            &&& out.len() == msgs.len()
            &&& forall|i: int| 0 <= i < msgs.len() - 1 ==> #[trigger] out[i] == msgs[i]
            &&& out.last() is Object
            &&& out.last().get("content"@) == marked_content(msgs.last().get("content"@)->0)
            &&& forall|k: Seq<char>|
                k != "content"@ ==> #[trigger] out.last().get(k) == msgs.last().get(k)
        },
{
    let m = b->Object_0;
    let msgs = b.get("messages"@)->0->List_0;
    let last = msgs.last()->Object_0;
    let c = member_get(last, "content"@)->0;
    let nc = marked_content(c)->0;
    let new_last = JsonValue::Object(member_set(last, "content"@, nc));
    let nv = JsonValue::List(msgs.update(msgs.len() - 1, new_last));
    assert(messages_result(b).0 == JsonValue::Object(member_set(m, "messages"@, nv)));
    assert forall|k: Seq<char>| k != "messages"@ implies #[trigger] messages_result(b).0.get(k)
        == b.get(k) by {
        lemma_member_get_after_set(m, "messages"@, nv, k);
    }
    lemma_member_get_after_set(m, "messages"@, nv, "messages"@);
    lemma_member_get_after_set(last, "content"@, nc, "content"@);
    assert forall|k: Seq<char>| k != "content"@ implies #[trigger] member_get(
        member_set(last, "content"@, nc),
        k,
    ) == member_get(last, k) by {
        lemma_member_get_after_set(last, "content"@, nc, k);
    }
}

/// The token estimate of a list is the sum of the estimates of any split of
/// it, a one-element list counts as that element, and a string counts as its
/// token estimate.
pub proof fn lemma_value_tokens_list(a: Seq<JsonValue>, b: Seq<JsonValue>, v: JsonValue, t: Seq<char>)
    ensures
        value_tokens(JsonValue::List(a + b)) == value_tokens(JsonValue::List(a)) + value_tokens(
            JsonValue::List(b),
        ),
        value_tokens(JsonValue::List(seq![v])) == value_tokens(v),
        value_tokens(JsonValue::Text(t)) == token_estimate(t),
{
    assert(seq![v].drop_last() =~= Seq::<JsonValue>::empty());
    assert(list_tokens(Seq::<JsonValue>::empty()) == 0);
    lemma_list_tokens_concat(a, b);
}

proof fn lemma_list_tokens_concat(a: Seq<JsonValue>, b: Seq<JsonValue>)
    ensures
        list_tokens(a + b) == list_tokens(a) + list_tokens(b),
    decreases b.len(),
{
    if b.len() == 0 {
        assert(a + b =~= a);
    } else {
        lemma_list_tokens_concat(a, b.drop_last());
        assert((a + b).drop_last() =~= a + b.drop_last());
    }
}

} // verus!
