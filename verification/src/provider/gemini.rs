//! Gemini: a request is only measured here; context caching needs the
//! separate cache API (see `gemini_cache`).

use crate::json::{
    lemma_member_get_after_set, lemma_view_list, member_get, member_set, view_list, Json, JsonValue,
};
use crate::provider::{
    empty_cache_result, estimate_tokens, no_injection, sat, token_estimate, CacheInjection,
    CacheResult,
};
use crate::text::{concat, decimal, decimal_string};
use vstd::prelude::*;

verus! {

/// The smallest estimated context, in tokens, that Gemini caches.
pub const MIN_CACHE_TOKENS: u64 = 32_768;

/// The estimate of the `text` member of each part in `parts`.
pub open spec fn parts_tokens(parts: Seq<JsonValue>) -> nat
    decreases parts.len(),
{
    if parts.len() == 0 {
        0
    } else {
        parts_tokens(parts.drop_last()) + match parts.last().text_member("text"@) {
            Some(t) => token_estimate(t),
            None => 0,
        }
    }
}

/// The estimate of the `parts` of each content in `contents`.
pub open spec fn contents_tokens(contents: Seq<JsonValue>) -> nat
    decreases contents.len(),
{
    if contents.len() == 0 {
        0
    } else {
        contents_tokens(contents.drop_last()) + match contents.last().get("parts"@) {
            Some(JsonValue::List(parts)) => parts_tokens(parts),
            _ => 0,
        }
    }
}

/// The context estimate of a request: the texts of `contents[*].parts[*]` plus a
/// string `system_instruction`.
pub open spec fn prompt_tokens(b: JsonValue) -> nat {
    let from_contents = match b.get("contents"@) {
        Some(JsonValue::List(cs)) => contents_tokens(cs),
        _ => 0,
    };
    let from_system = match b.text_member("system_instruction"@) {
        Some(s) => token_estimate(s),
        None => 0,
    };
    from_contents + from_system
}

/// The estimate of one part: its `text` member when that is a string, else 0.
pub proof fn lemma_part_tokens_single(p: JsonValue)
    ensures
        parts_tokens(seq![p]) == match p.get("text"@) {
            Some(JsonValue::Text(t)) => token_estimate(t),
            _ => 0,
        },
{
    assert(seq![p].drop_last() =~= Seq::<JsonValue>::empty());
    assert(parts_tokens(Seq::<JsonValue>::empty()) == 0);
}

/// The estimate of a list of parts is the sum of the estimates of any split of it.
pub proof fn lemma_parts_tokens_concat(a: Seq<JsonValue>, b: Seq<JsonValue>)
    ensures
        parts_tokens(a + b) == parts_tokens(a) + parts_tokens(b),
    decreases b.len(),
{
    if b.len() == 0 {
        assert(a + b =~= a);
    } else {
        lemma_parts_tokens_concat(a, b.drop_last());
        assert((a + b).drop_last() =~= a + b.drop_last());
    }
}

/// The estimate of one content: the estimate of its `parts` when that is a list,
/// else 0.
pub proof fn lemma_content_tokens_single(c: JsonValue)
    ensures
        contents_tokens(seq![c]) == match c.get("parts"@) {
            Some(JsonValue::List(parts)) => parts_tokens(parts),
            _ => 0,
        },
{
    assert(seq![c].drop_last() =~= Seq::<JsonValue>::empty());
    assert(contents_tokens(Seq::<JsonValue>::empty()) == 0);
}

/// Every content counts: the estimate of a list of contents is the sum of the
/// estimates of any split of it, so the estimate of `[c1, c2]` is that of
/// `[c1]` plus that of `[c2]`, and adding a content never lowers it.
pub proof fn lemma_contents_tokens_concat(a: Seq<JsonValue>, b: Seq<JsonValue>)
    ensures
        contents_tokens(a + b) == contents_tokens(a) + contents_tokens(b),
        contents_tokens(a + b) >= contents_tokens(a),
    decreases b.len(),
{
    if b.len() == 0 {
        assert(a + b =~= a);
    } else {
        lemma_contents_tokens_concat(a, b.drop_last());
        assert((a + b).drop_last() =~= a + b.drop_last());
    }
}

/// Appending a content to a request's `contents` raises its context estimate
/// by exactly the estimate of that content, whatever else the request holds.
pub proof fn lemma_prompt_tokens_append_content(
    m: Seq<(Seq<char>, JsonValue)>,
    cs: Seq<JsonValue>,
    c: JsonValue,
)
    requires
        member_get(m, "contents"@) == Some(JsonValue::List(cs)),
    ensures
        prompt_tokens(JsonValue::Object(member_set(m, "contents"@, JsonValue::List(cs.push(c)))))
            == prompt_tokens(JsonValue::Object(m)) + contents_tokens(seq![c]),
{
    let v = JsonValue::List(cs.push(c));
    lemma_member_get_after_set(m, "contents"@, v, "contents"@);
    reveal_strlit("contents");
    reveal_strlit("system_instruction");
    lemma_member_get_after_set(m, "contents"@, v, "system_instruction"@);
    assert(cs + seq![c] =~= cs.push(c));
    lemma_contents_tokens_concat(cs, seq![c]);
}

/// Giving a request without a `system_instruction` a string one raises its
/// context estimate by exactly the token estimate of that string.
pub proof fn lemma_prompt_tokens_add_system(m: Seq<(Seq<char>, JsonValue)>, sys: Seq<char>)
    requires
        member_get(m, "system_instruction"@) is None,
    ensures
        prompt_tokens(
            JsonValue::Object(member_set(m, "system_instruction"@, JsonValue::Text(sys))),
        ) == prompt_tokens(JsonValue::Object(m)) + token_estimate(sys),
{
    let v = JsonValue::Text(sys);
    reveal_strlit("contents");
    reveal_strlit("system_instruction");
    lemma_member_get_after_set(m, "system_instruction"@, v, "system_instruction"@);
    lemma_member_get_after_set(m, "system_instruction"@, v, "contents"@);
}

fn parts_estimate(parts: &Vec<Json>) -> (r: u64)
    ensures
        r == sat(parts_tokens(view_list(parts@)) as int),
{
    let n = parts.len();
    let mut total: u64 = 0;
    proof {
        lemma_view_list(parts@);
    }
    for i in 0..n
        invariant
            n == parts@.len(),
            n == view_list(parts@).len(),
            forall|j: int| 0 <= j < n ==> #[trigger] view_list(parts@)[j] == parts@[j]@,
            total == sat(parts_tokens(view_list(parts@).take(i as int)) as int),
    {
        assert(view_list(parts@).take(i + 1).drop_last() =~= view_list(parts@).take(i as int));
        match parts[i].get("text") {
            Some(t) => match t.as_str() {
                Some(text) => {
                    total = total.saturating_add(estimate_tokens(text));
                },
                None => {},
            },
            None => {},
        }
    }
    assert(view_list(parts@).take(n as int) =~= view_list(parts@));
    total
}

/// The context estimate of a request (see `prompt_tokens`), saturating.
pub fn estimate_prompt_tokens(body: &Json) -> (r: u64)
    ensures
        r == sat(prompt_tokens(body@) as int),
{
    let mut total: u64 = 0;
    match body.get("contents") {
        Some(cs) => match cs.as_list() {
            Some(contents) => {
                let n = contents.len();
                proof {
                    lemma_view_list(contents@);
                }
                for i in 0..n
                    invariant
                        n == contents@.len(),
                        n == view_list(contents@).len(),
                        forall|j: int|
                            0 <= j < n ==> #[trigger] view_list(contents@)[j] == contents@[j]@,
                        total == sat(contents_tokens(view_list(contents@).take(i as int)) as int),
                {
                    assert(view_list(contents@).take(i + 1).drop_last() =~= view_list(
                        contents@,
                    ).take(i as int));
                    match contents[i].get("parts") {
                        Some(p) => match p.as_list() {
                            Some(parts) => {
                                total = total.saturating_add(parts_estimate(parts));
                            },
                            None => {},
                        },
                        None => {},
                    }
                }
                assert(view_list(contents@).take(n as int) =~= view_list(contents@));
            },
            None => {},
        },
        None => {},
    }
    match body.get("system_instruction") {
        Some(s) => match s.as_str() {
            Some(text) => {
                total = total.saturating_add(estimate_tokens(text));
            },
            None => {},
        },
        None => {},
    }
    total
}

/// The message of `inject` for a context of `tokens` estimated tokens.
pub open spec fn inject_message(tokens: u64) -> Seq<char> {
    if tokens < MIN_CACHE_TOKENS {
        "Gemini context too short for caching: ~"@ + decimal(tokens as nat) + " tokens < "@
            + decimal(MIN_CACHE_TOKENS as nat)
    } else {
        "Gemini caching requires manual Context Cache API setup (~"@ + decimal(tokens as nat)
            + " tokens detected)"@
    }
}

/// Reports whether the context is long enough for Gemini's cache API; the body
/// is left alone.
pub fn inject(body: &mut Json) -> (r: CacheInjection)
    ensures
        final(body)@ == old(body)@,
        !r.injected,
        r.messages() == seq![inject_message(sat(prompt_tokens(old(body)@) as int))],
{
    let total = estimate_prompt_tokens(body);
    if total < MIN_CACHE_TOKENS {
        let a = concat("Gemini context too short for caching: ~", decimal_string(total).as_str());
        let b = concat(a.as_str(), " tokens < ");
        no_injection(Some(concat(b.as_str(), decimal_string(MIN_CACHE_TOKENS).as_str())))
    } else {
        let a = concat(
            "Gemini caching requires manual Context Cache API setup (~",
            decimal_string(total).as_str(),
        );
        no_injection(Some(concat(a.as_str(), " tokens detected)")))
    }
}

/// Gemini responses carry no counters read here: every count is 0.
pub fn parse_cache(body: &Json) -> (r: CacheResult)
    ensures
        r.cached_tokens == 0 && r.cache_write_tokens == 0 && r.input_tokens == 0
            && r.output_tokens == 0,
{
    empty_cache_result()
}

} // verus!
