//! Provider detection, token estimates and the per-provider cache strategies.

use crate::json::{
    has_member, lemma_first_exists, lemma_member_get_push, lemma_view_list, lemma_view_members,
    member_get, view_list, view_members, Json, JsonValue,
};
use crate::text::{
    chars_of, concat, contains, decimal, decimal_string, lowercase, str_contains, str_eq, to_lowercase,
};
use vstd::prelude::*;

pub mod anthropic;
pub mod deepseek;
pub mod gemini;
pub mod gemini_cache;
pub mod openai;

verus! {

broadcast use crate::json::group_json_view;

/// The largest value a `u64` counter can hold; sums of estimates saturate there.
pub open spec fn sat(n: int) -> u64 {
    if n > u64::MAX {
        u64::MAX
    } else if n < 0 {
        0
    } else {
        n as u64
    }
}

/// The number of ASCII characters in `s`.
pub open spec fn ascii_count(s: Seq<char>) -> nat
    decreases s.len(),
{
    if s.len() == 0 {
        0
    } else {
        ascii_count(s.drop_last()) + if (s.last() as u32) < 128 {
            1nat
        } else {
            0nat
        }
    }
}

/// The token estimate of a text: about one token per four ASCII characters
/// and one token per 1.8 other characters (CJK and the like), each part
/// rounded up, and at least one token for any non-empty text.
/// With `a` ASCII and `b` other characters that is
/// `ceil(a / 4) + ceil(b / 1.8) = ceil(a / 4) + ceil(5 b / 9)`.
pub open spec fn token_estimate(s: Seq<char>) -> nat {
    if s.len() == 0 {
        0
    } else {
        let a = ascii_count(s);
        let b = (s.len() - a) as nat;
        let t = (a + 3) / 4 + (5 * b + 8) / 9;
        if t < 1 {
            1
        } else {
            t
        }
    }
}

proof fn lemma_ascii_count_bound(s: Seq<char>)
    ensures
        ascii_count(s) <= s.len(),
    decreases s.len(),
{
    if s.len() > 0 {
        lemma_ascii_count_bound(s.drop_last());
    }
}

proof fn lemma_ascii_count_concat(s: Seq<char>, t: Seq<char>)
    ensures
        ascii_count(s + t) == ascii_count(s) + ascii_count(t),
    decreases t.len(),
{
    if t.len() == 0 {
        assert(s + t =~= s);
    } else {
        lemma_ascii_count_concat(s, t.drop_last());
        assert((s + t).drop_last() =~= s + t.drop_last());
        assert((s + t).last() == t.last());
    }
}

proof fn lemma_div_mono(x: int, y: int, d: int)
    by (nonlinear_arith)
    requires
        0 <= x <= y,
        d > 0,
    ensures
        x / d <= y / d,
{
}

proof fn lemma_ceil_split(x: int, y: int, d: int)
    by (nonlinear_arith)
    requires
        0 <= x,
        0 <= y,
        d > 0,
    ensures
        (x + y + d - 1) / d <= (x + d - 1) / d + (y + d - 1) / d,
{
}

/// The token estimate of a text joined from two: at least that of each part,
/// the same in either order, and, when both parts are non-empty, at most the
/// two estimates added (rounding up each part can only add).
pub proof fn lemma_estimate_concat(s: Seq<char>, t: Seq<char>)
    ensures
        token_estimate(s + t) >= token_estimate(s),
        token_estimate(s + t) >= token_estimate(t),
        token_estimate(s + t) == token_estimate(t + s),
        s.len() > 0 && t.len() > 0 ==> token_estimate(s + t) <= token_estimate(s) + token_estimate(t),
{
    lemma_ascii_count_concat(s, t);
    lemma_ascii_count_concat(t, s);
    lemma_ascii_count_bound(s);
    lemma_ascii_count_bound(t);
    let a1 = ascii_count(s) as int;
    let a2 = ascii_count(t) as int;
    let b1 = s.len() - a1;
    let b2 = t.len() - a2;
    lemma_div_mono(a1 + 3, a1 + a2 + 3, 4);
    lemma_div_mono(a2 + 3, a1 + a2 + 3, 4);
    lemma_div_mono(5 * b1 + 8, 5 * (b1 + b2) + 8, 9);
    lemma_div_mono(5 * b2 + 8, 5 * (b1 + b2) + 8, 9);
    lemma_ceil_split(a1, a2, 4);
    lemma_ceil_split(5 * b1, 5 * b2, 9);
    assert(5 * (b1 + b2) + 8 == 5 * b1 + 5 * b2 + 9 - 1);
}

/// A text's token estimate is at most its number of characters.
pub proof fn lemma_estimate_at_most_len(s: Seq<char>)
    ensures
        token_estimate(s) <= s.len(),
{
    lemma_ascii_count_bound(s);
    let a = ascii_count(s) as int;
    let b = s.len() - a;
    if a > 0 {
        lemma_div_mono(a + 3, 4 * a, 4);
        assert((4 * a) / 4 == a);
    }
    if b > 1 {
        lemma_div_mono(5 * b + 8, 9 * b, 9);
        assert((9 * b) / 9 == b);
    } else if b == 1 {
        assert((5 * b + 8) / 9 == 1);
    }
}

/// `ceil(x / d)` for a small positive `d`, computed without overflow.
fn div_ceil(x: u64, d: u64) -> (r: u64)
    requires
        0 < d <= 9,
    ensures
        r == (x + d - 1) / d as int,
        r <= x,
{
    let q = x / d;
    let rem = x % d;
    assert(x == d * q + rem) by (nonlinear_arith)
        requires
            q == x / d,
            rem == x % d,
            d > 0,
    ;
    if rem == 0 {
        assert((x + d - 1) / d as int == q) by (nonlinear_arith)
            requires
                x == d * q,
                d > 0,
        ;
        assert(q <= x) by (nonlinear_arith)
            requires
                x == d * q,
                d > 0,
        ;
        q
    } else {
        assert((x + d - 1) / d as int == q + 1) by (nonlinear_arith)
            requires
                x == d * q + rem,
                0 < rem < d,
        ;
        assert(q + 1 <= x) by (nonlinear_arith)
            requires
                x == d * q + rem,
                0 < rem < d,
        ;
        q + 1
    }
}

/// The token estimate of a text (see `token_estimate`).
pub fn estimate_tokens(text: &str) -> (r: u64)
    ensures
        r == token_estimate(text@),
{
    let cs = chars_of(text);
    let n = cs.len();
    if n == 0 {
        return 0;
    }
    let mut a: u64 = 0;
    let mut b: u64 = 0;
    for i in 0..n
        invariant
            n == cs@.len(),
            a == ascii_count(cs@.take(i as int)),
            a + b == i,
    {
        assert(cs@.take(i + 1).drop_last() =~= cs@.take(i as int));
        if (cs[i] as u32) < 128 {
            a = a + 1;
        } else {
            b = b + 1;
        }
    }
    assert(cs@.take(n as int) =~= cs@);
    let ascii_tokens = div_ceil(a, 4);
    // ceil(5b / 9) == 5 * (b / 9) + ceil(5 * (b % 9) / 9)
    let q = b / 9;
    let rem = b % 9;
    let tail = (5 * rem + 8) / 9;
    assert((5 * b + 8) / 9 == 5 * q + tail) by (nonlinear_arith)
        requires
            q == b / 9,
            rem == b % 9,
            tail == (5 * rem + 8) / 9,
    ;
    assert(5 * q + tail <= b) by (nonlinear_arith)
        requires
            q == b / 9,
            rem == b % 9,
            tail == (5 * rem + 8) / 9,
    ;
    let other_tokens = 5 * q + tail;
    let total = ascii_tokens + other_tokens;
    if total < 1 {
        1
    } else {
        total
    }
}

/// A provider of an LLM API, recognised by host name.
#[derive(Debug, Clone, PartialEq, Eq)]
pub enum Provider {
    Anthropic,
    OpenAI,
    DeepSeek,
    Gemini,
    GLM,
    /// Any other host (its lowercase form).
    Unknown(String),
}

/// The mathematical model of a `Provider`.
pub enum ProviderKind {
    Anthropic,
    OpenAI,
    DeepSeek,
    Gemini,
    GLM,
    Unknown(Seq<char>),
}

impl View for Provider {
    type V = ProviderKind;

    open spec fn view(&self) -> ProviderKind {
        match self {
            Provider::Anthropic => ProviderKind::Anthropic,
            Provider::OpenAI => ProviderKind::OpenAI,
            Provider::DeepSeek => ProviderKind::DeepSeek,
            Provider::Gemini => ProviderKind::Gemini,
            Provider::GLM => ProviderKind::GLM,
            Provider::Unknown(h) => ProviderKind::Unknown(h@),
        }
    }
}

/// The provider of a lowercase host name: the first rule whose domain occurs in it.
pub open spec fn host_kind(h: Seq<char>) -> ProviderKind {
    if contains(h, "anthropic.com"@) {
        ProviderKind::Anthropic
    } else if contains(h, "api.openai.com"@) || contains(h, "openai.com"@) {
        ProviderKind::OpenAI
    } else if contains(h, "deepseek.com"@) {
        ProviderKind::DeepSeek
    } else if contains(h, "googleapis.com"@) {
        ProviderKind::Gemini
    } else if contains(h, "bigmodel.cn"@) {
        ProviderKind::GLM
    } else {
        ProviderKind::Unknown(h)
    }
}

/// The short name of a provider.
pub open spec fn kind_name(p: ProviderKind) -> Seq<char> {
    match p {
        ProviderKind::Anthropic => "anthropic"@,
        ProviderKind::OpenAI => "openai"@,
        ProviderKind::DeepSeek => "deepseek"@,
        ProviderKind::Gemini => "gemini"@,
        ProviderKind::GLM => "glm"@,
        ProviderKind::Unknown(_) => "unknown"@,
    }
}

impl Provider {
    /// The provider serving `host`, matched case-insensitively.
    pub fn from_host(host: &str) -> (r: Provider)
        ensures
            r@ == host_kind(lowercase(host@)),
    {
        let host = to_lowercase(host);
        if str_contains(host.as_str(), "anthropic.com") {
            Provider::Anthropic
        } else if str_contains(host.as_str(), "api.openai.com") {
            Provider::OpenAI
        } else if str_contains(host.as_str(), "openai.com") {
            Provider::OpenAI
        } else if str_contains(host.as_str(), "deepseek.com") {
            Provider::DeepSeek
        } else if str_contains(host.as_str(), "googleapis.com") {
            Provider::Gemini
        } else if str_contains(host.as_str(), "bigmodel.cn") {
            Provider::GLM
        } else {
            Provider::Unknown(host)
        }
    }

    /// The short name of the provider.
    pub fn name(&self) -> (r: &'static str)
        ensures
            r@ == kind_name(self@),
    {
        match self {
            Provider::Anthropic => "anthropic",
            Provider::OpenAI => "openai",
            Provider::DeepSeek => "deepseek",
            Provider::Gemini => "gemini",
            Provider::GLM => "glm",
            Provider::Unknown(_) => "unknown",
        }
    }
}

/// What a cache strategy did to a request body.
pub struct CacheInjection {
    pub injected: bool,
    pub details: Vec<String>,
}

impl CacheInjection {
    /// The detail messages as character sequences.
    pub open spec fn messages(&self) -> Seq<Seq<char>> {
        self.details@.map_values(|s: String| s@)
    }
}

/// An injection that did nothing, with at most one message.
pub fn no_injection(message: Option<String>) -> (r: CacheInjection)
    ensures
        !r.injected,
        r.messages() == match message {
            Some(m) => seq![m@],
            None => Seq::<Seq<char>>::empty(),
        },
{
    let mut details = Vec::new();
    match message {
        Some(m) => {
            details.push(m);
        },
        None => {},
    }
    let r = CacheInjection { injected: false, details };
    assert(r.messages() =~= match message {
        Some(m) => seq![m@],
        None => Seq::<Seq<char>>::empty(),
    });
    r
}

/// An injection that rewrote the body, with one message.
pub fn injected_with(message: String) -> (r: CacheInjection)
    ensures
        r.injected,
        r.messages() == seq![message@],
{
    let mut details = Vec::new();
    details.push(message);
    let r = CacheInjection { injected: true, details };
    assert(r.messages() =~= seq![message@]);
    r
}


/// The outcome of two strategies applied one after the other: injected when
/// either injected, with the messages of the first and then of the second.
pub(crate) fn join_injections(first: CacheInjection, second: CacheInjection) -> (r: CacheInjection)
    ensures
        r.injected == (first.injected || second.injected),
        r.messages() == first.messages() + second.messages(),
{
    let injected = first.injected || second.injected;
    let mut details = first.details;
    let mut more = second.details;
    let ghost d0 = details@;
    let ghost m0 = more@;
    details.append(&mut more);
    let r = CacheInjection { injected, details };
    assert(r.messages() =~= first.messages() + second.messages());
    r
}

/// Token counts reported by a provider's response.
#[derive(Debug, Clone, Default)]
pub struct CacheResult {
    pub cached_tokens: u64,
    pub cache_write_tokens: u64,
    pub input_tokens: u64,
    pub output_tokens: u64,
}

/// A cache result with every count zero.
pub fn empty_cache_result() -> (r: CacheResult)
    ensures
        r.cached_tokens == 0 && r.cache_write_tokens == 0 && r.input_tokens == 0
            && r.output_tokens == 0,
{
    CacheResult { cached_tokens: 0, cache_write_tokens: 0, input_tokens: 0, output_tokens: 0 }
}


/// `v` with every `cache_control` member removed from every object, at any depth.
pub open spec fn strip_cc(v: JsonValue) -> JsonValue
    decreases v,
{
    match v {
        JsonValue::Object(m) => JsonValue::Object(strip_members(m)),
        JsonValue::List(items) => JsonValue::List(strip_list(items)),
        _ => v,
    }
}

/// The elements of `s`, each stripped.
pub open spec fn strip_list(s: Seq<JsonValue>) -> Seq<JsonValue>
    decreases s,
{
    if s.len() == 0 {
        s
    } else {
        strip_list(s.drop_last()).push(strip_cc(s.last()))
    }
}

/// The members of `m` other than `cache_control`, each value stripped.
pub open spec fn strip_members(m: Seq<(Seq<char>, JsonValue)>) -> Seq<(Seq<char>, JsonValue)>
    decreases m,
{
    if m.len() == 0 {
        m
    } else if m.last().0 == "cache_control"@ {
        strip_members(m.drop_last())
    } else {
        strip_members(m.drop_last()).push((m.last().0, strip_cc(m.last().1)))
    }
}

/// The number of objects in `v`, at any depth, that hold a `cache_control` member
/// (members inside a removed `cache_control` value are not counted).
pub open spec fn cc_count(v: JsonValue) -> nat
    decreases v,
{
    match v {
        JsonValue::Object(m) => (if has_member(m, "cache_control"@) {
            1nat
        } else {
            0nat
        }) + members_cc_count(m),
        JsonValue::List(items) => list_cc_count(items),
        _ => 0,
    }
}

/// The sum of `cc_count` over `s`.
pub open spec fn list_cc_count(s: Seq<JsonValue>) -> nat
    decreases s,
{
    if s.len() == 0 {
        0
    } else {
        list_cc_count(s.drop_last()) + cc_count(s.last())
    }
}

/// The sum of `cc_count` over the values of the members of `m` other than `cache_control`.
pub open spec fn members_cc_count(m: Seq<(Seq<char>, JsonValue)>) -> nat
    decreases m,
{
    if m.len() == 0 {
        0
    } else if m.last().0 == "cache_control"@ {
        members_cc_count(m.drop_last())
    } else {
        members_cc_count(m.drop_last()) + cc_count(m.last().1)
    }
}

/// Removes every `cache_control` member at any depth; returns how many objects had one
/// (see `cc_count`), saturating.
#[verifier::loop_isolation(false)]
#[verifier::spinoff_prover]
fn remove_cache_control(value: &mut Json) -> (r: u64)
    ensures
        final(value)@ == strip_cc(old(value)@),
        r == sat(cc_count(old(value)@) as int),
    decreases *old(value),
{
    let ghost v0 = *value;
    match value {
        Json::Object(m) => {
            let ghost ov = m@;
            let ghost orig = view_members(ov);
            proof {
                lemma_view_members(ov);
            }
            let len0 = m.len();
            let mut i: usize = 0;
            let mut k: usize = 0;
            let mut found = false;
            let mut count: u64 = 0;
            while i < m.len()
                invariant
                    v0 is Object,
                    v0->Object_0@ == ov,
                    orig == view_members(ov),
                    orig.len() == ov.len() == len0,
                    i <= k <= len0,
                    m@.len() == i + (len0 - k),
                    m@.skip(i as int) == ov.skip(k as int),
                    view_members(m@).take(i as int) == strip_members(orig.take(k as int)),
                    count == sat(members_cc_count(orig.take(k as int)) as int),
                    found ==> has_member(orig, "cache_control"@),
                    !found ==> forall|j: int| 0 <= j < k ==> orig[j].0 != "cache_control"@,
                decreases m@.len() - i,
            {
                let ghost before = m@;
                proof {
                    lemma_view_members(before);
                    assert(m@.skip(i as int)[0] == ov.skip(k as int)[0]);
                    assert(m@[i as int] == ov[k as int]);
                    assert(orig.take(k + 1).drop_last() =~= orig.take(k as int));
                }
                if str_eq(m[i].0.as_str(), "cache_control") {
                    let _removed = m.remove(i);
                    found = true;
                    proof {
                        lemma_view_members(m@);
                        assert(view_members(m@).take(i as int) =~= view_members(before).take(
                            i as int,
                        ));
                        assert(m@.skip(i as int) =~= before.skip(i as int).drop_first());
                        assert(ov.skip(k + 1) =~= ov.skip(k as int).drop_first());
                    }
                } else {
                    let mut child = Json::Null;
                    std::mem::swap(&mut m[i].1, &mut child);
                    proof {
                        assert(child == ov[k as int].1);
                        assert(decreases_to!(v0 => v0->Object_0));
                        assert(decreases_to!(v0->Object_0 => ov));
                        assert(decreases_to!(ov => ov[k as int]));
                        assert(decreases_to!(ov[k as int] => ov[k as int].1));
                    }
                    let c = remove_cache_control(&mut child);
                    std::mem::swap(&mut m[i].1, &mut child);
                    count = count.saturating_add(c);
                    proof {
                        lemma_view_members(m@);
                        assert(view_members(m@).take(i + 1) =~= view_members(before).take(
                            i as int,
                        ).push((orig[k as int].0, strip_cc(orig[k as int].1))));
                        assert(m@.skip(i + 1) =~= before.skip(i as int).drop_first());
                        assert(ov.skip(k + 1) =~= ov.skip(k as int).drop_first());
                    }
                    i = i + 1;
                }
                k = k + 1;
            }
            proof {
                assert(orig.take(k as int) =~= orig);
                assert(view_members(m@).take(i as int) =~= view_members(m@));
                if !found {
                    assert(!has_member(orig, "cache_control"@));
                }
            }
            if found {
                count.saturating_add(1)
            } else {
                count
            }
        },
        Json::List(items) => {
            let ghost ov = items@;
            proof {
                lemma_view_list(ov);
            }
            let n = items.len();
            let mut count: u64 = 0;
            for i in 0..n
                invariant
                    v0 is List,
                    v0->List_0@ == ov,
                    n == ov.len() == items@.len(),
                    forall|j: int| i <= j < n ==> #[trigger] items@[j] == ov[j],
                    view_list(items@).take(i as int) == strip_list(view_list(ov).take(i as int)),
                    count == sat(list_cc_count(view_list(ov).take(i as int)) as int),
            {
                let ghost before = items@;
                let mut child = Json::Null;
                std::mem::swap(&mut items[i], &mut child);
                proof {
                    assert(child == ov[i as int]);
                    assert(decreases_to!(v0 => v0->List_0));
                    assert(decreases_to!(v0->List_0 => ov));
                    assert(decreases_to!(ov => ov[i as int]));
                }
                let c = remove_cache_control(&mut child);
                std::mem::swap(&mut items[i], &mut child);
                count = count.saturating_add(c);
                proof {
                    lemma_view_list(items@);
                    lemma_view_list(before);
                    assert(view_list(ov).take(i + 1).drop_last() =~= view_list(ov).take(i as int));
                    assert(view_list(items@).take(i + 1) =~= view_list(before).take(i as int).push(
                        strip_cc(view_list(ov)[i as int]),
                    ));
                }
            }
            proof {
                lemma_view_list(items@);
                assert(view_list(ov).take(n as int) =~= view_list(ov));
                assert(view_list(items@).take(n as int) =~= view_list(items@));
            }
            count
        },
        _ => 0,
    }
}

proof fn lemma_strip_members_clean(m: Seq<(Seq<char>, JsonValue)>)
    ensures
        !has_member(strip_members(m), "cache_control"@),
        members_cc_count(strip_members(m)) == 0,
    decreases m,
{
    if m.len() > 0 {
        lemma_strip_members_clean(m.drop_last());
        if m.last().0 != "cache_control"@ {
            lemma_stripped_has_no_cache_control(m.last().1);
            let p = strip_members(m.drop_last());
            let s = p.push((m.last().0, strip_cc(m.last().1)));
            assert(s.drop_last() =~= p);
            assert forall|i: int| 0 <= i < s.len() implies s[i].0 != "cache_control"@ by {
                if i < p.len() {
                    assert(s[i] == p[i]);
                }
            }
        }
    }
}

proof fn lemma_strip_list_clean(s: Seq<JsonValue>)
    ensures
        list_cc_count(strip_list(s)) == 0,
    decreases s,
{
    if s.len() > 0 {
        lemma_strip_list_clean(s.drop_last());
        lemma_stripped_has_no_cache_control(s.last());
        let p = strip_list(s.drop_last());
        assert(p.push(strip_cc(s.last())).drop_last() =~= p);
    }
}

/// Stripping leaves no `cache_control` member anywhere in a body.
pub proof fn lemma_stripped_has_no_cache_control(v: JsonValue)
    ensures
        cc_count(strip_cc(v)) == 0,
    decreases v,
{
    match v {
        JsonValue::Object(m) => lemma_strip_members_clean(m),
        JsonValue::List(items) => lemma_strip_list_clean(items),
        _ => {},
    }
}

proof fn lemma_strip_members_unchanged(m: Seq<(Seq<char>, JsonValue)>)
    requires
        !has_member(m, "cache_control"@),
        members_cc_count(m) == 0,
    ensures
        strip_members(m) == m,
    decreases m,
{
    if m.len() > 0 {
        let k = m.last().0;
        assert(m[m.len() - 1].0 == k);
        assert(!has_member(m.drop_last(), "cache_control"@)) by {
            if has_member(m.drop_last(), "cache_control"@) {
                let i = choose|i: int|
                    0 <= i < m.drop_last().len() && m.drop_last()[i].0 == "cache_control"@;
                assert(m[i] == m.drop_last()[i]);
            }
        }
        lemma_strip_members_unchanged(m.drop_last());
        lemma_strip_keeps_clean_body(m.last().1);
        assert(m.drop_last().push(m.last()) =~= m);
    }
}

proof fn lemma_strip_list_unchanged(s: Seq<JsonValue>)
    requires
        list_cc_count(s) == 0,
    ensures
        strip_list(s) == s,
    decreases s,
{
    if s.len() > 0 {
        lemma_strip_list_unchanged(s.drop_last());
        lemma_strip_keeps_clean_body(s.last());
        assert(s.drop_last().push(s.last()) =~= s);
    }
}

/// A body without any `cache_control` member is left as it is by stripping.
pub proof fn lemma_strip_keeps_clean_body(v: JsonValue)
    requires
        cc_count(v) == 0,
    ensures
        strip_cc(v) == v,
    decreases v,
{
    match v {
        JsonValue::Object(m) => lemma_strip_members_unchanged(m),
        JsonValue::List(items) => lemma_strip_list_unchanged(items),
        _ => {},
    }
}

/// Stripping keeps every member other than `cache_control`, each read
/// stripped.
pub proof fn lemma_strip_members_get(m: Seq<(Seq<char>, JsonValue)>, key: Seq<char>)
    requires
        key != "cache_control"@,
    ensures
        member_get(strip_members(m), key) == match member_get(m, key) {
            Some(v) => Some(strip_cc(v)),
            None => None,
        },
    decreases m.len(),
{
    if m.len() > 0 {
        let p = m.drop_last();
        lemma_strip_members_get(p, key);
        assert(p.push(m.last()) =~= m);
        lemma_member_get_push(p, m.last(), key);
        if m.last().0 != "cache_control"@ {
            lemma_member_get_push(strip_members(p), (m.last().0, strip_cc(m.last().1)), key);
            if has_member(p, key) {
                lemma_first_exists(p, key);
            }
            if has_member(strip_members(p), key) {
                lemma_first_exists(strip_members(p), key);
            }
        } else {
            if has_member(p, key) {
                lemma_first_exists(p, key);
            }
        }
    }
}

/// Stripping twice is stripping once.
pub proof fn lemma_strip_idempotent(v: JsonValue)
    ensures
        strip_cc(strip_cc(v)) == strip_cc(v),
{
    lemma_stripped_has_no_cache_control(v);
    lemma_strip_keeps_clean_body(strip_cc(v));
}

/// The message of the strategy that strips `cache_control` after removing `n` of them.
pub open spec fn strip_message(n: u64) -> Seq<char> {
    if n > 0 {
        "Stripped "@ + decimal(n as nat) + " cache_control fields (not supported)"@
    } else {
        "Provider does not support caching"@
    }
}

/// For providers without prompt caching: removes every `cache_control` member.
pub fn strip_cache_control(body: &mut Json) -> (r: CacheInjection)
    ensures
        final(body)@ == strip_cc(old(body)@),
        !r.injected,
        r.messages() == seq![strip_message(sat(cc_count(old(body)@) as int))],
{
    let stripped = remove_cache_control(body);
    if stripped > 0 {
        let a = concat("Stripped ", decimal_string(stripped).as_str());
        no_injection(Some(concat(a.as_str(), " cache_control fields (not supported)")))
    } else {
        no_injection(Some("Provider does not support caching".to_owned()))
    }
}

/// What `inject_cache_headers` does for `p`: the strategy's new body, whether it
/// injected, and its messages.
pub open spec fn injection_result(p: ProviderKind, b: JsonValue) -> (JsonValue, bool, Seq<Seq<char>>) {
    match p {
        ProviderKind::Anthropic => anthropic::inject_result(b),
        ProviderKind::OpenAI => openai::inject_result(b),
        ProviderKind::DeepSeek => (b, false, seq![deepseek::automatic_message()]),
        ProviderKind::Gemini => (
            b,
            false,
            seq![gemini::inject_message(sat(gemini::prompt_tokens(b) as int))],
        ),
        ProviderKind::GLM => (strip_cc(b), false, seq![strip_message(sat(cc_count(b) as int))]),
        ProviderKind::Unknown(_) => (b, false, seq!["Unknown provider, no injection"@]),
    }
}

/// Applies the cache strategy of `provider` to a request body.
pub fn inject_cache_headers(provider: &Provider, body: &mut Json) -> (r: CacheInjection)
    ensures
        injection_result(provider@, old(body)@) == (final(body)@, r.injected, r.messages()),
{
    match provider {
        Provider::Anthropic => anthropic::inject(body),
        Provider::OpenAI => openai::inject(body),
        Provider::DeepSeek => deepseek::inject(body),
        Provider::Gemini => gemini::inject(body),
        Provider::GLM => strip_cache_control(body),
        Provider::Unknown(_) => no_injection(Some("Unknown provider, no injection".to_owned())),
    }
}

/// The counters `parse_cache_result` reads for `p`, as (input, output, cached, cache writes).
pub open spec fn cache_counts(p: ProviderKind, b: JsonValue) -> (u64, u64, u64, u64) {
    match p {
        ProviderKind::Anthropic => anthropic::usage_counts(b),
        ProviderKind::OpenAI => openai::usage_counts(b),
        ProviderKind::DeepSeek => openai::usage_counts(b),
        _ => (0, 0, 0, 0),
    }
}

/// Reads the cache counters of a response body as `provider` reports them.
pub fn parse_cache_result(provider: &Provider, body: &Json) -> (r: CacheResult)
    ensures
        cache_counts(provider@, body@) == (
            r.input_tokens,
            r.output_tokens,
            r.cached_tokens,
            r.cache_write_tokens,
        ),
{
    match provider {
        Provider::Anthropic => anthropic::parse_cache(body),
        Provider::OpenAI => openai::parse_cache(body),
        Provider::DeepSeek => deepseek::parse_cache(body),
        Provider::Gemini => gemini::parse_cache(body),
        _ => empty_cache_result(),
    }
}

} // verus!
