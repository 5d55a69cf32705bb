//! Which price applies to a request and how its tokens are billed.
//!
//! Prices themselves are decimal amounts per million tokens; they are applied
//! outside this library. Here stand the choices that decide which amount
//! applies to which tokens.

use crate::text::{
    after_char, before_char, chars_of, concat, contains, find_char, lowercase, str_contains, str_eq,
    string_from_range, texts, to_lowercase,
};
use vstd::prelude::*;

verus! {

/// A provider's list of model prices.
#[derive(Clone, Copy, Debug, PartialEq, Eq, Structural)]
pub enum PriceTable {
    Anthropic,
    OpenAI,
    DeepSeek,
    Gemini,
}

/// The price table of a provider name, if it has one.
pub open spec fn table_of(provider: Seq<char>) -> Option<PriceTable> {
    if provider == "anthropic"@ {
        Some(PriceTable::Anthropic)
    } else if provider == "openai"@ {
        Some(PriceTable::OpenAI)
    } else if provider == "deepseek"@ {
        Some(PriceTable::DeepSeek)
    } else if provider == "gemini"@ {
        Some(PriceTable::Gemini)
    } else {
        None
    }
}

/// The provider name a table is kept under.
pub open spec fn table_name(t: PriceTable) -> Seq<char> {
    match t {
        PriceTable::Anthropic => "anthropic"@,
        PriceTable::OpenAI => "openai"@,
        PriceTable::DeepSeek => "deepseek"@,
        PriceTable::Gemini => "gemini"@,
    }
}

impl PriceTable {
    /// The table kept under `provider` (see `table_of`); `None` means the
    /// fallback price applies.
    pub fn named(provider: &str) -> (r: Option<PriceTable>)
        ensures
            r == table_of(provider@),
    {
        if str_eq(provider, "anthropic") {
            Some(PriceTable::Anthropic)
        } else if str_eq(provider, "openai") {
            Some(PriceTable::OpenAI)
        } else if str_eq(provider, "deepseek") {
            Some(PriceTable::DeepSeek)
        } else if str_eq(provider, "gemini") {
            Some(PriceTable::Gemini)
        } else {
            None
        }
    }

    /// The provider name of the table.
    pub fn name(&self) -> (r: &'static str)
        ensures
            r@ == table_name(*self),
    {
        match self {
            PriceTable::Anthropic => "anthropic",
            PriceTable::OpenAI => "openai",
            PriceTable::DeepSeek => "deepseek",
            PriceTable::Gemini => "gemini",
        }
    }
}

/// A table is found again under its own name.
pub proof fn lemma_table_name_round_trip(t: PriceTable)
    ensures
        table_of(table_name(t)) == Some(t),
{
    reveal_strlit("anthropic");
    reveal_strlit("openai");
    reveal_strlit("deepseek");
    reveal_strlit("gemini");
    assert("openai"@.len() != "anthropic"@.len());
    assert("deepseek"@.len() != "anthropic"@.len());
    assert("deepseek"@.len() != "openai"@.len());
    assert("gemini"@.len() != "anthropic"@.len());
    assert("gemini"@.len() != "deepseek"@.len());
    assert("gemini"@[0] != "openai"@[0]);
}

/// The position of the first pattern that occurs in `model`.
pub open spec fn first_match(model: Seq<char>, patterns: Seq<Seq<char>>) -> Option<nat>
    decreases patterns.len(),
{
    if patterns.len() == 0 {
        None
    } else if contains(model, patterns[0]) {
        Some(0)
    } else {
        match first_match(model, patterns.drop_first()) {
            Some(i) => Some(i + 1),
            None => None,
        }
    }
}

proof fn lemma_first_match(model: Seq<char>, patterns: Seq<Seq<char>>, k: int)
    requires
        0 <= k <= patterns.len(),
        forall|j: int| 0 <= j < k ==> !contains(model, #[trigger] patterns[j]),
        k == patterns.len() || contains(model, patterns[k]),
    ensures
        first_match(model, patterns) == if k == patterns.len() {
            None
        } else {
            Some(k as nat)
        },
    decreases patterns.len(),
{
    if patterns.len() > 0 && k > 0 {
        assert(!contains(model, patterns[0]));
        assert forall|j: int| 0 <= j < k - 1 implies !contains(
            model,
            #[trigger] patterns.drop_first()[j],
        ) by {
            assert(patterns.drop_first()[j] == patterns[j + 1]);
        }
        lemma_first_match(model, patterns.drop_first(), k - 1);
    }
}

/// The price entry that applies to `model` among entries with the given
/// patterns: the first whose pattern occurs in the lowercase model name,
/// else the first entry; `None` for an empty table (the fallback price).
pub open spec fn price_index(model: Seq<char>, patterns: Seq<Seq<char>>) -> Option<nat> {
    match first_match(lowercase(model), patterns) {
        Some(i) => Some(i),
        None => if patterns.len() > 0 {
            Some(0)
        } else {
            None
        },
    }
}

/// The position of the price entry for `model` (see `price_index`).
pub fn select_price(model: &str, patterns: &Vec<String>) -> (r: Option<usize>)
    ensures
        match r {
            Some(i) => price_index(model@, texts(patterns@)) == Some(i as nat),
            None => price_index(model@, texts(patterns@)) is None,
        },
{
    let lower = to_lowercase(model);
    let n = patterns.len();
    let ghost pats = texts(patterns@);
    for i in 0..n
        invariant
            n == patterns@.len(),
            pats == texts(patterns@),
            lower@ == lowercase(model@),
            forall|j: int| 0 <= j < i ==> !contains(lower@, #[trigger] pats[j]),
    {
        if str_contains(lower.as_str(), patterns[i].as_str()) {
            proof {
                lemma_first_match(lower@, pats, i as int);
            }
            return Some(i);
        }
    }
    proof {
        lemma_first_match(lower@, pats, n as int);
    }
    if n > 0 {
        Some(0)
    } else {
        None
    }
}

/// How many tokens of one request are billed at each rate.
#[derive(Clone, Copy, Debug, PartialEq, Eq, Structural)]
pub struct TokenBill {
    /// Tokens billed at the input rate.
    pub input: u64,
    /// Tokens billed at the cache-read rate.
    pub cache_read: u64,
    /// Tokens billed at the cache-write rate.
    pub cache_write: u64,
    /// Tokens billed at the output rate.
    pub output: u64,
}

/// The bill of a request: input tokens not read from the cache are billed at
/// the input rate; cached tokens at the cache-read rate, except on a request
/// that writes the cache, where the write is billed instead; output tokens at
/// the output rate. Written tokens are billed at the write rate on top of the
/// input tokens, so a cache write always costs more than the same request
/// without caching, even where the write rate equals the input rate.
pub open spec fn bill_of(input: u64, output: u64, cached: u64, written: u64) -> TokenBill {
    TokenBill {
        input: if input >= cached {
            (input - cached) as u64
        } else {
            0
        },
        cache_read: if written > 0 {
            0
        } else {
            cached
        },
        cache_write: written,
        output,
    }
}

/// The bill of the same request without any caching.
pub open spec fn uncached_bill_of(input: u64, output: u64) -> TokenBill {
    TokenBill { input, cache_read: 0, cache_write: 0, output }
}

/// The bill of a request (see `bill_of`).
pub fn bill_tokens(
    input_tokens: u64,
    output_tokens: u64,
    cached_tokens: u64,
    cache_write_tokens: u64,
) -> (r: TokenBill)
    ensures
        r == bill_of(input_tokens, output_tokens, cached_tokens, cache_write_tokens),
{
    TokenBill {
        input: input_tokens.saturating_sub(cached_tokens),
        cache_read: if cache_write_tokens > 0 {
            0
        } else {
            cached_tokens
        },
        cache_write: cache_write_tokens,
        output: output_tokens,
    }
}

/// The bill the request would have had without caching (see `uncached_bill_of`).
pub fn uncached_bill(input_tokens: u64, output_tokens: u64) -> (r: TokenBill)
    ensures
        r == uncached_bill_of(input_tokens, output_tokens),
{
    TokenBill { input: input_tokens, cache_read: 0, cache_write: 0, output: output_tokens }
}

/// A request that neither reads nor writes the cache is billed exactly as
/// without caching, so it saves nothing.
pub proof fn lemma_no_cache_no_saving(input: u64, output: u64)
    ensures
        bill_of(input, output, 0, 0) == uncached_bill_of(input, output),
{
}

/// A request that writes the cache, and reads none of it, is billed for all
/// its input tokens as without caching and for the written tokens besides.
pub proof fn lemma_cache_write_billed_on_top(input: u64, output: u64, written: u64)
    requires
        written > 0,
    ensures
        bill_of(input, output, 0, written).input == uncached_bill_of(input, output).input,
        bill_of(input, output, 0, written).cache_write == written,
        bill_of(input, output, 0, written).cache_read == 0,
{
}

/// Caching never bills more tokens at the input rate, nor other output tokens.
pub proof fn lemma_cache_moves_input(input: u64, output: u64, cached: u64, written: u64)
    ensures
        bill_of(input, output, cached, written).input <= input,
        bill_of(input, output, cached, written).output == output,
        cached <= input ==> bill_of(input, output, cached, written).input + cached == input,
{
}

/// The key of a price entry in the flat price file: `provider:pattern`.
pub open spec fn price_key_of(provider: Seq<char>, pattern: Seq<char>) -> Seq<char> {
    provider + ":"@ + pattern
}

/// The key of a price entry (see `price_key_of`).
pub fn price_key(provider: &str, pattern: &str) -> (r: String)
    ensures
        r@ == price_key_of(provider@, pattern@),
{
    let head = concat(provider, ":");
    concat(head.as_str(), pattern)
}

/// A key split at its first `:` into provider and pattern; a key without `:`
/// names no entry.
pub open spec fn split_price_key(key: Seq<char>) -> Option<(Seq<char>, Seq<char>)> {
    match after_char(key, ':') {
        Some(pattern) => Some((before_char(key, ':'), pattern)),
        None => None,
    }
}

/// The provider and pattern of a price key (see `split_price_key`).
pub fn parse_price_key(key: &str) -> (r: Option<(String, String)>)
    ensures
        match split_price_key(key@) {
            None => r is None,
            Some(p) => r matches Some(q) && q.0@ == p.0 && q.1@ == p.1,
        },
{
    let v = chars_of(key);
    let n = v.len();
    let i = find_char(&v, 0, n, ':');
    proof {
        assert(v@.subrange(0, n as int) =~= v@);
    }
    if i == n {
        return None;
    }
    proof {
        assert(v@.subrange(0, i as int) =~= v@.take(i as int));
        assert(v@.subrange(i + 1, n as int) =~= v@.skip(i + 1));
    }
    Some((string_from_range(&v, 0, i), string_from_range(&v, i + 1, n)))
}

/// A key written for an entry gives back its provider and pattern, for any
/// provider name without `:`.
pub proof fn lemma_price_key_round_trip(provider: Seq<char>, pattern: Seq<char>)
    requires
        forall|i: int| 0 <= i < provider.len() ==> provider[i] != ':',
    ensures
        split_price_key(price_key_of(provider, pattern)) == Some((provider, pattern)),
{
    reveal_strlit(":");
    let k = price_key_of(provider, pattern);
    let n = provider.len() as int;
    assert(k[n] == ':');
    assert forall|j: int| 0 <= j < n implies k[j] != ':' by {
        assert(k[j] == provider[j]);
    }
    crate::text::lemma_index_of_at(k, ':', n);
    assert(k.take(n) =~= provider);
    assert(k.skip(n + 1) =~= pattern);
}

} // verus!
