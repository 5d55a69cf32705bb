//! DeepSeek: caching is automatic; only the cache counters are read.

use crate::json::Json;
use crate::provider::{no_injection, CacheInjection, CacheResult};
use vstd::prelude::*;

verus! {

/// The message of the DeepSeek strategy.
pub open spec fn automatic_message() -> Seq<char> {
    "DeepSeek caching is automatic, no injection needed"@
}

/// Leaves the body alone: DeepSeek caches prompts by itself.
pub fn inject(body: &mut Json) -> (r: CacheInjection)
    ensures
        final(body)@ == old(body)@,
        !r.injected,
        r.messages() == seq![automatic_message()],
{
    no_injection(Some("DeepSeek caching is automatic, no injection needed".to_owned()))
}

/// Reads the cache counters of a response; DeepSeek reports them as OpenAI does
/// (see `openai::usage_counts`).
pub fn parse_cache(body: &Json) -> (r: CacheResult)
    ensures
        crate::provider::openai::usage_counts(body@) == (
            r.input_tokens,
            r.output_tokens,
            r.cached_tokens,
            r.cache_write_tokens,
        ),
{
    crate::provider::openai::parse_cache(body)
}

} // verus!
