use tokenj::pricing::{
    bill_tokens, parse_price_key, price_key, select_price, uncached_bill, PriceTable, TokenBill,
};

fn patterns(p: &[&str]) -> Vec<String> {
    p.iter().map(|s| s.to_string()).collect()
}

#[test]
fn test_price_table_named() {
    assert_eq!(PriceTable::named("anthropic"), Some(PriceTable::Anthropic));
    assert_eq!(PriceTable::named("openai"), Some(PriceTable::OpenAI));
    assert_eq!(PriceTable::named("deepseek"), Some(PriceTable::DeepSeek));
    assert_eq!(PriceTable::named("gemini"), Some(PriceTable::Gemini));
    assert_eq!(PriceTable::named("glm"), None);
    assert_eq!(PriceTable::named("unknown"), None);
    assert_eq!(PriceTable::named("Anthropic"), None);
    for t in [PriceTable::Anthropic, PriceTable::OpenAI, PriceTable::DeepSeek, PriceTable::Gemini] {
        assert_eq!(PriceTable::named(t.name()), Some(t));
    }
}

#[test]
fn test_select_price_by_pattern() {
    let anthropic = patterns(&["opus-4-7", "opus-4-6", "sonnet-4-6", "haiku"]);
    assert_eq!(select_price("anthropic-opus-4-7", &anthropic), Some(0));
    assert_eq!(select_price("anthropic-haiku-4-5", &anthropic), Some(3));
    assert_eq!(select_price("Anthropic-Sonnet-4-6", &anthropic), Some(2));
    // no pattern matches: the first entry applies
    assert_eq!(select_price("anthropic-3-opus", &anthropic), Some(0));
    // an empty table leaves the fallback price
    assert_eq!(select_price("anything", &Vec::new()), None);
}

#[test]
fn test_select_price_first_match_wins() {
    let openai = patterns(&["gpt-4o", "gpt-4o-mini"]);
    // "gpt-4o" occurs in "gpt-4o-mini" too, and comes first
    assert_eq!(select_price("gpt-4o-mini", &openai), Some(0));
    let deepseek = patterns(&["v4-pro", "v4-flash"]);
    assert_eq!(select_price("deepseek-v4-flash", &deepseek), Some(1));
}

#[test]
fn test_bill_cache_hit() {
    assert_eq!(
        bill_tokens(5000, 200, 4500, 0),
        TokenBill { input: 500, cache_read: 4500, cache_write: 0, output: 200 }
    );
}

#[test]
fn test_bill_cache_write() {
    assert_eq!(
        bill_tokens(5000, 200, 0, 5000),
        TokenBill { input: 5000, cache_read: 0, cache_write: 5000, output: 200 }
    );
    // a write bills the write, not the read
    assert_eq!(
        bill_tokens(5000, 200, 1000, 3000),
        TokenBill { input: 4000, cache_read: 0, cache_write: 3000, output: 200 }
    );
}

#[test]
fn test_bill_no_cache_equals_uncached() {
    assert_eq!(bill_tokens(1000, 100, 0, 0), uncached_bill(1000, 100));
    assert_eq!(bill_tokens(0, 0, 0, 0), TokenBill { input: 0, cache_read: 0, cache_write: 0, output: 0 });
}

#[test]
fn test_bill_more_cached_than_input() {
    assert_eq!(
        bill_tokens(100, 10, 500, 0),
        TokenBill { input: 0, cache_read: 500, cache_write: 0, output: 10 }
    );
}

#[test]
fn test_price_key_round_trip() {
    let key = price_key("anthropic", "sonnet-4-6");
    assert_eq!(key, "anthropic:sonnet-4-6");
    assert_eq!(
        parse_price_key(&key),
        Some(("anthropic".to_string(), "sonnet-4-6".to_string()))
    );
}

#[test]
fn test_parse_price_key_splits_at_first_colon() {
    assert_eq!(parse_price_key("gemini:a:b"), Some(("gemini".to_string(), "a:b".to_string())));
    assert_eq!(parse_price_key(":x"), Some(("".to_string(), "x".to_string())));
    assert_eq!(parse_price_key("openai:"), Some(("openai".to_string(), "".to_string())));
    assert_eq!(parse_price_key("no-colon"), None);
}
