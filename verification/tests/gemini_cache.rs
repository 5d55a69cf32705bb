use tokenj::json::{Json, JsonNumber};
use tokenj::provider::gemini::{estimate_prompt_tokens, inject, MIN_CACHE_TOKENS};
use tokenj::provider::gemini_cache::{
    build_cache_request, finish_gemini_request, hashed_members, handle_gemini_request, interpret_cache_response,
    GeminiCacheStore, GeminiStep,
};

fn text(s: &str) -> Json {
    Json::Text(s.to_string())
}

fn obj(members: Vec<(&str, Json)>) -> Json {
    Json::Object(members.into_iter().map(|(k, v)| (k.to_string(), v)).collect())
}

fn list(items: Vec<Json>) -> Json {
    Json::List(items)
}

fn contents_with(t: &str) -> Json {
    list(vec![obj(vec![("parts", list(vec![obj(vec![("text", text(t))])]))])])
}

/// A request whose context is estimated at about 40000 tokens.
fn long_request() -> Json {
    obj(vec![
        ("model", text("gemini-2.5-pro")),
        ("contents", contents_with(&"A".repeat(160_000))),
        ("system_instruction", text("Be helpful")),
    ])
}

#[test]
fn test_compute_hash_deterministic() {
    let contents1 = br#"[{"parts":[{"text":"Hello"}]}]"#;
    let system1 = br#""Be helpful""#;
    let contents2 = br#"[{"parts":[{"text":"Hello"}]}]"#;
    let system2 = br#""Be helpful""#;
    assert_eq!(
        GeminiCacheStore::compute_hash(Some(contents1), Some(system1)),
        GeminiCacheStore::compute_hash(Some(contents2), Some(system2))
    );
}

#[test]
fn test_compute_hash_different_content() {
    let contents1 = br#"[{"parts":[{"text":"Hello"}]}]"#;
    let contents2 = br#"[{"parts":[{"text":"World"}]}]"#;
    assert_ne!(
        GeminiCacheStore::compute_hash(Some(contents1), None),
        GeminiCacheStore::compute_hash(Some(contents2), None)
    );
}

#[test]
fn test_cache_store() {
    let mut store = GeminiCacheStore::new();
    assert!(store.get_cache("nonexistent").is_none());
    store.set_cache("hash123".into(), "cachedContents/abc".into());
    assert_eq!(store.get_cache("hash123"), Some("cachedContents/abc".into()));
}

#[test]
fn test_compute_hash_known_values() {
    let contents = br#"[{"parts":[{"text":"Hello"}]}]"#;
    let system = br#""Be helpful""#;
    assert_eq!(GeminiCacheStore::compute_hash(Some(contents), Some(system)), "9a5e0f42b7791474");
    assert_eq!(GeminiCacheStore::compute_hash(Some(contents), None), "07eee55a8af61c97");
    assert_eq!(GeminiCacheStore::compute_hash(None, None), "e3b0c44298fc1c14");
}

#[test]
fn test_cache_store_overwrites_and_keeps_others() {
    let mut store = GeminiCacheStore::new();
    store.set_cache("a".into(), "cachedContents/1".into());
    store.set_cache("b".into(), "cachedContents/2".into());
    store.set_cache("a".into(), "cachedContents/3".into());
    assert_eq!(store.get_cache("a"), Some("cachedContents/3".into()));
    assert_eq!(store.get_cache("b"), Some("cachedContents/2".into()));
    assert_eq!(store.get_cache("c"), None);
}

#[test]
fn test_extract_api_key() {
    assert_eq!(
        GeminiCacheStore::extract_api_key("/v1beta/models/gemini:generate?key=ABC"),
        Some("ABC".to_string())
    );
    assert_eq!(
        GeminiCacheStore::extract_api_key("/v1beta/models/x?alt=sse&key=K2&key=K3"),
        Some("K2".to_string())
    );
    assert_eq!(GeminiCacheStore::extract_api_key("/v1beta/models/x?key="), None);
    assert_eq!(GeminiCacheStore::extract_api_key("/v1beta/models/x?key=&key=Z"), Some("Z".to_string()));
    assert_eq!(GeminiCacheStore::extract_api_key("/v1beta/models/x"), None);
    assert_eq!(GeminiCacheStore::extract_api_key("/x?k=v=w&key=a=b"), Some("a=b".to_string()));
}

#[test]
fn test_short_context_left_alone() {
    let store = GeminiCacheStore::new();
    let mut body = obj(vec![("contents", contents_with("Hello"))]);
    let before = body.deep_clone();
    match handle_gemini_request(&mut body, "key", "gemini-2.5-pro", "0011223344556677", &store) {
        GeminiStep::Done(inj) => {
            assert!(!inj.injected);
            assert_eq!(inj.details, vec!["Gemini context too short: ~2 tokens < 32768".to_string()]);
        },
        _ => panic!("a short context is not cached"),
    }
    assert_eq!(format!("{:?}", body), format!("{:?}", before));
}

#[test]
fn test_miss_then_create_then_hit() {
    let mut store = GeminiCacheStore::new();
    let mut body = long_request();
    let tokens = estimate_prompt_tokens(&body);
    assert!(tokens >= MIN_CACHE_TOKENS);
    let step = handle_gemini_request(&mut body, "KEY", "gemini-2.5-pro", "0123456789abcdef", &store);
    match step {
        GeminiStep::CreateCache { url, request, content_hash } => {
            assert_eq!(content_hash, "0123456789abcdef");
            assert_eq!(url, "https://generativelanguage.googleapis.com/v1beta/cachedContents?key=KEY");
            assert_eq!(request.get("model").unwrap().as_str(), Some("models/gemini-2.5-pro"));
            assert_eq!(request.get("ttl").unwrap().as_str(), Some("3600s"));
            assert!(request.get("contents").is_some());
            assert_eq!(request.get("systemInstruction").unwrap().as_str(), Some("Be helpful"));
        },
        _ => panic!("an unknown hash asks for a cache"),
    }
    // the first request is forwarded as it came
    assert!(body.get("cachedContent").is_none());
    assert!(body.get("contents").is_some());
    let created = finish_gemini_request(
        &body,
        "0123456789abcdef",
        Ok("cachedContents/xyz".to_string()),
        &mut store,
    );
    assert!(!created.injected);
    assert_eq!(
        created.details,
        vec![format!("Created Gemini Context Cache (hash=01234567, ~{} tokens)", tokens)]
    );
    assert_eq!(store.get_cache("0123456789abcdef"), Some("cachedContents/xyz".to_string()));

    let mut again = long_request();
    match handle_gemini_request(&mut again, "KEY", "gemini-2.5-pro", "0123456789abcdef", &store) {
        GeminiStep::Done(inj) => {
            assert!(inj.injected);
            assert_eq!(
                inj.details,
                vec![format!("Injected cachedContent (hash=01234567, ~{} tokens)", tokens)]
            );
        },
        _ => panic!("a stored hash is a hit"),
    }
    assert_eq!(again.get("cachedContent").unwrap().as_str(), Some("cachedContents/xyz"));
    assert!(again.get("contents").is_none());
    assert!(again.get("system_instruction").is_none());
    assert_eq!(again.get("model").unwrap().as_str(), Some("gemini-2.5-pro"));
}

#[test]
fn test_failed_creation_reported() {
    let mut store = GeminiCacheStore::new();
    let body = long_request();
    let result = finish_gemini_request(&body, "abc", Err("boom".to_string()), &mut store);
    assert!(!result.injected);
    assert_eq!(result.details, vec!["Failed to create Gemini cache for hash=abc: boom".to_string()]);
    assert!(store.get_cache("abc").is_none());
    assert!(body.get("contents").is_some());
}

#[test]
fn test_build_cache_request_keeps_models_prefix() {
    let body = obj(vec![("contents", contents_with("x"))]);
    let request = build_cache_request(&body, "models/gemini-2.0-flash");
    assert_eq!(request.get("model").unwrap().as_str(), Some("models/gemini-2.0-flash"));
    assert!(request.get("systemInstruction").is_none());
}

#[test]
fn test_interpret_cache_response() {
    let ok = obj(vec![("name", text("cachedContents/n1"))]);
    assert_eq!(interpret_cache_response(true, "200 OK", &ok), Ok("cachedContents/n1".to_string()));
    let missing = obj(vec![]);
    assert_eq!(
        interpret_cache_response(true, "200 OK", &missing),
        Err("Cache API response missing 'name' field".to_string())
    );
    let err = obj(vec![("error", obj(vec![("message", text("quota"))]))]);
    assert_eq!(
        interpret_cache_response(false, "429 Too Many Requests", &err),
        Err("Cache API returned 429 Too Many Requests: quota".to_string())
    );
    assert_eq!(
        interpret_cache_response(false, "500 Internal Server Error", &missing),
        Err("Cache API returned 500 Internal Server Error: unknown error".to_string())
    );
}

#[test]
fn test_gemini_inject_only_measures() {
    let mut body = obj(vec![("contents", contents_with(&"A".repeat(400)))]);
    let result = inject(&mut body);
    assert!(!result.injected);
    assert_eq!(
        result.details,
        vec!["Gemini context too short for caching: ~100 tokens < 32768".to_string()]
    );
    let n = Json::Number(JsonNumber::PosInt(1));
    assert_eq!(estimate_prompt_tokens(&n), 0);
}

#[test]
fn test_json_members_read_after_write() {
    let mut body = obj(vec![("a", text("1")), ("b", text("2"))]);
    body.set_member("a", text("3"));
    body.set_member("c", text("4"));
    assert_eq!(body.get("a").unwrap().as_str(), Some("3"));
    assert_eq!(body.get("b").unwrap().as_str(), Some("2"));
    assert_eq!(body.get("c").unwrap().as_str(), Some("4"));
    assert!(body.remove_member("b"));
    assert!(body.get("b").is_none());
    assert_eq!(body.get("a").unwrap().as_str(), Some("3"));
    assert!(!body.remove_member("b"));
}

#[test]
fn test_hashed_members_ignore_other_members() {
    let a = obj(vec![("model", text("gemini-2.5-pro")), ("contents", contents_with("Hello"))]);
    let b = obj(vec![
        ("contents", contents_with("Hello")),
        ("generationConfig", obj(vec![("temperature", Json::Number(JsonNumber::PosInt(1)))])),
    ]);
    let (ca, sa) = hashed_members(&a);
    let (cb, sb) = hashed_members(&b);
    let hello = contents_with("Hello");
    assert_eq!(format!("{:?}", ca), format!("{:?}", Some(&hello)));
    assert_eq!(format!("{:?}", ca), format!("{:?}", cb));
    assert!(sa.is_none());
    assert!(sb.is_none());
    let c = obj(vec![("contents", contents_with("World")), ("system_instruction", text("Be brief"))]);
    let (cc, sc) = hashed_members(&c);
    assert_eq!(format!("{:?}", cc), format!("{:?}", Some(&contents_with("World"))));
    assert_eq!(sc.unwrap().as_str(), Some("Be brief"));
}
