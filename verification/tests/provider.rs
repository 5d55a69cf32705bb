use tokenj::json::{Json, JsonNumber};
use tokenj::provider::{estimate_tokens, inject_cache_headers, parse_cache_result, Provider};

fn text(s: &str) -> Json {
    Json::Text(s.to_string())
}

fn num(n: u64) -> Json {
    Json::Number(JsonNumber::PosInt(n))
}

fn obj(members: Vec<(&str, Json)>) -> Json {
    Json::Object(members.into_iter().map(|(k, v)| (k.to_string(), v)).collect())
}

fn list(items: Vec<Json>) -> Json {
    Json::List(items)
}

fn user_message(content: &str) -> Json {
    obj(vec![("role", text("user")), ("content", text(content))])
}

fn long_message() -> String {
    "tokenJ test message for cache injection trigger. ".repeat(100)
}

#[test]
fn test_provider_from_host_anthropic() {
    assert_eq!(Provider::from_host("api.anthropic.com"), Provider::Anthropic);
    assert_eq!(Provider::from_host("ANTHROPIC.COM"), Provider::Anthropic);
}

#[test]
fn test_provider_from_host_openai() {
    assert_eq!(Provider::from_host("api.openai.com"), Provider::OpenAI);
    assert_eq!(Provider::from_host("api.openai.com/v1"), Provider::OpenAI);
}

#[test]
fn test_provider_from_host_deepseek() {
    assert_eq!(Provider::from_host("api.deepseek.com"), Provider::DeepSeek);
}

#[test]
fn test_provider_from_host_gemini() {
    assert_eq!(Provider::from_host("generativelanguage.googleapis.com"), Provider::Gemini);
}

#[test]
fn test_provider_from_host_glm() {
    assert_eq!(Provider::from_host("open.bigmodel.cn"), Provider::GLM);
}

#[test]
fn test_provider_from_host_unknown() {
    match Provider::from_host("example.com") {
        Provider::Unknown(h) => assert_eq!(h, "example.com"),
        _ => panic!("Should be Unknown"),
    }
}

#[test]
fn test_provider_names() {
    assert_eq!(Provider::Anthropic.name(), "anthropic");
    assert_eq!(Provider::OpenAI.name(), "openai");
    assert_eq!(Provider::DeepSeek.name(), "deepseek");
    assert_eq!(Provider::Gemini.name(), "gemini");
    assert_eq!(Provider::GLM.name(), "glm");
    assert_eq!(Provider::Unknown("x".into()).name(), "unknown");
}

#[test]
fn test_inject_cache_unknown_provider() {
    let mut body = obj(vec![("model", text("test"))]);
    let result = inject_cache_headers(&Provider::Unknown("x".into()), &mut body);
    assert!(!result.injected);
}

#[test]
fn test_strip_cache_control_from_glm() {
    let mut body = obj(vec![
        ("model", text("glm-5")),
        (
            "messages",
            list(vec![obj(vec![
                ("role", text("user")),
                ("content", text("hi")),
                ("cache_control", obj(vec![("type", text("ephemeral"))])),
            ])]),
        ),
    ]);
    let result = inject_cache_headers(&Provider::GLM, &mut body);
    assert!(!result.injected);
    assert!(result.details[0].contains("Stripped"));
    let msg = &body.get("messages").unwrap().as_list().unwrap()[0];
    assert!(msg.get("cache_control").is_none());
}

#[test]
fn test_parse_cache_result_unknown_provider() {
    let body = obj(vec![("usage", obj(vec![("input_tokens", num(100))]))]);
    let result = parse_cache_result(&Provider::Unknown("x".into()), &body);
    assert_eq!(result.input_tokens, 0);
}

#[test]
fn test_anthropic_cache_injection() {
    let mut body = obj(vec![
        ("model", text("anthropic-sonnet-4-6")),
        ("system", text(&"A".repeat(5000))),
        ("messages", list(vec![user_message("hi")])),
        ("max_tokens", num(100)),
    ]);
    let result = inject_cache_headers(&Provider::Anthropic, &mut body);
    assert!(result.injected, "Anthropic should inject cache_control on long system prompt");
    let system = body.get("system").unwrap();
    assert!(system.as_list().is_some(), "System should be converted to array");
    let first = &system.as_list().unwrap()[0];
    assert!(first.get("cache_control").is_some(), "cache_control should be on system[0]");
    assert_eq!(
        first.get("cache_control").unwrap().get("type").unwrap().as_str(),
        Some("ephemeral"),
        "Anthropic cache type should be ephemeral"
    );
}

#[test]
fn test_openai_cache_injection() {
    let mut body = obj(vec![
        ("model", text("gpt-4o")),
        ("messages", list(vec![user_message(&long_message())])),
    ]);
    let result = inject_cache_headers(&Provider::OpenAI, &mut body);
    assert!(result.injected, "OpenAI should inject cache headers for long messages");
    assert!(body.get("prompt_cache_key").is_some(), "OpenAI injection should add prompt_cache_key");
}

#[test]
fn test_deepseek_cache_injection() {
    let mut body = obj(vec![
        ("model", text("deepseek-v4-flash")),
        ("messages", list(vec![user_message("Hello")])),
    ]);
    let result = inject_cache_headers(&Provider::DeepSeek, &mut body);
    assert!(!result.details.is_empty() || result.injected == true || result.injected == false);
}

#[test]
fn test_glm_cache_control_stripped() {
    let mut body = obj(vec![
        ("model", text("glm-5")),
        (
            "messages",
            list(vec![obj(vec![
                ("role", text("user")),
                ("content", text("Hello")),
                ("cache_control", obj(vec![("type", text("ephemeral"))])),
            ])]),
        ),
    ]);
    let result = inject_cache_headers(&Provider::GLM, &mut body);
    assert!(!result.injected, "GLM should NOT inject cache headers");
    let msg = &body.get("messages").unwrap().as_list().unwrap()[0];
    assert!(msg.get("cache_control").is_none(), "GLM should strip cache_control");
}

#[test]
fn test_unknown_provider_no_injection() {
    let mut body = obj(vec![
        ("model", text("some-model")),
        ("messages", list(vec![user_message("Hi")])),
    ]);
    let result = inject_cache_headers(&Provider::Unknown("test".into()), &mut body);
    assert!(!result.injected, "Unknown provider should not inject");
}

#[test]
fn test_provider_detection_from_host() {
    assert_eq!(Provider::from_host("api.anthropic.com"), Provider::Anthropic);
    assert_eq!(Provider::from_host("api.openai.com"), Provider::OpenAI);
    assert_eq!(Provider::from_host("api.deepseek.com"), Provider::DeepSeek);
    assert_eq!(Provider::from_host("generativelanguage.googleapis.com"), Provider::Gemini);
    assert_eq!(Provider::from_host("open.bigmodel.cn"), Provider::GLM);
    match Provider::from_host("unknown.example.com") {
        Provider::Unknown(h) => assert_eq!(h, "unknown.example.com"),
        _ => panic!("Should be Unknown"),
    }
}

#[test]
fn test_parse_anthropic_cache_result() {
    let body = obj(vec![(
        "usage",
        obj(vec![
            ("input_tokens", num(5000)),
            ("output_tokens", num(200)),
            ("cache_creation_input_tokens", num(0)),
            ("cache_read_input_tokens", num(4500)),
        ]),
    )]);
    let result = parse_cache_result(&Provider::Anthropic, &body);
    assert_eq!(result.input_tokens, 5000);
    assert_eq!(result.output_tokens, 200);
    assert_eq!(result.cached_tokens, 4500);
}

#[test]
fn test_parse_openai_cache_result() {
    let body = obj(vec![(
        "usage",
        obj(vec![
            ("prompt_tokens", num(3000)),
            ("completion_tokens", num(150)),
            ("prompt_tokens_details", obj(vec![("cached_tokens", num(2800))])),
        ]),
    )]);
    let result = parse_cache_result(&Provider::OpenAI, &body);
    assert_eq!(result.input_tokens, 3000);
    assert_eq!(result.output_tokens, 150);
    assert_eq!(result.cached_tokens, 2800);
}

#[test]
fn test_parse_gemini_cache_result() {
    let body = obj(vec![(
        "usageMetadata",
        obj(vec![("promptTokenCount", num(4000)), ("candidatesTokenCount", num(300))]),
    )]);
    let result = parse_cache_result(&Provider::Gemini, &body);
    assert_eq!(result.cached_tokens, 0, "Gemini parse_cache returns 0 (uses separate API)");
}

#[test]
fn test_deepseek_parse_uses_openai_fields() {
    let body = obj(vec![(
        "usage",
        obj(vec![
            ("prompt_tokens", num(2000)),
            ("completion_tokens", num(100)),
            ("prompt_tokens_details", obj(vec![("cached_tokens", num(1800))])),
        ]),
    )]);
    let result = parse_cache_result(&Provider::DeepSeek, &body);
    assert_eq!(result.input_tokens, 2000);
    assert_eq!(result.output_tokens, 100);
    assert_eq!(result.cached_tokens, 1800);
    assert_eq!(result.cache_write_tokens, 0);
}

#[test]
fn test_estimate_tokens_exact_values() {
    assert_eq!(estimate_tokens(""), 0);
    assert_eq!(estimate_tokens("a"), 1);
    assert_eq!(estimate_tokens("abcd"), 1);
    assert_eq!(estimate_tokens("abcde"), 2);
    assert_eq!(estimate_tokens(&"A".repeat(5000)), 1250);
    // nine CJK characters: ceil(9 / 1.8) = 5
    assert_eq!(estimate_tokens("一二三四五六七八九"), 5);
    // four ASCII and two CJK characters: 1 + ceil(2 / 1.8) = 3
    assert_eq!(estimate_tokens("abcd一二"), 3);
}

#[test]
fn test_strip_is_idempotent_and_counts() {
    let mut body = obj(vec![
        ("cache_control", obj(vec![("type", text("ephemeral"))])),
        (
            "messages",
            list(vec![
                obj(vec![("cache_control", obj(vec![]))]),
                obj(vec![("content", text("x"))]),
            ]),
        ),
    ]);
    let first = inject_cache_headers(&Provider::GLM, &mut body);
    assert_eq!(first.details, vec!["Stripped 2 cache_control fields (not supported)".to_string()]);
    let second = inject_cache_headers(&Provider::GLM, &mut body);
    assert_eq!(second.details, vec!["Provider does not support caching".to_string()]);
    assert!(body.get("cache_control").is_none());
}

#[test]
fn test_unknown_provider_message() {
    let mut body = obj(vec![("model", text("m"))]);
    let result = inject_cache_headers(&Provider::Unknown("h".into()), &mut body);
    assert_eq!(result.details, vec!["Unknown provider, no injection".to_string()]);
}

#[test]
fn test_estimate_tokens_of_joined_texts() {
    let s = "abcde";
    let t = "一二";
    let st = format!("{}{}", s, t);
    let ts = format!("{}{}", t, s);
    assert_eq!(estimate_tokens(&st), 4);
    assert_eq!(estimate_tokens(&ts), 4);
    assert!(estimate_tokens(&st) >= estimate_tokens(s));
    assert!(estimate_tokens(&st) >= estimate_tokens(t));
    assert!(estimate_tokens(&st) <= estimate_tokens(s) + estimate_tokens(t));
    assert!(estimate_tokens(s) <= s.chars().count() as u64);
    assert_eq!(estimate_tokens("aaaa") + estimate_tokens("a"), 2);
    assert_eq!(estimate_tokens("aaaaa"), 2);
}
