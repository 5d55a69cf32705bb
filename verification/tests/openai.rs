use tokenj::json::{Json, JsonNumber};
use tokenj::provider::deepseek;
use tokenj::provider::openai::{generate_cache_key, inject, parse_cache};

fn text(s: &str) -> Json {
    Json::Text(s.to_string())
}

fn obj(members: Vec<(&str, Json)>) -> Json {
    Json::Object(members.into_iter().map(|(k, v)| (k.to_string(), v)).collect())
}

fn request(content: &str) -> Json {
    obj(vec![
        ("model", text("gpt-4o")),
        ("messages", Json::List(vec![obj(vec![("role", text("user")), ("content", text(content))])])),
    ])
}

#[test]
fn test_openai_cache_key_value() {
    let content = "tokenJ test message for cache injection trigger. ".repeat(100);
    let mut body = request(&content);
    assert_eq!(generate_cache_key(&body), "tokenj-ffef2c01");
    let result = inject(&mut body);
    assert!(result.injected);
    assert_eq!(result.details, vec!["Added prompt_cache_key (~1225 tokens, auto)".to_string()]);
    assert_eq!(body.get("prompt_cache_key").unwrap().as_str(), Some("tokenj-ffef2c01"));
}

#[test]
fn test_openai_cache_key_of_any_first_message() {
    assert_eq!(generate_cache_key(&request(&"x".repeat(99))), "tokenj-d0621fdd");
    assert_eq!(generate_cache_key(&request(&"x".repeat(100))), "tokenj-09ecb6eb");
    assert_eq!(generate_cache_key(&obj(vec![("model", text("m"))])), "tokenj-e3b0c442");
}

#[test]
fn test_openai_key_with_short_system_message() {
    let mut body = obj(vec![
        ("model", text("gpt-4o")),
        (
            "messages",
            Json::List(vec![
                obj(vec![("role", text("system")), ("content", text("You are helpful."))]),
                obj(vec![("role", text("user")), ("content", text(&"A".repeat(5000)))]),
            ]),
        ),
    ]);
    let result = inject(&mut body);
    assert!(result.injected);
    assert_eq!(result.details, vec!["Added prompt_cache_key (~1254 tokens, auto)".to_string()]);
    assert_eq!(body.get("prompt_cache_key").unwrap().as_str(), Some("tokenj-42ea8355"));
    assert_eq!(body.get("model").unwrap().as_str(), Some("gpt-4o"));
}

#[test]
fn test_openai_short_prompt() {
    let mut body = request("hello");
    let result = inject(&mut body);
    assert!(!result.injected);
    assert_eq!(result.details, vec!["Prompt too short for caching: 1 tokens < 1024".to_string()]);
    assert!(body.get("prompt_cache_key").is_none());
}

#[test]
fn test_openai_existing_key_kept() {
    let content = "y".repeat(5000);
    let mut body = request(&content);
    if let Json::Object(m) = &mut body {
        m.push(("prompt_cache_key".to_string(), text("mine")));
    }
    let result = inject(&mut body);
    assert!(!result.injected);
    assert_eq!(result.details, vec!["prompt_cache_key already set, skipping".to_string()]);
    assert_eq!(body.get("prompt_cache_key").unwrap().as_str(), Some("mine"));
}

#[test]
fn test_openai_parse_cache_missing_fields() {
    let body = obj(vec![("usage", obj(vec![("prompt_tokens", Json::Number(JsonNumber::PosInt(7)))]))]);
    let result = parse_cache(&body);
    assert_eq!(result.input_tokens, 7);
    assert_eq!(result.output_tokens, 0);
    assert_eq!(result.cached_tokens, 0);
    let negative = obj(vec![("usage", obj(vec![("prompt_tokens", Json::Number(JsonNumber::NegInt(-3)))]))]);
    assert_eq!(parse_cache(&negative).input_tokens, 0);
}

#[test]
fn test_deepseek_never_injects() {
    let mut body = request(&"z".repeat(10_000));
    let result = deepseek::inject(&mut body);
    assert!(!result.injected);
    assert_eq!(result.details.len(), 1);
    assert!(body.get("prompt_cache_key").is_none());
}
