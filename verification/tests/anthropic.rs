use tokenj::json::{Json, JsonNumber};
use tokenj::provider::anthropic::{inject, parse_cache};

fn text(s: &str) -> Json {
    Json::Text(s.to_string())
}

fn num(n: u64) -> Json {
    Json::Number(JsonNumber::PosInt(n))
}

fn obj(members: Vec<(&str, Json)>) -> Json {
    Json::Object(members.into_iter().map(|(k, v)| (k.to_string(), v)).collect())
}

fn list(items: Vec<Json>) -> Json {
    Json::List(items)
}

fn hi() -> Json {
    list(vec![obj(vec![("role", text("user")), ("content", text("hi"))])])
}

#[test]
fn test_inject_on_long_system_string() {
    let mut body = obj(vec![
        ("model", text("anthropic-opus-4-7")),
        ("system", text(&"A".repeat(5000))),
        ("messages", hi()),
    ]);
    let result = inject(&mut body);
    assert!(result.injected, "Should inject cache_control on long system prompt");
    let system = body.get("system").unwrap();
    assert!(system.as_list().is_some(), "System should be converted to array");
    assert!(
        system.as_list().unwrap()[0].get("cache_control").is_some(),
        "cache_control should be present"
    );
}

#[test]
fn test_no_inject_on_short_system() {
    let mut body = obj(vec![
        ("model", text("anthropic-opus-4-7")),
        ("system", text("Short")),
        ("messages", hi()),
    ]);
    let result = inject(&mut body);
    assert!(!result.injected, "Should NOT inject on short system prompt");
}

#[test]
fn test_no_inject_if_already_has_cache_control() {
    let mut body = obj(vec![
        ("model", text("anthropic-opus-4-7")),
        (
            "system",
            list(vec![obj(vec![
                ("type", text("text")),
                ("text", text(&"A".repeat(2000))),
                ("cache_control", obj(vec![("type", text("ephemeral"))])),
            ])]),
        ),
        ("messages", hi()),
    ]);
    let result = inject(&mut body);
    assert!(!result.injected, "Should NOT override existing cache_control");
}

#[test]
fn test_inject_on_long_array_system() {
    let mut body = obj(vec![
        ("model", text("anthropic-opus-4-7")),
        (
            "system",
            list(vec![
                obj(vec![("type", text("text")), ("text", text(&"A".repeat(3000)))]),
                obj(vec![("type", text("text")), ("text", text(&"B".repeat(3000)))]),
            ]),
        ),
        ("messages", hi()),
    ]);
    let result = inject(&mut body);
    assert!(result.injected, "Should inject on long array system prompt");
}

#[test]
fn test_parse_cache_with_hit() {
    let body = obj(vec![(
        "usage",
        obj(vec![
            ("input_tokens", num(5200)),
            ("output_tokens", num(200)),
            ("cache_read_input_tokens", num(5000)),
            ("cache_creation_input_tokens", num(0)),
        ]),
    )]);
    let result = parse_cache(&body);
    assert_eq!(result.input_tokens, 5200);
    assert_eq!(result.cached_tokens, 5000);
    assert_eq!(result.cache_write_tokens, 0);
}

#[test]
fn test_parse_cache_with_write() {
    let body = obj(vec![(
        "usage",
        obj(vec![
            ("input_tokens", num(5200)),
            ("output_tokens", num(200)),
            ("cache_read_input_tokens", num(0)),
            ("cache_creation_input_tokens", num(5000)),
        ]),
    )]);
    let result = parse_cache(&body);
    assert_eq!(result.cache_write_tokens, 5000);
    assert_eq!(result.cached_tokens, 0);
}

#[test]
fn test_parse_cache_no_cache() {
    let body = obj(vec![(
        "usage",
        obj(vec![("input_tokens", num(100)), ("output_tokens", num(50))]),
    )]);
    let result = parse_cache(&body);
    assert_eq!(result.cached_tokens, 0);
    assert_eq!(result.cache_write_tokens, 0);
}

#[test]
fn test_no_system_field_no_injection() {
    let mut body = obj(vec![("model", text("anthropic-opus-4-7")), ("messages", hi())]);
    let result = inject(&mut body);
    assert!(!result.injected);
}

#[test]
fn test_injected_block_keeps_text_and_marks_ephemeral() {
    let long = "A".repeat(5000);
    let mut body = obj(vec![("system", text(&long)), ("messages", hi())]);
    let result = inject(&mut body);
    assert!(result.injected);
    let block = &body.get("system").unwrap().as_list().unwrap()[0];
    assert_eq!(block.get("type").unwrap().as_str(), Some("text"));
    assert_eq!(block.get("text").unwrap().as_str(), Some(long.as_str()));
    assert_eq!(
        block.get("cache_control").unwrap().get("type").unwrap().as_str(),
        Some("ephemeral")
    );
}

#[test]
fn test_parse_cache_not_an_object() {
    let result = parse_cache(&text("nothing"));
    assert_eq!(result.input_tokens, 0);
    assert_eq!(result.output_tokens, 0);
    assert_eq!(result.cached_tokens, 0);
    assert_eq!(result.cache_write_tokens, 0);
}

#[test]
fn test_inject_on_long_messages_without_system() {
    let long = "A".repeat(5000);
    let mut body = obj(vec![
        ("model", text("anthropic-opus-4-7")),
        ("messages", list(vec![obj(vec![("role", text("user")), ("content", text(&long))])])),
    ]);
    let result = inject(&mut body);
    assert!(result.injected);
    assert_eq!(result.details, vec!["Added cache_control to last message (~1251 tokens)".to_string()]);
    let message = &body.get("messages").unwrap().as_list().unwrap()[0];
    assert_eq!(message.get("role").unwrap().as_str(), Some("user"));
    let block = &message.get("content").unwrap().as_list().unwrap()[0];
    assert_eq!(block.get("text").unwrap().as_str(), Some(long.as_str()));
    assert_eq!(
        block.get("cache_control").unwrap().get("type").unwrap().as_str(),
        Some("ephemeral")
    );
}

#[test]
fn test_inject_on_long_messages_after_short_system() {
    let mut body = obj(vec![
        ("system", text("Short")),
        (
            "messages",
            list(vec![
                obj(vec![("role", text("user")), ("content", text(&"B".repeat(4200)))]),
                obj(vec![
                    ("role", text("assistant")),
                    (
                        "content",
                        list(vec![
                            obj(vec![("type", text("text")), ("text", text("x"))]),
                            obj(vec![("type", text("text")), ("text", text("y"))]),
                        ]),
                    ),
                ]),
            ]),
        ),
    ]);
    let result = inject(&mut body);
    assert!(result.injected);
    assert_eq!(
        result.details,
        vec![
            "System prompt too short for caching: 2 tokens < 1024".to_string(),
            "Added cache_control to last message (~1056 tokens)".to_string(),
        ]
    );
    assert_eq!(body.get("system").unwrap().as_str(), Some("Short"));
    let messages = body.get("messages").unwrap().as_list().unwrap();
    assert_eq!(messages[0].get("content").unwrap().as_str().map(|s| s.len()), Some(4200));
    let blocks = messages[1].get("content").unwrap().as_list().unwrap();
    assert!(blocks[0].get("cache_control").is_none());
    assert!(blocks[1].get("cache_control").is_some());
}

#[test]
fn test_messages_marker_not_overwritten() {
    let mut body = obj(vec![(
        "messages",
        list(vec![obj(vec![
            ("role", text("user")),
            (
                "content",
                list(vec![obj(vec![
                    ("type", text("text")),
                    ("text", text(&"C".repeat(8000))),
                    ("cache_control", obj(vec![("type", text("persistent"))])),
                ])]),
            ),
        ])]),
    )]);
    let result = inject(&mut body);
    assert!(!result.injected);
    let block = &body.get("messages").unwrap().as_list().unwrap()[0].get("content").unwrap().as_list().unwrap()[0];
    assert_eq!(
        block.get("cache_control").unwrap().get("type").unwrap().as_str(),
        Some("persistent")
    );
}

#[test]
fn test_short_system_and_messages_reported() {
    let mut body = obj(vec![("system", text("Short")), ("messages", hi())]);
    let result = inject(&mut body);
    assert!(!result.injected);
    assert_eq!(
        result.details,
        vec![
            "System prompt too short for caching: 2 tokens < 1024".to_string(),
            "Messages too short for caching: 2 tokens < 1024".to_string(),
        ]
    );
}
