use tokenj::json::Json;
use tokenj::provider::gemini_cache::{GeminiCacheStore, GeminiStep};
use tokenj::provider::Provider;
use tokenj::proxy::{
    direct_target_host, forwarded_request_header, forwarded_response_header, headers_complete,
    is_tunnel_request, needs_json_processing, parse_connect_request, request_model,
    rewrite_request, target_address, tunnel_action, upstream_url, TunnelAction,
};

fn obj(members: Vec<(&str, Json)>) -> Json {
    Json::Object(members.into_iter().map(|(k, v)| (k.to_string(), v)).collect())
}

#[test]
fn test_parse_connect_request_basic() {
    let req = b"CONNECT api.anthropic.com:443 HTTP/1.1\r\nHost: api.anthropic.com:443\r\n\r\n";
    assert_eq!(parse_connect_request(req), Some(("api.anthropic.com".to_string(), 443)));
}

#[test]
fn test_parse_connect_request_lowercase_method_and_spaces() {
    let req = b"  connect\texample.com:8443   HTTP/1.1\r\n\r\n";
    assert_eq!(parse_connect_request(req), Some(("example.com".to_string(), 8443)));
}

#[test]
fn test_parse_connect_request_malformed() {
    assert_eq!(parse_connect_request(b""), None);
    assert_eq!(parse_connect_request(b"GET / HTTP/1.1\r\n\r\n"), None);
    assert_eq!(parse_connect_request(b"CONNECT\r\nhost:1\r\n"), None);
    assert_eq!(parse_connect_request(b"\r\nCONNECT a:1 HTTP/1.1\r\n"), None);
    assert_eq!(parse_connect_request(&[0xff, 0xfe, 0x20]), None);
}

#[test]
fn test_parse_connect_request_no_port_defaults() {
    assert_eq!(parse_connect_request(b"CONNECT example.com"), Some(("example.com".to_string(), 443)));
}

#[test]
fn test_tunnel_action() {
    match tunnel_action(b"CONNECT api.openai.com:443 HTTP/1.1\r\n\r\n") {
        TunnelAction::Intercept(h) => assert_eq!(h, "api.openai.com"),
        _ => panic!("an LLM host on 443 is intercepted"),
    }
    match tunnel_action(b"CONNECT api.openai.com:8443 HTTP/1.1\r\n\r\n") {
        TunnelAction::Passthrough(h, p) => {
            assert_eq!(h, "api.openai.com");
            assert_eq!(p, 8443);
        },
        _ => panic!("another port is passed through"),
    }
    match tunnel_action(b"CONNECT github.com:443 HTTP/1.1\r\n\r\n") {
        TunnelAction::Passthrough(h, p) => {
            assert_eq!(h, "github.com");
            assert_eq!(p, 443);
        },
        _ => panic!("other hosts are passed through"),
    }
    assert!(matches!(tunnel_action(b"HELLO"), TunnelAction::Reject));
}

#[test]
fn test_headers_complete() {
    assert!(!headers_complete(b""));
    assert!(!headers_complete(b"\r\n\r"));
    assert!(headers_complete(b"\r\n\r\n"));
    assert!(headers_complete(b"CONNECT a:1 HTTP/1.1\r\n\r\nextra"));
    assert!(!headers_complete(b"CONNECT a:1 HTTP/1.1\r\n"));
}

#[test]
fn test_is_tunnel_request() {
    assert!(is_tunnel_request(b"CONNECT"));
    assert!(is_tunnel_request(b"CONNECT x:1"));
    assert!(!is_tunnel_request(b"CONNEC"));
    assert!(!is_tunnel_request(b"connect"));
    assert!(!is_tunnel_request(b"GET / H"));
}

#[test]
fn test_target_address() {
    assert_eq!(target_address("example.com", 8080), "example.com:8080");
    assert_eq!(target_address("h", 0), "h:0");
    assert_eq!(target_address("[::1]", 443), "[::1]:443");
}

#[test]
fn test_direct_target_host() {
    assert_eq!(direct_target_host(Some("api.deepseek.com"), Some("localhost:9100")), "api.deepseek.com");
    assert_eq!(direct_target_host(Some("127.0.0.1"), Some("api.openai.com:443")), "api.openai.com");
    assert_eq!(direct_target_host(Some("localhost"), Some("api.anthropic.com")), "api.anthropic.com");
    assert_eq!(direct_target_host(Some("0.0.0.0"), None), "");
    assert_eq!(direct_target_host(None, Some("a.b:1:2")), "a.b");
    assert_eq!(direct_target_host(None, None), "");
}

#[test]
fn test_header_filters() {
    assert!(!forwarded_request_header("Host"));
    assert!(!forwarded_request_header("proxy-connection"));
    assert!(!forwarded_request_header("Transfer-Encoding"));
    assert!(forwarded_request_header("authorization"));
    assert!(forwarded_request_header("content-type"));
    assert!(!forwarded_response_header("transfer-encoding"));
    assert!(forwarded_response_header("content-length"));
    assert!(forwarded_response_header("host"));
}

#[test]
fn test_needs_json_processing() {
    assert!(needs_json_processing(&Provider::Anthropic));
    assert!(needs_json_processing(&Provider::OpenAI));
    assert!(needs_json_processing(&Provider::Gemini));
    assert!(!needs_json_processing(&Provider::DeepSeek));
    assert!(needs_json_processing(&Provider::GLM));
    assert!(!needs_json_processing(&Provider::Unknown("x".into())));
}

#[test]
fn test_request_model() {
    let with_model = obj(vec![("model", Json::Text("gpt-4o".into()))]);
    assert_eq!(request_model(Some(&with_model)), "gpt-4o");
    let numeric = obj(vec![("model", Json::Null)]);
    assert_eq!(request_model(Some(&numeric)), "unknown");
    assert_eq!(request_model(Some(&Json::Text("model".into()))), "unknown");
    assert_eq!(request_model(None), "unknown");
}

#[test]
fn test_upstream_url() {
    assert_eq!(upstream_url("api.openai.com", "/v1/chat/completions?x=1"), "https://api.openai.com/v1/chat/completions?x=1");
    assert_eq!(upstream_url("h", ""), "https://h");
}

#[test]
fn test_rewrite_request_non_gemini() {
    let store = GeminiCacheStore::new();
    let mut body = obj(vec![("model", Json::Text("m".into()))]);
    match rewrite_request(&Provider::Unknown("x".into()), &mut body, "/v1", None, None, &store) {
        GeminiStep::Done(inj) => assert!(!inj.injected),
        _ => panic!("only Gemini uses the cache API"),
    }
}

#[test]
fn test_rewrite_request_gemini_uses_url_key_and_model() {
    let store = GeminiCacheStore::new();
    let text = "A".repeat(160_000);
    let mut body = obj(vec![
        ("model", Json::Text("gemini-2.5-flash".into())),
        (
            "contents",
            Json::List(vec![obj(vec![(
                "parts",
                Json::List(vec![obj(vec![("text", Json::Text(text))])]),
            )])]),
        ),
    ]);
    match rewrite_request(&Provider::Gemini, &mut body, "/v1beta/models/g:generateContent?key=K123", Some(b"[1]"), None, &store) {
        GeminiStep::CreateCache { url, request, content_hash } => {
            assert_eq!(content_hash, GeminiCacheStore::compute_hash(Some(b"[1]"), None));
            assert_eq!(url, "https://generativelanguage.googleapis.com/v1beta/cachedContents?key=K123");
            assert_eq!(request.get("model").unwrap().as_str(), Some("models/gemini-2.5-flash"));
        },
        _ => panic!("a long Gemini context asks for a cache"),
    }
}

#[test]
fn test_target_address_parses_back() {
    for (host, port) in [("api.openai.com", 443u16), ("[::1]", 8080), ("h:with:colons", 0), ("", 65535)] {
        let addr = target_address(host, port);
        assert_eq!(tokenj::proxy::tls::parse_host(&addr), (host.to_string(), port));
    }
}

#[test]
fn test_rewrite_keeps_model() {
    let store = GeminiCacheStore::new();
    let providers = [
        Provider::Anthropic,
        Provider::OpenAI,
        Provider::DeepSeek,
        Provider::GLM,
        Provider::Unknown("x".into()),
    ];
    for provider in providers {
        let mut body = obj(vec![
            ("model", Json::Text("m-1".into())),
            ("system", Json::Text("S".repeat(6000))),
            (
                "messages",
                Json::List(vec![obj(vec![
                    ("role", Json::Text("user".into())),
                    ("content", Json::Text("C".repeat(6000))),
                    ("cache_control", obj(vec![("type", Json::Text("ephemeral".into()))])),
                ])]),
            ),
        ]);
        let before = request_model(Some(&body));
        let _ = rewrite_request(&provider, &mut body, "/v1", None, None, &store);
        assert_eq!(request_model(Some(&body)), before);
        assert_eq!(before, "m-1");
    }
}
