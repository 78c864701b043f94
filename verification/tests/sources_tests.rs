use httpdispatcher::component::{Component, Event};
use httpdispatcher::config::HttpSourceConfig;
use httpdispatcher::json::JsonValue;
use httpdispatcher::sources::{echo_payload, ingest_response, HttpSource};

fn source_config(port: Option<u16>, limit: Option<usize>, echo: Option<bool>) -> HttpSourceConfig {
    HttpSourceConfig {
        address: "127.0.0.1".to_string(),
        port,
        path: "/events".to_string(),
        max_body_size_bytes: limit,
        enable_echo: echo,
        basic_auth: None,
    }
}

fn members(v: &JsonValue) -> &Vec<(String, JsonValue)> {
    match v {
        JsonValue::Object(m) => m,
        _ => panic!("not an object"),
    }
}

fn text(v: &JsonValue) -> &str {
    match v {
        JsonValue::String(s) => s.as_str(),
        _ => panic!("not a string"),
    }
}

#[test]
fn listen_address_uses_configured_port() {
    let src = HttpSource::new("web".to_string(), source_config(Some(9090), None, None));
    assert_eq!(src.listen_address(), "127.0.0.1:9090");
}

#[test]
fn listen_address_defaults_to_port_3000() {
    let src = HttpSource::new("web".to_string(), source_config(None, None, None));
    assert_eq!(src.listen_address(), "127.0.0.1:3000");
}

#[test]
fn listen_address_port_zero_and_max() {
    let a = HttpSource::new("a".to_string(), source_config(Some(0), None, None));
    assert_eq!(a.listen_address(), "127.0.0.1:0");
    let b = HttpSource::new("b".to_string(), source_config(Some(65535), None, None));
    assert_eq!(b.listen_address(), "127.0.0.1:65535");
}

#[test]
fn body_limit_configured_or_one_mebibyte() {
    let a = HttpSource::new("a".to_string(), source_config(None, Some(2048), None));
    assert_eq!(a.body_limit(), 2048);
    let b = HttpSource::new("b".to_string(), source_config(None, None, None));
    assert_eq!(b.body_limit(), 1024 * 1024);
}

#[test]
fn echo_only_when_switched_on() {
    let on = HttpSource::new("a".to_string(), source_config(None, None, Some(true)));
    let off = HttpSource::new("b".to_string(), source_config(None, None, Some(false)));
    let unset = HttpSource::new("c".to_string(), source_config(None, None, None));
    assert!(on.echo_enabled());
    assert!(!off.echo_enabled());
    assert!(!unset.echo_enabled());
}

#[test]
fn http_source_component_identity() {
    let src = HttpSource::new("web".to_string(), source_config(None, None, None));
    assert_eq!(src.name(), "web");
    assert_eq!(src.type_(), "http");
    assert!(src.inputs().is_empty());
}

#[test]
fn event_from_payload_has_fresh_id() {
    let a = Event::from_payload(JsonValue::Bool(true));
    let b = Event::from_payload(JsonValue::Null);
    assert_eq!(a.id.chars().count(), 16);
    assert!(a.id.chars().all(|c| c == '_' || c == '-' || c.is_ascii_alphanumeric()));
    assert_ne!(a.id, b.id);
    assert!(matches!(a.data, JsonValue::Bool(true)));
    assert!(members(&a.metadata).is_empty());
}

#[test]
fn ingest_response_success() {
    let (status, body) = ingest_response(&"abc".to_string(), None);
    assert_eq!(status, 200);
    let m = members(&body);
    assert_eq!(m.len(), 1);
    assert_eq!(m[0].0, "event_id");
    assert_eq!(text(&m[0].1), "abc");
}

#[test]
fn ingest_response_failure() {
    let (status, body) = ingest_response(&"abc".to_string(), Some("channel closed".to_string()));
    assert_eq!(status, 500);
    let m = members(&body);
    assert_eq!(m.len(), 2);
    assert_eq!(m[0].0, "error");
    assert_eq!(text(&m[0].1), "channel closed");
    assert_eq!(m[1].0, "event_id");
    assert_eq!(text(&m[1].1), "abc");
}

#[test]
fn echo_payload_lists_request() {
    let v = echo_payload(
        "POST".to_string(),
        "/echo?x=1".to_string(),
        "/echo".to_string(),
        vec![("host".to_string(), "localhost".to_string())],
        Some("x=1".to_string()),
        "HTTP/1.1".to_string(),
        None,
    );
    let m = members(&v);
    let keys: Vec<&str> = m.iter().map(|(k, _)| k.as_str()).collect();
    assert_eq!(keys, vec!["body", "headers", "method", "path", "query", "uri", "version"]);
    assert!(matches!(m[0].1, JsonValue::Null));
    let h = members(&m[1].1);
    assert_eq!(h.len(), 1);
    assert_eq!(h[0].0, "host");
    assert_eq!(text(&h[0].1), "localhost");
    assert_eq!(text(&m[2].1), "POST");
    assert_eq!(text(&m[3].1), "/echo");
    assert_eq!(text(&m[4].1), "x=1");
    assert_eq!(text(&m[5].1), "/echo?x=1");
    assert_eq!(text(&m[6].1), "HTTP/1.1");
}

#[test]
fn echo_payload_without_query_gives_empty_text() {
    let v = echo_payload(
        "GET".to_string(),
        "/echo".to_string(),
        "/echo".to_string(),
        vec![],
        None,
        "HTTP/1.1".to_string(),
        Some(JsonValue::Bool(false)),
    );
    let m = members(&v);
    assert!(matches!(m[0].1, JsonValue::Bool(false)));
    assert_eq!(text(&m[4].1), "");
}
