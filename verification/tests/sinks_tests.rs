use httpdispatcher::component::Event;
use httpdispatcher::config::{ConsoleSinkConfig, HttpSinkConfig, TlsConfig};
use httpdispatcher::json::JsonValue;
use httpdispatcher::sinks::{
    response_outcome, template_source, ClientSettings, ConsoleSink, HttpMethod, HttpSink, OutputFormat, RenderStage,
    RetryDecision, RetryPolicy, SinkError, TemplateSource,
};

fn s(x: &str) -> JsonValue {
    JsonValue::String(x.to_string())
}

fn event(data: JsonValue) -> Event {
    Event { id: "e".to_string(), data, metadata: JsonValue::Object(vec![]) }
}

fn console(encoding: Option<&str>, template: Option<&str>) -> ConsoleSinkConfig {
    ConsoleSinkConfig {
        inputs: vec!["in".to_string()],
        encoding: encoding.map(|e| e.to_string()),
        template: template.map(|t| t.to_string()),
    }
}

fn http(template: Option<&str>, method: Option<&str>) -> HttpSinkConfig {
    HttpSinkConfig {
        inputs: vec!["in".to_string()],
        uri: "https://api.example.com/{{ endpoint }}".to_string(),
        encoding: Some("json".to_string()),
        template: template.map(|t| t.to_string()),
        method: method.map(|m| m.to_string()),
        headers: Some(vec![("Authorization".to_string(), "Bearer {{ key }}".to_string())]),
        query_params: Some(vec![("q".to_string(), "{{ endpoint }}".to_string())]),
        timeout_ms: Some(5000),
        retry_attempts: Some(2),
        retry_interval_ms: None,
        basic_auth: None,
        authorization: None,
        proxy_url: None,
        proxy_from_environment: false,
        proxy_connect_headers: None,
        follow_redirects: true,
        tls: None,
    }
}

#[test]
fn template_settings_name_files_or_text() {
    assert_eq!(template_source("file:///etc/t.tpl"), TemplateSource::File("/etc/t.tpl".to_string()));
    assert_eq!(template_source("file://file://x"), TemplateSource::File("x".to_string()));
    assert_eq!(template_source("{{ a }}"), TemplateSource::Inline("{{ a }}".to_string()));
}

#[test]
fn console_formats() {
    assert!(matches!(OutputFormat::from_config(&console(None, None)), Ok(OutputFormat::Text { template: None })));
    assert!(matches!(OutputFormat::from_config(&console(Some("json"), None)), Ok(OutputFormat::Json)));
    assert!(matches!(
        OutputFormat::from_config(&console(Some("text"), Some("x"))),
        Ok(OutputFormat::Text { template: Some(ref t) }) if t == "x"
    ));
    let e = OutputFormat::from_config(&console(Some("xml"), None)).unwrap_err();
    assert_eq!(e.message(), "Unknown encoding: xml");
}

#[test]
fn console_output() {
    let data = JsonValue::Object(vec![("a".to_string(), s("b"))]);
    let plain = ConsoleSink::new("c".to_string(), &console(None, None), None).unwrap();
    assert_eq!(plain.render_output(&event(data)).unwrap(), "{\"a\":\"b\"}");
    let data = JsonValue::Object(vec![("a".to_string(), s("b"))]);
    let json = ConsoleSink::new("c".to_string(), &console(Some("json"), None), None).unwrap();
    assert_eq!(json.render_output(&event(data)).unwrap(), "{\n  \"a\": \"b\"\n}");
    let data = JsonValue::Object(vec![("a".to_string(), s("b"))]);
    let tpl = ConsoleSink::new("c".to_string(), &console(None, Some("x")), Some("a={{ a }}".to_string())).unwrap();
    assert_eq!(tpl.render_output(&event(data)).unwrap(), "a=b");
    assert!(matches!(tpl.render_output(&event(s("scalar"))), Err(SinkError::ContextNotObject)));
    assert!(matches!(
        tpl.render_output(&event(JsonValue::Object(vec![]))),
        Err(SinkError::RenderFailed(RenderStage::Output, _))
    ));
}

#[test]
fn console_refuses_bad_templates_and_encodings() {
    let e = ConsoleSink::new("c".to_string(), &console(None, Some("x")), Some("{{ a".to_string()));
    let e = e.err().unwrap();
    assert!(matches!(e, SinkError::TemplateRejected(_)));
    assert_eq!(e.message(), "Failed to add template");
    assert!(matches!(
        ConsoleSink::new("c".to_string(), &console(Some("yaml"), None), None),
        Err(SinkError::UnknownEncoding(_))
    ));
}

#[test]
fn methods() {
    assert_eq!(HttpMethod::from_upper("GET"), HttpMethod::Get);
    assert_eq!(HttpMethod::from_upper("OPTIONS"), HttpMethod::Options);
    assert_eq!(HttpMethod::from_upper("get"), HttpMethod::Post);
    assert_eq!(HttpMethod::from_upper("TRACE"), HttpMethod::Post);
    assert_eq!(HttpMethod::for_config(&Some("delete".to_string())), HttpMethod::Delete);
    assert_eq!(HttpMethod::for_config(&Some("Patch".to_string())), HttpMethod::Patch);
    assert_eq!(HttpMethod::for_config(&None), HttpMethod::Post);
}

#[test]
fn http_request_is_rendered_from_event_data() {
    let sink = HttpSink::new("h".to_string(), &http(Some("{\"id\": \"{{ endpoint }}\"}"), Some("put")), Some("{\"id\": \"{{ endpoint }}\"}".to_string())).unwrap();
    let data = JsonValue::Object(vec![("endpoint".to_string(), s("alerts")), ("key".to_string(), s("k"))]);
    let plan = sink.build_request(&event(data)).unwrap();
    assert_eq!(plan.method, HttpMethod::Put);
    assert_eq!(plan.uri, "https://api.example.com/alerts");
    assert_eq!(plan.query, Some(vec![("q".to_string(), "alerts".to_string())]));
    assert_eq!(plan.headers, vec![("Authorization".to_string(), "Bearer k".to_string())]);
    assert_eq!(plan.body, "{\"id\": \"alerts\"}");
}

#[test]
fn http_request_failures_name_their_stage() {
    let sink = HttpSink::new("h".to_string(), &http(None, None), None).unwrap();
    assert!(matches!(sink.build_request(&event(s("x"))), Err(SinkError::ContextNotObject)));
    let data = JsonValue::Object(vec![("endpoint".to_string(), s("a")), ("key".to_string(), s("k"))]);
    match sink.build_request(&event(data)) {
        Err(e @ SinkError::RenderFailed(RenderStage::Body, _)) => assert!(e.message().starts_with("Rendering body: ")),
        other => panic!("unexpected {:?}", other),
    }
    let data = JsonValue::Object(vec![("key".to_string(), s("k"))]);
    assert!(matches!(sink.build_request(&event(data)), Err(SinkError::RenderFailed(RenderStage::Uri, _))));
}

#[test]
fn http_sink_refuses_bad_template() {
    let r = HttpSink::new("h".to_string(), &http(Some("x"), None), Some("{% if %}".to_string()));
    assert!(matches!(r, Err(SinkError::InvalidTemplate(_))));
}

#[test]
fn response_status() {
    assert!(response_outcome(200, "200 OK".to_string()).is_ok());
    assert!(response_outcome(299, "299".to_string()).is_ok());
    let e = response_outcome(404, "404 Not Found".to_string()).unwrap_err();
    assert_eq!(e.message(), "HTTP sink request failed with status: 404 Not Found");
    assert!(response_outcome(302, "302 Found".to_string()).is_err());
}

#[test]
fn retries() {
    let p = RetryPolicy::from_config(&http(None, None));
    assert_eq!(p, RetryPolicy { retry_attempts: 2, retry_interval_ms: 1000 });
    assert_eq!(p.after_attempt(1, true), RetryDecision::Delivered);
    assert_eq!(p.after_attempt(1, false), RetryDecision::RetryAfter(1000));
    assert_eq!(p.after_attempt(2, false), RetryDecision::RetryAfter(1000));
    assert_eq!(p.after_attempt(3, false), RetryDecision::GiveUp);
    let mut sends = 0;
    let mut attempt = 0;
    loop {
        attempt += 1;
        sends += 1;
        match p.after_attempt(attempt, false) {
            RetryDecision::RetryAfter(_) => continue,
            _ => break,
        }
    }
    assert_eq!(sends, 3);
}

#[test]
fn error_messages() {
    assert_eq!(SinkError::ContextNotObject.message(), "Creating a Context from a Value/Serialize requires it being a JSON object");
    assert_eq!(SinkError::RenderFailed(RenderStage::Uri, "x".to_string()).message(), "Rendering uri: x");
    assert_eq!(SinkError::RenderFailed(RenderStage::QueryParams, "x".to_string()).message(), "Rendering query_params: x");
    assert_eq!(SinkError::RenderFailed(RenderStage::Headers, "x".to_string()).message(), "Rendering headers: x");
    assert_eq!(SinkError::InvalidTemplate("bad".to_string()).message(), "bad");
}

#[test]
fn console_json_ignores_template_text() {
    let sink = ConsoleSink::new("c".to_string(), &console(Some("json"), Some("x")), Some("{{ a".to_string())).unwrap();
    assert!(sink.template.is_none());
    assert!(matches!(sink.format, OutputFormat::Json));
}

#[test]
fn client_settings_follow_the_configuration() {
    let sink = HttpSink::new("h".to_string(), &http(None, None), None).unwrap();
    assert_eq!(sink.client.timeout_ms, 5000);
    assert!(sink.client.follow_redirects);
    assert!(sink.client.identity.is_none());
    assert!(sink.client.built_in_roots.is_none());

    let mut cfg = http(None, None);
    cfg.timeout_ms = None;
    cfg.follow_redirects = false;
    cfg.proxy_url = Some("http://proxy:3128".to_string());
    cfg.tls = Some(TlsConfig {
        ca_file: Some("ca.pem".to_string()),
        client_cert: Some("c.pem".to_string()),
        client_key: None,
        verify: true,
    });
    let c = ClientSettings::from_config(&cfg);
    assert_eq!(c.timeout_ms, 30000);
    assert!(!c.follow_redirects);
    assert_eq!(c.proxy_url.as_deref(), Some("http://proxy:3128"));
    assert_eq!(c.ca_file.as_deref(), Some("ca.pem"));
    assert!(c.identity.is_none());
    assert!(c.built_in_roots.is_none());

    cfg.tls = Some(TlsConfig {
        ca_file: None,
        client_cert: Some("c.pem".to_string()),
        client_key: Some("k.pem".to_string()),
        verify: false,
    });
    let c = ClientSettings::from_config(&cfg);
    assert_eq!(c.identity, Some(("c.pem".to_string(), "k.pem".to_string())));
    assert_eq!(c.built_in_roots, Some(true));
    assert!(c.ca_file.is_none());
}
