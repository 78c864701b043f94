use httpdispatcher::config::{
    Config, ConfigIssue, ConsoleSinkConfig, HttpSourceConfig, RemapTransformConfig, SinkConfig,
    SourceConfig, TransformConfig,
};

fn http_source(port: Option<u16>) -> SourceConfig {
    SourceConfig::Http(HttpSourceConfig {
        address: "0.0.0.0".to_string(),
        port,
        path: "/ingest".to_string(),
        max_body_size_bytes: Some(1048576),
        enable_echo: Some(true),
        basic_auth: None,
    })
}

#[test]
fn default_config_is_valid() {
    let c = Config::default();
    assert_eq!(c.channel_capacity, 100);
    assert!(c.validate().is_ok());
}

#[test]
fn zero_port_is_refused() {
    let mut c = Config::default();
    c.sources.push(("in".to_string(), http_source(Some(0))));
    match c.validate() {
        Err(ConfigIssue::InvalidSourcePort(n)) => assert_eq!(n, "in"),
        other => panic!("unexpected {:?}", other),
    }
    let msg = c.validate().unwrap_err().message();
    assert_eq!(msg, "Source in has invalid port configuration");
}

#[test]
fn unknown_sink_input_is_refused() {
    let mut c = Config::default();
    c.sources.push(("in".to_string(), http_source(Some(9090))));
    c.transforms.push((
        "t".to_string(),
        TransformConfig::Remap(RemapTransformConfig { inputs: vec!["in".to_string()], source: ".".to_string() }),
    ));
    c.sinks.push((
        "out".to_string(),
        SinkConfig::Console(ConsoleSinkConfig { inputs: vec!["nope".to_string()], encoding: None, template: None }),
    ));
    let e = c.validate().unwrap_err();
    assert_eq!(e.message(), "Sink out references unknown input nope");
}

use httpdispatcher::config::{
    default_address, default_channel_capacity, default_enable_echo, default_follow_redirects,
    default_max_body_size, default_method, default_path, default_port, default_retry_attempts,
    default_retry_interval, default_timeout, default_verify, HttpSinkConfig, TlsConfig,
};

fn http_sink(inputs: Vec<&str>, uri: &str) -> SinkConfig {
    SinkConfig::Http(HttpSinkConfig {
        inputs: inputs.into_iter().map(|s| s.to_string()).collect(),
        uri: uri.to_string(),
        encoding: None,
        template: None,
        method: default_method(),
        headers: None,
        query_params: None,
        timeout_ms: default_timeout(),
        retry_attempts: default_retry_attempts(),
        retry_interval_ms: default_retry_interval(),
        basic_auth: None,
        authorization: None,
        proxy_url: None,
        proxy_from_environment: false,
        proxy_connect_headers: None,
        follow_redirects: default_follow_redirects(),
        tls: None,
    })
}

fn remap(inputs: Vec<&str>, source: &str) -> TransformConfig {
    TransformConfig::Remap(RemapTransformConfig {
        inputs: inputs.into_iter().map(|s| s.to_string()).collect(),
        source: source.to_string(),
    })
}

fn pipeline() -> Config {
    let mut c = Config::default();
    c.sources.push(("in".to_string(), http_source(Some(9090))));
    c.transforms.push(("t".to_string(), remap(vec!["in"], ".")));
    c.sinks.push(("out".to_string(), http_sink(vec!["t", "in"], "https://example.com/{{ x }}")));
    c
}

#[test]
fn defaults_have_documented_values() {
    assert_eq!(default_address(), "0.0.0.0");
    assert_eq!(default_port(), Some(3000));
    assert_eq!(default_path(), "/ingest");
    assert_eq!(default_max_body_size(), Some(1048576));
    assert_eq!(default_enable_echo(), Some(true));
    assert_eq!(default_method(), Some("POST".to_string()));
    assert_eq!(default_timeout(), Some(30000));
    assert_eq!(default_retry_attempts(), Some(3));
    assert_eq!(default_retry_interval(), Some(1000));
    assert!(default_follow_redirects());
    assert!(default_verify());
    assert_eq!(default_channel_capacity(), 100);
    let tls = TlsConfig::default();
    assert!(tls.ca_file.is_none() && tls.client_cert.is_none() && tls.client_key.is_none());
    assert!(!tls.verify);
}

#[test]
fn connected_pipeline_is_accepted() {
    assert!(pipeline().validate().is_ok());
}

#[test]
fn missing_port_is_refused() {
    let mut c = Config::default();
    c.sources.push(("in".to_string(), http_source(None)));
    assert_eq!(c.validate().unwrap_err().message(), "Source in has invalid port configuration");
}

#[test]
fn transform_without_inputs_is_refused() {
    let mut c = Config::default();
    c.transforms.push(("t".to_string(), remap(vec![], ".")));
    let e = c.validate().unwrap_err();
    assert!(matches!(e, ConfigIssue::TransformWithoutInputs(ref n) if n == "t"));
    assert_eq!(e.message(), "Transform t has no inputs configured");
}

#[test]
fn transform_with_empty_program_is_refused() {
    let mut c = Config::default();
    c.sources.push(("in".to_string(), http_source(Some(1))));
    c.transforms.push(("t".to_string(), remap(vec!["in"], "")));
    assert_eq!(c.validate().unwrap_err().message(), "Transform t has empty VRL source");
}

#[test]
fn sink_without_inputs_is_refused() {
    let mut c = Config::default();
    c.sinks.push(("s".to_string(), http_sink(vec![], "http://x")));
    assert_eq!(c.validate().unwrap_err().message(), "Sink s has no inputs configured");
    let mut c = Config::default();
    c.sinks.push((
        "k".to_string(),
        SinkConfig::Console(ConsoleSinkConfig { inputs: vec![], encoding: None, template: None }),
    ));
    assert!(matches!(c.validate().unwrap_err(), ConfigIssue::SinkWithoutInputs(_)));
}

#[test]
fn sink_with_empty_uri_is_refused() {
    let mut c = Config::default();
    c.sources.push(("in".to_string(), http_source(Some(1))));
    c.sinks.push(("s".to_string(), http_sink(vec!["in"], "")));
    assert_eq!(c.validate().unwrap_err().message(), "Sink s has empty URI");
}

#[test]
fn unknown_transform_input_is_refused() {
    let mut c = Config::default();
    c.transforms.push(("t".to_string(), remap(vec!["ghost"], ".")));
    let e = c.validate().unwrap_err();
    assert!(matches!(e, ConfigIssue::UnknownTransformInput(ref t, ref i) if t == "t" && i == "ghost"));
    assert_eq!(e.message(), "Transform t references unknown input ghost");
}

#[test]
fn sink_may_not_read_from_a_sink() {
    let mut c = pipeline();
    c.sinks.push(("second".to_string(), http_sink(vec!["out"], "http://y")));
    assert_eq!(c.validate().unwrap_err().message(), "Sink second references unknown input out");
}

#[test]
fn sources_are_checked_before_pipeline() {
    let mut c = pipeline();
    c.sinks.push(("bad".to_string(), http_sink(vec!["nowhere"], "http://y")));
    c.sources.push(("zero".to_string(), http_source(Some(0))));
    assert!(matches!(c.validate().unwrap_err(), ConfigIssue::InvalidSourcePort(ref n) if n == "zero"));
}

#[test]
fn first_issue_in_order_is_reported() {
    let mut c = Config::default();
    c.sources.push(("a".to_string(), http_source(Some(0))));
    c.sources.push(("b".to_string(), http_source(None)));
    assert!(matches!(c.validate().unwrap_err(), ConfigIssue::InvalidSourcePort(ref n) if n == "a"));
}

#[test]
fn repeated_names_are_not_well_formed() {
    assert!(Config::default().is_well_formed());
    assert!(pipeline().is_well_formed());
    let mut c = pipeline();
    c.transforms.push(("t".to_string(), remap(vec!["in"], ".")));
    assert!(!c.is_well_formed());
    let mut c = pipeline();
    c.sinks.push(("t".to_string(), http_sink(vec!["in"], "http://y")));
    assert!(c.is_well_formed());
    let mut c = pipeline();
    if let SinkConfig::Http(h) = &mut c.sinks[0].1 {
        h.headers = Some(vec![("A".to_string(), "1".to_string()), ("A".to_string(), "2".to_string())]);
    }
    assert!(!c.is_well_formed());
}

#[test]
fn removing_a_sink_keeps_a_valid_config_valid() {
    let mut c = pipeline();
    c.sinks.push(("console".to_string(), SinkConfig::Console(ConsoleSinkConfig {
        inputs: vec!["in".to_string()],
        encoding: None,
        template: None,
    })));
    assert!(c.validate().is_ok());
    c.sinks.remove(0);
    assert!(c.validate().is_ok());
    c.sinks.remove(0);
    assert!(c.validate().is_ok());
}

#[test]
fn adding_a_source_keeps_a_valid_config_valid() {
    let mut c = pipeline();
    assert!(c.validate().is_ok());
    c.sources.push(("extra".to_string(), http_source(Some(8081))));
    assert!(c.validate().is_ok());
    assert!(c.is_well_formed());
}
