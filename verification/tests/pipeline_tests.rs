use httpdispatcher::config::{
    Config, ConsoleSinkConfig, HttpSourceConfig, RemapTransformConfig, SinkConfig, SourceConfig,
    TransformConfig,
};
use httpdispatcher::pipeline::{
    channel_names, component_table, plan_sources, plan_wiring, ComponentKind, ComponentSpec,
};
use httpdispatcher::RuntimeError;

fn source(port: u16) -> SourceConfig {
    SourceConfig::Http(HttpSourceConfig {
        address: "127.0.0.1".to_string(),
        port: Some(port),
        path: "/ingest".to_string(),
        max_body_size_bytes: None,
        enable_echo: None,
        basic_auth: None,
    })
}

fn remap(inputs: &[&str]) -> TransformConfig {
    TransformConfig::Remap(RemapTransformConfig {
        inputs: inputs.iter().map(|s| s.to_string()).collect(),
        source: ".".to_string(),
    })
}

fn console(inputs: &[&str]) -> SinkConfig {
    SinkConfig::Console(ConsoleSinkConfig {
        inputs: inputs.iter().map(|s| s.to_string()).collect(),
        encoding: None,
        template: None,
    })
}

fn config() -> Config {
    let mut c = Config::default();
    c.sources.push(("in".to_string(), source(9000)));
    c.transforms.push(("t".to_string(), remap(&["in"])));
    c.sinks.push(("out".to_string(), console(&["t", "in"])));
    c
}

fn spec(name: &str, kind: ComponentKind, inputs: &[&str]) -> ComponentSpec {
    ComponentSpec { name: name.to_string(), kind, inputs: inputs.iter().map(|s| s.to_string()).collect() }
}

#[test]
fn table_lists_components_in_registration_order() {
    let t = component_table(&config());
    let names: Vec<&str> = t.iter().map(|c| c.name.as_str()).collect();
    assert_eq!(names, vec!["in", "t", "out"]);
    assert_eq!(t[0].kind, ComponentKind::Source);
    assert_eq!(t[1].kind, ComponentKind::Transform);
    assert_eq!(t[2].inputs, vec!["t".to_string(), "in".to_string()]);
}

#[test]
fn later_registration_replaces_earlier_one() {
    let mut c = config();
    c.sinks.push(("t".to_string(), console(&["in"])));
    let t = component_table(&c);
    assert_eq!(t.len(), 3);
    assert_eq!(t[1].name, "t");
    assert_eq!(t[1].kind, ComponentKind::Sink);
}

#[test]
fn channels_are_sources_and_transforms_once_each() {
    let mut c = config();
    c.transforms.push(("in".to_string(), remap(&["t"])));
    let ch = channel_names(&c);
    assert_eq!(ch, vec!["in".to_string(), "t".to_string()]);
}

#[test]
fn accepted_config_wires_completely() {
    let c = config();
    assert!(c.validate().is_ok());
    let plan = plan_wiring(&component_table(&c), &channel_names(&c));
    assert!(plan.error.is_none());
    let made: Vec<(String, String)> =
        plan.connections.iter().map(|c| (c.consumer.clone(), c.input.clone())).collect();
    assert_eq!(
        made,
        vec![
            ("t".to_string(), "in".to_string()),
            ("out".to_string(), "t".to_string()),
            ("out".to_string(), "in".to_string())
        ]
    );
}

#[test]
fn unknown_input_stops_wiring_after_earlier_connections() {
    let table = vec![
        spec("in", ComponentKind::Source, &[]),
        spec("s1", ComponentKind::Sink, &["in"]),
        spec("s2", ComponentKind::Sink, &["in", "ghost", "in"]),
    ];
    let plan = plan_wiring(&table, &vec!["in".to_string()]);
    assert_eq!(plan.connections.len(), 2);
    match plan.error {
        Some(RuntimeError::InvalidInput(c, m)) => {
            assert_eq!(c, "s2");
            assert_eq!(m, "Input ghost not found");
        }
        other => panic!("unexpected {:?}", other),
    }
}

#[test]
fn missing_channels_are_channel_errors() {
    let table = vec![spec("in", ComponentKind::Source, &[]), spec("t", ComponentKind::Transform, &["in"])];
    let plan = plan_wiring(&table, &vec!["in".to_string()]);
    match plan.error {
        Some(RuntimeError::ChannelError(m)) => assert_eq!(m, "Channel not found for t"),
        other => panic!("unexpected {:?}", other),
    }
    let plan = plan_wiring(&table, &vec!["t".to_string()]);
    match plan.error {
        Some(RuntimeError::ChannelError(m)) => assert_eq!(m, "Channel not found for input in"),
        other => panic!("unexpected {:?}", other),
    }
    assert!(plan.connections.is_empty());
}

#[test]
fn sources_start_with_their_channels() {
    let table = component_table(&config());
    let names = plan_sources(&table, &channel_names(&config())).unwrap();
    assert_eq!(names, vec!["in".to_string()]);
    match plan_sources(&table, &vec![]) {
        Err(RuntimeError::ChannelError(m)) => assert_eq!(m, "Channel not found for in"),
        other => panic!("unexpected {:?}", other),
    }
}
