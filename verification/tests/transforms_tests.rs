use httpdispatcher::component::{Component, Event};
use httpdispatcher::config::RemapTransformConfig;
use httpdispatcher::json::JsonValue;
use httpdispatcher::transforms::{
    route_output_key, route_targets, send_to_unmatched, unmatched_output_key, VrlTransform,
};

#[test]
fn route_keys() {
    assert_eq!(route_output_key(&"router".to_string(), &"errors".to_string()), "router.errors");
    assert_eq!(unmatched_output_key(&"router".to_string()), "router._unmatched");
}

#[test]
fn route_targets_keep_matching_routes_in_order() {
    let outcomes = vec![
        ("a".to_string(), true),
        ("b".to_string(), false),
        ("c".to_string(), true),
    ];
    assert_eq!(route_targets(&"r".to_string(), &outcomes), vec!["r.a".to_string(), "r.c".to_string()]);
}

#[test]
fn route_targets_none_matching() {
    let outcomes = vec![("a".to_string(), false)];
    assert!(route_targets(&"r".to_string(), &outcomes).is_empty());
    assert!(route_targets(&"r".to_string(), &vec![]).is_empty());
}

#[test]
fn unmatched_only_when_unrouted_and_enabled() {
    assert!(send_to_unmatched(false, true));
    assert!(!send_to_unmatched(true, true));
    assert!(!send_to_unmatched(false, false));
    assert!(!send_to_unmatched(true, false));
}

#[test]
fn remap_transform_identity() {
    let cfg = RemapTransformConfig { inputs: vec!["src".to_string()], source: ".x = 1".to_string() };
    let t = VrlTransform::new("remap1".to_string(), &cfg);
    assert_eq!(t.name(), "remap1");
    assert_eq!(t.type_(), "remap");
    assert_eq!(t.inputs(), &["src".to_string()][..]);
    assert_eq!(t.source, ".x = 1");
}

#[test]
fn remap_output_keeps_id_and_metadata() {
    let cfg = RemapTransformConfig { inputs: vec![], source: ".".to_string() };
    let t = VrlTransform::new("r".to_string(), &cfg);
    let input = Event {
        id: "id1".to_string(),
        data: JsonValue::Null,
        metadata: JsonValue::Object(vec![("m".to_string(), JsonValue::Bool(true))]),
    };
    let out = t.output_event(input, JsonValue::Bool(false));
    assert_eq!(out.id, "id1");
    assert!(matches!(out.data, JsonValue::Bool(false)));
    match out.metadata {
        JsonValue::Object(m) => {
            assert_eq!(m.len(), 1);
            assert_eq!(m[0].0, "m");
        }
        _ => panic!("metadata lost"),
    }
}
