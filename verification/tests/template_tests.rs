use httpdispatcher::component::Event;
use httpdispatcher::json::{JsonNumber, JsonValue};
use httpdispatcher::template::{find_placeholders, split_at_dots, TemplateEngine, TemplateError};

fn s(x: &str) -> JsonValue {
    JsonValue::String(x.to_string())
}

fn obj(members: Vec<(&str, JsonValue)>) -> JsonValue {
    JsonValue::Object(members.into_iter().map(|(k, v)| (k.to_string(), v)).collect())
}

fn event() -> Event {
    Event {
        id: "evt-1".to_string(),
        data: obj(vec![
            ("user", obj(vec![("name", s("ada")), ("age", JsonValue::Number(JsonNumber::PosInt(36)))])),
            ("delta", JsonValue::Number(JsonNumber::NegInt(-7))),
            ("ratio", JsonValue::Number(JsonNumber::Float("0.5".to_string()))),
            ("ok", JsonValue::Bool(true)),
            ("nothing", JsonValue::Null),
            ("tags", JsonValue::Array(vec![s("a"), JsonValue::Number(JsonNumber::PosInt(1))])),
            ("endpoint", s("alerts")),
        ]),
        metadata: obj(vec![("api_key", s("k1")), ("timestamp", s("2024"))]),
    }
}

#[test]
fn renders_id_and_paths() {
    let t = TemplateEngine::new();
    let e = event();
    assert_eq!(t.render("id={{ id }}", &e).unwrap(), "id=evt-1");
    assert_eq!(t.render("hi {{data.user.name}}!", &e).unwrap(), "hi ada!");
    assert_eq!(t.render("Bearer {{ metadata.api_key }}", &e).unwrap(), "Bearer k1");
    assert_eq!(t.render("https://api.example.com/{{ data.endpoint }}", &e).unwrap(), "https://api.example.com/alerts");
}

#[test]
fn renders_scalars_as_text() {
    let t = TemplateEngine::new();
    let e = event();
    assert_eq!(t.render("{{ data.user.age }}", &e).unwrap(), "36");
    assert_eq!(t.render("{{ data.delta }}", &e).unwrap(), "-7");
    assert_eq!(t.render("{{ data.ratio }}", &e).unwrap(), "0.5");
    assert_eq!(t.render("{{ data.ok }}", &e).unwrap(), "true");
    assert_eq!(t.render("{{ data.nothing }}", &e).unwrap(), "null");
}

#[test]
fn renders_structures_as_compact_json() {
    let t = TemplateEngine::new();
    let e = event();
    assert_eq!(t.render("{{ data.tags }}", &e).unwrap(), "[\"a\",1]");
    assert_eq!(t.render("{{ data.user }}", &e).unwrap(), "{\"age\":36,\"name\":\"ada\"}");
}

#[test]
fn plain_template_is_unchanged() {
    let t = TemplateEngine::new();
    assert_eq!(t.render("no placeholders { here } }}", &event()).unwrap(), "no placeholders { here } }}");
}

#[test]
fn every_occurrence_is_replaced() {
    let t = TemplateEngine::new();
    assert_eq!(t.render("{{ id }}-{{ id }}-{{id}}", &event()).unwrap(), "evt-1-evt-1-evt-1");
}

#[test]
fn unknown_root_is_an_error() {
    let t = TemplateEngine::new();
    let e = t.render("{{ foo.bar }}", &event()).unwrap_err();
    assert!(matches!(e, TemplateError::UnknownRoot(ref r) if r == "foo"));
    assert_eq!(e.message(), "未知的根路径: foo");
}

#[test]
fn missing_field_is_an_error() {
    let t = TemplateEngine::new();
    let e = t.render("{{ data.user.email }}", &event()).unwrap_err();
    assert!(matches!(e, TemplateError::MissingField { ref part, ref path } if part == "email" && path == "data.user.email"));
    assert_eq!(e.message(), "路径 'email' 在 'data.user.email' 中不存在");
}

#[test]
fn walking_into_a_non_object_is_missing() {
    let t = TemplateEngine::new();
    let e = t.render("{{ data.endpoint.x }}", &event()).unwrap_err();
    assert!(matches!(e, TemplateError::MissingField { ref part, .. } if part == "x"));
}

#[test]
fn first_failing_placeholder_is_reported() {
    let t = TemplateEngine::new();
    let e = t.render("{{ data.nope }} {{ zzz }}", &event()).unwrap_err();
    assert!(matches!(e, TemplateError::MissingField { .. }));
}

#[test]
fn placeholder_grammar() {
    let p = find_placeholders("a {{ x }} b {{}} c {{y}} {{ z } }}");
    let texts: Vec<(String, String)> = p;
    assert_eq!(
        texts,
        vec![("{{ x }}".to_string(), "x".to_string()), ("{{y}}".to_string(), "y".to_string())]
    );
    let p = find_placeholders("{{{a}}");
    assert_eq!(p, vec![("{{{a}}".to_string(), "{a".to_string())]);
    let p = find_placeholders("{{   }}");
    assert_eq!(p, vec![("{{   }}".to_string(), "".to_string())]);
}

#[test]
fn whitespace_only_placeholder_names_empty_root() {
    let t = TemplateEngine::new();
    let e = t.render("{{   }}", &event()).unwrap_err();
    assert!(matches!(e, TemplateError::UnknownRoot(ref r) if r.is_empty()));
}

#[test]
fn split_keeps_empty_pieces() {
    assert_eq!(split_at_dots("a..b"), vec!["a", "", "b"]);
    assert_eq!(split_at_dots(""), vec![""]);
    assert_eq!(split_at_dots("data."), vec!["data", ""]);
}

#[test]
fn render_map_keeps_keys() {
    let t = TemplateEngine::new();
    let templates = vec![
        ("Authorization".to_string(), "Bearer {{ metadata.api_key }}".to_string()),
        ("X-Id".to_string(), "{{ id }}".to_string()),
    ];
    let out = t.render_map(&templates, &event()).unwrap();
    assert_eq!(
        out,
        vec![
            ("Authorization".to_string(), "Bearer k1".to_string()),
            ("X-Id".to_string(), "evt-1".to_string())
        ]
    );
    let bad = vec![("a".to_string(), "{{ id }}".to_string()), ("b".to_string(), "{{ nope }}".to_string())];
    assert!(t.render_map(&bad, &event()).is_err());
}
