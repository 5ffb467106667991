use openconfig::editor::{Config, Provider};
use openconfig::fetch::{
    answer_model_ids, authorization, checked_models_url, editor_answer_model_ids, model_ids, models_from_body, models_url,
    FetchPanel, FetchState,
};
use openconfig::json::{check_writable, config_file_text, config_value, default_config, get_field, JsonValue};

fn s(x: &str) -> String {
    x.to_string()
}

fn obj(members: Vec<(&str, JsonValue)>) -> JsonValue {
    JsonValue::Object(members.into_iter().map(|(k, v)| (s(k), v)).collect())
}

#[test]
fn url_of_model_list() {
    assert_eq!(models_url(&s("http://localhost:1234/v1")), "http://localhost:1234/v1/models");
    assert_eq!(models_url(&s("http://localhost:1234/v1//")), "http://localhost:1234/v1/models");
    assert_eq!(checked_models_url(&s(" \t")).unwrap_err(), "baseURL kosong");
    assert_eq!(checked_models_url(&s("http://h/")).unwrap(), "http://h/models");
}

#[test]
fn authorization_header() {
    assert_eq!(authorization(&None), None);
    assert_eq!(authorization(&Some(s(""))), None);
    assert_eq!(authorization(&Some(s("sk-1"))), Some(s("Bearer sk-1")));
}

#[test]
fn model_ids_from_array() {
    let v = JsonValue::Array(vec![
        JsonValue::Str(s("a")),
        obj(vec![("id", JsonValue::Str(s("b")))]),
        obj(vec![("id", JsonValue::Number(serde_json::Number::from(3u64)))]),
        JsonValue::Null,
    ]);
    assert_eq!(model_ids(&v), Some(vec![s("a"), s("b")]));
}

#[test]
fn model_ids_from_data_then_models() {
    let v = obj(vec![("data", JsonValue::Array(vec![obj(vec![("object", JsonValue::Str(s("model"))), ("id", JsonValue::Str(s("m1")))])]))]);
    assert_eq!(model_ids(&v), Some(vec![s("m1")]));
    let w = obj(vec![("data", JsonValue::Bool(true)), ("models", JsonValue::Array(vec![JsonValue::Str(s("m2"))]))]);
    assert_eq!(model_ids(&w), Some(vec![s("m2")]));
    let x = obj(vec![("other", JsonValue::Array(vec![]))]);
    assert_eq!(model_ids(&x), None);
    assert_eq!(model_ids(&JsonValue::Str(s("no"))), None);
}

#[test]
fn writable_configs() {
    assert!(check_writable(&default_config()).is_ok());
    assert_eq!(check_writable(&obj(vec![("$schema", JsonValue::Null)])).unwrap_err(), "provider required");
    assert_eq!(check_writable(&JsonValue::Array(vec![])).unwrap_err(), "provider required");
    let d = default_config();
    match get_field(&d, &s("$schema")) {
        Some(JsonValue::Str(u)) => assert_eq!(u, "https://opencode.ai/config.json"),
        _ => panic!("no schema"),
    }
}

#[test]
fn picker_round() {
    let mut cfg = Config::new();
    cfg.provider.insert(s("p"), Provider::empty());
    let mut panel = FetchPanel::new();
    assert!(matches!(panel.state, FetchState::Idle));
    panel.start(s("p"));
    assert!(matches!(panel.state, FetchState::Loading));
    panel.receive(s("p"), Ok(vec![s("org/a"), s("b")]));
    assert!(matches!(panel.state, FetchState::Done));
    let avail = cfg.available_models(&panel.provider_id, &panel.fetched);
    assert!(!panel.all_picked(&avail));
    panel.set_all_picked(true, &avail);
    assert!(panel.all_picked(&avail));
    panel.set_picked(s("b"), false);
    assert!(!panel.all_picked(&avail));
    assert_eq!(panel.add_picked(&mut cfg), 1);
    assert!(matches!(panel.state, FetchState::Idle));
    let p = cfg.provider.get(&s("p")).unwrap();
    assert_eq!(p.models.get(&s("org/a")).unwrap().name, Some(s("a")));
    assert!(!p.models.contains_key(&s("b")));
}

#[test]
fn picker_error_and_disconnect() {
    let mut panel = FetchPanel::new();
    panel.start(s("p"));
    panel.receive(s("p"), Err(s("timeout")));
    assert!(matches!(panel.state, FetchState::Idle));
    assert_eq!(panel.error, Some(s("timeout")));
    panel.dismiss_error();
    assert_eq!(panel.error, None);
    panel.start(s("q"));
    panel.disconnect();
    assert!(matches!(panel.state, FetchState::Idle));
    panel.set_picked(s("x"), true);
    panel.clear_picked();
    assert_eq!(panel.selected.len(), 0);
    panel.cancel();
    assert!(matches!(panel.state, FetchState::Idle));
}

#[test]
fn model_ids_from_answer_text() {
    assert_eq!(answer_model_ids(r#"{"data":[{"id":"a"},{"id":"b"}]}"#).unwrap(), vec![s("a"), s("b")]);
    assert_eq!(answer_model_ids(r#"["x", 1, {"id": "y"}]"#).unwrap(), vec![s("x"), s("y")]);
    assert_eq!(answer_model_ids(r#"{"object":"list"}"#).unwrap_err(), "No models array");
    assert_eq!(editor_answer_model_ids(r#"{"object":"list"}"#).unwrap_err(), "No models");
    let parse_err = serde_json::from_str::<serde_json::Value>("not json").unwrap_err().to_string();
    assert_eq!(answer_model_ids("not json").unwrap_err(), parse_err);
    assert_eq!(models_from_body("{}", "none").unwrap_err(), "none");
}

#[test]
fn config_value_from_file_text() {
    let v = config_value("{ // c\n \"provider\": {\"p\": {\"name\": \"P\"}} }").unwrap();
    assert!(check_writable(&v).is_ok());
    assert_eq!(config_value("{\"a\": \"open").err().unwrap(), "JSONC invalid");
    let parse_err = serde_json::from_str::<serde_json::Value>("{,}").unwrap_err().to_string();
    assert_eq!(config_value("{,} // x").err().unwrap(), format!("Parse: {parse_err}"));
}

#[test]
fn config_file_text_of_values() {
    let text = config_file_text(&default_config()).unwrap();
    assert_eq!(text, "{\n  \"$schema\": \"https://opencode.ai/config.json\",\n  \"provider\": {}\n}\n");
    assert_eq!(config_file_text(&obj(vec![("a", JsonValue::Null)])).unwrap_err(), "provider required");
    let v = config_value("{\"provider\": {}, \"n\": 1.5}").unwrap();
    let again = config_value(&config_file_text(&v).unwrap()).unwrap();
    assert_eq!(config_file_text(&again).unwrap(), config_file_text(&v).unwrap());
}
