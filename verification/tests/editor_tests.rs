use openconfig::editor::{Config, ModelInfo, Provider};
use openconfig::strmap::StrMap;

fn s(x: &str) -> String {
    x.to_string()
}

fn provider(name: &str, models: &[(&str, Option<&str>)]) -> Provider {
    let mut p = Provider::empty();
    p.name = s(name);
    p.npm = s("@ai-sdk/openai-compatible");
    for (k, n) in models {
        p.models.insert(s(k), ModelInfo { name: n.map(s) });
    }
    p
}

fn sample() -> Config {
    let mut c = Config::new();
    c.provider.insert(s("openrouter"), provider("OpenRouter", &[("gpt-4o", None), ("model-3", Some("Three"))]));
    c.provider.insert(s("local"), provider("Local LLM", &[("llama-12", None)]));
    c
}

#[test]
fn first_provider_is_least_id() {
    let c = sample();
    assert_eq!(c.first_provider(), Some(s("local")));
    assert_eq!(Config::new().first_provider(), None);
}

#[test]
fn add_provider_takes_first_free_id() {
    let mut c = Config::new();
    assert_eq!(c.add_provider(), "provider-0");
    assert_eq!(c.add_provider(), "provider-1");
    c.provider.insert(s("provider-3"), Provider::empty());
    // three providers: provider-3 is taken, so provider-4
    assert_eq!(c.add_provider(), "provider-4");
    let p = c.provider.get(&s("provider-4")).unwrap();
    assert_eq!(p.npm, "@ai-sdk/openai-compatible");
    assert_eq!(p.name, "New Provider");
    assert_eq!(p.models.len(), 0);
    assert_eq!(c.provider.len(), 4);
}

#[test]
fn visible_providers_ignores_case() {
    let c = sample();
    assert_eq!(c.visible_providers(&s("")), vec![s("local"), s("openrouter")]);
    assert_eq!(c.visible_providers(&s("ROUTER")), vec![s("openrouter")]);
    assert_eq!(c.visible_providers(&s("llm")), vec![s("local")]);
    assert_eq!(c.visible_providers(&s("nothing")), Vec::<String>::new());
}

#[test]
fn delete_selects_first_left() {
    let mut c = sample();
    assert_eq!(c.delete_provider(&s("local")), Some(s("openrouter")));
    assert_eq!(c.delete_provider(&s("openrouter")), None);
    assert_eq!(c.provider.len(), 0);
}

#[test]
fn commit_with_rename_moves_provider() {
    let mut c = sample();
    let mut renames: StrMap<String> = StrMap::new();
    renames.insert(s("local"), s("ollama"));
    let edited = provider("Ollama", &[]);
    assert_eq!(c.commit_provider_edit(&mut renames, &s("local"), edited), Some(s("ollama")));
    assert!(!c.provider.contains_key(&s("local")));
    assert_eq!(c.provider.get(&s("ollama")).unwrap().name, "Ollama");
    assert!(!renames.contains_key(&s("local")));
}

#[test]
fn commit_with_blank_rename_changes_nothing() {
    let mut c = sample();
    let mut renames: StrMap<String> = StrMap::new();
    renames.insert(s("local"), s("   "));
    let edited = provider("Changed", &[]);
    assert_eq!(c.commit_provider_edit(&mut renames, &s("local"), edited), None);
    assert_eq!(c.provider.get(&s("local")).unwrap().name, "Local LLM");
    assert_eq!(renames.get(&s("local")), Some(&s("   ")));
}

#[test]
fn commit_without_rename_saves_edits() {
    let mut c = sample();
    let mut renames: StrMap<String> = StrMap::new();
    let edited = provider("Renamed display", &[]);
    assert_eq!(c.commit_provider_edit(&mut renames, &s("local"), edited), None);
    assert_eq!(c.provider.get(&s("local")).unwrap().name, "Renamed display");
}

#[test]
fn reload_keeps_or_picks_first() {
    let c = sample();
    assert_eq!(c.selection_after_reload(Some(s("x"))), Some(s("x")));
    assert_eq!(c.selection_after_reload(None), Some(s("local")));
}

#[test]
fn counter_from_model_ids() {
    let c = sample();
    // "gpt-4o" ends in "4o" (not a number), "model-3" gives 3, "llama-12" gives 12
    assert_eq!(c.initial_model_counter(), 12);
    assert_eq!(Config::new().initial_model_counter(), 0);
    let mut d = Config::new();
    d.provider.insert(s("p"), provider("P", &[("x-+9", None), ("7", None)]));
    assert_eq!(d.initial_model_counter(), 9);
}

#[test]
fn add_model_uses_counter() {
    let mut p = provider("P", &[]);
    let mut counter = 12u64;
    p.add_model(&mut counter);
    assert_eq!(counter, 13);
    assert!(p.models.get(&s("model-13")).unwrap().name.is_none());
}

#[test]
fn next_model_id_is_new_after_start() {
    let mut c = sample();
    let mut counter = c.initial_model_counter();
    let mut p = c.provider.remove(&s("local")).unwrap();
    let before = p.models.len();
    p.add_model(&mut counter);
    assert_eq!(p.models.len(), before + 1);
    c.provider.insert(s("local"), p);
}

#[test]
fn edit_model_rename_and_name() {
    let mut p = provider("P", &[("a", Some("A")), ("b", None)]);
    p.edit_model(&s("a"), s("a2"), &s("A"));
    assert!(!p.models.contains_key(&s("a")));
    assert_eq!(p.models.get(&s("a2")).unwrap().name, Some(s("A")));
    p.edit_model(&s("b"), s("b"), &s("  Bee  "));
    assert_eq!(p.models.get(&s("b")).unwrap().name, Some(s("Bee")));
    p.edit_model(&s("b"), s("b"), &s("   "));
    assert_eq!(p.models.get(&s("b")).unwrap().name, None);
    // unchanged name: nothing happens
    p.edit_model(&s("a2"), s("a2"), &s("A"));
    assert_eq!(p.models.get(&s("a2")).unwrap().name, Some(s("A")));
    p.remove_model(&s("a2"));
    assert!(!p.models.contains_key(&s("a2")));
}

#[test]
fn connection_options() {
    let mut p = provider("P", &[]);
    assert!(!p.can_fetch());
    p.ensure_connection_options();
    assert_eq!(p.options.keys(), vec![s("apiKey"), s("baseURL")]);
    assert!(!p.can_fetch());
    p.options.insert(s("baseURL"), s("  "));
    assert!(!p.can_fetch());
    p.options.insert(s("baseURL"), s("http://localhost:1234/v1"));
    p.options.insert(s("apiKey"), s("sk"));
    assert!(p.can_fetch());
    p.ensure_connection_options();
    assert_eq!(p.connection(), (s("http://localhost:1234/v1"), s("sk")));
    assert_eq!(provider("Q", &[]).connection(), (s(""), s("")));
}

#[test]
fn available_and_add_fetched() {
    let mut c = sample();
    let fetched = vec![s("gpt-4o"), s("openai/gpt-5"), s("x")];
    assert_eq!(c.available_models(&s("openrouter"), &fetched), vec![s("openai/gpt-5"), s("x")]);
    assert_eq!(c.available_models(&s("missing"), &fetched), fetched);
    let n = c.add_fetched_models(&s("openrouter"), &vec![s("openai/gpt-5"), s("gpt-4o")]);
    assert_eq!(n, 2);
    let p = c.provider.get(&s("openrouter")).unwrap();
    assert_eq!(p.models.get(&s("openai/gpt-5")).unwrap().name, Some(s("gpt-5")));
    // already there: kept as it was
    assert_eq!(p.models.get(&s("gpt-4o")).unwrap().name, None);
    let mut d = sample();
    assert_eq!(d.add_fetched_models(&s("missing"), &vec![s("m")]), 1);
    assert!(!d.provider.contains_key(&s("missing")));
}
