use openconfig::paths::{
    candidate_paths, collect_candidates, config_dir, editor_candidate_paths, join_path, resolve_home,
    select_config_path,
};
use openconfig::wsl_path;

fn s(x: &str) -> String {
    x.to_string()
}

#[test]
fn wsl_path_prefixes_the_unc_root() {
    assert_eq!(wsl_path("/home/me/.config/opencode/opencode.json"), "\\\\wsl.localhost\\Ubuntu/home/me/.config/opencode/opencode.json");
    assert_eq!(wsl_path(""), "\\\\wsl.localhost\\Ubuntu");
}

#[test]
fn join_path_cases() {
    assert_eq!(join_path(&s("/home/a"), "b/c"), "/home/a/b/c");
    assert_eq!(join_path(&s("/home/a/"), "b"), "/home/a/b");
    assert_eq!(join_path(&s(""), "b"), "b");
    assert_eq!(join_path(&s("/x"), "/abs"), "/abs");
}

#[test]
fn home_defaults_to_root() {
    assert_eq!(resolve_home(None), "/");
    assert_eq!(resolve_home(Some(s("/home/u"))), "/home/u");
}

#[test]
fn config_dir_prefers_xdg() {
    assert_eq!(config_dir(&s("/home/u"), Some(s("/xdg"))), "/xdg");
    assert_eq!(config_dir(&s("/home/u"), None), "/home/u/.config");
    assert_eq!(config_dir(&s("/"), None), "/.config");
}

#[test]
fn candidates_in_order() {
    let c = candidate_paths(&s("/home/u"), &s("/home/u/.config"));
    assert_eq!(
        c,
        vec![
            s("/home/u/.config/opencode/opencode.jsonc"),
            s("/home/u/.config/opencode/opencode.json"),
            s("/home/u/.config/opencode/opencode.jsonc"),
            s("/home/u/.config/opencode/opencode.json"),
            s("/home/lenovo/.config/opencode/opencode.jsonc"),
            s("/home/lenovo/.config/opencode/opencode.json"),
        ]
    );
    let e = editor_candidate_paths(&s("/h"), &s("/x"));
    assert_eq!(e.len(), 5);
    assert_eq!(e[0], "/x/opencode/opencode.jsonc");
    assert_eq!(e[4], "/home/lenovo/.config/opencode/opencode.jsonc");
}

#[test]
fn select_first_existing_or_fallback() {
    let c = vec![s("a"), s("b"), s("c")];
    assert_eq!(select_config_path(&c, &vec![false, true, true], &s("/d")), "b");
    assert_eq!(select_config_path(&c, &vec![false, false, false], &s("/d")), "/d/opencode/opencode.jsonc");
    assert_eq!(select_config_path(&c, &vec![true, false, false], &s("/d")), "a");
}

#[test]
fn collect_dedupes_and_filters() {
    let paths = vec![s("a"), s("b"), s("a"), s("c"), s("d")];
    let exists = vec![true, false, true, true, true];
    let sizes = vec![Some(10), None, Some(10), None, Some(7)];
    let found = collect_candidates(&paths, &exists, &sizes);
    let got: Vec<(String, u64)> = found.into_iter().map(|f| (f.path, f.size)).collect();
    assert_eq!(got, vec![(s("a"), 10), (s("c"), 0), (s("d"), 7)]);
}

#[test]
fn collect_nothing_exists() {
    let paths = vec![s("a"), s("b")];
    let found = collect_candidates(&paths, &vec![false, false], &vec![None, None]);
    assert!(found.is_empty());
}
