use amont::check::Scope;
use amont::run_tests::{covered_by_declarations, defines_script, js_changed_for, scripts_for, gate_for, is_js, package_dirs, packages_to_test};

#[test]
fn the_gate_drops_only_what_commit_already_covers() {
    let pkg = r#"{"scripts":{"typecheck":"tsc","test":"vitest run"}}"#;
    assert_eq!(gate_for(pkg, &[]), vec!["typecheck", "test"]);
    assert_eq!(gate_for(pkg, &["typecheck"]), vec!["test"]);
    assert_eq!(gate_for(pkg, &["test"]), vec!["typecheck"]);
    assert!(gate_for(pkg, &["typecheck", "test"]).is_empty());
    assert_eq!(gate_for(pkg, &["test:unit"]), vec!["typecheck", "test"]);
}

#[test]
fn finds_scripts_only_inside_the_scripts_object() {
    let pkg = r#"{"name":"x","scripts":{"test":"vitest","typecheck":"tsc"},"devDependencies":{"lint":"1"}}"#;
    assert!(defines_script(pkg, "test"));
    assert!(defines_script(pkg, "typecheck"));
    assert!(!defines_script(pkg, "test:unit"));
    assert!(!defines_script(pkg, "lint"));
}

#[test]
fn survives_nested_objects_and_escaped_quotes() {
    let pkg = r#"{"scripts":{"test":"echo \"hi\"","build":"x"},"other":{"test":"no"}}"#;
    assert!(defines_script(pkg, "test"));
    assert!(defines_script(pkg, "build"));
    assert!(!defines_script(pkg, "other"));
}

#[test]
fn no_scripts_object_means_no_scripts() {
    assert!(!defines_script(r#"{"name":"x"}"#, "test"));
}

#[test]
fn a_scripts_string_elsewhere_cannot_anchor_the_scan() {
    let pkg = r#"{"files":["scripts"],"dependencies":{"test":"1.0"},"scripts":{"build":"x"}}"#;
    assert!(!defines_script(pkg, "test"), "a dependency answered as a script");
    assert!(defines_script(pkg, "build"), "the real scripts object was skipped");

    let pkg = r#"{"description":"scripts","dependencies":{"test":"1.0"},"scripts":{"build":"x"}}"#;
    assert!(!defines_script(pkg, "test"));
    assert!(defines_script(pkg, "build"));

    let pkg = r#"{"config":{"scripts":{"test":"inner"}},"scripts":{"build":"x"}}"#;
    assert!(!defines_script(pkg, "test"));
    assert!(defines_script(pkg, "build"));
}

#[test]
fn a_non_object_scripts_value_defines_nothing() {
    assert!(!defines_script(r#"{"scripts":"echo hi"}"#, "test"));
    assert!(!defines_script(r#"{"scripts":"x","other":{"test":"y"}}"#, "test"));
}

#[test]
fn collects_package_directories() {
    let ls: Vec<String> = [
        "package.json",
        "apps/web/package.json",
        "apps/web/src/a.ts",
        "README.md",
    ]
    .into_iter()
    .map(String::from)
    .collect();
    assert_eq!(package_dirs(&ls), vec!["".to_string(), "apps/web".to_string()]);
}

#[test]
fn selects_only_packages_containing_a_change() {
    let pkgs = vec!["apps/web".to_string(), "apps/api".to_string()];
    let changed = vec!["apps/web/src".to_string()];
    assert_eq!(packages_to_test(&pkgs, &changed), vec!["apps/web".to_string()]);
}

#[test]
fn the_repo_root_package_matches_any_change() {
    let pkgs = vec!["".to_string()];
    assert_eq!(packages_to_test(&pkgs, &["src".to_string()]), vec!["".to_string()]);
}

#[test]
fn package_directories_are_sorted_and_unique() {
    let ls: Vec<String> = ["b/package.json", "a/package.json", "b/package.json", "xpackage.json"]
        .into_iter()
        .map(String::from)
        .collect();
    assert_eq!(package_dirs(&ls), vec!["a".to_string(), "b".to_string()]);
}

#[test]
fn a_sibling_with_a_common_prefix_is_not_inside_a_package() {
    let pkgs = vec!["apps/web".to_string()];
    assert!(packages_to_test(&pkgs, &["apps/website".to_string()]).is_empty());
    assert_eq!(packages_to_test(&pkgs, &["apps/web".to_string()]), pkgs);
}

#[test]
fn a_key_must_be_followed_by_a_colon() {
    assert!(!defines_script(r#"{"scripts":{"build":"test"}}"#, "test"));
    assert!(defines_script("{ \"scripts\" :\n { \"test\" : \"x\" } }", "test"));
    assert!(!defines_script(r#"{"scripts":{"test":"x""#, "test"), "an unclosed object");
}

#[test]
fn javascript_is_known_by_its_extension() {
    for f in ["a.js", "b/c.tsx", "d.vue"] {
        assert!(is_js(f), "{f}");
    }
    for f in ["a.json", "b.rs", "js"] {
        assert!(!is_js(f), "{f}");
    }
}

#[test]
fn a_scope_covers_only_when_every_changed_file_matches() {
    let ts_only = Scope::of_files(&[".ts", ".tsx"]);
    let all_ts: Vec<String> = vec!["src/a.ts".into(), "src/b.tsx".into()];
    let mixed: Vec<String> = vec!["src/a.ts".into(), "src/legacy.js".into()];
    let js_only: Vec<String> = vec!["src/legacy.js".into()];
    assert!(ts_only.covers_all(&all_ts));
    assert!(!ts_only.covers_all(&mixed));
    assert!(!ts_only.covers_all(&js_only));
    // An empty scope is `*` — it saw everything.
    assert!(Scope::always().covers_all(&mixed));
    // Nothing relevant changed: nothing was missed.
    assert!(ts_only.covers_all(&[]));

    // A bare-filename scope covers by BASENAME, never by suffix.
    let by_name = Scope::new(&[], &["package.json"]);
    assert!(by_name.covers_all(&["apps/web/package.json".into()]));
    assert!(!by_name.covers_all(&["not-package.json".into()]));
}

#[test]
fn a_scope_matches_when_any_path_falls_in_it() {
    let ts_only = Scope::of_files(&[".ts"]);
    assert!(ts_only.matches(&["README.md".into(), "src/a.ts".into()]));
    assert!(!ts_only.matches(&["README.md".into()]));
    assert!(!ts_only.matches(&[]));
    assert!(Scope::always().matches(&[]));
    assert!(Scope::always().is_unscoped());
    assert!(!ts_only.is_unscoped());
}

fn decl(script: &str, scope: Scope) -> (String, Scope) {
    (script.to_string(), scope)
}

fn commit(id: &str, files: &[&str]) -> (String, Vec<String>) {
    (id.to_string(), files.iter().map(|f| f.to_string()).collect())
}

#[test]
fn a_declaration_stands_in_only_where_every_commit_it_would_judge_is_stamped() {
    let changed = vec!["src/a.ts".to_string()];
    let decls = vec![decl("typecheck", Scope::of_files(&[".ts"])), decl("test", Scope::of_files(&[".ts"]))];
    let per_commit = vec![commit("c1", &["src/a.ts"]), commit("c2", &["README.md"])];
    // c2 touches nothing either scope sees, so it needs no stamp.
    let stamps = vec![commit("c1", &["typecheck"])];
    assert_eq!(covered_by_declarations(&changed, &decls, &per_commit, &stamps), vec!["typecheck"]);
    let both = vec![commit("c1", &["test", "typecheck"])];
    assert_eq!(covered_by_declarations(&changed, &decls, &per_commit, &both), vec!["typecheck", "test"]);
    assert!(covered_by_declarations(&changed, &decls, &per_commit, &[]).is_empty());
}

#[test]
fn a_declaration_that_did_not_see_every_changed_file_stands_in_for_nothing() {
    let changed = vec!["src/a.ts".to_string(), "src/b.js".to_string()];
    let decls = vec![decl("test", Scope::of_files(&[".ts"])), decl("typecheck", Scope::always())];
    let per_commit = vec![commit("c1", &["src/a.ts", "src/b.js"])];
    let stamps = vec![commit("c1", &["test", "typecheck"])];
    assert_eq!(covered_by_declarations(&changed, &decls, &per_commit, &stamps), vec!["typecheck"]);
}

#[test]
fn a_stamp_on_another_commit_does_not_count() {
    let changed = vec!["a.ts".to_string()];
    let decls = vec![decl("test", Scope::of_files(&[".ts"]))];
    let per_commit = vec![commit("c1", &["a.ts"]), commit("c2", &["a.ts"])];
    let stamps = vec![commit("c1", &["test"]), commit("c3", &["test"])];
    assert!(covered_by_declarations(&changed, &decls, &per_commit, &stamps).is_empty());
}

#[test]
fn a_deleted_ref_and_a_ref_without_js_need_no_suite() {
    let zero = "0000000000000000000000000000000000000000";
    let changed = vec!["src/a.ts".to_string(), "README.md".to_string(), "web/b.jsx".to_string()];
    assert!(js_changed_for(zero, zero, &changed).is_empty());
    assert_eq!(js_changed_for("abc1234", zero, &changed), vec!["src/a.ts", "web/b.jsx"]);
    assert!(js_changed_for("abc1234", zero, &["README.md".to_string()]).is_empty());
}

#[test]
fn only_the_root_package_leaves_out_what_commit_time_ran() {
    let pkg = r#"{"scripts":{"typecheck":"tsc","test":"vitest run"}}"#;
    let covered = vec!["typecheck".to_string()];
    assert_eq!(scripts_for("", pkg, &covered), vec!["test"]);
    assert_eq!(scripts_for("web", pkg, &covered), vec!["typecheck", "test"]);
}
