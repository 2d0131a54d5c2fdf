use amont::go_tools::{is_go_path, module_roots, unformatted};

#[test]
fn recognises_go_paths() {
    assert!(is_go_path("cmd/api/main.go"));
    assert!(is_go_path("go.mod"));
    assert!(is_go_path("services/auth/go.sum"));
    assert!(!is_go_path("README.md"));
    assert!(!is_go_path("main.gone"));
    assert!(!is_go_path("docs/go.mod.md"));
    assert!(!is_go_path("vendor/Notgo.mod"));
}

/// The directories holding a `go.mod` are handed in, relative to the
/// repository.
#[test]
fn finds_the_nearest_module_not_the_repo_root() {
    let modules = vec!["services/api".to_string()];
    let got = module_roots(&["services/api/cmd/main.go"], &modules);
    assert_eq!(got, vec!["services/api".to_string()], "should find the nested module");
    let none = module_roots(&["scripts/loose.go"], &modules);
    assert!(none.is_empty(), "no module above it: {none:?}");
}

#[test]
fn several_files_in_one_module_yield_one_root() {
    let got = module_roots(&["pkg/a.go", "pkg/b.go", "go.mod"], &["".to_string()]);
    assert_eq!(got.len(), 1, "one go invocation, not three: {got:?}");
}

#[test]
fn non_go_files_select_nothing() {
    let got = module_roots(&["README.md", "a.rs"], &["".to_string()]);
    assert!(got.is_empty());
}

#[test]
fn gofmt_listing_decides_unless_it_could_not_parse() {
    let files = vec!["a.go".to_string(), "b.go".to_string()];
    assert_eq!(unformatted(true, "  b.go \n\n", &files), vec!["b.go".to_string()]);
    assert!(unformatted(true, "", &files).is_empty());
    assert_eq!(unformatted(false, "a.go:1:1: expected 'package'", &files), files);
}
