use amont::naming::{
    describe, ecosystem, families, machine_skips, names_check, short_name, skip_suppresses,
    status_of, Match, Status,
};

#[test]
fn three_ways_to_name_a_check() {
    assert_eq!(names_check("pre-commit-clippy", "pre-commit-clippy"), Some(Match::FullId));
    assert_eq!(names_check("pre-commit-clippy", "pre-commit"), Some(Match::Trigger));
    assert_eq!(names_check("pre-commit-clippy", "clippy"), Some(Match::ShortName));
}

#[test]
fn nothing_matches_by_accident() {
    for pattern in ["e", "t", "i", ""] {
        assert_eq!(names_check("pre-commit-clippy", pattern), None, "{pattern:?}");
    }
    assert_eq!(names_check("pre-commit-clippy", "clip"), None);
    assert_eq!(names_check("pre-commit-clippy", "lint"), None);
    assert_eq!(names_check("pre-commit-clippy", "pre-push"), None);
    assert_eq!(names_check("pre-commit-clippy", ""), None);
}

#[test]
fn a_short_name_does_not_reach_a_longer_one() {
    assert!(names_check("pre-commit-lint-json-yaml", "lint-js").is_none());
    assert_eq!(names_check("pre-commit-lint-js", "lint-js"), Some(Match::ShortName));
    assert_eq!(
        names_check("pre-commit-lint-json-yaml", "lint-json-yaml"),
        Some(Match::ShortName)
    );
}

#[test]
fn the_fleets_only_skip_still_resolves() {
    assert_eq!(names_check("pre-push-run-tests-js", "run-tests-js"), Some(Match::ShortName));
}

#[test]
fn a_full_id_outranks_a_short_name_outranks_a_trigger() {
    assert!(Match::FullId > Match::ShortName);
    assert!(Match::ShortName > Match::Trigger);
}

#[test]
fn scope_tokens_map_to_the_ecosystem_a_reader_would_name() {
    assert_eq!(ecosystem(".rs"), Some("Rust"));
    assert_eq!(ecosystem("Cargo.lock"), Some("Rust"));
    assert_eq!(ecosystem("go.sum"), Some("Go"));
    assert_eq!(ecosystem("pyproject.toml"), Some("Python"));
    assert_eq!(ecosystem(".tsx"), Some("JavaScript"));
    assert_eq!(ecosystem(".prettierrc.json"), Some("JavaScript"));
    assert_eq!(ecosystem("kustomization.yaml"), Some("Kubernetes"));
    assert_eq!(ecosystem(".kube-linter.yaml"), Some("Kubernetes"));
}

#[test]
fn generic_tokens_are_deliberately_unnamed() {
    for t in [".yaml", ".yml", ".json", ".md", ".sh", "unknown-thing"] {
        assert_eq!(ecosystem(t), None, "{t} should not name an ecosystem");
    }
}

#[test]
fn a_short_name_drops_only_a_known_trigger() {
    assert_eq!(short_name("pre-commit-clippy"), "clippy");
    assert_eq!(short_name("pre-push-run-tests-js"), "run-tests-js");
    assert_eq!(short_name("commit-msg"), "commit-msg");
    assert_eq!(short_name("pre-commit"), "pre-commit");
    assert!(skip_suppresses("pre-push-audit-go", "pre-push"));
    assert!(!skip_suppresses("pre-push-audit-go", "audit"));
}

#[test]
fn machine_skips_are_the_trimmed_non_blank_lines() {
    assert_eq!(machine_skips(" clippy \n\npre-push\n"), vec!["clippy", "pre-push"]);
    assert!(machine_skips("").is_empty());
}

#[test]
fn a_listed_check_says_why_it_is_what_it_is() {
    assert_eq!(
        status_of(Some("line 3: no command"), true, true, true, "x"),
        (Status::Unusable, "amont.conf line 3: no command".to_string())
    );
    assert_eq!(
        status_of(None, true, true, true, "x"),
        (Status::Skipped, "skipped via amont.conf".to_string())
    );
    assert_eq!(
        status_of(None, true, false, true, "x"),
        (Status::Skipped, "skipped via hook.skip".to_string())
    );
    assert_eq!(status_of(None, false, false, true, "x"), (Status::Runs, String::new()));
    assert_eq!(
        status_of(None, false, false, false, ".rs Cargo.toml"),
        (Status::Inert, "inert here — needs .rs Cargo.toml".to_string())
    );
}

#[test]
fn a_scope_is_described_by_what_it_needs() {
    assert_eq!(describe(false, &[".rs", "Cargo.toml"], &[]), ".rs Cargo.toml");
    assert_eq!(describe(false, &[".ts"], &["tsconfig.json", "deno.json"]), ".ts + tsconfig.json | deno.json");
    assert_eq!(describe(true, &[".x"], &["a"]), "a");
    assert_eq!(describe(true, &[], &[]), "nothing");
}

#[test]
fn families_are_sorted_and_named_once() {
    let tokens: Vec<String> = [".go", ".rs", "Cargo.toml", ".yaml", "go.mod"]
        .into_iter()
        .map(String::from)
        .collect();
    assert_eq!(families(&tokens), vec!["Go".to_string(), "Rust".to_string()]);
}
