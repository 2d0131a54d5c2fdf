use amont::check::{Scope, Severity, Stage};
use amont::check_list::{gather_checks, listing, CheckInfo, Fix};
use amont::dispatch::OverrideSource;
use amont::naming::{Source, Status};

fn strings(ns: &[&str]) -> Vec<String> {
    ns.iter().map(|s| s.to_string()).collect()
}

fn builtin(id: &str, stage: Stage, scope: Scope) -> CheckInfo {
    CheckInfo {
        id: id.to_string(),
        stage,
        source: Source::Builtin,
        declared: Severity::Block,
        effective: Severity::Block,
        override_source: None,
        fix: Fix::NoRepair,
        scope,
        opt_in: vec![],
        unusable: None,
        command: None,
    }
}

fn paths() -> Vec<String> {
    strings(&["src/main.rs", "README.md"])
}

#[test]
fn a_check_whose_scope_matches_runs_and_says_nothing() {
    let c = builtin("pre-commit-rustfmt", Stage::PreCommit, Scope::of_files(&[".rs"]));
    let l = listing(&c, &paths(), &[], &[]);
    assert_eq!(l.status, Status::Runs);
    assert_eq!(l.reason, "");
    assert_eq!(l.short_name, "rustfmt");
    assert_eq!(l.scope_files, strings(&[".rs"]));
    assert!(!l.severity_overridden);
    assert_eq!(l.severity_source, None);
}

#[test]
fn a_check_with_nothing_to_look_at_is_inert_and_says_what_it_needs() {
    let c = builtin("pre-commit-prettier", Stage::PreCommit, Scope::of_files(&[".ts", ".tsx"]));
    let l = listing(&c, &paths(), &[], &[]);
    assert_eq!(l.status, Status::Inert);
    assert_eq!(l.reason, "inert here — needs .ts .tsx");
}

#[test]
fn an_opt_in_the_repository_lacks_keeps_a_check_inert() {
    let mut c = builtin("pre-push-test-rust", Stage::PrePush, Scope::of_files(&[".rs"]));
    c.opt_in = strings(&["Cargo.toml"]);
    let l = listing(&c, &paths(), &[], &[]);
    assert_eq!(l.status, Status::Inert);
    assert_eq!(l.reason, "inert here — needs .rs + Cargo.toml");
    let mut with_manifest = paths();
    with_manifest.push("Cargo.toml".to_string());
    assert_eq!(listing(&c, &with_manifest, &[], &[]).status, Status::Runs);
}

#[test]
fn a_skip_says_where_it_came_from() {
    let c = builtin("pre-commit-rustfmt", Stage::PreCommit, Scope::of_files(&[".rs"]));
    let by_machine = listing(&c, &paths(), &strings(&["rustfmt"]), &[]);
    assert_eq!(by_machine.status, Status::Skipped);
    assert_eq!(by_machine.reason, "skipped via hook.skip");
    let by_policy = listing(&c, &paths(), &strings(&["rustfmt"]), &strings(&["pre-commit"]));
    assert_eq!(by_policy.status, Status::Skipped);
    assert_eq!(by_policy.reason, "skipped via amont.conf");
    // A skip naming another check leaves this one alone.
    assert_eq!(listing(&c, &paths(), &strings(&["clippy"]), &[]).status, Status::Runs);
}

#[test]
fn an_unusable_declaration_is_reported_before_anything_else() {
    let mut c = builtin("pre-commit-lint-docs", Stage::PreCommit, Scope::always());
    c.source = Source::Declared;
    c.unusable = Some("has no command".to_string());
    let l = listing(&c, &paths(), &strings(&["lint-docs"]), &[]);
    assert_eq!(l.status, Status::Unusable);
    assert_eq!(l.reason, "amont.conf has no command");
    assert_eq!(l.source, Source::Declared);
}

#[test]
fn an_override_is_shown_only_where_it_changed_the_severity() {
    let mut c = builtin("pre-push-audit-go", Stage::PrePush, Scope::always());
    c.effective = Severity::Warn;
    c.override_source = Some(OverrideSource::Policy);
    let l = listing(&c, &paths(), &[], &[]);
    assert!(l.severity_overridden);
    assert_eq!(l.declared_severity, Severity::Block);
    assert_eq!(l.effective_severity, Severity::Warn);
    assert_eq!(l.severity_source, Some(OverrideSource::Policy));

    let mut same = c.clone();
    same.effective = Severity::Block;
    let l = listing(&same, &paths(), &[], &[]);
    assert!(!l.severity_overridden);
    assert_eq!(l.severity_source, None);
}

#[test]
fn a_declared_command_is_carried_through() {
    let mut c = builtin("pre-push-docs", Stage::PrePush, Scope::always());
    c.source = Source::Declared;
    c.command = Some("make docs".to_string());
    c.fix = Fix::Rewrite;
    let l = listing(&c, &paths(), &[], &[]);
    assert_eq!(l.command, Some("make docs".to_string()));
    assert_eq!(l.fix.as_str(), "rewrite");
    assert_eq!(Fix::NoRepair.as_str(), "none");
}

#[test]
fn both_stages_are_listed_commit_first_each_in_declared_order() {
    let checks = vec![
        builtin("pre-push-test-js", Stage::PrePush, Scope::of_files(&[".ts"])),
        builtin("pre-commit-rustfmt", Stage::PreCommit, Scope::of_files(&[".rs"])),
        builtin("pre-push-audit-go", Stage::PrePush, Scope::of_files(&[".go"])),
        builtin("pre-commit-secrets", Stage::PreCommit, Scope::always()),
    ];
    let all = gather_checks(None, &checks, &paths(), &[], &[]);
    let ids: Vec<&str> = all.iter().map(|l| l.id.as_str()).collect();
    assert_eq!(
        ids,
        vec!["pre-commit-rustfmt", "pre-commit-secrets", "pre-push-test-js", "pre-push-audit-go"]
    );
    let statuses: Vec<Status> = all.iter().map(|l| l.status).collect();
    assert_eq!(statuses, vec![Status::Runs, Status::Runs, Status::Inert, Status::Inert]);

    let push = gather_checks(Some(Stage::PrePush), &checks, &paths(), &[], &[]);
    let ids: Vec<&str> = push.iter().map(|l| l.id.as_str()).collect();
    assert_eq!(ids, vec!["pre-push-test-js", "pre-push-audit-go"]);
    assert!(gather_checks(Some(Stage::PreCommit), &[], &paths(), &[], &[]).is_empty());
}
