use amont::check::{Outcome, Severity, Verdict};
use amont::dispatch::{
    after_gate, attestable, before_gate, classify, commit_stamps, conventions_apply, downgrade_origin,
    downgraded_events, push_verdict, resolve_check_name, scoped_push_gates, settle, stampable, stamped_on_every_tip, takes_hold, tips,
    vouch, Before, Named, Named2, OverrideSource, PushProgress, Report,
};
use amont::downgrade::Origin;
use amont::naming::skip_suppresses;
use amont::pushrefs::PushRef;

fn names(ns: &[&str]) -> Vec<String> {
    ns.iter().map(|s| s.to_string()).collect()
}

fn exts(es: &[&str]) -> Vec<String> {
    names(es)
}

/// The JS, Rust and Python suites are scoped to their languages' files;
/// the secrets check is unscoped and always has work.
#[test]
fn a_gate_whose_language_the_push_never_touched_is_not_vouched_for() {
    let checks = names(&["pre-push-run-tests-js", "pre-push-cargo-test", "pre-push-pytest", "pre-push-secrets"]);
    let scopes = vec![exts(&[".ts", ".js"]), exts(&[".rs"]), exts(&[".py"]), vec![]];
    let passed = checks.clone();

    let changed = names(&["app/routes/home.ts"]);
    let vouched = attestable(&checks, &scopes, &passed, &changed);
    assert_eq!(
        vouched,
        vec!["pre-push-run-tests-js".to_string(), "pre-push-secrets".to_string()],
        "only the suite that had work, plus the unscoped check that always runs"
    );
    assert_eq!(
        attestable(&checks, &scopes, &passed, &[]),
        vec!["pre-push-secrets".to_string()]
    );
    let only_rust_passed = names(&["pre-push-cargo-test"]);
    assert!(attestable(&checks, &scopes, &only_rust_passed, &changed).is_empty());
}

/// A blocking check and a warning one, by effective severity.
#[test]
fn every_outcome_lands_in_the_right_bucket() {
    let checks = names(&["stub-blocker", "stub-blocker", "stub-warner", "stub-blocker"]);
    let sev = [Severity::Block, Severity::Block, Severity::Warn, Severity::Block];
    let got = classify(
        &checks,
        &sev,
        &[Outcome::Passed, Outcome::Unavailable, Outcome::Failed, Outcome::Failed],
    );
    assert_eq!(got.blocked, ["stub-blocker"], "{got:?}");
    assert_eq!(got.downgraded, ["stub-warner"], "{got:?}");
    assert_eq!(got.unavailable, ["stub-blocker"], "{got:?}");
}

#[test]
fn a_clean_stage_has_nothing_to_report() {
    let checks = names(&["stub-blocker", "stub-warner"]);
    let got = classify(&checks, &[Severity::Block, Severity::Warn], &[Outcome::Passed, Outcome::Warned]);
    assert_eq!(got, Report::default());
    assert_eq!(got.verdict(), Verdict::Proceed);
}

#[test]
fn a_blocking_failure_is_the_only_thing_that_fails_the_commit() {
    let b = names(&["stub-blocker"]);
    let w = names(&["stub-warner"]);
    let block = [Severity::Block];
    let warn = [Severity::Warn];
    assert_eq!(classify(&b, &block, &[Outcome::Failed]).verdict(), Verdict::Block);
    assert_eq!(classify(&b, &block, &[Outcome::Passed]).verdict(), Verdict::Proceed);
    assert_eq!(classify(&b, &block, &[Outcome::Warned]).verdict(), Verdict::Proceed);
    assert_eq!(classify(&b, &block, &[Outcome::Unavailable]).verdict(), Verdict::Proceed);
    assert_eq!(classify(&w, &warn, &[Outcome::Failed]).verdict(), Verdict::Proceed);
}

#[test]
fn one_blocking_failure_among_many_still_fails() {
    let checks = names(&["stub-blocker", "stub-warner", "stub-blocker"]);
    let sev = [Severity::Block, Severity::Warn, Severity::Block];
    assert_eq!(
        classify(&checks, &sev, &[Outcome::Unavailable, Outcome::Failed, Outcome::Failed]).verdict(),
        Verdict::Block
    );
    assert_eq!(
        classify(&checks, &sev, &[Outcome::Unavailable, Outcome::Failed, Outcome::Passed]).verdict(),
        Verdict::Proceed
    );
}

#[test]
fn skips_are_filtered_by_the_shared_resolver() {
    let all = ["pre-commit-ruff", "pre-commit-prettier"];
    let skips = ["ruff".to_string()];
    let kept: Vec<_> = all
        .iter()
        .copied()
        .filter(|n| !skips.iter().any(|s| skip_suppresses(n, s)))
        .collect();
    assert_eq!(kept, vec!["pre-commit-prettier"]);
}

/// The Rust gate looks at `.rs` files; its `Cargo.toml` opt-in says where
/// it applies, not what it looks at.
#[test]
fn an_ordinary_source_push_is_vouched_for() {
    let checks = names(&["pre-push-cargo-test"]);
    let scopes = vec![exts(&[".rs"])];
    let passed = names(&["pre-push-cargo-test"]);
    let changed = names(&["crates/amont/src/main.rs"]);
    assert_eq!(
        attestable(&checks, &scopes, &passed, &changed),
        vec!["pre-push-cargo-test".to_string()],
        "a push that changed Rust must vouch for the Rust gate"
    );
    let changed = names(&["crates/amont/src/main.rs", "Cargo.toml"]);
    assert_eq!(
        attestable(&checks, &scopes, &passed, &changed),
        vec!["pre-push-cargo-test".to_string()]
    );
}

#[test]
fn an_opt_in_gate_is_not_vouched_for_by_a_push_in_another_language() {
    let checks = names(&["pre-push-cargo-test"]);
    let scopes = vec![exts(&[".rs"])];
    let passed = names(&["pre-push-cargo-test"]);
    for changed in [names(&["app/routes/home.ts"]), names(&["Cargo.toml"]), vec![]] {
        assert!(
            attestable(&checks, &scopes, &passed, &changed).is_empty(),
            "must not vouch for the Rust gate on {changed:?}"
        );
    }
}

fn push_ref(local_oid: &str) -> PushRef {
    PushRef {
        local_ref: "refs/heads/x".into(),
        local_oid: local_oid.into(),
        remote_ref: "refs/heads/x".into(),
        remote_oid: "b".into(),
    }
}

#[test]
fn tips_skip_deletions_and_repeats() {
    let refs = [push_ref("aaa"), push_ref("aaa"), push_ref("0000"), push_ref("bbb"), push_ref("")];
    assert_eq!(tips(&refs), names(&["aaa", "bbb"]));
}

#[test]
fn a_stamp_counts_only_when_it_sits_on_every_tip() {
    let stamps = vec![
        ("aaa".to_string(), names(&["pre-push-cargo-test"])),
        ("bbb".to_string(), names(&["pre-push-cargo-test", "pre-push-pytest"])),
    ];
    let both = names(&["aaa", "bbb"]);
    assert!(stamped_on_every_tip(&both, &stamps, "pre-push-cargo-test"));
    assert!(!stamped_on_every_tip(&both, &stamps, "pre-push-pytest"));
    assert!(!stamped_on_every_tip(&[], &stamps, "pre-push-cargo-test"));
    assert!(!stamped_on_every_tip(&names(&["ccc"]), &stamps, "pre-push-cargo-test"));
}

#[test]
fn one_gate_at_a_time() {
    assert_eq!(before_gate(true, true, false), Before::Skip);
    assert_eq!(before_gate(false, false, true), Before::AlreadyPassed);
    assert_eq!(before_gate(false, true, true), Before::Run);
    assert_eq!(before_gate(true, false, false), Before::Run);

    let mut p = PushProgress::new();
    vouch(&mut p, "stamped");
    assert_eq!(after_gate(&mut p, "suite", false, Outcome::Passed, Severity::Block, Origin::Declared), Verdict::Proceed);
    assert_eq!(after_gate(&mut p, "secrets", true, Outcome::Passed, Severity::Block, Origin::Declared), Verdict::Proceed);
    assert_eq!(after_gate(&mut p, "lint", false, Outcome::Failed, Severity::Warn, Origin::Config), Verdict::Proceed);
    assert_eq!(after_gate(&mut p, "audit", false, Outcome::Unavailable, Severity::Block, Origin::Declared), Verdict::Proceed);
    assert_eq!(p.passed, names(&["stamped", "suite", "secrets"]));
    assert_eq!(p.ran_and_passed, names(&["suite"]));
    assert_eq!(p.downgraded, vec![("lint".to_string(), Origin::Config)]);
    assert_eq!(after_gate(&mut p, "tests", false, Outcome::Failed, Severity::Block, Origin::Declared), Verdict::Block);
}

#[test]
fn a_downgrade_is_evidence_only_when_an_override_made_it() {
    assert_eq!(downgrade_origin(Severity::Warn, Some(OverrideSource::Config)), Origin::Declared);
    assert_eq!(downgrade_origin(Severity::Block, Some(OverrideSource::Config)), Origin::Config);
    assert_eq!(downgrade_origin(Severity::Block, Some(OverrideSource::Policy)), Origin::Policy);
    assert_eq!(downgrade_origin(Severity::Block, None), Origin::Declared);
}

#[test]
fn a_rehearsal_runs_the_scoped_gates_the_change_touches() {
    let checks = names(&["secrets", "cargo-test", "pytest"]);
    let scopes = vec![vec![], exts(&[".rs"]), exts(&[".py"])];
    assert_eq!(scoped_push_gates(&checks, &scopes, &names(&["src/a.rs"])), names(&["cargo-test"]));
}

#[test]
fn a_run_name_resolves_to_one_check_or_says_why_not() {
    let ids = names(&["pre-commit-clippy", "pre-push-clippy", "pre-commit-secrets", "pre-push-cargo-test"]);
    assert_eq!(resolve_check_name("pre-commit-clippy", true, &ids), Named2::Resolved("pre-commit-clippy".into()));
    assert_eq!(resolve_check_name("secrets", false, &ids), Named2::Resolved("pre-commit-secrets".into()));
    assert_eq!(
        resolve_check_name("clippy", false, &ids),
        Named2::Ambiguous(names(&["pre-commit-clippy", "pre-push-clippy"]))
    );
    assert_eq!(resolve_check_name("nothing", false, &ids), Named2::Unknown);
    // `pre-push` names every push check; a repeated id counts once.
    let repeated = names(&["pre-push-x", "pre-push-x"]);
    assert_eq!(resolve_check_name("x", false, &repeated), Named2::Resolved("pre-push-x".into()));
}

#[test]
fn settling_a_name_runs_nothing_unless_it_resolved() {
    assert_eq!(settle(Named2::Resolved("pre-commit-x".into())), Ok("pre-commit-x".to_string()));
    assert_eq!(settle(Named2::Unknown), Err(Named::Unknown));
    assert_eq!(settle(Named2::Ambiguous(names(&["a", "b"]))), Err(Named::Ambiguous(names(&["a", "b"]))));
    assert!(takes_hold(false, true));
    assert!(!takes_hold(true, true));
    assert!(!takes_hold(false, false));
}

#[test]
fn conventions_apply_unless_only_declared_repositories_want_them() {
    assert!(conventions_apply(false, false));
    assert!(conventions_apply(true, true));
    assert!(!conventions_apply(false, true));
}

#[test]
fn only_clean_declared_checks_earn_a_commit_stamp() {
    let decls = vec![
        ("pre-commit-tsc".to_string(), "typecheck".to_string()),
        ("pre-commit-lint".to_string(), "lint".to_string()),
        ("pre-commit-fmt".to_string(), "fmt".to_string()),
        ("pre-commit-absent".to_string(), "absent".to_string()),
    ];
    let ns = names(&["pre-commit-tsc", "pre-commit-lint", "pre-commit-fmt"]);
    let outcomes = [Outcome::Passed, Outcome::Unavailable, Outcome::Fixed];
    assert_eq!(commit_stamps(Verdict::Proceed, &decls, &ns, &outcomes), names(&["typecheck", "fmt"]));
    assert!(commit_stamps(Verdict::Block, &decls, &ns, &outcomes).is_empty());
}

#[test]
fn only_a_failure_that_warned_is_a_downgraded_event() {
    let ns = names(&["a", "b", "c", "d"]);
    let outcomes = [Outcome::Failed, Outcome::Failed, Outcome::Passed, Outcome::Failed];
    let effective = [Severity::Warn, Severity::Block, Severity::Warn, Severity::Warn];
    let declared = [Severity::Block, Severity::Block, Severity::Block, Severity::Warn];
    let sources = [Some(OverrideSource::Policy), None, Some(OverrideSource::Config), None];
    assert_eq!(
        downgraded_events(&ns, &outcomes, &effective, &declared, &sources),
        vec![("a".to_string(), Origin::Policy), ("d".to_string(), Origin::Declared)]
    );
}

#[test]
fn a_push_stamp_vouches_only_for_content_the_gates_saw() {
    let tips = names(&["head", "other"]);
    // A clean tree at HEAD vouches for HEAD alone.
    assert_eq!(stampable(&tips, Some("head"), false, &[false, false], false, ""), names(&["head"]));
    // A tracked modification when the gates started vouches for nothing.
    assert!(stampable(&tips, Some("head"), false, &[false, false], false, " M src/a.rs\n").is_empty());
    // Inside a rehearsal's checkout the working tree is HEAD's content.
    assert_eq!(stampable(&tips, Some("head"), false, &[false, false], true, " M x\n"), names(&["head"]));
    // A pushed-tree snapshot vouches for its tip — unless it fell back.
    assert_eq!(stampable(&tips, None, true, &[false, true], false, " M x\n"), names(&["head"]));
    assert_eq!(stampable(&tips, Some("nothing"), true, &[false, false], false, "x"), tips);
}

#[test]
fn the_attestation_push_is_let_through_without_a_gate() {
    let failing = [(Before::Run, Outcome::Failed, Severity::Block)];
    assert_eq!(push_verdict(true, &failing), (Verdict::Proceed, 0));
    assert_eq!(push_verdict(true, &[]), (Verdict::Proceed, 0));
}

#[test]
fn the_first_blocking_failure_stops_the_push() {
    let steps = [
        (Before::Run, Outcome::Passed, Severity::Block),
        (Before::Run, Outcome::Failed, Severity::Warn),
        (Before::Run, Outcome::Failed, Severity::Block),
        (Before::Run, Outcome::Failed, Severity::Block),
    ];
    assert_eq!(push_verdict(false, &steps), (Verdict::Block, 3));
}

#[test]
fn nothing_but_a_blocking_failure_of_a_gate_that_ran_blocks() {
    let steps = [
        (Before::Run, Outcome::Warned, Severity::Block),
        (Before::Run, Outcome::Unavailable, Severity::Block),
        (Before::Skip, Outcome::Failed, Severity::Block),
        (Before::AlreadyPassed, Outcome::Failed, Severity::Block),
        (Before::Run, Outcome::Failed, Severity::Warn),
    ];
    assert_eq!(push_verdict(false, &steps), (Verdict::Proceed, 5));
    assert_eq!(push_verdict(false, &[]), (Verdict::Proceed, 0));
}
