use amont::check::Outcome;
use amont::manifest_trust::{run_in, TrustState, TRUSTED};

fn names(ns: &[&str]) -> Vec<String> {
    ns.iter().map(|s| s.to_string()).collect()
}

#[test]
fn a_manifest_declaring_nothing_gates_nothing() {
    assert_eq!(run_in(&[], TrustState::Untrusted, "amont trust"), (Outcome::Passed, String::new()));
}

#[test]
fn a_trusted_manifest_lets_its_checks_gate_the_commit() {
    for state in [TrustState::Trusted, TrustState::NoManifest] {
        assert_eq!(run_in(&names(&["aval"]), state, "amont trust"), (Outcome::Passed, TRUSTED.to_string()));
    }
}

#[test]
fn an_untrusted_manifest_blocks_its_own_commit_and_names_the_fix() {
    let (outcome, said) = run_in(&names(&["aval", "lint"]), TrustState::Untrusted, "amont trust");
    assert_eq!(outcome, Outcome::Failed);
    assert_eq!(
        said,
        "this commit changes amont.conf, and the 2 check(s) it declares (aval, lint) cannot gate it: \
         it has never been trusted here. Review it with amont trust, accept it, and commit again \
         \u{2014} otherwise this commit goes through with them unrun."
    );
    let (outcome, said) = run_in(&names(&["aval"]), TrustState::Changed, "amont trust");
    assert_eq!(outcome, Outcome::Failed);
    assert!(said.contains("1 check(s) it declares (aval) cannot gate it: it changed since it was trusted."));
}
