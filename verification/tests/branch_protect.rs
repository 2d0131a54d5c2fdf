use amont::branch_protect::{blocked, early, is_creation, protected_name, refusal, run};
use amont::check::Outcome;
use amont::pushrefs::PushRef;

const ZEROS: &str = "0000000000000000000000000000000000000000";

fn r(local_oid: &str, remote_ref: &str) -> PushRef {
    PushRef {
        local_ref: "refs/heads/whatever".into(),
        local_oid: local_oid.into(),
        remote_ref: remote_ref.into(),
        remote_oid: "b".into(),
    }
}

fn creating(remote_ref: &str) -> PushRef {
    PushRef {
        local_ref: "refs/heads/main".into(),
        local_oid: "a".into(),
        remote_ref: remote_ref.into(),
        remote_oid: ZEROS.into(),
    }
}

#[test]
fn blocks_main_and_master() {
    assert_eq!(run(&[r("a", "refs/heads/main")]), Outcome::Failed);
    assert_eq!(run(&[r("a", "refs/heads/master")]), Outcome::Failed);
}

#[test]
fn allows_any_other_branch() {
    assert_eq!(run(&[r("a", "refs/heads/feat/x")]), Outcome::Passed);
    assert_eq!(run(&[r("a", "refs/heads/maintenance")]), Outcome::Passed);
    assert_eq!(run(&[r("a", "refs/heads/mainline")]), Outcome::Passed);
}

#[test]
fn allows_tags_even_named_main() {
    assert_eq!(run(&[r("a", "refs/tags/main")]), Outcome::Passed);
}

#[test]
fn a_renamed_push_to_main_is_still_blocked() {
    let mut p = r("a", "refs/heads/main");
    p.local_ref = "refs/heads/my-feature".into();
    assert_eq!(run(&[p]), Outcome::Failed);
}

#[test]
fn a_branch_delete_is_blocked_too() {
    assert_eq!(
        run(&[r("0000000000000000000000000000000000000000", "refs/heads/main")]),
        Outcome::Failed
    );
}

#[test]
fn no_refs_is_a_pass() {
    assert_eq!(run(&[]), Outcome::Passed);
}

#[test]
fn a_mixed_push_is_blocked() {
    assert_eq!(
        run(&[r("a", "refs/heads/feat/x"), r("a", "refs/heads/main")]),
        Outcome::Failed
    );
}

#[test]
fn creating_main_on_the_remote_is_allowed() {
    assert_eq!(run(&[creating("refs/heads/main")]), Outcome::Passed);
    assert_eq!(run(&[creating("refs/heads/master")]), Outcome::Passed);
}

#[test]
fn the_next_push_to_that_same_branch_is_refused() {
    assert_eq!(run(&[r("a", "refs/heads/main")]), Outcome::Failed);
}

#[test]
fn a_creation_beside_a_real_update_still_fails() {
    assert_eq!(
        run(&[creating("refs/heads/feat/x"), r("a", "refs/heads/main")]),
        Outcome::Failed
    );
}

#[test]
fn a_delete_of_a_nonexistent_remote_branch_is_not_blocked() {
    let mut p = creating("refs/heads/main");
    p.local_oid = ZEROS.into();
    assert_eq!(run(&[p]), Outcome::Passed);
}

#[test]
fn an_empty_remote_oid_is_not_a_creation() {
    let mut p = r("a", "refs/heads/main");
    p.remote_oid = String::new();
    assert!(!is_creation(&p));
    assert_eq!(run(&[p]), Outcome::Failed);
}

#[test]
fn the_refusal_names_the_branch_and_the_kind_of_write() {
    let b = blocked(&[
        r(ZEROS, "refs/heads/master"),
        r("a", "refs/heads/x"),
        r("a", "refs/heads/main"),
    ]);
    assert_eq!(b, vec![("master".to_string(), true), ("main".to_string(), false)]);
    assert_eq!(
        refusal("master", true),
        "Deleting branch master is forbidden. Open a Pull Request."
    );
    assert_eq!(
        refusal("main", false),
        "Pushing to branch main is forbidden. Open a Pull Request."
    );
    assert_eq!(protected_name("refs/heads/main").as_deref(), Some("main"));
    assert_eq!(protected_name("refs/heads/"), None);
}

#[test]
fn committing_on_a_protected_branch_warns_only_when_a_push_would_be_refused() {
    assert_eq!(early(Some("main"), true, true), Outcome::Warned);
    assert_eq!(early(Some("master"), true, true), Outcome::Warned);
    assert_eq!(early(Some("main"), false, false), Outcome::Passed);
    assert_eq!(early(Some("main"), true, false), Outcome::Passed);
    assert_eq!(early(Some("feat/x"), true, true), Outcome::Passed);
    assert_eq!(early(None, true, true), Outcome::Passed);
}
