use amont::attest::{
    acceptable, first_principal, is_zero, note_body, payload, signature_from, split_note, targets, worth_attesting,
    FORMAT,
};
use amont::pushrefs::PushRef;

#[test]
fn the_payload_is_the_documented_contract() {
    let p = payload(
        "abc123",
        &["pre-push-pytest".into(), "pre-push-cargo-test".into()],
        "x86_64-linux",
        "0.9.0",
    );
    let lines: Vec<&str> = p.lines().collect();
    assert_eq!(lines[0], FORMAT);
    assert_eq!(lines[1], "tree abc123");
    assert_eq!(lines[2], "gates pre-push-pytest pre-push-cargo-test");
    assert_eq!(lines[3], format!("platform {}", "x86_64-linux"));
    assert_eq!(lines[4], format!("amont {}", "0.9.0"));
    assert!(
        p.ends_with('\n'),
        "CI reconstructs these bytes; the trailing newline is part of them"
    );
}

#[test]
fn the_payload_is_exact_bytes() {
    let p = payload("t", &["a".into()], "aarch64-macos", "1.2.3");
    assert_eq!(p, "amont-attest-v2\ntree t\ngates a\nplatform aarch64-macos\namont 1.2.3\n");
    let none = payload("t", &[], "p", "v");
    assert_eq!(none, "amont-attest-v2\ntree t\ngates \nplatform p\namont v\n");
}

#[test]
fn zero_oids_of_any_width_are_zero() {
    assert!(is_zero(&"0".repeat(40)));
    assert!(is_zero(&"0".repeat(64)));
    assert!(!is_zero("0a0000"));
    assert!(!is_zero(""));
}

#[test]
fn a_note_splits_back_into_the_signed_bytes() {
    let p = payload("abc", &["g".into()], "x86_64-linux", "1");
    let sig = "-----BEGIN SSH SIGNATURE-----\nAAAA\n-----END SSH SIGNATURE-----\n";
    let body = format!("{}\n{}", p, sig);
    let (back, s) = split_note(&body).expect("a well-formed note splits");
    assert_eq!(back, p);
    assert_eq!(s, sig);
}

#[test]
fn a_note_without_a_signature_block_is_no_note() {
    assert_eq!(split_note("amont-attest-v2\ntree t\n\nnot a signature"), None);
    assert_eq!(split_note("no blank line at all"), None);
}

#[test]
fn only_the_right_tree_format_and_platform_are_acceptable() {
    let p = payload("abc", &["pre-push-pytest".into()], "x86_64-linux", "1");
    assert_eq!(acceptable(&p, "abc", None), Some("pre-push-pytest".to_string()));
    assert_eq!(acceptable(&p, "abc", Some("x86_64-linux")), Some("pre-push-pytest".to_string()));
    assert_eq!(acceptable(&p, "abc", Some("s390x-aix")), None);
    assert_eq!(acceptable(&p, "abd", None), None);
    let empty = payload("abc", &[], "x86_64-linux", "1");
    assert_eq!(acceptable(&empty, "abc", None), None);
    let old = p.replacen("amont-attest-v2", "amont-attest-v1", 1);
    assert_eq!(acceptable(&old, "abc", None), None);
    assert_eq!(acceptable("amont-attest-v2\ntree abc\ngates g\n", "abc", None), None);
}

#[test]
fn fields_are_found_by_prefix_not_position() {
    let p = "amont-attest-v2\nextra line\nplatform p\ngates a b\ntree  abc \n";
    assert_eq!(acceptable(p, "abc", Some("p")), Some("a b".to_string()));
}

#[test]
fn the_first_principal_skips_blanks_and_comments() {
    assert_eq!(first_principal("\n# team\n  t@t.test ssh-ed25519 AAAA\nx@y z\n"), Some("t@t.test".to_string()));
    assert_eq!(first_principal("# only a comment\n\n"), None);
    assert_eq!(first_principal(""), None);
}

fn push_ref(local_oid: &str) -> PushRef {
    PushRef {
        local_ref: "refs/heads/main".to_string(),
        local_oid: local_oid.to_string(),
        remote_ref: "refs/heads/main".to_string(),
        remote_oid: "0".repeat(40),
    }
}

#[test]
fn deletions_and_empty_gates_attest_nothing_to_decide() {
    assert!(!worth_attesting("origin", &[], true));
    assert!(!worth_attesting("", &["pre-push-pytest".into()], true));
    assert!(!worth_attesting("origin", &["pre-push-pytest".into()], false));
    assert!(worth_attesting("origin", &["pre-push-pytest".into()], true));
    let refs = vec![push_ref(&"0".repeat(40)), push_ref("abc"), push_ref("def")];
    assert_eq!(targets(&refs), vec!["abc".to_string(), "def".to_string()]);
}

#[test]
fn only_an_armored_signature_from_a_clean_run_counts() {
    let sig = "-----BEGIN SSH SIGNATURE-----\nAAAA\n-----END SSH SIGNATURE-----";
    let printed = format!("\n{sig}\n\n");
    assert_eq!(signature_from(true, printed.as_bytes()), Some(sig.to_string()));
    assert_eq!(signature_from(false, printed.as_bytes()), None);
    assert_eq!(signature_from(true, b"error: no key"), None);
}

#[test]
fn a_note_body_splits_back_into_what_was_signed() {
    let p = payload("abc", &["g".into()], "x86_64-linux", "1");
    let sig = "-----BEGIN SSH SIGNATURE-----\nAAAA\n-----END SSH SIGNATURE-----";
    let body = note_body(&p, sig);
    assert_eq!(split_note(&body), Some((p.clone(), sig.to_string())));
}
