use amont::aval_hook::{first_line, ignored_paths, install_outcome, judge, state, AvalHook, AvalHookState, Spawn};

const SCRIPT_PATH: &str = "hooks/aval-heads.sh";
const SETTINGS_PATH: &str = "settings.json";

fn exited(code: Option<i32>, stdout: &str, stderr: &str) -> Spawn {
    Spawn::Exited { code, stdout: stdout.as_bytes().to_vec(), stderr: stderr.as_bytes().to_vec() }
}

#[test]
fn a_repo_without_a_registry_is_not_asked() {
    assert_eq!(state(None), AvalHook::default());
    assert_eq!(AvalHook::default().state, AvalHookState::NoCorpus);
    assert!(AvalHook::default().ignored.is_empty());
}

#[test]
fn avals_exit_code_is_the_state() {
    for (rc, want) in [(0, AvalHookState::Current), (1, AvalHookState::Stale)] {
        let got = state(Some((&exited(Some(rc), "", ""), b"")));
        assert_eq!(got.state, want);
        assert!(got.ignored.is_empty());
    }
}

#[test]
fn an_exit_code_aval_did_not_promise_is_unknown_not_a_state() {
    let got = judge(&exited(Some(2), "", "usage\n"));
    assert!(
        matches!(got, AvalHookState::Unknown { ref why } if why.contains("exited 2")),
        "{got:?}"
    );
    assert_eq!(got, AvalHookState::Unknown { why: "aval hook install --check exited 2: usage".to_string() });
    assert_ne!(got, AvalHookState::Stale, "unknown must never plan an install");
}

#[test]
fn an_unknown_answer_carries_the_first_words_it_can_find() {
    assert_eq!(
        judge(&exited(None, "\n  out line  \n", "  \n")),
        AvalHookState::Unknown { why: "aval hook install --check exited by signal: out line".to_string() }
    );
    assert_eq!(
        judge(&exited(Some(-3), "", "")),
        AvalHookState::Unknown { why: "aval hook install --check exited -3: no output".to_string() }
    );
    assert_eq!(
        judge(&Spawn::Refused { not_found: false, message: "permission denied".to_string() }),
        AvalHookState::Unknown { why: "permission denied".to_string() }
    );
}

#[test]
fn a_missing_binary_is_reported_not_read_as_current() {
    let got = state(Some((&Spawn::Refused { not_found: true, message: "No such file".to_string() }, b"")));
    assert_eq!(got.state, AvalHookState::NoAval);
}

#[test]
fn a_gitignored_hook_is_named() {
    let out = format!("{SCRIPT_PATH}\n{SETTINGS_PATH}\n");
    let got = state(Some((&exited(Some(0), "", ""), out.as_bytes())));
    assert_eq!(got.state, AvalHookState::Current);
    assert_eq!(got.ignored, vec![SCRIPT_PATH.to_string(), SETTINGS_PATH.to_string()]);
    assert!(ignored_paths(b"").is_empty());
    assert_eq!(ignored_paths(b"  a  \n\n b\r\n"), vec!["a".to_string(), "b".to_string()]);
}

#[test]
fn install_counts_what_aval_says_it_wrote() {
    let report = "  wrote  hooks/aval-heads.sh  (regenerated)\n  wrote  settings.json  (merged)\nkept x\n";
    assert_eq!(install_outcome("aval", &exited(Some(0), report, "")), Ok(2));
    assert_eq!(install_outcome("aval", &exited(Some(0), "", "")), Ok(0));
}

#[test]
fn a_failed_install_carries_avals_words() {
    let err = install_outcome("/tmp/nope", &Spawn::Refused { not_found: true, message: "No such file or directory".to_string() })
        .unwrap_err();
    assert!(err.contains("nope"), "{err}");
    assert_eq!(err, "/tmp/nope: No such file or directory");
    assert_eq!(
        install_outcome("aval", &exited(Some(2), "", "bad corpus\n")),
        Err("aval hook install exited 2: bad corpus".to_string())
    );
}

#[test]
fn the_first_line_skips_blank_ones() {
    assert_eq!(first_line(b"\n \n  hello world \nnext"), Some("hello world".to_string()));
    assert_eq!(first_line(b"   \n"), None);
    assert_eq!(first_line(b""), None);
}
