use amont::rust_tools::{cargo_argv, first_pin_problem, pin_check, PinCheck};
use amont::rust_tools::{
    cargo_roots, cargo_version, is_rust_path, legacy_pin, parse_toolchain_toml, version_matches,
    version_pin,
};

#[test]
fn recognises_rust_paths() {
    assert!(is_rust_path("src/main.rs"));
    assert!(is_rust_path("Cargo.toml"));
    assert!(is_rust_path("crates/a/Cargo.lock"));
    assert!(is_rust_path("rustfmt.toml"));
    assert!(!is_rust_path("README.md"));
    assert!(!is_rust_path("src/main.rsx"));
    assert!(!is_rust_path("docs/Cargo.toml.md"));
    assert!(!is_rust_path("vendor/NotCargo.toml"));
}

/// The directories holding a manifest are handed in, relative to the
/// repository.
#[test]
fn finds_the_nearest_manifest_not_the_repo_root() {
    let manifests = vec!["services/engine".to_string()];
    let got = cargo_roots(&["services/engine/src/main.rs"], &manifests);
    assert_eq!(got, vec!["services/engine".to_string()], "should find the nested manifest");
    let none = cargo_roots(&["scripts/loose.rs"], &manifests);
    assert!(none.is_empty(), "no manifest above it: {none:?}");
}

#[test]
fn several_files_in_one_crate_yield_one_root() {
    let manifests = vec!["".to_string()];
    let got = cargo_roots(&["src/a.rs", "src/b.rs", "Cargo.toml"], &manifests);
    assert_eq!(got.len(), 1, "one cargo invocation, not three: {got:?}");
}

#[test]
fn non_rust_files_select_nothing() {
    let got = cargo_roots(&["README.md", "a.py"], &["".to_string()]);
    assert!(got.is_empty());
}

#[test]
fn reads_the_channel_out_of_the_toml() {
    let text = "# pinned\n[toolchain]\nchannel = \"1.94.1\" # why\ncomponents = [\"clippy\"]\n";
    assert_eq!(parse_toolchain_toml(text).as_deref(), Some("1.94.1"));
    assert_eq!(
        parse_toolchain_toml("[toolchain]\nchannel = 'stable'\n").as_deref(),
        Some("stable")
    );
    assert_eq!(parse_toolchain_toml("[toolchain]\ncomponents = []\n"), None);
    assert_eq!(parse_toolchain_toml("# channel = \"1.0\"\n"), None);
}

#[test]
fn only_a_version_is_held_against_cargo() {
    assert_eq!(version_pin("1.94.1").as_deref(), Some("1.94.1"));
    assert_eq!(version_pin("1.94").as_deref(), Some("1.94"));
    assert_eq!(version_pin("stable"), None);
    assert_eq!(version_pin("nightly-2026-01-01"), None);
    assert_eq!(version_pin("1"), None);
    assert!(version_matches("1.94.1", "1.94.1"));
    assert!(version_matches("1.94", "1.94.1"));
    assert!(!version_matches("1.94.1", "1.98.0"));
    assert!(!version_matches("1.9", "1.94.1"));
}

#[test]
fn a_pin_has_two_or_three_numeric_parts() {
    assert_eq!(version_pin("1.2.3.4"), None);
    assert_eq!(version_pin("1..2"), None);
    assert_eq!(version_pin(".1.2"), None);
    assert_eq!(version_pin("1.2."), None);
    assert_eq!(version_pin(""), None);
}

#[test]
fn the_nearest_of_several_manifests_wins_and_roots_come_in_path_order() {
    let manifests = vec!["".to_string(), "a".to_string(), "a/b".to_string(), "a-c".to_string()];
    let got = cargo_roots(&["a/b/src/x.rs", "a-c/y.rs", "z.rs", "a/b/Cargo.toml"], &manifests);
    assert_eq!(got, vec!["".to_string(), "a/b".to_string(), "a-c".to_string()]);
}

#[test]
fn the_legacy_pin_and_cargo_version_are_read_plainly() {
    assert_eq!(legacy_pin("  1.85.0  \nignored\n").as_deref(), Some("1.85.0"));
    assert_eq!(legacy_pin("\n1.85.0\n"), None);
    assert_eq!(legacy_pin(""), None);
    assert_eq!(
        cargo_version("cargo 1.94.1 (29ea6fb6a 2026-03-24)\n").as_deref(),
        Some("1.94.1")
    );
    assert_eq!(cargo_version("cargo"), None);
}

#[test]
fn a_pin_is_held_against_the_cargo_that_answers() {
    assert_eq!(pin_check(None, Some("cargo 1.80.0 (x)")), PinCheck::Unchecked);
    assert_eq!(pin_check(Some("stable"), Some("cargo 1.80.0 (x)")), PinCheck::Unchecked);
    assert_eq!(pin_check(Some("1.94"), Some("cargo 1.94.1 (29ea6fb6a 2026-03-24)")), PinCheck::Matches);
    assert_eq!(
        pin_check(Some("1.94.1"), Some("cargo 1.94.0 (x)")),
        PinCheck::Mismatch { got: "1.94.0".to_string(), want: "1.94.1".to_string() }
    );
    assert_eq!(pin_check(Some("1.94.1"), None), PinCheck::NoCargo { pin: "1.94.1".to_string() });
    assert_eq!(pin_check(Some("nightly"), Some("")), PinCheck::NoCargo { pin: "nightly".to_string() });
}

#[test]
fn the_first_root_whose_pin_fails_is_reported() {
    let pins = vec![None, Some("1.94".to_string()), Some("1.80".to_string())];
    let answers = vec![None, Some("cargo 1.94.2 (x)".to_string()), Some("cargo 1.94.2 (x)".to_string())];
    assert_eq!(
        first_pin_problem(&pins, &answers),
        Some((2, PinCheck::Mismatch { got: "1.94.2".to_string(), want: "1.80".to_string() }))
    );
    assert_eq!(first_pin_problem(&pins[..2], &answers[..2]), None);
}

#[test]
fn rustup_applies_the_pin_to_the_whole_build() {
    assert_eq!(
        cargo_argv(Some("1.94.1"), Some("/usr/bin/rustup"), Some("/usr/bin/cargo")),
        Some(vec!["/usr/bin/rustup".to_string(), "run".to_string(), "1.94.1".to_string(), "cargo".to_string()])
    );
    assert_eq!(cargo_argv(Some("1.94.1"), None, Some("/bin/cargo")), Some(vec!["/bin/cargo".to_string()]));
    assert_eq!(cargo_argv(None, Some("/usr/bin/rustup"), None), None);
}
