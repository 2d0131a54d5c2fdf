use amont::fleet_cli::{
    default_binary, default_root, parse, wrap_list, Mode, Refusal, NO_ROOT, USAGE,
};

fn argv(words: &[&str]) -> Vec<String> {
    words.iter().map(|s| s.to_string()).collect()
}

#[test]
fn wrap_list_packs_names_and_respects_the_width() {
    let names: Vec<String> = (0..11).map(|i| format!("Perso/repo-{i:02}")).collect();
    let lines = wrap_list(&names, 50);
    assert!(lines.len() < names.len(), "{lines:?}");
    for line in &lines {
        assert!(line.chars().count() <= 50, "{line:?}");
    }
    let joined = lines.join(" · ");
    for name in &names {
        assert!(joined.contains(name.as_str()), "{name} lost");
    }
}

#[test]
fn wrap_list_keeps_an_oversized_name() {
    let names = vec!["a-name-well-beyond-any-reasonable-width-limit-for-a-line".to_string()];
    assert_eq!(wrap_list(&names, 20), names);
}

/// Whether `<home>/Developer` is a directory is handed in.
#[test]
fn parses_flags_and_defaults() {
    let home = "/home/dev";
    let a = parse(&[], Some(home), true).expect("defaults");
    assert_eq!(a.depth, 6);
    assert!(!a.json);
    assert_eq!(a.root, "/home/dev/Developer");

    let a = parse(&argv(&["--depth", "2", "--json"]), Some(home), true).unwrap();
    assert_eq!(a.depth, 2);
    assert!(a.json);

    let Err(err) = parse(&[], Some("/home/x"), false) else {
        panic!("a home without ~/Developer must be refused");
    };
    assert_eq!(err.refusal, Refusal::NoRoot);
    assert!(err.what.contains("--root"), "{}", err.what);
    assert!(NO_ROOT.contains("--root"));
}

#[test]
fn deleting_other_peoples_hooks_is_off_unless_asked_for() {
    let home = Some("/home/x");
    let with_root = |mut v: Vec<String>| {
        v.extend(["--root".to_string(), "/tmp".to_string()]);
        v
    };
    assert!(!parse(&with_root(vec![]), home, false).unwrap().remove_unrecognized);
    assert!(!parse(&with_root(argv(&["fix", "--apply"])), home, false).unwrap().remove_unrecognized);
    assert!(!parse(&with_root(argv(&["install"])), home, false).unwrap().remove_unrecognized);
    assert!(parse(&with_root(argv(&["fix", "--remove-unrecognized"])), home, false)
        .unwrap()
        .remove_unrecognized);
    assert!(USAGE.contains("--remove-unrecognized"), "{USAGE}");
    assert!(USAGE.contains("never delete a hook they did not write"), "{USAGE}");
}

#[test]
fn rejects_bad_input_loudly() {
    let home = Some("/home/x");
    assert!(parse(&argv(&["--depth", "lots"]), home, false).is_err());
    assert!(parse(&argv(&["--depth"]), home, false).is_err());
    assert!(parse(&argv(&["--nope"]), home, false).is_err());
}

#[test]
fn no_home_and_no_root_is_refused_not_guessed() {
    assert!(
        parse(&[], None, true).is_err(),
        "must refuse rather than default to the current directory"
    );
}

#[test]
fn an_explicit_root_needs_no_home() {
    let a = parse(&argv(&["--root", "/somewhere"]), None, false).expect("explicit --root");
    assert_eq!(a.root, "/somewhere");
}

#[test]
fn default_root_and_binary_need_home() {
    assert_eq!(default_root(None, true), None, "no directory to guess without $HOME");
    assert_eq!(
        default_binary(None, None),
        None,
        "no binary path to guess without $HOME and nothing on PATH"
    );
    assert_eq!(default_root(Some("/home/x"), false), None);
    assert_eq!(
        default_binary(Some("/home/x"), None).as_deref(),
        Some("/home/x/.local/bin/amont")
    );
}

#[test]
fn the_path_binary_outranks_the_install_default() {
    assert_eq!(
        default_binary(Some("/home/x"), Some("/opt/homebrew/bin/amont".into())).as_deref(),
        Some("/opt/homebrew/bin/amont")
    );
    assert_eq!(
        default_binary(None, Some("/usr/local/bin/amont".into())).as_deref(),
        Some("/usr/local/bin/amont")
    );
}

#[test]
fn an_existing_developer_dir_is_still_the_default_root() {
    assert_eq!(default_root(Some("/home/x"), true).as_deref(), Some("/home/x/Developer"));
    assert_eq!(default_root(Some("/home/x/"), true).as_deref(), Some("/home/x/Developer"));
}

#[test]
fn each_refusal_says_what_it_refused() {
    let home = Some("/h");
    let e = parse(&argv(&["--depth", "lots"]), home, true).unwrap_err();
    assert_eq!((e.refusal, e.what.as_str()), (Refusal::NotANumber, "lots"));
    let e = parse(&argv(&["--binary"]), home, true).unwrap_err();
    assert_eq!((e.refusal, e.what.as_str()), (Refusal::MissingValue, "--binary needs a path"));
    let e = parse(&argv(&["scan", "--help"]), home, true).unwrap_err();
    assert_eq!(e.refusal, Refusal::Help);
    let e = parse(&argv(&["--json", "tui"]), home, true).unwrap_err();
    assert_eq!((e.refusal, e.what.as_str()), (Refusal::Unknown, "tui"));
}

#[test]
fn installing_is_applying() {
    let a = parse(&argv(&["install", "--agents-md", "--binary", "/b"]), Some("/h"), true).unwrap();
    assert_eq!(a.mode, Mode::Install);
    assert!(a.apply && a.agents_md);
    assert_eq!(a.binary.as_deref(), Some("/b"));
    let a = parse(&argv(&["uninstall"]), Some("/h"), true).unwrap();
    assert!(a.apply);
    let a = parse(&argv(&["fix"]), Some("/h"), true).unwrap();
    assert!(!a.apply);
    assert_eq!(parse(&argv(&["--depth", "+3"]), Some("/h"), true).unwrap().depth, 3);
}
