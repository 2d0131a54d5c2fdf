use amont::git::{
    after_failure, output_of, probe_exit, retry_start, split_nul_paths, stdout_of, transient, z_argv, FailureKind, Next,
    Output, Probe,
};

fn kind_of(e: &std::io::Error) -> FailureKind {
    match e.kind() {
        std::io::ErrorKind::Interrupted => FailureKind::Interrupted,
        std::io::ErrorKind::WouldBlock => FailureKind::WouldBlock,
        _ => FailureKind::Other,
    }
}

fn is_transient(e: &std::io::Error) -> bool {
    transient(kind_of(e), e.raw_os_error())
}

/// Attempts driven by the library's retry policy, pausing only on paper:
/// the pauses asked for are returned beside the answer.
fn retrying<T>(mut attempt: impl FnMut() -> std::io::Result<T>) -> (std::io::Result<T>, Vec<u64>) {
    let mut r = retry_start();
    let mut pauses = Vec::new();
    loop {
        match attempt() {
            Ok(v) => return (Ok(v), pauses),
            Err(e) => match after_failure(&mut r, is_transient(&e)) {
                Next::Pause(ms) => pauses.push(ms),
                Next::Stop => return (Err(e), pauses),
            },
        }
    }
}

#[test]
fn transient_covers_the_fork_pressure_kinds_and_nothing_else() {
    for code in [4, 11, 26, 35] {
        assert!(
            is_transient(&std::io::Error::from_raw_os_error(code)),
            "raw {code} is a loaded-machine hiccup"
        );
    }
    assert!(is_transient(&std::io::Error::from(std::io::ErrorKind::Interrupted)));
    assert!(!is_transient(&std::io::Error::from(std::io::ErrorKind::NotFound)));
    assert!(!is_transient(&std::io::Error::from_raw_os_error(13)));
}

#[test]
fn splits_on_nul_and_drops_the_trailing_empty_segment() {
    assert_eq!(
        split_nul_paths(b"src/main.rs\0Cargo.toml\0"),
        vec!["src/main.rs", "Cargo.toml"]
    );
}

#[test]
fn empty_input_is_no_paths() {
    assert_eq!(split_nul_paths(b""), Vec::<String>::new());
}

#[test]
fn a_non_ascii_path_is_not_reinterpreted_as_its_quoted_form() {
    let mut raw = "é.json".as_bytes().to_vec();
    raw.push(0);
    let got = split_nul_paths(&raw);
    assert_eq!(got, vec!["é.json".to_string()]);
    assert_ne!(got[0], "\"\\303\\251.json\"", "must not be the quoted form");
}

#[test]
fn empty_pieces_in_the_middle_are_dropped_and_a_last_piece_kept() {
    assert_eq!(split_nul_paths(b"\0\0a\0\0b"), vec!["a", "b"]);
    assert_eq!(split_nul_paths(b"\xff\0"), vec!["\u{fffd}"]);
}

#[test]
fn a_would_block_is_transient_whatever_its_code() {
    assert!(transient(FailureKind::WouldBlock, None));
    assert!(!transient(FailureKind::Other, None));
    assert!(!transient(FailureKind::Other, Some(2)));
}

#[test]
fn retrying_gives_up_after_three_transient_failures() {
    let mut calls = 0;
    let (r, pauses): (std::io::Result<()>, _) = retrying(|| {
        calls += 1;
        Err(std::io::Error::from_raw_os_error(11))
    });
    assert!(r.is_err());
    assert_eq!(calls, 3);
    assert_eq!(pauses, vec![10, 30], "about 40ms of pauses over three attempts");
}

#[test]
fn a_hard_error_is_not_retried() {
    let mut calls = 0;
    let (r, pauses): (std::io::Result<()>, _) = retrying(|| {
        calls += 1;
        Err(std::io::Error::from(std::io::ErrorKind::NotFound))
    });
    assert!(r.is_err());
    assert_eq!(calls, 1);
    assert!(pauses.is_empty());
}

#[test]
fn one_hiccup_then_an_answer_is_an_answer() {
    let mut calls = 0;
    let (r, _) = retrying(|| {
        calls += 1;
        if calls == 1 {
            Err(std::io::Error::from_raw_os_error(4))
        } else {
            Ok(42)
        }
    });
    assert_eq!(r.unwrap(), 42);
    assert_eq!(calls, 2);
}

#[test]
fn what_git_said_is_kept_apart_by_exit_code() {
    assert_eq!(
        output_of(Some(128), b"  \n", b"fatal: bad config\n"),
        Some(Output { code: 128, stdout: String::new(), stderr: "fatal: bad config".to_string() })
    );
    assert_eq!(output_of(None, b"x", b"y"), None);
    assert_eq!(stdout_of(true, b"  abc123\n"), Some("abc123".to_string()));
    assert_eq!(stdout_of(false, b"abc123"), None);
    assert_eq!(probe_exit(Some(2)), Probe::Exit(2));
    assert_eq!(probe_exit(None), Probe::Failed);
}

#[test]
fn a_path_listing_asks_git_for_nul_terminated_paths() {
    assert_eq!(
        z_argv(&["diff", "--cached", "--name-only"]),
        Some(vec!["diff".to_string(), "-z".to_string(), "--cached".to_string(), "--name-only".to_string()])
    );
    assert_eq!(z_argv(&["ls-files"]), Some(vec!["ls-files".to_string(), "-z".to_string()]));
    assert_eq!(z_argv(&[]), None);
}
