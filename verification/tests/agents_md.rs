use amont::agents_md::{
    check, check_pointer, desired_file_content, desired_pointer_content, generate_block,
    generate_pointer, write_pointer, CheckResult, MarkerState, END, START,
};

const PREFIXES: &[&str] = &["feat", "fix", "chore"];
const IDLE: &str = "10 minutes";
const CEILING: &str = "1 hour";

fn block() -> String {
    generate_block(PREFIXES, IDLE, CEILING)
}

fn desired(existing: &str) -> Result<String, MarkerState> {
    desired_file_content(existing, PREFIXES, IDLE, CEILING)
}

#[test]
fn no_file_produces_just_the_block() {
    assert_eq!(desired("").unwrap(), block());
}

#[test]
fn the_generated_markdown_satisfies_prettier() {
    for (what, text) in [("block", block()), ("pointer", generate_pointer())] {
        assert!(
            text.starts_with(&format!("{START}\n\n")),
            "{what}: prettier wants a blank line after the opening comment"
        );
        assert!(
            text.ends_with(&format!("\n\n{END}\n")),
            "{what}: prettier wants a blank line before the closing comment"
        );
        let opener = text
            .as_bytes()
            .windows(2)
            .any(|w| w[0] == b'*' && w[1].is_ascii_alphanumeric());
        assert!(
            !opener,
            "{what}: prettier rewrites *emphasis* into _emphasis_ — emit underscores"
        );
    }
}

#[test]
fn the_pointer_is_generated_and_therefore_checkable() {
    let p = generate_pointer();
    assert!(p.starts_with(START) && p.ends_with(&format!("{END}\n")));
    assert!(p.contains("AGENTS.md"), "it has to name where to look");
    assert_ne!(p, block(), "a signpost, not a second copy");
    assert!(
        !p.contains("amont list --json"),
        "the registry command lives in ONE place"
    );
    let existing = "# Notes\n\nsomething the repo wrote\n";
    let once = desired_pointer_content(existing).unwrap();
    assert!(once.starts_with(existing), "never touches what was there");
    assert!(once.ends_with(&p));
    assert_eq!(
        desired_pointer_content(&once).unwrap(),
        once,
        "re-running is a no-op, so `--check` can be trusted"
    );
}

#[test]
fn no_markers_appends_with_one_blank_line() {
    let got = desired("# My Project\n\nSome docs.\n").unwrap();
    assert!(got.starts_with("# My Project\n\nSome docs.\n\n"));
    assert!(got.ends_with(&block()));
}

#[test]
fn no_markers_and_no_trailing_newline_still_gets_a_blank_line() {
    let got = desired("# My Project").unwrap();
    assert!(got.starts_with("# My Project\n\n"));
}

#[test]
fn existing_markers_are_replaced_and_everything_else_survives() {
    let before = format!("before\n\n{START}\nstale\n{END}\n\nafter\n");
    let got = desired(&before).unwrap();
    assert!(got.starts_with("before\n\n"));
    assert!(got.ends_with("\n\nafter\n"));
    assert!(got.contains(&block()));
    assert!(!got.contains("stale"));
}

#[test]
fn applying_twice_is_idempotent() {
    let once = desired("preamble\n").unwrap();
    let twice = desired(&once).unwrap();
    assert_eq!(once, twice);
}

#[test]
fn an_unpaired_marker_is_refused_not_guessed_at() {
    assert_eq!(
        desired(&format!("{START}\nno end here\n")),
        Err(MarkerState::Malformed)
    );
    assert_eq!(
        desired(&format!("no start\n{END}\n")),
        Err(MarkerState::Malformed)
    );
}

#[test]
fn end_appearing_before_start_is_malformed_not_reordered() {
    assert_eq!(
        desired(&format!("{END}\n...\n{START}\n...\n")),
        Err(MarkerState::Malformed)
    );
}

/// A missing file is read as empty text.
#[test]
fn check_reports_not_present_for_a_missing_file() {
    assert_eq!(
        check("", PREFIXES, IDLE, CEILING).unwrap(),
        CheckResult::NotPresent
    );
}

#[test]
fn check_reports_matches_generated_after_a_write() {
    assert_eq!(
        check(&block(), PREFIXES, IDLE, CEILING).unwrap(),
        CheckResult::MatchesGenerated
    );
}

#[test]
fn check_reports_drifted_for_a_stale_block() {
    assert_eq!(
        check(&format!("{START}\nstale\n{END}\n"), PREFIXES, IDLE, CEILING).unwrap(),
        CheckResult::Drifted
    );
}

#[test]
fn the_block_names_the_prefixes_and_limits_it_was_given() {
    let b = block();
    assert!(b.contains("prefixes are feat, fix, chore — because"));
    assert!(b.contains("killed only after 10 minutes of silence or 1 hour in total"));
    let none = generate_block(&[], "no limit", "no limit");
    assert!(none.contains("prefixes are  — because"));
}

#[test]
fn a_block_written_for_other_limits_has_drifted() {
    let written = generate_block(PREFIXES, "5 minutes", CEILING);
    assert_eq!(
        check(&written, PREFIXES, IDLE, CEILING).unwrap(),
        CheckResult::Drifted
    );
}

#[test]
fn the_pointer_check_follows_the_same_rules() {
    assert_eq!(check_pointer("no markers here").unwrap(), CheckResult::NotPresent);
    assert_eq!(
        check_pointer(&format!("x\n\n{}", generate_pointer())).unwrap(),
        CheckResult::MatchesGenerated
    );
    assert_eq!(
        check_pointer(&format!("{START}\n")),
        Err(MarkerState::Malformed)
    );
}

#[test]
fn writing_puts_the_desired_content_or_names_the_broken_file() {
    let wrote = amont::agents_md::write("docs/AGENTS.md", "", PREFIXES, IDLE, CEILING).unwrap();
    assert_eq!(wrote, generate_block(PREFIXES, IDLE, CEILING));
    let err = amont::agents_md::write("docs/AGENTS.md", &format!("x\n{START}\ny\n"), PREFIXES, IDLE, CEILING).unwrap_err();
    assert_eq!(
        err,
        "docs/AGENTS.md: has an unpaired amont marker \u{2014} fix or remove it by hand, then re-run `amont agents-md`"
    );
    let pointer = write_pointer("POINTER.md", "# Notes\n").unwrap();
    assert_eq!(pointer, desired_pointer_content("# Notes\n").unwrap());
    assert!(write_pointer("POINTER.md", &format!("{END}\n")).unwrap_err().starts_with("POINTER.md: "));
}
