use amont::downgrade::{compacted, event_lines, parse, Ledger, Origin, FORMAT, KEEP, MAX_BYTES};
use amont::downgrades::{self, Downgrades};

fn ledger(events: &[&str]) -> String {
    let mut s = format!("{FORMAT}\n");
    for e in events {
        s.push_str(e);
        s.push('\n');
    }
    s
}

#[test]
fn downgrade_a_ledger_without_the_header_is_ignored() {
    assert_eq!(parse("100 abcdef0 pre-commit-x config\n"), Ledger::default());
    assert_eq!(parse(""), Ledger::default());
}

#[test]
fn downgrade_a_ledger_in_an_unknown_format_version_reads_as_empty() {
    assert_eq!(
        parse("amont-downgrade-v2\n100 abcdef0 pre-commit-x config\n"),
        Ledger::default()
    );
}

#[test]
fn downgrade_malformed_lines_are_skipped_and_the_rest_still_counted() {
    let text = ledger(&[
        "100 abcdef0 pre-commit-x config",
        "not an event line",
        "101 abcdef0 pre-commit-x",
        "102 abcdef0 pre-commit-x config more",
        "103 nothexg pre-commit-x config",
        "104 abc pre-commit-x config",
        "105 abcdef0 pre-commit-x sideways",
        "106 abcdef0 pre-commit-x policy",
    ]);
    let l = parse(&text);
    assert_eq!(l.total, 2);
    assert_eq!(l.last, Some(106));
}

#[test]
fn a_check_name_with_a_control_byte_is_rejected() {
    assert_eq!(
        parse(&ledger(&["100 abcdef0 pre\u{1b}commit config"])).total,
        0
    );
}

#[test]
fn counts_group_by_check_and_keep_the_latest_timestamp() {
    let text = ledger(&[
        "100 aaaaaaa pre-commit-usual-name config",
        "200 bbbbbbb pre-commit-ban-terms config",
        "300 ccccccc pre-commit-usual-name config",
    ]);
    let l = parse(&text);
    assert_eq!(l.total, 3);
    assert_eq!(l.first, Some(100));
    assert_eq!(l.last, Some(300));
    assert_eq!(l.by_check.len(), 2);
    assert_eq!(l.by_check[0].check, "pre-commit-usual-name");
    assert_eq!(l.by_check[0].count, 2);
    assert_eq!(l.by_check[0].last, 300);
    assert_eq!(l.by_check[1].check, "pre-commit-ban-terms");
}

#[test]
fn distinct_commits_are_counted_separately_from_events() {
    let one = ledger(&[
        "100 aaaaaaa pre-commit-usual-name config",
        "101 aaaaaaa pre-commit-usual-name config",
        "102 aaaaaaa pre-commit-usual-name config",
    ]);
    let l = parse(&one);
    assert_eq!((l.total, l.commits), (3, 1));

    let many = ledger(&[
        "100 aaaaaaa pre-commit-usual-name config",
        "101 bbbbbbb pre-commit-usual-name config",
        "102 ccccccc pre-commit-usual-name config",
    ]);
    let l = parse(&many);
    assert_eq!((l.total, l.commits), (3, 3));
}

#[test]
fn only_overridden_checks_count_as_would_have_blocked() {
    let text = ledger(&[
        "100 aaaaaaa pre-commit-ban-terms config",
        "101 aaaaaaa pre-commit-secrets policy",
        "102 aaaaaaa pre-commit-agents-md declared",
    ]);
    let l = parse(&text);
    assert_eq!(l.total, 3);
    assert_eq!(l.would_block, 2, "the declared-warn check is not evidence");
    let declared = l
        .by_check
        .iter()
        .find(|c| c.check == "pre-commit-agents-md")
        .unwrap();
    assert_eq!((declared.count, declared.would_block), (1, 0));
}

/// What compaction writes back: the header and the newest events.
#[test]
fn downgrade_compaction_keeps_the_header_and_the_newest_events() {
    let mut body = format!("{FORMAT}\n");
    for i in 0..6_000u64 {
        body.push_str(&format!("{i} abcdef0123456789 pre-commit-ban-terms config\n"));
    }
    assert!(body.len() as u64 > MAX_BYTES);
    let text = compacted(&body);
    assert!(text.starts_with(FORMAT));
    let l = parse(&text);
    assert_eq!(l.total, KEEP);
    assert_eq!(l.last, Some(5_999), "the newest events survive");
}

#[test]
fn the_ceiling_survives_a_fortnight_of_trial_volume() {
    let per_event = "1756300000 abcdef0123456789 pre-commit-usual-name config\n".len() as u64;
    let fortnight = 5 * 20 * 14;
    assert!(
        per_event * fortnight < MAX_BYTES,
        "{fortnight} events of {per_event} bytes must fit under {MAX_BYTES}"
    );
}

/// The lines one append writes read back as the events they record.
#[test]
fn downgrade_appending_twice_writes_exactly_one_header() {
    let mut text = format!("{FORMAT}\n");
    text.push_str(&event_lines(
        1000,
        "abcdef0123456789",
        &[("pre-commit-ban-terms".to_string(), Origin::Config)],
    ));
    text.push_str(&event_lines(
        1001,
        "abcdef0123456789",
        &[("pre-commit-secrets".to_string(), Origin::Declared)],
    ));
    assert_eq!(text.matches(FORMAT).count(), 1, "{text:?}");
    let l = parse(&text);
    assert_eq!((l.total, l.would_block, l.commits), (2, 1, 1));
}

#[test]
fn origins_round_trip() {
    for o in [Origin::Config, Origin::Policy, Origin::Declared] {
        assert_eq!(Origin::parse(o.as_str()), Some(o));
    }
    assert_eq!(Origin::parse("warn"), None);
}

#[test]
fn downgrades_a_repo_with_no_ledger_reads_empty() {
    assert_eq!(downgrades::read(None), Downgrades::default());
}

#[test]
fn downgrades_the_reader_agrees_with_the_runtimes_parser() {
    let text = "amont-downgrade-v1\n\
                100 abcdef0 pre-commit-ban-terms config\n\
                200 abcdef0 pre-commit-ban-terms config\n\
                150 bbbbbbb pre-commit-agents-md declared\n";
    let ours = downgrades::read(Some(text));
    let theirs = parse(text);
    assert_eq!(ours.total, theirs.total);
    assert_eq!(ours.would_block, theirs.would_block);
    assert_eq!(ours.commits, theirs.commits);
    assert_eq!(ours.first, theirs.first);
    assert_eq!(ours.last, theirs.last);
    for (a, b) in ours.by_check.iter().zip(&theirs.by_check) {
        assert_eq!(
            (a.check.as_str(), a.count, a.would_block, a.last),
            (b.check.as_str(), b.count, b.would_block, b.last)
        );
    }
    assert_eq!((ours.total, ours.would_block, ours.commits), (3, 2, 2));
}

#[test]
fn event_lines_are_one_per_check() {
    let s = event_lines(
        42,
        "abcdef0",
        &[
            ("a".to_string(), Origin::Policy),
            ("b".to_string(), Origin::Declared),
        ],
    );
    assert_eq!(s, "42 abcdef0 a policy\n42 abcdef0 b declared\n");
}

#[test]
fn compaction_drops_what_is_not_an_event() {
    let text = format!("{FORMAT}\ngarbage\n5 abcdef0 x config\n\n");
    assert_eq!(compacted(&text), format!("{FORMAT}\n5 abcdef0 x config\n"));
}

/// A repository that never warned about anything has no file: no text.
#[test]
fn downgrade_an_absent_ledger_reads_as_empty() {
    assert_eq!(parse(""), Ledger::default());
    assert_eq!(downgrades::read(None), Downgrades::default());
}

#[test]
fn downgrade_compaction_reads_back_the_same_events_whatever_the_line_endings() {
    let text = format!("{FORMAT}\r\n\n100 abcdef0 a config\r\r\njunk\n200 abcdef1 b declared\n");
    let before = parse(&text);
    let after = parse(&compacted(&text));
    assert_eq!(before.total, 2);
    assert_eq!(after, before);
}

#[test]
fn an_append_reads_back_one_event_per_check() {
    let mut text = format!("{FORMAT}\n");
    text.push_str(&event_lines(
        2000,
        "abcdef0123456789",
        &[("pre-push-test".to_string(), Origin::Policy), ("pre-commit-lint".to_string(), Origin::Declared)],
    ));
    let l = parse(&text);
    assert_eq!((l.total, l.commits), (2, 1));
    assert_eq!(l.last, Some(2000));
    let mut checks: Vec<&str> = l.by_check.iter().map(|c| c.check.as_str()).collect();
    checks.sort();
    assert_eq!(checks, vec!["pre-commit-lint", "pre-push-test"]);
}
