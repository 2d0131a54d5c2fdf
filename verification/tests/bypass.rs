use amont::bypass::{age, compacted, event_lines, parse, Ledger, FORMAT, KEEP, MAX_BYTES};
use amont::bypasses::{self, Bypasses};

fn ledger(events: &[&str]) -> String {
    let mut s = format!("{FORMAT}\n");
    for e in events {
        s.push_str(e);
        s.push('\n');
    }
    s
}

#[test]
fn bypass_a_ledger_without_the_header_is_ignored() {
    assert_eq!(parse("100 abcdef0 typecheck\n"), Ledger::default());
    assert_eq!(parse(""), Ledger::default());
}

#[test]
fn bypass_a_ledger_in_an_unknown_format_version_reads_as_empty() {
    assert_eq!(
        parse("amont-bypass-v2\n100 abcdef0 typecheck\n"),
        Ledger::default()
    );
}

#[test]
fn bypass_malformed_lines_are_skipped_and_the_rest_still_counted() {
    let text = ledger(&[
        "100 abcdef0 typecheck",
        "not an event line",
        "101 abcdef0",
        "102 abcdef0 test extra",
        "103 nothexg typecheck",
        "104 abc typecheck",
        "105 abcdef0 test",
    ]);
    let l = parse(&text);
    assert_eq!(l.total, 2);
    assert_eq!(l.last, Some(105));
}

#[test]
fn a_script_name_with_a_control_byte_is_rejected() {
    let text = ledger(&["100 abcdef0 type\u{1b}check"]);
    assert_eq!(parse(&text).total, 0);
}

#[test]
fn counts_group_by_script_and_keep_the_latest_timestamp() {
    let text = ledger(&[
        "100 aaaaaaa typecheck",
        "200 bbbbbbb test",
        "300 ccccccc typecheck",
    ]);
    let l = parse(&text);
    assert_eq!(l.total, 3);
    assert_eq!(l.last, Some(300));
    assert_eq!(l.by_script.len(), 2);
    assert_eq!(l.by_script[0].script, "typecheck");
    assert_eq!(l.by_script[0].count, 2);
    assert_eq!(l.by_script[0].last, 300);
    assert_eq!(l.by_script[1].script, "test");
    assert_eq!(l.by_script[1].last, 200);
}

#[test]
fn age_reads_in_the_largest_unit_that_fits() {
    assert_eq!(age(1000, 990), "just now");
    assert_eq!(age(1000 + 120, 1000), "2m ago");
    assert_eq!(age(1000 + 2 * 3600, 1000), "2h ago");
    assert_eq!(age(1000 + 3 * 86_400, 1000), "3d ago");
    assert_eq!(age(1000 + 20 * 86_400, 1000), "2w ago");
    assert_eq!(age(1000 + 800 * 86_400, 1000), "2y ago");
}

#[test]
fn a_timestamp_from_the_future_does_not_underflow() {
    assert_eq!(age(100, 200), "just now");
}

/// What compaction writes back: the header and the newest events.
#[test]
fn bypass_compaction_keeps_the_header_and_the_newest_events() {
    let mut body = format!("{FORMAT}\n");
    for i in 0..2_600u64 {
        body.push_str(&format!("{i} abcdef0123456789 typecheck\n"));
    }
    assert!(body.len() as u64 > MAX_BYTES);
    let text = compacted(&body);
    assert!(text.starts_with(FORMAT));
    let l = parse(&text);
    assert_eq!(l.total, KEEP);
    assert_eq!(l.last, Some(2_599), "the newest events survive");
}

/// The lines one append writes read back as the events they record.
#[test]
fn bypass_appending_twice_writes_exactly_one_header() {
    let mut text = format!("{FORMAT}\n");
    text.push_str(&event_lines(1000, "abcdef0123456789", &["typecheck"]));
    text.push_str(&event_lines(1001, "abcdef0123456789", &["test"]));
    assert_eq!(text.matches(FORMAT).count(), 1, "{text:?}");
    assert_eq!(parse(&text).total, 2);
    assert_eq!(event_lines(7, "abcdef0", &["a", "b"]), "7 abcdef0 a\n7 abcdef0 b\n");
}

/// An absent ledger is read as no text at all.
#[test]
fn bypasses_a_repo_with_no_ledger_reads_empty() {
    assert_eq!(bypasses::read(None), Bypasses::default());
}

#[test]
fn bypasses_the_reader_agrees_with_the_runtimes_parser() {
    let text = ledger(&[
        "100 aaaaaaa typecheck",
        "200 bbbbbbb test",
        "300 ccccccc typecheck",
    ]);
    let theirs = parse(&text);
    let ours = bypasses::read(Some(&text));
    assert_eq!(ours.total, theirs.total);
    assert_eq!(ours.last, theirs.last);
    assert_eq!(ours.by_script.len(), theirs.by_script.len());
    for (a, b) in ours.by_script.iter().zip(theirs.by_script.iter()) {
        assert_eq!((a.script.as_str(), a.count, a.last), (b.script.as_str(), b.count, b.last));
    }
}

#[test]
fn blank_lines_and_padding_do_not_matter() {
    let text = format!("\n{FORMAT}\n\n  7 abcdef0   lint  \n\n");
    let l = parse(&text);
    assert_eq!(l.total, 1);
    assert_eq!(l.by_script[0].script, "lint");
}

#[test]
fn ties_in_count_order_by_name() {
    let text = ledger(&["1 abcdef0 zeta", "2 abcdef0 alpha", "3 abcdef0 mid"]);
    let l = parse(&text);
    let names: Vec<&str> = l.by_script.iter().map(|s| s.script.as_str()).collect();
    assert_eq!(names, vec!["alpha", "mid", "zeta"]);
}

#[test]
fn the_age_boundaries_are_exact() {
    assert_eq!(age(59, 0), "just now");
    assert_eq!(age(60, 0), "1m ago");
    assert_eq!(age(3599, 0), "59m ago");
    assert_eq!(age(3600, 0), "1h ago");
    assert_eq!(age(86_400, 0), "1d ago");
    assert_eq!(age(7 * 86_400, 0), "1w ago");
    assert_eq!(age(365 * 86_400, 0), "1y ago");
}

/// A repository that never bypassed anything has no file: no text at all.
#[test]
fn bypass_an_absent_ledger_reads_as_empty() {
    assert_eq!(parse(""), Ledger::default());
    assert_eq!(bypasses::read(None), Bypasses::default());
}

#[test]
fn bypass_compaction_reads_back_the_same_events_whatever_the_line_endings() {
    let text = format!("{FORMAT}\r\n\n100 abcdef0 a\r\r\njunk\n200 abcdef0 b\n");
    let before = parse(&text);
    let after = parse(&compacted(&text));
    assert_eq!(before.total, 2);
    assert_eq!(after, before);
}

#[test]
fn an_append_reads_back_one_event_per_script() {
    let mut text = format!("{FORMAT}\n");
    text.push_str(&event_lines(500, "abcdef0123456789", &["lint"]));
    text.push_str(&event_lines(900, "0123456789abcdef", &["test", "lint", "typecheck"]));
    let l = parse(&text);
    assert_eq!(l.total, 4);
    assert_eq!(l.last, Some(900));
    let rows: Vec<(&str, usize, u64)> = l.by_script.iter().map(|c| (c.script.as_str(), c.count, c.last)).collect();
    assert_eq!(rows, vec![("lint", 2, 900), ("test", 1, 900), ("typecheck", 1, 900)]);
}
