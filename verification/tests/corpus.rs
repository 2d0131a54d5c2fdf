use amont::corpus::{escape, line_for, parse, score_cases, unescape, Verdict, HEADER};

#[test]
fn a_command_survives_the_round_trip() {
    for command in [
        "git push | tail -1",
        "git commit -F- <<'MSG' 2>&1 | tail -8\nsubject\n\nbody\nMSG\n",
        "echo 'a\tb' && git push",
        "a\\nb literal backslash-n",
        "trailing backslash \\",
    ] {
        let line = line_for(Verdict::Match, command);
        assert_eq!(line.matches('\n').count(), 1, "one line per case");
        let back = parse(&line);
        assert_eq!(back.len(), 1);
        assert_eq!(back[0].command, command, "round trip changed {command:?}");
    }
}

#[test]
fn comments_and_blank_lines_are_not_cases() {
    let text = format!("{HEADER}\n\n# a note\nmatch\tgit push | tail -1\n");
    let cases = parse(&text);
    assert_eq!(cases.len(), 1);
    assert_eq!(cases[0].verdict, Verdict::Match);
}

/// The rule's answer on each case is handed in: here it fires on the one
/// command a human said must stay silent.
#[test]
fn a_disagreement_names_the_line_and_the_command() {
    let cases = parse("nomatch\tgit push origin main | tail -1\n");
    let s = score_cases(&cases, &vec![true]);
    assert!(!s.agrees());
    assert_eq!(s.disagreements[0].line, 1);
    assert_eq!(s.disagreements[0].expected, Verdict::NoMatch);
    assert_eq!(s.disagreements[0].command, "git push origin main | tail -1");
}

#[test]
fn an_unreviewed_case_counts_as_no_evidence() {
    let cases = parse("?\tgit push | tail -1\n?\tgit status\n");
    let s = score_cases(&cases, &vec![true, false]);
    assert_eq!(s.reviewed, 0);
    assert_eq!(s.unreviewed, 2);
    assert!(s.agrees(), "nothing was claimed, so nothing can disagree");
}

#[test]
fn escaping_is_exact() {
    assert_eq!(escape("a\\b\nc\rd\te"), "a\\\\b\\nc\\rd\\te");
    assert_eq!(unescape("a\\\\b\\nc\\rd\\te"), "a\\b\nc\rd\te");
    assert_eq!(unescape("keep \\q as written"), "keep \\q as written");
    assert_eq!(unescape("lone \\"), "lone \\");
    assert_eq!(line_for(Verdict::NoMatch, "x\ny"), "nomatch\tx\\ny\n");
}

#[test]
fn verdicts_are_written_and_read_back() {
    for v in [Verdict::Match, Verdict::NoMatch, Verdict::Unreviewed] {
        assert_eq!(Verdict::parse(v.as_str()), Some(v));
    }
    assert_eq!(Verdict::parse("maybe"), None);
}

#[test]
fn a_line_without_a_tab_or_verdict_is_skipped_and_lines_are_counted() {
    let cases = parse("# header\nbogus line\nmaybe\tgit x\n\nmatch\tgit push\n");
    assert_eq!(cases.len(), 1);
    assert_eq!(cases[0].line, 5);
    assert_eq!(cases[0].command, "git push");
}

#[test]
fn scoring_counts_each_kind() {
    let cases = parse("match\ta\nnomatch\tb\n?\tc\nmatch\td\n");
    let s = score_cases(&cases, &vec![true, false, true, false]);
    assert_eq!(s.reviewed, 3);
    assert_eq!(s.negatives, 1);
    assert_eq!(s.unreviewed, 1);
    assert_eq!(s.disagreements.len(), 1);
    assert_eq!(s.disagreements[0].line, 4);
    assert_eq!(s.disagreements[0].expected, Verdict::Match);
}
