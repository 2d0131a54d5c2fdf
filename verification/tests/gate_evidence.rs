use amont::gate_evidence::{
    duration, order_by_evidence, parse_batch, summarise, FlagKind, GateReport, History, Run,
    RunOutcome, Thresholds,
};

fn run(at: u64, gate: &str, outcome: RunOutcome, ms: u64) -> Run {
    Run {
        at,
        gate: gate.to_string(),
        outcome,
        ms,
    }
}

fn history(rows: &[(&str, Run)]) -> History {
    History {
        runs: rows
            .iter()
            .map(|(fp, r)| ((*fp).to_string(), r.clone()))
            .collect(),
    }
}

/// The same, where a test builds its fingerprints rather than spelling
/// them out.
fn owned_history(rows: Vec<(String, Run)>) -> History {
    History { runs: rows }
}

const NOW: u64 = 1_800_000_000;
const DAY: u64 = 86_400;

fn of<'a>(reports: &'a [GateReport], gate: &str) -> &'a GateReport {
    reports
        .iter()
        .find(|r| r.gate == gate)
        .unwrap_or_else(|| panic!("no report for {gate}: {reports:?}"))
}

fn kinds(r: &GateReport) -> Vec<FlagKind> {
    r.flags.iter().map(|f| f.kind).collect()
}

/// The signature the fleet audit of 2026-09-19 found four times: a gate
/// that used to take minutes returns in milliseconds and still passes.
/// Nothing in the hook can see it — the exit code is 0 — and this is the
/// only place the collapse is visible.
#[test]
fn a_suite_that_collapsed_to_milliseconds_is_a_no_op_suspect() {
    let mut rows: Vec<(&str, Run)> = (0..8)
        .map(|i| {
            (
                "tree0",
                run(
                    NOW - (10 - i) * DAY,
                    "pre-push-cargo-test",
                    RunOutcome::Passed,
                    600_000,
                ),
            )
        })
        .collect();
    rows.push((
        "tree9",
        run(NOW - DAY, "pre-push-cargo-test", RunOutcome::Passed, 400),
    ));
    let reports = summarise(&history(&rows), NOW, &Thresholds::default());
    let r = of(&reports, "pre-push-cargo-test");
    assert_eq!(kinds(r), vec![FlagKind::NoOpSuspect]);
    assert!(
        r.flags[0].why.contains("400 ms") && r.flags[0].why.contains("threshold 10%"),
        "the flag must carry the comparison it made: {:?}",
        r.flags[0].why
    );
}

/// The other shape: a gate that has ALWAYS returned instantly has no
/// collapse to measure, so the rule is "it has never once done real
/// work", and it only fires once there is enough history to say so.
#[test]
fn a_gate_that_never_once_took_real_time_is_also_suspect() {
    let rows: Vec<(&str, Run)> = (0..6)
        .map(|i| {
            (
                "tree0",
                run(
                    NOW - (7 - i) * DAY,
                    "pre-push-audit-python",
                    RunOutcome::Passed,
                    if i == 5 { 30 } else { 4_000 },
                ),
            )
        })
        .collect();
    let reports = summarise(&history(&rows), NOW, &Thresholds::default());
    assert_eq!(
        kinds(of(&reports, "pre-push-audit-python")),
        vec![FlagKind::NoOpSuspect]
    );
}

/// Two verdicts, one tree. The content could not have changed between
/// them, so what changed is the check itself.
#[test]
fn one_fingerprint_with_two_answers_is_flaky() {
    let rows = [
        (
            "treeA",
            run(NOW - 6 * DAY, "pre-push-pytest", RunOutcome::Passed, 90_000),
        ),
        (
            "treeA",
            run(NOW - 5 * DAY, "pre-push-pytest", RunOutcome::Failed, 88_000),
        ),
        (
            "treeA",
            run(NOW - 4 * DAY, "pre-push-pytest", RunOutcome::Passed, 91_000),
        ),
        (
            "treeB",
            run(NOW - 3 * DAY, "pre-push-pytest", RunOutcome::Passed, 92_000),
        ),
        (
            "treeB",
            run(NOW - 2 * DAY, "pre-push-pytest", RunOutcome::Passed, 90_500),
        ),
    ];
    let r = summarise(&history(&rows), NOW, &Thresholds::default());
    let r = of(&r, "pre-push-pytest");
    assert_eq!(kinds(r), vec![FlagKind::Flaky]);
    assert!(r.flags[0].why.contains("treeA"), "{:?}", r.flags[0].why);
}

/// Stale is a claim about the NEIGHBOURS: other gates kept judging trees
/// this one did not. A quiet repository where nothing ran is not stale.
#[test]
fn a_gate_left_behind_by_its_neighbours_is_stale() {
    let mut rows = vec![(
        "tree0".to_string(),
        run(
            NOW - 40 * DAY,
            "pre-push-go-test",
            RunOutcome::Passed,
            5_000,
        ),
    )];
    for i in 0..12u64 {
        rows.push((
            format!("tree{}", i + 1),
            run(
                NOW - (12 - i) * DAY,
                "pre-push-cargo-test",
                RunOutcome::Passed,
                5_000,
            ),
        ));
    }
    let reports = summarise(&owned_history(rows), NOW, &Thresholds::default());
    let stale = of(&reports, "pre-push-go-test");
    assert!(kinds(stale).contains(&FlagKind::Stale), "{:?}", stale.flags);
    assert!(
        of(&reports, "pre-push-cargo-test").flags.is_empty(),
        "the check that kept running is not stale"
    );
}

/// The refusal that matters most: two runs say nothing, and the report
/// says THAT rather than an empty flags column.
#[test]
fn too_little_history_abstains_out_loud() {
    let rows = [
        (
            "tree0",
            run(
                NOW - 2 * DAY,
                "pre-push-cargo-test",
                RunOutcome::Passed,
                600_000,
            ),
        ),
        (
            "tree1",
            run(NOW - DAY, "pre-push-cargo-test", RunOutcome::Passed, 300),
        ),
    ];
    let reports = summarise(&history(&rows), NOW, &Thresholds::default());
    let r = of(&reports, "pre-push-cargo-test");
    assert_eq!(
        r.abstained.as_deref(),
        Some("insufficient history (2 verdicts)")
    );
    assert!(
        r.flags.is_empty(),
        "a two-run history must not raise a flag: {:?}",
        r.flags
    );
    assert_eq!((r.runs, r.passed), (2, 2), "the counts are still reported");
}

/// A gate that could not run is not a gate that passed. The count is
/// kept separately, because the audit this module exists for found four
/// mechanisms whose whole failure mode was that nobody counted it.
#[test]
fn an_unavailable_run_is_never_counted_as_a_pass() {
    let rows = [
        (
            "tree0",
            run(
                NOW - 2 * DAY,
                "pre-push-audit-go",
                RunOutcome::Unavailable,
                200,
            ),
        ),
        (
            "tree1",
            run(NOW - DAY, "pre-push-audit-go", RunOutcome::Unavailable, 210),
        ),
    ];
    let reports = summarise(&history(&rows), NOW, &Thresholds::default());
    let r = of(&reports, "pre-push-audit-go");
    assert_eq!((r.passed, r.failed, r.unavailable), (0, 0, 2));
}

/// Outside the window is outside the report.
#[test]
fn the_window_excludes_what_is_older_than_it() {
    let rows = [
        (
            "tree0",
            run(
                NOW - 200 * DAY,
                "pre-push-cargo-test",
                RunOutcome::Failed,
                500,
            ),
        ),
        (
            "tree1",
            run(NOW - DAY, "pre-push-cargo-test", RunOutcome::Passed, 500),
        ),
    ];
    let reports = summarise(&history(&rows), NOW, &Thresholds::default());
    assert_eq!(of(&reports, "pre-push-cargo-test").runs, 1);
}

/// Ordering promotes the check that catches the most per second spent —
/// not the one that fails most often. A five-second audit failing one
/// push in six beats a twenty-minute suite failing one in three.
#[test]
fn ordering_prefers_failures_per_second_not_failure_rate() {
    let gates: Vec<String> = ["suite", "audit"].iter().map(|s| s.to_string()).collect();
    let mut rows: Vec<(&str, Run)> = Vec::new();
    for i in 0..6u64 {
        rows.push((
            "tree0",
            run(
                NOW - (10 - i) * DAY,
                "suite",
                if i < 2 {
                    RunOutcome::Failed
                } else {
                    RunOutcome::Passed
                },
                1_200_000,
            ),
        ));
        rows.push((
            "tree0",
            run(
                NOW - (10 - i) * DAY,
                "audit",
                if i < 1 {
                    RunOutcome::Failed
                } else {
                    RunOutcome::Passed
                },
                5_000,
            ),
        ));
    }
    let order = order_by_evidence(&gates, &history(&rows), NOW, 90);
    assert_eq!(order, vec![1, 0], "the cheap audit runs first");
}

/// With no record at all, the declared order is the order. This is the
/// fallback every repository starts in, and it must be exact.
#[test]
fn with_no_history_the_declared_order_is_kept() {
    let gates: Vec<String> = ["a", "b", "c"].iter().map(|s| s.to_string()).collect();
    assert_eq!(
        order_by_evidence(&gates, &History::default(), NOW, 90),
        vec![0, 1, 2]
    );
}

/// A gate that has never failed is not promoted over one that has, and
/// the never-failed ones keep their order among themselves.
#[test]
fn only_gates_that_actually_failed_are_promoted() {
    let gates: Vec<String> = ["a", "b", "c"].iter().map(|s| s.to_string()).collect();
    let rows = [
        ("t", run(NOW - 3 * DAY, "a", RunOutcome::Passed, 1_000)),
        ("t", run(NOW - 3 * DAY, "b", RunOutcome::Passed, 1_000)),
        ("t", run(NOW - 2 * DAY, "c", RunOutcome::Failed, 1_000)),
        ("t", run(NOW - DAY, "c", RunOutcome::Passed, 1_000)),
    ];
    assert_eq!(
        order_by_evidence(&gates, &history(&rows), NOW, 90),
        vec![2, 0, 1]
    );
}

/// Every gate handed in comes back out, exactly once — the property that
/// makes this a permutation and not a filter.
#[test]
fn ordering_is_a_permutation_and_never_drops_a_gate() {
    let gates: Vec<String> = ["a", "b", "c", "d"].iter().map(|s| s.to_string()).collect();
    let rows = [
        ("t", run(NOW - DAY, "b", RunOutcome::Failed, 10)),
        ("t", run(NOW - DAY, "d", RunOutcome::Failed, 10_000)),
    ];
    let mut order = order_by_evidence(&gates, &history(&rows), NOW, 90);
    assert_eq!(order.len(), gates.len());
    order.sort_unstable();
    assert_eq!(order, vec![0, 1, 2, 3]);
}

/// The batch reader, against the shape git actually prints.
#[test]
fn cat_file_batch_output_splits_into_bodies() {
    let oid = "0123456789abcdef0123456789abcdef01234567";
    let other = "89abcdef0123456789abcdef0123456789abcdef";
    let out = format!(
        "{oid} blob 42\namont-gate-v1 pre-push-cargo-test\nrun 10 pre-push-cargo-test pass 5\n\
         {other} blob 14\namont-gate-v1\n"
    );
    let got = parse_batch(&out);
    assert_eq!(got.len(), 2);
    assert_eq!(got[0].0, oid);
    assert!(got[0].1.contains("run 10"));
    assert_eq!(got[1].0, other);
}

#[test]
fn durations_read_like_durations() {
    assert_eq!(duration(400), "400 ms");
    assert_eq!(duration(5_400), "5.4 s");
    assert_eq!(duration(662_000), "11 m 02 s");
}

#[test]
fn durations_round_down_at_each_unit() {
    assert_eq!(duration(0), "0 ms");
    assert_eq!(duration(999), "999 ms");
    assert_eq!(duration(1_000), "1.0 s");
    assert_eq!(duration(59_999), "59.9 s");
    assert_eq!(duration(60_000), "1 m 00 s");
}

#[test]
fn a_history_knows_when_it_is_empty() {
    assert!(History::default().is_empty());
    let h = history(&[("t", run(NOW, "g", RunOutcome::Passed, 1))]);
    assert!(!h.is_empty());
    assert_eq!(RunOutcome::Unavailable.as_str(), "unavailable");
    assert!(!RunOutcome::Unavailable.is_verdict());
    assert_eq!(FlagKind::NoOpSuspect.as_str(), "no-op suspect");
}

#[test]
fn a_report_counts_fingerprints_and_ages_its_last_run() {
    let rows = [
        ("t1", run(NOW - 3 * DAY, "g", RunOutcome::Passed, 100)),
        ("t2", run(NOW - 2 * DAY - 1, "g", RunOutcome::Failed, 300)),
        ("t2", run(NOW - 2 * DAY, "g", RunOutcome::Passed, 200)),
    ];
    let reports = summarise(&history(&rows), NOW, &Thresholds::default());
    let r = of(&reports, "g");
    assert_eq!(r.fingerprints, 2);
    assert_eq!(r.median_ms, 200);
    assert_eq!(r.last_ms, 200);
    assert_eq!(r.last_outcome, Some(RunOutcome::Passed));
    assert_eq!(r.last_age_days(NOW), 2);
    assert_eq!(r.last_age_days(0), 0);
}

#[test]
fn batch_output_without_a_header_line_is_dropped() {
    assert!(parse_batch("").is_empty());
    assert!(parse_batch("abc blob 3\nxyz\n").is_empty(), "a short id is no header");
    let oid = "0123456789abcdef0123456789abcdef01234567";
    let got = parse_batch(&format!("stray\n{oid} blob 3\nxyz\nmore\n"));
    assert_eq!(got.len(), 1);
    assert_eq!(got[0].0, oid);
    assert_eq!(got[0].1, "xyz\nmore");
}
