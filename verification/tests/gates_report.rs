use amont::gate_evidence::{duration, Thresholds};
use amont::gates::{thresholds_line, FlagRow, GateRow, RepoGates};
use amont::gates_report::report;

fn row(gate: &str, flags: Vec<FlagRow>, unavailable: usize, short: Option<&str>) -> GateRow {
    GateRow {
        gate: gate.to_string(),
        runs: 12,
        passed: 11,
        failed: 1,
        unavailable,
        median_ms: 65_000,
        last_ms: 2_000,
        last_at: 0,
        last_age_days: 3,
        last_outcome: Some("passed".to_string()),
        missed_pushes: 0,
        fingerprints: 4,
        flags,
        insufficient_history: short.map(str::to_string),
    }
}

#[test]
fn the_report_tables_each_repository_with_a_record() {
    let t = Thresholds::default();
    let flag = FlagRow { flag: "noop".to_string(), why: "last run 2s against a median of 1m05s".to_string() };
    let all = vec![
        RepoGates { repo: String::new(), gates: vec![row("pre-push-pytest", vec![flag], 2, None)] },
        RepoGates { repo: "quiet".to_string(), gates: vec![] },
        RepoGates { repo: "b".to_string(), gates: vec![row("go", vec![], 0, Some("3 verdicts"))] },
    ];
    let median = duration(65_000);
    let last = duration(2_000);
    let pad15 = " ".repeat(2 + 15 + 2);
    let pad4 = " ".repeat(2 + 4 + 2);
    let expected = format!(
        "{}\n\n\
         .\n\
         \x20 pre-push-pytest    12 runs   11 pass    1 fail  median {median:>9}  last {last:>9}     3d ago\n\
         {pad15}2 run(s) could not judge anything \u{2014} not counted as passes\n\
         {pad15}NOOP: last run 2s against a median of 1m05s\n\
         \n\
         b\n\
         \x20 go      12 runs   11 pass    1 fail  median {median:>9}  last {last:>9}     3d ago\n\
         {pad4}3 verdicts \u{2014} no flag computed\n\
         \n\
         2 gate(s) with a record across 2 repositories; 1 finding(s)\n\
         1 repository have pushed nothing through a gate yet (or their notes have been pruned) \u{2014} no record, so nothing is claimed about them\n",
        thresholds_line(&t)
    );
    assert_eq!(report(&all, &t), expected);
}

#[test]
fn an_empty_fleet_still_says_what_it_compared_against() {
    let t = Thresholds::default();
    assert_eq!(
        report(&[], &t),
        format!("{}\n\n0 gate(s) with a record across 0 repositories; 0 finding(s)\n", thresholds_line(&t))
    );
}
