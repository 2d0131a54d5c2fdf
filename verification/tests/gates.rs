use amont::gate_evidence::{self, History, Run, RunOutcome, Thresholds};
use amont::gates::{collect, row, thresholds_line, Document, GateRow};

fn history(rows: Vec<(&str, u64, &str, RunOutcome, u64)>) -> History {
    History {
        runs: rows
            .into_iter()
            .map(|(fp, at, gate, outcome, ms)| {
                (
                    fp.to_string(),
                    Run {
                        at,
                        gate: gate.to_string(),
                        outcome,
                        ms,
                    },
                )
            })
            .collect(),
    }
}

#[test]
fn the_rows_are_the_runtimes_report() {
    let now = 1_800_000_000;
    let h = history(vec![
        (
            "t0",
            now - 3 * 86_400,
            "pre-push-cargo-test",
            RunOutcome::Passed,
            600_000,
        ),
        (
            "t1",
            now - 86_400,
            "pre-push-cargo-test",
            RunOutcome::Failed,
            590_000,
        ),
    ]);
    let theirs = gate_evidence::summarise(&h, now, &Thresholds::default());
    let ours: Vec<GateRow> = theirs.iter().map(|r| row(r, now)).collect();
    assert_eq!(ours.len(), 1);
    assert_eq!(
        (ours[0].runs, ours[0].passed, ours[0].failed, ours[0].median_ms),
        (
            theirs[0].runs,
            theirs[0].passed,
            theirs[0].failed,
            theirs[0].median_ms
        )
    );
    assert_eq!(
        ours[0].insufficient_history.as_deref(),
        Some("insufficient history (2 verdicts)"),
        "and the abstention travels with them"
    );
}

#[test]
fn a_repository_controlled_gate_id_cannot_move_the_cursor() {
    let now = 1_800_000_000;
    let h = history(vec![(
        "t0",
        now - 86_400,
        "pre-push-\u{1b}[2Kevil",
        RunOutcome::Passed,
        10,
    )]);
    let reports = gate_evidence::summarise(&h, now, &Thresholds::default());
    let r = row(&reports[0], now);
    assert!(!r.gate.contains('\u{1b}'), "{:?}", r.gate);
}

#[test]
fn the_thresholds_line_states_the_numbers_it_used() {
    let t = Thresholds {
        window_days: 7,
        noop_ratio_percent: 25,
        ..Thresholds::default()
    };
    let line = thresholds_line(&t);
    assert!(line.contains("window 7 days"), "{line}");
    assert!(line.contains("25%"), "{line}");
}

#[test]
fn a_row_carries_the_last_run_and_its_age() {
    let now = 1_800_000_000;
    let h = history(vec![
        ("t0", now - 3 * 86_400, "g", RunOutcome::Passed, 1500),
        ("t1", now - 2 * 86_400 - 5, "g", RunOutcome::Failed, 2500),
    ]);
    let reports = gate_evidence::summarise(&h, now, &Thresholds::default());
    let r = row(&reports[0], now);
    assert_eq!(r.gate, "g");
    assert_eq!(r.last_ms, 2500);
    assert_eq!(r.last_at, now - 2 * 86_400 - 5);
    assert_eq!(r.last_age_days, 2);
    assert_eq!(r.last_outcome.as_deref(), Some("fail"));
    assert_eq!(r.fingerprints, 2);
}

#[test]
fn collect_keeps_every_repository_even_without_a_record() {
    let now = 1_800_000_000;
    let repos = vec!["a".to_string(), "b".to_string()];
    let hs = vec![
        History::default(),
        history(vec![("t0", now - 10, "g", RunOutcome::Passed, 5)]),
    ];
    let out = collect(&repos, &hs, now, &Thresholds::default());
    assert_eq!(out.len(), 2);
    assert_eq!(out[0].repo, "a");
    assert!(out[0].gates.is_empty());
    assert_eq!(out[1].repo, "b");
    assert_eq!(out[1].gates.len(), 1);
    let d = Document::new(&Thresholds::default(), out);
    assert_eq!(d.thresholds.window_days, 90);
    assert_eq!(d.thresholds.stale_pushes, 10);
    assert_eq!(d.repos.len(), 2);
}
