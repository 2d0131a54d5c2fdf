//! What every repository's own record says about its gates, as the fleet
//! dashboard shows it. The statistics are not computed here: the rows are
//! the runtime's reports, field for field, with repository-controlled text
//! made safe to print.

use vstd::prelude::*;
use crate::gate_evidence::{self, GateReport, History, Thresholds, FlagKind, RunOutcome};
use crate::text::{chars_of, string_of, decimal, decimal_chars, push_chars, push_str};
use crate::ui::{sanitize, spec_sanitize};

verus! {

/// The thresholds the flags were decided against, then the repositories.
#[derive(Debug, Clone, PartialEq, Eq)]
pub struct Document {
    pub thresholds: ThresholdsJson,
    pub repos: Vec<RepoGates>,
}

/// The runtime's thresholds, as the document spells them.
#[derive(Debug, Clone, Copy, PartialEq, Eq, Structural)]
pub struct ThresholdsJson {
    pub window_days: u64,
    pub min_runs: usize,
    pub noop_ratio_percent: u64,
    pub noop_median_secs: u64,
    pub fast_pass_ms: u64,
    pub stale_pushes: usize,
    pub stale_days: u64,
}

/// One repository's gates, or the fact that it has no record yet.
#[derive(Debug, Clone, PartialEq, Eq)]
pub struct RepoGates {
    /// Path relative to the scan root.
    pub repo: String,
    pub gates: Vec<GateRow>,
}

#[derive(Debug, Clone, PartialEq, Eq)]
pub struct GateRow {
    pub gate: String,
    pub runs: usize,
    pub passed: usize,
    pub failed: usize,
    /// Ran and judged nothing; never folded into `passed`.
    pub unavailable: usize,
    pub median_ms: u64,
    pub last_ms: u64,
    /// Epoch seconds of the last run, and its age in whole days.
    pub last_at: u64,
    pub last_age_days: u64,
    /// How the last run ended, in the record's own words.
    pub last_outcome: Option<String>,
    /// Later trees other gates judged and this one did not.
    pub missed_pushes: usize,
    pub fingerprints: usize,
    pub flags: Vec<FlagRow>,
    /// Present when the history is too short for any flag to be honest.
    pub insufficient_history: Option<String>,
}

#[derive(Debug, Clone, PartialEq, Eq)]
pub struct FlagRow {
    pub flag: String,
    pub why: String,
}

impl Document {
    pub fn new(t: &Thresholds, repos: Vec<RepoGates>) -> (d: Document)
        ensures
            d.thresholds == (ThresholdsJson {
                window_days: t.window_days,
                min_runs: t.min_runs,
                noop_ratio_percent: t.noop_ratio_percent,
                noop_median_secs: t.noop_median_secs,
                fast_pass_ms: t.fast_pass_ms,
                stale_pushes: t.stale_runs,
                stale_days: t.stale_days,
            }),
            d.repos@ == repos@,
    {
        Document {
            thresholds: ThresholdsJson {
                window_days: t.window_days,
                min_runs: t.min_runs,
                noop_ratio_percent: t.noop_ratio_percent,
                noop_median_secs: t.noop_median_secs,
                fast_pass_ms: t.fast_pass_ms,
                stale_pushes: t.stale_runs,
                stale_days: t.stale_days,
            },
            repos,
        }
    }
}

pub open spec fn opt_text(o: Option<String>) -> Option<Seq<char>> {
    match o {
        Some(s) => Some(s@),
        None => None,
    }
}

/// `row` is the runtime's report `r`, field for field, its gate id and
/// flag reasons made safe to print.
pub open spec fn row_of(row: GateRow, r: GateReport, now: u64) -> bool {
    &&& row.gate@ == spec_sanitize(r.gate@)
    &&& row.runs == r.runs
    &&& row.passed == r.passed
    &&& row.failed == r.failed
    &&& row.unavailable == r.unavailable
    &&& row.median_ms == r.median_ms
    &&& row.last_ms == r.last_ms
    &&& row.last_at == r.last_at
    &&& row.last_age_days == gate_evidence::sat_sub(now, r.last_at) / 86_400
    &&& opt_text(row.last_outcome) == match r.last_outcome {
        Some(o) => Some(gate_evidence::outcome_text(o)),
        None => None::<Seq<char>>,
    }
    &&& row.missed_pushes == r.missed
    &&& row.fingerprints == r.fingerprints
    &&& row.flags@.len() == r.flags@.len()
    &&& forall|k: int| 0 <= k < row.flags@.len() ==> #[trigger] row.flags@[k].flag@ == gate_evidence::flag_kind_text(r.flags@[k].kind)
        && row.flags@[k].why@ == spec_sanitize(r.flags@[k].why@)
    &&& opt_text(row.insufficient_history) == opt_text(r.abstained)
}

/// `row` is a row of some report the record `h` gives, under `now` and `t`.
pub open spec fn row_reports(row: GateRow, h: History, now: u64, t: Thresholds) -> bool {
    exists|rep: GateReport|
        gate_evidence::report_for(rep, gate_evidence::history_view(h), rep.gate@, now, t) && #[trigger] row_of(row, rep, now)
}

/// One report as a table row.
pub fn row(r: &GateReport, now: u64) -> (g: GateRow)
    ensures
        row_of(g, *r, now),
{
    let mut flags: Vec<FlagRow> = Vec::new();
    let mut k: usize = 0;
    while k < r.flags.len()
        invariant
            k <= r.flags@.len(),
            flags@.len() == k,
            forall|m: int| 0 <= m < k ==> #[trigger] flags@[m].flag@ == gate_evidence::flag_kind_text(r.flags@[m].kind)
                && flags@[m].why@ == spec_sanitize(r.flags@[m].why@),
        decreases r.flags.len() - k,
    {
        let f = &r.flags[k];
        flags.push(FlagRow { flag: string_of(&chars_of(f.kind.as_str())), why: sanitize(f.why.as_str()) });
        k += 1;
    }
    GateRow {
        gate: sanitize(r.gate.as_str()),
        runs: r.runs,
        passed: r.passed,
        failed: r.failed,
        unavailable: r.unavailable,
        median_ms: r.median_ms,
        last_ms: r.last_ms,
        last_at: r.last_at,
        last_age_days: r.last_age_days(now),
        last_outcome: match r.last_outcome {
            Some(o) => Some(string_of(&chars_of(o.as_str()))),
            None => None,
        },
        missed_pushes: r.missed,
        fingerprints: r.fingerprints,
        flags,
        insufficient_history: match &r.abstained {
            Some(a) => Some(string_of(&chars_of(a.as_str()))),
            None => None,
        },
    }
}

/// `rows` are the runtime's summary of the record `h`, one for one: a
/// report for each gate that ran in the window, in strictly ascending gate
/// order, each what the record says of that gate, each made a row.
pub open spec fn rows_summarise(rows: Seq<GateRow>, h: History, now: u64, t: Thresholds) -> bool {
    exists|reps: Seq<GateReport>| #[trigger] summary_rows(rows, reps, h, now, t)
}

pub open spec fn summary_rows(rows: Seq<GateRow>, reps: Seq<GateReport>, h: History, now: u64, t: Thresholds) -> bool {
    let hv = gate_evidence::history_view(h);
    &&& reps.len() == rows.len()
    &&& forall|i: int, j: int| 0 <= i < j < reps.len() ==> crate::text::chars_less(
        #[trigger] gate_evidence::report_gates(reps)[i],
        #[trigger] gate_evidence::report_gates(reps)[j],
    )
    &&& forall|x: Seq<char>| gate_evidence::report_gates(reps).contains(x) <==> gate_evidence::window_gates(
        hv,
        gate_evidence::window_floor(now, t.window_days),
        h.runs@.len() as int,
    ).contains(x)
    &&& forall|i: int| 0 <= i < reps.len() ==> gate_evidence::report_for(#[trigger] reps[i], hv, reps[i].gate@, now, t)
    &&& forall|i: int| 0 <= i < reps.len() ==> row_of(#[trigger] rows[i], reps[i], now)
}

/// Every repository's rows, in the order given: `histories[k]` is the record
/// of `repos[k]`, and each repository's rows are the runtime's summary of it,
/// in gate-name order.
pub fn collect(repos: &[String], histories: &[History], now: u64, t: &Thresholds) -> (r: Vec<RepoGates>)
    requires
        histories@.len() == repos@.len(),
    ensures
        r@.len() == repos@.len(),
        forall|k: int| 0 <= k < r@.len() ==> (#[trigger] r@[k]).repo@ == repos@[k]@,
        forall|k: int| 0 <= k < r@.len() ==> rows_summarise((#[trigger] r@[k]).gates@, histories@[k], now, *t),
        forall|k: int, i: int| 0 <= k < r@.len() && 0 <= i < r@[k].gates@.len() ==> row_reports(#[trigger] r@[k].gates@[i], histories@[k], now, *t),
{
    let mut out: Vec<RepoGates> = Vec::new();
    let mut k: usize = 0;
    while k < repos.len()
        invariant
            k <= repos@.len(),
            histories@.len() == repos@.len(),
            out@.len() == k,
            forall|m: int| 0 <= m < k ==> (#[trigger] out@[m]).repo@ == repos@[m]@,
            forall|m: int| 0 <= m < k ==> rows_summarise((#[trigger] out@[m]).gates@, histories@[m], now, *t),
            forall|m: int, i: int| 0 <= m < k && 0 <= i < out@[m].gates@.len() ==> row_reports(#[trigger] out@[m].gates@[i], histories@[m], now, *t),
        decreases repos.len() - k,
    {
        let rows = summary_of(&histories[k], now, t);
        out.push(RepoGates { repo: string_of(&chars_of(repos[k].as_str())), gates: rows });
        proof {
            assert forall|m: int| 0 <= m < k + 1 implies (#[trigger] out@[m]).repo@ == repos@[m]@ by {
                if m < k {
                    assert(out@[m] == out@.drop_last()[m]);
                }
            }
            assert forall|m: int| 0 <= m < k + 1 implies rows_summarise((#[trigger] out@[m]).gates@, histories@[m], now, *t) by {
                if m < k {
                    assert(out@[m] == out@.drop_last()[m]);
                }
            }
            assert forall|m: int, i: int| 0 <= m < k + 1 && 0 <= i < out@[m].gates@.len() implies row_reports(#[trigger] out@[m].gates@[i], histories@[m], now, *t) by {
                if m < k {
                    assert(out@[m] == out@.drop_last()[m]);
                }
            }
        }
        k += 1;
    }
    out
}

/// One repository's rows: the runtime's summary of its record, as rows.
fn summary_of(h: &History, now: u64, t: &Thresholds) -> (rows: Vec<GateRow>)
    ensures
        rows_summarise(rows@, *h, now, *t),
        forall|i: int| 0 <= i < rows@.len() ==> row_reports(#[trigger] rows@[i], *h, now, *t),
{
    let reports = gate_evidence::summarise(h, now, t);
    let mut rows: Vec<GateRow> = Vec::new();
    let mut j: usize = 0;
    while j < reports.len()
        invariant
            j <= reports@.len(),
            rows@.len() == j,
            forall|i: int| 0 <= i < j ==> row_of(#[trigger] rows@[i], reports@[i], now),
        decreases reports.len() - j,
    {
        let g = row(&reports[j], now);
        rows.push(g);
        proof {
            assert forall|i: int| 0 <= i < j + 1 implies row_of(#[trigger] rows@[i], reports@[i], now) by {
                if i < j {
                    assert(rows@[i] == rows@.drop_last()[i]);
                }
            }
        }
        j += 1;
    }
    proof {
        assert forall|i: int| 0 <= i < reports@.len() implies gate_evidence::report_for(#[trigger] reports@[i], gate_evidence::history_view(*h), reports@[i].gate@, now, *t) by {
            assert(gate_evidence::report_gates(reports@)[i] == reports@[i].gate@);
        }
        assert(summary_rows(rows@, reports@, *h, now, *t));
        assert forall|i: int| 0 <= i < rows@.len() implies row_reports(#[trigger] rows@[i], *h, now, *t) by {
            assert(gate_evidence::report_for(reports@[i], gate_evidence::history_view(*h), reports@[i].gate@, now, *t));
            assert(row_of(rows@[i], reports@[i], now));
        }
    }
    rows
}

/// The one-line statement of what the numbers were compared against.
pub open spec fn spec_thresholds_line(t: Thresholds) -> Seq<char> {
    "window "@ + decimal(t.window_days as nat) + " days · no-op suspect below "@ + decimal(t.noop_ratio_percent as nat)
        + "% of a median of "@ + decimal(t.noop_median_secs as nat) + "s+, or a pass under "@
        + gate_evidence::spec_duration(t.fast_pass_ms) + " from a gate that never was that fast · stale after "@
        + decimal(t.stale_runs as nat) + " missed pushes or "@ + decimal(t.stale_days as nat)
        + " days · under "@ + decimal(t.min_runs as nat) + " verdicts nothing is flagged"@
}

/// What the numbers below were compared against, printed every time.
pub fn thresholds_line(t: &Thresholds) -> (r: String)
    ensures
        r@ == spec_thresholds_line(*t),
{
    let mut out: Vec<char> = Vec::new();
    push_str(&mut out, "window ");
    push_chars(&mut out, &decimal_chars(t.window_days));
    push_str(&mut out, " days · no-op suspect below ");
    push_chars(&mut out, &decimal_chars(t.noop_ratio_percent));
    push_str(&mut out, "% of a median of ");
    push_chars(&mut out, &decimal_chars(t.noop_median_secs));
    push_str(&mut out, "s+, or a pass under ");
    push_chars(&mut out, &chars_of(gate_evidence::duration(t.fast_pass_ms).as_str()));
    push_str(&mut out, " from a gate that never was that fast · stale after ");
    push_chars(&mut out, &decimal_chars(t.stale_runs as u64));
    push_str(&mut out, " missed pushes or ");
    push_chars(&mut out, &decimal_chars(t.stale_days));
    push_str(&mut out, " days · under ");
    push_chars(&mut out, &decimal_chars(t.min_runs as u64));
    push_str(&mut out, " verdicts nothing is flagged");
    assert(out@ =~= spec_thresholds_line(*t));
    string_of(&out)
}

} // verus!
