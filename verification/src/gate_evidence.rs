//! What the recorded gate runs add up to: whether a gate is still doing its
//! job, and which push gate should run first.
//!
//! Three rules: ordering is a permutation and never skips a gate; under the
//! minimum number of verdicts a gate is reported with its counts and no
//! flags, and the report says why; every threshold is a number, written in
//! the flag it raises.

use vstd::prelude::*;
use crate::ledger::{words, split_words, parse_u64, parse_u64_chars, is_hex};
use crate::text::{split_lines, lines_of, views, chars_of, vec_eq, decimal, decimal_chars, push_chars, push_str, string_of, chars_less, chars_less_exec};

verus! {

/// How one recorded run of a gate ended.
#[derive(Debug, Clone, Copy, PartialEq, Eq, Structural)]
pub enum RunOutcome {
    Passed,
    Failed,
    /// Ran and did not judge: the tool was missing, or the repository lacks
    /// what turns that check on.
    Unavailable,
}

/// How the record writes an outcome.
pub open spec fn outcome_text(o: RunOutcome) -> Seq<char> {
    match o {
        RunOutcome::Passed => "pass"@,
        RunOutcome::Failed => "fail"@,
        RunOutcome::Unavailable => "unavailable"@,
    }
}

impl RunOutcome {
    pub fn as_str(self) -> (r: &'static str)
        ensures
            r@ == outcome_text(self),
    {
        match self {
            RunOutcome::Passed => "pass",
            RunOutcome::Failed => "fail",
            RunOutcome::Unavailable => "unavailable",
        }
    }

    /// A pass or a fail: the run judged the content.
    pub open spec fn spec_is_verdict(self) -> bool {
        self == RunOutcome::Passed || self == RunOutcome::Failed
    }

    pub fn is_verdict(self) -> (r: bool)
        ensures
            r == self.spec_is_verdict(),
    {
        match self {
            RunOutcome::Passed | RunOutcome::Failed => true,
            RunOutcome::Unavailable => false,
        }
    }
}

/// One recorded run: when, which gate, how it ended, how long it took.
#[derive(Debug, Clone, PartialEq, Eq)]
pub struct Run {
    pub at: u64,
    pub gate: String,
    pub outcome: RunOutcome,
    pub ms: u64,
}

/// Every run recorded in one repository, with the fingerprint — the tree the
/// gate ran on — each was recorded against.
#[derive(Debug, Clone, PartialEq, Eq)]
pub struct History {
    pub runs: Vec<(String, Run)>,
}

impl Default for History {
    fn default() -> (r: History)
        ensures
            r.runs@.len() == 0,
    {
        History { runs: Vec::new() }
    }
}

impl History {
    pub fn is_empty(&self) -> (r: bool)
        ensures
            r == (self.runs@.len() == 0),
    {
        self.runs.len() == 0
    }
}

/// A run as plain values: fingerprint, epoch, gate, outcome, milliseconds.
pub type RunView = (Seq<char>, u64, Seq<char>, RunOutcome, u64);

pub open spec fn run_view(p: (String, Run)) -> RunView {
    (p.0@, p.1.at, p.1.gate@, p.1.outcome, p.1.ms)
}

/// A history as plain values.
pub open spec fn history_view(h: History) -> Seq<RunView> {
    h.runs@.map_values(|p: (String, Run)| run_view(p))
}

// ---------------------------------------------------------------------------
// Durations and medians

/// Two digits, zero-padded.
pub open spec fn pad2(n: nat) -> Seq<char> {
    if n < 10 {
        seq!['0'] + decimal(n)
    } else {
        decimal(n)
    }
}

/// A duration a person can read: milliseconds up to a second, then seconds
/// with one decimal, then minutes and two-digit seconds.
pub open spec fn spec_duration(ms: u64) -> Seq<char> {
    if ms < 1000 {
        decimal(ms as nat) + " ms"@
    } else if ms < 60_000 {
        decimal((ms / 1000) as nat) + seq!['.'] + decimal(((ms % 1000) / 100) as nat) + " s"@
    } else {
        decimal((ms / 60_000) as nat) + " m "@ + pad2(((ms % 60_000) / 1000) as nat) + " s"@
    }
}

pub fn duration(ms: u64) -> (r: String)
    ensures
        r@ == spec_duration(ms),
{
    string_of(&duration_chars(ms))
}

fn duration_chars(ms: u64) -> (r: Vec<char>)
    ensures
        r@ == spec_duration(ms),
{
    let mut out: Vec<char> = Vec::new();
    if ms < 1000 {
        push_chars(&mut out, &decimal_chars(ms));
        push_str(&mut out, " ms");
    } else if ms < 60_000 {
        push_chars(&mut out, &decimal_chars(ms / 1000));
        out.push('.');
        push_chars(&mut out, &decimal_chars((ms % 1000) / 100));
        push_str(&mut out, " s");
    } else {
        push_chars(&mut out, &decimal_chars(ms / 60_000));
        push_str(&mut out, " m ");
        let s = (ms % 60_000) / 1000;
        if s < 10 {
            out.push('0');
        }
        push_chars(&mut out, &decimal_chars(s));
        push_str(&mut out, " s");
    }
    out
}

/// `x` placed before the first element it does not exceed.
pub open spec fn ins(s: Seq<u64>, x: u64) -> Seq<u64>
    decreases s.len(),
{
    if s.len() == 0 {
        seq![x]
    } else if x <= s[0] {
        seq![x] + s
    } else {
        seq![s[0]] + ins(s.skip(1), x)
    }
}

/// `s` in ascending order.
pub open spec fn ascending(s: Seq<u64>) -> Seq<u64>
    decreases s.len(),
{
    if s.len() == 0 {
        seq![]
    } else {
        ins(ascending(s.drop_last()), s.last())
    }
}

/// The lower middle of the values in ascending order, or 0 for none: an
/// average of two middles would invent a duration nothing ever took.
pub open spec fn spec_median(values: Seq<u64>) -> u64 {
    if values.len() == 0 {
        0
    } else {
        ascending(values)[(values.len() - 1) / 2]
    }
}

proof fn lemma_ins(s: Seq<u64>, x: u64, p: int)
    requires
        0 <= p <= s.len(),
        forall|k: int| 0 <= k < p ==> x > #[trigger] s[k],
        p < s.len() ==> x <= s[p],
    ensures
        ins(s, x) == s.insert(p, x),
    decreases s.len(),
{
    if s.len() > 0 && p > 0 {
        lemma_ins(s.skip(1), x, p - 1);
        assert(seq![s[0]] + s.skip(1).insert(p - 1, x) =~= s.insert(p, x));
    } else {
        assert(seq![x] + s =~= s.insert(p, x));
    }
}

proof fn lemma_ascending_len(s: Seq<u64>)
    ensures
        ascending(s).len() == s.len(),
    decreases s.len(),
{
    if s.len() > 0 {
        lemma_ascending_len(s.drop_last());
        lemma_ins_len(ascending(s.drop_last()), s.last());
    }
}

proof fn lemma_ins_len(s: Seq<u64>, x: u64)
    ensures
        ins(s, x).len() == s.len() + 1,
    decreases s.len(),
{
    if s.len() > 0 && x > s[0] {
        lemma_ins_len(s.skip(1), x);
    }
}

/// Exec form of [`ascending`].
fn ascending_exec(values: &Vec<u64>) -> (r: Vec<u64>)
    ensures
        r@ == ascending(values@),
{
    let mut out: Vec<u64> = Vec::new();
    let mut k: usize = 0;
    assert(values@.take(0) =~= seq![]);
    while k < values.len()
        invariant
            k <= values.len(),
            out@ == ascending(values@.take(k as int)),
        decreases values.len() - k,
    {
        let x = values[k];
        let mut p: usize = 0;
        while p < out.len() && x > out[p]
            invariant
                p <= out.len(),
                forall|j: int| 0 <= j < p ==> x > #[trigger] out@[j],
            decreases out.len() - p,
        {
            p += 1;
        }
        proof {
            lemma_ins(out@, x, p as int);
            assert(values@.take(k + 1).drop_last() =~= values@.take(k as int));
            assert(values@.take(k + 1).last() == x);
        }
        out.insert(p, x);
        k += 1;
    }
    assert(values@.take(values.len() as int) =~= values@);
    out
}

/// The lower middle of `values`, or 0 for none.
pub fn median(values: &Vec<u64>) -> (r: u64)
    ensures
        r == spec_median(values@),
{
    if values.len() == 0 {
        return 0;
    }
    let v = ascending_exec(values);
    proof {
        lemma_ascending_len(values@);
    }
    v[(v.len() - 1) / 2]
}

// ---------------------------------------------------------------------------
// The window

/// The oldest epoch a window of `window_days` before `now` keeps; 0 keeps
/// everything.
pub open spec fn window_floor(now: u64, window_days: u64) -> u64 {
    if window_days == 0 {
        0
    } else {
        let span: int = if window_days * 86_400 > u64::MAX { u64::MAX as int } else { window_days * 86_400 };
        if now >= span { (now - span) as u64 } else { 0 }
    }
}

fn window_floor_exec(now: u64, window_days: u64) -> (r: u64)
    ensures
        r == window_floor(now, window_days),
{
    if window_days == 0 {
        0
    } else {
        let span = if window_days > u64::MAX / 86_400 {
            u64::MAX
        } else {
            window_days * 86_400
        };
        if now >= span {
            now - span
        } else {
            0
        }
    }
}

// ---------------------------------------------------------------------------
// Ordering the push gates

/// Verdicts, failures and verdict durations of `gate` among the first `k`
/// runs in the window.
pub open spec fn verdict_runs(h: Seq<RunView>, gate: Seq<char>, floor: u64, k: int) -> nat
    decreases k,
{
    if k <= 0 {
        0
    } else {
        let r = h[k - 1];
        verdict_runs(h, gate, floor, k - 1) + if r.1 >= floor && r.2 == gate && r.3.spec_is_verdict() {
            1nat
        } else {
            0nat
        }
    }
}

pub open spec fn verdict_fails(h: Seq<RunView>, gate: Seq<char>, floor: u64, k: int) -> nat
    decreases k,
{
    if k <= 0 {
        0
    } else {
        let r = h[k - 1];
        verdict_fails(h, gate, floor, k - 1) + if r.1 >= floor && r.2 == gate && r.3 == RunOutcome::Failed {
            1nat
        } else {
            0nat
        }
    }
}

pub open spec fn verdict_ms(h: Seq<RunView>, gate: Seq<char>, floor: u64, k: int) -> Seq<u64>
    decreases k,
{
    if k <= 0 {
        seq![]
    } else {
        let r = h[k - 1];
        let prev = verdict_ms(h, gate, floor, k - 1);
        if r.1 >= floor && r.2 == gate && r.3.spec_is_verdict() {
            prev.push(r.4)
        } else {
            prev
        }
    }
}

/// A gate's weight in the order: failures, verdicts, and the median verdict
/// duration (at least 1 ms) — only for a gate that has failed in the window.
pub open spec fn weight(h: Seq<RunView>, gate: Seq<char>, floor: u64) -> Option<(nat, nat, nat)> {
    let n = h.len() as int;
    let fails = verdict_fails(h, gate, floor, n);
    if fails > 0 {
        let m = spec_median(verdict_ms(h, gate, floor, n));
        Some((fails, verdict_runs(h, gate, floor, n), if m < 1 { 1nat } else { m as nat }))
    } else {
        None
    }
}

/// Does gate index `a` go before gate index `b`? Gates that have failed
/// first, by failures per verdict per millisecond — compared exactly, by
/// cross-multiplication — then everything else; the declared index breaks
/// every tie.
pub open spec fn goes_before(wa: Option<(nat, nat, nat)>, a: int, wb: Option<(nat, nat, nat)>, b: int) -> bool {
    match (wa, wb) {
        (Some((fa, ra, ma)), Some((fb, rb, mb))) => {
            let left = fa * (rb * mb);
            let right = fb * (ra * ma);
            right < left || (right == left && a < b)
        },
        (Some(_), None) => true,
        (None, Some(_)) => false,
        (None, None) => a < b,
    }
}


/// A weight as the order sees it: positive verdicts and duration.
pub open spec fn weight_ok(w: Option<(nat, nat, nat)>) -> bool {
    match w {
        Some((f, r, m)) => f > 0 && r >= f && m >= 1,
        None => true,
    }
}

proof fn lemma_cross(fa: int, da: int, fb: int, db: int, fc: int, dc: int)
    by (nonlinear_arith)
    requires
        da > 0,
        db > 0,
        dc > 0,
        fb * da <= fa * db,
        fc * db <= fb * dc,
    ensures
        fc * da <= fa * dc,
        (fb * da < fa * db || fc * db < fb * dc) ==> fc * da < fa * dc,
{
    assert(fb * da * dc <= fa * db * dc);
    assert(fc * db * da <= fb * dc * da);
}

proof fn lemma_pos_mul(r: nat, m: nat)
    by (nonlinear_arith)
    requires
        r >= 1,
        m >= 1,
    ensures
        r * m >= 1,
{
}

proof fn lemma_goes_before_trans(
    wa: Option<(nat, nat, nat)>,
    a: int,
    wb: Option<(nat, nat, nat)>,
    b: int,
    wc: Option<(nat, nat, nat)>,
    c: int,
)
    requires
        weight_ok(wa),
        weight_ok(wb),
        weight_ok(wc),
        goes_before(wa, a, wb, b),
        goes_before(wb, b, wc, c),
    ensures
        goes_before(wa, a, wc, c),
{
    match (wa, wb, wc) {
        (Some((fa, ra, ma)), Some((fb, rb, mb)), Some((fc, rc, mc))) => {
            lemma_pos_mul(ra, ma);
            lemma_pos_mul(rb, mb);
            lemma_pos_mul(rc, mc);
            lemma_cross(fa as int, (ra * ma) as int, fb as int, (rb * mb) as int, fc as int, (rc * mc) as int);
        },
        _ => {},
    }
}

proof fn lemma_goes_before_total(wa: Option<(nat, nat, nat)>, a: int, wb: Option<(nat, nat, nat)>, b: int)
    requires
        a != b,
    ensures
        goes_before(wa, a, wb, b) || goes_before(wb, b, wa, a),
{
}

fn gate_weight(h: &History, gate: &Vec<char>, floor: u64) -> (r: Option<(u64, u64, u64)>)
    ensures
        match r {
            Some((f, n, m)) => weight(history_view(*h), gate@, floor) == Some((f as nat, n as nat, m as nat)),
            None => weight(history_view(*h), gate@, floor) is None,
        },
{
    let ghost hv = history_view(*h);
    let mut runs: u64 = 0;
    let mut fails: u64 = 0;
    let mut ms: Vec<u64> = Vec::new();
    let mut k: usize = 0;
    while k < h.runs.len()
        invariant
            k <= h.runs@.len(),
            hv == history_view(*h),
            runs == verdict_runs(hv, gate@, floor, k as int),
            fails == verdict_fails(hv, gate@, floor, k as int),
            ms@ == verdict_ms(hv, gate@, floor, k as int),
            fails <= runs <= k,
        decreases h.runs.len() - k,
    {
        let r = &h.runs[k].1;
        assert(hv[k as int] == run_view(h.runs@[k as int]));
        if r.at >= floor && vec_eq(&chars_of(r.gate.as_str()), gate) && r.outcome.is_verdict() {
            runs += 1;
            if r.outcome == RunOutcome::Failed {
                fails += 1;
            }
            ms.push(r.ms);
        }
        k += 1;
    }
    if fails > 0 {
        let m = median(&ms);
        Some((fails, runs, if m < 1 { 1 } else { m }))
    } else {
        None
    }
}

/// `a * b * c`, exactly, as a high and a low part: `high * 2^64 + low`.
fn wide_product(a: u64, b: u64, c: u64) -> (r: (u128, u64))
    ensures
        r.0 * 0x1_0000_0000_0000_0000 + r.1 == a * (b * c),
{
    assert((a as u128) * (b as u128) <= 0xffff_ffff_ffff_ffffu128 * 0xffff_ffff_ffff_ffffu128) by (nonlinear_arith)
        requires
            a <= 0xffff_ffff_ffff_ffff,
            b <= 0xffff_ffff_ffff_ffff,
    ;
    let x: u128 = (a as u128) * (b as u128);
    let x_hi: u128 = x / 0x1_0000_0000_0000_0000u128;
    let x_lo: u128 = x % 0x1_0000_0000_0000_0000u128;
    assert(x_hi < 0x1_0000_0000_0000_0000) by (nonlinear_arith)
        requires
            x == (a as u128) * (b as u128),
            x_hi == x / 0x1_0000_0000_0000_0000u128,
            a <= 0xffff_ffff_ffff_ffff,
            b <= 0xffff_ffff_ffff_ffff,
    ;
    assert(x_lo * (c as u128) <= 0xffff_ffff_ffff_ffffu128 * 0xffff_ffff_ffff_ffffu128) by (nonlinear_arith)
        requires
            x_lo < 0x1_0000_0000_0000_0000,
            c <= 0xffff_ffff_ffff_ffff,
    ;
    assert(x_hi * (c as u128) <= 0xffff_ffff_ffff_ffffu128 * 0xffff_ffff_ffff_ffffu128) by (nonlinear_arith)
        requires
            x_hi < 0x1_0000_0000_0000_0000,
            c <= 0xffff_ffff_ffff_ffff,
    ;
    let lo_prod: u128 = x_lo * (c as u128);
    let hi_prod: u128 = x_hi * (c as u128);
    let carry: u128 = lo_prod / 0x1_0000_0000_0000_0000u128;
    let low: u128 = lo_prod % 0x1_0000_0000_0000_0000u128;
    assert(carry < 0x1_0000_0000_0000_0000) by (nonlinear_arith)
        requires
            lo_prod == x_lo * (c as u128),
            x_lo < 0x1_0000_0000_0000_0000,
            c <= 0xffff_ffff_ffff_ffff,
            carry == lo_prod / 0x1_0000_0000_0000_0000u128,
    ;
    let high: u128 = hi_prod + carry;
    assert(high * 0x1_0000_0000_0000_0000 + low == a * (b * c)) by (nonlinear_arith)
        requires
            x == a * b,
            x == x_hi * 0x1_0000_0000_0000_0000 + x_lo,
            lo_prod == x_lo * c,
            hi_prod == x_hi * c,
            lo_prod == carry * 0x1_0000_0000_0000_0000 + low,
            high == hi_prod + carry,
    ;
    (high, low as u64)
}

fn goes_before_exec(wa: Option<(u64, u64, u64)>, a: usize, wb: Option<(u64, u64, u64)>, b: usize) -> (r: bool)
    ensures
        r == goes_before(opt_weight(wa), a as int, opt_weight(wb), b as int),
{
    match (wa, wb) {
        (Some((fa, ra, ma)), Some((fb, rb, mb))) => {
            let (lh, ll) = wide_product(fa, rb, mb);
            let (rh, rl) = wide_product(fb, ra, ma);
            let less = rh < lh || (rh == lh && rl < ll);
            let same = rh == lh && rl == ll;
            assert(less == (fb * (ra * ma) < fa * (rb * mb))) by (nonlinear_arith)
                requires
                    lh * 0x1_0000_0000_0000_0000 + ll == fa * (rb * mb),
                    rh * 0x1_0000_0000_0000_0000 + rl == fb * (ra * ma),
                    ll < 0x1_0000_0000_0000_0000,
                    rl < 0x1_0000_0000_0000_0000,
                    less == (rh < lh || (rh == lh && rl < ll)),
            ;
            assert(same == (fb * (ra * ma) == fa * (rb * mb))) by (nonlinear_arith)
                requires
                    lh * 0x1_0000_0000_0000_0000 + ll == fa * (rb * mb),
                    rh * 0x1_0000_0000_0000_0000 + rl == fb * (ra * ma),
                    ll < 0x1_0000_0000_0000_0000,
                    rl < 0x1_0000_0000_0000_0000,
                    same == (rh == lh && rl == ll),
            ;
            less || (same && a < b)
        },
        (Some(_), None) => true,
        (None, Some(_)) => false,
        (None, None) => a < b,
    }
}

pub open spec fn opt_weight(w: Option<(u64, u64, u64)>) -> Option<(nat, nat, nat)> {
    match w {
        Some((f, n, m)) => Some((f as nat, n as nat, m as nat)),
        None => None,
    }
}

proof fn lemma_weight_ok(h: Seq<RunView>, gate: Seq<char>, floor: u64)
    ensures
        weight_ok(weight(h, gate, floor)),
{
    lemma_fails_le_runs(h, gate, floor, h.len() as int);
}

proof fn lemma_fails_le_runs(h: Seq<RunView>, gate: Seq<char>, floor: u64, k: int)
    ensures
        verdict_fails(h, gate, floor, k) <= verdict_runs(h, gate, floor, k),
    decreases k,
{
    if k > 0 {
        lemma_fails_le_runs(h, gate, floor, k - 1);
    }
}

/// The weight of each declared gate, by index.
pub open spec fn gate_weights(h: Seq<RunView>, gates: Seq<Seq<char>>, floor: u64) -> Seq<Option<(nat, nat, nat)>> {
    gates.map_values(|g: Seq<char>| weight(h, g, floor))
}

/// The order the push gates should be attempted in, as a permutation of the
/// indices of `gates`: every gate appears exactly once, gates that failed in
/// the window first by failures per verdict per millisecond, the rest in
/// declared order. Nothing is skipped: ordering only changes when the news
/// of a failure arrives, never whether it does.
pub fn order_by_evidence(gates: &[String], history: &History, now: u64, window_days: u64) -> (r: Vec<usize>)
    ensures
        r@.len() == gates@.len(),
        forall|k: int| 0 <= k < r@.len() ==> #[trigger] r@[k] < gates@.len(),
        forall|k: int, l: int| 0 <= k < l < r@.len() ==> #[trigger] r@[k] != #[trigger] r@[l],
        forall|k: int, l: int| #![trigger r@[k], r@[l]] 0 <= k < l < r@.len() ==> {
            let ws = gate_weights(
                history_view(*history),
                gates@.map_values(|g: String| g@),
                window_floor(now, window_days),
            );
            goes_before(ws[r@[k] as int], r@[k] as int, ws[r@[l] as int], r@[l] as int)
        },
{
    let floor = window_floor_exec(now, window_days);
    let ghost hv = history_view(*history);
    let ghost ws = gate_weights(hv, gates@.map_values(|g: String| g@), floor);
    let mut weights: Vec<Option<(u64, u64, u64)>> = Vec::new();
    let mut i: usize = 0;
    while i < gates.len()
        invariant
            i <= gates@.len(),
            hv == history_view(*history),
            ws == gate_weights(hv, gates@.map_values(|g: String| g@), floor),
            weights@.len() == i,
            forall|k: int| 0 <= k < i ==> opt_weight(#[trigger] weights@[k]) == ws[k],
        decreases gates.len() - i,
    {
        let w = gate_weight(history, &chars_of(gates[i].as_str()), floor);
        weights.push(w);
        i += 1;
    }
    proof {
        assert forall|k: int| 0 <= k < gates@.len() implies weight_ok(#[trigger] ws[k]) by {
            lemma_weight_ok(hv, gates@[k]@, floor);
        }
    }
    let mut out: Vec<usize> = Vec::new();
    let mut j: usize = 0;
    while j < gates.len()
        invariant
            j <= gates@.len() == weights@.len(),
            forall|k: int| 0 <= k < gates@.len() ==> opt_weight(#[trigger] weights@[k]) == ws[k],
            forall|k: int| 0 <= k < gates@.len() ==> weight_ok(#[trigger] ws[k]),
            out@.len() == j,
            forall|k: int| 0 <= k < out@.len() ==> #[trigger] out@[k] < j,
            forall|k: int, l: int| 0 <= k < l < out@.len() ==> #[trigger] out@[k] != #[trigger] out@[l],
            forall|k: int, l: int| #![trigger out@[k], out@[l]] 0 <= k < l < out@.len() ==> goes_before(ws[out@[k] as int], out@[k] as int, ws[out@[l] as int], out@[l] as int),
        decreases gates.len() - j,
    {
        let mut p: usize = 0;
        while p < out.len() && !goes_before_exec(weights[j], j, weights[out[p]], out[p])
            invariant
                p <= out@.len(),
                j < weights@.len(),
                forall|k: int| 0 <= k < out@.len() ==> #[trigger] out@[k] < j,
                forall|k: int| 0 <= k < p ==> !goes_before(opt_weight(weights@[j as int]), j as int, opt_weight(weights@[out@[k] as int]), #[trigger] out@[k] as int),
            decreases out.len() - p,
        {
            p += 1;
        }
        let ghost ov = out@;
        proof {
            assert forall|k: int| 0 <= k < p implies goes_before(ws[ov[k] as int], ov[k] as int, ws[j as int], j as int) by {
                assert(opt_weight(weights@[ov[k] as int]) == ws[ov[k] as int]);
                assert(opt_weight(weights@[j as int]) == ws[j as int]);
                lemma_goes_before_total(ws[j as int], j as int, ws[ov[k] as int], ov[k] as int);
            }
            assert forall|l: int| p <= l < ov.len() implies goes_before(ws[j as int], j as int, ws[ov[l] as int], ov[l] as int) by {
                assert(opt_weight(weights@[ov[p as int] as int]) == ws[ov[p as int] as int]);
                assert(opt_weight(weights@[j as int]) == ws[j as int]);
                if l > p {
                    lemma_goes_before_trans(ws[j as int], j as int, ws[ov[p as int] as int], ov[p as int] as int, ws[ov[l] as int], ov[l] as int);
                }
            }
        }
        out.insert(p, j);
        proof {
            let nv = out@;
            assert(nv =~= ov.insert(p as int, j));
            assert forall|k: int, l: int| #![trigger nv[k], nv[l]] 0 <= k < l < nv.len() implies goes_before(ws[nv[k] as int], nv[k] as int, ws[nv[l] as int], nv[l] as int) by {
                if l < p {
                    assert(nv[k] == ov[k] && nv[l] == ov[l]);
                } else if l == p {
                    assert(nv[k] == ov[k]);
                } else if k < p {
                    assert(nv[k] == ov[k] && nv[l] == ov[l - 1]);
                } else if k == p {
                    assert(nv[l] == ov[l - 1]);
                } else {
                    assert(nv[k] == ov[k - 1] && nv[l] == ov[l - 1]);
                }
            }
            assert forall|k: int, l: int| 0 <= k < l < nv.len() implies #[trigger] nv[k] != #[trigger] nv[l] by {
                if l < p {
                    assert(nv[k] == ov[k] && nv[l] == ov[l]);
                } else if l == p {
                    assert(nv[k] == ov[k]);
                } else if k < p {
                    assert(nv[k] == ov[k] && nv[l] == ov[l - 1]);
                } else if k == p {
                    assert(nv[l] == ov[l - 1]);
                } else {
                    assert(nv[k] == ov[k - 1] && nv[l] == ov[l - 1]);
                }
            }
        }
        j += 1;
    }
    out
}


// ---------------------------------------------------------------------------
// One gate's record

/// Which of a gate's runs in the window a count is about.
#[derive(Clone, Copy, PartialEq, Eq, Structural)]
pub enum Sel {
    All,
    Passed,
    Failed,
    Unavailable,
    Verdicts,
}

/// Is run `r` one of `gate`'s in the window, of the kind `sel` picks?
pub open spec fn selected(r: RunView, gate: Seq<char>, floor: u64, sel: Sel) -> bool {
    r.1 >= floor && r.2 == gate && match sel {
        Sel::All => true,
        Sel::Passed => r.3 == RunOutcome::Passed,
        Sel::Failed => r.3 == RunOutcome::Failed,
        Sel::Unavailable => r.3 == RunOutcome::Unavailable,
        Sel::Verdicts => r.3.spec_is_verdict(),
    }
}

/// How many of the first `k` runs `sel` picks.
pub open spec fn count_sel(h: Seq<RunView>, gate: Seq<char>, floor: u64, sel: Sel, k: int) -> nat
    decreases k,
{
    if k <= 0 {
        0
    } else {
        count_sel(h, gate, floor, sel, k - 1) + if selected(h[k - 1], gate, floor, sel) {
            1nat
        } else {
            0nat
        }
    }
}

/// The last of the first `k` runs `sel` picks: the newest, and of equally
/// new ones the one recorded last.
pub open spec fn last_sel(h: Seq<RunView>, gate: Seq<char>, floor: u64, sel: Sel, k: int) -> Option<int>
    decreases k,
{
    if k <= 0 {
        None
    } else {
        let p = last_sel(h, gate, floor, sel, k - 1);
        if selected(h[k - 1], gate, floor, sel) && (p matches Some(i) ==> h[k - 1].1 >= h[i].1) {
            Some(k - 1)
        } else {
            p
        }
    }
}

/// The fingerprints of the first `k` runs `sel` picks, in record order.
pub open spec fn fps_sel(h: Seq<RunView>, gate: Seq<char>, floor: u64, sel: Sel, k: int) -> Seq<Seq<char>>
    decreases k,
{
    if k <= 0 {
        seq![]
    } else {
        let p = fps_sel(h, gate, floor, sel, k - 1);
        if selected(h[k - 1], gate, floor, sel) {
            p.push(h[k - 1].0)
        } else {
            p
        }
    }
}

/// The newest epoch among the first `k` runs in the window of gates other
/// than `gate`.
pub open spec fn newest_other(h: Seq<RunView>, gate: Seq<char>, floor: u64, k: int) -> Option<u64>
    decreases k,
{
    if k <= 0 {
        None
    } else {
        let p = newest_other(h, gate, floor, k - 1);
        let r = h[k - 1];
        if r.1 >= floor && r.2 != gate {
            match p {
                Some(x) => Some(if r.1 > x { r.1 } else { x }),
                None => Some(r.1),
            }
        } else {
            p
        }
    }
}

/// The fingerprints other gates judged after `after`, among the first `k`
/// runs in the window.
pub open spec fn later_fps(h: Seq<RunView>, gate: Seq<char>, floor: u64, after: u64, k: int) -> Seq<Seq<char>>
    decreases k,
{
    if k <= 0 {
        seq![]
    } else {
        let p = later_fps(h, gate, floor, after, k - 1);
        let r = h[k - 1];
        if r.1 >= floor && r.1 > after && r.2 != gate {
            p.push(r.0)
        } else {
            p
        }
    }
}

/// How many of the first `k` of `xs` are not in `ys`.
pub open spec fn count_not_in(xs: Seq<Seq<char>>, ys: Seq<Seq<char>>, k: int) -> nat
    decreases k,
{
    if k <= 0 {
        0
    } else {
        count_not_in(xs, ys, k - 1) + if ys.contains(xs[k - 1]) {
            0nat
        } else {
            1nat
        }
    }
}

/// Everything one scan of the record says about one gate.
pub struct Stats {
    pub runs: usize,
    pub passed: usize,
    pub failed: usize,
    pub unavailable: usize,
    pub verdicts: usize,
    pub ms: Vec<u64>,
    pub last: Option<usize>,
    pub last_verdict: Option<usize>,
    pub fps: Vec<Vec<char>>,
    pub vfps: Vec<Vec<char>>,
    pub newest_other: Option<u64>,
}

pub open spec fn opt_usize(o: Option<usize>) -> Option<int> {
    match o {
        Some(i) => Some(i as int),
        None => None,
    }
}

/// `st` is the scan of the first `k` runs for `gate`.
pub open spec fn stats_of(st: Stats, h: Seq<RunView>, gate: Seq<char>, floor: u64, k: int) -> bool {
    &&& st.runs == count_sel(h, gate, floor, Sel::All, k)
    &&& st.passed == count_sel(h, gate, floor, Sel::Passed, k)
    &&& st.failed == count_sel(h, gate, floor, Sel::Failed, k)
    &&& st.unavailable == count_sel(h, gate, floor, Sel::Unavailable, k)
    &&& st.verdicts == count_sel(h, gate, floor, Sel::Verdicts, k)
    &&& st.ms@ == verdict_ms(h, gate, floor, k)
    &&& opt_usize(st.last) == last_sel(h, gate, floor, Sel::All, k)
    &&& opt_usize(st.last_verdict) == last_sel(h, gate, floor, Sel::Verdicts, k)
    &&& crate::text::views(st.fps@) == crate::downgrade::firsts(fps_sel(h, gate, floor, Sel::All, k), fps_sel(h, gate, floor, Sel::All, k).len() as int)
    &&& crate::text::views(st.vfps@) == crate::downgrade::firsts(fps_sel(h, gate, floor, Sel::Verdicts, k), fps_sel(h, gate, floor, Sel::Verdicts, k).len() as int)
    &&& st.newest_other == newest_other(h, gate, floor, k)
}

proof fn lemma_count_le(h: Seq<RunView>, gate: Seq<char>, floor: u64, sel: Sel, k: int)
    requires
        0 <= k,
    ensures
        count_sel(h, gate, floor, sel, k) <= k,
        fps_sel(h, gate, floor, sel, k).len() == count_sel(h, gate, floor, sel, k),
        last_sel(h, gate, floor, sel, k) matches Some(i) ==> 0 <= i < k && selected(h[i], gate, floor, sel),
        last_sel(h, gate, floor, sel, k) is Some ==> count_sel(h, gate, floor, sel, k) > 0,
    decreases k,
{
    if k > 0 {
        lemma_count_le(h, gate, floor, sel, k - 1);
    }
}

proof fn lemma_firsts_len(s: Seq<Seq<char>>, k: int)
    requires
        0 <= k,
    ensures
        crate::downgrade::firsts(s, k).len() <= k,
    decreases k,
{
    if k > 0 {
        lemma_firsts_len(s, k - 1);
    }
}

/// Add `x` to a list of distinct entries unless it is there.
fn add_distinct(list: &mut Vec<Vec<char>>, x: &Vec<char>)
    ensures
        crate::text::views(final(list)@) == if crate::text::views(old(list)@).contains(x@) {
            crate::text::views(old(list)@)
        } else {
            crate::text::views(old(list)@).push(x@)
        },
{
    let ghost before = crate::text::views(list@);
    let mut i: usize = 0;
    while i < list.len() && !vec_eq(&list[i], x)
        invariant
            i <= list@.len(),
            before == crate::text::views(list@),
            forall|j: int| 0 <= j < i ==> list@[j]@ != x@,
        decreases list.len() - i,
    {
        i += 1;
    }
    if i < list.len() {
        assert(before[i as int] == x@);
    } else {
        assert forall|j: int| 0 <= j < before.len() implies before[j] != x@ by {
            assert(before[j] == list@[j]@);
        }
        let copy = crate::text::slice_of(x, 0, x.len());
        assert(copy@ =~= x@);
        list.push(copy);
        assert(crate::text::views(list@) =~= before.push(x@));
    }
}

/// One scan of the record for `gate`.
pub fn gate_stats(h: &History, gate: &Vec<char>, floor: u64) -> (st: Stats)
    ensures
        stats_of(st, history_view(*h), gate@, floor, h.runs@.len() as int),
{
    let ghost hv = history_view(*h);
    let mut st = Stats {
        runs: 0,
        passed: 0,
        failed: 0,
        unavailable: 0,
        verdicts: 0,
        ms: Vec::new(),
        last: None,
        last_verdict: None,
        fps: Vec::new(),
        vfps: Vec::new(),
        newest_other: None,
    };
    let mut k: usize = 0;
    assert(crate::text::views(st.fps@) =~= Seq::<Seq<char>>::empty());
    assert(crate::text::views(st.vfps@) =~= Seq::<Seq<char>>::empty());
    assert(st.ms@ =~= Seq::<u64>::empty());
    while k < h.runs.len()
        invariant
            k <= h.runs@.len(),
            hv == history_view(*h),
            stats_of(st, hv, gate@, floor, k as int),
        decreases h.runs.len() - k,
    {
        let fp = &h.runs[k].0;
        let r = &h.runs[k].1;
        assert(hv[k as int] == run_view(h.runs@[k as int]));
        proof {
            lemma_count_le(hv, gate@, floor, Sel::All, k as int);
            lemma_count_le(hv, gate@, floor, Sel::Verdicts, k as int);
            lemma_count_le(hv, gate@, floor, Sel::Passed, k as int);
            lemma_count_le(hv, gate@, floor, Sel::Failed, k as int);
            lemma_count_le(hv, gate@, floor, Sel::Unavailable, k as int);
        }
        let fpc = chars_of(fp.as_str());
        proof {
            let a = fps_sel(hv, gate@, floor, Sel::All, k as int);
            let v = fps_sel(hv, gate@, floor, Sel::Verdicts, k as int);
            crate::downgrade::lemma_firsts_push(a, fpc@, a.len() as int);
            crate::downgrade::lemma_firsts_push(v, fpc@, v.len() as int);
        }
        let in_window = r.at >= floor;
        let same = vec_eq(&chars_of(r.gate.as_str()), gate);
        if in_window && same {
            st.runs += 1;
            let newer = match st.last {
                Some(i) => r.at >= h.runs[i].1.at,
                None => true,
            };
            proof {
                if let Some(i) = st.last {
                    assert(hv[i as int] == run_view(h.runs@[i as int]));
                }
            }
            if newer {
                st.last = Some(k);
            }
            add_distinct(&mut st.fps, &fpc);
            match r.outcome {
                RunOutcome::Passed => {
                    st.passed += 1;
                },
                RunOutcome::Failed => {
                    st.failed += 1;
                },
                RunOutcome::Unavailable => {
                    st.unavailable += 1;
                },
            }
            if r.outcome.is_verdict() {
                st.verdicts += 1;
                st.ms.push(r.ms);
                let vnewer = match st.last_verdict {
                    Some(i) => r.at >= h.runs[i].1.at,
                    None => true,
                };
                proof {
                    if let Some(i) = st.last_verdict {
                        assert(hv[i as int] == run_view(h.runs@[i as int]));
                    }
                }
                if vnewer {
                    st.last_verdict = Some(k);
                }
                add_distinct(&mut st.vfps, &fpc);
            }
        }
        if in_window && !same {
            st.newest_other = match st.newest_other {
                Some(x) => Some(if r.at > x { r.at } else { x }),
                None => Some(r.at),
            };
        }
        k += 1;
    }
    st
}


// ---------------------------------------------------------------------------
// Flags

/// The numbers every flag is decided against.
#[derive(Debug, Clone, Copy, PartialEq, Eq, Structural)]
pub struct Thresholds {
    /// How far back the report looks, in days; 0 means the whole record.
    pub window_days: u64,
    /// Verdicts below which no flag is computed and the report says so.
    pub min_runs: usize,
    /// A last duration below this percentage of the median is a collapse…
    pub noop_ratio_percent: u64,
    /// …but only for a gate whose median is at least this many seconds.
    pub noop_median_secs: u64,
    /// A pass faster than this, from a gate that never once passed this
    /// fast, is the other shape of the same failure.
    pub fast_pass_ms: u64,
    /// How many later fingerprints may go by without this gate before it is
    /// called stale…
    pub stale_runs: usize,
    /// …or how many days, when other gates have run more recently.
    pub stale_days: u64,
}

impl Default for Thresholds {
    fn default() -> (r: Thresholds)
        ensures
            r == (Thresholds {
                window_days: 90,
                min_runs: 5,
                noop_ratio_percent: 10,
                noop_median_secs: 30,
                fast_pass_ms: 1000,
                stale_runs: 10,
                stale_days: 30,
            }),
    {
        Thresholds {
            window_days: 90,
            min_runs: 5,
            noop_ratio_percent: 10,
            noop_median_secs: 30,
            fast_pass_ms: 1000,
            stale_runs: 10,
            stale_days: 30,
        }
    }
}

#[derive(Debug, Clone, Copy, PartialEq, Eq, Structural)]
pub enum FlagKind {
    /// It stopped doing the work it used to do.
    NoOpSuspect,
    /// One fingerprint, two answers.
    Flaky,
    /// It has not run while its neighbours have.
    Stale,
}

pub open spec fn flag_kind_text(k: FlagKind) -> Seq<char> {
    match k {
        FlagKind::NoOpSuspect => "no-op suspect"@,
        FlagKind::Flaky => "flaky"@,
        FlagKind::Stale => "stale"@,
    }
}

impl FlagKind {
    pub fn as_str(self) -> (r: &'static str)
        ensures
            r@ == flag_kind_text(self),
    {
        match self {
            FlagKind::NoOpSuspect => "no-op suspect",
            FlagKind::Flaky => "flaky",
            FlagKind::Stale => "stale",
        }
    }
}

/// A flag and the comparison that raised it.
#[derive(Debug, Clone, PartialEq, Eq)]
pub struct Flag {
    pub kind: FlagKind,
    pub why: String,
}

pub open spec fn flag_view(f: Flag) -> (FlagKind, Seq<char>) {
    (f.kind, f.why@)
}

pub open spec fn flag_views(fs: Seq<Flag>) -> Seq<(FlagKind, Seq<char>)> {
    fs.map_values(|f: Flag| flag_view(f))
}

/// `a * b`, or `u64::MAX` when it does not fit.
pub open spec fn sat_mul(a: u64, b: u64) -> u64 {
    if a * b > u64::MAX {
        u64::MAX
    } else {
        (a * b) as u64
    }
}

fn sat_mul_exec(a: u64, b: u64) -> (r: u64)
    ensures
        r == sat_mul(a, b),
{
    if b != 0 && a > u64::MAX / b {
        proof {
            assert(a * b > u64::MAX) by (nonlinear_arith)
                requires
                    b != 0,
                    a > u64::MAX / b,
            ;
        }
        u64::MAX
    } else {
        proof {
            assert(a * b <= u64::MAX) by (nonlinear_arith)
                requires
                    b == 0 || a <= u64::MAX / b,
            ;
        }
        a * b
    }
}

/// `a - b`, or 0 below zero.
pub open spec fn sat_sub(a: u64, b: u64) -> u64 {
    if a >= b {
        (a - b) as u64
    } else {
        0
    }
}

/// What the record says about one gate in one repository.
#[derive(Debug, Clone, PartialEq, Eq)]
pub struct GateReport {
    pub gate: String,
    /// Runs in the window, of every outcome.
    pub runs: usize,
    pub passed: usize,
    pub failed: usize,
    /// Ran and did not judge; never counted as a pass.
    pub unavailable: usize,
    /// Median wall-clock of the runs that reached a verdict, milliseconds.
    pub median_ms: u64,
    pub last_ms: u64,
    pub last_at: u64,
    pub last_outcome: Option<RunOutcome>,
    /// Distinct fingerprints this gate ran against.
    pub fingerprints: usize,
    /// Fingerprints other gates judged after this gate last ran, and this
    /// gate did not.
    pub missed: usize,
    pub flags: Vec<Flag>,
    /// Set when the history is too short to say anything, with the count in
    /// words.
    pub abstained: Option<String>,
}

impl GateReport {
    /// Age of the last run in whole days.
    pub fn last_age_days(&self, now: u64) -> (r: u64)
        ensures
            r == sat_sub(now, self.last_at) / 86_400,
    {
        (if now >= self.last_at {
            now - self.last_at
        } else {
            0
        }) / 86_400
    }
}


// ---------------------------------------------------------------------------
// The pieces of a report

/// Fingerprints other gates judged after this gate last ran, and this gate
/// never did.
pub open spec fn spec_missed(h: Seq<RunView>, gate: Seq<char>, floor: u64, last_at: u64) -> nat {
    let n = h.len() as int;
    let later = later_fps(h, gate, floor, last_at, n);
    let fl = crate::downgrade::firsts(later, later.len() as int);
    let mine = fps_sel(h, gate, floor, Sel::All, n);
    count_not_in(fl, crate::downgrade::firsts(mine, mine.len() as int), fl.len() as int)
}

fn missed_of(h: &History, gate: &Vec<char>, floor: u64, last_at: u64, mine: &Vec<Vec<char>>) -> (r: usize)
    requires
        crate::text::views(mine@) == crate::downgrade::firsts(
            fps_sel(history_view(*h), gate@, floor, Sel::All, h.runs@.len() as int),
            fps_sel(history_view(*h), gate@, floor, Sel::All, h.runs@.len() as int).len() as int,
        ),
    ensures
        r == spec_missed(history_view(*h), gate@, floor, last_at),
{
    let ghost hv = history_view(*h);
    let mut later: Vec<Vec<char>> = Vec::new();
    let mut k: usize = 0;
    assert(crate::text::views(later@) =~= Seq::<Seq<char>>::empty());
    while k < h.runs.len()
        invariant
            k <= h.runs@.len(),
            hv == history_view(*h),
            crate::text::views(later@) == crate::downgrade::firsts(
                later_fps(hv, gate@, floor, last_at, k as int),
                later_fps(hv, gate@, floor, last_at, k as int).len() as int,
            ),
        decreases h.runs.len() - k,
    {
        let r = &h.runs[k].1;
        assert(hv[k as int] == run_view(h.runs@[k as int]));
        let fpc = chars_of(h.runs[k].0.as_str());
        proof {
            let a = later_fps(hv, gate@, floor, last_at, k as int);
            crate::downgrade::lemma_firsts_push(a, fpc@, a.len() as int);
        }
        if r.at >= floor && r.at > last_at && !vec_eq(&chars_of(r.gate.as_str()), gate) {
            add_distinct(&mut later, &fpc);
        }
        k += 1;
    }
    let ghost fl = crate::text::views(later@);
    let ghost fm = crate::text::views(mine@);
    let mut count: usize = 0;
    let mut j: usize = 0;
    while j < later.len()
        invariant
            j <= later@.len(),
            fl == crate::text::views(later@),
            fm == crate::text::views(mine@),
            count == count_not_in(fl, fm, j as int),
            count <= j,
        decreases later.len() - j,
    {
        let mut i: usize = 0;
        while i < mine.len() && !vec_eq(&mine[i], &later[j])
            invariant
                i <= mine@.len(),
                j < later@.len(),
                fm == crate::text::views(mine@),
                forall|m: int| 0 <= m < i ==> mine@[m]@ != later@[j as int]@,
            decreases mine.len() - i,
        {
            i += 1;
        }
        proof {
            assert(fl[j as int] == later@[j as int]@);
            if i < mine.len() {
                assert(fm[i as int] == fl[j as int]);
            } else {
                assert forall|m: int| 0 <= m < fm.len() implies fm[m] != fl[j as int] by {
                    assert(fm[m] == mine@[m]@);
                }
            }
        }
        if i == mine.len() {
            count += 1;
        }
        j += 1;
    }
    count
}

/// Why a check is stale, if it is: other gates kept judging trees it did
/// not — by count of trees, or by days since it last ran.
pub open spec fn stale_why(h: Seq<RunView>, gate: Seq<char>, floor: u64, now: u64, t: Thresholds, runs: nat, last_at: u64, missed: nat) -> Option<Seq<char>> {
    if runs == 0 {
        None
    } else {
        match newest_other(h, gate, floor, h.len() as int) {
            None => None,
            Some(no) => if no <= last_at {
                None
            } else if missed >= t.stale_runs {
                Some(decimal(missed) + " later tree(s) were judged by other gates and not by this one (threshold "@
                    + decimal(t.stale_runs as nat) + ")"@)
            } else if sat_sub(now, last_at) / 86_400 >= t.stale_days {
                Some("last ran "@ + decimal((sat_sub(now, last_at) / 86_400) as nat) + " days ago (threshold "@
                    + decimal(t.stale_days as nat) + "), while another gate ran "@ + decimal(
                    (sat_sub(now, no) / 86_400) as nat,
                ) + " days ago"@)
            } else {
                None
            },
        }
    }
}

/// Every verdict of `gate` but the one at `last` took at least `fast` ms.
pub open spec fn others_slow(h: Seq<RunView>, gate: Seq<char>, floor: u64, last: int, fast: u64) -> bool {
    forall|j: int| 0 <= j < h.len() && selected(h[j], gate, floor, Sel::Verdicts) && j != last ==> #[trigger] h[j].4 >= fast
}

/// Why a check looks like a no-op, if it does: its last verdict collapsed
/// against the median, or it passed faster than it ever finished before.
pub open spec fn noop_why(h: Seq<RunView>, gate: Seq<char>, floor: u64, t: Thresholds, median: u64) -> Option<Seq<char>> {
    let n = h.len() as int;
    match last_sel(h, gate, floor, Sel::Verdicts, n) {
        None => None,
        Some(i) => {
            let l = h[i];
            if median >= sat_mul(t.noop_median_secs, 1000) && sat_mul(l.4, 100) < sat_mul(median, t.noop_ratio_percent) {
                Some("last run "@ + spec_duration(l.4) + " against a median of "@ + spec_duration(median)
                    + " ("@ + decimal((sat_mul(l.4, 100) / (if median < 1 { 1 } else { median })) as nat)
                    + "% of it, threshold "@ + decimal(t.noop_ratio_percent as nat) + "%)"@)
            } else if l.3 == RunOutcome::Passed && l.4 < t.fast_pass_ms && others_slow(h, gate, floor, i, t.fast_pass_ms) {
                Some("passed in "@ + spec_duration(l.4) + ", and none of the "@ + decimal(
                    (count_sel(h, gate, floor, Sel::Verdicts, n) - 1) as nat,
                ) + " earlier runs ever finished under "@ + spec_duration(t.fast_pass_ms))
            } else {
                None
            }
        },
    }
}

/// How many of the first `k` runs `sel` picks on fingerprint `fp`.
pub open spec fn count_fp(h: Seq<RunView>, gate: Seq<char>, floor: u64, sel: Sel, fp: Seq<char>, k: int) -> nat
    decreases k,
{
    if k <= 0 {
        0
    } else {
        count_fp(h, gate, floor, sel, fp, k - 1) + if selected(h[k - 1], gate, floor, sel) && h[k - 1].0 == fp {
            1nat
        } else {
            0nat
        }
    }
}

/// The fingerprints among the first `k` of `vf` that `gate` both passed and
/// failed on.
pub open spec fn split_upto(vf: Seq<Seq<char>>, h: Seq<RunView>, gate: Seq<char>, floor: u64, k: int) -> Seq<Seq<char>>
    decreases k,
{
    if k <= 0 {
        seq![]
    } else {
        let p = split_upto(vf, h, gate, floor, k - 1);
        let n = h.len() as int;
        if count_fp(h, gate, floor, Sel::Passed, vf[k - 1], n) > 0 && count_fp(h, gate, floor, Sel::Failed, vf[k - 1], n) > 0 {
            p.push(vf[k - 1])
        } else {
            p
        }
    }
}

/// The first of the first `k` entries in character order.
pub open spec fn seq_min(xs: Seq<Seq<char>>, k: int) -> Seq<char>
    decreases k,
{
    if k <= 1 {
        xs[0]
    } else {
        let m = seq_min(xs, k - 1);
        if chars_less(xs[k - 1], m) {
            xs[k - 1]
        } else {
            m
        }
    }
}

/// A fingerprint shortened the way git shortens one: its first eight
/// bytes, when they end on a character boundary.
pub open spec fn short(fp: Seq<char>) -> Seq<char> {
    if crate::finding::on_boundary(fp, 8) {
        fp.take(crate::finding::char_index(fp, 8))
    } else {
        fp
    }
}

/// Why a check is flaky, if it is: one tree, two answers.
pub open spec fn flaky_why(h: Seq<RunView>, gate: Seq<char>, floor: u64) -> Option<Seq<char>> {
    let n = h.len() as int;
    let v = fps_sel(h, gate, floor, Sel::Verdicts, n);
    let vf = crate::downgrade::firsts(v, v.len() as int);
    let split = split_upto(vf, h, gate, floor, vf.len() as int);
    if split.len() == 0 {
        None
    } else {
        let fp = seq_min(split, split.len() as int);
        Some(gate + " both passed ("@ + decimal(count_fp(h, gate, floor, Sel::Passed, fp, n)) + ") and failed ("@
            + decimal(count_fp(h, gate, floor, Sel::Failed, fp, n)) + ") on tree "@ + short(fp) + if split.len() > 1 {
            ", and on "@ + decimal((split.len() - 1) as nat) + " other tree(s)"@
        } else {
            seq![]
        })
    }
}


pub open spec fn opt_flag(kind: FlagKind, why: Option<Seq<char>>) -> Option<(FlagKind, Seq<char>)> {
    match why {
        Some(w) => Some((kind, w)),
        None => None,
    }
}

pub open spec fn opt_flag_view(f: Option<Flag>) -> Option<(FlagKind, Seq<char>)> {
    match f {
        Some(x) => Some(flag_view(x)),
        None => None,
    }
}

fn flag_of(kind: FlagKind, why: &Vec<char>) -> (f: Flag)
    ensures
        flag_view(f) == (kind, why@),
{
    Flag { kind, why: string_of(why) }
}

fn stale_flag(h: &History, gate: &Vec<char>, floor: u64, now: u64, t: &Thresholds, st: &Stats, last_at: u64, missed: usize) -> (r: Option<Flag>)
    requires
        stats_of(*st, history_view(*h), gate@, floor, h.runs@.len() as int),
    ensures
        opt_flag_view(r) == opt_flag(FlagKind::Stale, stale_why(history_view(*h), gate@, floor, now, *t, st.runs as nat, last_at, missed as nat)),
{
    if st.runs == 0 {
        return None;
    }
    match st.newest_other {
        None => None,
        Some(no) => {
            if no <= last_at {
                None
            } else if missed >= t.stale_runs {
                let mut w: Vec<char> = Vec::new();
                push_chars(&mut w, &decimal_chars(missed as u64));
                push_str(&mut w, " later tree(s) were judged by other gates and not by this one (threshold ");
                push_chars(&mut w, &decimal_chars(t.stale_runs as u64));
                push_str(&mut w, ")");
                Some(flag_of(FlagKind::Stale, &w))
            } else {
                let age = (if now >= last_at { now - last_at } else { 0 }) / 86_400;
                if age >= t.stale_days {
                    let other = (if now >= no { now - no } else { 0 }) / 86_400;
                    let mut w: Vec<char> = Vec::new();
                    push_str(&mut w, "last ran ");
                    push_chars(&mut w, &decimal_chars(age));
                    push_str(&mut w, " days ago (threshold ");
                    push_chars(&mut w, &decimal_chars(t.stale_days));
                    push_str(&mut w, "), while another gate ran ");
                    push_chars(&mut w, &decimal_chars(other));
                    push_str(&mut w, " days ago");
                    Some(flag_of(FlagKind::Stale, &w))
                } else {
                    None
                }
            }
        },
    }
}

fn others_slow_exec(h: &History, gate: &Vec<char>, floor: u64, last: usize, fast: u64) -> (r: bool)
    ensures
        r == others_slow(history_view(*h), gate@, floor, last as int, fast),
{
    let ghost hv = history_view(*h);
    let mut k: usize = 0;
    while k < h.runs.len()
        invariant
            k <= h.runs@.len(),
            hv == history_view(*h),
            forall|j: int| 0 <= j < k && selected(hv[j], gate@, floor, Sel::Verdicts) && j != last ==> #[trigger] hv[j].4 >= fast,
        decreases h.runs.len() - k,
    {
        let r = &h.runs[k].1;
        assert(hv[k as int] == run_view(h.runs@[k as int]));
        if k != last && r.at >= floor && r.outcome.is_verdict() && vec_eq(&chars_of(r.gate.as_str()), gate) && r.ms < fast {
            assert(!(hv[k as int].4 >= fast));
            return false;
        }
        k += 1;
    }
    true
}

fn noop_flag(h: &History, gate: &Vec<char>, floor: u64, t: &Thresholds, st: &Stats, median: u64) -> (r: Option<Flag>)
    requires
        stats_of(*st, history_view(*h), gate@, floor, h.runs@.len() as int),
    ensures
        opt_flag_view(r) == opt_flag(FlagKind::NoOpSuspect, noop_why(history_view(*h), gate@, floor, *t, median)),
{
    let ghost hv = history_view(*h);
    proof {
        lemma_count_le(hv, gate@, floor, Sel::Verdicts, hv.len() as int);
    }
    match st.last_verdict {
        None => None,
        Some(i) => {
            let l = &h.runs[i].1;
            assert(hv[i as int] == run_view(h.runs@[i as int]));
            let lms100 = sat_mul_exec(l.ms, 100);
            if median >= sat_mul_exec(t.noop_median_secs, 1000) && lms100 < sat_mul_exec(median, t.noop_ratio_percent) {
                let mut w: Vec<char> = Vec::new();
                push_str(&mut w, "last run ");
                push_chars(&mut w, &duration_chars(l.ms));
                push_str(&mut w, " against a median of ");
                push_chars(&mut w, &duration_chars(median));
                push_str(&mut w, " (");
                push_chars(&mut w, &decimal_chars(lms100 / (if median < 1 { 1 } else { median })));
                push_str(&mut w, "% of it, threshold ");
                push_chars(&mut w, &decimal_chars(t.noop_ratio_percent));
                push_str(&mut w, "%)");
                Some(flag_of(FlagKind::NoOpSuspect, &w))
            } else if l.outcome == RunOutcome::Passed && l.ms < t.fast_pass_ms && others_slow_exec(h, gate, floor, i, t.fast_pass_ms) {
                let mut w: Vec<char> = Vec::new();
                push_str(&mut w, "passed in ");
                push_chars(&mut w, &duration_chars(l.ms));
                push_str(&mut w, ", and none of the ");
                push_chars(&mut w, &decimal_chars((st.verdicts - 1) as u64));
                push_str(&mut w, " earlier runs ever finished under ");
                push_chars(&mut w, &duration_chars(t.fast_pass_ms));
                Some(flag_of(FlagKind::NoOpSuspect, &w))
            } else {
                None
            }
        },
    }
}

fn count_fp_exec(h: &History, gate: &Vec<char>, floor: u64, sel: Sel, fp: &Vec<char>) -> (r: usize)
    ensures
        r == count_fp(history_view(*h), gate@, floor, sel, fp@, h.runs@.len() as int),
{
    let ghost hv = history_view(*h);
    let mut c: usize = 0;
    let mut k: usize = 0;
    while k < h.runs.len()
        invariant
            k <= h.runs@.len(),
            hv == history_view(*h),
            c == count_fp(hv, gate@, floor, sel, fp@, k as int),
            c <= k,
        decreases h.runs.len() - k,
    {
        let r = &h.runs[k].1;
        assert(hv[k as int] == run_view(h.runs@[k as int]));
        let picked = match sel {
            Sel::All => true,
            Sel::Passed => r.outcome == RunOutcome::Passed,
            Sel::Failed => r.outcome == RunOutcome::Failed,
            Sel::Unavailable => r.outcome == RunOutcome::Unavailable,
            Sel::Verdicts => r.outcome.is_verdict(),
        };
        if picked && r.at >= floor && vec_eq(&chars_of(r.gate.as_str()), gate) && vec_eq(&chars_of(h.runs[k].0.as_str()), fp) {
            c += 1;
        }
        k += 1;
    }
    c
}

fn short_exec(fp: &Vec<char>) -> (r: Vec<char>)
    ensures
        r@ == short(fp@),
{
    let n = fp.len();
    let mut k: usize = 0;
    let mut rem: i64 = 8;
    assert(fp@.skip(0) =~= fp@);
    while k < n && rem > 0
        invariant
            k <= n == fp.len(),
            -4 <= rem <= 8,
            crate::finding::on_boundary(fp@, 8) == crate::finding::on_boundary(fp@.skip(k as int), rem as int),
            crate::finding::on_boundary(fp@.skip(k as int), rem as int) ==> crate::finding::char_index(fp@, 8) == k
                + crate::finding::char_index(fp@.skip(k as int), rem as int),
        decreases n - k,
    {
        assert(fp@.skip(k as int).skip(1) =~= fp@.skip(k + 1));
        assert(fp@.skip(k as int)[0] == fp@[k as int]);
        let w = crate::finding::utf8_len_exec(fp[k]);
        rem = rem - w as i64;
        k += 1;
    }
    proof {
        if k == n {
            assert(fp@.skip(k as int).len() == 0);
        }
    }
    if rem >= 0 {
        let r = crate::text::slice_of(fp, 0, k);
        assert(r@ =~= fp@.take(k as int));
        r
    } else {
        crate::text::slice_of(fp, 0, n)
    }
}

fn flaky_flag(h: &History, gate: &Vec<char>, floor: u64, st: &Stats) -> (r: Option<Flag>)
    requires
        stats_of(*st, history_view(*h), gate@, floor, h.runs@.len() as int),
    ensures
        opt_flag_view(r) == opt_flag(FlagKind::Flaky, flaky_why(history_view(*h), gate@, floor)),
{
    let ghost hv = history_view(*h);
    let ghost vf = crate::text::views(st.vfps@);
    let mut split: Vec<Vec<char>> = Vec::new();
    let mut k: usize = 0;
    assert(crate::text::views(split@) =~= Seq::<Seq<char>>::empty());
    while k < st.vfps.len()
        invariant
            k <= st.vfps@.len(),
            hv == history_view(*h),
            vf == crate::text::views(st.vfps@),
            crate::text::views(split@) == split_upto(vf, hv, gate@, floor, k as int),
            split@.len() <= k,
        decreases st.vfps.len() - k,
    {
        let fp = &st.vfps[k];
        assert(vf[k as int] == fp@);
        let p = count_fp_exec(h, gate, floor, Sel::Passed, fp);
        let f = count_fp_exec(h, gate, floor, Sel::Failed, fp);
        if p > 0 && f > 0 {
            let ghost before = crate::text::views(split@);
            let copy = crate::text::slice_of(fp, 0, fp.len());
            assert(copy@ =~= fp@);
            split.push(copy);
            assert(crate::text::views(split@) =~= before.push(fp@));
        }
        k += 1;
    }
    if split.len() == 0 {
        return None;
    }
    let ghost sv = crate::text::views(split@);
    let mut m: usize = 0;
    let mut j: usize = 1;
    assert(sv[0] == split@[0]@);
    while j < split.len()
        invariant
            1 <= j <= split@.len(),
            m < split@.len(),
            sv == crate::text::views(split@),
            split@[m as int]@ == seq_min(sv, j as int),
        decreases split.len() - j,
    {
        assert(sv[j as int] == split@[j as int]@);
        if chars_less_exec(&split[j], &split[m]) {
            m = j;
        }
        j += 1;
    }
    let fp = &split[m];
    let pass = count_fp_exec(h, gate, floor, Sel::Passed, fp);
    let fail = count_fp_exec(h, gate, floor, Sel::Failed, fp);
    let mut w: Vec<char> = crate::text::slice_of(gate, 0, gate.len());
    assert(w@ =~= gate@);
    push_str(&mut w, " both passed (");
    push_chars(&mut w, &decimal_chars(pass as u64));
    push_str(&mut w, ") and failed (");
    push_chars(&mut w, &decimal_chars(fail as u64));
    push_str(&mut w, ") on tree ");
    push_chars(&mut w, &short_exec(fp));
    if split.len() > 1 {
        push_str(&mut w, ", and on ");
        push_chars(&mut w, &decimal_chars((split.len() - 1) as u64));
        push_str(&mut w, " other tree(s)");
    }
    Some(flag_of(FlagKind::Flaky, &w))
}


// ---------------------------------------------------------------------------
// Reports

pub open spec fn opt_seq(o: Option<(FlagKind, Seq<char>)>) -> Seq<(FlagKind, Seq<char>)> {
    match o {
        Some(x) => seq![x],
        None => seq![],
    }
}

/// When the last run was, or 0 for none.
pub open spec fn last_at_of(h: Seq<RunView>, gate: Seq<char>, floor: u64) -> u64 {
    match last_sel(h, gate, floor, Sel::All, h.len() as int) {
        Some(i) => h[i].1,
        None => 0,
    }
}

/// The flags a gate's report carries: staleness, decided first because a
/// short history can still answer it; then, with enough verdicts, a
/// collapse and a split verdict.
pub open spec fn report_flags(h: Seq<RunView>, gate: Seq<char>, floor: u64, now: u64, t: Thresholds) -> Seq<(FlagKind, Seq<char>)> {
    let n = h.len() as int;
    let last_at = last_at_of(h, gate, floor);
    let stale = opt_flag(FlagKind::Stale, stale_why(h, gate, floor, now, t, count_sel(h, gate, floor, Sel::All, n), last_at, spec_missed(h, gate, floor, last_at)));
    if count_sel(h, gate, floor, Sel::Verdicts, n) < t.min_runs {
        opt_seq(stale)
    } else {
        let median = spec_median(verdict_ms(h, gate, floor, n));
        opt_seq(stale) + opt_seq(opt_flag(FlagKind::NoOpSuspect, noop_why(h, gate, floor, t, median))) + opt_seq(opt_flag(FlagKind::Flaky, flaky_why(h, gate, floor)))
    }
}

/// What an abstaining report says.
pub open spec fn abstain_text(verdicts: nat) -> Seq<char> {
    "insufficient history ("@ + decimal(verdicts) + " verdict"@ + (if verdicts == 1 { seq![] } else { seq!['s'] }) + ")"@
}

/// `r` is what the record in the window says about `gate`.
pub open spec fn report_for(r: GateReport, h: Seq<RunView>, gate: Seq<char>, now: u64, t: Thresholds) -> bool {
    let floor = window_floor(now, t.window_days);
    let n = h.len() as int;
    let v = count_sel(h, gate, floor, Sel::Verdicts, n);
    let last = last_sel(h, gate, floor, Sel::All, n);
    let mine = fps_sel(h, gate, floor, Sel::All, n);
    &&& r.gate@ == gate
    &&& r.runs == count_sel(h, gate, floor, Sel::All, n)
    &&& r.passed == count_sel(h, gate, floor, Sel::Passed, n)
    &&& r.failed == count_sel(h, gate, floor, Sel::Failed, n)
    &&& r.unavailable == count_sel(h, gate, floor, Sel::Unavailable, n)
    &&& r.median_ms == spec_median(verdict_ms(h, gate, floor, n))
    &&& r.last_at == last_at_of(h, gate, floor)
    &&& r.last_ms == (match last { Some(i) => h[i].4, None => 0 })
    &&& r.last_outcome == (match last { Some(i) => Some(h[i].3), None => None })
    &&& r.fingerprints == crate::downgrade::firsts(mine, mine.len() as int).len()
    &&& r.missed == spec_missed(h, gate, floor, last_at_of(h, gate, floor))
    &&& flag_views(r.flags@) == report_flags(h, gate, floor, now, t)
    &&& (v < t.min_runs ==> (r.abstained matches Some(a) && a@ == abstain_text(v)))
    &&& (v >= t.min_runs ==> r.abstained is None)
}

proof fn lemma_passed_failed(h: Seq<RunView>, gate: Seq<char>, floor: u64, k: int)
    requires
        0 <= k,
    ensures
        count_sel(h, gate, floor, Sel::Passed, k) + count_sel(h, gate, floor, Sel::Failed, k) == count_sel(h, gate, floor, Sel::Verdicts, k),
    decreases k,
{
    if k > 0 {
        lemma_passed_failed(h, gate, floor, k - 1);
    }
}

fn push_flag(flags: &mut Vec<Flag>, f: Option<Flag>)
    ensures
        flag_views(final(flags)@) == flag_views(old(flags)@) + opt_seq(opt_flag_view(f)),
{
    let ghost before = flag_views(flags@);
    match f {
        Some(x) => {
            flags.push(x);
            assert(flag_views(flags@) =~= before + seq![flag_view(x)]);
        },
        None => {
            assert(before + seq![] =~= before);
        },
    }
}

/// What the record says about one gate.
pub fn one_gate(h: &History, gate: &Vec<char>, now: u64, t: &Thresholds) -> (r: GateReport)
    ensures
        report_for(r, history_view(*h), gate@, now, *t),
{
    let ghost hv = history_view(*h);
    let floor = window_floor_exec(now, t.window_days);
    let st = gate_stats(h, gate, floor);
    proof {
        lemma_count_le(hv, gate@, floor, Sel::All, hv.len() as int);
        lemma_count_le(hv, gate@, floor, Sel::Verdicts, hv.len() as int);
    }
    let median = median(&st.ms);
    let (last_at, last_ms, last_outcome) = match st.last {
        Some(i) => {
            assert(hv[i as int] == run_view(h.runs@[i as int]));
            (h.runs[i].1.at, h.runs[i].1.ms, Some(h.runs[i].1.outcome))
        },
        None => (0, 0, None),
    };
    let missed = missed_of(h, gate, floor, last_at, &st.fps);
    let mut flags: Vec<Flag> = Vec::new();
    assert(flag_views(flags@) =~= Seq::<(FlagKind, Seq<char>)>::empty());
    push_flag(&mut flags, stale_flag(h, gate, floor, now, t, &st, last_at, missed));
    let abstained = if st.verdicts < t.min_runs {
        let mut a: Vec<char> = Vec::new();
        push_str(&mut a, "insufficient history (");
        push_chars(&mut a, &decimal_chars(st.verdicts as u64));
        push_str(&mut a, " verdict");
        if st.verdicts != 1 {
            a.push('s');
        }
        push_str(&mut a, ")");
        assert(a@ =~= abstain_text(st.verdicts as nat));
        Some(string_of(&a))
    } else {
        push_flag(&mut flags, noop_flag(h, gate, floor, t, &st, median));
        push_flag(&mut flags, flaky_flag(h, gate, floor, &st));
        None
    };
    let r = GateReport {
        gate: string_of(gate),
        runs: st.runs,
        passed: st.passed,
        failed: st.failed,
        unavailable: st.unavailable,
        median_ms: median,
        last_ms,
        last_at,
        last_outcome,
        fingerprints: st.fps.len(),
        missed,
        flags,
        abstained,
    };
    proof {
        let n = hv.len() as int;
        assert(r.gate@ == gate@);
        assert(r.runs == count_sel(hv, gate@, floor, Sel::All, n));
        assert(r.median_ms == spec_median(verdict_ms(hv, gate@, floor, n)));
        assert(r.last_at == last_at_of(hv, gate@, floor));
        assert(r.fingerprints == crate::downgrade::firsts(fps_sel(hv, gate@, floor, Sel::All, n), fps_sel(hv, gate@, floor, Sel::All, n).len() as int).len());
        assert(r.missed == spec_missed(hv, gate@, floor, last_at_of(hv, gate@, floor)));
        assert(flag_views(r.flags@) == report_flags(hv, gate@, floor, now, *t));
        assert(r.passed == count_sel(hv, gate@, floor, Sel::Passed, n));
        assert(r.unavailable == count_sel(hv, gate@, floor, Sel::Unavailable, n));
        assert(r.last_ms == (match last_sel(hv, gate@, floor, Sel::All, n) { Some(i) => hv[i].4, None => 0 }));
        assert(r.last_outcome == (match last_sel(hv, gate@, floor, Sel::All, n) { Some(i) => Some(hv[i].3), None => None }));
    }
    r
}


/// The gates of the first `k` runs in the window, in record order.
pub open spec fn window_gates(h: Seq<RunView>, floor: u64, k: int) -> Seq<Seq<char>>
    decreases k,
{
    if k <= 0 {
        seq![]
    } else {
        let p = window_gates(h, floor, k - 1);
        if h[k - 1].1 >= floor {
            p.push(h[k - 1].2)
        } else {
            p
        }
    }
}

proof fn lemma_firsts(s: Seq<Seq<char>>, k: int)
    requires
        0 <= k <= s.len(),
    ensures
        crate::downgrade::firsts(s, k).no_duplicates(),
        forall|x: Seq<char>| crate::downgrade::firsts(s, k).contains(x) <==> s.take(k).contains(x),
    decreases k,
{
    if k > 0 {
        lemma_firsts(s, k - 1);
        let p = crate::downgrade::firsts(s, k - 1);
        assert(s.take(k) =~= s.take(k - 1).push(s[k - 1]));
        assert forall|x: Seq<char>| crate::downgrade::firsts(s, k).contains(x) <==> s.take(k).contains(x) by {
            if s.take(k).contains(x) {
                let i = choose|i: int| 0 <= i < s.take(k).len() && #[trigger] s.take(k)[i] == x;
                if i < k - 1 {
                    assert(s.take(k - 1)[i] == x);
                    assert(s.take(k - 1).contains(x));
                    assert(p.contains(x));
                    let j = choose|j: int| 0 <= j < p.len() && #[trigger] p[j] == x;
                    assert(crate::downgrade::firsts(s, k)[j] == x);
                } else {
                    assert(x == s[k - 1]);
                    if !p.contains(x) {
                        assert(crate::downgrade::firsts(s, k)[p.len() as int] == x);
                    }
                }
            }
            if crate::downgrade::firsts(s, k).contains(x) {
                let i = choose|i: int| 0 <= i < crate::downgrade::firsts(s, k).len() && #[trigger] crate::downgrade::firsts(s, k)[i] == x;
                if i < p.len() {
                    assert(crate::downgrade::firsts(s, k)[i] == p[i]);
                    assert(p[i] == x);
                    assert(p.contains(x));
                    let j = choose|j: int| 0 <= j < s.take(k - 1).len() && #[trigger] s.take(k - 1)[j] == x;
                    assert(s.take(k)[j] == x);
                } else {
                    assert(x == s[k - 1]);
                    assert(s.take(k)[k - 1] == x);
                }
            }
        }
    }
}

/// Names in character order.
fn sort_names(names: Vec<Vec<char>>) -> (r: Vec<Vec<char>>)
    ensures
        forall|i: int, j: int| 0 <= i < j < r@.len() ==> !chars_less(#[trigger] crate::text::views(r@)[j], #[trigger] crate::text::views(r@)[i]),
        crate::text::views(r@).to_multiset() == crate::text::views(names@).to_multiset(),
{
    broadcast use vstd::seq_lib::group_to_multiset_ensures;

    let ghost all = crate::text::views(names@).to_multiset();
    let mut rest = names;
    let mut out: Vec<Vec<char>> = Vec::new();
    while rest.len() > 0
        invariant
            forall|i: int, j: int| 0 <= i < j < out@.len() ==> !chars_less(#[trigger] crate::text::views(out@)[j], #[trigger] crate::text::views(out@)[i]),
            crate::text::views(out@).to_multiset().add(crate::text::views(rest@).to_multiset()) == all,
        decreases rest.len(),
    {
        let ghost rv = crate::text::views(rest@);
        let x = rest.remove(0);
        let ghost vx = x@;
        proof {
            assert(crate::text::views(rest@) =~= rv.remove(0));
            assert(rv[0] == vx);
            assert(rv.contains(vx));
            vstd::seq_lib::to_multiset_remove(rv, 0);
            vstd::seq_lib::to_multiset_contains(rv, vx);
            assert(rv.to_multiset().contains(vx));
        }
        let mut p: usize = 0;
        while p < out.len() && !chars_less_exec(&x, &out[p])
            invariant
                p <= out@.len(),
                forall|k: int| 0 <= k < p ==> !chars_less(vx, #[trigger] crate::text::views(out@)[k]),
                vx == x@,
            decreases out.len() - p,
        {
            assert(crate::text::views(out@)[p as int] == out@[p as int]@);
            p += 1;
        }
        let ghost ov = crate::text::views(out@);
        proof {
            if p < out@.len() {
                assert(ov[p as int] == out@[p as int]@);
            }
            assert forall|j: int| p <= j < ov.len() implies !chars_less(#[trigger] ov[j], vx) by {
                if chars_less(ov[j], vx) {
                    if j == p {
                        crate::text::lemma_chars_less_trans(ov[j], vx, ov[j]);
                        crate::text::lemma_chars_less_irrefl(ov[j]);
                    } else {
                        crate::text::lemma_chars_less_trans(ov[j], vx, ov[p as int]);
                    }
                }
            }
        }
        out.insert(p, x);
        proof {
            let nv = crate::text::views(out@);
            assert(nv =~= ov.insert(p as int, vx));
            vstd::seq_lib::to_multiset_insert(ov, p as int, vx);
            assert forall|i: int, j: int| 0 <= i < j < nv.len() implies !chars_less(#[trigger] nv[j], #[trigger] nv[i]) by {
                if i < p && j < p {
                    assert(nv[i] == ov[i] && nv[j] == ov[j]);
                } else if i < p && j == p {
                    assert(nv[i] == ov[i]);
                } else if i < p {
                    assert(nv[i] == ov[i] && nv[j] == ov[j - 1]);
                } else if i == p {
                    assert(nv[j] == ov[j - 1]);
                } else {
                    assert(nv[i] == ov[i - 1] && nv[j] == ov[j - 1]);
                }
            }
            assert(nv.to_multiset().add(crate::text::views(rest@).to_multiset()) =~= all);
        }
    }
    proof {
        assert(crate::text::views(rest@) =~= Seq::<Seq<char>>::empty());
        assert(crate::text::views(out@).to_multiset().add(Seq::<Seq<char>>::empty().to_multiset()) =~= crate::text::views(out@).to_multiset());
    }
    out
}

pub open spec fn report_gates(rs: Seq<GateReport>) -> Seq<Seq<char>> {
    rs.map_values(|r: GateReport| r.gate@)
}

/// The per-gate report for one repository's history: one report per gate
/// that ran in the window, in name order, each what the record says about
/// that gate. A gate that never ran does not appear.
pub fn summarise(history: &History, now: u64, t: &Thresholds) -> (r: Vec<GateReport>)
    ensures
        forall|i: int, j: int| 0 <= i < j < r@.len() ==> chars_less(#[trigger] report_gates(r@)[i], #[trigger] report_gates(r@)[j]),
        forall|x: Seq<char>| report_gates(r@).contains(x) <==> window_gates(
            history_view(*history),
            window_floor(now, t.window_days),
            history.runs@.len() as int,
        ).contains(x),
        forall|i: int| 0 <= i < r@.len() ==> report_for(#[trigger] r@[i], history_view(*history), report_gates(r@)[i], now, *t),
{
    broadcast use vstd::seq_lib::group_to_multiset_ensures;

    let ghost hv = history_view(*history);
    let floor = window_floor_exec(now, t.window_days);
    let mut names: Vec<Vec<char>> = Vec::new();
    let mut k: usize = 0;
    assert(crate::text::views(names@) =~= Seq::<Seq<char>>::empty());
    while k < history.runs.len()
        invariant
            k <= history.runs@.len(),
            hv == history_view(*history),
            crate::text::views(names@) == crate::downgrade::firsts(window_gates(hv, floor, k as int), window_gates(hv, floor, k as int).len() as int),
        decreases history.runs.len() - k,
    {
        let r = &history.runs[k].1;
        assert(hv[k as int] == run_view(history.runs@[k as int]));
        let g = chars_of(r.gate.as_str());
        proof {
            let a = window_gates(hv, floor, k as int);
            crate::downgrade::lemma_firsts_push(a, g@, a.len() as int);
        }
        if r.at >= floor {
            add_distinct(&mut names, &g);
        }
        k += 1;
    }
    let ghost wg = window_gates(hv, floor, hv.len() as int);
    let ghost fv = crate::text::views(names@);
    proof {
        lemma_firsts(wg, wg.len() as int);
        assert(wg.take(wg.len() as int) =~= wg);
    }
    let sorted = sort_names(names);
    let ghost sv = crate::text::views(sorted@);
    proof {
        fv.lemma_multiset_has_no_duplicates();
        assert(sv.no_duplicates()) by {
            assert forall|x: Seq<char>| sv.to_multiset().contains(x) implies sv.to_multiset().count(x) == 1 by {
                assert(fv.to_multiset().contains(x));
            }
            sv.lemma_multiset_has_no_duplicates_conv();
        }
    }
    let mut out: Vec<GateReport> = Vec::new();
    let mut j: usize = 0;
    while j < sorted.len()
        invariant
            j <= sorted@.len(),
            sv == crate::text::views(sorted@),
            out@.len() == j,
            forall|i: int| 0 <= i < j ==> #[trigger] report_gates(out@)[i] == sv[i],
            forall|i: int| 0 <= i < j ==> report_for(#[trigger] out@[i], hv, sv[i], now, *t),
            hv == history_view(*history),
        decreases sorted.len() - j,
    {
        assert(sv[j as int] == sorted@[j as int]@);
        let rep = one_gate(history, &sorted[j], now, t);
        out.push(rep);
        j += 1;
    }
    proof {
        assert(report_gates(out@) =~= sv);
        assert forall|i: int, j: int| 0 <= i < j < sv.len() implies chars_less(#[trigger] sv[i], #[trigger] sv[j]) by {
            assert(!chars_less(sv[j], sv[i]));
            assert(sv[i] != sv[j]);
            crate::text::lemma_chars_less_total(sv[i], sv[j]);
        }
        assert forall|x: Seq<char>| sv.contains(x) <==> wg.contains(x) by {
            if sv.contains(x) {
                assert(sv.to_multiset().count(x) > 0);
                assert(fv.to_multiset().count(x) > 0);
                assert(fv.contains(x));
            }
            if wg.contains(x) {
                assert(fv.contains(x));
                assert(fv.to_multiset().count(x) > 0);
                assert(sv.to_multiset().count(x) > 0);
            }
        }
    }
    out
}


// ---------------------------------------------------------------------------
// Reading `git cat-file --batch`

/// A `<oid> blob <size>` header: exactly three fields, an id of at least 40
/// hex digits, and a size that reads as a number.
pub open spec fn batch_header(line: Seq<char>) -> bool {
    let w = words(line);
    &&& w.len() == 3
    &&& w[1] == "blob"@
    &&& w[0].len() >= 40
    &&& forall|k: int| 0 <= k < w[0].len() ==> #[trigger] is_hex(w[0][k])
    &&& parse_u64(w[2]) is Some
}

/// Lines joined by `\n`.
pub open spec fn join_lines(ls: Seq<Seq<char>>) -> Seq<char>
    decreases ls.len(),
{
    if ls.len() == 0 {
        seq![]
    } else if ls.len() == 1 {
        ls[0]
    } else {
        join_lines(ls.drop_last()) + seq!['\n'] + ls.last()
    }
}

/// The bodies finished and the one being read after the first `k` lines.
pub open spec fn batch_upto(ls: Seq<Seq<char>>, k: int) -> (Seq<(Seq<char>, Seq<char>)>, Option<(Seq<char>, Seq<Seq<char>>)>)
    decreases k,
{
    if k <= 0 {
        (seq![], None)
    } else {
        let (found, cur) = batch_upto(ls, k - 1);
        let l = ls[k - 1];
        if batch_header(l) {
            let found2 = match cur {
                Some((oid, body)) => found.push((oid, join_lines(body))),
                None => found,
            };
            (found2, Some((words(l)[0], seq![])))
        } else {
            match cur {
                Some((oid, body)) => (found, Some((oid, body.push(l)))),
                None => (found, None),
            }
        }
    }
}

/// Every `(object id, body)` in `git cat-file --batch` output.
pub open spec fn spec_parse_batch(out: Seq<char>) -> Seq<(Seq<char>, Seq<char>)> {
    let ls = lines_of(out);
    let (found, cur) = batch_upto(ls, ls.len() as int);
    match cur {
        Some((oid, body)) => found.push((oid, join_lines(body))),
        None => found,
    }
}

fn is_batch_header(line: &Vec<char>) -> (r: bool)
    ensures
        r == batch_header(line@),
{
    let w = split_words(line);
    if w.len() != 3 {
        return false;
    }
    assert(views(w@)[0] == w@[0]@ && views(w@)[1] == w@[1]@ && views(w@)[2] == w@[2]@);
    proof {
        reveal_strlit("blob");
    }
    if !vec_eq(&w[1], &chars_of("blob")) || w[0].len() < 40 {
        return false;
    }
    let mut k: usize = 0;
    while k < w[0].len()
        invariant
            k <= w@[0]@.len(),
            w@.len() == 3,
            views(w@) == words(line@),
            views(w@)[0] == w@[0]@,
            forall|m: int| 0 <= m < k ==> #[trigger] is_hex(w@[0]@[m]),
        decreases w@[0]@.len() - k,
    {
        let c = w[0][k];
        if !(('0' <= c && c <= '9') || ('a' <= c && c <= 'f') || ('A' <= c && c <= 'F')) {
            assert(!is_hex(w@[0]@[k as int]));
            return false;
        }
        k += 1;
    }
    parse_u64_chars(&w[2]).is_some()
}

fn join_exec(ls: &Vec<Vec<char>>) -> (r: Vec<char>)
    ensures
        r@ == join_lines(views(ls@)),
{
    let mut out: Vec<char> = Vec::new();
    let mut k: usize = 0;
    assert(views(ls@).take(0) =~= Seq::<Seq<char>>::empty());
    while k < ls.len()
        invariant
            k <= ls@.len(),
            out@ == join_lines(views(ls@).take(k as int)),
        decreases ls.len() - k,
    {
        let ghost before = out@;
        if k > 0 {
            out.push('\n');
        }
        push_chars(&mut out, &ls[k]);
        proof {
            let t = views(ls@).take(k + 1);
            assert(t.drop_last() =~= views(ls@).take(k as int));
            assert(t.last() == ls@[k as int]@);
            if k == 0 {
                assert(out@ =~= t[0]);
            } else {
                assert(out@ =~= before + seq!['\n'] + t.last());
            }
        }
        k += 1;
    }
    assert(views(ls@).take(ls.len() as int) =~= views(ls@));
    out
}

pub open spec fn pair_view(p: (String, String)) -> (Seq<char>, Seq<char>) {
    (p.0@, p.1@)
}

/// Split `git cat-file --batch` output into `(object id, body)`: a header
/// line starts a body, the lines up to the next header are its text, and
/// lines before the first header belong to nothing.
pub fn parse_batch(out: &str) -> (r: Vec<(String, String)>)
    ensures
        r@.map_values(|p: (String, String)| pair_view(p)) == spec_parse_batch(out@),
{
    let ls = split_lines(&chars_of(out));
    let mut found: Vec<(String, String)> = Vec::new();
    let mut cur_oid: Vec<char> = Vec::new();
    let mut cur_body: Vec<Vec<char>> = Vec::new();
    let mut open = false;
    let mut k: usize = 0;
    while k < ls.len()
        invariant
            k <= ls@.len(),
            views(ls@) == lines_of(out@),
            ({
                let (f, c) = batch_upto(views(ls@), k as int);
                &&& found@.map_values(|p: (String, String)| pair_view(p)) == f
                &&& open == (c is Some)
                &&& (c matches Some((oid, body)) ==> oid == cur_oid@ && body == views(cur_body@))
            }),
        decreases ls.len() - k,
    {
        let l = &ls[k];
        assert(views(ls@)[k as int] == l@);
        let ghost before = found@.map_values(|p: (String, String)| pair_view(p));
        if is_batch_header(l) {
            if open {
                let body = join_exec(&cur_body);
                found.push((string_of(&cur_oid), string_of(&body)));
                assert(found@.map_values(|p: (String, String)| pair_view(p)) =~= before.push((cur_oid@, body@)));
            }
            let w = split_words(l);
            assert(views(w@)[0] == w@[0]@);
            cur_oid = crate::text::slice_of(&w[0], 0, w[0].len());
            assert(cur_oid@ =~= words(l@)[0]);
            cur_body = Vec::new();
            assert(views(cur_body@) =~= Seq::<Seq<char>>::empty());
            open = true;
        } else if open {
            let ghost b = views(cur_body@);
            let copy = crate::text::slice_of(l, 0, l.len());
            assert(copy@ =~= l@);
            cur_body.push(copy);
            assert(views(cur_body@) =~= b.push(l@));
        }
        k += 1;
    }
    if open {
        let ghost before = found@.map_values(|p: (String, String)| pair_view(p));
        let body = join_exec(&cur_body);
        found.push((string_of(&cur_oid), string_of(&body)));
        assert(found@.map_values(|p: (String, String)| pair_view(p)) =~= before.push((cur_oid@, body@)));
    }
    found
}

} // verus!
