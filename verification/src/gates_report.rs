//! The fleet's gate report as a person reads it: what the flags were
//! decided against, then a table per repository with a record, then what
//! the fleet came to — never silent about a repository with no record.

use vstd::prelude::*;
use crate::text::{chars_of, string_of, decimal, decimal_chars, push_chars, push_str, unicode_upper, to_uppercase};
use crate::gates::{RepoGates, GateRow, FlagRow, spec_thresholds_line, thresholds_line};
use crate::gate_evidence::{Thresholds, spec_duration, duration};
use crate::listing::{spaces, pad_right, pad_left, push_spaces, push_padded_right, push_padded_left};

verus! {

/// The widest gate name among the first `k`, at least four.
pub open spec fn name_width(gs: Seq<GateRow>, k: int) -> nat
    decreases k,
{
    if k <= 0 || k > gs.len() {
        4
    } else {
        let w = name_width(gs, k - 1);
        if gs[k - 1].gate@.len() > w { gs[k - 1].gate@.len() } else { w }
    }
}

/// A flag's line under its gate.
pub open spec fn flag_line(f: FlagRow, width: nat) -> Seq<char> {
    "  "@ + spaces(width) + "  "@ + unicode_upper(f.flag@) + ": "@ + f.why@ + "\n"@
}

pub open spec fn flag_lines(fs: Seq<FlagRow>, width: nat, k: int) -> Seq<char>
    decreases k,
{
    if k <= 0 || k > fs.len() {
        Seq::empty()
    } else {
        flag_lines(fs, width, k - 1) + flag_line(fs[k - 1], width)
    }
}

/// One gate's lines: its numbers; how many runs judged nothing, when any
/// did; each flag; and, for a short history, what was withheld.
pub open spec fn gate_lines(g: GateRow, width: nat) -> Seq<char> {
    number_line(g, width) + unjudged_line(g, width) + flag_lines(g.flags@, width, g.flags@.len() as int)
        + withheld_line(g, width)
}

/// A row's numbers.
pub open spec fn number_line(g: GateRow, width: nat) -> Seq<char> {
    "  "@ + pad_right(g.gate@, width) + "  "@ + pad_left(decimal(g.runs as nat), 4) + " runs  "@
        + pad_left(decimal(g.passed as nat), 3) + " pass  "@ + pad_left(decimal(g.failed as nat), 3) + " fail  median "@
        + pad_left(spec_duration(g.median_ms), 9) + "  last "@ + pad_left(spec_duration(g.last_ms), 9) + "  "@
        + pad_left(decimal(g.last_age_days as nat), 4) + "d ago\n"@
}

/// How many runs judged nothing, when any did.
pub open spec fn unjudged_line(g: GateRow, width: nat) -> Seq<char> {
    if g.unavailable > 0 {
            "  "@ + spaces(width) + "  "@ + decimal(g.unavailable as nat)
                + " run(s) could not judge anything \u{2014} not counted as passes\n"@
    } else {
        Seq::empty()
    }
}

/// For a short history, what was withheld.
pub open spec fn withheld_line(g: GateRow, width: nat) -> Seq<char> {
    match g.insufficient_history {
            Some(why) => "  "@ + spaces(width) + "  "@ + why@ + " \u{2014} "@
                + (if g.flags@.len() == 0 { "no flag computed"@ } else { "nothing judged about its cost or its flakiness"@ })
                + "\n"@,
        None => Seq::empty(),
    }
}

pub open spec fn rows_text(gs: Seq<GateRow>, width: nat, k: int) -> Seq<char>
    decreases k,
{
    if k <= 0 || k > gs.len() {
        Seq::empty()
    } else {
        rows_text(gs, width, k - 1) + gate_lines(gs[k - 1], width)
    }
}

/// One repository's table: its name as shown (`.` for the root itself),
/// its gates, a blank line.
pub open spec fn repo_text(r: RepoGates) -> Seq<char> {
    (if r.repo@.len() == 0 { "."@ } else { r.repo@ }) + "\n"@
        + rows_text(r.gates@, name_width(r.gates@, r.gates@.len() as int), r.gates@.len() as int) + "\n"@
}

pub open spec fn flag_count(gs: Seq<GateRow>, k: int) -> nat
    decreases k,
{
    if k <= 0 || k > gs.len() { 0 } else { flag_count(gs, k - 1) + gs[k - 1].flags@.len() }
}

/// The tables of the repositories with a record among the first `k`, and
/// how many repositories, gates and findings they came to.
pub open spec fn tables(rs: Seq<RepoGates>, k: int) -> (Seq<char>, nat, nat, nat)
    decreases k,
{
    if k <= 0 || k > rs.len() {
        (Seq::empty(), 0, 0, 0)
    } else {
        let (t, repos, gates, flags) = tables(rs, k - 1);
        let r = rs[k - 1];
        if r.gates@.len() == 0 {
            (t, repos, gates, flags)
        } else {
            (t + repo_text(r), repos + 1, gates + r.gates@.len(), flags + flag_count(r.gates@, r.gates@.len() as int))
        }
    }
}

pub open spec fn repositories(n: nat) -> Seq<char> {
    if n == 1 { "repository"@ } else { "repositories"@ }
}

/// The whole report. `repo` of each entry is the repository's name as the
/// reader should see it.
pub open spec fn spec_report(all: Seq<RepoGates>, t: Thresholds) -> Seq<char> {
    let (body, repos, gates, flags) = tables(all, all.len() as int);
    let quiet = (all.len() - repos) as nat;
    spec_thresholds_line(t) + "\n\n"@ + body + decimal(gates) + " gate(s) with a record across "@ + decimal(repos) + " "@
        + repositories(repos) + "; "@ + decimal(flags) + " finding(s)\n"@
        + (if quiet > 0 {
            decimal(quiet) + " "@ + repositories(quiet)
                + " have pushed nothing through a gate yet (or their notes have been pruned) \u{2014} no record, so nothing is claimed about them\n"@
        } else {
            Seq::empty()
        })
}

fn push_flag_line(out: &mut Vec<char>, f: &FlagRow, width: usize)
    ensures
        final(out)@ == old(out)@ + flag_line(*f, width as nat),
{
    let ghost before = out@;
    push_str(out, "  ");
    push_spaces(out, width);
    push_str(out, "  ");
    push_str(out, to_uppercase(f.flag.as_str()).as_str());
    push_str(out, ": ");
    push_str(out, f.why.as_str());
    push_str(out, "\n");
    assert(out@ =~= before + flag_line(*f, width as nat));
}

fn push_padded_number(out: &mut Vec<char>, n: u64, w: usize)
    ensures
        final(out)@ == old(out)@ + pad_left(decimal(n as nat), w as nat),
{
    push_padded_left(out, &decimal_chars(n), w);
}

fn push_padded_duration(out: &mut Vec<char>, ms: u64, w: usize)
    ensures
        final(out)@ == old(out)@ + pad_left(spec_duration(ms), w as nat),
{
    push_padded_left(out, &chars_of(duration(ms).as_str()), w);
}

/// The counts half of the numbers line.
pub open spec fn counts_part(g: GateRow, width: nat) -> Seq<char> {
    "  "@ + pad_right(g.gate@, width) + "  "@ + pad_left(decimal(g.runs as nat), 4) + " runs  "@
        + pad_left(decimal(g.passed as nat), 3) + " pass  "@ + pad_left(decimal(g.failed as nat), 3)
}

/// The timing half of the numbers line.
pub open spec fn timing_part(g: GateRow) -> Seq<char> {
    " fail  median "@ + pad_left(spec_duration(g.median_ms), 9) + "  last "@ + pad_left(spec_duration(g.last_ms), 9) + "  "@
        + pad_left(decimal(g.last_age_days as nat), 4) + "d ago\n"@
}

fn push_counts(out: &mut Vec<char>, g: &GateRow, width: usize)
    ensures
        final(out)@ == old(out)@ + counts_part(*g, width as nat),
{
    let ghost before = out@;
    push_str(out, "  ");
    push_padded_right(out, &chars_of(g.gate.as_str()), width);
    push_str(out, "  ");
    push_padded_number(out, g.runs as u64, 4);
    push_str(out, " runs  ");
    push_padded_number(out, g.passed as u64, 3);
    push_str(out, " pass  ");
    push_padded_number(out, g.failed as u64, 3);
    assert(out@ =~= before + counts_part(*g, width as nat));
}

fn push_timing(out: &mut Vec<char>, g: &GateRow)
    ensures
        final(out)@ == old(out)@ + timing_part(*g),
{
    let ghost before = out@;
    push_str(out, " fail  median ");
    push_padded_duration(out, g.median_ms, 9);
    push_str(out, "  last ");
    push_padded_duration(out, g.last_ms, 9);
    push_str(out, "  ");
    push_padded_number(out, g.last_age_days, 4);
    push_str(out, "d ago\n");
    assert(out@ =~= before + timing_part(*g));
}

fn push_number_line(out: &mut Vec<char>, g: &GateRow, width: usize)
    ensures
        final(out)@ == old(out)@ + number_line(*g, width as nat),
{
    let ghost before = out@;
    push_counts(out, g, width);
    push_timing(out, g);
    assert(number_line(*g, width as nat) =~= counts_part(*g, width as nat) + timing_part(*g));
    assert(out@ =~= before + number_line(*g, width as nat));
}

fn push_unjudged_line(out: &mut Vec<char>, g: &GateRow, width: usize)
    ensures
        final(out)@ == old(out)@ + unjudged_line(*g, width as nat),
{
    let ghost before = out@;
    if g.unavailable > 0 {
        push_str(out, "  ");
        push_spaces(out, width);
        push_str(out, "  ");
        push_chars(out, &decimal_chars(g.unavailable as u64));
        push_str(out, " run(s) could not judge anything \u{2014} not counted as passes\n");
    }
    assert(out@ =~= before + unjudged_line(*g, width as nat));
}

fn push_withheld_line(out: &mut Vec<char>, g: &GateRow, width: usize)
    ensures
        final(out)@ == old(out)@ + withheld_line(*g, width as nat),
{
    let ghost before = out@;
    match &g.insufficient_history {
        Some(why) => {
            push_str(out, "  ");
            push_spaces(out, width);
            push_str(out, "  ");
            push_str(out, why.as_str());
            push_str(out, " \u{2014} ");
            if g.flags.len() == 0 {
                push_str(out, "no flag computed");
            } else {
                push_str(out, "nothing judged about its cost or its flakiness");
            }
            push_str(out, "\n");
        },
        None => {},
    }
    assert(out@ =~= before + withheld_line(*g, width as nat));
}

fn push_gate_lines(out: &mut Vec<char>, g: &GateRow, width: usize)
    ensures
        final(out)@ == old(out)@ + gate_lines(*g, width as nat),
{
    let ghost before = out@;
    push_number_line(out, g, width);
    push_unjudged_line(out, g, width);
    let ghost unjudged = out@;
    let mut k: usize = 0;
    while k < g.flags.len()
        invariant
            k <= g.flags@.len(),
            out@ == unjudged + flag_lines(g.flags@, width as nat, k as int),
        decreases g.flags.len() - k,
    {
        push_flag_line(out, &g.flags[k], width);
        k += 1;
    }
    push_withheld_line(out, g, width);
    assert(out@ =~= before + gate_lines(*g, width as nat));
}

proof fn lemma_flag_count_mono(gs: Seq<GateRow>, j: int, k: int)
    requires
        0 <= j <= k <= gs.len(),
    ensures
        flag_count(gs, j) <= flag_count(gs, k),
    decreases k - j,
{
    if j < k {
        lemma_flag_count_mono(gs, j, k - 1);
    }
}

fn push_repo(out: &mut Vec<char>, r: &RepoGates) -> (n: (usize, usize))
    requires
        r.gates@.len() > 0,
        flag_count(r.gates@, r.gates@.len() as int) <= usize::MAX,
    ensures
        final(out)@ == old(out)@ + repo_text(*r),
        n.0 == r.gates@.len(),
        n.1 == flag_count(r.gates@, r.gates@.len() as int),
{
    let ghost before = out@;
    let mut width: usize = 4;
    let mut k: usize = 0;
    while k < r.gates.len()
        invariant
            k <= r.gates@.len(),
            width == name_width(r.gates@, k as int),
        decreases r.gates.len() - k,
    {
        let w = chars_of(r.gates[k].gate.as_str()).len();
        if w > width {
            width = w;
        }
        k += 1;
    }
    let n = chars_of(r.repo.as_str());
    if n.len() == 0 {
        push_str(out, ".");
    } else {
        push_chars(out, &n);
    }
    push_str(out, "\n");
    let ghost head = out@;
    let mut flags: usize = 0;
    let mut k: usize = 0;
    while k < r.gates.len()
        invariant
            k <= r.gates@.len(),
            width == name_width(r.gates@, r.gates@.len() as int),
            out@ == head + rows_text(r.gates@, width as nat, k as int),
            flags == flag_count(r.gates@, k as int),
            flag_count(r.gates@, r.gates@.len() as int) <= usize::MAX,
        decreases r.gates.len() - k,
    {
        push_gate_lines(out, &r.gates[k], width);
        proof {
            lemma_flag_count_mono(r.gates@, k + 1, r.gates@.len() as int);
        }
        flags = flags + r.gates[k].flags.len();
        k += 1;
    }
    push_str(out, "\n");
    assert(out@ =~= before + repo_text(*r));
    (r.gates.len(), flags)
}

proof fn lemma_tables_mono(rs: Seq<RepoGates>, j: int, k: int)
    requires
        0 <= j <= k <= rs.len(),
    ensures
        tables(rs, j).1 <= tables(rs, k).1,
        tables(rs, j).2 <= tables(rs, k).2,
        tables(rs, j).3 <= tables(rs, k).3,
    decreases k - j,
{
    if j < k {
        lemma_tables_mono(rs, j, k - 1);
    }
}

proof fn lemma_tables_repos(rs: Seq<RepoGates>, k: int)
    requires
        0 <= k <= rs.len(),
    ensures
        tables(rs, k).1 <= k,
    decreases k,
{
    if k > 0 {
        lemma_tables_repos(rs, k - 1);
    }
}

/// The report as the fleet prints it. The counts it states must fit a
/// machine word — the rows they count are in memory.
#[verifier::rlimit(60)]
pub fn report(all: &[RepoGates], t: &Thresholds) -> (r: String)
    requires
        tables(all@, all@.len() as int).2 <= usize::MAX,
        tables(all@, all@.len() as int).3 <= usize::MAX,
    ensures
        r@ == spec_report(all@, *t),
{
    proof {
        reveal_strlit("");
    }
    let mut out = chars_of(thresholds_line(t).as_str());
    push_str(&mut out, "\n\n");
    let ghost head = out@;
    let mut repos: usize = 0;
    let mut gates: usize = 0;
    let mut flags: usize = 0;
    let mut k: usize = 0;
    while k < all.len()
        invariant
            k <= all@.len(),
            out@ == head + tables(all@, k as int).0,
            repos == tables(all@, k as int).1,
            gates == tables(all@, k as int).2,
            flags == tables(all@, k as int).3,
            tables(all@, all@.len() as int).2 <= usize::MAX,
            tables(all@, all@.len() as int).3 <= usize::MAX,
        decreases all.len() - k,
    {
        proof {
            lemma_tables_mono(all@, k + 1, all@.len() as int);
            lemma_tables_repos(all@, k as int);
        }
        let r = &all[k];
        if r.gates.len() > 0 {
            let (g, f) = push_repo(&mut out, r);
            repos = repos + 1;
            gates = gates + g;
            flags = flags + f;
        }
        k += 1;
    }
    proof {
        lemma_tables_repos(all@, all@.len() as int);
    }
    let quiet = all.len() - repos;
    push_chars(&mut out, &decimal_chars(gates as u64));
    push_str(&mut out, " gate(s) with a record across ");
    push_chars(&mut out, &decimal_chars(repos as u64));
    push_str(&mut out, " ");
    if repos == 1 {
        push_str(&mut out, "repository");
    } else {
        push_str(&mut out, "repositories");
    }
    push_str(&mut out, "; ");
    push_chars(&mut out, &decimal_chars(flags as u64));
    push_str(&mut out, " finding(s)\n");
    if quiet > 0 {
        push_chars(&mut out, &decimal_chars(quiet as u64));
        push_str(&mut out, " ");
        if quiet == 1 {
            push_str(&mut out, "repository");
        } else {
            push_str(&mut out, "repositories");
        }
        push_str(&mut out, " have pushed nothing through a gate yet (or their notes have been pruned) \u{2014} no record, so nothing is claimed about them\n");
    }
    assert(out@ =~= spec_report(all@, *t));
    string_of(&out)
}

} // verus!
