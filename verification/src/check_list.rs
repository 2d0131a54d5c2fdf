//! `amont list`: every check a stage would consider, and whether it would
//! run here. Four states, never confused: a check that is correctly silent
//! (inert) must not look like one somebody disabled (skipped), and neither
//! like one whose declaration could not be read (unusable).

use vstd::prelude::*;
use crate::text::{chars_of, string_of, vec_eq, vec_ends_with};
use crate::check::{Scope, Severity, Stage, spec_matches};
use crate::naming::{Source, Status, names_check, spec_names_check, spec_status, status_of, describe, spec_describe, short_name, spec_short_name};
use crate::dispatch::OverrideSource;
use crate::paths::{file_name, file_name_of, name_matches};
use crate::run_tests::strs;

verus! {

/// Whether a check can repair what it finds.
#[derive(Debug, Clone, Copy, PartialEq, Eq, Structural)]
pub enum Fix {
    NoRepair,
    Rewrite,
}

pub open spec fn fix_text(f: Fix) -> Seq<char> {
    match f {
        Fix::NoRepair => "none"@,
        Fix::Rewrite => "rewrite"@,
    }
}

impl Fix {
    pub fn as_str(self) -> (r: &'static str)
        ensures
            r@ == fix_text(self),
    {
        match self {
            Fix::NoRepair => "none",
            Fix::Rewrite => "rewrite",
        }
    }
}

/// What the registry and the manifest say of one check.
#[derive(Debug, Clone, PartialEq, Eq)]
pub struct CheckInfo {
    pub id: String,
    pub stage: Stage,
    pub source: Source,
    /// What the check or its manifest line declares.
    pub declared: Severity,
    /// What applies once `amont.severity.*` is read.
    pub effective: Severity,
    /// Where the winning override came from, when one applies.
    pub override_source: Option<OverrideSource>,
    pub fix: Fix,
    pub scope: Scope,
    /// Files the repository must carry for the check to apply: a `.`-led
    /// entry is an extension, any other a whole file name.
    pub opt_in: Vec<String>,
    /// Why a declaration cannot be used, when it cannot.
    pub unusable: Option<String>,
    /// A runnable declaration's command line.
    pub command: Option<String>,
}

/// One check, as `amont list` reports it.
#[derive(Debug, Clone, PartialEq, Eq)]
pub struct CheckListing {
    pub id: String,
    pub short_name: String,
    pub stage: Stage,
    pub source: Source,
    pub declared_severity: Severity,
    pub effective_severity: Severity,
    pub severity_overridden: bool,
    /// Only where an override changed the severity.
    pub severity_source: Option<OverrideSource>,
    pub fix: Fix,
    pub status: Status,
    /// Empty when the check runs; else why not.
    pub reason: String,
    pub scope_files: Vec<String>,
    pub scope_opt_in: Vec<String>,
    pub command: Option<String>,
}

/// Some entry of `skips` names `id`.
pub open spec fn suppressed(id: Seq<char>, skips: Seq<Seq<char>>) -> bool {
    exists|k: int| 0 <= k < skips.len() && spec_names_check(id, #[trigger] skips[k]) is Some
}

/// Some path is one of the files the repository must carry.
pub open spec fn opted_in(opt_in: Seq<Seq<char>>, paths: Seq<Seq<char>>) -> bool {
    opt_in.len() == 0 || exists|i: int, k: int|
        0 <= i < paths.len() && 0 <= k < opt_in.len() && name_matches(file_name(#[trigger] paths[i]), #[trigger] opt_in[k])
}

/// Whether the check would run over `paths`: its scope matches them and the
/// repository carries what it opts in on.
pub open spec fn applies(c: CheckInfo, paths: Seq<Seq<char>>) -> bool {
    spec_matches(strs(c.scope.files@), strs(c.scope.names@), paths) && opted_in(strs(c.opt_in@), paths)
}

pub open spec fn opt_string(o: Option<String>) -> Option<Seq<char>> {
    match o {
        Some(s) => Some(s@),
        None => None,
    }
}

/// `l` is how `amont list` reports `c`.
pub open spec fn listed(l: CheckListing, c: CheckInfo, paths: Seq<Seq<char>>, skips: Seq<Seq<char>>, policy_skips: Seq<Seq<char>>) -> bool {
    let unscoped = c.scope.files@.len() == 0 && c.scope.names@.len() == 0;
    let files = strs(c.scope.files@) + strs(c.scope.names@);
    let (status, reason) = spec_status(
        opt_string(c.unusable),
        suppressed(c.id@, skips),
        suppressed(c.id@, policy_skips),
        applies(c, paths),
        spec_describe(unscoped, files, strs(c.opt_in@)),
    );
    &&& l.id@ == c.id@
    &&& l.short_name@ == spec_short_name(c.id@)
    &&& l.stage == c.stage
    &&& l.source == c.source
    &&& l.declared_severity == c.declared
    &&& l.effective_severity == c.effective
    &&& l.severity_overridden == (c.declared != c.effective)
    &&& l.severity_source == (if c.declared != c.effective { c.override_source } else { None })
    &&& l.fix == c.fix
    &&& l.status == status
    &&& l.reason@ == reason
    &&& strs(l.scope_files@) == files
    &&& strs(l.scope_opt_in@) == strs(c.opt_in@)
    &&& opt_string(l.command) == opt_string(c.command)
}

/// The indices of the checks among the first `k` that are on `stage`, in
/// declared order.
pub open spec fn stage_picks(checks: Seq<CheckInfo>, stage: Stage, k: int) -> Seq<int>
    decreases k,
{
    if k <= 0 || k > checks.len() {
        Seq::empty()
    } else if checks[k - 1].stage == stage {
        stage_picks(checks, stage, k - 1).push(k - 1)
    } else {
        stage_picks(checks, stage, k - 1)
    }
}

/// The checks a listing covers: those of the stage asked for, or of both
/// stages — commit first — when none is.
pub open spec fn picks(checks: Seq<CheckInfo>, filter: Option<Stage>) -> Seq<int> {
    match filter {
        Some(s) => stage_picks(checks, s, checks.len() as int),
        None => stage_picks(checks, Stage::PreCommit, checks.len() as int) + stage_picks(
            checks,
            Stage::PrePush,
            checks.len() as int,
        ),
    }
}

fn suppresses_any(id: &str, skips: &[String]) -> (r: bool)
    ensures
        r == suppressed(id@, strs(skips@)),
{
    let ghost ss = strs(skips@);
    let mut k: usize = 0;
    while k < skips.len()
        invariant
            k <= skips@.len(),
            ss == strs(skips@),
            forall|m: int| 0 <= m < k ==> !(spec_names_check(id@, #[trigger] ss[m]) is Some),
        decreases skips.len() - k,
    {
        assert(ss[k as int] == skips@[k as int]@);
        if names_check(id, skips[k].as_str()).is_some() {
            return true;
        }
        k += 1;
    }
    false
}

fn opted_in_exec(opt_in: &Vec<String>, paths: &[String]) -> (r: bool)
    ensures
        r == opted_in(strs(opt_in@), strs(paths@)),
{
    if opt_in.len() == 0 {
        return true;
    }
    let ghost os = strs(opt_in@);
    let ghost ps = strs(paths@);
    let mut i: usize = 0;
    while i < paths.len()
        invariant
            i <= paths@.len(),
            os == strs(opt_in@),
            ps == strs(paths@),
            os.len() > 0,
            forall|a: int, b: int| 0 <= a < i && 0 <= b < os.len() ==> !name_matches(file_name(#[trigger] ps[a]), #[trigger] os[b]),
        decreases paths.len() - i,
    {
        assert(ps[i as int] == paths@[i as int]@);
        let name = file_name_of(&chars_of(paths[i].as_str()));
        let mut k: usize = 0;
        while k < opt_in.len()
            invariant
                k <= opt_in@.len(),
                i < paths@.len(),
                os == strs(opt_in@),
                ps == strs(paths@),
                name@ == file_name(ps[i as int]),
                forall|a: int, b: int| 0 <= a < i && 0 <= b < os.len() ==> !name_matches(file_name(#[trigger] ps[a]), #[trigger] os[b]),
                forall|b: int| 0 <= b < k ==> !name_matches(file_name(ps[i as int]), #[trigger] os[b]),
            decreases opt_in.len() - k,
        {
            assert(os[k as int] == opt_in@[k as int]@);
            let p = chars_of(opt_in[k].as_str());
            let hit = if p.len() > 0 && p[0] == '.' {
                vec_ends_with(&name, &p)
            } else {
                vec_eq(&name, &p)
            };
            if hit {
                assert(name_matches(file_name(ps[i as int]), os[k as int]));
                return true;
            }
            k += 1;
        }
        i += 1;
    }
    false
}

proof fn lemma_strs_push(r: Seq<String>, s: String)
    ensures
        strs(r.push(s)) == strs(r).push(s@),
{
    assert(strs(r.push(s)) =~= strs(r).push(s@));
}

fn copy_strings(v: &Vec<String>) -> (r: Vec<String>)
    ensures
        strs(r@) == strs(v@),
{
    let mut r: Vec<String> = Vec::new();
    let mut k: usize = 0;
    while k < v.len()
        invariant
            k <= v@.len(),
            strs(r@) == strs(v@).take(k as int),
        decreases v.len() - k,
    {
        let ghost before = r@;
        let c = string_of(&chars_of(v[k].as_str()));
        r.push(c);
        proof {
            lemma_strs_push(before, c);
            assert(strs(v@)[k as int] == v@[k as int]@);
            assert(strs(v@).take(k + 1) =~= strs(v@).take(k as int).push(strs(v@)[k as int]));
        }
        k += 1;
    }
    assert(strs(v@).take(v@.len() as int) =~= strs(v@));
    r
}

fn as_strs(v: &Vec<String>) -> (r: Vec<&str>)
    ensures
        r@.map_values(|p: &str| p@) == strs(v@),
{
    let mut r: Vec<&str> = Vec::new();
    let mut k: usize = 0;
    while k < v.len()
        invariant
            k <= v@.len(),
            r@.map_values(|p: &str| p@) == strs(v@).take(k as int),
        decreases v.len() - k,
    {
        let ghost before = r@;
        r.push(v[k].as_str());
        proof {
            assert(r@.map_values(|p: &str| p@) =~= before.map_values(|p: &str| p@).push(v@[k as int]@));
            assert(strs(v@)[k as int] == v@[k as int]@);
            assert(strs(v@).take(k + 1) =~= strs(v@).take(k as int).push(strs(v@)[k as int]));
        }
        k += 1;
    }
    assert(strs(v@).take(v@.len() as int) =~= strs(v@));
    r
}

/// How `amont list` reports one check, over the repository's `paths`.
pub fn listing(c: &CheckInfo, paths: &[String], skips: &[String], policy_skips: &[String]) -> (l: CheckListing)
    ensures
        listed(l, *c, strs(paths@), strs(skips@), strs(policy_skips@)),
{
    let skipped = suppresses_any(c.id.as_str(), skips);
    let by_policy = suppresses_any(c.id.as_str(), policy_skips);
    let applies = c.scope.matches(paths) && opted_in_exec(&c.opt_in, paths);
    let unscoped = c.scope.is_unscoped();
    let mut files = copy_strings(&c.scope.files);
    let names = copy_strings(&c.scope.names);
    let ghost f0 = strs(files@);
    let mut k: usize = 0;
    while k < names.len()
        invariant
            k <= names@.len(),
            strs(files@) == f0 + strs(names@).take(k as int),
        decreases names.len() - k,
    {
        let ghost before = files@;
        let c = string_of(&chars_of(names[k].as_str()));
        files.push(c);
        proof {
            lemma_strs_push(before, c);
            assert(strs(names@)[k as int] == names@[k as int]@);
            assert(strs(names@).take(k + 1) =~= strs(names@).take(k as int).push(strs(names@)[k as int]));
            assert(f0 + strs(names@).take(k + 1) =~= (f0 + strs(names@).take(k as int)).push(strs(names@)[k as int]));
        }
        k += 1;
    }
    assert(strs(names@).take(names@.len() as int) =~= strs(names@));
    let fs = as_strs(&files);
    let os = as_strs(&c.opt_in);
    let needs = describe(unscoped, fs.as_slice(), os.as_slice());
    let why = match &c.unusable {
        Some(w) => Some(w.as_str()),
        None => None,
    };
    let (status, reason) = status_of(why, skipped, by_policy, applies, needs.as_str());
    let overridden = c.declared != c.effective;
    CheckListing {
        id: string_of(&chars_of(c.id.as_str())),
        short_name: short_name(c.id.as_str()),
        stage: c.stage,
        source: c.source,
        declared_severity: c.declared,
        effective_severity: c.effective,
        severity_overridden: overridden,
        severity_source: if overridden { c.override_source } else { None },
        fix: c.fix,
        status,
        reason,
        scope_files: files,
        scope_opt_in: copy_strings(&c.opt_in),
        command: match &c.command {
            Some(s) => Some(string_of(&chars_of(s.as_str()))),
            None => None,
        },
    }
}

fn push_stage(out: &mut Vec<CheckListing>, stage: Stage, checks: &[CheckInfo], paths: &[String], skips: &[String], policy_skips: &[String])
    ensures
        final(out)@.len() == old(out)@.len() + stage_picks(checks@, stage, checks@.len() as int).len(),
        forall|i: int| 0 <= i < old(out)@.len() ==> #[trigger] final(out)@[i] == old(out)@[i],
        forall|i: int| 0 <= i < stage_picks(checks@, stage, checks@.len() as int).len() ==> listed(
            #[trigger] final(out)@[old(out)@.len() + i],
            checks@[stage_picks(checks@, stage, checks@.len() as int)[i]],
            strs(paths@),
            strs(skips@),
            strs(policy_skips@),
        ),
{
    let ghost start = out@;
    let mut k: usize = 0;
    while k < checks.len()
        invariant
            k <= checks@.len(),
            out@.len() == start.len() + stage_picks(checks@, stage, k as int).len(),
            forall|i: int| 0 <= i < start.len() ==> #[trigger] out@[i] == start[i],
            forall|i: int| 0 <= i < stage_picks(checks@, stage, k as int).len() ==> listed(
                #[trigger] out@[start.len() + i],
                checks@[stage_picks(checks@, stage, k as int)[i]],
                strs(paths@),
                strs(skips@),
                strs(policy_skips@),
            ),
        decreases checks.len() - k,
    {
        if checks[k].stage == stage {
            let l = listing(&checks[k], paths, skips, policy_skips);
            let ghost before = out@;
            out.push(l);
            proof {
                let p = stage_picks(checks@, stage, k + 1);
                assert(p == stage_picks(checks@, stage, k as int).push(k as int));
                assert forall|i: int| 0 <= i < p.len() implies listed(
                    #[trigger] out@[start.len() + i],
                    checks@[p[i]],
                    strs(paths@),
                    strs(skips@),
                    strs(policy_skips@),
                ) by {
                    if i < p.len() - 1 {
                        assert(out@[start.len() + i] == before[start.len() + i]);
                    }
                }
            }
        }
        k += 1;
    }
}

/// Every check `stage_filter` covers — both stages, commit first, when it
/// is `None` — in declared order, each reported over the repository's
/// tracked `paths`: unusable when its declaration cannot be used, else
/// skipped when an entry of `skips` names it (and said which source: the
/// policy when an entry of `policy_skips` names it, else `hook.skip`), else
/// running when its scope matches `paths`, else inert, with what it needs.
/// `skips` is every skip in force — this machine's `hook.skip` entries and
/// the policy's together — so a policy skip must be in both lists.
pub fn gather_checks(
    stage_filter: Option<Stage>,
    checks: &[CheckInfo],
    paths: &[String],
    skips: &[String],
    policy_skips: &[String],
) -> (r: Vec<CheckListing>)
    ensures
        r@.len() == picks(checks@, stage_filter).len(),
        forall|i: int| 0 <= i < r@.len() ==> listed(
            #[trigger] r@[i],
            checks@[picks(checks@, stage_filter)[i]],
            strs(paths@),
            strs(skips@),
            strs(policy_skips@),
        ),
{
    let mut out: Vec<CheckListing> = Vec::new();
    match stage_filter {
        Some(s) => {
            push_stage(&mut out, s, checks, paths, skips, policy_skips);
            proof {
                let a = stage_picks(checks@, s, checks@.len() as int);
                assert(picks(checks@, stage_filter) == a);
                assert forall|i: int| 0 <= i < out@.len() implies listed(
                    #[trigger] out@[i],
                    checks@[picks(checks@, stage_filter)[i]],
                    strs(paths@),
                    strs(skips@),
                    strs(policy_skips@),
                ) by {
                    assert(out@[0 + i] == out@[i]);
                }
            }
        },
        None => {
            push_stage(&mut out, Stage::PreCommit, checks, paths, skips, policy_skips);
            let ghost first = out@;
            push_stage(&mut out, Stage::PrePush, checks, paths, skips, policy_skips);
            proof {
                let a = stage_picks(checks@, Stage::PreCommit, checks@.len() as int);
                let b = stage_picks(checks@, Stage::PrePush, checks@.len() as int);
                assert forall|i: int| 0 <= i < out@.len() implies listed(
                    #[trigger] out@[i],
                    checks@[picks(checks@, stage_filter)[i]],
                    strs(paths@),
                    strs(skips@),
                    strs(policy_skips@),
                ) by {
                    if i < a.len() {
                        assert(out@[i] == first[i]);
                        assert(out@[0 + i] == out@[i]);
                        assert(picks(checks@, stage_filter)[i] == a[i]);
                    } else {
                        assert(picks(checks@, stage_filter)[i] == b[i - a.len()]);
                        assert(out@[a.len() + (i - a.len())] == out@[i]);
                    }
                }
            }
        },
    }
    out
}

} // verus!
