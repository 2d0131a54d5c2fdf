//! What a stage of checks concluded, and what a push may vouch for.
//!
//! The dispatcher runs checks; the decisions about their outcomes are here,
//! as values: which bucket each outcome lands in, whether the stage blocks,
//! which failures merely warned and why, which tips a push carries, and
//! which passed gates actually had work to do for the files the push
//! changed — a scoped gate whose files the push never touched returns
//! `Passed` having run nothing, and must not be vouched for.

use vstd::prelude::*;
use crate::check::{Outcome, Severity, Verdict};
use crate::downgrade::Origin;
use crate::pushrefs::PushRef;
use crate::branch_protect::{all_zero, is_all_zero};
use crate::text::{chars_of, string_of, vec_eq, ends_with, vec_ends_with, trim, trim_vec};
use crate::run_tests::strs;
use crate::naming::{skip_suppresses, spec_names_check};

verus! {

/// What a stage concluded, before anything is printed.
#[derive(Debug, Clone, PartialEq, Eq)]
pub struct Report {
    /// Repaired: the commit proceeds, but the author's files changed.
    pub fixed: Vec<String>,
    /// Failed, and the severity that applies blocks.
    pub blocked: Vec<String>,
    /// Failed, but configured to warn.
    pub downgraded: Vec<String>,
    /// Could not run — distinct from passed.
    pub unavailable: Vec<String>,
}

impl Default for Report {
    fn default() -> (r: Report)
        ensures
            r.fixed@.len() == 0,
            r.blocked@.len() == 0,
            r.downgraded@.len() == 0,
            r.unavailable@.len() == 0,
    {
        Report { fixed: Vec::new(), blocked: Vec::new(), downgraded: Vec::new(), unavailable: Vec::new() }
    }
}

impl Report {
    /// A stage blocks exactly when something blocking failed.
    pub fn verdict(&self) -> (v: Verdict)
        ensures
            v == (if self.blocked@.len() > 0 {
                Verdict::Block
            } else {
                Verdict::Proceed
            }),
    {
        if self.blocked.len() > 0 {
            Verdict::Block
        } else {
            Verdict::Proceed
        }
    }
}

/// The names among the first `k` checks whose outcome and effective
/// severity satisfy `keep`, in check order.
pub open spec fn names_where(
    names: Seq<Seq<char>>,
    severities: Seq<Severity>,
    outcomes: Seq<Outcome>,
    keep: spec_fn(Outcome, Severity) -> bool,
    k: int,
) -> Seq<Seq<char>>
    decreases k,
{
    if k <= 0 {
        seq![]
    } else if keep(outcomes[k - 1], severities[k - 1]) {
        names_where(names, severities, outcomes, keep, k - 1).push(names[k - 1])
    } else {
        names_where(names, severities, outcomes, keep, k - 1)
    }
}

pub open spec fn is_fixed(o: Outcome, s: Severity) -> bool {
    o == Outcome::Fixed
}

pub open spec fn is_blocked(o: Outcome, s: Severity) -> bool {
    o == Outcome::Failed && s == Severity::Block
}

pub open spec fn is_downgraded(o: Outcome, s: Severity) -> bool {
    o == Outcome::Failed && s == Severity::Warn
}

pub open spec fn is_unavailable(o: Outcome, s: Severity) -> bool {
    o == Outcome::Unavailable
}

/// Outcomes and effective severities in, buckets out: a pass or a warning
/// needs nothing said; a failure blocks or is downgraded by its severity.
pub fn classify(names: &[String], severities: &[Severity], outcomes: &[Outcome]) -> (r: Report)
    requires
        severities@.len() == names@.len(),
        outcomes@.len() == names@.len(),
    ensures
        strs(r.fixed@) == names_where(strs(names@), severities@, outcomes@, |o: Outcome, s: Severity| is_fixed(o, s), names@.len() as int),
        strs(r.blocked@) == names_where(strs(names@), severities@, outcomes@, |o: Outcome, s: Severity| is_blocked(o, s), names@.len() as int),
        strs(r.downgraded@) == names_where(strs(names@), severities@, outcomes@, |o: Outcome, s: Severity| is_downgraded(o, s), names@.len() as int),
        strs(r.unavailable@) == names_where(strs(names@), severities@, outcomes@, |o: Outcome, s: Severity| is_unavailable(o, s), names@.len() as int),
{
    let ghost ns = strs(names@);
    let ghost f = |o: Outcome, s: Severity| is_fixed(o, s);
    let ghost b = |o: Outcome, s: Severity| is_blocked(o, s);
    let ghost d = |o: Outcome, s: Severity| is_downgraded(o, s);
    let ghost u = |o: Outcome, s: Severity| is_unavailable(o, s);
    let mut r = Report::default();
    let mut k: usize = 0;
    while k < names.len()
        invariant
            k <= names@.len(),
            severities@.len() == names@.len(),
            outcomes@.len() == names@.len(),
            ns == strs(names@),
            f == (|o: Outcome, s: Severity| is_fixed(o, s)),
            b == (|o: Outcome, s: Severity| is_blocked(o, s)),
            d == (|o: Outcome, s: Severity| is_downgraded(o, s)),
            u == (|o: Outcome, s: Severity| is_unavailable(o, s)),
            strs(r.fixed@) == names_where(ns, severities@, outcomes@, f, k as int),
            strs(r.blocked@) == names_where(ns, severities@, outcomes@, b, k as int),
            strs(r.downgraded@) == names_where(ns, severities@, outcomes@, d, k as int),
            strs(r.unavailable@) == names_where(ns, severities@, outcomes@, u, k as int),
        decreases names.len() - k,
    {
        let n = string_of(&chars_of(names[k].as_str()));
        assert(n@ == ns[k as int]);
        let ghost (f0, b0, d0, u0) = (strs(r.fixed@), strs(r.blocked@), strs(r.downgraded@), strs(r.unavailable@));
        match outcomes[k] {
            Outcome::Fixed => {
                r.fixed.push(n);
                assert(strs(r.fixed@) =~= f0.push(ns[k as int]));
            },
            Outcome::Unavailable => {
                r.unavailable.push(n);
                assert(strs(r.unavailable@) =~= u0.push(ns[k as int]));
            },
            Outcome::Failed => match severities[k] {
                Severity::Block => {
                    r.blocked.push(n);
                    assert(strs(r.blocked@) =~= b0.push(ns[k as int]));
                },
                Severity::Warn => {
                    r.downgraded.push(n);
                    assert(strs(r.downgraded@) =~= d0.push(ns[k as int]));
                },
            },
            _ => {},
        }
        k += 1;
    }
    r
}

// ---------------------------------------------------------------------------
// Failures that did not block

/// Where an effective `warn` came from when it overrides a declared
/// severity.
#[derive(Debug, Clone, Copy, PartialEq, Eq, Structural)]
pub enum OverrideSource {
    Config,
    Policy,
}

/// Why a failing check did not block: it declared `warn` itself, or an
/// override from config or policy said so. A declared `block` resolved to
/// `warn` with nothing claiming the override is counted, but not as
/// evidence.
pub open spec fn spec_downgrade_origin(declared: Severity, source: Option<OverrideSource>) -> Origin {
    if declared == Severity::Warn {
        Origin::Declared
    } else {
        match source {
            Some(OverrideSource::Config) => Origin::Config,
            Some(OverrideSource::Policy) => Origin::Policy,
            None => Origin::Declared,
        }
    }
}

pub fn downgrade_origin(declared: Severity, source: Option<OverrideSource>) -> (o: Origin)
    ensures
        o == spec_downgrade_origin(declared, source),
{
    match declared {
        Severity::Warn => Origin::Declared,
        Severity::Block => match source {
            Some(OverrideSource::Config) => Origin::Config,
            Some(OverrideSource::Policy) => Origin::Policy,
            None => Origin::Declared,
        },
    }
}

// ---------------------------------------------------------------------------
// Pushes

/// The tips a push carries: the local objects of every ref that is not a
/// deletion, with consecutive repeats dropped.
pub open spec fn tips_upto(refs: Seq<PushRef>, k: int) -> Seq<Seq<char>>
    decreases k,
{
    if k <= 0 {
        seq![]
    } else {
        let prev = tips_upto(refs, k - 1);
        let oid = refs[k - 1].local_oid@;
        if oid.len() == 0 || all_zero(oid) || (prev.len() > 0 && prev.last() == oid) {
            prev
        } else {
            prev.push(oid)
        }
    }
}

pub fn tips(refs: &[PushRef]) -> (r: Vec<String>)
    ensures
        strs(r@) == tips_upto(refs@, refs@.len() as int),
{
    let mut r: Vec<String> = Vec::new();
    let mut k: usize = 0;
    while k < refs.len()
        invariant
            k <= refs@.len(),
            strs(r@) == tips_upto(refs@, k as int),
        decreases refs.len() - k,
    {
        let oid = chars_of(refs[k].local_oid.as_str());
        let zero = oid.len() == 0 || is_all_zero(refs[k].local_oid.as_str());
        let repeat = r.len() > 0 && vec_eq(&chars_of(r[r.len() - 1].as_str()), &oid);
        proof {
            if r@.len() > 0 {
                assert(strs(r@).last() == r@[r@.len() - 1]@);
            }
        }
        if !zero && !repeat {
            let ghost before = strs(r@);
            r.push(string_of(&oid));
            assert(strs(r@) =~= before.push(oid@));
        }
        k += 1;
    }
    r
}

/// The gates recorded against one tip, if any record names it.
pub open spec fn stamps_of(stamps: Seq<(Seq<char>, Seq<Seq<char>>)>, tip: Seq<char>, k: int) -> Option<Seq<Seq<char>>>
    decreases stamps.len() - k,
{
    if k < 0 || k >= stamps.len() {
        None
    } else if stamps[k].0 == tip {
        Some(stamps[k].1)
    } else {
        stamps_of(stamps, tip, k + 1)
    }
}

pub open spec fn stamp_view(s: (String, Vec<String>)) -> (Seq<char>, Seq<Seq<char>>) {
    (s.0@, strs(s.1@))
}

/// Did an earlier run of this gate pass on every tip being pushed? Never
/// when nothing is pushed.
pub open spec fn spec_stamped_on_every_tip(tips: Seq<Seq<char>>, stamps: Seq<(Seq<char>, Seq<Seq<char>>)>, name: Seq<char>) -> bool {
    tips.len() > 0 && forall|i: int|
        0 <= i < tips.len() ==> (#[trigger] stamps_of(stamps, tips[i], 0) matches Some(gs) && gs.contains(name))
}

/// A gate counts as stamped only when every pushed tip's stamp names it:
/// never with nothing pushed, never when one tip has no stamp or a stamp
/// that does not name it, and always when each tip's names it.
pub proof fn stamped_means_every_tip_names_the_gate(tips: Seq<Seq<char>>, stamps: Seq<(Seq<char>, Seq<Seq<char>>)>, name: Seq<char>, i: int)
    ensures
        tips.len() == 0 ==> !spec_stamped_on_every_tip(tips, stamps, name),
        0 <= i < tips.len() && stamps_of(stamps, tips[i], 0) is None ==> !spec_stamped_on_every_tip(tips, stamps, name),
        0 <= i < tips.len() && (stamps_of(stamps, tips[i], 0) matches Some(gs) && !gs.contains(name))
            ==> !spec_stamped_on_every_tip(tips, stamps, name),
        tips.len() > 0 && (forall|m: int| 0 <= m < tips.len() ==> (#[trigger] stamps_of(stamps, tips[m], 0) matches Some(gs)
            && gs.contains(name))) ==> spec_stamped_on_every_tip(tips, stamps, name),
{
}

fn lookup<'a>(stamps: &'a [(String, Vec<String>)], tip: &Vec<char>) -> (r: Option<&'a Vec<String>>)
    ensures
        match r {
            Some(gs) => stamps_of(stamps@.map_values(|s: (String, Vec<String>)| stamp_view(s)), tip@, 0) == Some(strs(gs@)),
            None => stamps_of(stamps@.map_values(|s: (String, Vec<String>)| stamp_view(s)), tip@, 0) is None,
        },
{
    let ghost sv = stamps@.map_values(|s: (String, Vec<String>)| stamp_view(s));
    let mut k: usize = 0;
    while k < stamps.len()
        invariant
            k <= stamps@.len(),
            sv == stamps@.map_values(|s: (String, Vec<String>)| stamp_view(s)),
            stamps_of(sv, tip@, k as int) == stamps_of(sv, tip@, 0),
        decreases stamps.len() - k,
    {
        assert(sv[k as int] == stamp_view(stamps@[k as int]));
        if vec_eq(&chars_of(stamps[k].0.as_str()), tip) {
            return Some(&stamps[k].1);
        }
        k += 1;
    }
    None
}

fn lists(gs: &[String], name: &Vec<char>) -> (r: bool)
    ensures
        r == strs(gs@).contains(name@),
{
    let mut k: usize = 0;
    while k < gs.len()
        invariant
            k <= gs@.len(),
            forall|m: int| 0 <= m < k ==> strs(gs@)[m] != name@,
        decreases gs.len() - k,
    {
        assert(strs(gs@)[k as int] == gs@[k as int]@);
        if vec_eq(&chars_of(gs[k].as_str()), name) {
            assert(strs(gs@).contains(name@));
            return true;
        }
        k += 1;
    }
    false
}

pub fn stamped_on_every_tip(tips: &[String], stamps: &[(String, Vec<String>)], name: &str) -> (r: bool)
    ensures
        r == spec_stamped_on_every_tip(strs(tips@), stamps@.map_values(|s: (String, Vec<String>)| stamp_view(s)), name@),
{
    let ghost sv = stamps@.map_values(|s: (String, Vec<String>)| stamp_view(s));
    let ghost tv = strs(tips@);
    if tips.len() == 0 {
        return false;
    }
    let n = chars_of(name);
    let mut k: usize = 0;
    while k < tips.len()
        invariant
            k <= tips@.len(),
            tv == strs(tips@),
            sv == stamps@.map_values(|s: (String, Vec<String>)| stamp_view(s)),
            n@ == name@,
            forall|i: int| 0 <= i < k ==> (#[trigger] stamps_of(sv, tv[i], 0) matches Some(gs) && gs.contains(name@)),
        decreases tips.len() - k,
    {
        let t = chars_of(tips[k].as_str());
        assert(t@ == tv[k as int]);
        match lookup(stamps, &t) {
            Some(gs) => {
                if !lists(gs.as_slice(), &n) {
                    return false;
                }
            },
            None => {
                return false;
            },
        }
        k += 1;
    }
    true
}

// ---------------------------------------------------------------------------
// What a push may vouch for

/// A gate's scope, as far as vouching cares: the file patterns it looks
/// at. A scope with none is unscoped — a question about the push itself,
/// not its content — and always has work.
pub open spec fn touches(patterns: Seq<Seq<char>>, changed: Seq<Seq<char>>) -> bool {
    patterns.len() == 0 || exists|i: int, j: int|
        0 <= i < changed.len() && 0 <= j < patterns.len() && ends_with(#[trigger] changed[i], #[trigger] patterns[j])
}

pub fn touches_exec(patterns: &Vec<String>, changed: &[String]) -> (r: bool)
    ensures
        r == touches(strs(patterns@), strs(changed@)),
{
    if patterns.len() == 0 {
        return true;
    }
    let ghost ps = strs(patterns@);
    let ghost cs = strs(changed@);
    let mut i: usize = 0;
    while i < changed.len()
        invariant
            i <= changed@.len(),
            ps == strs(patterns@),
            cs == strs(changed@),
            forall|a: int, b: int| 0 <= a < i && 0 <= b < ps.len() ==> !ends_with(#[trigger] cs[a], #[trigger] ps[b]),
        decreases changed.len() - i,
    {
        let f = chars_of(changed[i].as_str());
        assert(f@ == cs[i as int]);
        let mut j: usize = 0;
        while j < patterns.len()
            invariant
                j <= patterns@.len(),
                i < changed@.len(),
                ps == strs(patterns@),
                cs == strs(changed@),
                f@ == cs[i as int],
                forall|a: int, b: int| 0 <= a < i && 0 <= b < ps.len() ==> !ends_with(#[trigger] cs[a], #[trigger] ps[b]),
                forall|b: int| 0 <= b < j ==> !ends_with(cs[i as int], #[trigger] ps[b]),
            decreases patterns.len() - j,
        {
            assert(ps[j as int] == patterns@[j as int]@);
            if vec_ends_with(&f, &chars_of(patterns[j].as_str())) {
                return true;
            }
            j += 1;
        }
        i += 1;
    }
    false
}

/// The gates among the first `k` that passed and whose scope the changed
/// files touch, in check order.
pub open spec fn vouched_upto(
    names: Seq<Seq<char>>,
    scopes: Seq<Seq<Seq<char>>>,
    passed: Seq<Seq<char>>,
    changed: Seq<Seq<char>>,
    k: int,
) -> Seq<Seq<char>>
    decreases k,
{
    if k <= 0 {
        seq![]
    } else if passed.contains(names[k - 1]) && touches(scopes[k - 1], changed) {
        vouched_upto(names, scopes, passed, changed, k - 1).push(names[k - 1])
    } else {
        vouched_upto(names, scopes, passed, changed, k - 1)
    }
}

pub open spec fn scope_views(scopes: Seq<Vec<String>>) -> Seq<Seq<Seq<char>>> {
    scopes.map_values(|s: Vec<String>| strs(s@))
}

/// What a push may vouch for: each gate that passed and had work to do for
/// the changed files. `scopes[k]` is the file patterns of `names[k]`.
pub fn attestable(names: &[String], scopes: &[Vec<String>], passed: &[String], changed: &[String]) -> (r: Vec<String>)
    requires
        scopes@.len() == names@.len(),
    ensures
        strs(r@) == vouched_upto(strs(names@), scope_views(scopes@), strs(passed@), strs(changed@), names@.len() as int),
{
    let mut r: Vec<String> = Vec::new();
    let mut k: usize = 0;
    while k < names.len()
        invariant
            k <= names@.len(),
            scopes@.len() == names@.len(),
            strs(r@) == vouched_upto(strs(names@), scope_views(scopes@), strs(passed@), strs(changed@), k as int),
        decreases names.len() - k,
    {
        let n = chars_of(names[k].as_str());
        assert(n@ == strs(names@)[k as int]);
        assert(scope_views(scopes@)[k as int] == strs(scopes@[k as int]@));
        if lists(passed, &n) && touches_exec(&scopes[k], changed) {
            let ghost before = strs(r@);
            r.push(string_of(&n));
            assert(strs(r@) =~= before.push(n@));
        }
        k += 1;
    }
    r
}

/// The scoped gates among the first `k` whose files the change touches:
/// what a rehearsal would run.
pub open spec fn scoped_upto(names: Seq<Seq<char>>, scopes: Seq<Seq<Seq<char>>>, changed: Seq<Seq<char>>, k: int) -> Seq<Seq<char>>
    decreases k,
{
    if k <= 0 {
        seq![]
    } else if scopes[k - 1].len() > 0 && touches(scopes[k - 1], changed) {
        scoped_upto(names, scopes, changed, k - 1).push(names[k - 1])
    } else {
        scoped_upto(names, scopes, changed, k - 1)
    }
}

/// The scoped push gates — test suites — that have work to do for a push
/// that changed `changed`.
pub fn scoped_push_gates(names: &[String], scopes: &[Vec<String>], changed: &[String]) -> (r: Vec<String>)
    requires
        scopes@.len() == names@.len(),
    ensures
        strs(r@) == scoped_upto(strs(names@), scope_views(scopes@), strs(changed@), names@.len() as int),
{
    let mut r: Vec<String> = Vec::new();
    let mut k: usize = 0;
    while k < names.len()
        invariant
            k <= names@.len(),
            scopes@.len() == names@.len(),
            strs(r@) == scoped_upto(strs(names@), scope_views(scopes@), strs(changed@), k as int),
        decreases names.len() - k,
    {
        let n = chars_of(names[k].as_str());
        assert(n@ == strs(names@)[k as int]);
        assert(scope_views(scopes@)[k as int] == strs(scopes@[k as int]@));
        if scopes[k].len() > 0 && touches_exec(&scopes[k], changed) {
            let ghost before = strs(r@);
            r.push(string_of(&n));
            assert(strs(r@) =~= before.push(n@));
        }
        k += 1;
    }
    r
}

// ---------------------------------------------------------------------------
// One pre-push gate at a time

/// What a push has gathered so far, gate by gate.
#[derive(Debug, Clone, PartialEq, Eq)]
pub struct PushProgress {
    /// Passed here, or vouched for by a stamp or a commit-time record.
    pub passed: Vec<String>,
    /// Scoped gates that ran here and passed: what this run may stamp.
    pub ran_and_passed: Vec<String>,
    /// Failed but set to warn, with why.
    pub downgraded: Vec<(String, Origin)>,
}

impl PushProgress {
    pub fn new() -> (p: PushProgress)
        ensures
            p.passed@.len() == 0,
            p.ran_and_passed@.len() == 0,
            p.downgraded@.len() == 0,
    {
        PushProgress { passed: Vec::new(), ran_and_passed: Vec::new(), downgraded: Vec::new() }
    }
}

/// What to do with the next gate before running it: skip it in a
/// rehearsal when it asks about the push rather than the content; count it
/// passed when an earlier run's stamp sits on every pushed tip (scoped gates
/// only); otherwise run it.
#[derive(Debug, Clone, Copy, PartialEq, Eq, Structural)]
pub enum Before {
    Skip,
    AlreadyPassed,
    Run,
}

pub open spec fn spec_before(rehearsing: bool, unscoped: bool, stamped_on_every_tip: bool) -> Before {
    if rehearsing && unscoped {
        Before::Skip
    } else if !unscoped && stamped_on_every_tip {
        Before::AlreadyPassed
    } else {
        Before::Run
    }
}

pub fn before_gate(rehearsing: bool, unscoped: bool, stamped_on_every_tip: bool) -> (b: Before)
    ensures
        b == spec_before(rehearsing, unscoped, stamped_on_every_tip),
        b == Before::AlreadyPassed ==> !unscoped && stamped_on_every_tip,
        b == Before::Skip ==> rehearsing && unscoped,
        !rehearsing && !stamped_on_every_tip ==> b == Before::Run,
{
    proof {
        only_a_stamped_scoped_gate_is_vouched_for(rehearsing, unscoped, stamped_on_every_tip);
    }
    if rehearsing && unscoped {
        Before::Skip
    } else if !unscoped && stamped_on_every_tip {
        Before::AlreadyPassed
    } else {
        Before::Run
    }
}

/// What happens to a gate before it runs, by its inputs: it is counted as
/// already passed only when it is scoped and its stamp sits on every pushed
/// tip; it is skipped only in a rehearsal, and only when it is unscoped
/// (push-shaped); and on a real push a gate without stamps always runs.
/// A scoped gate stamped on every tip is always counted as passed.
pub proof fn only_a_stamped_scoped_gate_is_vouched_for(rehearsing: bool, unscoped: bool, stamped_on_every_tip: bool)
    ensures
        spec_before(rehearsing, unscoped, stamped_on_every_tip) == Before::AlreadyPassed ==> !unscoped && stamped_on_every_tip,
        spec_before(rehearsing, unscoped, stamped_on_every_tip) == Before::Skip ==> rehearsing && unscoped,
        spec_before(false, unscoped, false) == Before::Run,
        spec_before(rehearsing, false, true) == Before::AlreadyPassed,
        spec_before(true, true, stamped_on_every_tip) == Before::Skip,
{
}

/// A gate counted as passed without running here.
pub fn vouch(p: &mut PushProgress, name: &str)
    ensures
        strs(final(p).passed@) == strs(old(p).passed@).push(name@),
        final(p).ran_and_passed@ == old(p).ran_and_passed@,
        final(p).downgraded@ == old(p).downgraded@,
{
    let ghost before = strs(p.passed@);
    p.passed.push(string_of(&chars_of(name)));
    assert(strs(p.passed@) =~= before.push(name@));
}

/// A gate that ran and failed at blocking severity: the push stops there.
pub open spec fn blocks_push(step: (Before, Outcome, Severity)) -> bool {
    step.0 == Before::Run && step.1 == Outcome::Failed && step.2 == Severity::Block
}

/// The whole push's verdict over its gates in order — for each, what was
/// decided before it ([`before_gate`]), what it concluded and the severity
/// that applied (a gate not run carries any outcome; it is not read) — and
/// how many gates were reached. The notes push attestation makes carries
/// the guard and is let through without a gate. Otherwise the gates run in
/// order and the first that blocks stops the push: nothing after it runs;
/// anything else — a pass, a warning, an unavailable tool, a failure set to
/// warn, a gate skipped or vouched for — lets the push go on.
pub fn push_verdict(guard_active: bool, steps: &[(Before, Outcome, Severity)]) -> (r: (Verdict, usize))
    ensures
        guard_active ==> r == (Verdict::Proceed, 0usize),
        !guard_active ==> ((r.0 == Verdict::Block) <==> exists|i: int| 0 <= i < steps@.len() && blocks_push(#[trigger] steps@[i])),
        !guard_active && r.0 == Verdict::Block ==> 1 <= r.1 <= steps@.len() && blocks_push(steps@[r.1 - 1])
            && forall|j: int| 0 <= j < r.1 - 1 ==> !blocks_push(#[trigger] steps@[j]),
        !guard_active && r.0 == Verdict::Proceed ==> r.1 == steps@.len(),
{
    if guard_active {
        return (Verdict::Proceed, 0);
    }
    let mut k: usize = 0;
    while k < steps.len()
        invariant
            !guard_active,
            k <= steps@.len(),
            forall|j: int| 0 <= j < k ==> !blocks_push(#[trigger] steps@[j]),
        decreases steps.len() - k,
    {
        let (b, o, sev) = steps[k];
        if b == Before::Run && o == Outcome::Failed && sev == Severity::Block {
            assert(blocks_push(steps@[k as int]));
            return (Verdict::Block, k + 1);
        }
        k += 1;
    }
    (Verdict::Proceed, steps.len())
}

/// Record what one gate that ran concluded, and whether the push stops
/// here: a blocking failure fails fast; a failure set to warn is recorded
/// with its origin; a pass is recorded, and for a scoped gate also as
/// stampable; a warning or an unavailable tool changes nothing.
pub fn after_gate(p: &mut PushProgress, name: &str, unscoped: bool, outcome: Outcome, effective: Severity, origin: Origin) -> (v: Verdict)
    ensures
        v == (if outcome == Outcome::Failed && effective == Severity::Block {
            Verdict::Block
        } else {
            Verdict::Proceed
        }),
        strs(final(p).passed@) == if outcome == Outcome::Passed {
            strs(old(p).passed@).push(name@)
        } else {
            strs(old(p).passed@)
        },
        strs(final(p).ran_and_passed@) == if outcome == Outcome::Passed && !unscoped {
            strs(old(p).ran_and_passed@).push(name@)
        } else {
            strs(old(p).ran_and_passed@)
        },
        final(p).downgraded@.map_values(|d: (String, Origin)| (d.0@, d.1)) == if outcome == Outcome::Failed && effective
            == Severity::Warn {
            old(p).downgraded@.map_values(|d: (String, Origin)| (d.0@, d.1)).push((name@, origin))
        } else {
            old(p).downgraded@.map_values(|d: (String, Origin)| (d.0@, d.1))
        },
{
    match outcome {
        Outcome::Passed => {
            let ghost b = strs(p.passed@);
            let ghost r = strs(p.ran_and_passed@);
            p.passed.push(string_of(&chars_of(name)));
            assert(strs(p.passed@) =~= b.push(name@));
            if !unscoped {
                p.ran_and_passed.push(string_of(&chars_of(name)));
                assert(strs(p.ran_and_passed@) =~= r.push(name@));
            }
            Verdict::Proceed
        },
        Outcome::Failed => match effective {
            Severity::Warn => {
                let ghost d = p.downgraded@.map_values(|d: (String, Origin)| (d.0@, d.1));
                p.downgraded.push((string_of(&chars_of(name)), origin));
                assert(p.downgraded@.map_values(|d: (String, Origin)| (d.0@, d.1)) =~= d.push((name@, origin)));
                Verdict::Proceed
            },
            Severity::Block => Verdict::Block,
        },
        _ => Verdict::Proceed,
    }
}


// ---------------------------------------------------------------------------
// Which checks a run names, and what a stage leaves behind

/// Whether the built-in conventions apply: always, unless the repository
/// asked for them only where a manifest declares them.
pub fn conventions_apply(manifest_declared: bool, declared_mode: bool) -> (r: bool)
    ensures
        r == (manifest_declared || !declared_mode),
{
    manifest_declared || !declared_mode
}

/// How a run name resolved.
#[derive(Debug, Clone, PartialEq, Eq)]
pub enum Named2 {
    Resolved(String),
    Unknown,
    Ambiguous(Vec<String>),
}

/// What `amont run <name>` came to.
#[derive(Debug, Clone, PartialEq, Eq)]
pub enum Named {
    Ran(Verdict),
    /// Nothing matches — full id, short name, or entrypoint.
    Unknown,
    /// A short name that reaches more than one check; the caller lists them
    /// so the user can pick a full id.
    Ambiguous(Vec<String>),
}

/// The ids among the first `k` that `name` reaches, a repeat of the one
/// just kept dropped.
pub open spec fn reached_upto(ids: Seq<Seq<char>>, name: Seq<char>, k: int) -> Seq<Seq<char>>
    decreases k,
{
    if k <= 0 || k > ids.len() {
        Seq::empty()
    } else {
        let before = reached_upto(ids, name, k - 1);
        if spec_names_check(ids[k - 1], name) is Some && (before.len() == 0 || before.last() != ids[k - 1]) {
            before.push(ids[k - 1])
        } else {
            before
        }
    }
}

/// `exact` says whether `name` is itself the id of a check; else every id
/// it reaches — the registry's, then the manifest's — decides: none is
/// unknown, one is that check, more are ambiguous.
pub open spec fn spec_resolve(name: Seq<char>, exact: bool, ids: Seq<Seq<char>>) -> Option<Seq<Seq<char>>> {
    if exact {
        Some(seq![name])
    } else {
        let m = reached_upto(ids, name, ids.len() as int);
        if m.len() == 0 { None } else { Some(m) }
    }
}

pub fn resolve_check_name(name: &str, exact: bool, ids: &[String]) -> (r: Named2)
    ensures
        exact ==> (r matches Named2::Resolved(id) && id@ == name@),
        !exact ==> {
            let m = reached_upto(strs(ids@), name@, ids@.len() as int);
            &&& (m.len() == 0 <==> r == Named2::Unknown)
            &&& (m.len() == 1 <==> r matches Named2::Resolved(_))
            &&& (r matches Named2::Resolved(id) ==> m == seq![id@])
            &&& (r matches Named2::Ambiguous(v) ==> m.len() > 1 && strs(v@) == m)
        },
{
    if exact {
        return Named2::Resolved(string_of(&chars_of(name)));
    }
    let ghost is = strs(ids@);
    let mut m: Vec<String> = Vec::new();
    let mut k: usize = 0;
    while k < ids.len()
        invariant
            k <= ids@.len(),
            is == strs(ids@),
            strs(m@) == reached_upto(is, name@, k as int),
        decreases ids.len() - k,
    {
        assert(is[k as int] == ids@[k as int]@);
        if skip_suppresses(ids[k].as_str(), name) {
            let id = chars_of(ids[k].as_str());
            let repeat = m.len() > 0 && vec_eq(&chars_of(m[m.len() - 1].as_str()), &id);
            proof {
                if m@.len() > 0 {
                    assert(strs(m@).last() == m@[m@.len() - 1]@);
                }
            }
            if !repeat {
                let ghost before = strs(m@);
                m.push(string_of(&id));
                assert(strs(m@) =~= before.push(is[k as int]));
            }
        }
        k += 1;
    }
    if m.len() == 0 {
        Named2::Unknown
    } else if m.len() == 1 {
        let id = string_of(&chars_of(m[0].as_str()));
        assert(strs(m@) =~= seq![id@]);
        Named2::Resolved(id)
    } else {
        Named2::Ambiguous(m)
    }
}

/// A resolved name's id, or what the run comes to without running anything.
pub fn settle(resolved: Named2) -> (r: Result<String, Named>)
    ensures
        match resolved {
            Named2::Resolved(id) => r == Ok::<String, Named>(id),
            Named2::Unknown => r == Err::<String, Named>(Named::Unknown),
            Named2::Ambiguous(ids) => r == Err::<String, Named>(Named::Ambiguous(ids)),
        },
{
    match resolved {
        Named2::Resolved(id) => Ok(id),
        Named2::Unknown => Err(Named::Unknown),
        Named2::Ambiguous(ids) => Err(Named::Ambiguous(ids)),
    }
}

/// A named run holds the unstaged changes aside only for a commit-time
/// check over the index; `--all-files` and push checks read what is there.
pub fn takes_hold(all_files: bool, is_pre_commit_check: bool) -> (r: bool)
    ensures
        r == (!all_files && is_pre_commit_check),
{
    !all_files && is_pre_commit_check
}

/// Did the check named `id` run clean — pass, or repair — among the first
/// `k` checks of a stage?
pub open spec fn ran_clean(id: Seq<char>, names: Seq<Seq<char>>, outcomes: Seq<Outcome>) -> bool {
    exists|i: int| 0 <= i < names.len() && i < outcomes.len() && names[i] == id
        && (outcomes[i] == Outcome::Passed || outcomes[i] == Outcome::Fixed)
}

/// The scripts of the blocking commit-time declarations among the first
/// `k` whose check ran clean.
pub open spec fn stamps_upto(decls: Seq<(Seq<char>, Seq<char>)>, names: Seq<Seq<char>>, outcomes: Seq<Outcome>, k: int) -> Seq<Seq<char>>
    decreases k,
{
    if k <= 0 || k > decls.len() {
        Seq::empty()
    } else if ran_clean(decls[k - 1].0, names, outcomes) {
        stamps_upto(decls, names, outcomes, k - 1).push(decls[k - 1].1)
    } else {
        stamps_upto(decls, names, outcomes, k - 1)
    }
}

pub open spec fn decl_views(decls: Seq<(String, String)>) -> Seq<(Seq<char>, Seq<char>)> {
    decls.map_values(|d: (String, String)| (d.0@, d.1@))
}

/// What a commit stage leaves for post-commit to bind: nothing when it
/// blocked; else the scripts of the blocking declarations (`decls` holds
/// each one's check id and script) whose check passed or repaired. A check
/// whose tool was missing judged nothing and earns no stamp.
pub fn commit_stamps(verdict: Verdict, decls: &[(String, String)], names: &[String], outcomes: &[Outcome]) -> (r: Vec<String>)
    ensures
        verdict == Verdict::Block ==> r@.len() == 0,
        verdict == Verdict::Proceed ==> strs(r@) == stamps_upto(decl_views(decls@), strs(names@), outcomes@, decls@.len() as int),
{
    let mut r: Vec<String> = Vec::new();
    if verdict == Verdict::Block {
        return r;
    }
    let ghost dv = decl_views(decls@);
    let ghost ns = strs(names@);
    let mut k: usize = 0;
    while k < decls.len()
        invariant
            k <= decls@.len(),
            dv == decl_views(decls@),
            ns == strs(names@),
            strs(r@) == stamps_upto(dv, ns, outcomes@, k as int),
        decreases decls.len() - k,
    {
        assert(dv[k as int] == (decls@[k as int].0@, decls@[k as int].1@));
        let id = chars_of(decls[k].0.as_str());
        let mut clean = false;
        let mut i: usize = 0;
        while !clean && i < names.len() && i < outcomes.len()
            invariant
                i <= names@.len(),
                k < decls@.len(),
                dv.len() == decls@.len(),
                ns == strs(names@),
                id@ == dv[k as int].0,
                clean ==> ran_clean(dv[k as int].0, ns, outcomes@),
                !clean ==> forall|j: int| 0 <= j < i && j < outcomes@.len() ==> !(ns[j] == id@
                    && (outcomes@[j] == Outcome::Passed || outcomes@[j] == Outcome::Fixed)),
            decreases names.len() - i + (if clean { 0int } else { 1int }),
        {
            assert(ns[i as int] == names@[i as int]@);
            if (outcomes[i] == Outcome::Passed || outcomes[i] == Outcome::Fixed) && vec_eq(&chars_of(names[i].as_str()), &id) {
                clean = true;
            } else {
                i += 1;
            }
        }
        proof {
            if !clean {
                assert forall|j: int| 0 <= j < ns.len() && j < outcomes@.len() implies !(ns[j] == dv[k as int].0
                    && (outcomes@[j] == Outcome::Passed || outcomes@[j] == Outcome::Fixed)) by {
                    assert(j < i);
                }
                assert(!ran_clean(dv[k as int].0, ns, outcomes@));
            }
        }
        if clean {
            let ghost before = strs(r@);
            r.push(string_of(&chars_of(decls[k].1.as_str())));
            assert(strs(r@) =~= before.push(dv[k as int].1));
        }
        k += 1;
    }
    r
}

/// The checks that failed without blocking, each with why, among the
/// first `k`: what the shadow-mode ledger keeps.
pub open spec fn downgraded_upto(
    names: Seq<Seq<char>>,
    outcomes: Seq<Outcome>,
    effective: Seq<Severity>,
    declared: Seq<Severity>,
    sources: Seq<Option<OverrideSource>>,
    k: int,
) -> Seq<(Seq<char>, Origin)>
    decreases k,
{
    if k <= 0 {
        Seq::empty()
    } else if outcomes[k - 1] == Outcome::Failed && effective[k - 1] == Severity::Warn {
        downgraded_upto(names, outcomes, effective, declared, sources, k - 1).push(
            (names[k - 1], spec_downgrade_origin(declared[k - 1], sources[k - 1])),
        )
    } else {
        downgraded_upto(names, outcomes, effective, declared, sources, k - 1)
    }
}

/// For each check of a stage: its name, outcome, the severity that applied,
/// the one it declares, and where an override came from.
pub fn downgraded_events(
    names: &[String],
    outcomes: &[Outcome],
    effective: &[Severity],
    declared: &[Severity],
    sources: &[Option<OverrideSource>],
) -> (r: Vec<(String, Origin)>)
    requires
        outcomes@.len() == names@.len(),
        effective@.len() == names@.len(),
        declared@.len() == names@.len(),
        sources@.len() == names@.len(),
    ensures
        r@.map_values(|e: (String, Origin)| (e.0@, e.1))
            == downgraded_upto(strs(names@), outcomes@, effective@, declared@, sources@, names@.len() as int),
{
    let ghost ns = strs(names@);
    let mut r: Vec<(String, Origin)> = Vec::new();
    let mut k: usize = 0;
    while k < names.len()
        invariant
            k <= names@.len(),
            outcomes@.len() == names@.len(),
            effective@.len() == names@.len(),
            declared@.len() == names@.len(),
            sources@.len() == names@.len(),
            ns == strs(names@),
            r@.map_values(|e: (String, Origin)| (e.0@, e.1))
                == downgraded_upto(ns, outcomes@, effective@, declared@, sources@, k as int),
        decreases names.len() - k,
    {
        if outcomes[k] == Outcome::Failed && effective[k] == Severity::Warn {
            let ghost before = r@;
            let n = string_of(&chars_of(names[k].as_str()));
            let o = downgrade_origin(declared[k], sources[k]);
            assert(ns[k as int] == names@[k as int]@);
            r.push((n, o));
            assert(r@.map_values(|e: (String, Origin)| (e.0@, e.1))
                =~= before.map_values(|e: (String, Origin)| (e.0@, e.1)).push((n@, o)));
        }
        k += 1;
    }
    r
}

/// Whether a tip's content is what the gates tested: the suite ran in a
/// snapshot of it, or it is HEAD and the working tree was its content —
/// inside a rehearsal's checkout, or with no tracked file modified when the
/// gates were handed it.
pub open spec fn spec_vouchable(tip: Seq<char>, head: Option<Seq<char>>, snapshot_ran: bool, in_snapshot: bool, worktree_clean: bool) -> bool {
    snapshot_ran || (head == Some(tip) && (in_snapshot || worktree_clean))
}

pub open spec fn opt_view(o: Option<&str>) -> Option<Seq<char>> {
    match o {
        Some(s) => Some(s@),
        None => None,
    }
}

/// The tips among the first `k` a push stamp may vouch for.
pub open spec fn stampable_upto(
    tips: Seq<Seq<char>>,
    head: Option<Seq<char>>,
    pushed_tree_mode: bool,
    fell_back: Seq<bool>,
    in_snapshot: bool,
    worktree_clean: bool,
    k: int,
) -> Seq<Seq<char>>
    decreases k,
{
    if k <= 0 {
        Seq::empty()
    } else if spec_vouchable(tips[k - 1], head, pushed_tree_mode && !fell_back[k - 1], in_snapshot, worktree_clean) {
        stampable_upto(tips, head, pushed_tree_mode, fell_back, in_snapshot, worktree_clean, k - 1).push(tips[k - 1])
    } else {
        stampable_upto(tips, head, pushed_tree_mode, fell_back, in_snapshot, worktree_clean, k - 1)
    }
}

/// Which pushed tips the scoped gates that ran here may stamp. `head` is
/// HEAD's commit, `fell_back[i]` whether the pushed-tree snapshot of
/// `tips[i]` could not be made (the suite then ran on the working tree),
/// and `tree_at_start` what `git status --porcelain --untracked-files=no`
/// said before any gate ran. Untracked files are deliberately not counted:
/// gates leave artefacts, and counting them would stop every stamp.
pub fn stampable(
    tips: &[String],
    head: Option<&str>,
    pushed_tree_mode: bool,
    fell_back: &[bool],
    in_snapshot: bool,
    tree_at_start: &str,
) -> (r: Vec<String>)
    requires
        fell_back@.len() == tips@.len(),
    ensures
        strs(r@) == stampable_upto(strs(tips@), opt_view(head), pushed_tree_mode, fell_back@, in_snapshot,
            trim(tree_at_start@).len() == 0, tips@.len() as int),
{
    let clean = trim_vec(&chars_of(tree_at_start)).len() == 0;
    let ghost ts = strs(tips@);
    let mut r: Vec<String> = Vec::new();
    let mut k: usize = 0;
    while k < tips.len()
        invariant
            k <= tips@.len(),
            fell_back@.len() == tips@.len(),
            ts == strs(tips@),
            clean == (trim(tree_at_start@).len() == 0),
            strs(r@) == stampable_upto(ts, opt_view(head), pushed_tree_mode, fell_back@, in_snapshot, clean, k as int),
        decreases tips.len() - k,
    {
        assert(ts[k as int] == tips@[k as int]@);
        let tip = chars_of(tips[k].as_str());
        let is_head = match head {
            Some(h) => vec_eq(&chars_of(h), &tip),
            None => false,
        };
        let snapshot_ran = pushed_tree_mode && !fell_back[k];
        if snapshot_ran || (is_head && (in_snapshot || clean)) {
            let ghost before = strs(r@);
            r.push(string_of(&tip));
            assert(strs(r@) =~= before.push(ts[k as int]));
        }
        k += 1;
    }
    r
}

} // verus!
