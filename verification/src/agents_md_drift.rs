//! pre-commit-agents-md: the generated guidance block is behind the binary.
//! An agent believes the block for a whole session, so a block written by
//! last month's amont is wrong instructions being followed. Warn, never
//! block; silent where no file carries the markers — the block is opt-in.
//! This module decides from the two files' texts; reading, rewriting and
//! re-staging them is the caller's.

use vstd::prelude::*;
use crate::text::{chars_of, string_of, push_str, push_chars, contains, str_contains};
use crate::agents_md::{START, CheckResult, MarkerState, spec_classify, spec_block, join_names, pointer_piece, END, check, check_pointer};
use crate::naming::join_with;
use crate::run_tests::strs;
use crate::check::Outcome;

verus! {

/// Does a file, if there is one, carry the start marker? A repository whose
/// files carry none has not opted in, and nothing is generated for it.
pub open spec fn has_markers(text: Option<Seq<char>>) -> bool {
    match text {
        Some(t) => contains(t, START@),
        None => false,
    }
}

pub open spec fn opt_text(o: Option<&str>) -> Option<Seq<char>> {
    match o {
        Some(s) => Some(s@),
        None => None,
    }
}

/// What the two files came to.
#[derive(Debug, Clone, PartialEq, Eq)]
pub struct Drift {
    /// The files whose block is not the one this binary generates.
    pub drifted: Vec<String>,
    /// The files with an unpaired marker: a hand-edit gone wrong, said once
    /// and let through.
    pub unpaired: Vec<String>,
}

/// Is the file's check this result?
pub open spec fn block_result(text: Option<Seq<char>>, block: Seq<char>) -> Result<CheckResult, MarkerState> {
    match text {
        Some(t) => spec_classify(t, block),
        None => spec_classify(Seq::empty(), block),
    }
}

pub open spec fn generated_block(prefixes: Seq<&str>, idle: Seq<char>, ceiling: Seq<char>) -> Seq<char> {
    spec_block(join_names(prefixes.map_values(|p: &str| p@), prefixes.len() as int), idle, ceiling)
}

pub open spec fn generated_pointer() -> Seq<char> {
    START@ + pointer_piece() + END@ + "\n"@
}

/// The names, in file order, of the two files that satisfy `pick`.
pub open spec fn named_if(a: bool, a_name: Seq<char>, b: bool, b_name: Seq<char>) -> Seq<Seq<char>> {
    if a && b {
        seq![a_name, b_name]
    } else if a {
        seq![a_name]
    } else if b {
        seq![b_name]
    } else {
        Seq::empty()
    }
}

fn named(a: bool, a_name: &str, b: bool, b_name: &str) -> (r: Vec<String>)
    ensures
        strs(r@) == named_if(a, a_name@, b, b_name@),
{
    let mut r: Vec<String> = Vec::new();
    if a {
        r.push(string_of(&chars_of(a_name)));
    }
    if b {
        r.push(string_of(&chars_of(b_name)));
    }
    assert(strs(r@) =~= named_if(a, a_name@, b, b_name@));
    r
}

/// `block` and `pointer` are the two files' texts (`None` when a file is
/// absent), named `block_name` and `pointer_name`. `None` when neither
/// carries a marker; else which files drifted from what this binary
/// generates for these values, and which have an unpaired marker.
pub fn run_in(
    block: Option<&str>,
    pointer: Option<&str>,
    block_name: &str,
    pointer_name: &str,
    prefixes: &[&str],
    idle: &str,
    ceiling: &str,
) -> (r: Option<Drift>)
    ensures
        !has_markers(opt_text(block)) && !has_markers(opt_text(pointer)) <==> r is None,
        r matches Some(d) ==> {
            let b = block_result(opt_text(block), generated_block(prefixes@, idle@, ceiling@));
            let p = block_result(opt_text(pointer), generated_pointer());
            &&& strs(d.drifted@) == named_if(
                b == Ok::<CheckResult, MarkerState>(CheckResult::Drifted), block_name@,
                p == Ok::<CheckResult, MarkerState>(CheckResult::Drifted), pointer_name@)
            &&& strs(d.unpaired@) == named_if(b is Err, block_name@, p is Err, pointer_name@)
        },
{
    let b_marked = match block {
        Some(t) => str_contains(t, START),
        None => false,
    };
    let p_marked = match pointer {
        Some(t) => str_contains(t, START),
        None => false,
    };
    if !b_marked && !p_marked {
        return None;
    }
    proof {
        reveal_strlit("");
        assert(""@ =~= Seq::<char>::empty());
    }
    let b = match block {
        Some(t) => check(t, prefixes, idle, ceiling),
        None => check("", prefixes, idle, ceiling),
    };
    let p = match pointer {
        Some(t) => check_pointer(t),
        None => check_pointer(""),
    };
    let b_drift = match b {
        Ok(CheckResult::Drifted) => true,
        _ => false,
    };
    let p_drift = match p {
        Ok(CheckResult::Drifted) => true,
        _ => false,
    };
    let b_err = b.is_err();
    let p_err = p.is_err();
    Some(Drift { drifted: named(b_drift, block_name, p_drift, pointer_name), unpaired: named(b_err, block_name, p_err, pointer_name) })
}

/// How the warning names what drifted: `A is` or `A and B are`.
pub open spec fn behind(drifted: Seq<Seq<char>>) -> Seq<char> {
    join_with(drifted, " and "@, drifted.len() as int) + (if drifted.len() == 1 { " is"@ } else { " are"@ })
}

pub fn names_behind(drifted: &[String]) -> (r: String)
    ensures
        r@ == behind(strs(drifted@)),
{
    let ghost ds = strs(drifted@);
    let mut out: Vec<char> = Vec::new();
    let mut k: usize = 0;
    while k < drifted.len()
        invariant
            k <= drifted@.len(),
            ds == strs(drifted@),
            out@ == join_with(ds, " and "@, k as int),
        decreases drifted.len() - k,
    {
        if k > 0 {
            push_str(&mut out, " and ");
        }
        push_str(&mut out, drifted[k].as_str());
        assert(ds[k as int] == drifted@[k as int]@);
        k += 1;
    }
    if drifted.len() == 1 {
        push_str(&mut out, " is");
    } else {
        push_str(&mut out, " are");
    }
    string_of(&out)
}

/// What the hook concludes without repairing anything: a warning when a
/// file drifted — guidance, never a block — else a pass, an unpaired marker
/// included (it is said, and let through).
pub fn drift_outcome(d: &Option<Drift>) -> (o: Outcome)
    ensures
        o == (if (d matches Some(x) && x.drifted@.len() > 0) { Outcome::Warned } else { Outcome::Passed }),
{
    match d {
        Some(x) => if x.drifted.len() > 0 { Outcome::Warned } else { Outcome::Passed },
        None => Outcome::Passed,
    }
}

/// Whether the hook repairs: only with fixing on and something drifted.
pub fn repairs(d: &Option<Drift>, fixing: bool) -> (r: bool)
    ensures
        r == (fixing && (d matches Some(x) && x.drifted@.len() > 0)),
{
    fixing && drift_outcome(d) == Outcome::Warned
}

/// What happened at one step of a repair: each drifted file is rewritten
/// in turn, then the rewritten files are re-staged.
#[derive(Debug, Clone, Copy, PartialEq, Eq, Structural)]
pub enum FixEvent {
    /// A file was rewritten; go on to the next, or to re-staging.
    Wrote,
    /// A file could not be rewritten.
    WriteFailed,
    /// The rewritten files are staged.
    Staged,
    /// `git add` failed: the index still holds the stale block.
    StageFailed,
    /// Rewritten on disk, but the index already held it: nothing staged
    /// differed, and the drift is reported as a warning after all.
    NothingStaged,
}

/// The repair's conclusion after an event, or `None` to go on.
pub fn fix_step(ev: FixEvent) -> (o: Option<Outcome>)
    ensures
        o == (match ev {
            FixEvent::Wrote => None,
            FixEvent::WriteFailed => Some(Outcome::Failed),
            FixEvent::Staged => Some(Outcome::Fixed),
            FixEvent::StageFailed => Some(Outcome::Failed),
            FixEvent::NothingStaged => Some(Outcome::Warned),
        }),
{
    match ev {
        FixEvent::Wrote => None,
        FixEvent::WriteFailed => Some(Outcome::Failed),
        FixEvent::Staged => Some(Outcome::Fixed),
        FixEvent::StageFailed => Some(Outcome::Failed),
        FixEvent::NothingStaged => Some(Outcome::Warned),
    }
}

} // verus!
