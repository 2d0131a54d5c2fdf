//! Whether each decision-bearing repository's `aval` session hook is
//! current. The hook is never rendered here: the `aval` binary is asked,
//! and only its exit code is read — `0` current, `1` out of date — with
//! what git would do with the hook's files reported beside it. This module
//! decides from what the spawns gave back; running them is the caller's.

use vstd::prelude::*;
use crate::text::{chars_of, string_of, push_str, push_chars, decimal, decimal_chars, decode_lossy, utf8_lossy,
    lines_of, split_lines, views, trim, trim_vec, trim_start, trim_start_vec, starts_with, matches_at};

verus! {

/// The registry aval reads; its presence makes a repository a corpus.
pub const REGISTRY: &'static str = ".adr.yaml";

#[derive(Debug, Clone, PartialEq, Eq)]
pub enum AvalHookState {
    /// No `.adr.yaml` here: not applicable, and nothing was spawned.
    NoCorpus,
    /// A corpus, and no `aval` to judge its hook with — never read as
    /// "current".
    NoAval,
    /// `aval hook install --check` exited 0.
    Current,
    /// `aval hook install --check` exited 1: a file would be written.
    Stale,
    /// aval answered something other than 0 or 1, carried verbatim.
    Unknown { why: String },
}

/// One repository's answer, plus the hook's paths git would ignore — a
/// current hook that still ships to nobody.
#[derive(Debug, Clone, PartialEq, Eq)]
pub struct AvalHook {
    pub state: AvalHookState,
    pub ignored: Vec<String>,
}

impl Default for AvalHook {
    fn default() -> (h: AvalHook)
        ensures
            h.state == AvalHookState::NoCorpus,
            h.ignored@.len() == 0,
    {
        AvalHook { state: AvalHookState::NoCorpus, ignored: Vec::new() }
    }
}

/// What starting `aval` gave back.
#[derive(Debug, Clone, PartialEq, Eq)]
pub enum Spawn {
    /// It could not be started: `not_found` when there was no such binary,
    /// with the error's own words.
    Refused { not_found: bool, message: String },
    /// It ran; `code` is `None` when a signal ended it.
    Exited { code: Option<i32>, stdout: Vec<u8>, stderr: Vec<u8> },
}

/// An exit code as text, or how a process without one ended.
pub open spec fn code_text(code: Option<i32>) -> Seq<char> {
    match code {
        None => "by signal"@,
        Some(c) => if c < 0 {
            "-"@ + decimal((-c) as nat)
        } else {
            decimal(c as nat)
        },
    }
}

fn code_string(code: Option<i32>) -> (r: Vec<char>)
    ensures
        r@ == code_text(code),
{
    match code {
        None => chars_of("by signal"),
        Some(c) => {
            if c < 0 {
                let mut r = chars_of("-");
                let m: i64 = -(c as i64);
                let d = decimal_chars(m as u64);
                push_chars(&mut r, &d);
                r
            } else {
                decimal_chars(c as u64)
            }
        },
    }
}

/// The first line, among those from `k` on, that is not blank — trimmed.
pub open spec fn first_nonblank(ls: Seq<Seq<char>>, k: int) -> Option<Seq<char>>
    decreases ls.len() - k,
{
    if k < 0 || k >= ls.len() {
        None
    } else if trim(ls[k]).len() > 0 {
        Some(trim(ls[k]))
    } else {
        first_nonblank(ls, k + 1)
    }
}

/// The first non-blank line of a process's output, decoded leniently.
pub open spec fn spec_first_line(bytes: Seq<u8>) -> Option<Seq<char>> {
    first_nonblank(lines_of(utf8_lossy(bytes)), 0)
}

pub fn first_line(bytes: &[u8]) -> (r: Option<String>)
    ensures
        match r {
            Some(l) => spec_first_line(bytes@) == Some(l@),
            None => spec_first_line(bytes@) is None,
        },
{
    let text = decode_lossy(bytes);
    let ls = split_lines(&chars_of(text.as_str()));
    let mut k: usize = 0;
    while k < ls.len()
        invariant
            k <= ls@.len(),
            views(ls@) == lines_of(utf8_lossy(bytes@)),
            first_nonblank(views(ls@), k as int) == first_nonblank(views(ls@), 0),
        decreases ls.len() - k,
    {
        assert(views(ls@)[k as int] == ls@[k as int]@);
        let t = trim_vec(&ls[k]);
        if t.len() > 0 {
            return Some(string_of(&t));
        }
        k += 1;
    }
    None
}

/// The first non-blank line of stderr, else of stdout, else "no output".
pub open spec fn spec_words(stdout: Seq<u8>, stderr: Seq<u8>) -> Seq<char> {
    match spec_first_line(stderr) {
        Some(l) => l,
        None => match spec_first_line(stdout) {
            Some(l) => l,
            None => "no output"@,
        },
    }
}

fn words_of(stdout: &[u8], stderr: &[u8]) -> (r: Vec<char>)
    ensures
        r@ == spec_words(stdout@, stderr@),
{
    match first_line(stderr) {
        Some(l) => chars_of(l.as_str()),
        None => match first_line(stdout) {
            Some(l) => chars_of(l.as_str()),
            None => chars_of("no output"),
        },
    }
}

/// The words an unpromised exit is reported with.
pub open spec fn unknown_why(code: Option<i32>, stdout: Seq<u8>, stderr: Seq<u8>) -> Seq<char> {
    "aval hook install --check exited "@ + code_text(code) + ": "@ + spec_words(stdout, stderr)
}

pub fn judge(ran: &Spawn) -> (s: AvalHookState)
    ensures
        match ran {
            Spawn::Refused { not_found, message } => if *not_found {
                s == AvalHookState::NoAval
            } else {
                s matches AvalHookState::Unknown { why } && why@ == message@
            },
            Spawn::Exited { code, stdout, stderr } => if *code == Some(0i32) {
                s == AvalHookState::Current
            } else if *code == Some(1i32) {
                s == AvalHookState::Stale
            } else {
                s matches AvalHookState::Unknown { why } && why@ == unknown_why(*code, stdout@, stderr@)
            },
        },
{
    match ran {
        Spawn::Refused { not_found, message } => {
            if *not_found {
                AvalHookState::NoAval
            } else {
                AvalHookState::Unknown { why: string_of(&chars_of(message.as_str())) }
            }
        },
        Spawn::Exited { code, stdout, stderr } => {
            if *code == Some(0i32) {
                AvalHookState::Current
            } else if *code == Some(1i32) {
                AvalHookState::Stale
            } else {
                let mut why = chars_of("aval hook install --check exited ");
                let c = code_string(*code);
                push_chars(&mut why, &c);
                push_str(&mut why, ": ");
                let w = words_of(stdout.as_slice(), stderr.as_slice());
                push_chars(&mut why, &w);
                AvalHookState::Unknown { why: string_of(&why) }
            }
        },
    }
}

/// The non-blank lines of `git check-ignore`'s output, trimmed: the hook's
/// paths git would ignore.
pub open spec fn nonblank_upto(ls: Seq<Seq<char>>, k: int) -> Seq<Seq<char>>
    decreases k,
{
    if k <= 0 || k > ls.len() {
        Seq::empty()
    } else if trim(ls[k - 1]).len() > 0 {
        nonblank_upto(ls, k - 1).push(trim(ls[k - 1]))
    } else {
        nonblank_upto(ls, k - 1)
    }
}

pub open spec fn spec_ignored(out: Seq<u8>) -> Seq<Seq<char>> {
    let ls = lines_of(utf8_lossy(out));
    nonblank_upto(ls, ls.len() as int)
}

pub fn ignored_paths(check_ignore_out: &[u8]) -> (r: Vec<String>)
    ensures
        r@.map_values(|s: String| s@) == spec_ignored(check_ignore_out@),
{
    let text = decode_lossy(check_ignore_out);
    let ls = split_lines(&chars_of(text.as_str()));
    let ghost lv = views(ls@);
    let mut r: Vec<String> = Vec::new();
    let mut k: usize = 0;
    while k < ls.len()
        invariant
            k <= ls@.len(),
            lv == views(ls@),
            lv == lines_of(utf8_lossy(check_ignore_out@)),
            r@.map_values(|s: String| s@) == nonblank_upto(lv, k as int),
        decreases ls.len() - k,
    {
        assert(lv[k as int] == ls@[k as int]@);
        let t = trim_vec(&ls[k]);
        if t.len() > 0 {
            let ghost before = r@;
            let s = string_of(&t);
            r.push(s);
            assert(r@.map_values(|s: String| s@) =~= before.map_values(|s: String| s@).push(s@));
        }
        k += 1;
    }
    r
}

/// One repository's answer. `asked` is `None` when it has no registry —
/// and then nothing was spawned — else what `aval hook install --check`
/// gave back and what `git check-ignore` printed for the hook's paths
/// (nothing, when git could not be run).
pub fn state(asked: Option<(&Spawn, &[u8])>) -> (h: AvalHook)
    ensures
        match asked {
            None => h.state == AvalHookState::NoCorpus && h.ignored@.len() == 0,
            Some((ran, out)) => {
                &&& h.ignored@.map_values(|s: String| s@) == spec_ignored(out@)
                &&& (match ran {
                    Spawn::Refused { not_found, message } => if *not_found {
                        h.state == AvalHookState::NoAval
                    } else {
                        h.state matches AvalHookState::Unknown { why } && why@ == message@
                    },
                    Spawn::Exited { code, stdout, stderr } => if *code == Some(0i32) {
                        h.state == AvalHookState::Current
                    } else if *code == Some(1i32) {
                        h.state == AvalHookState::Stale
                    } else {
                        h.state matches AvalHookState::Unknown { why } && why@ == unknown_why(*code, stdout@, stderr@)
                    },
                })
            },
        },
{
    match asked {
        None => AvalHook::default(),
        Some((ran, out)) => {
            let s = judge(ran);
            AvalHook { state: s, ignored: ignored_paths(out) }
        },
    }
}

/// How many `wrote` lines aval's install report holds among its first `k`.
pub open spec fn wrote_upto(ls: Seq<Seq<char>>, k: int) -> nat
    decreases k,
{
    if k <= 0 || k > ls.len() {
        0
    } else if starts_with(trim_start(ls[k - 1]), "wrote"@) {
        wrote_upto(ls, k - 1) + 1
    } else {
        wrote_upto(ls, k - 1)
    }
}

pub open spec fn spec_wrote(stdout: Seq<u8>) -> nat {
    let ls = lines_of(utf8_lossy(stdout));
    wrote_upto(ls, ls.len() as int)
}

fn count_wrote(stdout: &[u8]) -> (n: usize)
    ensures
        n == spec_wrote(stdout@),
{
    proof {
        reveal_strlit("wrote");
    }
    let text = decode_lossy(stdout);
    let ls = split_lines(&chars_of(text.as_str()));
    let ghost lv = views(ls@);
    let key = chars_of("wrote");
    let mut n: usize = 0;
    let mut k: usize = 0;
    while k < ls.len()
        invariant
            k <= ls@.len(),
            lv == views(ls@),
            lv == lines_of(utf8_lossy(stdout@)),
            key@ == "wrote"@,
            n == wrote_upto(lv, k as int),
            n <= k,
        decreases ls.len() - k,
    {
        assert(lv[k as int] == ls@[k as int]@);
        let t = trim_start_vec(&ls[k]);
        if key.len() <= t.len() && matches_at(&t, &key, 0) {
            n += 1;
        }
        k += 1;
    }
    n
}

/// What `aval hook install` left: how many files its report says it wrote,
/// or — when it could not start or did not succeed — why, in its words.
pub open spec fn spec_install(aval: Seq<char>, ran: Spawn) -> Result<nat, Seq<char>> {
    match ran {
        Spawn::Refused { not_found, message } => Err(aval + ": "@ + message@),
        Spawn::Exited { code, stdout, stderr } => if code == Some(0i32) {
            Ok(spec_wrote(stdout@))
        } else {
            Err("aval hook install exited "@ + code_text(code) + ": "@ + spec_words(stdout@, stderr@))
        },
    }
}

pub fn install_outcome(aval: &str, ran: &Spawn) -> (r: Result<usize, String>)
    ensures
        match (r, spec_install(aval@, *ran)) {
            (Ok(n), Ok(m)) => n == m,
            (Err(e), Err(f)) => e@ == f,
            _ => false,
        },
{
    match ran {
        Spawn::Refused { not_found, message } => {
            let mut e = chars_of(aval);
            push_str(&mut e, ": ");
            push_str(&mut e, message.as_str());
            Err(string_of(&e))
        },
        Spawn::Exited { code, stdout, stderr } => {
            if *code == Some(0i32) {
                Ok(count_wrote(stdout.as_slice()))
            } else {
                let mut e = chars_of("aval hook install exited ");
                let c = code_string(*code);
                push_chars(&mut e, &c);
                push_str(&mut e, ": ");
                let w = words_of(stdout.as_slice(), stderr.as_slice());
                push_chars(&mut e, &w);
                Err(string_of(&e))
            }
        },
    }
}

} // verus!
