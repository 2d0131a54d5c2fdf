//! What the library reads of git's own output, and which failures of a git
//! process are a loaded machine's hiccup rather than an answer.

use vstd::prelude::*;
use crate::text::{decode_lossy, utf8_lossy, chars_of, string_of, trim, trim_vec};
use crate::run_tests::strs;

verus! {

/// How an attempt to run git failed, as far as retrying cares.
#[derive(Debug, Clone, Copy, PartialEq, Eq, Structural)]
pub enum FailureKind {
    /// Interrupted by a signal.
    Interrupted,
    /// The resource was momentarily unavailable.
    WouldBlock,
    /// Anything else.
    Other,
}

/// A failure worth another attempt: an interruption, a would-block, or one
/// of the raw OS codes for the same pressure — EINTR (4), EAGAIN (11 on
/// Linux, 35 on macOS) and ETXTBSY (26).
pub open spec fn spec_transient(kind: FailureKind, raw_os_error: Option<i32>) -> bool {
    ||| kind == FailureKind::Interrupted
    ||| kind == FailureKind::WouldBlock
    ||| raw_os_error == Some(4i32)
    ||| raw_os_error == Some(11i32)
    ||| raw_os_error == Some(26i32)
    ||| raw_os_error == Some(35i32)
}

pub fn transient(kind: FailureKind, raw_os_error: Option<i32>) -> (r: bool)
    ensures
        r == spec_transient(kind, raw_os_error),
{
    match kind {
        FailureKind::Interrupted | FailureKind::WouldBlock => true,
        FailureKind::Other => match raw_os_error {
            Some(c) => c == 4 || c == 11 || c == 26 || c == 35,
            None => false,
        },
    }
}

/// The pieces finished, and the one being read, after the first `k` bytes
/// of NUL-separated output. An empty piece is never kept.
pub open spec fn nul_upto(raw: Seq<u8>, k: int) -> (Seq<Seq<u8>>, Seq<u8>)
    decreases k,
{
    if k <= 0 {
        (seq![], seq![])
    } else {
        let (done, cur) = nul_upto(raw, k - 1);
        if raw[k - 1] == 0 {
            (if cur.len() > 0 { done.push(cur) } else { done }, seq![])
        } else {
            (done, cur.push(raw[k - 1]))
        }
    }
}

/// The non-empty NUL-separated pieces of `raw`, in order.
pub open spec fn nul_pieces(raw: Seq<u8>) -> Seq<Seq<u8>> {
    let (done, cur) = nul_upto(raw, raw.len() as int);
    if cur.len() > 0 {
        done.push(cur)
    } else {
        done
    }
}

/// Paths out of `-z` output: split on NUL, empty pieces dropped, each piece
/// decoded as UTF-8 (invalid sequences replaced) — never unquoted, because
/// `-z` output is not quoted.
pub fn split_nul_paths(raw: &[u8]) -> (r: Vec<String>)
    ensures
        r@.map_values(|s: String| s@) == nul_pieces(raw@).map_values(|p: Seq<u8>| utf8_lossy(p)),
        forall|i: int| 0 <= i < r@.len() && vstd::utf8::valid_utf8(nul_pieces(raw@)[i])
            ==> (#[trigger] r@[i])@ == vstd::utf8::decode_utf8(nul_pieces(raw@)[i]),
{
    let mut out: Vec<String> = Vec::new();
    let mut cur: Vec<u8> = Vec::new();
    let mut k: usize = 0;
    while k < raw.len()
        invariant
            k <= raw@.len(),
            ({
                let (done, c) = nul_upto(raw@, k as int);
                &&& out@.map_values(|s: String| s@) == done.map_values(|p: Seq<u8>| utf8_lossy(p))
                &&& forall|i: int| 0 <= i < out@.len() && vstd::utf8::valid_utf8(done[i])
                    ==> (#[trigger] out@[i])@ == vstd::utf8::decode_utf8(done[i])
                &&& cur@ == c
            }),
        decreases raw.len() - k,
    {
        let b = raw[k];
        if b == 0 {
            if cur.len() > 0 {
                let ghost before = out@.map_values(|s: String| s@);
                let s = decode_lossy(cur.as_slice());
                out.push(s);
                assert(out@.map_values(|s: String| s@) =~= before.push(utf8_lossy(cur@)));
            }
            cur = Vec::new();
        } else {
            cur.push(b);
        }
        k += 1;
    }
    if cur.len() > 0 {
        let ghost before = out@.map_values(|s: String| s@);
        let s = decode_lossy(cur.as_slice());
        out.push(s);
        assert(out@.map_values(|s: String| s@) =~= before.push(utf8_lossy(cur@)));
    }
    out
}

/// Where a run of attempts stands: how many more a transient failure may
/// buy, and how long to pause before the next.
#[derive(Debug, Clone, Copy, PartialEq, Eq)]
pub struct Retry {
    pub tries_left: u8,
    pub delay_ms: u64,
}

/// What to do after an attempt failed.
#[derive(Debug, Clone, Copy, PartialEq, Eq)]
pub enum Next {
    /// Pause this long, then attempt again.
    Pause(u64),
    /// Give up: the failure is the answer.
    Stop,
}

/// Three attempts in all, 10ms apart and then 30ms: the difference between
/// a git that is absent and a scheduler hiccup.
pub fn retry_start() -> (r: Retry)
    ensures
        r.tries_left == 2,
        r.delay_ms == 10,
{
    Retry { tries_left: 2, delay_ms: 10 }
}

/// After a failed attempt: a transient failure with attempts left pauses
/// and triples the next pause; anything else stops. A success is never
/// asked about — it is the answer.
pub fn after_failure(r: &mut Retry, transient: bool) -> (n: Next)
    requires
        old(r).delay_ms <= u64::MAX / 3,
    ensures
        old(r).tries_left > 0 && transient ==> n == Next::Pause(old(r).delay_ms)
            && final(r).tries_left == old(r).tries_left - 1 && final(r).delay_ms == old(r).delay_ms * 3,
        !(old(r).tries_left > 0 && transient) ==> n == Next::Stop && *final(r) == *old(r),
{
    if r.tries_left > 0 && transient {
        let d = r.delay_ms;
        r.tries_left = r.tries_left - 1;
        r.delay_ms = d * 3;
        Next::Pause(d)
    } else {
        Next::Stop
    }
}

/// Everything a git command said: its exit code and its output, each
/// decoded leniently and trimmed.
#[derive(Debug, Clone, PartialEq, Eq)]
pub struct Output {
    pub code: i32,
    pub stdout: String,
    pub stderr: String,
}

/// A finished process's output as an [`Output`]; `None` when a signal
/// ended it and it has no code — git did not answer.
pub fn output_of(code: Option<i32>, stdout: &[u8], stderr: &[u8]) -> (r: Option<Output>)
    ensures
        match code {
            None => r is None,
            Some(c) => r matches Some(o) && o.code == c && o.stdout@ == trim(utf8_lossy(stdout@))
                && o.stderr@ == trim(utf8_lossy(stderr@)),
        },
{
    match code {
        None => None,
        Some(c) => {
            let out = trim_vec(&chars_of(decode_lossy(stdout).as_str()));
            let err = trim_vec(&chars_of(decode_lossy(stderr).as_str()));
            Some(Output { code: c, stdout: string_of(&out), stderr: string_of(&err) })
        },
    }
}

/// What most callers read of a git command: its stdout, trimmed, when it
/// succeeded; `None` — "cannot tell" — when it did not.
pub fn stdout_of(succeeded: bool, stdout: &[u8]) -> (r: Option<String>)
    ensures
        succeeded ==> (r matches Some(s) && s@ == trim(utf8_lossy(stdout@))),
        !succeeded ==> r is None,
{
    if succeeded {
        Some(string_of(&trim_vec(&chars_of(decode_lossy(stdout).as_str()))))
    } else {
        None
    }
}

/// How a bounded network probe ended. Exit codes stay apart: `ls-remote
/// --exit-code` exits 2 for "no such ref" and 128 for "could not connect".
#[derive(Debug, Clone, Copy, PartialEq, Eq)]
pub enum Probe {
    /// Ran to completion with this exit code.
    Exit(i32),
    /// Killed at the deadline; carries the budget it exceeded, in seconds.
    TimedOut(u64),
    /// Could not spawn, or died to a signal — git did not answer.
    Failed,
}

/// A probe that finished: its code, or a failure when a signal ended it.
pub fn probe_exit(code: Option<i32>) -> (p: Probe)
    ensures
        match code {
            Some(c) => p == Probe::Exit(c),
            None => p == Probe::Failed,
        },
{
    match code {
        Some(c) => Probe::Exit(c),
        None => Probe::Failed,
    }
}

/// A path-listing command with `-z` right after its subcommand, so git
/// quotes nothing and NUL-terminates each path; `None` for no command.
pub fn z_argv(args: &[&str]) -> (r: Option<Vec<String>>)
    ensures
        args@.len() == 0 ==> r is None,
        args@.len() > 0 ==> (r matches Some(v) && strs(v@)
            == seq![args@[0]@, "-z"@] + args@.skip(1).map_values(|a: &str| a@)),
{
    if args.len() == 0 {
        return None;
    }
    let mut v: Vec<String> = Vec::new();
    v.push(string_of(&chars_of(args[0])));
    v.push(string_of(&chars_of("-z")));
    let ghost head = seq![args@[0]@, "-z"@];
    assert(strs(v@) =~= head);
    let mut k: usize = 1;
    while k < args.len()
        invariant
            1 <= k <= args@.len(),
            head == seq![args@[0]@, "-z"@],
            strs(v@) == head + args@.subrange(1, k as int).map_values(|a: &str| a@),
        decreases args.len() - k,
    {
        let ghost before = strs(v@);
        v.push(string_of(&chars_of(args[k])));
        assert(args@.subrange(1, k + 1) =~= args@.subrange(1, k as int).push(args@[k as int]));
        assert(strs(v@) =~= before.push(args@[k as int]@));
        assert(strs(v@) =~= head + args@.subrange(1, k + 1).map_values(|a: &str| a@));
        k += 1;
    }
    assert(args@.subrange(1, args@.len() as int) =~= args@.skip(1));
    Some(v)
}

} // verus!
