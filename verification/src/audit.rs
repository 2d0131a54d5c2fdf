//! Dependency-vulnerability audits, with the severity the push deserves.
//!
//! An advisory against the dependency tree is information on a branch push
//! and a refusal on a push that carries a `v*` tag: a tag is a release, and
//! registries do not take anything back. Each tool's OUTPUT decides, not its
//! exit code alone, because every one of them exits the same way for "found
//! vulnerabilities" and "could not fetch the advisory database"; and "could
//! not check" is said out loud but never blocks.

use vstd::prelude::*;
use crate::check::Outcome;
use crate::pushrefs::PushRef;
use crate::ledger::{words, split_words};
use crate::text::{chars_of, string_of, views, starts_with, contains, contains_seq, matches_at, lines_of, split_lines, trim, trim_vec, slice_of, str_contains};
use crate::run_tests::{strictly_sorted, insert_sorted, strs};

verus! {

/// What an audit's output said, before the push's stakes are applied.
#[derive(Debug, Clone, PartialEq, Eq)]
pub enum Report {
    Clean,
    /// Warning-class advisories (unmaintained, unsound): named, never
    /// blocking.
    Advisories(Vec<String>),
    /// Real vulnerabilities: blocking when the push carries a `v*` tag.
    Vulnerabilities(Vec<String>),
    /// The tool ran and could not answer.
    CouldNotCheck,
}

// ---------------------------------------------------------------------------
// Which pushes are releases

pub open spec fn ascii_digit(c: char) -> bool {
    '0' <= c && c <= '9'
}

/// A tag whose name is `v` followed by a digit.
pub open spec fn release_ref(remote_ref: Seq<char>) -> bool {
    &&& starts_with(remote_ref, "refs/tags/v"@)
    &&& remote_ref.len() > 11
    &&& ascii_digit(remote_ref[11])
}

/// Some ref of the push is a release tag.
pub open spec fn releases(refs: Seq<PushRef>) -> bool {
    exists|k: int| 0 <= k < refs.len() && release_ref(#[trigger] refs[k].remote_ref@)
}

/// Does this push carry a release? A tag that merely starts with the letter
/// `v` (`vendor-drop`) does not.
pub fn releasing(refs: &[PushRef]) -> (r: bool)
    ensures
        r == releases(refs@),
{
    proof {
        reveal_strlit("refs/tags/v");
    }
    let prefix = chars_of("refs/tags/v");
    let mut k: usize = 0;
    while k < refs.len()
        invariant
            k <= refs@.len(),
            prefix@ == "refs/tags/v"@,
            forall|m: int| 0 <= m < k ==> !release_ref(#[trigger] refs@[m].remote_ref@),
        decreases refs.len() - k,
    {
        let r = chars_of(refs[k].remote_ref.as_str());
        if r.len() > 11 && matches_at(&r, &prefix, 0) && '0' <= r[11] && r[11] <= '9' {
            return true;
        }
        k += 1;
    }
    false
}

// ---------------------------------------------------------------------------
// Reading the tools

/// The identifiers among `ws`, sorted and without duplicates: `ids` holds
/// exactly the words `id` accepts.
pub open spec fn id_list(ids: Seq<Seq<char>>, ws: Seq<Seq<char>>, id: spec_fn(Seq<char>) -> bool) -> bool {
    &&& strictly_sorted(ids)
    &&& forall|d: Seq<char>| #[trigger] ids.contains(d) <==> (exists|k: int| 0 <= k < ws.len() && ws[k] == d && id(#[trigger] ws[k]))
}

/// The split every reader shares: identifiers decide, the exit code only
/// classifies them.
pub open spec fn classified(r: Report, exit_ok: bool, ws: Seq<Seq<char>>, id: spec_fn(Seq<char>) -> bool) -> bool {
    let none = !exists|k: int| 0 <= k < ws.len() && id(#[trigger] ws[k]);
    match r {
        Report::Clean => none && exit_ok,
        Report::CouldNotCheck => none && !exit_ok,
        Report::Advisories(v) => !none && exit_ok && id_list(strs(v@), ws, id),
        Report::Vulnerabilities(v) => !none && !exit_ok && id_list(strs(v@), ws, id),
    }
}

/// What `cargo audit` reports for this exit status and output.
pub open spec fn cargo_report(r: Report, ok: bool, out: Seq<char>) -> bool {
    classified(r, ok, words(out), |w: Seq<char>| rustsec_id(w))
}

/// What `govulncheck` reports for this exit status and output.
pub open spec fn go_report(r: Report, ok: bool, out: Seq<char>) -> bool {
    classified(r, ok, words(out).map_values(|w: Seq<char>| trim_id(w)), |w: Seq<char>| go_id(w))
}

pub open spec fn npm_report(r: Report, ok: bool, out: Seq<char>) -> bool {
    report_is(r, spec_npm(ok, out))
}

pub open spec fn pip_report(r: Report, ok: bool, out: Seq<char>) -> bool {
    report_is(r, spec_pip(ok, out))
}

/// `RUSTSEC-YYYY-NNNN`.
pub open spec fn rustsec_id(w: Seq<char>) -> bool {
    &&& w.len() == 17
    &&& starts_with(w, "RUSTSEC-"@)
    &&& forall|k: int| 8 <= k < 12 ==> #[trigger] ascii_digit(w[k])
    &&& w[12] == '-'
    &&& forall|k: int| 13 <= k < 17 ==> #[trigger] ascii_digit(w[k])
}

/// The white-space separated words of `out`, each with the characters that
/// cannot belong to an identifier trimmed from both ends.
pub open spec fn id_char(c: char) -> bool {
    ('0' <= c && c <= '9') || ('a' <= c && c <= 'z') || ('A' <= c && c <= 'Z') || c == '-'
}

pub open spec fn trim_front(w: Seq<char>) -> Seq<char>
    decreases w.len(),
{
    if w.len() > 0 && !id_char(w[0]) {
        trim_front(w.skip(1))
    } else {
        w
    }
}

pub open spec fn trim_back(w: Seq<char>) -> Seq<char>
    decreases w.len(),
{
    if w.len() > 0 && !id_char(w.last()) {
        trim_back(w.drop_last())
    } else {
        w
    }
}

pub open spec fn trim_id(w: Seq<char>) -> Seq<char> {
    trim_back(trim_front(w))
}

/// `GO-YYYY-N…`, at least twelve characters.
pub open spec fn go_id(w: Seq<char>) -> bool {
    &&& w.len() >= 12
    &&& starts_with(w, "GO-"@)
    &&& forall|k: int| 3 <= k < 7 ==> #[trigger] ascii_digit(w[k])
    &&& w[7] == '-'
    &&& forall|k: int| 8 <= k < w.len() ==> #[trigger] ascii_digit(w[k])
}

fn all_digits(w: &Vec<char>, from: usize, to: usize) -> (r: bool)
    requires
        from <= to <= w.len(),
    ensures
        r == forall|k: int| from <= k < to ==> #[trigger] ascii_digit(w@[k]),
{
    let mut k = from;
    while k < to
        invariant
            from <= k <= to <= w.len(),
            forall|m: int| from <= m < k ==> #[trigger] ascii_digit(w@[m]),
        decreases to - k,
    {
        if !('0' <= w[k] && w[k] <= '9') {
            assert(!ascii_digit(w@[k as int]));
            return false;
        }
        k += 1;
    }
    true
}

fn is_rustsec(w: &Vec<char>) -> (r: bool)
    ensures
        r == rustsec_id(w@),
{
    proof {
        reveal_strlit("RUSTSEC-");
    }
    w.len() == 17 && matches_at(w, &chars_of("RUSTSEC-"), 0) && all_digits(w, 8, 12) && w[12] == '-'
        && all_digits(w, 13, 17)
}

fn is_go_id(w: &Vec<char>) -> (r: bool)
    ensures
        r == go_id(w@),
{
    proof {
        reveal_strlit("GO-");
    }
    w.len() >= 12 && matches_at(w, &chars_of("GO-"), 0) && all_digits(w, 3, 7) && w[7] == '-'
        && all_digits(w, 8, w.len())
}

fn is_id_char(c: char) -> (r: bool)
    ensures
        r == id_char(c),
{
    ('0' <= c && c <= '9') || ('a' <= c && c <= 'z') || ('A' <= c && c <= 'Z') || c == '-'
}

fn trim_id_exec(w: &Vec<char>) -> (r: Vec<char>)
    ensures
        r@ == trim_id(w@),
{
    let mut a: usize = 0;
    assert(w@.skip(0) =~= w@);
    while a < w.len() && !is_id_char(w[a])
        invariant
            a <= w.len(),
            trim_front(w@.skip(a as int)) == trim_front(w@),
        decreases w.len() - a,
    {
        assert(w@.skip(a as int).skip(1) =~= w@.skip(a + 1));
        a += 1;
    }
    let mut z: usize = w.len();
    proof {
        assert(w@.skip(a as int) =~= w@.subrange(a as int, z as int));
    }
    while z > a && !is_id_char(w[z - 1])
        invariant
            a <= z <= w.len(),
            trim_back(w@.subrange(a as int, z as int)) == trim_back(trim_front(w@)),
        decreases z,
    {
        assert(w@.subrange(a as int, z as int).drop_last() =~= w@.subrange(a as int, z - 1));
        z -= 1;
    }
    slice_of(w, a, z)
}

/// A sorted, duplicate-free list of identifiers, classified by the exit
/// code.
fn classify_ids(exit_ok: bool, ids: Vec<Vec<char>>) -> (r: Report)
    ensures
        match r {
            Report::Clean => ids@.len() == 0 && exit_ok,
            Report::CouldNotCheck => ids@.len() == 0 && !exit_ok,
            Report::Advisories(v) => ids@.len() > 0 && exit_ok && strs(v@) == views(ids@),
            Report::Vulnerabilities(v) => ids@.len() > 0 && !exit_ok && strs(v@) == views(ids@),
        },
{
    if ids.len() == 0 {
        return if exit_ok {
            Report::Clean
        } else {
            Report::CouldNotCheck
        };
    }
    let mut v: Vec<String> = Vec::new();
    let mut k: usize = 0;
    while k < ids.len()
        invariant
            k <= ids@.len(),
            strs(v@) == views(ids@).take(k as int),
        decreases ids.len() - k,
    {
        let ghost before = strs(v@);
        assert(views(ids@)[k as int] == ids@[k as int]@);
        let s = string_of(&ids[k]);
        v.push(s);
        proof {
            assert(strs(v@) =~= before.push(ids@[k as int]@));
            assert(views(ids@).take(k + 1) =~= views(ids@).take(k as int).push(views(ids@)[k as int]));
        }
        k += 1;
    }
    assert(views(ids@).take(ids@.len() as int) =~= views(ids@));
    if exit_ok {
        Report::Advisories(v)
    } else {
        Report::Vulnerabilities(v)
    }
}

/// `cargo audit`: the RUSTSEC ids decide; the exit code says whether they
/// are warnings (clean exit) or vulnerabilities.
pub fn read_cargo_audit(exit_ok: bool, out: &str) -> (r: Report)
    ensures
        cargo_report(r, exit_ok, out@),
{
    let ws = split_words(&chars_of(out));
    let ghost wv = words(out@);
    let ghost id = |w: Seq<char>| rustsec_id(w);
    let mut ids: Vec<Vec<char>> = Vec::new();
    let mut k: usize = 0;
    while k < ws.len()
        invariant
            k <= ws@.len(),
            views(ws@) == wv,
            wv == words(out@),
            id == (|w: Seq<char>| rustsec_id(w)),
            strictly_sorted(views(ids@)),
            forall|d: Seq<char>| #[trigger] views(ids@).contains(d) <==> (exists|m: int| 0 <= m < k && wv[m] == d && id(#[trigger] wv[m])),
        decreases ws.len() - k,
    {
        assert(wv[k as int] == ws@[k as int]@);
        let ghost before = views(ids@);
        if is_rustsec(&ws[k]) {
            let w = slice_of(&ws[k], 0, ws[k].len());
            assert(w@ =~= wv[k as int]);
            insert_sorted(&mut ids, w);
        }
        proof {
            assert forall|d: Seq<char>| #[trigger] views(ids@).contains(d) <==> (exists|m: int| 0 <= m < k + 1 && wv[m] == d && id(#[trigger] wv[m])) by {
                if exists|m: int| 0 <= m < k + 1 && wv[m] == d && id(#[trigger] wv[m]) {
                    let m = choose|m: int| 0 <= m < k + 1 && wv[m] == d && id(#[trigger] wv[m]);
                    if m < k {
                        assert(before.contains(d));
                    }
                }
            }
        }
        k += 1;
    }
    proof {
        if ids@.len() == 0 {
            assert forall|m: int| 0 <= m < wv.len() implies !id(#[trigger] wv[m]) by {
                if id(wv[m]) {
                    assert(!views(ids@).contains(wv[m]));
                }
            }
        } else {
            assert(views(ids@).contains(views(ids@)[0]));
        }
    }
    classify_ids(exit_ok, ids)
}

/// `govulncheck`: the GO- ids decide, the exit code classifies them — a
/// clean exit with ids is the informational section, modules whose
/// vulnerable functions are never called.
pub fn read_govulncheck(exit_ok: bool, out: &str) -> (r: Report)
    ensures
        go_report(r, exit_ok, out@),
{
    let ws = split_words(&chars_of(out));
    let ghost wv = words(out@).map_values(|w: Seq<char>| trim_id(w));
    let ghost id = |w: Seq<char>| go_id(w);
    let mut ids: Vec<Vec<char>> = Vec::new();
    let mut k: usize = 0;
    while k < ws.len()
        invariant
            k <= ws@.len(),
            views(ws@) == words(out@),
            wv == words(out@).map_values(|w: Seq<char>| trim_id(w)),
            id == (|w: Seq<char>| go_id(w)),
            strictly_sorted(views(ids@)),
            forall|d: Seq<char>| #[trigger] views(ids@).contains(d) <==> (exists|m: int| 0 <= m < k && wv[m] == d && id(#[trigger] wv[m])),
        decreases ws.len() - k,
    {
        assert(words(out@)[k as int] == ws@[k as int]@);
        let t = trim_id_exec(&ws[k]);
        assert(t@ == wv[k as int]);
        let ghost before = views(ids@);
        if is_go_id(&t) {
            insert_sorted(&mut ids, t);
        }
        proof {
            assert forall|d: Seq<char>| #[trigger] views(ids@).contains(d) <==> (exists|m: int| 0 <= m < k + 1 && wv[m] == d && id(#[trigger] wv[m])) by {
                if exists|m: int| 0 <= m < k + 1 && wv[m] == d && id(#[trigger] wv[m]) {
                    let m = choose|m: int| 0 <= m < k + 1 && wv[m] == d && id(#[trigger] wv[m]);
                    if m < k {
                        assert(before.contains(d));
                    }
                }
            }
        }
        k += 1;
    }
    proof {
        if ids@.len() == 0 {
            assert forall|m: int| 0 <= m < wv.len() implies !id(#[trigger] wv[m]) by {
                if id(wv[m]) {
                    assert(!views(ids@).contains(wv[m]));
                }
            }
        } else {
            assert(views(ids@).contains(views(ids@)[0]));
        }
    }
    classify_ids(exit_ok, ids)
}

/// `npm audit`'s summary line: a trimmed line starting `found ` that
/// mentions vulnerabilities.
pub open spec fn npm_summary(l: Seq<char>) -> bool {
    starts_with(l, "found "@) && contains(l, "vulnerabilit"@)
}

/// The last summary line among the first `k` lines, trimmed.
pub open spec fn last_summary(ls: Seq<Seq<char>>, k: int) -> Option<Seq<char>>
    decreases k,
{
    if k <= 0 {
        None
    } else if npm_summary(trim(ls[k - 1])) {
        Some(trim(ls[k - 1]))
    } else {
        last_summary(ls, k - 1)
    }
}

/// `npm audit`: the last summary line decides. `found 0 …` is clean, any
/// other count is the finding; with no summary, a clean exit is clean and
/// anything else a tool that never answered.
pub open spec fn spec_npm(exit_ok: bool, out: Seq<char>) -> Option<Option<Seq<char>>> {
    match last_summary(lines_of(out), lines_of(out).len() as int) {
        Some(l) => if starts_with(l, "found 0 "@) {
            Some(None)
        } else {
            Some(Some(l))
        },
        None => if exit_ok {
            Some(None)
        } else {
            None
        },
    }
}

/// A report that is clean (`Some(None)`), one finding (`Some(Some(line))`)
/// or could not check (`None`).
pub open spec fn report_is(r: Report, want: Option<Option<Seq<char>>>) -> bool {
    match want {
        Some(None) => r == Report::Clean,
        Some(Some(l)) => r matches Report::Vulnerabilities(v) && strs(v@) == seq![l],
        None => r == Report::CouldNotCheck,
    }
}

fn one_finding(l: Vec<char>) -> (r: Report)
    ensures
        r matches Report::Vulnerabilities(v) && strs(v@) == seq![l@],
{
    let mut v: Vec<String> = Vec::new();
    v.push(string_of(&l));
    assert(strs(v@) =~= seq![l@]);
    Report::Vulnerabilities(v)
}

pub fn read_npm_audit(exit_ok: bool, out: &str) -> (r: Report)
    ensures
        npm_report(r, exit_ok, out@),
{
    proof {
        reveal_strlit("found ");
        reveal_strlit("found 0 ");
        reveal_strlit("vulnerabilit");
    }
    let ls = split_lines(&chars_of(out));
    let found = chars_of("found ");
    let zero = chars_of("found 0 ");
    let vul = chars_of("vulnerabilit");
    let mut k = ls.len();
    while k > 0
        invariant
            k <= ls@.len(),
            views(ls@) == lines_of(out@),
            found@ == "found "@,
            zero@ == "found 0 "@,
            vul@ == "vulnerabilit"@,
            last_summary(views(ls@), k as int) == last_summary(views(ls@), ls@.len() as int),
        decreases k,
    {
        assert(views(ls@)[k - 1] == ls@[k - 1]@);
        let t = trim_vec(&ls[k - 1]);
        if found.len() <= t.len() && matches_at(&t, &found, 0) && contains_seq(&t, &vul) {
            if zero.len() <= t.len() && matches_at(&t, &zero, 0) {
                return Report::Clean;
            }
            return one_finding(t);
        }
        k -= 1;
    }
    if exit_ok {
        Report::Clean
    } else {
        Report::CouldNotCheck
    }
}

/// `pip-audit`'s finding line: trimmed, starting `Found ` and mentioning
/// known vulnerabilities.
pub open spec fn pip_finding(l: Seq<char>) -> bool {
    starts_with(l, "Found "@) && contains(l, "known vulnerabilit"@)
}

pub open spec fn first_finding(ls: Seq<Seq<char>>, k: int) -> Option<Seq<char>>
    decreases ls.len() - k,
{
    if k < 0 || k >= ls.len() {
        None
    } else if pip_finding(trim(ls[k])) {
        Some(trim(ls[k]))
    } else {
        first_finding(ls, k + 1)
    }
}

/// `pip-audit`: its own closing sentence decides, then the first finding
/// line, then the exit code.
pub open spec fn spec_pip(exit_ok: bool, out: Seq<char>) -> Option<Option<Seq<char>>> {
    if contains(out, "No known vulnerabilities found"@) {
        Some(None)
    } else {
        match first_finding(lines_of(out), 0) {
            Some(l) => Some(Some(l)),
            None => if exit_ok {
                Some(None)
            } else {
                None
            },
        }
    }
}

pub fn read_pip_audit(exit_ok: bool, out: &str) -> (r: Report)
    ensures
        pip_report(r, exit_ok, out@),
{
    proof {
        reveal_strlit("No known vulnerabilities found");
        reveal_strlit("Found ");
        reveal_strlit("known vulnerabilit");
    }
    if str_contains(out, "No known vulnerabilities found") {
        return Report::Clean;
    }
    let ls = split_lines(&chars_of(out));
    let found = chars_of("Found ");
    let known = chars_of("known vulnerabilit");
    let mut k: usize = 0;
    while k < ls.len()
        invariant
            k <= ls@.len(),
            views(ls@) == lines_of(out@),
            found@ == "Found "@,
            known@ == "known vulnerabilit"@,
            !contains(out@, "No known vulnerabilities found"@),
            first_finding(views(ls@), k as int) == first_finding(views(ls@), 0),
        decreases ls.len() - k,
    {
        assert(views(ls@)[k as int] == ls@[k as int]@);
        let t = trim_vec(&ls[k]);
        if found.len() <= t.len() && matches_at(&t, &found, 0) && contains_seq(&t, &known) {
            assert(pip_finding(t@));
            assert(first_finding(views(ls@), k as int) == Some(t@));
            assert(!contains(out@, "No known vulnerabilities found"@));
            assert(spec_pip(exit_ok, out@) == Some(Some(t@)));
            return one_finding(t);
        }
        k += 1;
    }
    if exit_ok {
        Report::Clean
    } else {
        Report::CouldNotCheck
    }
}

// ---------------------------------------------------------------------------
// The push's stakes


/// What a report means for this push: clean passes, advisories warn,
/// vulnerabilities fail a release and warn anything else, and a tool that
/// could not answer is unavailable — never a pass, never a block.
pub open spec fn spec_conclude(r: Report, releasing: bool) -> Outcome {
    match r {
        Report::Clean => Outcome::Passed,
        Report::Advisories(_) => Outcome::Warned,
        Report::Vulnerabilities(_) => if releasing {
            Outcome::Failed
        } else {
            Outcome::Warned
        },
        Report::CouldNotCheck => Outcome::Unavailable,
    }
}

pub fn conclude(report: &Report, releasing: bool) -> (o: Outcome)
    ensures
        o == spec_conclude(*report, releasing),
{
    match report {
        Report::Clean => Outcome::Passed,
        Report::Advisories(_) => Outcome::Warned,
        Report::Vulnerabilities(_) => if releasing {
            Outcome::Failed
        } else {
            Outcome::Warned
        },
        Report::CouldNotCheck => Outcome::Unavailable,
    }
}

/// `audit-rust`, given what running `cargo audit` gave: its exit status and
/// output, or nothing when the tool is missing or did not finish.
pub fn rust(refs: &[PushRef], ran: Option<(bool, &str)>) -> (o: Outcome)
    ensures
        ran is None ==> o == Outcome::Unavailable,
        ran matches Some((ok, out)) ==> exists|r: Report|
            #[trigger] cargo_report(r, ok, out@) && o == spec_conclude(
                r,
                releases(refs@),
            ),
{
    match ran {
        None => Outcome::Unavailable,
        Some((ok, out)) => {
            let r = read_cargo_audit(ok, out);
            conclude(&r, releasing(refs))
        },
    }
}

/// `audit-js`, given what running `npm audit` gave.
pub fn js(refs: &[PushRef], ran: Option<(bool, &str)>) -> (o: Outcome)
    ensures
        ran is None ==> o == Outcome::Unavailable,
        ran matches Some((ok, out)) ==> exists|r: Report|
            #[trigger] npm_report(r, ok, out@) && o == spec_conclude(
                r,
                releases(refs@),
            ),
{
    match ran {
        None => Outcome::Unavailable,
        Some((ok, out)) => {
            let r = read_npm_audit(ok, out);
            conclude(&r, releasing(refs))
        },
    }
}

/// `audit-go`, given what running `govulncheck` gave.
pub fn go(refs: &[PushRef], ran: Option<(bool, &str)>) -> (o: Outcome)
    ensures
        ran is None ==> o == Outcome::Unavailable,
        ran matches Some((ok, out)) ==> exists|r: Report|
            #[trigger] go_report(r, ok, out@) && o == spec_conclude(
                r,
                releases(refs@),
            ),
{
    match ran {
        None => Outcome::Unavailable,
        Some((ok, out)) => {
            let r = read_govulncheck(ok, out);
            conclude(&r, releasing(refs))
        },
    }
}

/// `audit-python`, given what running `pip-audit` gave.
pub fn python(refs: &[PushRef], ran: Option<(bool, &str)>) -> (o: Outcome)
    ensures
        ran is None ==> o == Outcome::Unavailable,
        ran matches Some((ok, out)) ==> exists|r: Report|
            #[trigger] pip_report(r, ok, out@) && o == spec_conclude(
                r,
                releases(refs@),
            ),
{
    match ran {
        None => Outcome::Unavailable,
        Some((ok, out)) => {
            let r = read_pip_audit(ok, out);
            conclude(&r, releasing(refs))
        },
    }
}

} // verus!
