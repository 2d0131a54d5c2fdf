//! Reviewed judgements about a rule, one case per line, kept as a test.
//!
//! A cases file holds lines `<verdict>\t<command>`; `#` lines and blank lines
//! are notes. Commands often span several lines, so newlines, carriage
//! returns, tabs and backslashes are escaped on the way in and restored on
//! the way out — the smallest escaping that round-trips.

use vstd::prelude::*;
use crate::text::{chars_of, string_of, split_lines, lines_of, views, trim_end, trim, trim_end_vec, trim_vec, find_char, find_char_from, slice_of, lemma_find_char, lemma_find_char_at, is_space, strip_cr};

verus! {

/// The first line of a cases file.
pub const HEADER: &'static str = "# amont-agent-cases-v1";

/// A human's judgement about one command.
#[derive(Debug, Clone, Copy, PartialEq, Eq, Structural)]
pub enum Verdict {
    /// The rule should fire here.
    Match,
    /// The rule must stay silent here.
    NoMatch,
    /// Nobody has looked yet; never counts as evidence.
    Unreviewed,
}

/// How a verdict is written in a cases file.
pub open spec fn verdict_text(v: Verdict) -> Seq<char> {
    match v {
        Verdict::Match => "match"@,
        Verdict::NoMatch => "nomatch"@,
        Verdict::Unreviewed => "?"@,
    }
}

/// The verdict a word names, if any.
pub open spec fn verdict_named(s: Seq<char>) -> Option<Verdict> {
    if s == "match"@ {
        Some(Verdict::Match)
    } else if s == "nomatch"@ {
        Some(Verdict::NoMatch)
    } else if s == "?"@ {
        Some(Verdict::Unreviewed)
    } else {
        None
    }
}

impl Verdict {
    pub fn as_str(self) -> (r: &'static str)
        ensures
            r@ == verdict_text(self),
    {
        match self {
            Verdict::Match => "match",
            Verdict::NoMatch => "nomatch",
            Verdict::Unreviewed => "?",
        }
    }

    pub fn parse(s: &str) -> (r: Option<Verdict>)
        ensures
            r == verdict_named(s@),
    {
        let v = chars_of(s);
        Self::parse_chars(&v)
    }

    fn parse_chars(v: &Vec<char>) -> (r: Option<Verdict>)
        ensures
            r == verdict_named(v@),
    {
        proof {
            reveal_strlit("match");
            reveal_strlit("nomatch");
            reveal_strlit("?");
        }
        if v.len() == 5 && v[0] == 'm' && v[1] == 'a' && v[2] == 't' && v[3] == 'c' && v[4] == 'h' {
            assert(v@ =~= "match"@);
            Some(Verdict::Match)
        } else if v.len() == 7 && v[0] == 'n' && v[1] == 'o' && v[2] == 'm' && v[3] == 'a' && v[4]
            == 't' && v[5] == 'c' && v[6] == 'h' {
            assert(v@ =~= "nomatch"@);
            Some(Verdict::NoMatch)
        } else if v.len() == 1 && v[0] == '?' {
            assert(v@ =~= "?"@);
            Some(Verdict::Unreviewed)
        } else {
            assert(v@ != "match"@ && v@ != "nomatch"@ && v@ != "?"@) by {
                if v@ == "match"@ {
                    assert(v@[4] == 'h');
                }
                if v@ == "nomatch"@ {
                    assert(v@[6] == 'h');
                }
            }
            None
        }
    }
}

/// One labelled command, with the line it was read from.
pub struct Case {
    pub verdict: Verdict,
    pub command: String,
    pub line: usize,
}

/// A case as plain values: verdict, command and line number.
pub open spec fn case_view(c: Case) -> (Verdict, Seq<char>, int) {
    (c.verdict, c.command@, c.line as int)
}

/// What one character is written as.
pub open spec fn esc_char(c: char) -> Seq<char> {
    if c == '\\' {
        seq!['\\', '\\']
    } else if c == '\n' {
        seq!['\\', 'n']
    } else if c == '\r' {
        seq!['\\', 'r']
    } else if c == '\t' {
        seq!['\\', 't']
    } else {
        seq![c]
    }
}

/// A command escaped onto one line.
pub open spec fn spec_escape(s: Seq<char>) -> Seq<char>
    decreases s.len(),
{
    if s.len() == 0 {
        seq![]
    } else {
        esc_char(s[0]) + spec_escape(s.skip(1))
    }
}

/// What the character after a backslash stands for; an unknown escape is
/// kept as it was written.
pub open spec fn unesc_pair(x: char) -> Seq<char> {
    if x == 'n' {
        seq!['\n']
    } else if x == 'r' {
        seq!['\r']
    } else if x == 't' {
        seq!['\t']
    } else if x == '\\' {
        seq!['\\']
    } else {
        seq!['\\', x]
    }
}

/// An escaped line restored; a lone trailing backslash stays a backslash.
pub open spec fn spec_unescape(s: Seq<char>) -> Seq<char>
    decreases s.len(),
{
    if s.len() == 0 {
        seq![]
    } else if s[0] != '\\' {
        seq![s[0]] + spec_unescape(s.skip(1))
    } else if s.len() == 1 {
        seq!['\\']
    } else {
        unesc_pair(s[1]) + spec_unescape(s.skip(2))
    }
}

fn push_all(out: &mut Vec<char>, a: char, b: char)
    ensures
        final(out)@ == old(out)@ + seq![a, b],
{
    out.push(a);
    out.push(b);
}

/// Escape backslashes, newlines, carriage returns and tabs.
pub fn escape(command: &str) -> (r: String)
    ensures
        r@ == spec_escape(command@),
{
    let s = chars_of(command);
    let mut out: Vec<char> = Vec::new();
    let mut i: usize = 0;
    assert(s@.skip(0) =~= s@);
    while i < s.len()
        invariant
            i <= s.len(),
            s@ == command@,
            out@ + spec_escape(s@.skip(i as int)) == spec_escape(s@),
        decreases s.len() - i,
    {
        let c = s[i];
        let ghost before = out@;
        if c == '\\' {
            push_all(&mut out, '\\', '\\');
        } else if c == '\n' {
            push_all(&mut out, '\\', 'n');
        } else if c == '\r' {
            push_all(&mut out, '\\', 'r');
        } else if c == '\t' {
            push_all(&mut out, '\\', 't');
        } else {
            out.push(c);
        }
        proof {
            assert(s@.skip(i as int).skip(1) =~= s@.skip(i + 1));
            assert(out@ =~= before + esc_char(c));
        }
        i += 1;
    }
    assert(s@.skip(i as int) =~= seq![]);
    assert(out@ + seq![] =~= out@);
    string_of(&out)
}

/// Undo [`escape`]. An escape it does not know is kept verbatim, so a
/// hand-edited file cannot silently lose a character.
pub fn unescape(text: &str) -> (r: String)
    ensures
        r@ == spec_unescape(text@),
{
    let s = chars_of(text);
    string_of(&unescape_chars(&s))
}

fn unescape_chars(s: &Vec<char>) -> (r: Vec<char>)
    ensures
        r@ == spec_unescape(s@),
{
    let mut out: Vec<char> = Vec::new();
    let mut i: usize = 0;
    assert(s@.skip(0) =~= s@);
    while i < s.len()
        invariant
            i <= s.len(),
            out@ + spec_unescape(s@.skip(i as int)) == spec_unescape(s@),
        decreases s.len() - i,
    {
        let c = s[i];
        let ghost before = out@;
        let ghost t = s@.skip(i as int);
        if c != '\\' {
            out.push(c);
            proof {
                assert(t.skip(1) =~= s@.skip(i + 1));
                assert(out@ =~= before + seq![c]);
            }
            i += 1;
        } else if i + 1 == s.len() {
            out.push('\\');
            proof {
                assert(s@.skip(i + 1) =~= seq![]);
                assert(out@ =~= before + seq!['\\']);
            }
            i += 1;
        } else {
            let x = s[i + 1];
            if x == 'n' {
                out.push('\n');
            } else if x == 'r' {
                out.push('\r');
            } else if x == 't' {
                out.push('\t');
            } else if x == '\\' {
                out.push('\\');
            } else {
                push_all(&mut out, '\\', x);
            }
            proof {
                assert(t.skip(2) =~= s@.skip(i + 2));
                assert(out@ =~= before + unesc_pair(x));
            }
            i += 2;
        }
    }
    assert(s@.skip(i as int) =~= seq![]);
    assert(out@ + seq![] =~= out@);
    out
}

/// The line a case is written as.
pub open spec fn spec_line_for(verdict: Verdict, command: Seq<char>) -> Seq<char> {
    verdict_text(verdict) + seq!['\t'] + spec_escape(command) + seq!['\n']
}

/// `<verdict>\t<escaped command>\n`.
pub fn line_for(verdict: Verdict, command: &str) -> (r: String)
    ensures
        r@ == spec_line_for(verdict, command@),
{
    let v = chars_of(verdict.as_str());
    let e = chars_of(&escape(command));
    let mut out = v;
    out.push('\t');
    let mut k: usize = 0;
    let ghost start = out@;
    while k < e.len()
        invariant
            k <= e.len(),
            out@ == start + e@.take(k as int),
        decreases e.len() - k,
    {
        out.push(e[k]);
        assert(e@.take(k as int).push(e@[k as int]) =~= e@.take(k + 1));
        k += 1;
    }
    assert(e@.take(e.len() as int) =~= e@);
    out.push('\n');
    string_of(&out)
}

/// The case one line holds, if any: blank lines, `#` notes, lines without a
/// tab and unknown verdicts hold none. Trailing white space is dropped first
/// and the verdict is trimmed.
pub open spec fn case_of_line(l: Seq<char>) -> Option<(Verdict, Seq<char>)> {
    let t = trim_end(l);
    let p = find_char(t, '\t', 0);
    if t.len() == 0 || t[0] == '#' || p >= t.len() {
        None
    } else {
        match verdict_named(trim(t.take(p))) {
            Some(v) => Some((v, spec_unescape(t.skip(p + 1)))),
            None => None,
        }
    }
}

/// The cases among the first `k` lines, each with its 1-based line number.
pub open spec fn cases_upto(ls: Seq<Seq<char>>, k: int) -> Seq<(Verdict, Seq<char>, int)>
    decreases k,
{
    if k <= 0 {
        seq![]
    } else {
        let prev = cases_upto(ls, k - 1);
        match case_of_line(ls[k - 1]) {
            Some((v, c)) => prev.push((v, c, k)),
            None => prev,
        }
    }
}

/// Every case a cases file holds, in order.
pub open spec fn spec_parse(text: Seq<char>) -> Seq<(Verdict, Seq<char>, int)> {
    cases_upto(lines_of(text), lines_of(text).len() as int)
}

fn case_of_line_exec(l: &Vec<char>) -> (r: Option<(Verdict, Vec<char>)>)
    ensures
        match r {
            Some((v, c)) => case_of_line(l@) == Some((v, c@)),
            None => case_of_line(l@) is None,
        },
{
    let t = trim_end_vec(l);
    let p = find_char_from(&t, '\t', 0);
    if t.len() == 0 || t[0] == '#' || p >= t.len() {
        return None;
    }
    let head = slice_of(&t, 0, p);
    assert(head@ =~= t@.take(p as int));
    let word = trim_vec(&head);
    match Verdict::parse_chars(&word) {
        Some(v) => {
            let rest = slice_of(&t, p + 1, t.len());
            assert(rest@ =~= t@.skip(p + 1));
            Some((v, unescape_chars(&rest)))
        },
        None => None,
    }
}

/// Read a cases file: one [`Case`] per line that holds one, numbered from 1.
pub fn parse(text: &str) -> (r: Vec<Case>)
    ensures
        r@.map_values(|c: Case| case_view(c)) == spec_parse(text@),
{
    let s = chars_of(text);
    let ls = split_lines(&s);
    let mut out: Vec<Case> = Vec::new();
    let mut k: usize = 0;
    while k < ls.len()
        invariant
            k <= ls.len(),
            views(ls@) == lines_of(text@),
            out@.map_values(|c: Case| case_view(c)) == cases_upto(views(ls@), k as int),
        decreases ls.len() - k,
    {
        let ghost before = out@.map_values(|c: Case| case_view(c));
        assert(views(ls@)[k as int] == ls@[k as int]@);
        match case_of_line_exec(&ls[k]) {
            Some((v, c)) => {
                out.push(Case { verdict: v, command: string_of(&c), line: k + 1 });
                assert(out@.map_values(|c: Case| case_view(c)) =~= before.push(
                    (v, c@, k + 1),
                ));
            },
            None => {},
        }
        k += 1;
    }
    out
}

// ---------------------------------------------------------------------------
// Laws of the format

proof fn lemma_unescape_esc(c: char, t: Seq<char>)
    ensures
        spec_unescape(esc_char(c) + t) == seq![c] + spec_unescape(t),
{
    let e = esc_char(c) + t;
    if esc_char(c).len() == 1 {
        assert(e.skip(1) =~= t);
    } else {
        assert(e.skip(2) =~= t);
    }
}

/// Unescaping what was escaped gives back the command, whatever it holds.
pub proof fn unescape_escape(s: Seq<char>)
    ensures
        spec_unescape(spec_escape(s)) == s,
    decreases s.len(),
{
    if s.len() > 0 {
        unescape_escape(s.skip(1));
        lemma_unescape_esc(s[0], spec_escape(s.skip(1)));
        assert(seq![s[0]] + s.skip(1) =~= s);
    }
}

proof fn lemma_escape_plain(s: Seq<char>)
    ensures
        forall|k: int|
            0 <= k < spec_escape(s).len() ==> #[trigger] spec_escape(s)[k] != '\n'
                && spec_escape(s)[k] != '\r' && spec_escape(s)[k] != '\t',
    decreases s.len(),
{
    if s.len() > 0 {
        lemma_escape_plain(s.skip(1));
        let e = spec_escape(s);
        let h = esc_char(s[0]);
        assert forall|k: int| 0 <= k < e.len() implies #[trigger] e[k] != '\n' && e[k] != '\r'
            && e[k] != '\t' by {
            if k < h.len() {
                assert(e[k] == h[k]);
            } else {
                assert(e[k] == spec_escape(s.skip(1))[k - h.len()]);
            }
        }
    }
}

proof fn lemma_escape_last(s: Seq<char>)
    requires
        s.len() > 0,
    ensures
        spec_escape(s).len() > 0,
        spec_escape(s).last() == esc_char(s.last()).last(),
    decreases s.len(),
{
    let h = esc_char(s[0]);
    let rest = spec_escape(s.skip(1));
    assert(spec_escape(s) == h + rest);
    if s.len() == 1 {
        assert(s.skip(1).len() == 0);
        assert(rest =~= seq![]);
        assert(h + rest =~= h);
    } else {
        lemma_escape_last(s.skip(1));
        assert(s.skip(1).last() == s.last());
        assert((h + rest).last() == rest.last());
    }
}

/// A command whose line keeps it whole: not empty, and not ending in white
/// space that its line would show bare (a trailing newline, carriage return
/// or tab is escaped, so it survives).
pub open spec fn line_safe(command: Seq<char>) -> bool {
    &&& command.len() > 0
    &&& !(is_space(command.last()) && command.last() != '\n' && command.last() != '\r'
        && command.last() != '\t')
}

proof fn lemma_trim_end_keeps(t: Seq<char>)
    requires
        t.len() > 0,
        !is_space(t.last()),
    ensures
        trim_end(t) == t,
{
}

proof fn lemma_trim_word(w: Seq<char>)
    requires
        forall|k: int| 0 <= k < w.len() ==> !is_space(#[trigger] w[k]),
    ensures
        trim(w) == w,
{
    if w.len() > 0 {
        assert(!is_space(w.last()));
        assert(!is_space(w[0]));
    }
}

proof fn lemma_one_line(t: Seq<char>)
    requires
        t.len() > 0,
        t.last() != '\r',
        forall|k: int| 0 <= k < t.len() ==> #[trigger] t[k] != '\n',
    ensures
        lines_of(t + seq!['\n']) == seq![t],
{
    let line = t + seq!['\n'];
    assert forall|k: int| 0 <= k < t.len() implies #[trigger] line[k] != '\n' by {
        assert(line[k] == t[k]);
    }
    lemma_find_char_at(line, '\n', 0, t.len() as int);
    assert(line.take(t.len() as int) =~= t);
    assert(line.skip(t.len() as int + 1) =~= seq![]);
    assert(strip_cr(t) == t);
    assert(lines_of(line) == seq![strip_cr(line.take(t.len() as int))] + lines_of(line.skip(t.len() as int + 1)));
    assert(lines_of(seq![]) =~= Seq::<Seq<char>>::empty());
    assert(seq![t] + Seq::<Seq<char>>::empty() =~= seq![t]);
}

proof fn lemma_verdict_text(v: Verdict)
    ensures
        verdict_text(v).len() > 0,
        verdict_text(v)[0] != '#',
        forall|k: int| 0 <= k < verdict_text(v).len() ==> #[trigger] verdict_text(v)[k] != '\t'
            && verdict_text(v)[k] != '\n' && !is_space(verdict_text(v)[k]),
        verdict_named(verdict_text(v)) == Some(v),
{
    reveal_strlit("match");
    reveal_strlit("nomatch");
    reveal_strlit("?");
}

proof fn lemma_case_of_written_line(verdict: Verdict, command: Seq<char>)
    requires
        line_safe(command),
    ensures
        case_of_line(verdict_text(verdict) + seq!['\t'] + spec_escape(command)) == Some(
            (verdict, command),
        ),
{
    let vt = verdict_text(verdict);
    let e = spec_escape(command);
    let t = vt + seq!['\t'] + e;
    lemma_verdict_text(verdict);
    lemma_escape_last(command);
    assert(t.last() == e.last());
    assert(!is_space(t.last()));
    lemma_trim_end_keeps(t);
    assert forall|k: int| 0 <= k < vt.len() implies #[trigger] t[k] != '\t' by {
        assert(t[k] == vt[k]);
    }
    assert(t[vt.len() as int] == '\t');
    lemma_find_char_at(t, '\t', 0, vt.len() as int);
    assert(t.take(vt.len() as int) =~= vt);
    assert(t.skip(vt.len() as int + 1) =~= e);
    lemma_trim_word(vt);
    unescape_escape(command);
    assert(t[0] == vt[0]);
}

/// A case written by [`line_for`] reads back as itself, on line 1 — for
/// every command whose line keeps it whole (see [`line_safe`]). A command
/// ending in a bare space loses that space to the trimming of the line, and
/// an empty command leaves no tab-separated field to read.
pub proof fn line_for_round_trips(verdict: Verdict, command: Seq<char>)
    requires
        line_safe(command),
    ensures
        spec_parse(spec_line_for(verdict, command)) == seq![(verdict, command, 1int)],
{
    let vt = verdict_text(verdict);
    let e = spec_escape(command);
    let t = vt + seq!['\t'] + e;
    let line = spec_line_for(verdict, command);
    assert(line =~= t + seq!['\n']);
    lemma_escape_plain(command);
    lemma_escape_last(command);
    lemma_verdict_text(verdict);
    assert forall|k: int| 0 <= k < t.len() implies #[trigger] t[k] != '\n' by {
        if k < vt.len() {
            assert(t[k] == vt[k]);
        } else if k > vt.len() {
            assert(t[k] == e[k - vt.len() - 1]);
        }
    }
    assert(t.last() == e.last());
    lemma_one_line(t);
    lemma_case_of_written_line(verdict, command);
    assert(cases_upto(seq![t], 0) =~= seq![]);
    assert(cases_upto(seq![t], 1) =~= seq![(verdict, command, 1int)]);
}

// ---------------------------------------------------------------------------
// Scoring

/// A case where the engine and a human disagree.
pub struct Disagreement {
    pub line: usize,
    pub expected: Verdict,
    pub command: String,
}

/// One rule's agreement with the judgements already made about it.
pub struct Score {
    pub reviewed: usize,
    pub negatives: usize,
    pub unreviewed: usize,
    pub disagreements: Vec<Disagreement>,
}

impl Score {
    /// No judgement is contradicted.
    pub fn agrees(&self) -> (r: bool)
        ensures
            r == (self.disagreements.len() == 0),
    {
        self.disagreements.len() == 0
    }
}

/// How many of the first `k` cases carry verdict `v`.
pub open spec fn count_verdict(cases: Seq<(Verdict, Seq<char>, int)>, v: Verdict, k: int) -> nat
    decreases k,
{
    if k <= 0 {
        0
    } else {
        count_verdict(cases, v, k - 1) + if cases[k - 1].0 == v {
            1nat
        } else {
            0nat
        }
    }
}

/// Does the engine's answer contradict the case's judgement? An unreviewed
/// case contradicts nothing.
pub open spec fn disagrees(verdict: Verdict, fired: bool) -> bool {
    verdict != Verdict::Unreviewed && fired != (verdict == Verdict::Match)
}

/// The disagreements among the first `k` cases, as line, expected verdict
/// and command.
pub open spec fn disagreements_upto(
    cases: Seq<(Verdict, Seq<char>, int)>,
    fired: Seq<bool>,
    k: int,
) -> Seq<(int, Verdict, Seq<char>)>
    decreases k,
{
    if k <= 0 {
        seq![]
    } else {
        let prev = disagreements_upto(cases, fired, k - 1);
        let c = cases[k - 1];
        if disagrees(c.0, fired[k - 1]) {
            prev.push((c.2, c.0, c.1))
        } else {
            prev
        }
    }
}

pub open spec fn disagreement_view(d: Disagreement) -> (int, Verdict, Seq<char>) {
    (d.line as int, d.expected, d.command@)
}

/// Hold the engine's answers against the cases: `fired[k]` is whether the
/// rule fires on the command of `cases[k]`.
pub fn score_cases(cases: &Vec<Case>, fired: &Vec<bool>) -> (s: Score)
    requires
        fired.len() == cases.len(),
    ensures
        ({
            let cs = cases@.map_values(|c: Case| case_view(c));
            &&& s.unreviewed == count_verdict(cs, Verdict::Unreviewed, cs.len() as int)
            &&& s.negatives == count_verdict(cs, Verdict::NoMatch, cs.len() as int)
            &&& s.reviewed == cs.len() - s.unreviewed
            &&& s.disagreements@.map_values(|d: Disagreement| disagreement_view(d))
                == disagreements_upto(cs, fired@, cs.len() as int)
        }),
{
    let ghost cs = cases@.map_values(|c: Case| case_view(c));
    let mut reviewed: usize = 0;
    let mut negatives: usize = 0;
    let mut unreviewed: usize = 0;
    let mut ds: Vec<Disagreement> = Vec::new();
    let mut k: usize = 0;
    while k < cases.len()
        invariant
            k <= cases.len() == fired.len(),
            cs == cases@.map_values(|c: Case| case_view(c)),
            unreviewed == count_verdict(cs, Verdict::Unreviewed, k as int),
            negatives == count_verdict(cs, Verdict::NoMatch, k as int),
            reviewed + unreviewed == k,
            negatives <= k,
            ds@.map_values(|d: Disagreement| disagreement_view(d)) == disagreements_upto(
                cs,
                fired@,
                k as int,
            ),
        decreases cases.len() - k,
    {
        let c = &cases[k];
        assert(cs[k as int] == case_view(*c));
        if c.verdict == Verdict::Unreviewed {
            unreviewed += 1;
        } else {
            reviewed += 1;
            if c.verdict == Verdict::NoMatch {
                negatives += 1;
            }
            let expected = c.verdict == Verdict::Match;
            if fired[k] != expected {
                let ghost before = ds@.map_values(|d: Disagreement| disagreement_view(d));
                let command = string_of(&chars_of(c.command.as_str()));
                ds.push(Disagreement { line: c.line, expected: c.verdict, command });
                assert(ds@.map_values(|d: Disagreement| disagreement_view(d)) =~= before.push(
                    (c.line as int, c.verdict, c.command@),
                ));
            }
        }
        k += 1;
    }
    Score { reviewed, negatives, unreviewed, disagreements: ds }
}

/// Every verdict reads back as itself from the word it is written as.
pub proof fn verdict_text_round_trips(v: Verdict)
    ensures
        verdict_named(verdict_text(v)) == Some(v),
{
    reveal_strlit("match");
    reveal_strlit("nomatch");
    reveal_strlit("?");
    assert("nomatch"@.len() != "match"@.len());
    assert("?"@.len() != "match"@.len());
}

} // verus!
