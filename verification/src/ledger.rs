//! What the local ledgers share: a versioned header line, then one event
//! per line, its fields separated by white space. A malformed line is
//! skipped, never guessed at.

use vstd::prelude::*;
use crate::text::{vec_eq, chars_less_exec, lemma_chars_less_irrefl, lemma_chars_less_trans, lemma_chars_less_total, chars_of, is_space, is_whitespace, trim, trim_vec, slice_of, split_lines, lines_of, views, chars_less, decimal, decimal_chars, push_chars, push_str, string_of};

verus! {

/// Where the run of non-white-space characters starting at `from` ends.
pub open spec fn run_end(s: Seq<char>, from: int) -> int
    decreases s.len() - from,
{
    if from < 0 || from >= s.len() || is_space(s[from]) {
        if from < 0 { 0 } else if from > s.len() { s.len() as int } else { from }
    } else {
        run_end(s, from + 1)
    }
}

pub proof fn lemma_run_end(s: Seq<char>, from: int)
    requires
        0 <= from <= s.len(),
    ensures
        from <= run_end(s, from) <= s.len(),
        forall|k: int| from <= k < run_end(s, from) ==> !is_space(#[trigger] s[k]),
        run_end(s, from) < s.len() ==> is_space(s[run_end(s, from)]),
    decreases s.len() - from,
{
    if from < s.len() && !is_space(s[from]) {
        lemma_run_end(s, from + 1);
    }
}

/// `str::split_whitespace`: the maximal runs of non-white-space characters.
pub open spec fn words(s: Seq<char>) -> Seq<Seq<char>>
    decreases s.len(),
{
    let a = crate::text::skip_space(s, 0);
    if a >= s.len() {
        seq![]
    } else {
        proof {
            crate::text::lemma_skip_space_bounds(s, 0);
            lemma_run_end(s, a);
        }
        let b = run_end(s, a);
        seq![s.subrange(a, b)] + words(s.skip(b))
    }
}

/// A word: some characters, none of them white space.
pub open spec fn is_word(w: Seq<char>) -> bool {
    w.len() > 0 && forall|k: int| 0 <= k < w.len() ==> !is_space(#[trigger] w[k])
}

proof fn lemma_run_end_word(s: Seq<char>, n: int, j: int)
    requires
        0 <= j <= n <= s.len(),
        forall|k: int| 0 <= k < n ==> !is_space(#[trigger] s[k]),
        n < s.len() ==> is_space(s[n]),
    ensures
        run_end(s, j) == n,
    decreases n - j,
{
    if j < n {
        lemma_run_end_word(s, n, j + 1);
    }
}

/// Leading white space splits off nothing.
pub proof fn lemma_words_after_space(c: char, rest: Seq<char>)
    requires
        is_space(c),
    ensures
        words(seq![c] + rest) == words(rest),
{
    let t = seq![c] + rest;
    assert(t.skip(1) =~= rest);
    lemma_skip_shift(t, 1, 0);
    crate::text::lemma_skip_space_bounds(t, 0);
    crate::text::lemma_skip_space_bounds(rest, 0);
    let a = crate::text::skip_space(t, 0);
    assert(a == crate::text::skip_space(t, 1));
    if a < t.len() {
        lemma_run_end(t, a);
        let b = run_end(t, a);
        lemma_run_end_shift(t, 1, a - 1, b - 1);
        assert(t.subrange(a, b) =~= rest.subrange(a - 1, b - 1));
        assert(t.skip(b) =~= rest.skip(b - 1));
    }
}

/// A word, white space, then more: the word, then the words of the rest.
pub proof fn lemma_words_cons(w: Seq<char>, c: char, rest: Seq<char>)
    requires
        is_word(w),
        is_space(c),
    ensures
        words(w + seq![c] + rest) == seq![w] + words(rest),
{
    let s = w + seq![c] + rest;
    assert(!is_space(s[0]));
    assert(crate::text::skip_space(s, 0) == 0);
    assert forall|k: int| 0 <= k < w.len() implies !is_space(#[trigger] s[k]) by {
        assert(s[k] == w[k]);
    }
    lemma_run_end_word(s, w.len() as int, 0);
    assert(s.subrange(0, w.len() as int) =~= w);
    assert(s.skip(w.len() as int) =~= seq![c] + rest);
    lemma_words_after_space(c, rest);
}

/// A lone word is one word.
pub proof fn lemma_words_single(w: Seq<char>)
    requires
        is_word(w),
    ensures
        words(w) == seq![w],
{
    assert(!is_space(w[0]));
    assert(crate::text::skip_space(w, 0) == 0);
    lemma_run_end_word(w, w.len() as int, 0);
    assert(w.subrange(0, w.len() as int) =~= w);
    assert(w.skip(w.len() as int) =~= Seq::<char>::empty());
    assert(words(Seq::<char>::empty()) =~= Seq::<Seq<char>>::empty());
    assert(words(w) =~= seq![w]);
}

/// Exec form of [`words`].
pub fn split_words(s: &Vec<char>) -> (r: Vec<Vec<char>>)
    ensures
        views(r@) == words(s@),
{
    let n = s.len();
    let mut r: Vec<Vec<char>> = Vec::new();
    let mut pos: usize = 0;
    assert(s@.skip(0) =~= s@);
    assert(views(r@) + words(s@) =~= words(s@));
    while pos < n
        invariant
            n == s.len(),
            pos <= n,
            views(r@) + words(s@.skip(pos as int)) == words(s@),
        decreases n - pos,
    {
        let ghost t = s@.skip(pos as int);
        let a = crate::text::skip_spaces(s, pos);
        proof {
            // skipping in `s` from `pos` is skipping in `t` from 0
            lemma_skip_shift(s@, pos as int, 0);
            crate::text::lemma_skip_space_bounds(t, 0);
        }
        if a >= n {
            proof {
                assert(words(t) =~= seq![]);
                assert(s@.skip(n as int) =~= seq![]);
                assert(words(s@.skip(n as int)) =~= seq![]);
            }
            pos = n;
        } else {
            let mut b = a;
            while b < n && !is_whitespace(s[b])
                invariant
                    a <= b <= n == s.len(),
                    forall|k: int| a <= k < b ==> !is_space(#[trigger] s@[k]),
                decreases n - b,
            {
                b += 1;
            }
            proof {
                lemma_run_end_shift(s@, pos as int, a - pos, b - pos);
                lemma_run_end(t, a - pos);
                assert(t.subrange(a - pos, b - pos) =~= s@.subrange(a as int, b as int));
                assert(t.skip(b - pos) =~= s@.skip(b as int));
            }
            let w = slice_of(s, a, b);
            let ghost before = views(r@);
            r.push(w);
            proof {
                assert(views(r@) =~= before.push(w@));
                assert(words(t) == seq![t.subrange(a - pos, b - pos)] + words(t.skip(b - pos)));
            }
            pos = b;
        }
    }
    proof {
        assert(s@.skip(pos as int) =~= seq![]);
        assert(words(seq![]) =~= Seq::<Seq<char>>::empty());
        assert(views(r@) + Seq::<Seq<char>>::empty() =~= views(r@));
    }
    r
}

proof fn lemma_skip_shift(s: Seq<char>, pos: int, from: int)
    requires
        0 <= pos <= s.len(),
        0 <= from <= s.len() - pos,
    ensures
        crate::text::skip_space(s.skip(pos), from) == crate::text::skip_space(s, pos + from) - pos,
    decreases s.len() - pos - from,
{
    if from < s.len() - pos && is_space(s[pos + from]) {
        lemma_skip_shift(s, pos, from + 1);
    }
}

proof fn lemma_run_end_shift(s: Seq<char>, pos: int, a: int, b: int)
    requires
        0 <= pos <= s.len(),
        0 <= a <= b <= s.len() - pos,
        forall|k: int| pos + a <= k < pos + b ==> !is_space(#[trigger] s[k]),
        pos + b < s.len() ==> is_space(s[pos + b]),
    ensures
        run_end(s.skip(pos), a) == b,
    decreases b - a,
{
    if a < b {
        lemma_run_end_shift(s, pos, a + 1, b);
    }
}

// ---------------------------------------------------------------------------
// Numbers

/// An ASCII digit.
pub open spec fn is_digit(c: char) -> bool {
    '0' <= c <= '9'
}

/// The value of a run of digits.
pub open spec fn digits_value(d: Seq<char>) -> nat
    decreases d.len(),
{
    if d.len() == 0 {
        0
    } else {
        digits_value(d.drop_last()) * 10 + ((d.last() as u32) - ('0' as u32)) as nat
    }
}

/// The digits after an optional leading `+`.
pub open spec fn unsigned_digits(s: Seq<char>) -> Seq<char> {
    if s.len() > 0 && s[0] == '+' {
        s.skip(1)
    } else {
        s
    }
}

/// Every character is an ASCII digit.
pub open spec fn all_digits(d: Seq<char>) -> bool {
    forall|k: int| 0 <= k < d.len() ==> is_digit(#[trigger] d[k])
}

/// `u64::from_str`: an optional `+`, then one or more ASCII digits whose
/// value fits.
pub open spec fn parse_u64(s: Seq<char>) -> Option<u64> {
    let d = unsigned_digits(s);
    if d.len() == 0 || !all_digits(d) {
        None
    } else if digits_value(d) > u64::MAX {
        None
    } else {
        Some(digits_value(d) as u64)
    }
}

proof fn lemma_digits_grow(d: Seq<char>, k: int)
    requires
        0 <= k <= d.len(),
        forall|m: int| 0 <= m < d.len() ==> is_digit(#[trigger] d[m]),
    ensures
        digits_value(d.take(k)) <= digits_value(d),
    decreases d.len() - k,
{
    if k < d.len() {
        lemma_digits_grow(d, k + 1);
        assert(d.take(k + 1).drop_last() =~= d.take(k));
    } else {
        assert(d.take(k) =~= d);
    }
}

/// Exec form of [`parse_u64`].
pub fn parse_u64_chars(s: &Vec<char>) -> (r: Option<u64>)
    ensures
        r == parse_u64(s@),
{
    let start: usize = if s.len() > 0 && s[0] == '+' {
        1
    } else {
        0
    };
    let ghost d = unsigned_digits(s@);
    assert(d =~= s@.skip(start as int));
    if start == s.len() {
        return None;
    }
    let mut k: usize = start;
    while k < s.len()
        invariant
            start <= k <= s.len(),
            d =~= s@.skip(start as int),
            d == unsigned_digits(s@),
            forall|m: int| start <= m < k ==> is_digit(#[trigger] s@[m]),
        decreases s.len() - k,
    {
        if !('0' <= s[k] && s[k] <= '9') {
            assert(d[k - start] == s@[k as int]);
            assert(!is_digit(d[k - start]));
            return None;
        }
        k += 1;
    }
    assert(forall|m: int| 0 <= m < d.len() ==> is_digit(#[trigger] d[m])) by {
        assert forall|m: int| 0 <= m < d.len() implies is_digit(#[trigger] d[m]) by {
            assert(d[m] == s@[start + m]);
        }
    }
    let mut v: u64 = 0;
    let mut j: usize = start;
    assert(d.take(0) =~= seq![]);
    while j < s.len()
        invariant
            start <= j <= s.len(),
            d =~= s@.skip(start as int),
            d == unsigned_digits(s@),
            d.len() > 0,
            forall|m: int| 0 <= m < d.len() ==> is_digit(#[trigger] d[m]),
            v == digits_value(d.take(j - start)),
        decreases s.len() - j,
    {
        assert(d[j - start] == s@[j as int]);
        assert(is_digit(s@[j as int]));
        let dig = (s[j] as u32 - '0' as u32) as u64;
        assert(d.take(j - start + 1).drop_last() =~= d.take(j - start));
        assert(d.take(j - start + 1).last() == s@[j as int]);
        if v > 1844674407370955161 || (v == 1844674407370955161 && dig > 5) {
            proof {
                lemma_digits_grow(d, j - start + 1);
                assert(digits_value(d.take(j - start + 1)) > u64::MAX);
            }
            return None;
        }
        v = v * 10 + dig;
        j += 1;
    }
    assert(d.take(d.len() as int) =~= d);
    Some(v)
}

// ---------------------------------------------------------------------------
// Fields

/// An ASCII hex digit.
pub open spec fn is_hex(c: char) -> bool {
    ('0' <= c <= '9') || ('a' <= c <= 'f') || ('A' <= c <= 'F')
}

/// A commit id as a ledger writes it: 7 to 64 hex digits.
pub open spec fn valid_oid(s: Seq<char>) -> bool {
    7 <= s.len() <= 64 && forall|k: int| 0 <= k < s.len() ==> #[trigger] is_hex(s[k])
}

/// A name a ledger may show: 1 to `max` printable ASCII characters, so a
/// hand-edited file cannot smuggle a control byte into a terminal.
pub open spec fn valid_name(s: Seq<char>, max: nat) -> bool {
    1 <= s.len() <= max && forall|k: int| 0 <= k < s.len() ==> '!' <= #[trigger] s[k] <= '~'
}

pub fn is_valid_oid(s: &Vec<char>) -> (r: bool)
    ensures
        r == valid_oid(s@),
{
    if s.len() < 7 || s.len() > 64 {
        return false;
    }
    let mut k: usize = 0;
    while k < s.len()
        invariant
            k <= s.len(),
            forall|m: int| 0 <= m < k ==> #[trigger] is_hex(s@[m]),
        decreases s.len() - k,
    {
        let c = s[k];
        if !(('0' <= c && c <= '9') || ('a' <= c && c <= 'f') || ('A' <= c && c <= 'F')) {
            assert(!is_hex(s@[k as int]));
            return false;
        }
        k += 1;
    }
    true
}

pub fn is_valid_name(s: &Vec<char>, max: usize) -> (r: bool)
    ensures
        r == valid_name(s@, max as nat),
{
    if s.len() < 1 || s.len() > max {
        return false;
    }
    let mut k: usize = 0;
    while k < s.len()
        invariant
            k <= s.len(),
            forall|m: int| 0 <= m < k ==> '!' <= #[trigger] s@[m] <= '~',
        decreases s.len() - k,
    {
        let c = s[k];
        if !('!' <= c && c <= '~') {
            return false;
        }
        k += 1;
    }
    true
}

// ---------------------------------------------------------------------------
// Lines

/// A line holding only white space.
pub open spec fn blank_line(l: Seq<char>) -> bool {
    trim(l).len() == 0
}

/// The lines among the first `k` that are not blank.
pub open spec fn nonblank_upto(ls: Seq<Seq<char>>, k: int) -> Seq<Seq<char>>
    decreases k,
{
    if k <= 0 {
        seq![]
    } else if blank_line(ls[k - 1]) {
        nonblank_upto(ls, k - 1)
    } else {
        nonblank_upto(ls, k - 1).push(ls[k - 1])
    }
}

/// A text's lines that are not blank.
pub open spec fn nonblank_lines(text: Seq<char>) -> Seq<Seq<char>> {
    nonblank_upto(lines_of(text), lines_of(text).len() as int)
}

/// Exec form of [`nonblank_lines`].
pub fn nonblank(text: &str) -> (r: Vec<Vec<char>>)
    ensures
        views(r@) == nonblank_lines(text@),
{
    let ls = split_lines(&chars_of(text));
    let mut out: Vec<Vec<char>> = Vec::new();
    let mut k: usize = 0;
    while k < ls.len()
        invariant
            k <= ls.len(),
            views(ls@) == lines_of(text@),
            views(out@) == nonblank_upto(views(ls@), k as int),
        decreases ls.len() - k,
    {
        let l = slice_of(&ls[k], 0, ls[k].len());
        assert(l@ =~= views(ls@)[k as int]);
        if trim_vec(&l).len() > 0 {
            let ghost before = views(out@);
            out.push(l);
            assert(views(out@) =~= before.push(views(ls@)[k as int]));
        }
        k += 1;
    }
    out
}

// ---------------------------------------------------------------------------
// Tallies

/// One event as the tallies see it: when, about which name, and whether it
/// would have blocked.
pub struct Event {
    pub epoch: u64,
    pub name: Vec<char>,
    pub blocking: bool,
}

pub open spec fn event_view(e: Event) -> (u64, Seq<char>, bool) {
    (e.epoch, e.name@, e.blocking)
}

pub open spec fn event_views(es: Seq<Event>) -> Seq<(u64, Seq<char>, bool)> {
    es.map_values(|e: Event| event_view(e))
}

/// How many of the first `k` events are about `name`.
pub open spec fn count_in(evs: Seq<(u64, Seq<char>, bool)>, name: Seq<char>, k: int) -> nat
    decreases k,
{
    if k <= 0 {
        0
    } else {
        count_in(evs, name, k - 1) + if evs[k - 1].1 == name {
            1nat
        } else {
            0nat
        }
    }
}

/// How many of the first `k` events are about `name` and would have blocked.
pub open spec fn blocking_in(evs: Seq<(u64, Seq<char>, bool)>, name: Seq<char>, k: int) -> nat
    decreases k,
{
    if k <= 0 {
        0
    } else {
        blocking_in(evs, name, k - 1) + if evs[k - 1].1 == name && evs[k - 1].2 {
            1nat
        } else {
            0nat
        }
    }
}

/// The newest epoch among the first `k` events about `name` (0 if none).
pub open spec fn last_in(evs: Seq<(u64, Seq<char>, bool)>, name: Seq<char>, k: int) -> u64
    decreases k,
{
    if k <= 0 {
        0
    } else {
        let p = last_in(evs, name, k - 1);
        if evs[k - 1].1 == name && evs[k - 1].0 > p {
            evs[k - 1].0
        } else {
            p
        }
    }
}

/// The newest epoch among the first `k` events.
pub open spec fn newest(evs: Seq<(u64, Seq<char>, bool)>, k: int) -> Option<u64>
    decreases k,
{
    if k <= 0 {
        None
    } else {
        match newest(evs, k - 1) {
            Some(p) => Some(if evs[k - 1].0 > p { evs[k - 1].0 } else { p }),
            None => Some(evs[k - 1].0),
        }
    }
}

/// The oldest epoch among the first `k` events.
pub open spec fn oldest(evs: Seq<(u64, Seq<char>, bool)>, k: int) -> Option<u64>
    decreases k,
{
    if k <= 0 {
        None
    } else {
        match oldest(evs, k - 1) {
            Some(p) => Some(if evs[k - 1].0 < p { evs[k - 1].0 } else { p }),
            None => Some(evs[k - 1].0),
        }
    }
}

/// One name's slice of a ledger.
pub struct Group {
    pub name: Vec<char>,
    pub count: usize,
    pub blocking: usize,
    pub last: u64,
}

pub open spec fn group_view(g: Group) -> (Seq<char>, usize, usize, u64) {
    (g.name@, g.count, g.blocking, g.last)
}

pub open spec fn group_views(gs: Seq<Group>) -> Seq<(Seq<char>, usize, usize, u64)> {
    gs.map_values(|g: Group| group_view(g))
}

/// A group is exactly the tally of its name over the events, and the name
/// occurs.
pub open spec fn tallied(evs: Seq<(u64, Seq<char>, bool)>, g: (Seq<char>, usize, usize, u64)) -> bool {
    &&& g.1 == count_in(evs, g.0, evs.len() as int)
    &&& g.1 > 0
    &&& g.2 == blocking_in(evs, g.0, evs.len() as int)
    &&& g.3 == last_in(evs, g.0, evs.len() as int)
}

/// The groups of a tally: one per name, each exactly its name's tally.
pub open spec fn groups_of(evs: Seq<(u64, Seq<char>, bool)>, gs: Seq<(Seq<char>, usize, usize, u64)>) -> bool {
    &&& forall|i: int| 0 <= i < gs.len() ==> tallied(evs, #[trigger] gs[i])
    &&& forall|i: int, j: int| 0 <= i < j < gs.len() ==> (#[trigger] gs[i]).0 != (#[trigger] gs[j]).0
    &&& forall|m: int| 0 <= m < evs.len() ==> named(gs, #[trigger] evs[m].1)
}

/// Some group carries `name`.
pub open spec fn named(gs: Seq<(Seq<char>, usize, usize, u64)>, name: Seq<char>) -> bool {
    exists|i: int| 0 <= i < gs.len() && #[trigger] gs[i].0 == name
}

proof fn lemma_count_bound(evs: Seq<(u64, Seq<char>, bool)>, name: Seq<char>, k: int)
    requires
        0 <= k,
    ensures
        count_in(evs, name, k) <= k,
        blocking_in(evs, name, k) <= count_in(evs, name, k),
    decreases k,
{
    if k > 0 {
        lemma_count_bound(evs, name, k - 1);
    }
}

proof fn lemma_count_pos(evs: Seq<(u64, Seq<char>, bool)>, name: Seq<char>, m: int, k: int)
    requires
        0 <= m < k,
        evs[m].1 == name,
    ensures
        count_in(evs, name, k) > 0,
    decreases k,
{
    if k - 1 > m {
        lemma_count_pos(evs, name, m, k - 1);
    }
}

proof fn lemma_absent(evs: Seq<(u64, Seq<char>, bool)>, name: Seq<char>, k: int)
    requires
        0 <= k,
        forall|m: int| 0 <= m < k ==> evs[m].1 != name,
    ensures
        count_in(evs, name, k) == 0,
        blocking_in(evs, name, k) == 0,
        last_in(evs, name, k) == 0,
    decreases k,
{
    if k > 0 {
        lemma_absent(evs, name, k - 1);
    }
}

/// Tally events by name, in order of first appearance.
pub fn tally(events: &Vec<Event>) -> (r: Vec<Group>)
    ensures
        groups_of(event_views(events@), group_views(r@)),
{
    let ghost evs = event_views(events@);
    let mut gs: Vec<Group> = Vec::new();
    let mut k: usize = 0;
    while k < events.len()
        invariant
            k <= events.len(),
            evs == event_views(events@),
            forall|i: int| 0 <= i < gs@.len() ==> {
                let g = #[trigger] group_view(gs@[i]);
                &&& g.1 == count_in(evs, g.0, k as int)
                &&& g.1 > 0
                &&& g.2 == blocking_in(evs, g.0, k as int)
                &&& g.3 == last_in(evs, g.0, k as int)
            },
            forall|i: int, j: int| 0 <= i < j < gs@.len() ==> (#[trigger] gs@[i]).name@ != (#[trigger] gs@[j]).name@,
            forall|m: int| 0 <= m < k ==> exists|i: int| 0 <= i < gs@.len() && (#[trigger] gs@[i]).name@ == (#[trigger] evs[m]).1,
        decreases events.len() - k,
    {
        let e = &events[k];
        assert(evs[k as int] == event_view(*e));
        let mut i: usize = 0;
        while i < gs.len() && !vec_eq(&gs[i].name, &e.name)
            invariant
                i <= gs@.len(),
                forall|j: int| 0 <= j < i ==> (#[trigger] gs@[j]).name@ != e.name@,
            decreases gs.len() - i,
        {
            i += 1;
        }
        let ghost old_gs = gs@;
        proof {
            lemma_count_bound(evs, e.name@, k as int);
        }
        if i < gs.len() {
            assert(group_view(gs@[i as int]).1 == count_in(evs, e.name@, k as int));
            let g = &gs[i];
            let name = slice_of(&g.name, 0, g.name.len());
            assert(name@ =~= g.name@);
            let last = if e.epoch > g.last {
                e.epoch
            } else {
                g.last
            };
            let blocking = if e.blocking {
                g.blocking + 1
            } else {
                g.blocking
            };
            let count = g.count + 1;
            gs.set(i, Group { name, count, blocking, last });
        } else {
            let name = slice_of(&e.name, 0, e.name.len());
            assert(name@ =~= e.name@);
            gs.push(Group { name, count: 1, blocking: if e.blocking { 1 } else { 0 }, last: e.epoch });
        }
        proof {
            assert forall|j: int| 0 <= j < gs@.len() implies {
                let g = #[trigger] group_view(gs@[j]);
                &&& g.1 == count_in(evs, g.0, k + 1)
                &&& g.1 > 0
                &&& g.2 == blocking_in(evs, g.0, k + 1)
                &&& g.3 == last_in(evs, g.0, k + 1)
            } by {
                if j == i && i < old_gs.len() {
                    assert(group_view(old_gs[j]).1 == count_in(evs, old_gs[j].name@, k as int));
                    assert(old_gs[j].name@ == e.name@);
                    assert(gs@[j].name@ == e.name@);
                } else if j == i {
                    assert forall|m: int| 0 <= m < k implies evs[m].1 != e.name@ by {
                        let w = choose|w: int| 0 <= w < old_gs.len() && (#[trigger] old_gs[w]).name@ == (#[trigger] evs[m]).1;
                        assert(old_gs[w].name@ != e.name@);
                    }
                    lemma_absent(evs, e.name@, k as int);
                    assert(gs@[j].name@ == e.name@);
                } else {
                    assert(gs@[j] == old_gs[j]);
                    assert(group_view(old_gs[j]).1 == count_in(evs, old_gs[j].name@, k as int));
                    assert(old_gs[j].name@ != e.name@);
                }
            }
            assert forall|j1: int, j2: int| 0 <= j1 < j2 < gs@.len() implies (#[trigger] gs@[j1]).name@ != (#[trigger] gs@[j2]).name@ by {
                if j2 == i && i == old_gs.len() {
                    assert(gs@[j1] == old_gs[j1]);
                } else if j1 == i || j2 == i {
                    assert(gs@[i as int].name@ == old_gs[i as int].name@);
                    if j1 != i {
                        assert(gs@[j1] == old_gs[j1]);
                    }
                    if j2 != i {
                        assert(gs@[j2] == old_gs[j2]);
                    }
                } else {
                    assert(gs@[j1] == old_gs[j1] && gs@[j2] == old_gs[j2]);
                }
            }
            assert forall|m: int| 0 <= m < k + 1 implies exists|j: int| 0 <= j < gs@.len() && (#[trigger] gs@[j]).name@ == (#[trigger] evs[m]).1 by {
                if m == k {
                    assert(gs@[i as int].name@ == evs[m].1);
                } else {
                    let j = choose|j: int| 0 <= j < old_gs.len() && (#[trigger] old_gs[j]).name@ == (#[trigger] evs[m]).1;
                    assert(gs@[j].name@ == old_gs[j].name@);
                }
            }
        }
        k += 1;
    }
    proof {
        let gv = group_views(gs@);
        assert forall|i: int, j: int| 0 <= i < j < gv.len() implies (#[trigger] gv[i]).0 != (#[trigger] gv[j]).0 by {
            assert(gv[i].0 == gs@[i].name@ && gv[j].0 == gs@[j].name@);
        }
        assert forall|m: int| 0 <= m < evs.len() implies named(gv, #[trigger] evs[m].1) by {
            let i = choose|i: int| 0 <= i < gs@.len() && (#[trigger] gs@[i]).name@ == (#[trigger] evs[m]).1;
            assert(gv[i].0 == evs[m].1);
        }
        assert forall|i: int| 0 <= i < gv.len() implies tallied(evs, #[trigger] gv[i]) by {
            assert(gv[i] == group_view(gs@[i]));
        }
    }
    gs
}


/// Display order: count descending, then name ascending.
pub open spec fn group_before(a: (Seq<char>, usize, usize, u64), b: (Seq<char>, usize, usize, u64)) -> bool {
    a.1 > b.1 || (a.1 == b.1 && crate::text::chars_less(a.0, b.0))
}

/// No group comes before one listed ahead of it.
pub open spec fn groups_in_order(gs: Seq<(Seq<char>, usize, usize, u64)>) -> bool {
    forall|i: int, j: int| 0 <= i < j < gs.len() ==> !group_before(#[trigger] gs[j], #[trigger] gs[i])
}

// ---------------------------------------------------------------------------
// What an append writes reads back

proof fn lemma_digit_char(d: nat)
    requires
        d < 10,
    ensures
        is_digit(digit_char_of(d)),
        ((digit_char_of(d) as u32) - ('0' as u32)) as nat == d,
{
}

spec fn digit_char_of(d: nat) -> char {
    crate::text::digit_char(d)
}

/// A number written in decimal reads back as itself, and is one word.
pub proof fn lemma_decimal_reads_back(n: u64)
    ensures
        parse_u64(decimal(n as nat)) == Some(n),
        is_word(decimal(n as nat)),
        forall|k: int| 0 <= k < decimal(n as nat).len() ==> is_digit(#[trigger] decimal(n as nat)[k]),
{
    lemma_decimal_digits(n as nat);
    let d = decimal(n as nat);
    assert(d[0] != '+');
    assert(unsigned_digits(d) == d);
    assert forall|k: int| 0 <= k < d.len() implies !is_space(#[trigger] d[k]) by {
        assert(is_digit(d[k]));
    }
}

proof fn lemma_decimal_digits(n: nat)
    ensures
        decimal(n).len() > 0,
        forall|k: int| 0 <= k < decimal(n).len() ==> is_digit(#[trigger] decimal(n)[k]),
        digits_value(decimal(n)) == n,
    decreases n,
{
    lemma_digit_char(n % 10);
    assert(digit_char_of(n % 10) == crate::text::digit_char(n % 10));
    if n < 10 {
        assert(n % 10 == n);
        assert(decimal(n).drop_last() =~= Seq::<char>::empty());
        assert(decimal(n).last() == crate::text::digit_char(n));
        assert(digits_value(decimal(n)) == digits_value(decimal(n).drop_last()) * 10 + ((decimal(n).last() as u32) - ('0' as u32)) as nat);
    } else {
        lemma_decimal_digits(n / 10);
        let d = decimal(n);
        assert(d.drop_last() =~= decimal(n / 10));
        assert(d.last() == crate::text::digit_char(n % 10));
        assert(digits_value(d) == digits_value(d.drop_last()) * 10 + ((d.last() as u32) - ('0' as u32)) as nat);
        assert(n == (n / 10) * 10 + n % 10);
        assert forall|k: int| 0 <= k < d.len() implies is_digit(#[trigger] d[k]) by {
            if k < d.len() - 1 {
                assert(d[k] == decimal(n / 10)[k]);
            }
        }
    }
}

/// The non-blank lines of `a + b`, read up to `k` lines into `b`.
pub proof fn lemma_nonblank_append(a: Seq<Seq<char>>, b: Seq<Seq<char>>, k: int)
    requires
        0 <= k <= b.len(),
        forall|i: int| 0 <= i < b.len() ==> !blank_line(#[trigger] b[i]),
    ensures
        nonblank_upto(a + b, a.len() + k) == nonblank_upto(a, a.len() as int) + b.take(k),
    decreases k,
{
    if k == 0 {
        lemma_nonblank_same(a, a + b, a.len() as int);
        assert(b.take(0) =~= Seq::<Seq<char>>::empty());
        assert(nonblank_upto(a, a.len() as int) + b.take(0) =~= nonblank_upto(a, a.len() as int));
    } else {
        lemma_nonblank_append(a, b, k - 1);
        assert((a + b)[a.len() + k - 1] == b[k - 1]);
        assert(!blank_line(b[k - 1]));
        assert(b.take(k) =~= b.take(k - 1).push(b[k - 1]));
        assert(nonblank_upto(a, a.len() as int) + b.take(k) =~= (nonblank_upto(a, a.len() as int) + b.take(k - 1)).push(b[k - 1]));
    }
}

proof fn lemma_nonblank_same(a: Seq<Seq<char>>, c: Seq<Seq<char>>, k: int)
    requires
        0 <= k <= a.len() <= c.len(),
        forall|i: int| 0 <= i < a.len() ==> #[trigger] c[i] == a[i],
    ensures
        nonblank_upto(c, k) == nonblank_upto(a, k),
    decreases k,
{
    if k > 0 {
        lemma_nonblank_same(a, c, k - 1);
        assert(c[k - 1] == a[k - 1]);
    }
}

/// An event line `<epoch> <commit> <rest...>` splits into its fields.
pub proof fn lemma_words_of_fields(fields: Seq<Seq<char>>)
    requires
        fields.len() > 0,
        forall|i: int| 0 <= i < fields.len() ==> is_word(#[trigger] fields[i]),
    ensures
        words(spaced(fields)) == fields,
    decreases fields.len(),
{
    if fields.len() == 1 {
        assert(spaced(fields) == fields[0]);
        lemma_words_single(fields[0]);
        assert(seq![fields[0]] =~= fields);
    } else {
        let rest = fields.skip(1);
        assert forall|i: int| 0 <= i < rest.len() implies is_word(#[trigger] rest[i]) by {
            assert(rest[i] == fields[i + 1]);
        }
        lemma_words_of_fields(rest);
        reveal_strlit(" ");
        assert(spaced(fields) =~= fields[0] + seq![' '] + spaced(rest));
        assert(is_space(' '));
        lemma_words_cons(fields[0], ' ', spaced(rest));
        assert(seq![fields[0]] + rest =~= fields);
    }
}

/// Fields joined by single spaces.
pub open spec fn spaced(fields: Seq<Seq<char>>) -> Seq<char>
    decreases fields.len(),
{
    if fields.len() <= 1 {
        if fields.len() == 1 { fields[0] } else { seq![] }
    } else {
        fields[0] + " "@ + spaced(fields.skip(1))
    }
}

/// The tally of `evs`: its groups, in order. There is exactly one
/// ([`lemma_tally_unique`]), so this names it.
pub open spec fn tally_of(evs: Seq<(u64, Seq<char>, bool)>) -> Seq<(Seq<char>, usize, usize, u64)> {
    choose|gs: Seq<(Seq<char>, usize, usize, u64)>| groups_of(evs, gs) && groups_in_order(gs)
}

proof fn lemma_count_named(evs: Seq<(u64, Seq<char>, bool)>, name: Seq<char>, k: int)
    requires
        0 <= k <= evs.len(),
        count_in(evs, name, k) > 0,
    ensures
        exists|m: int| 0 <= m < k && (#[trigger] evs[m]).1 == name,
    decreases k,
{
    if evs[k - 1].1 != name {
        lemma_count_named(evs, name, k - 1);
        let m = choose|m: int| 0 <= m < k - 1 && (#[trigger] evs[m]).1 == name;
        assert(0 <= m < k && evs[m].1 == name);
    } else {
        assert(evs[k - 1].1 == name);
    }
}

/// `x` is one of `gs`.
pub open spec fn holds(gs: Seq<(Seq<char>, usize, usize, u64)>, x: (Seq<char>, usize, usize, u64)) -> bool {
    exists|j: int| 0 <= j < gs.len() && gs[j] == x
}

/// Each group named once, in group order.
pub open spec fn ordered_once(gs: Seq<(Seq<char>, usize, usize, u64)>) -> bool {
    &&& forall|i: int, j: int| 0 <= i < j < gs.len() ==> (#[trigger] gs[i]).0 != (#[trigger] gs[j]).0
    &&& groups_in_order(gs)
}

proof fn lemma_ordered_once_tail(gs: Seq<(Seq<char>, usize, usize, u64)>)
    requires
        ordered_once(gs),
        gs.len() > 0,
    ensures
        ordered_once(gs.skip(1)),
{
    let t = gs.skip(1);
    assert forall|i: int, j: int| 0 <= i < j < t.len() implies (#[trigger] t[i]).0 != (#[trigger] t[j]).0 by {
        assert(t[i] == gs[i + 1] && t[j] == gs[j + 1]);
    }
    assert forall|i: int, j: int| 0 <= i < j < t.len() implies !group_before(#[trigger] t[j], #[trigger] t[i]) by {
        assert(t[i] == gs[i + 1] && t[j] == gs[j + 1]);
    }
}

/// Of two lists holding the same groups, in order, the first groups agree.
proof fn lemma_same_head(a: Seq<(Seq<char>, usize, usize, u64)>, b: Seq<(Seq<char>, usize, usize, u64)>)
    requires
        ordered_once(a),
        ordered_once(b),
        a.len() > 0,
        b.len() > 0,
        holds(a, b[0]),
        holds(b, a[0]),
    ensures
        a[0] == b[0],
{
    let i0 = choose|i: int| 0 <= i < a.len() && a[i] == b[0];
    let j0 = choose|j: int| 0 <= j < b.len() && b[j] == a[0];
    if a[0] != b[0] {
        assert(i0 > 0 && j0 > 0);
        assert(!group_before(a[i0], a[0]));
        assert(!group_before(b[j0], b[0]));
        if a[0].1 == b[0].1 {
            if a[0].0 == b[0].0 {
                assert(a[i0].0 == a[0].0);
            } else {
                lemma_chars_less_total(a[0].0, b[0].0);
            }
        }
    }
}

/// Two lists in group order, each naming a group once, that hold the same
/// groups are the same list.
proof fn lemma_sorted_same(a: Seq<(Seq<char>, usize, usize, u64)>, b: Seq<(Seq<char>, usize, usize, u64)>)
    requires
        ordered_once(a),
        ordered_once(b),
        forall|i: int| 0 <= i < a.len() ==> holds(b, #[trigger] a[i]),
        forall|j: int| 0 <= j < b.len() ==> holds(a, #[trigger] b[j]),
    ensures
        a == b,
    decreases a.len(),
{
    if a.len() == 0 {
        if b.len() > 0 {
            assert(holds(a, b[0]));
        }
        assert(a =~= b);
    } else if b.len() == 0 {
        assert(holds(b, a[0]));
    } else {
        assert(holds(a, b[0]));
        assert(holds(b, a[0]));
        lemma_same_head(a, b);
        let a1 = a.skip(1);
        let b1 = b.skip(1);
        lemma_ordered_once_tail(a);
        lemma_ordered_once_tail(b);
        assert forall|i: int| 0 <= i < a1.len() implies holds(b1, #[trigger] a1[i]) by {
            assert(a1[i] == a[i + 1]);
            assert(holds(b, a[i + 1]));
            let j = choose|j: int| 0 <= j < b.len() && b[j] == a[i + 1];
            assert(a[0].0 != a[i + 1].0);
            assert(j != 0);
            assert(b1[j - 1] == b[j]);
        }
        assert forall|j: int| 0 <= j < b1.len() implies holds(a1, #[trigger] b1[j]) by {
            assert(b1[j] == b[j + 1]);
            assert(holds(a, b[j + 1]));
            let i = choose|i: int| 0 <= i < a.len() && a[i] == b[j + 1];
            assert(b[0].0 != b[j + 1].0);
            assert(i != 0);
            assert(a1[i - 1] == a[i]);
        }
        lemma_sorted_same(a1, b1);
        assert(a =~= seq![a[0]] + a1);
        assert(b =~= seq![b[0]] + b1);
    }
}

/// Every group of a tally is in every other tally of the same events.
proof fn lemma_tally_holds(evs: Seq<(u64, Seq<char>, bool)>, gs: Seq<(Seq<char>, usize, usize, u64)>, t: Seq<(Seq<char>, usize, usize, u64)>, i: int)
    requires
        groups_of(evs, gs),
        groups_of(evs, t),
        0 <= i < gs.len(),
    ensures
        holds(t, gs[i]),
{
    assert(tallied(evs, gs[i]));
    lemma_count_named(evs, gs[i].0, evs.len() as int);
    let m = choose|m: int| 0 <= m < evs.len() && (#[trigger] evs[m]).1 == gs[i].0;
    assert(named(t, evs[m].1));
    let j = choose|j: int| 0 <= j < t.len() && #[trigger] t[j].0 == evs[m].1;
    assert(tallied(evs, t[j]));
    assert(t[j] == gs[i]);
}

/// A tally is determined by its events: any list of groups that tallies
/// `evs`, in group order, is [`tally_of`]`(evs)`.
pub proof fn lemma_tally_unique(evs: Seq<(u64, Seq<char>, bool)>, gs: Seq<(Seq<char>, usize, usize, u64)>)
    requires
        groups_of(evs, gs),
        groups_in_order(gs),
    ensures
        gs == tally_of(evs),
{
    let t = tally_of(evs);
    assert(groups_of(evs, t) && groups_in_order(t));
    assert forall|i: int| 0 <= i < gs.len() implies holds(t, #[trigger] gs[i]) by {
        lemma_tally_holds(evs, gs, t, i);
    }
    assert forall|j: int| 0 <= j < t.len() implies holds(gs, #[trigger] t[j]) by {
        lemma_tally_holds(evs, t, gs, j);
    }
    lemma_sorted_same(gs, t);
}

proof fn lemma_group_before_trans(a: (Seq<char>, usize, usize, u64), b: (Seq<char>, usize, usize, u64), c: (Seq<char>, usize, usize, u64))
    requires
        group_before(a, b),
        group_before(b, c),
    ensures
        group_before(a, c),
{
    if a.1 == b.1 && b.1 == c.1 {
        lemma_chars_less_trans(a.0, b.0, c.0);
    }
}

proof fn lemma_group_before_irrefl(a: (Seq<char>, usize, usize, u64))
    ensures
        !group_before(a, a),
{
    lemma_chars_less_irrefl(a.0);
}

fn group_before_exec(a: &Group, b: &Group) -> (r: bool)
    ensures
        r == group_before(group_view(*a), group_view(*b)),
{
    a.count > b.count || (a.count == b.count && chars_less_exec(&a.name, &b.name))
}

/// Put groups in display order.
pub fn sort_groups(groups: Vec<Group>) -> (r: Vec<Group>)
    ensures
        groups_in_order(group_views(r@)),
        group_views(r@).to_multiset() == group_views(groups@).to_multiset(),
{
    broadcast use vstd::seq_lib::group_to_multiset_ensures;

    let ghost all = group_views(groups@).to_multiset();
    let mut rest = groups;
    let mut out: Vec<Group> = Vec::new();
    while rest.len() > 0
        invariant
            groups_in_order(group_views(out@)),
            group_views(out@).to_multiset().add(group_views(rest@).to_multiset()) == all,
        decreases rest.len(),
    {
        let ghost rv = group_views(rest@);
        let x = rest.remove(0);
        let ghost vx = group_view(x);
        proof {
            assert(group_views(rest@) =~= rv.remove(0));
            assert(rv[0] == vx);
            assert(rv.contains(vx));
            vstd::seq_lib::to_multiset_remove(rv, 0);
            vstd::seq_lib::to_multiset_contains(rv, vx);
            assert(rv.to_multiset().count(vx) > 0);
            assert(rv.to_multiset().contains(vx));
        }
        let mut p: usize = 0;
        while p < out.len() && !group_before_exec(&x, &out[p])
            invariant
                p <= out.len(),
                forall|k: int| 0 <= k < p ==> !group_before(vx, #[trigger] group_views(out@)[k]),
                vx == group_view(x),
            decreases out.len() - p,
        {
            p += 1;
        }
        let ghost ov = group_views(out@);
        proof {
            assert forall|j: int| p <= j < ov.len() implies !group_before(#[trigger] ov[j], vx) by {
                if group_before(ov[j], vx) {
                    if j == p {
                        lemma_group_before_trans(ov[j], vx, ov[j]);
                        lemma_group_before_irrefl(ov[j]);
                    } else {
                        lemma_group_before_trans(ov[j], vx, ov[p as int]);
                    }
                }
            }
        }
        out.insert(p, x);
        proof {
            let nv = group_views(out@);
            assert(nv =~= ov.insert(p as int, vx));
            vstd::seq_lib::to_multiset_insert(ov, p as int, vx);
            assert forall|i: int, j: int| 0 <= i < j < nv.len() implies !group_before(
                #[trigger] nv[j],
                #[trigger] nv[i],
            ) by {
                if i < p && j < p {
                    assert(nv[i] == ov[i] && nv[j] == ov[j]);
                } else if i < p && j == p {
                    assert(nv[i] == ov[i]);
                } else if i < p {
                    assert(nv[i] == ov[i] && nv[j] == ov[j - 1]);
                } else if i == p {
                    assert(nv[j] == ov[j - 1]);
                } else {
                    assert(nv[i] == ov[i - 1] && nv[j] == ov[j - 1]);
                }
            }
            assert(nv.to_multiset().add(group_views(rest@).to_multiset()) =~= all);
        }
    }
    proof {
        assert(group_views(rest@) =~= Seq::<(Seq<char>, usize, usize, u64)>::empty());
        assert(group_views(out@).to_multiset().add(Seq::<(Seq<char>, usize, usize, u64)>::empty().to_multiset())
            =~= group_views(out@).to_multiset());
    }
    out
}

/// Reordering the groups of a tally leaves them the groups of that tally.
pub proof fn lemma_groups_permuted(
    evs: Seq<(u64, Seq<char>, bool)>,
    gs: Seq<(Seq<char>, usize, usize, u64)>,
    r: Seq<(Seq<char>, usize, usize, u64)>,
)
    requires
        groups_of(evs, gs),
        r.to_multiset() == gs.to_multiset(),
    ensures
        groups_of(evs, r),
{
    broadcast use vstd::seq_lib::group_to_multiset_ensures;

    assert forall|i: int| 0 <= i < r.len() implies tallied(evs, #[trigger] r[i]) by {
        assert(r.contains(r[i]));
        assert(r.to_multiset().count(r[i]) > 0);
        assert(gs.to_multiset().count(r[i]) > 0);
        assert(gs.contains(r[i]));
    }
    assert(gs.no_duplicates()) by {
        assert forall|i: int, j: int| 0 <= i < gs.len() && 0 <= j < gs.len() && i != j implies gs[i] != gs[j] by {
            if i < j {
                assert(gs[i].0 != gs[j].0);
            } else {
                assert(gs[j].0 != gs[i].0);
            }
        }
    }
    gs.lemma_multiset_has_no_duplicates();
    assert(r.no_duplicates()) by {
        assert forall|x: (Seq<char>, usize, usize, u64)| r.to_multiset().contains(x) implies r.to_multiset().count(x) == 1 by {
            assert(gs.to_multiset().contains(x));
        }
        r.lemma_multiset_has_no_duplicates_conv();
    }
    assert forall|i: int, j: int| 0 <= i < j < r.len() implies (#[trigger] r[i]).0 != (#[trigger] r[j]).0 by {
        if r[i].0 == r[j].0 {
            assert(tallied(evs, r[i]) && tallied(evs, r[j]));
            assert(r[i] == r[j]);
            assert(r[i] != r[j]);
        }
    }
    assert forall|m: int| 0 <= m < evs.len() implies named(r, #[trigger] evs[m].1) by {
        assert(named(gs, evs[m].1));
        let w = choose|w: int| 0 <= w < gs.len() && #[trigger] gs[w].0 == evs[m].1;
        assert(gs.contains(gs[w]));
        assert(gs.to_multiset().count(gs[w]) > 0);
        assert(r.to_multiset().count(gs[w]) > 0);
        assert(r.contains(gs[w]));
        let i = choose|i: int| 0 <= i < r.len() && r[i] == gs[w];
        assert(r[i].0 == evs[m].1);
    }
    assert(forall|i: int| 0 <= i < r.len() ==> tallied(evs, #[trigger] r[i]));
    assert(forall|i: int, j: int| 0 <= i < j < r.len() ==> (#[trigger] r[i]).0 != (#[trigger] r[j]).0);
}

/// Appending an event does not change what a prefix says.
pub proof fn lemma_newest_push(evs: Seq<(u64, Seq<char>, bool)>, e: (u64, Seq<char>, bool), k: int)
    requires
        0 <= k <= evs.len(),
    ensures
        newest(evs.push(e), k) == newest(evs, k),
        oldest(evs.push(e), k) == oldest(evs, k),
    decreases k,
{
    if k > 0 {
        lemma_newest_push(evs, e, k - 1);
        assert(evs.push(e)[k - 1] == evs[k - 1]);
    }
}

// ---------------------------------------------------------------------------
// Writing a ledger back

/// Lines, each followed by a newline.
pub open spec fn joined(ls: Seq<Seq<char>>) -> Seq<char>
    decreases ls.len(),
{
    if ls.len() == 0 {
        seq![]
    } else {
        joined(ls.drop_last()) + ls.last() + "\n"@
    }
}

/// The newest `keep` of the lines, in their order: the last ones.
pub open spec fn newest_kept(ls: Seq<Seq<char>>, keep: int) -> Seq<Seq<char>> {
    if ls.len() > keep {
        ls.skip(ls.len() - keep)
    } else {
        ls
    }
}

/// A header line followed by the newest `keep` of the event lines.
pub fn write_kept(header: &str, events: &Vec<Vec<char>>, keep: usize) -> (out: Vec<char>)
    ensures
        out@ == header@ + "\n"@ + joined(newest_kept(views(events@), keep as int)),
{
    let start: usize = if events.len() > keep {
        events.len() - keep
    } else {
        0
    };
    let ghost ev = views(events@);
    let mut out = chars_of(header);
    out.push('\n');
    proof {
        reveal_strlit("\n");
        assert(ev.subrange(start as int, start as int) =~= seq![]);
        assert(out@ =~= header@ + "\n"@ + joined(ev.subrange(start as int, start as int)));
    }
    let mut j: usize = start;
    while j < events.len()
        invariant
            start <= j <= events.len(),
            ev == views(events@),
            out@ == header@ + "\n"@ + joined(ev.subrange(start as int, j as int)),
        decreases events.len() - j,
    {
        let ghost before = out@;
        push_chars(&mut out, &events[j]);
        out.push('\n');
        proof {
            reveal_strlit("\n");
            let s = ev.subrange(start as int, j + 1);
            assert(s.drop_last() =~= ev.subrange(start as int, j as int));
            assert(s.last() == events@[j as int]@);
            assert(joined(s) == joined(s.drop_last()) + s.last() + "\n"@);
            assert(out@ =~= header@ + "\n"@ + joined(s));
        }
        j += 1;
    }
    proof {
        assert(ev.subrange(start as int, events.len() as int) =~= newest_kept(ev, keep as int));
    }
    out
}
// ---------------------------------------------------------------------------
// What a rewritten ledger reads back as

proof fn lemma_skip_space_push(s: Seq<char>, c: char, j: int)
    requires
        0 <= j <= s.len(),
        is_space(c),
    ensures
        crate::text::skip_space(s, j) < s.len() ==> crate::text::skip_space(s.push(c), j) == crate::text::skip_space(s, j),
        crate::text::skip_space(s, j) >= s.len() ==> crate::text::skip_space(s.push(c), j) >= s.len() + 1,
    decreases s.len() - j,
{
    let t = s.push(c);
    if j < s.len() {
        assert(t[j] == s[j]);
        if is_space(s[j]) {
            lemma_skip_space_push(s, c, j + 1);
        }
    } else {
        assert(t[j] == c);
        assert(crate::text::skip_space(t, j + 1) == j + 1);
    }
}

proof fn lemma_run_end_push(s: Seq<char>, c: char, j: int)
    requires
        0 <= j <= s.len(),
        is_space(c),
    ensures
        run_end(s.push(c), j) == run_end(s, j),
    decreases s.len() - j,
{
    let t = s.push(c);
    if j < s.len() {
        assert(t[j] == s[j]);
        if !is_space(s[j]) {
            lemma_run_end_push(s, c, j + 1);
        }
    } else {
        assert(t[j] == c);
    }
}

/// Trailing white space splits off no word.
pub proof fn lemma_words_push_space(s: Seq<char>, c: char)
    requires
        is_space(c),
    ensures
        words(s.push(c)) == words(s),
    decreases s.len(),
{
    let t = s.push(c);
    lemma_skip_space_push(s, c, 0);
    crate::text::lemma_skip_space_bounds(s, 0);
    crate::text::lemma_skip_space_bounds(t, 0);
    let a = crate::text::skip_space(s, 0);
    if a < s.len() {
        lemma_run_end(s, a);
        lemma_run_end_push(s, c, a);
        let b = run_end(s, a);
        assert(b > a);
        assert(t.subrange(a, b) =~= s.subrange(a, b));
        assert(t.skip(b) =~= s.skip(b).push(c));
        lemma_words_push_space(s.skip(b), c);
    }
}

/// Dropping the `\r` of a line ending splits off no word.
pub proof fn lemma_words_strip_cr(l: Seq<char>)
    ensures
        words(crate::text::strip_cr(l)) == words(l),
{
    if l.len() > 0 && l.last() == '\r' {
        assert(l =~= l.drop_last().push('\r'));
        lemma_words_push_space(l.drop_last(), '\r');
    }
}

proof fn lemma_trim_end_spaces(s: Seq<char>)
    ensures
        exists|m: int| 0 <= m <= s.len() && crate::text::trim_end(s) == s.take(m)
            && forall|k: int| m <= k < s.len() ==> is_space(#[trigger] s[k]),
    decreases s.len(),
{
    if s.len() > 0 && is_space(s.last()) {
        lemma_trim_end_spaces(s.drop_last());
        let m = choose|m: int| 0 <= m <= s.drop_last().len() && crate::text::trim_end(s.drop_last()) == s.drop_last().take(m)
            && forall|k: int| m <= k < s.drop_last().len() ==> is_space(#[trigger] s.drop_last()[k]);
        assert(s.drop_last().take(m) =~= s.take(m));
        assert forall|k: int| m <= k < s.len() implies is_space(#[trigger] s[k]) by {
            if k < s.len() - 1 {
                assert(s.drop_last()[k] == s[k]);
            }
        }
    } else {
        assert(s.take(s.len() as int) =~= s);
    }
}

proof fn lemma_trim_start_empty(s: Seq<char>)
    requires
        crate::text::trim_start(s).len() == 0,
    ensures
        forall|k: int| 0 <= k < s.len() ==> is_space(#[trigger] s[k]),
    decreases s.len(),
{
    if s.len() > 0 {
        if is_space(s[0]) {
            lemma_trim_start_empty(s.skip(1));
            assert forall|k: int| 0 <= k < s.len() implies is_space(#[trigger] s[k]) by {
                if k > 0 {
                    assert(s.skip(1)[k - 1] == s[k]);
                }
            }
        }
    }
}

proof fn lemma_all_space_no_words(s: Seq<char>)
    requires
        forall|k: int| 0 <= k < s.len() ==> is_space(#[trigger] s[k]),
    ensures
        words(s) == Seq::<Seq<char>>::empty(),
{
    crate::text::lemma_skip_space_bounds(s, 0);
    if crate::text::skip_space(s, 0) < s.len() {
        assert(!is_space(s[crate::text::skip_space(s, 0)]));
    }
}

/// A blank line holds no word.
pub proof fn lemma_blank_no_words(l: Seq<char>)
    requires
        blank_line(l),
    ensures
        words(l).len() == 0,
{
    lemma_trim_end_spaces(l);
    let m = choose|m: int| 0 <= m <= l.len() && crate::text::trim_end(l) == l.take(m)
        && forall|k: int| m <= k < l.len() ==> is_space(#[trigger] l[k]);
    lemma_trim_start_empty(l.take(m));
    assert forall|k: int| 0 <= k < l.len() implies is_space(#[trigger] l[k]) by {
        if k < m {
            assert(l.take(m)[k] == l[k]);
        }
    }
    lemma_all_space_no_words(l);
}

/// Lines written one per line read back as themselves, less the `\r` of
/// a line ending.
pub proof fn lemma_lines_of_joined(ls: Seq<Seq<char>>)
    requires
        forall|i: int, k: int| 0 <= i < ls.len() && 0 <= k < ls[i].len() ==> #[trigger] ls[i][k] != '\n',
    ensures
        lines_of(joined(ls)) == ls.map_values(|l: Seq<char>| crate::text::strip_cr(l)),
    decreases ls.len(),
{
    reveal_strlit("\n");
    if ls.len() == 0 {
        assert(lines_of(Seq::<char>::empty()) =~= Seq::<Seq<char>>::empty());
        assert(ls.map_values(|l: Seq<char>| crate::text::strip_cr(l)) =~= Seq::<Seq<char>>::empty());
    } else {
        let front = ls.drop_last();
        assert forall|i: int, k: int| 0 <= i < front.len() && 0 <= k < front[i].len() implies #[trigger] front[i][k] != '\n' by {
            assert(front[i] == ls[i]);
        }
        lemma_lines_of_joined(front);
        let last = ls.last();
        let line = last + "\n"@;
        assert(joined(ls) =~= joined(front) + line);
        lemma_joined_ends(front);
        crate::text::lemma_lines_of_append(joined(front), line);
        assert forall|k: int| 0 <= k < last.len() implies line[k] != '\n' by {
            assert(line[k] == ls[ls.len() - 1][k]);
        }
        crate::text::lemma_find_char_at(line, '\n', 0, last.len() as int);
        assert(line.take(last.len() as int) =~= last);
        assert(line.skip((last.len() + 1) as int) =~= Seq::<char>::empty());
        assert(lines_of(Seq::<char>::empty()) =~= Seq::<Seq<char>>::empty());
        assert(lines_of(line) =~= seq![crate::text::strip_cr(last)]);
        assert(ls.map_values(|l: Seq<char>| crate::text::strip_cr(l)) =~= front.map_values(
            |l: Seq<char>| crate::text::strip_cr(l),
        ).push(crate::text::strip_cr(last)));
    }
}

/// A written ledger body ends its last line.
pub proof fn lemma_joined_ends(ls: Seq<Seq<char>>)
    ensures
        joined(ls).len() == 0 || joined(ls).last() == '\n',
{
    reveal_strlit("\n");
}

/// No line `str::lines` gives holds a newline.
pub proof fn lemma_lines_have_no_newline(s: Seq<char>)
    ensures
        forall|i: int, k: int| 0 <= i < lines_of(s).len() && 0 <= k < lines_of(s)[i].len() ==> #[trigger] lines_of(s)[i][k]
            != '\n',
    decreases s.len(),
{
    if s.len() > 0 {
        let p = crate::text::find_char(s, '\n', 0);
        crate::text::lemma_find_char(s, '\n', 0);
        if p < s.len() {
            lemma_lines_have_no_newline(s.skip(p + 1));
            let first = crate::text::strip_cr(s.take(p));
            assert forall|i: int, k: int| 0 <= i < lines_of(s).len() && 0 <= k < lines_of(s)[i].len() implies #[trigger] lines_of(s)[i][k]
                != '\n' by {
                if i == 0 {
                    assert(lines_of(s)[0] == first);
                    assert(first[k] == s.take(p)[k]);
                } else {
                    assert(lines_of(s)[i] == lines_of(s.skip(p + 1))[i - 1]);
                }
            }
        } else {
            assert forall|i: int, k: int| 0 <= i < lines_of(s).len() && 0 <= k < lines_of(s)[i].len() implies #[trigger] lines_of(s)[i][k]
                != '\n' by {
                assert(lines_of(s)[i] == s);
            }
        }
    }
}

} // verus!
