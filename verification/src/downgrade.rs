//! The ledger of problems that did not block: every check that failed while
//! the severity that applied said `warn`.
//!
//! ```text
//! amont-downgrade-v1
//! <unix-epoch> <head-oid> <check-id> <origin>
//! ```
//!
//! This module only counts; nothing here takes part in any verdict.

use vstd::prelude::*;
use crate::text::{chars_of, vec_eq, string_of, slice_of, views, decimal, decimal_chars, push_chars, push_str, split_lines, lines_of};
use crate::ledger::{
    Event, Group, event_views, group_views, groups_of, groups_in_order, newest, oldest, nonblank,
    nonblank_lines, parse_u64, parse_u64_chars, split_words, valid_name, valid_oid, is_valid_name,
    is_valid_oid, words, sort_groups, tally, lemma_groups_permuted, lemma_newest_push, joined, newest_kept, write_kept,
    nonblank_upto, blank_line, lemma_blank_no_words, lemma_words_strip_cr, lemma_lines_of_joined,
    lemma_lines_have_no_newline,
};
use crate::text::{strip_cr, plain_line, lemma_lines_of_append, lemma_lines_of_line};

verus! {

/// First line of the ledger; a ledger under any other header reads as empty.
pub const FORMAT: &'static str = "amont-downgrade-v1";

/// Where the `warn` that let a failure through came from.
#[derive(Debug, Clone, Copy, PartialEq, Eq, Structural)]
pub enum Origin {
    /// A severity override in git config.
    Config,
    /// A policy file's override.
    Policy,
    /// The check's own declared severity.
    Declared,
}

pub open spec fn origin_text(o: Origin) -> Seq<char> {
    match o {
        Origin::Config => "config"@,
        Origin::Policy => "policy"@,
        Origin::Declared => "declared"@,
    }
}

pub open spec fn origin_named(s: Seq<char>) -> Option<Origin> {
    if s == "config"@ {
        Some(Origin::Config)
    } else if s == "policy"@ {
        Some(Origin::Policy)
    } else if s == "declared"@ {
        Some(Origin::Declared)
    } else {
        None
    }
}

/// An override turned a block into a warning: without it, the check would
/// have blocked.
pub open spec fn spec_would_block(o: Origin) -> bool {
    o == Origin::Config || o == Origin::Policy
}

impl Origin {
    pub fn as_str(self) -> (r: &'static str)
        ensures
            r@ == origin_text(self),
    {
        match self {
            Origin::Config => "config",
            Origin::Policy => "policy",
            Origin::Declared => "declared",
        }
    }

    pub fn parse(s: &str) -> (r: Option<Origin>)
        ensures
            r == origin_named(s@),
    {
        Self::parse_chars(&chars_of(s))
    }

    fn parse_chars(s: &Vec<char>) -> (r: Option<Origin>)
        ensures
            r == origin_named(s@),
    {
        proof {
            reveal_strlit("config");
            reveal_strlit("policy");
            reveal_strlit("declared");
        }
        let c = chars_of("config");
        let p = chars_of("policy");
        let d = chars_of("declared");
        if vec_eq(s, &c) {
            Some(Origin::Config)
        } else if vec_eq(s, &p) {
            Some(Origin::Policy)
        } else if vec_eq(s, &d) {
            Some(Origin::Declared)
        } else {
            None
        }
    }

    pub fn would_block(self) -> (r: bool)
        ensures
            r == spec_would_block(self),
    {
        match self {
            Origin::Config | Origin::Policy => true,
            Origin::Declared => false,
        }
    }
}

/// What the ledger says, aggregated.
#[derive(Debug, Clone, PartialEq, Eq)]
pub struct Ledger {
    /// Events on record.
    pub total: usize,
    /// Events whose origin was an override: without it, they would have blocked.
    pub would_block: usize,
    /// Distinct commits the events were recorded against.
    pub commits: usize,
    /// The oldest event's epoch, if any.
    pub first: Option<u64>,
    /// The newest event's epoch, if any.
    pub last: Option<u64>,
    /// Count descending, then check ascending.
    pub by_check: Vec<CheckCount>,
}

/// One check's slice of the ledger.
#[derive(Debug, Clone, PartialEq, Eq)]
pub struct CheckCount {
    pub check: String,
    pub count: usize,
    /// Of `count`, the events an override let through.
    pub would_block: usize,
    /// The newest event for this check.
    pub last: u64,
}

impl Default for Ledger {
    fn default() -> (r: Ledger)
        ensures
            r.total == 0,
            r.would_block == 0,
            r.commits == 0,
            r.first is None,
            r.last is None,
            r.by_check@.len() == 0,
    {
        Ledger { total: 0, would_block: 0, commits: 0, first: None, last: None, by_check: Vec::new() }
    }
}

/// One valid event line: an epoch, a commit id of 7 to 64 hex digits, a
/// check name of 1 to 64 printable ASCII characters and a known origin —
/// exactly four fields. As an epoch, a commit id, a check and an origin.
pub open spec fn event(line: Seq<char>) -> Option<(u64, Seq<char>, Seq<char>, Origin)> {
    let w = words(line);
    if w.len() == 4 && parse_u64(w[0]) is Some && valid_oid(w[1]) && valid_name(w[2], 64)
        && origin_named(w[3]) is Some {
        Some((parse_u64(w[0])->0, w[1], w[2], origin_named(w[3])->0))
    } else {
        None
    }
}

/// The events among non-blank lines `1..k` (line 0 is the header).
pub open spec fn events_upto(nb: Seq<Seq<char>>, k: int) -> Seq<(u64, Seq<char>, Seq<char>, Origin)>
    decreases k,
{
    if k <= 1 {
        seq![]
    } else {
        match event(nb[k - 1]) {
            Some(e) => events_upto(nb, k - 1).push(e),
            None => events_upto(nb, k - 1),
        }
    }
}

/// The ledger's events, in order.
pub open spec fn ledger_events(text: Seq<char>) -> Seq<(u64, Seq<char>, Seq<char>, Origin)> {
    let nb = nonblank_lines(text);
    events_upto(nb, nb.len() as int)
}

/// The first non-blank line is the header.
pub open spec fn has_header(text: Seq<char>) -> bool {
    let nb = nonblank_lines(text);
    nb.len() > 0 && nb[0] == FORMAT@
}

/// The events as the tallies see them: epoch, check, and whether it would
/// have blocked.
pub open spec fn tally_views(evs: Seq<(u64, Seq<char>, Seq<char>, Origin)>) -> Seq<(u64, Seq<char>, bool)> {
    evs.map_values(|e: (u64, Seq<char>, Seq<char>, Origin)| (e.0, e.2, spec_would_block(e.3)))
}

/// How many of the first `k` events would have blocked.
pub open spec fn blocking_upto(evs: Seq<(u64, Seq<char>, Seq<char>, Origin)>, k: int) -> nat
    decreases k,
{
    if k <= 0 {
        0
    } else {
        blocking_upto(evs, k - 1) + if spec_would_block(evs[k - 1].3) {
            1nat
        } else {
            0nat
        }
    }
}

/// The distinct entries among the first `k` of `s`, in order of first
/// appearance.
pub open spec fn firsts(s: Seq<Seq<char>>, k: int) -> Seq<Seq<char>>
    decreases k,
{
    if k <= 0 {
        seq![]
    } else {
        let p = firsts(s, k - 1);
        if p.contains(s[k - 1]) {
            p
        } else {
            p.push(s[k - 1])
        }
    }
}

/// The commit ids the events carry, in order.
pub open spec fn commit_ids(evs: Seq<(u64, Seq<char>, Seq<char>, Origin)>) -> Seq<Seq<char>> {
    evs.map_values(|e: (u64, Seq<char>, Seq<char>, Origin)| e.1)
}

/// How many distinct commits the events were recorded against.
pub open spec fn distinct_commits(evs: Seq<(u64, Seq<char>, Seq<char>, Origin)>) -> nat {
    firsts(commit_ids(evs), evs.len() as int).len()
}

pub open spec fn check_view(c: CheckCount) -> (Seq<char>, usize, usize, u64) {
    (c.check@, c.count, c.would_block, c.last)
}

pub open spec fn check_views(cs: Seq<CheckCount>) -> Seq<(Seq<char>, usize, usize, u64)> {
    cs.map_values(|c: CheckCount| check_view(c))
}

struct RawEvent {
    epoch: u64,
    oid: Vec<char>,
    check: Vec<char>,
    origin: Origin,
}

spec fn raw_view(e: RawEvent) -> (u64, Seq<char>, Seq<char>, Origin) {
    (e.epoch, e.oid@, e.check@, e.origin)
}

fn event_exec(line: &Vec<char>) -> (r: Option<RawEvent>)
    ensures
        match r {
            Some(e) => event(line@) == Some(raw_view(e)),
            None => event(line@) is None,
        },
{
    let w = split_words(line);
    if w.len() != 4 {
        return None;
    }
    assert(views(w@)[0] == w@[0]@ && views(w@)[1] == w@[1]@ && views(w@)[2] == w@[2]@ && views(w@)[3] == w@[3]@);
    match parse_u64_chars(&w[0]) {
        Some(epoch) => {
            if is_valid_oid(&w[1]) && is_valid_name(&w[2], 64) {
                match Origin::parse_chars(&w[3]) {
                    Some(origin) => {
                        let oid = slice_of(&w[1], 0, w[1].len());
                        let check = slice_of(&w[2], 0, w[2].len());
                        assert(oid@ =~= w@[1]@);
                        assert(check@ =~= w@[2]@);
                        Some(RawEvent { epoch, oid, check, origin })
                    },
                    None => None,
                }
            } else {
                None
            }
        },
        None => None,
    }
}

/// Aggregate a ledger's text. A malformed line is skipped, never guessed at,
/// and a missing or foreign header reads as an empty ledger.
pub fn parse(text: &str) -> (r: Ledger)
    ensures
        !has_header(text@) ==> r.total == 0 && r.would_block == 0 && r.commits == 0
            && r.first is None && r.last is None && r.by_check@.len() == 0,
        has_header(text@) ==> {
            let evs = ledger_events(text@);
            let tv = tally_views(evs);
            &&& r.total == evs.len()
            &&& r.would_block == blocking_upto(evs, evs.len() as int)
            &&& r.commits == distinct_commits(evs)
            &&& r.first == oldest(tv, tv.len() as int)
            &&& r.last == newest(tv, tv.len() as int)
            &&& groups_of(tv, check_views(r.by_check@))
            &&& groups_in_order(check_views(r.by_check@))
            &&& check_views(r.by_check@) == crate::ledger::tally_of(tv)
        },
{
    let nb = nonblank(text);
    let format = chars_of(FORMAT);
    if nb.len() == 0 || !vec_eq(&nb[0], &format) {
        proof {
            if nb@.len() > 0 {
                assert(views(nb@)[0] == nb@[0]@);
            }
        }
        return Ledger::default();
    }
    assert(views(nb@)[0] == nb@[0]@);
    let ghost nbv = views(nb@);
    let mut raws: Vec<RawEvent> = Vec::new();
    let mut events: Vec<Event> = Vec::new();
    let mut oids: Vec<Vec<char>> = Vec::new();
    let mut blocking: usize = 0;
    let mut first: Option<u64> = None;
    let mut last: Option<u64> = None;
    let mut k: usize = 1;
    while k < nb.len()
        invariant
            1 <= k <= nb.len(),
            nbv == views(nb@),
            raws@.map_values(|e: RawEvent| raw_view(e)) == events_upto(nbv, k as int),
            event_views(events@) == tally_views(events_upto(nbv, k as int)),
            raws@.len() <= k,
            blocking == blocking_upto(events_upto(nbv, k as int), raws@.len() as int),
            blocking <= raws@.len(),
            views(oids@) == firsts(commit_ids(events_upto(nbv, k as int)), raws@.len() as int),
            first == oldest(event_views(events@), events@.len() as int),
            last == newest(event_views(events@), events@.len() as int),
        decreases nb.len() - k,
    {
        assert(nbv[k as int] == nb@[k as int]@);
        let ghost prev = events_upto(nbv, k as int);
        match event_exec(&nb[k]) {
            Some(e) => {
                let ghost ev = raw_view(e);
                let ghost before_raw = raws@.map_values(|e: RawEvent| raw_view(e));
                let ghost before_ev = event_views(events@);
                let wb = e.origin.would_block();
                // distinct commits
                let mut i: usize = 0;
                while i < oids.len() && !vec_eq(&oids[i], &e.oid)
                    invariant
                        i <= oids@.len(),
                        forall|j: int| 0 <= j < i ==> oids@[j]@ != e.oid@,
                    decreases oids.len() - i,
                {
                    i += 1;
                }
                let ghost cur = prev.push(ev);
                let ghost before_oids = views(oids@);
                proof {
                    assert(cur.take(prev.len() as int) =~= prev);
                    lemma_prefix_stable(prev, ev, prev.len() as int);
                    assert(commit_ids(cur) =~= commit_ids(prev).push(ev.1));
                    lemma_firsts_push(commit_ids(prev), ev.1, prev.len() as int);
                    if i < oids.len() {
                        assert(before_oids[i as int] == e.oid@);
                        assert(before_oids.contains(e.oid@));
                    } else {
                        assert forall|j: int| 0 <= j < before_oids.len() implies before_oids[j] != e.oid@ by {
                            assert(before_oids[j] == oids@[j]@);
                        }
                        assert(!before_oids.contains(e.oid@));
                    }
                }
                if i == oids.len() {
                    let copy = slice_of(&e.oid, 0, e.oid.len());
                    assert(copy@ =~= e.oid@);
                    oids.push(copy);
                    assert(views(oids@) =~= before_oids.push(e.oid@));
                }
                if wb {
                    blocking += 1;
                }
                first = match first {
                    Some(p) => Some(if e.epoch < p { e.epoch } else { p }),
                    None => Some(e.epoch),
                };
                last = match last {
                    Some(p) => Some(if e.epoch > p { e.epoch } else { p }),
                    None => Some(e.epoch),
                };
                let check = slice_of(&e.check, 0, e.check.len());
                assert(check@ =~= e.check@);
                let tv = Event { epoch: e.epoch, name: check, blocking: wb };
                events.push(tv);
                raws.push(e);
                proof {
                    assert(raws@.map_values(|e: RawEvent| raw_view(e)) =~= before_raw.push(ev));
                    assert(event_views(events@) =~= before_ev.push((ev.0, ev.2, spec_would_block(ev.3))));
                    assert(tally_views(cur) =~= tally_views(prev).push((ev.0, ev.2, spec_would_block(ev.3))));
                    lemma_newest_push(before_ev, (ev.0, ev.2, spec_would_block(ev.3)), before_ev.len() as int);
                }
            },
            None => {},
        }
        k += 1;
    }
    let ghost evs = event_views(events@);
    let groups = tally(&events);
    let ghost gv = group_views(groups@);
    let sorted = sort_groups(groups);
    proof {
        lemma_groups_permuted(evs, gv, group_views(sorted@));
    }
    let mut by_check: Vec<CheckCount> = Vec::new();
    let mut j: usize = 0;
    while j < sorted.len()
        invariant
            j <= sorted.len(),
            check_views(by_check@) == group_views(sorted@).take(j as int),
        decreases sorted.len() - j,
    {
        let g = &sorted[j];
        let ghost before = check_views(by_check@);
        by_check.push(CheckCount { check: string_of(&g.name), count: g.count, would_block: g.blocking, last: g.last });
        proof {
            assert(group_views(sorted@)[j as int] == crate::ledger::group_view(*g));
            assert(check_views(by_check@) =~= before.push(crate::ledger::group_view(*g)));
            assert(group_views(sorted@).take(j + 1) =~= group_views(sorted@).take(j as int).push(
                group_views(sorted@)[j as int],
            ));
        }
        j += 1;
    }
    proof {
        assert(group_views(sorted@).take(sorted@.len() as int) =~= group_views(sorted@));
    }
    let r = Ledger { total: raws.len(), would_block: blocking, commits: oids.len(), first, last, by_check };
    proof {
        let tv = tally_views(ledger_events(text@));
        assert(groups_of(tv, check_views(r.by_check@)));
        assert(groups_in_order(check_views(r.by_check@)));
        crate::ledger::lemma_tally_unique(tv, check_views(r.by_check@));
    }
    r
}

/// What a prefix of the events says does not change when an event is added.
proof fn lemma_prefix_stable(evs: Seq<(u64, Seq<char>, Seq<char>, Origin)>, e: (u64, Seq<char>, Seq<char>, Origin), k: int)
    requires
        0 <= k <= evs.len(),
    ensures
        blocking_upto(evs.push(e), k) == blocking_upto(evs, k),
    decreases k,
{
    if k > 0 {
        lemma_prefix_stable(evs, e, k - 1);
        assert(evs.push(e)[k - 1] == evs[k - 1]);
    }
}

pub proof fn lemma_firsts_push(s: Seq<Seq<char>>, x: Seq<char>, k: int)
    requires
        0 <= k <= s.len(),
    ensures
        firsts(s.push(x), k) == firsts(s, k),
    decreases k,
{
    if k > 0 {
        lemma_firsts_push(s, x, k - 1);
        assert(s.push(x)[k - 1] == s[k - 1]);
    }
}


// ---------------------------------------------------------------------------
// Writing the ledger

/// Past this size the ledger is compacted before the next append — about
/// 5,500 events, well above a fortnight of trial volume.
pub const MAX_BYTES: u64 = 262144;

/// The events a compaction keeps, the newest ones. After a compaction the
/// total is a floor, not an exact count.
pub const KEEP: usize = 2000;

/// The lines among `ls[0..k]` that are events, as they were written.
pub open spec fn event_lines_upto(ls: Seq<Seq<char>>, k: int) -> Seq<Seq<char>>
    decreases k,
{
    if k <= 0 {
        seq![]
    } else if event(ls[k - 1]) is Some {
        event_lines_upto(ls, k - 1).push(ls[k - 1])
    } else {
        event_lines_upto(ls, k - 1)
    }
}

/// A compacted ledger: the header, then the newest `KEEP` event lines.
pub open spec fn spec_compacted(text: Seq<char>) -> Seq<char> {
    let ls = lines_of(text);
    FORMAT@ + "\n"@ + joined(newest_kept(event_lines_upto(ls, ls.len() as int), KEEP as int))
}

/// What compaction writes back over `text`: the header and the newest
/// events exactly as written; every other line is dropped.
pub fn compacted(text: &str) -> (r: String)
    ensures
        r@ == spec_compacted(text@),
{
    let ls = split_lines(&chars_of(text));
    let mut ev: Vec<Vec<char>> = Vec::new();
    let mut k: usize = 0;
    while k < ls.len()
        invariant
            k <= ls.len(),
            views(ls@) == lines_of(text@),
            views(ev@) == event_lines_upto(views(ls@), k as int),
        decreases ls.len() - k,
    {
        assert(views(ls@)[k as int] == ls@[k as int]@);
        if event_exec(&ls[k]).is_some() {
            let l = slice_of(&ls[k], 0, ls[k].len());
            assert(l@ =~= ls@[k as int]@);
            let ghost before = views(ev@);
            ev.push(l);
            assert(views(ev@) =~= before.push(l@));
        }
        k += 1;
    }
    string_of(&write_kept(FORMAT, &ev, KEEP))
}

/// One event line: `<epoch> <commit> <check> <origin>`.
pub open spec fn event_line(now: u64, commit: Seq<char>, check: Seq<char>, origin: Origin) -> Seq<char> {
    decimal(now as nat) + " "@ + commit + " "@ + check + " "@ + origin_text(origin)
}

/// The lines one append adds: one per downgraded check, all at `now`
/// against `commit`.
pub fn event_lines(now: u64, commit: &str, events: &[(String, Origin)]) -> (r: String)
    ensures
        r@ == joined(events@.map_values(|e: (String, Origin)| event_line(now, commit@, e.0@, e.1))),
{
    let ghost ls = events@.map_values(|e: (String, Origin)| event_line(now, commit@, e.0@, e.1));
    let mut out: Vec<char> = Vec::new();
    let mut k: usize = 0;
    proof {
        assert(ls.take(0) =~= seq![]);
    }
    while k < events.len()
        invariant
            k <= events@.len(),
            ls == events@.map_values(|e: (String, Origin)| event_line(now, commit@, e.0@, e.1)),
            out@ == joined(ls.take(k as int)),
        decreases events.len() - k,
    {
        push_chars(&mut out, &decimal_chars(now));
        push_str(&mut out, " ");
        push_str(&mut out, commit);
        push_str(&mut out, " ");
        push_str(&mut out, events[k].0.as_str());
        push_str(&mut out, " ");
        push_str(&mut out, events[k].1.as_str());
        push_str(&mut out, "\n");
        proof {
            reveal_strlit(" ");
            reveal_strlit("\n");
            let t = ls.take(k + 1);
            assert(t.drop_last() =~= ls.take(k as int));
            assert(t.last() == event_line(now, commit@, events@[k as int].0@, events@[k as int].1));
            assert(out@ =~= joined(t));
        }
        k += 1;
    }
    proof {
        assert(ls.take(events@.len() as int) =~= ls);
    }
    string_of(&out)
}
/// Every origin reads back as itself from the word the ledger writes.
pub proof fn origin_text_round_trips(o: Origin)
    ensures
        origin_named(origin_text(o)) == Some(o),
{
    reveal_strlit("config");
    reveal_strlit("policy");
    reveal_strlit("declared");
    assert("config"@[0] != "policy"@[0]);
    assert("declared"@.len() != "config"@.len());
}

// ---------------------------------------------------------------------------
// What a compacted ledger reads back as

/// The events the lines carry, in order.
pub open spec fn event_values(ls: Seq<Seq<char>>) -> Seq<(u64, Seq<char>, Seq<char>, Origin)> {
    ls.map_values(|l: Seq<char>| event(l)->0)
}

proof fn lemma_event_not_blank(l: Seq<char>)
    ensures
        event(l) is Some ==> !blank_line(l),
{
    if blank_line(l) {
        lemma_blank_no_words(l);
    }
}

proof fn lemma_nonblank_prefix(ls: Seq<Seq<char>>, j: int, k: int)
    requires
        0 <= j <= k <= ls.len(),
    ensures
        nonblank_upto(ls, j).len() <= nonblank_upto(ls, k).len(),
        forall|i: int| 0 <= i < nonblank_upto(ls, j).len() ==> #[trigger] nonblank_upto(ls, j)[i] == nonblank_upto(ls, k)[i],
    decreases k - j,
{
    if j < k {
        lemma_nonblank_prefix(ls, j, k - 1);
    }
}

proof fn lemma_events_push(nb: Seq<Seq<char>>, x: Seq<char>, j: int)
    requires
        j <= nb.len(),
    ensures
        events_upto(nb.push(x), j) == events_upto(nb, j),
    decreases j,
{
    if j > 1 {
        lemma_events_push(nb, x, j - 1);
        assert(nb.push(x)[j - 1] == nb[j - 1]);
    }
}

/// Below a header that is no event, the events of the non-blank lines are
/// the events among all the lines.
proof fn lemma_events_of_lines(ls: Seq<Seq<char>>, k: int)
    requires
        0 <= k <= ls.len(),
        nonblank_upto(ls, ls.len() as int).len() > 0,
        event(nonblank_upto(ls, ls.len() as int)[0]) is None,
    ensures
        events_upto(nonblank_upto(ls, k), nonblank_upto(ls, k).len() as int) == event_values(event_lines_upto(ls, k)),
    decreases k,
{
    if k == 0 {
        assert(event_values(Seq::<Seq<char>>::empty()) =~= Seq::<(u64, Seq<char>, Seq<char>, Origin)>::empty());
    } else {
        lemma_events_of_lines(ls, k - 1);
        let x = ls[k - 1];
        let nb = nonblank_upto(ls, k - 1);
        lemma_event_not_blank(x);
        if blank_line(x) {
        } else {
            lemma_nonblank_prefix(ls, k, ls.len() as int);
            let nb2 = nb.push(x);
            lemma_events_push(nb, x, nb.len() as int);
            if nb.len() == 0 {
                assert(nb2[0] == x);
                assert(event_values(event_lines_upto(ls, k - 1)).len() == 0);
                assert(event_lines_upto(ls, k - 1).len() == 0);
                assert(event_values(event_lines_upto(ls, k)) =~= Seq::<(u64, Seq<char>, Seq<char>, Origin)>::empty());
            } else {
                assert(nb2[nb.len() as int] == x);
                assert(event_values(event_lines_upto(ls, k)) =~= (if event(x) is Some {
                    event_values(event_lines_upto(ls, k - 1)).push(event(x)->0)
                } else {
                    event_values(event_lines_upto(ls, k - 1))
                }));
            }
        }
    }
}

proof fn lemma_event_lines_plain(ls: Seq<Seq<char>>, k: int)
    requires
        0 <= k <= ls.len(),
        forall|i: int, m: int| 0 <= i < ls.len() && 0 <= m < ls[i].len() ==> #[trigger] ls[i][m] != '\n',
    ensures
        forall|i: int, m: int| 0 <= i < event_lines_upto(ls, k).len() && 0 <= m < event_lines_upto(ls, k)[i].len()
            ==> #[trigger] event_lines_upto(ls, k)[i][m] != '\n',
        forall|i: int| 0 <= i < event_lines_upto(ls, k).len() ==> event(#[trigger] event_lines_upto(ls, k)[i]) is Some,
    decreases k,
{
    if k > 0 {
        lemma_event_lines_plain(ls, k - 1);
        let before = event_lines_upto(ls, k - 1);
        assert forall|i: int, m: int| 0 <= i < event_lines_upto(ls, k).len() && 0 <= m < event_lines_upto(ls, k)[i].len()
            implies #[trigger] event_lines_upto(ls, k)[i][m] != '\n' by {
            if i < before.len() {
                assert(event_lines_upto(ls, k)[i] == before[i]);
            } else {
                assert(event_lines_upto(ls, k)[i] == ls[k - 1]);
            }
        }
        assert forall|i: int| 0 <= i < event_lines_upto(ls, k).len() implies event(#[trigger] event_lines_upto(ls, k)[i]) is Some by {
            if i < before.len() {
                assert(event_lines_upto(ls, k)[i] == before[i]);
            }
        }
    }
}

/// Lines that are all events, under a header line that is not, read as
/// those events.
proof fn lemma_events_of_kept(f: Seq<char>, kept: Seq<Seq<char>>, k: int)
    requires
        !blank_line(f),
        forall|i: int| 0 <= i < kept.len() ==> event(#[trigger] kept[i]) is Some,
        0 <= k <= kept.len(),
    ensures
        nonblank_upto(seq![f] + kept.map_values(|l: Seq<char>| strip_cr(l)), k + 1)
            == seq![f] + kept.take(k).map_values(|l: Seq<char>| strip_cr(l)),
        events_upto(seq![f] + kept.map_values(|l: Seq<char>| strip_cr(l)), k + 1) == event_values(kept.take(k)),
    decreases k,
{
    let all = seq![f] + kept.map_values(|l: Seq<char>| strip_cr(l));
    if k == 0 {
        assert(all[0] == f);
        assert(nonblank_upto(all, 0) =~= Seq::<Seq<char>>::empty());
        assert(kept.take(0).map_values(|l: Seq<char>| strip_cr(l)) =~= Seq::<Seq<char>>::empty());
        assert(seq![f] + kept.take(0).map_values(|l: Seq<char>| strip_cr(l)) =~= seq![f]);
        assert(event_values(kept.take(0)) =~= Seq::<(u64, Seq<char>, Seq<char>, Origin)>::empty());
    } else {
        lemma_events_of_kept(f, kept, k - 1);
        let l = kept[k - 1];
        assert(all[k] == strip_cr(l));
        lemma_words_strip_cr(l);
        assert(event(strip_cr(l)) == event(l));
        lemma_event_not_blank(strip_cr(l));
        assert(kept.take(k) =~= kept.take(k - 1).push(l));
        assert(kept.take(k).map_values(|l: Seq<char>| strip_cr(l)) =~= kept.take(k - 1).map_values(
            |l: Seq<char>| strip_cr(l),
        ).push(strip_cr(l)));
        assert(event_values(kept.take(k)) =~= event_values(kept.take(k - 1)).push(event(l)->0));
    }
}

/// Compaction keeps what the ledger says of its newest events: read back,
/// a compacted ledger holds exactly the newest `KEEP` events of the one it
/// replaced, under the same header.
pub proof fn compaction_keeps_the_newest_events(text: Seq<char>)
    requires
        has_header(text),
    ensures
        has_header(spec_compacted(text)),
        ledger_events(spec_compacted(text)) == (if ledger_events(text).len() > KEEP {
            ledger_events(text).skip(ledger_events(text).len() - KEEP)
        } else {
            ledger_events(text)
        }),
{
    reveal_strlit("\n");
    reveal_strlit("amont-downgrade-v1");
    let ls = lines_of(text);
    let n = ls.len() as int;
    let f = FORMAT@;
    assert(words(f).len() != 4) by {
        crate::ledger::lemma_words_single(f);
    }
    lemma_events_of_lines(ls, n);
    let e = event_lines_upto(ls, n);
    lemma_lines_have_no_newline(text);
    lemma_event_lines_plain(ls, n);
    let kept = newest_kept(e, KEEP as int);
    assert forall|i: int| 0 <= i < kept.len() implies event(#[trigger] kept[i]) is Some by {
        if e.len() > KEEP {
            assert(kept[i] == e[i + e.len() - KEEP]);
        }
    }
    assert forall|i: int, m: int| 0 <= i < kept.len() && 0 <= m < kept[i].len() implies #[trigger] kept[i][m] != '\n' by {
        if e.len() > KEEP {
            assert(kept[i] == e[i + e.len() - KEEP]);
        }
    }
    lemma_lines_of_joined(kept);
    assert(plain_line(f));
    lemma_lines_of_line(f);
    crate::ledger::lemma_joined_ends(kept);
    let c = spec_compacted(text);
    assert(c =~= (f + "\n"@) + joined(kept));
    lemma_lines_of_append(f + "\n"@, joined(kept));
    let cl = lines_of(c);
    assert(cl =~= seq![f] + kept.map_values(|l: Seq<char>| strip_cr(l)));
    assert(!blank_line(f)) by {
        crate::ledger::lemma_words_single(f);
        if blank_line(f) {
            lemma_blank_no_words(f);
        }
    }
    lemma_events_of_kept(f, kept, kept.len() as int);
    assert(kept.take(kept.len() as int) =~= kept);
    assert(cl.len() == kept.len() + 1);
    let evs = event_values(e);
    if e.len() > KEEP {
        assert(event_values(kept) =~= evs.skip(evs.len() - KEEP));
    }
}


// ---------------------------------------------------------------------------
// What an append reads back as

proof fn lemma_events_prefix(nb: Seq<Seq<char>>, c: Seq<Seq<char>>, j: int)
    requires
        0 <= j <= nb.len() <= c.len(),
        forall|i: int| 0 <= i < nb.len() ==> #[trigger] c[i] == nb[i],
    ensures
        events_upto(c, j) == events_upto(nb, j),
    decreases j,
{
    if j > 1 {
        lemma_events_prefix(nb, c, j - 1);
        assert(c[j - 1] == nb[j - 1]);
    }
}

proof fn lemma_events_append(nb: Seq<Seq<char>>, ls: Seq<Seq<char>>, k: int)
    requires
        nb.len() >= 1,
        0 <= k <= ls.len(),
        forall|i: int| 0 <= i < ls.len() ==> event(#[trigger] ls[i]) is Some,
    ensures
        events_upto(nb + ls, nb.len() + k) == events_upto(nb, nb.len() as int) + event_values(ls.take(k)),
    decreases k,
{
    if k == 0 {
        lemma_events_prefix(nb, nb + ls, nb.len() as int);
        assert(event_values(ls.take(0)) =~= Seq::<(u64, Seq<char>, Seq<char>, Origin)>::empty());
        assert(events_upto(nb, nb.len() as int) + event_values(ls.take(0)) =~= events_upto(nb, nb.len() as int));
    } else {
        lemma_events_append(nb, ls, k - 1);
        assert((nb + ls)[nb.len() + k - 1] == ls[k - 1]);
        assert(event(ls[k - 1]) is Some);
        assert(ls.take(k) =~= ls.take(k - 1).push(ls[k - 1]));
        assert(event_values(ls.take(k)) =~= event_values(ls.take(k - 1)).push(event(ls[k - 1])->0));
    }
}

proof fn lemma_origin_word(o: Origin)
    ensures
        crate::ledger::is_word(origin_text(o)),
        forall|k: int| 0 <= k < origin_text(o).len() ==> 'a' <= #[trigger] origin_text(o)[k] <= 'z',
{
    reveal_strlit("config");
    reveal_strlit("policy");
    reveal_strlit("declared");
    assert forall|k: int| 0 <= k < origin_text(o).len() implies !crate::text::is_space(#[trigger] origin_text(o)[k]) by {
        assert('a' <= origin_text(o)[k] <= 'z');
    }
}

/// One written event line reads back as the event it records.
proof fn lemma_event_line_reads_back(now: u64, commit: Seq<char>, check: Seq<char>, origin: Origin)
    requires
        valid_oid(commit),
        valid_name(check, 64),
    ensures
        event(event_line(now, commit, check, origin)) == Some((now, commit, check, origin)),
        plain_line(event_line(now, commit, check, origin)),
{
    reveal_strlit(" ");
    let l = event_line(now, commit, check, origin);
    let o = origin_text(origin);
    let fields = seq![decimal(now as nat), commit, check, o];
    crate::ledger::lemma_decimal_reads_back(now);
    lemma_origin_word(origin);
    origin_text_round_trips(origin);
    assert(crate::ledger::is_word(commit)) by {
        assert forall|k: int| 0 <= k < commit.len() implies !crate::text::is_space(#[trigger] commit[k]) by {
            assert(crate::ledger::is_hex(commit[k]));
        }
    }
    assert(crate::ledger::is_word(check)) by {
        assert forall|k: int| 0 <= k < check.len() implies !crate::text::is_space(#[trigger] check[k]) by {
            assert('!' <= check[k] <= '~');
        }
    }
    assert(fields.skip(1).skip(1).skip(1) =~= seq![o]);
    assert(crate::ledger::spaced(fields.skip(1).skip(1).skip(1)) == o);
    assert(crate::ledger::spaced(fields.skip(1).skip(1)) =~= check + " "@ + o);
    assert(crate::ledger::spaced(fields.skip(1)) =~= commit + " "@ + check + " "@ + o);
    assert(crate::ledger::spaced(fields) =~= l);
    crate::ledger::lemma_words_of_fields(fields);
    let d = decimal(now as nat);
    let c1 = d.len() + 1 + commit.len();
    let c2 = c1 + 1 + check.len();
    assert forall|k: int| 0 <= k < l.len() implies l[k] != '\n' by {
        if k < d.len() {
            assert(l[k] == d[k]);
            assert(crate::ledger::is_digit(d[k]));
        } else if k == d.len() {
        } else if k < c1 {
            assert(l[k] == commit[k - d.len() - 1]);
            assert(crate::ledger::is_hex(commit[k - d.len() - 1]));
        } else if k == c1 {
        } else if k < c2 {
            assert(l[k] == check[k - c1 - 1]);
            assert('!' <= check[k - c1 - 1] <= '~');
        } else if k == c2 {
        } else {
            assert(l[k] == o[k - c2 - 1]);
        }
    }
    assert(o.len() > 0);
    assert(l.last() == o.last());
    assert('a' <= o[o.len() - 1] <= 'z');
}

/// A new ledger file, before its first append, holds the header alone.
pub proof fn a_new_ledger_holds_no_events()
    ensures
        has_header(FORMAT@ + "\n"@),
        ledger_events(FORMAT@ + "\n"@).len() == 0,
{
    reveal_strlit("\n");
    reveal_strlit("amont-downgrade-v1");
    let f = FORMAT@;
    assert(plain_line(f));
    lemma_lines_of_line(f);
    assert(!blank_line(f)) by {
        crate::ledger::lemma_words_single(f);
        if blank_line(f) {
            lemma_blank_no_words(f);
        }
    }
    assert(nonblank_upto(seq![f], 0) =~= Seq::<Seq<char>>::empty());
    assert(nonblank_lines(f + "\n"@) =~= seq![f]);
}

/// A ledger reads back what an append wrote: appending the event lines for
/// `events` at `now` against `commit` to a ledger that ends its last line
/// keeps the header and adds exactly one event per downgraded check, in
/// order, after the events it held.
pub proof fn appended_events_read_back(text: Seq<char>, now: u64, commit: Seq<char>, events: Seq<(Seq<char>, Origin)>)
    requires
        has_header(text),
        text.last() == '\n',
        valid_oid(commit),
        forall|i: int| 0 <= i < events.len() ==> valid_name(#[trigger] events[i].0, 64),
    ensures
        ({
            let after = text + joined(events.map_values(|e: (Seq<char>, Origin)| event_line(now, commit, e.0, e.1)));
            &&& has_header(after)
            &&& ledger_events(after) == ledger_events(text) + events.map_values(
                |e: (Seq<char>, Origin)| (now, commit, e.0, e.1),
            )
        }),
{
    let ls = events.map_values(|e: (Seq<char>, Origin)| event_line(now, commit, e.0, e.1));
    let after = text + joined(ls);
    assert forall|i: int| 0 <= i < ls.len() implies event(#[trigger] ls[i]) == Some((now, commit, events[i].0, events[i].1)) && plain_line(ls[i]) by {
        lemma_event_line_reads_back(now, commit, events[i].0, events[i].1);
    }
    assert forall|i: int, m: int| 0 <= i < ls.len() && 0 <= m < ls[i].len() implies #[trigger] ls[i][m] != '\n' by {
        assert(plain_line(ls[i]));
    }
    lemma_lines_of_append(text, joined(ls));
    lemma_lines_of_joined(ls);
    assert(ls.map_values(|l: Seq<char>| strip_cr(l)) =~= ls) by {
        assert forall|i: int| 0 <= i < ls.len() implies strip_cr(ls[i]) == ls[i] by {
            assert(plain_line(ls[i]));
        }
    }
    let a = lines_of(text);
    assert(lines_of(after) == a + ls);
    assert forall|i: int| 0 <= i < ls.len() implies !blank_line(#[trigger] ls[i]) by {
        lemma_event_not_blank(ls[i]);
    }
    crate::ledger::lemma_nonblank_append(a, ls, ls.len() as int);
    assert(ls.take(ls.len() as int) =~= ls);
    let nb = nonblank_lines(text);
    assert(nonblank_lines(after) == nb + ls);
    assert((nb + ls)[0] == nb[0]);
    assert forall|i: int| 0 <= i < ls.len() implies event(#[trigger] ls[i]) is Some by {}
    lemma_events_append(nb, ls, ls.len() as int);
    assert(event_values(ls) =~= events.map_values(|e: (Seq<char>, Origin)| (now, commit, e.0, e.1)));
}

} // verus!
