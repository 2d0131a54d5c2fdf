//! The ledger of unverified commits: one line per gate-declared script a
//! commit was covered by but created without.
//!
//! ```text
//! amont-bypass-v1
//! <unix-epoch> <commit-oid> <script>
//! ```
//!
//! This module only counts; nothing here takes part in any decision.

use vstd::prelude::*;
use crate::text::{chars_of, vec_eq, string_of, slice_of, views, decimal, decimal_chars, push_chars, push_str, split_lines, lines_of};
use crate::ledger::{
    Event, Group, event_views, group_views, groups_of, groups_in_order, newest, nonblank,
    nonblank_lines, parse_u64, parse_u64_chars, split_words, valid_name, valid_oid, is_valid_name,
    is_valid_oid, words, sort_groups, tally, lemma_groups_permuted, joined, newest_kept, write_kept,
    nonblank_upto, blank_line, lemma_blank_no_words, lemma_words_strip_cr, lemma_lines_of_joined,
    lemma_lines_have_no_newline,
};
use crate::text::{strip_cr, plain_line, lemma_lines_of_append, lemma_lines_of_line};

verus! {

/// First line of the ledger; a ledger under any other header reads as empty.
pub const FORMAT: &'static str = "amont-bypass-v1";

/// What the ledger says, aggregated.
#[derive(Debug, Clone, PartialEq, Eq)]
pub struct Ledger {
    /// Events on record.
    pub total: usize,
    /// The newest event's epoch, if any.
    pub last: Option<u64>,
    /// Count descending, then script ascending.
    pub by_script: Vec<ScriptCount>,
}

/// One script's slice of the ledger.
#[derive(Debug, Clone, PartialEq, Eq)]
pub struct ScriptCount {
    pub script: String,
    pub count: usize,
    /// The newest event for this script.
    pub last: u64,
}

impl Default for Ledger {
    fn default() -> (r: Ledger)
        ensures
            r.total == 0,
            r.last is None,
            r.by_script@.len() == 0,
    {
        Ledger { total: 0, last: None, by_script: Vec::new() }
    }
}

/// One valid event line: an epoch, a commit id of 7 to 64 hex digits, and a
/// script name of 1 to 32 printable ASCII characters — exactly three fields.
pub open spec fn event(line: Seq<char>) -> Option<(u64, Seq<char>, bool)> {
    let w = words(line);
    if w.len() == 3 && parse_u64(w[0]) is Some && valid_oid(w[1]) && valid_name(w[2], 32) {
        Some((parse_u64(w[0])->0, w[2], false))
    } else {
        None
    }
}

/// The events among non-blank lines `1..k` (line 0 is the header).
pub open spec fn events_upto(nb: Seq<Seq<char>>, k: int) -> Seq<(u64, Seq<char>, bool)>
    decreases k,
{
    if k <= 1 {
        seq![]
    } else {
        match event(nb[k - 1]) {
            Some(e) => events_upto(nb, k - 1).push(e),
            None => events_upto(nb, k - 1),
        }
    }
}

/// The ledger's events, in order; none without the header.
pub open spec fn ledger_events(text: Seq<char>) -> Seq<(u64, Seq<char>, bool)> {
    let nb = nonblank_lines(text);
    events_upto(nb, nb.len() as int)
}

/// The first non-blank line is the header.
pub open spec fn has_header(text: Seq<char>) -> bool {
    let nb = nonblank_lines(text);
    nb.len() > 0 && nb[0] == FORMAT@
}

pub open spec fn script_view(c: ScriptCount) -> (Seq<char>, usize, usize, u64) {
    (c.script@, c.count, 0usize, c.last)
}

pub open spec fn script_views(cs: Seq<ScriptCount>) -> Seq<(Seq<char>, usize, usize, u64)> {
    cs.map_values(|c: ScriptCount| script_view(c))
}

fn event_exec(line: &Vec<char>) -> (r: Option<Event>)
    ensures
        match r {
            Some(e) => event(line@) == Some(crate::ledger::event_view(e)),
            None => event(line@) is None,
        },
{
    let w = split_words(line);
    if w.len() != 3 {
        return None;
    }
    assert(views(w@)[0] == w@[0]@ && views(w@)[1] == w@[1]@ && views(w@)[2] == w@[2]@);
    match parse_u64_chars(&w[0]) {
        Some(epoch) => {
            if is_valid_oid(&w[1]) && is_valid_name(&w[2], 32) {
                let name = slice_of(&w[2], 0, w[2].len());
                assert(name@ =~= w@[2]@);
                Some(Event { epoch, name, blocking: false })
            } else {
                None
            }
        },
        None => None,
    }
}

/// Aggregate a ledger's text. A malformed line is skipped, never guessed at,
/// and a missing or foreign header reads as an empty ledger.
pub fn parse(text: &str) -> (r: Ledger)
    ensures
        !has_header(text@) ==> r.total == 0 && r.last is None && r.by_script@.len() == 0,
        has_header(text@) ==> {
            let evs = ledger_events(text@);
            &&& r.total == evs.len()
            &&& r.last == newest(evs, evs.len() as int)
            &&& groups_of(evs, script_views(r.by_script@))
            &&& groups_in_order(script_views(r.by_script@))
            &&& script_views(r.by_script@) == crate::ledger::tally_of(evs)
        },
{
    let nb = nonblank(text);
    let format = chars_of(FORMAT);
    if nb.len() == 0 || !vec_eq(&nb[0], &format) {
        proof {
            if nb@.len() > 0 {
                assert(views(nb@)[0] == nb@[0]@);
            }
        }
        return Ledger::default();
    }
    assert(views(nb@)[0] == nb@[0]@);
    let ghost nbv = views(nb@);
    let mut events: Vec<Event> = Vec::new();
    let mut last: Option<u64> = None;
    let mut k: usize = 1;
    while k < nb.len()
        invariant
            1 <= k <= nb.len(),
            nbv == views(nb@),
            event_views(events@) == events_upto(nbv, k as int),
            last == newest(events_upto(nbv, k as int), events_upto(nbv, k as int).len() as int),
            events@.len() <= k,
        decreases nb.len() - k,
    {
        assert(nbv[k as int] == nb@[k as int]@);
        match event_exec(&nb[k]) {
            Some(e) => {
                let ghost before = event_views(events@);
                last = match last {
                    Some(p) => Some(if e.epoch > p { e.epoch } else { p }),
                    None => Some(e.epoch),
                };
                events.push(e);
                assert(event_views(events@) =~= before.push(crate::ledger::event_view(e)));
                proof {
                    crate::ledger::lemma_newest_push(before, crate::ledger::event_view(e), before.len() as int);
                }
            },
            None => {},
        }
        k += 1;
    }
    let ghost evs = event_views(events@);
    let groups = tally(&events);
    let ghost gv = group_views(groups@);
    let sorted = sort_groups(groups);
    proof {
        lemma_groups_permuted(evs, gv, group_views(sorted@));
    }
    proof {
        lemma_events_nonblocking(nbv, nbv.len() as int);
        assert forall|i: int| 0 <= i < group_views(sorted@).len() implies (#[trigger] group_views(sorted@)[i]).2 == 0 by {
            lemma_none_blocking(evs, group_views(sorted@)[i].0, evs.len() as int);
        }
    }
    let mut by_script: Vec<ScriptCount> = Vec::new();
    let mut j: usize = 0;
    while j < sorted.len()
        invariant
            j <= sorted.len(),
            forall|i: int| 0 <= i < group_views(sorted@).len() ==> (#[trigger] group_views(sorted@)[i]).2 == 0,
            script_views(by_script@) == group_views(sorted@).take(j as int),
        decreases sorted.len() - j,
    {
        let g = &sorted[j];
        let ghost before = script_views(by_script@);
        by_script.push(ScriptCount { script: string_of(&g.name), count: g.count, last: g.last });
        proof {
            assert(group_views(sorted@)[j as int] == crate::ledger::group_view(*g));
            assert(script_views(by_script@) =~= before.push(crate::ledger::group_view(*g)));
            assert(group_views(sorted@).take(j + 1) =~= group_views(sorted@).take(j as int).push(
                group_views(sorted@)[j as int],
            ));
        }
        j += 1;
    }
    proof {
        assert(group_views(sorted@).take(sorted@.len() as int) =~= group_views(sorted@));
    }
    let r = Ledger { total: events.len(), last, by_script };
    proof {
        let evs = ledger_events(text@);
        assert(groups_of(evs, script_views(r.by_script@)));
        assert(groups_in_order(script_views(r.by_script@)));
        crate::ledger::lemma_tally_unique(evs, script_views(r.by_script@));
    }
    r
}

proof fn lemma_events_nonblocking(nb: Seq<Seq<char>>, k: int)
    ensures
        forall|m: int| 0 <= m < events_upto(nb, k).len() ==> !(#[trigger] events_upto(nb, k)[m]).2,
    decreases k,
{
    if k > 1 {
        lemma_events_nonblocking(nb, k - 1);
        let prev = events_upto(nb, k - 1);
        let cur = events_upto(nb, k);
        match event(nb[k - 1]) {
            Some(e) => {
                assert(!e.2);
                assert forall|m: int| 0 <= m < cur.len() implies !(#[trigger] cur[m]).2 by {
                    if m < prev.len() {
                        assert(cur[m] == prev[m]);
                    }
                }
            },
            None => {},
        }
    }
}

proof fn lemma_none_blocking(evs: Seq<(u64, Seq<char>, bool)>, name: Seq<char>, k: int)
    requires
        0 <= k <= evs.len(),
        forall|m: int| 0 <= m < evs.len() ==> !(#[trigger] evs[m]).2,
    ensures
        crate::ledger::blocking_in(evs, name, k) == 0,
    decreases k,
{
    if k > 0 {
        lemma_none_blocking(evs, name, k - 1);
    }
}

/// A relative age in the largest unit that fits; a time in the future reads
/// as "just now".
pub open spec fn spec_age(now: u64, then: u64) -> Seq<char> {
    let d: int = if now >= then {
        now - then
    } else {
        0
    };
    if d < 60 {
        "just now"@
    } else if d < 3600 {
        decimal((d / 60) as nat) + "m ago"@
    } else if d < 86_400 {
        decimal((d / 3600) as nat) + "h ago"@
    } else if d < 7 * 86_400 {
        decimal((d / 86_400) as nat) + "d ago"@
    } else if d < 365 * 86_400 {
        decimal((d / 604800int) as nat) + "w ago"@
    } else {
        decimal((d / 31536000int) as nat) + "y ago"@
    }
}

/// A relative age in the largest unit that fits — integer arithmetic only,
/// no calendar. A timestamp from the future clamps to "just now".
pub fn age(now: u64, then: u64) -> (r: String)
    ensures
        r@ == spec_age(now, then),
{
    let d = if now >= then {
        now - then
    } else {
        0
    };
    let mut out: Vec<char> = Vec::new();
    if d < 60 {
        push_str(&mut out, "just now");
    } else if d < 3600 {
        push_chars(&mut out, &decimal_chars(d / 60));
        push_str(&mut out, "m ago");
    } else if d < 86_400 {
        push_chars(&mut out, &decimal_chars(d / 3600));
        push_str(&mut out, "h ago");
    } else if d < 7 * 86_400 {
        push_chars(&mut out, &decimal_chars(d / 86_400));
        push_str(&mut out, "d ago");
    } else if d < 365 * 86_400 {
        push_chars(&mut out, &decimal_chars(d / (7 * 86_400)));
        push_str(&mut out, "w ago");
    } else {
        push_chars(&mut out, &decimal_chars(d / (365 * 86_400)));
        push_str(&mut out, "y ago");
    }
    string_of(&out)
}



// ---------------------------------------------------------------------------
// Writing the ledger

/// Past this size the ledger is compacted before the next append.
pub const MAX_BYTES: u64 = 65536;

/// The events a compaction keeps, the newest ones.
pub const KEEP: usize = 500;

/// The lines among `ls[0..k]` that are events, as they were written.
pub open spec fn event_lines_upto(ls: Seq<Seq<char>>, k: int) -> Seq<Seq<char>>
    decreases k,
{
    if k <= 0 {
        seq![]
    } else if event(ls[k - 1]) is Some {
        event_lines_upto(ls, k - 1).push(ls[k - 1])
    } else {
        event_lines_upto(ls, k - 1)
    }
}

/// A compacted ledger: the header, then the newest `KEEP` event lines.
pub open spec fn spec_compacted(text: Seq<char>) -> Seq<char> {
    let ls = lines_of(text);
    FORMAT@ + "\n"@ + joined(newest_kept(event_lines_upto(ls, ls.len() as int), KEEP as int))
}

/// What compaction writes back over `text`: the header and the newest
/// events exactly as written; every other line is dropped.
pub fn compacted(text: &str) -> (r: String)
    ensures
        r@ == spec_compacted(text@),
{
    let ls = split_lines(&chars_of(text));
    let mut ev: Vec<Vec<char>> = Vec::new();
    let mut k: usize = 0;
    while k < ls.len()
        invariant
            k <= ls.len(),
            views(ls@) == lines_of(text@),
            views(ev@) == event_lines_upto(views(ls@), k as int),
        decreases ls.len() - k,
    {
        assert(views(ls@)[k as int] == ls@[k as int]@);
        if event_exec(&ls[k]).is_some() {
            let l = slice_of(&ls[k], 0, ls[k].len());
            assert(l@ =~= ls@[k as int]@);
            let ghost before = views(ev@);
            ev.push(l);
            assert(views(ev@) =~= before.push(l@));
        }
        k += 1;
    }
    string_of(&write_kept(FORMAT, &ev, KEEP))
}

/// One event line: `<epoch> <commit> <script>`.
pub open spec fn event_line(now: u64, commit: Seq<char>, script: Seq<char>) -> Seq<char> {
    decimal(now as nat) + " "@ + commit + " "@ + script
}

/// The lines one append adds: one event per script, all at `now` against
/// `commit`.
pub fn event_lines(now: u64, commit: &str, scripts: &[&str]) -> (r: String)
    ensures
        r@ == joined(scripts@.map_values(|s: &str| event_line(now, commit@, s@))),
{
    let ghost ls = scripts@.map_values(|s: &str| event_line(now, commit@, s@));
    let mut out: Vec<char> = Vec::new();
    let mut k: usize = 0;
    proof {
        assert(ls.take(0) =~= seq![]);
    }
    while k < scripts.len()
        invariant
            k <= scripts@.len(),
            ls == scripts@.map_values(|s: &str| event_line(now, commit@, s@)),
            out@ == joined(ls.take(k as int)),
        decreases scripts.len() - k,
    {
        let ghost before = out@;
        push_chars(&mut out, &decimal_chars(now));
        push_str(&mut out, " ");
        push_str(&mut out, commit);
        push_str(&mut out, " ");
        push_str(&mut out, scripts[k]);
        push_str(&mut out, "\n");
        proof {
            reveal_strlit(" ");
            reveal_strlit("\n");
            let t = ls.take(k + 1);
            assert(t.drop_last() =~= ls.take(k as int));
            assert(t.last() == event_line(now, commit@, scripts@[k as int]@));
            assert(out@ =~= joined(t));
        }
        k += 1;
    }
    proof {
        assert(ls.take(scripts@.len() as int) =~= ls);
    }
    string_of(&out)
}
// ---------------------------------------------------------------------------
// What a compacted ledger reads back as

/// The events the lines carry, in order.
pub open spec fn event_values(ls: Seq<Seq<char>>) -> Seq<(u64, Seq<char>, bool)> {
    ls.map_values(|l: Seq<char>| event(l)->0)
}

proof fn lemma_event_not_blank(l: Seq<char>)
    ensures
        event(l) is Some ==> !blank_line(l),
{
    if blank_line(l) {
        lemma_blank_no_words(l);
    }
}

proof fn lemma_nonblank_prefix(ls: Seq<Seq<char>>, j: int, k: int)
    requires
        0 <= j <= k <= ls.len(),
    ensures
        nonblank_upto(ls, j).len() <= nonblank_upto(ls, k).len(),
        forall|i: int| 0 <= i < nonblank_upto(ls, j).len() ==> #[trigger] nonblank_upto(ls, j)[i] == nonblank_upto(ls, k)[i],
    decreases k - j,
{
    if j < k {
        lemma_nonblank_prefix(ls, j, k - 1);
    }
}

proof fn lemma_events_push(nb: Seq<Seq<char>>, x: Seq<char>, j: int)
    requires
        j <= nb.len(),
    ensures
        events_upto(nb.push(x), j) == events_upto(nb, j),
    decreases j,
{
    if j > 1 {
        lemma_events_push(nb, x, j - 1);
        assert(nb.push(x)[j - 1] == nb[j - 1]);
    }
}

/// Below a header that is no event, the events of the non-blank lines are
/// the events among all the lines.
proof fn lemma_events_of_lines(ls: Seq<Seq<char>>, k: int)
    requires
        0 <= k <= ls.len(),
        nonblank_upto(ls, ls.len() as int).len() > 0,
        event(nonblank_upto(ls, ls.len() as int)[0]) is None,
    ensures
        events_upto(nonblank_upto(ls, k), nonblank_upto(ls, k).len() as int) == event_values(event_lines_upto(ls, k)),
    decreases k,
{
    if k == 0 {
        assert(event_values(Seq::<Seq<char>>::empty()) =~= Seq::<(u64, Seq<char>, bool)>::empty());
    } else {
        lemma_events_of_lines(ls, k - 1);
        let x = ls[k - 1];
        let nb = nonblank_upto(ls, k - 1);
        lemma_event_not_blank(x);
        if blank_line(x) {
        } else {
            lemma_nonblank_prefix(ls, k, ls.len() as int);
            let nb2 = nb.push(x);
            lemma_events_push(nb, x, nb.len() as int);
            if nb.len() == 0 {
                assert(nb2[0] == x);
                assert(event_values(event_lines_upto(ls, k - 1)).len() == 0);
                assert(event_lines_upto(ls, k - 1).len() == 0);
                assert(event_values(event_lines_upto(ls, k)) =~= Seq::<(u64, Seq<char>, bool)>::empty());
            } else {
                assert(nb2[nb.len() as int] == x);
                assert(event_values(event_lines_upto(ls, k)) =~= (if event(x) is Some {
                    event_values(event_lines_upto(ls, k - 1)).push(event(x)->0)
                } else {
                    event_values(event_lines_upto(ls, k - 1))
                }));
            }
        }
    }
}

proof fn lemma_event_lines_plain(ls: Seq<Seq<char>>, k: int)
    requires
        0 <= k <= ls.len(),
        forall|i: int, m: int| 0 <= i < ls.len() && 0 <= m < ls[i].len() ==> #[trigger] ls[i][m] != '\n',
    ensures
        forall|i: int, m: int| 0 <= i < event_lines_upto(ls, k).len() && 0 <= m < event_lines_upto(ls, k)[i].len()
            ==> #[trigger] event_lines_upto(ls, k)[i][m] != '\n',
        forall|i: int| 0 <= i < event_lines_upto(ls, k).len() ==> event(#[trigger] event_lines_upto(ls, k)[i]) is Some,
    decreases k,
{
    if k > 0 {
        lemma_event_lines_plain(ls, k - 1);
        let before = event_lines_upto(ls, k - 1);
        assert forall|i: int, m: int| 0 <= i < event_lines_upto(ls, k).len() && 0 <= m < event_lines_upto(ls, k)[i].len()
            implies #[trigger] event_lines_upto(ls, k)[i][m] != '\n' by {
            if i < before.len() {
                assert(event_lines_upto(ls, k)[i] == before[i]);
            } else {
                assert(event_lines_upto(ls, k)[i] == ls[k - 1]);
            }
        }
        assert forall|i: int| 0 <= i < event_lines_upto(ls, k).len() implies event(#[trigger] event_lines_upto(ls, k)[i]) is Some by {
            if i < before.len() {
                assert(event_lines_upto(ls, k)[i] == before[i]);
            }
        }
    }
}

/// Lines that are all events, under a header line that is not, read as
/// those events.
proof fn lemma_events_of_kept(f: Seq<char>, kept: Seq<Seq<char>>, k: int)
    requires
        !blank_line(f),
        forall|i: int| 0 <= i < kept.len() ==> event(#[trigger] kept[i]) is Some,
        0 <= k <= kept.len(),
    ensures
        nonblank_upto(seq![f] + kept.map_values(|l: Seq<char>| strip_cr(l)), k + 1)
            == seq![f] + kept.take(k).map_values(|l: Seq<char>| strip_cr(l)),
        events_upto(seq![f] + kept.map_values(|l: Seq<char>| strip_cr(l)), k + 1) == event_values(kept.take(k)),
    decreases k,
{
    let all = seq![f] + kept.map_values(|l: Seq<char>| strip_cr(l));
    if k == 0 {
        assert(all[0] == f);
        assert(nonblank_upto(all, 0) =~= Seq::<Seq<char>>::empty());
        assert(kept.take(0).map_values(|l: Seq<char>| strip_cr(l)) =~= Seq::<Seq<char>>::empty());
        assert(seq![f] + kept.take(0).map_values(|l: Seq<char>| strip_cr(l)) =~= seq![f]);
        assert(event_values(kept.take(0)) =~= Seq::<(u64, Seq<char>, bool)>::empty());
    } else {
        lemma_events_of_kept(f, kept, k - 1);
        let l = kept[k - 1];
        assert(all[k] == strip_cr(l));
        lemma_words_strip_cr(l);
        assert(event(strip_cr(l)) == event(l));
        lemma_event_not_blank(strip_cr(l));
        assert(kept.take(k) =~= kept.take(k - 1).push(l));
        assert(kept.take(k).map_values(|l: Seq<char>| strip_cr(l)) =~= kept.take(k - 1).map_values(
            |l: Seq<char>| strip_cr(l),
        ).push(strip_cr(l)));
        assert(event_values(kept.take(k)) =~= event_values(kept.take(k - 1)).push(event(l)->0));
    }
}

/// Compaction keeps what the ledger says of its newest events: read back,
/// a compacted ledger holds exactly the newest `KEEP` events of the one it
/// replaced, under the same header.
pub proof fn compaction_keeps_the_newest_events(text: Seq<char>)
    requires
        has_header(text),
    ensures
        has_header(spec_compacted(text)),
        ledger_events(spec_compacted(text)) == (if ledger_events(text).len() > KEEP {
            ledger_events(text).skip(ledger_events(text).len() - KEEP)
        } else {
            ledger_events(text)
        }),
{
    reveal_strlit("\n");
    reveal_strlit("amont-bypass-v1");
    let ls = lines_of(text);
    let n = ls.len() as int;
    let f = FORMAT@;
    assert(words(f).len() != 3) by {
        crate::ledger::lemma_words_single(f);
    }
    lemma_events_of_lines(ls, n);
    let e = event_lines_upto(ls, n);
    lemma_lines_have_no_newline(text);
    lemma_event_lines_plain(ls, n);
    let kept = newest_kept(e, KEEP as int);
    assert forall|i: int| 0 <= i < kept.len() implies event(#[trigger] kept[i]) is Some by {
        if e.len() > KEEP {
            assert(kept[i] == e[i + e.len() - KEEP]);
        }
    }
    assert forall|i: int, m: int| 0 <= i < kept.len() && 0 <= m < kept[i].len() implies #[trigger] kept[i][m] != '\n' by {
        if e.len() > KEEP {
            assert(kept[i] == e[i + e.len() - KEEP]);
        }
    }
    lemma_lines_of_joined(kept);
    assert(plain_line(f));
    lemma_lines_of_line(f);
    crate::ledger::lemma_joined_ends(kept);
    let c = spec_compacted(text);
    assert(c =~= (f + "\n"@) + joined(kept));
    lemma_lines_of_append(f + "\n"@, joined(kept));
    let cl = lines_of(c);
    assert(cl =~= seq![f] + kept.map_values(|l: Seq<char>| strip_cr(l)));
    assert(!blank_line(f)) by {
        crate::ledger::lemma_words_single(f);
        if blank_line(f) {
            lemma_blank_no_words(f);
        }
    }
    lemma_events_of_kept(f, kept, kept.len() as int);
    assert(kept.take(kept.len() as int) =~= kept);
    assert(cl.len() == kept.len() + 1);
    let evs = event_values(e);
    if e.len() > KEEP {
        assert(event_values(kept) =~= evs.skip(evs.len() - KEEP));
    }
}


// ---------------------------------------------------------------------------
// What an append reads back as

proof fn lemma_events_prefix(nb: Seq<Seq<char>>, c: Seq<Seq<char>>, j: int)
    requires
        0 <= j <= nb.len() <= c.len(),
        forall|i: int| 0 <= i < nb.len() ==> #[trigger] c[i] == nb[i],
    ensures
        events_upto(c, j) == events_upto(nb, j),
    decreases j,
{
    if j > 1 {
        lemma_events_prefix(nb, c, j - 1);
        assert(c[j - 1] == nb[j - 1]);
    }
}

proof fn lemma_events_append(nb: Seq<Seq<char>>, ls: Seq<Seq<char>>, k: int)
    requires
        nb.len() >= 1,
        0 <= k <= ls.len(),
        forall|i: int| 0 <= i < ls.len() ==> event(#[trigger] ls[i]) is Some,
    ensures
        events_upto(nb + ls, nb.len() + k) == events_upto(nb, nb.len() as int) + event_values(ls.take(k)),
    decreases k,
{
    if k == 0 {
        lemma_events_prefix(nb, nb + ls, nb.len() as int);
        assert(event_values(ls.take(0)) =~= Seq::<(u64, Seq<char>, bool)>::empty());
        assert(events_upto(nb, nb.len() as int) + event_values(ls.take(0)) =~= events_upto(nb, nb.len() as int));
    } else {
        lemma_events_append(nb, ls, k - 1);
        assert((nb + ls)[nb.len() + k - 1] == ls[k - 1]);
        assert(event(ls[k - 1]) is Some);
        assert(ls.take(k) =~= ls.take(k - 1).push(ls[k - 1]));
        assert(event_values(ls.take(k)) =~= event_values(ls.take(k - 1)).push(event(ls[k - 1])->0));
    }
}

/// One written event line reads back as the event it records.
proof fn lemma_event_line_reads_back(now: u64, commit: Seq<char>, script: Seq<char>)
    requires
        valid_oid(commit),
        valid_name(script, 32),
    ensures
        event(event_line(now, commit, script)) == Some((now, script, false)),
        plain_line(event_line(now, commit, script)),
{
    reveal_strlit(" ");
    let l = event_line(now, commit, script);
    let fields = seq![decimal(now as nat), commit, script];
    crate::ledger::lemma_decimal_reads_back(now);
    assert(crate::ledger::is_word(commit)) by {
        assert forall|k: int| 0 <= k < commit.len() implies !crate::text::is_space(#[trigger] commit[k]) by {
            assert(crate::ledger::is_hex(commit[k]));
        }
    }
    assert(crate::ledger::is_word(script)) by {
        assert forall|k: int| 0 <= k < script.len() implies !crate::text::is_space(#[trigger] script[k]) by {
            assert('!' <= script[k] <= '~');
        }
    }
    assert(fields.skip(1).skip(1) =~= seq![script]);
    assert(crate::ledger::spaced(fields.skip(1).skip(1)) == script);
    assert(crate::ledger::spaced(fields.skip(1)) =~= commit + " "@ + script);
    assert(crate::ledger::spaced(fields) =~= l);
    crate::ledger::lemma_words_of_fields(fields);
    let d = decimal(now as nat);
    assert forall|k: int| 0 <= k < l.len() implies l[k] != '\n' by {
        if k < d.len() {
            assert(l[k] == d[k]);
            assert(crate::ledger::is_digit(d[k]));
        } else if k == d.len() {
        } else if k < d.len() + 1 + commit.len() {
            assert(l[k] == commit[k - d.len() - 1]);
            assert(crate::ledger::is_hex(commit[k - d.len() - 1]));
        } else if k == d.len() + 1 + commit.len() {
        } else {
            assert(l[k] == script[k - d.len() - 2 - commit.len()]);
            assert('!' <= script[k - d.len() - 2 - commit.len()] <= '~');
        }
    }
    assert(l.last() == script.last());
    assert('!' <= script[script.len() - 1] <= '~');
}

/// A new ledger file, before its first append, holds the header alone.
pub proof fn a_new_ledger_holds_no_events()
    ensures
        has_header(FORMAT@ + "\n"@),
        ledger_events(FORMAT@ + "\n"@).len() == 0,
{
    reveal_strlit("\n");
    reveal_strlit("amont-bypass-v1");
    let f = FORMAT@;
    assert(plain_line(f));
    lemma_lines_of_line(f);
    assert(!blank_line(f)) by {
        crate::ledger::lemma_words_single(f);
        if blank_line(f) {
            lemma_blank_no_words(f);
        }
    }
    assert(nonblank_upto(seq![f], 0) =~= Seq::<Seq<char>>::empty());
    assert(nonblank_lines(f + "\n"@) =~= seq![f]);
}

/// A ledger reads back what an append wrote: appending the event lines for
/// `scripts` at `now` against `commit` to a ledger that ends its last line
/// keeps the header and adds exactly one event per script, in order, after
/// the events it held.
pub proof fn appended_events_read_back(text: Seq<char>, now: u64, commit: Seq<char>, scripts: Seq<Seq<char>>)
    requires
        has_header(text),
        text.last() == '\n',
        valid_oid(commit),
        forall|i: int| 0 <= i < scripts.len() ==> valid_name(#[trigger] scripts[i], 32),
    ensures
        ({
            let after = text + joined(scripts.map_values(|s: Seq<char>| event_line(now, commit, s)));
            &&& has_header(after)
            &&& ledger_events(after) == ledger_events(text) + scripts.map_values(|s: Seq<char>| (now, s, false))
        }),
{
    let ls = scripts.map_values(|s: Seq<char>| event_line(now, commit, s));
    let after = text + joined(ls);
    assert forall|i: int| 0 <= i < ls.len() implies event(#[trigger] ls[i]) == Some((now, scripts[i], false)) && plain_line(ls[i]) by {
        lemma_event_line_reads_back(now, commit, scripts[i]);
    }
    assert forall|i: int, m: int| 0 <= i < ls.len() && 0 <= m < ls[i].len() implies #[trigger] ls[i][m] != '\n' by {
        assert(plain_line(ls[i]));
    }
    lemma_lines_of_append(text, joined(ls));
    lemma_lines_of_joined(ls);
    assert(ls.map_values(|l: Seq<char>| strip_cr(l)) =~= ls) by {
        assert forall|i: int| 0 <= i < ls.len() implies strip_cr(ls[i]) == ls[i] by {
            assert(plain_line(ls[i]));
        }
    }
    let a = lines_of(text);
    assert(lines_of(after) == a + ls);
    assert forall|i: int| 0 <= i < ls.len() implies !blank_line(#[trigger] ls[i]) by {
        lemma_event_not_blank(ls[i]);
    }
    crate::ledger::lemma_nonblank_append(a, ls, ls.len() as int);
    assert(ls.take(ls.len() as int) =~= ls);
    let nb = nonblank_lines(text);
    assert(nonblank_lines(after) == nb + ls);
    assert((nb + ls)[0] == nb[0]);
    assert forall|i: int| 0 <= i < ls.len() implies event(#[trigger] ls[i]) is Some by {}
    lemma_events_append(nb, ls, ls.len() as int);
    assert(event_values(ls) =~= scripts.map_values(|s: Seq<char>| (now, s, false)));
}

} // verus!
