//! One repository's bypass ledger as the fleet dashboard shows it: the
//! runtime's own reading, field for field.

use vstd::prelude::*;
use crate::bypass;
use crate::text::{chars_of, string_of};

verus! {

/// One repository's tally of commits that carry no record their commit-time
/// gate ran.
#[derive(Debug, Clone, PartialEq, Eq)]
pub struct Bypasses {
    pub total: usize,
    /// Epoch of the newest event.
    pub last: Option<u64>,
    pub by_script: Vec<ScriptCount>,
}

#[derive(Debug, Clone, PartialEq, Eq)]
pub struct ScriptCount {
    pub script: String,
    pub count: usize,
    pub last: u64,
}

impl Default for Bypasses {
    fn default() -> (r: Bypasses)
        ensures
            r.total == 0,
            r.last is None,
            r.by_script@.len() == 0,
    {
        Bypasses { total: 0, last: None, by_script: Vec::new() }
    }
}

pub open spec fn row_view(c: ScriptCount) -> (Seq<char>, usize, u64) {
    (c.script@, c.count, c.last)
}

/// The dashboard's copy of a parsed ledger: the same numbers, in the same
/// order.
pub fn of_ledger(l: &bypass::Ledger) -> (r: Bypasses)
    ensures
        r.total == l.total,
        r.last == l.last,
        r.by_script@.len() == l.by_script@.len(),
        forall|k: int|
            0 <= k < r.by_script@.len() ==> #[trigger] row_view(r.by_script@[k]) == (
                l.by_script@[k].script@,
                l.by_script@[k].count,
                l.by_script@[k].last,
            ),
{
    let mut rows: Vec<ScriptCount> = Vec::new();
    let mut k: usize = 0;
    while k < l.by_script.len()
        invariant
            k <= l.by_script.len(),
            rows@.len() == k,
            forall|m: int|
                0 <= m < k ==> #[trigger] row_view(rows@[m]) == (
                    l.by_script@[m].script@,
                    l.by_script@[m].count,
                    l.by_script@[m].last,
                ),
        decreases l.by_script.len() - k,
    {
        let s = &l.by_script[k];
        rows.push(ScriptCount { script: string_of(&chars_of(s.script.as_str())), count: s.count, last: s.last });
        k += 1;
    }
    Bypasses { total: l.total, last: l.last, by_script: rows }
}


/// The dashboard's reading of a ledger file's text — `None` when there is no
/// file, which is a repository that never dodged anything, not an error.
pub fn read(text: Option<&str>) -> (r: Bypasses)
    ensures
        match text {
            None => r.total == 0 && r.last is None && r.by_script@.len() == 0,
            Some(t) => if bypass::has_header(t@) {
                let evs = bypass::ledger_events(t@);
                &&& r.total == evs.len()
                &&& r.last == crate::ledger::newest(evs, evs.len() as int)
                &&& crate::ledger::groups_of(evs, rows(r.by_script@))
                &&& crate::ledger::groups_in_order(rows(r.by_script@))
                &&& rows(r.by_script@) == crate::ledger::tally_of(evs)
            } else {
                r.total == 0 && r.last is None && r.by_script@.len() == 0
            },
        },
{
    match text {
        Some(t) => {
            let l = bypass::parse(t);
            let r = of_ledger(&l);
            assert forall|k: int| 0 <= k < r.by_script@.len() implies #[trigger] rows(r.by_script@)[k] == bypass::script_views(l.by_script@)[k] by {
                assert(row_view(r.by_script@[k]) == (l.by_script@[k].script@, l.by_script@[k].count, l.by_script@[k].last));
            }
            assert(rows(r.by_script@) =~= bypass::script_views(l.by_script@));
            r
        },
        None => Bypasses::default(),
    }
}

/// The rows as the tallies see them: script, count, 0 blocking, newest.
pub open spec fn rows(cs: Seq<ScriptCount>) -> Seq<(Seq<char>, usize, usize, u64)> {
    cs.map_values(|c: ScriptCount| (c.script@, c.count, 0usize, c.last))
}
} // verus!
