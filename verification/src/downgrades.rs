//! One repository's downgrade ledger as the fleet dashboard shows it: the
//! runtime's own reading, field for field.

use vstd::prelude::*;
use crate::downgrade;
use crate::text::{chars_of, string_of};

verus! {

/// One repository's tally of checks that reported a problem without blocking.
#[derive(Debug, Clone, PartialEq, Eq)]
pub struct Downgrades {
    pub total: usize,
    /// Of `total`, the events that would have blocked but for an override.
    pub would_block: usize,
    /// Distinct commits those events happened against.
    pub commits: usize,
    pub first: Option<u64>,
    /// Epoch of the newest event.
    pub last: Option<u64>,
    pub by_check: Vec<CheckCount>,
}

#[derive(Debug, Clone, PartialEq, Eq)]
pub struct CheckCount {
    pub check: String,
    pub count: usize,
    pub would_block: usize,
    pub last: u64,
}

impl Default for Downgrades {
    fn default() -> (r: Downgrades)
        ensures
            r.total == 0,
            r.would_block == 0,
            r.commits == 0,
            r.first is None,
            r.last is None,
            r.by_check@.len() == 0,
    {
        Downgrades { total: 0, would_block: 0, commits: 0, first: None, last: None, by_check: Vec::new() }
    }
}

pub open spec fn row_view(c: CheckCount) -> (Seq<char>, usize, usize, u64) {
    (c.check@, c.count, c.would_block, c.last)
}

/// The dashboard's copy of a parsed ledger: the same numbers, in the same
/// order.
pub fn of_ledger(l: &downgrade::Ledger) -> (r: Downgrades)
    ensures
        r.total == l.total,
        r.would_block == l.would_block,
        r.commits == l.commits,
        r.first == l.first,
        r.last == l.last,
        r.by_check@.len() == l.by_check@.len(),
        forall|k: int|
            0 <= k < r.by_check@.len() ==> #[trigger] row_view(r.by_check@[k])
                == downgrade::check_view(l.by_check@[k]),
{
    let mut rows: Vec<CheckCount> = Vec::new();
    let mut k: usize = 0;
    while k < l.by_check.len()
        invariant
            k <= l.by_check.len(),
            rows@.len() == k,
            forall|m: int|
                0 <= m < k ==> #[trigger] row_view(rows@[m]) == downgrade::check_view(l.by_check@[m]),
        decreases l.by_check.len() - k,
    {
        let c = &l.by_check[k];
        rows.push(CheckCount {
            check: string_of(&chars_of(c.check.as_str())),
            count: c.count,
            would_block: c.would_block,
            last: c.last,
        });
        k += 1;
    }
    Downgrades {
        total: l.total,
        would_block: l.would_block,
        commits: l.commits,
        first: l.first,
        last: l.last,
        by_check: rows,
    }
}


/// The dashboard's reading of a ledger file's text — `None` when there is no
/// file, which is a repository that never warned, not an error.
pub fn read(text: Option<&str>) -> (r: Downgrades)
    ensures
        match text {
            None => r.total == 0 && r.would_block == 0 && r.commits == 0 && r.first is None
                && r.last is None && r.by_check@.len() == 0,
            Some(t) => if downgrade::has_header(t@) {
                let evs = downgrade::ledger_events(t@);
                let tv = downgrade::tally_views(evs);
                &&& r.total == evs.len()
                &&& r.would_block == downgrade::blocking_upto(evs, evs.len() as int)
                &&& r.commits == downgrade::distinct_commits(evs)
                &&& r.first == crate::ledger::oldest(tv, tv.len() as int)
                &&& r.last == crate::ledger::newest(tv, tv.len() as int)
                &&& crate::ledger::groups_of(tv, rows(r.by_check@))
                &&& crate::ledger::groups_in_order(rows(r.by_check@))
                &&& rows(r.by_check@) == crate::ledger::tally_of(tv)
            } else {
                r.total == 0 && r.would_block == 0 && r.commits == 0 && r.first is None
                    && r.last is None && r.by_check@.len() == 0
            },
        },
{
    match text {
        Some(t) => {
            let l = downgrade::parse(t);
            let r = of_ledger(&l);
            assert(rows(r.by_check@) =~= downgrade::check_views(l.by_check@));
            r
        },
        None => Downgrades::default(),
    }
}

pub open spec fn rows(cs: Seq<CheckCount>) -> Seq<(Seq<char>, usize, usize, u64)> {
    cs.map_values(|c: CheckCount| row_view(c))
}
} // verus!
