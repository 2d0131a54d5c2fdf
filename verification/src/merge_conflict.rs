//! Staged files still carrying conflict markers. A file qualifies only when
//! all three seven-character markers are present, which is what tells an
//! unresolved conflict from a file that happens to hold a row of `=`.

use vstd::prelude::*;
use crate::text::{chars_of, contains, contains_seq, starts_with, matches_at, split_lines, lines_of, views, push_str, string_of};
use crate::check::Severity;
use crate::finding::Finding;

verus! {

/// Seven copies of `c`.
pub open spec fn seven(c: char) -> Seq<char> {
    seq![c, c, c, c, c, c, c]
}

/// The three markers: `<`, `=` and `>`, seven each.
pub open spec fn spec_markers() -> Seq<Seq<char>> {
    seq![seven('<'), seven('='), seven('>')]
}

fn seven_of(c: char) -> (r: String)
    ensures
        r@ == seven(c),
{
    let v = vec![c, c, c, c, c, c, c];
    assert(v@ =~= seven(c));
    string_of(&v)
}

/// The markers, built rather than written, so that this source never holds
/// one literally and the check cannot flag itself.
pub fn markers() -> (r: [String; 3])
    ensures
        r@.map_values(|m: String| m@) == spec_markers(),
{
    let r = [seven_of('<'), seven_of('='), seven_of('>')];
    assert(r@.map_values(|m: String| m@) =~= spec_markers());
    r
}

/// The hook's own test file must hold the markers to test with.
pub open spec fn own_test(file: Seq<char>, hook_name: Seq<char>) -> bool {
    starts_with(file, "tests/"@ + hook_name + ".test."@)
}

pub fn is_own_test(file: &str, hook_name: &str) -> (r: bool)
    ensures
        r == own_test(file@, hook_name@),
{
    let mut prefix: Vec<char> = Vec::new();
    push_str(&mut prefix, "tests/");
    push_str(&mut prefix, hook_name);
    push_str(&mut prefix, ".test.");
    let f = chars_of(file);
    if prefix.len() > f.len() {
        return false;
    }
    matches_at(&f, &prefix, 0)
}

/// The check's own short name, and the `check` field of every finding.
pub const NAME: &'static str = "merge-conflict";

/// A line that starts with one of the markers.
pub open spec fn marker_line(l: Seq<char>) -> bool {
    starts_with(l, seven('<')) || starts_with(l, seven('=')) || starts_with(l, seven('>'))
}

/// The 1-based number of the first marker line from line index `k` on.
pub open spec fn first_marker_line(ls: Seq<Seq<char>>, k: int) -> Option<int>
    decreases ls.len() - k,
{
    if k < 0 || k >= ls.len() {
        None
    } else if marker_line(ls[k]) {
        Some(k + 1)
    } else {
        first_marker_line(ls, k + 1)
    }
}

/// All three markers are present.
pub open spec fn has_conflict(content: Seq<char>) -> bool {
    contains(content, seven('<')) && contains(content, seven('=')) && contains(content, seven('>'))
}

/// Conflict markers in one file's content: one blocking finding, at the
/// first marker line, when all three markers are present — none for the
/// hook's own test file.
pub fn scan(file: &str, content: &str, hook_name: &str) -> (r: Vec<Finding>)
    ensures
        own_test(file@, hook_name@) || !has_conflict(content@) ==> r@.len() == 0,
        !own_test(file@, hook_name@) && has_conflict(content@) ==> {
            &&& r@.len() == 1
            &&& r@[0].check@ == NAME@
            &&& r@[0].file@ == file@
            &&& r@[0].severity == Severity::Block
            &&& r@[0].message@ == "unresolved merge conflict markers"@
            &&& r@[0].line == match first_marker_line(lines_of(content@), 0) {
                Some(l) => Some(l as usize),
                None => None,
            }
            &&& r@[0].column is None
        },
{
    let mut out: Vec<Finding> = Vec::new();
    if is_own_test(file, hook_name) {
        return out;
    }
    let s = chars_of(content);
    let lt = chars_of(seven_of('<').as_str());
    let eq = chars_of(seven_of('=').as_str());
    let gt = chars_of(seven_of('>').as_str());
    if !(contains_seq(&s, &lt) && contains_seq(&s, &eq) && contains_seq(&s, &gt)) {
        return out;
    }
    let ls = split_lines(&s);
    let mut k: usize = 0;
    let mut first: Option<usize> = None;
    while k < ls.len() && first.is_none()
        invariant
            k <= ls.len(),
            views(ls@) == lines_of(content@),
            lt@ == seven('<'),
            eq@ == seven('='),
            gt@ == seven('>'),
            first is None ==> first_marker_line(views(ls@), k as int) == first_marker_line(
                views(ls@),
                0,
            ),
            first matches Some(x) ==> first_marker_line(views(ls@), 0) == Some(x as int),
        decreases ls.len() - k,
    {
        let l = &ls[k];
        assert(views(ls@)[k as int] == l@);
        let hit = (l.len() >= 7 && matches_at(l, &lt, 0)) || (l.len() >= 7 && matches_at(l, &eq, 0))
            || (l.len() >= 7 && matches_at(l, &gt, 0));
        assert(hit == marker_line(l@));
        if hit {
            first = Some(k + 1);
        }
        k += 1;
    }
    let f = Finding::new(NAME, file, Severity::Block, "unresolved merge conflict markers");
    let f = match first {
        Some(line) => f.at_line(line),
        None => f,
    };
    out.push(f);
    out
}

} // verus!
