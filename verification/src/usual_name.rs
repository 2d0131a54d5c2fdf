//! `pre-commit-usual-name`: warn the first time an author commits under a
//! given name and email, so a misconfigured `user.name` is noticed at the
//! first commit rather than after twenty. It never blocks.

use vstd::prelude::*;
use crate::text::{chars_of, string_of, vec_eq, views, lines_of, split_lines, trim, trim_vec, contains, str_contains, push_str};

verus! {

/// `name <email>`, as git writes an author.
pub open spec fn spec_identity(name: Seq<char>, email: Seq<char>) -> Seq<char> {
    name + " <"@ + email + ">"@
}

pub fn identity(name: &str, email: &str) -> (r: String)
    ensures
        r@ == spec_identity(name@, email@),
{
    let mut out: Vec<char> = Vec::new();
    push_str(&mut out, name);
    push_str(&mut out, " <");
    push_str(&mut out, email);
    push_str(&mut out, ">");
    string_of(&out)
}

/// The identities already vouched for, one per line of the memo; a line
/// counts once trimmed.
pub open spec fn spec_is_known(memo: Seq<char>, full: Seq<char>) -> bool {
    exists|k: int| 0 <= k < lines_of(memo).len() && trim(#[trigger] lines_of(memo)[k]) == full
}

pub fn is_known(memo: &str, full: &str) -> (r: bool)
    ensures
        r == spec_is_known(memo@, full@),
{
    let ls = split_lines(&chars_of(memo));
    let f = chars_of(full);
    let mut k: usize = 0;
    while k < ls.len()
        invariant
            k <= ls@.len(),
            views(ls@) == lines_of(memo@),
            f@ == full@,
            forall|m: int| 0 <= m < k ==> trim(#[trigger] lines_of(memo@)[m]) != full@,
        decreases ls.len() - k,
    {
        assert(views(ls@)[k as int] == ls@[k as int]@);
        if vec_eq(&trim_vec(&ls[k]), &f) {
            return true;
        }
        k += 1;
    }
    false
}

/// Has this identity committed here before? Containment in the shortlog,
/// literally: a name may hold characters a pattern would read as syntax.
pub fn seen(log: &str, full: &str) -> (r: bool)
    ensures
        r == contains(log@, full@),
{
    str_contains(log, full)
}

} // verus!
