//! Text that reaches a terminal: what a repository controls must not be
//! able to choose how a report renders.

use vstd::prelude::*;
use crate::text::{chars_of, string_of};

verus! {

/// A control character: C0, DEL or C1.
pub open spec fn is_control(c: char) -> bool {
    (c as u32) < 0x20 || (0x7f <= (c as u32) && (c as u32) < 0xa0)
}

/// Each control character replaced by `?`.
pub open spec fn spec_sanitize(s: Seq<char>) -> Seq<char> {
    s.map_values(|c: char| if is_control(c) { '?' } else { c })
}

/// `s` made safe to print: every control character — an escape sequence's
/// introducer among them — becomes `?`, so no text can move the cursor.
pub fn sanitize(s: &str) -> (r: String)
    ensures
        r@ == spec_sanitize(s@),
{
    let v = chars_of(s);
    let mut out: Vec<char> = Vec::new();
    let mut k: usize = 0;
    while k < v.len()
        invariant
            k <= v.len(),
            out@ == spec_sanitize(v@.take(k as int)),
        decreases v.len() - k,
    {
        let c = v[k];
        let u = c as u32;
        if u < 0x20 || (0x7f <= u && u < 0xa0) {
            out.push('?');
        } else {
            out.push(c);
        }
        assert(spec_sanitize(v@.take(k + 1)) =~= spec_sanitize(v@.take(k as int)).push(out@.last()));
        k += 1;
    }
    assert(v@.take(v.len() as int) =~= v@);
    assert(v@ == s@);
    string_of(&out)
}

} // verus!
