//! The content checks, asked about a file rather than about the index: give
//! them a path and some bytes and they answer, with no git and no opinion
//! about what is staged.

use vstd::prelude::*;
use crate::text::{chars_of, vec_eq, decode_lossy, utf8_lossy, chars_less, chars_less_exec, lemma_chars_less_irrefl, lemma_chars_less_trans};
use crate::check::Severity;
use crate::finding::{Finding, FindingView, finding_view, finding_views, line_col_at};
use crate::{ban_terms, large_files, merge_conflict, secrets};

verus! {

broadcast use vstd::seq_lib::group_to_multiset_ensures;

// ---------------------------------------------------------------------------
// Reading order

/// No position before a position, and a position before none.
pub open spec fn opt_less(a: Option<usize>, b: Option<usize>) -> bool {
    match (a, b) {
        (None, Some(_)) => true,
        (Some(x), Some(y)) => x < y,
        _ => false,
    }
}

/// Reading order: by file, then line, then column, then check.
pub open spec fn view_before(a: FindingView, b: FindingView) -> bool {
    ||| chars_less(a.file, b.file)
    ||| a.file == b.file && opt_less(a.line, b.line)
    ||| a.file == b.file && a.line == b.line && opt_less(a.column, b.column)
    ||| a.file == b.file && a.line == b.line && a.column == b.column && chars_less(a.check, b.check)
}

/// No finding comes before one listed ahead of it.
pub open spec fn in_reading_order(s: Seq<FindingView>) -> bool {
    forall|i: int, j: int| 0 <= i < j < s.len() ==> !view_before(#[trigger] s[j], #[trigger] s[i])
}

proof fn lemma_view_before_irrefl(a: FindingView)
    ensures
        !view_before(a, a),
{
    lemma_chars_less_irrefl(a.file);
    lemma_chars_less_irrefl(a.check);
}

proof fn lemma_view_before_trans(a: FindingView, b: FindingView, c: FindingView)
    requires
        view_before(a, b),
        view_before(b, c),
    ensures
        view_before(a, c),
{
    if chars_less(a.file, b.file) && chars_less(b.file, c.file) {
        lemma_chars_less_trans(a.file, b.file, c.file);
    }
    if a.file == b.file && b.file == c.file && a.line == b.line && b.line == c.line && a.column
        == b.column && b.column == c.column && chars_less(a.check, b.check) && chars_less(
        b.check,
        c.check,
    ) {
        lemma_chars_less_trans(a.check, b.check, c.check);
    }
}

fn opt_less_exec(a: Option<usize>, b: Option<usize>) -> (r: bool)
    ensures
        r == opt_less(a, b),
{
    match (a, b) {
        (None, Some(_)) => true,
        (Some(x), Some(y)) => x < y,
        _ => false,
    }
}

/// Does `a` come before `b` in reading order?
pub fn finding_before(a: &Finding, b: &Finding) -> (r: bool)
    ensures
        r == view_before(finding_view(*a), finding_view(*b)),
{
    let af = chars_of(a.file.as_str());
    let bf = chars_of(b.file.as_str());
    if chars_less_exec(&af, &bf) {
        return true;
    }
    if !vec_eq(&af, &bf) {
        return false;
    }
    if opt_less_exec(a.line, b.line) {
        return true;
    }
    if a.line != b.line {
        return false;
    }
    if opt_less_exec(a.column, b.column) {
        return true;
    }
    if a.column != b.column {
        return false;
    }
    chars_less_exec(&chars_of(a.check), &chars_of(b.check))
}

/// Findings by position, then by check, so output is stable across runs;
/// findings without a line come first, as they are about the whole file.
pub fn sorted(findings: Vec<Finding>) -> (r: Vec<Finding>)
    ensures
        in_reading_order(finding_views(r@)),
        finding_views(r@).to_multiset() == finding_views(findings@).to_multiset(),
{
    let ghost all = finding_views(findings@).to_multiset();
    let mut rest = findings;
    let mut out: Vec<Finding> = Vec::new();
    while rest.len() > 0
        invariant
            in_reading_order(finding_views(out@)),
            finding_views(out@).to_multiset().add(finding_views(rest@).to_multiset()) == all,
        decreases rest.len(),
    {
        let ghost rv = finding_views(rest@);
        let x = rest.remove(0);
        let ghost vx = finding_view(x);
        proof {
            assert(finding_views(rest@) =~= rv.remove(0));
            assert(rv[0] == vx);
            vstd::seq_lib::to_multiset_remove(rv, 0);
            assert(rv.to_multiset().contains(vx));
        }
        // the first finding `x` comes before
        let mut p: usize = 0;
        while p < out.len() && !finding_before(&x, &out[p])
            invariant
                p <= out.len(),
                forall|k: int| 0 <= k < p ==> !view_before(vx, #[trigger] finding_views(out@)[k]),
                vx == finding_view(x),
            decreases out.len() - p,
        {
            p += 1;
        }
        let ghost ov = finding_views(out@);
        proof {
            assert forall|j: int| p <= j < ov.len() implies !view_before(#[trigger] ov[j], vx) by {
                if view_before(ov[j], vx) {
                    // x comes before out[p], which nothing after it precedes
                    if j == p {
                        lemma_view_before_trans(ov[j], vx, ov[j]);
                        lemma_view_before_irrefl(ov[j]);
                    } else {
                        lemma_view_before_trans(ov[j], vx, ov[p as int]);
                    }
                }
            }
        }
        out.insert(p, x);
        proof {
            let nv = finding_views(out@);
            assert(nv =~= ov.insert(p as int, vx));
            vstd::seq_lib::to_multiset_insert(ov, p as int, vx);
            assert forall|i: int, j: int| 0 <= i < j < nv.len() implies !view_before(
                #[trigger] nv[j],
                #[trigger] nv[i],
            ) by {
                if i < p && j < p {
                    assert(nv[i] == ov[i] && nv[j] == ov[j]);
                } else if i < p && j == p {
                    assert(nv[i] == ov[i]);
                } else if i < p {
                    assert(nv[i] == ov[i] && nv[j] == ov[j - 1]);
                } else if i == p {
                    assert(nv[j] == ov[j - 1]);
                } else {
                    assert(nv[i] == ov[i - 1] && nv[j] == ov[j - 1]);
                }
            }
            assert(nv.to_multiset().add(finding_views(rest@).to_multiset()) =~= all);
        }
    }
    proof {
        assert(finding_views(rest@) =~= Seq::<FindingView>::empty());
        assert(finding_views(out@).to_multiset().add(Seq::<FindingView>::empty().to_multiset())
            =~= finding_views(out@).to_multiset());
    }
    out
}


// ---------------------------------------------------------------------------
// The findings for one file

/// The size finding, as plain values.
pub open spec fn spec_large(file: Seq<char>, len: u64, thresholds: (u64, u64)) -> Seq<FindingView> {
    if len >= thresholds.1 {
        seq![
            FindingView {
                check: large_files::NAME@,
                file: crate::ui::spec_sanitize(file),
                line: None,
                column: None,
                severity: Severity::Block,
                message: large_files::block_message(
                    (len / large_files::MB) as nat,
                    (thresholds.1 / large_files::MB) as nat,
                ),
            },
        ]
    } else if len >= thresholds.0 {
        seq![
            FindingView {
                check: large_files::NAME@,
                file: crate::ui::spec_sanitize(file),
                line: None,
                column: None,
                severity: Severity::Warn,
                message: large_files::warn_message((len / large_files::MB) as nat),
            },
        ]
    } else {
        seq![]
    }
}

/// The banned-term findings, as plain values.
pub open spec fn spec_ban(file: Seq<char>, content: Seq<char>) -> Seq<FindingView> {
    if ban_terms::is_own_source(file, ban_terms::NAME@) {
        seq![]
    } else {
        ban_terms::placed_upto(file, content, 7).map_values(
            |p: (ban_terms::Term, int)|
                FindingView {
                    check: ban_terms::NAME@,
                    file,
                    line: Some(line_col_at(content, p.1).0 as usize),
                    column: Some(line_col_at(content, p.1).1 as usize),
                    severity: Severity::Block,
                    message: ban_terms::term_message(p.0),
                },
        )
    }
}

/// The conflict-marker finding, as plain values.
pub open spec fn spec_merge(file: Seq<char>, content: Seq<char>) -> Seq<FindingView> {
    if merge_conflict::own_test(file, merge_conflict::NAME@) || !merge_conflict::has_conflict(
        content,
    ) {
        seq![]
    } else {
        seq![
            FindingView {
                check: merge_conflict::NAME@,
                file,
                line: match merge_conflict::first_marker_line(crate::text::lines_of(content), 0) {
                    Some(l) => Some(l as usize),
                    None => None,
                },
                column: None,
                severity: Severity::Block,
                message: "unresolved merge conflict markers"@,
            },
        ]
    }
}

/// The secret findings, as plain values.
pub open spec fn spec_secrets(file: Seq<char>, content: Seq<char>) -> Seq<FindingView> {
    secrets::spec_scan(content).map_values(
        |h: (int, secrets::Kind)|
            FindingView {
                check: secrets::NAME@,
                file: crate::ui::spec_sanitize(file),
                line: Some(h.0 as usize),
                column: None,
                severity: Severity::Block,
                message: secrets::finding_message(h.1),
            },
    )
}

/// Everything the content checks say about one file, before ordering: the
/// size first and unconditionally, then — for text worth reading — banned
/// terms, conflict markers and secrets.
pub open spec fn spec_collect(file: Seq<char>, bytes: Seq<u8>, thresholds: (u64, u64)) -> Seq<
    FindingView,
> {
    let text = utf8_lossy(bytes);
    spec_large(file, bytes.len() as u64, thresholds) + if !secrets::spec_looks_binary(bytes)
        && bytes.len() <= secrets::MAX_BYTES && text.len() < usize::MAX {
        spec_ban(file, text) + spec_merge(file, text) + spec_secrets(file, text)
    } else {
        seq![]
    }
}

fn collect(file: &str, bytes: &[u8], thresholds: (u64, u64)) -> (r: Vec<Finding>)
    ensures
        finding_views(r@) == spec_collect(file@, bytes@, thresholds),
{
    let mut out: Vec<Finding> = Vec::new();
    match large_files::scan(file, bytes.len() as u64, thresholds) {
        Some(f) => out.push(f),
        None => {},
    }
    assert(finding_views(out@) =~= spec_large(file@, bytes@.len() as u64, thresholds));
    if secrets::is_scannable(bytes) {
        let text = decode_lossy(bytes);
        let n = chars_of(text.as_str()).len();
        if n < usize::MAX {
            let ghost t = text@;
            let ghost head = finding_views(out@);
            let mut b = ban_terms::scan(file, text.as_str(), ban_terms::NAME);
            assert(finding_views(b@) =~= spec_ban(file@, t));
            let mut m = merge_conflict::scan(file, text.as_str(), merge_conflict::NAME);
            assert(finding_views(m@) =~= spec_merge(file@, t));
            let mut s = secrets::findings(file, text.as_str());
            assert(finding_views(s@) =~= spec_secrets(file@, t));
            let ghost (bv, mv, sv) = (finding_views(b@), finding_views(m@), finding_views(s@));
            out.append(&mut b);
            out.append(&mut m);
            out.append(&mut s);
            assert(finding_views(out@) =~= head + (bv + mv + sv));
        }
    }
    out
}

/// Every finding for one file, in reading order: the size finding under
/// `thresholds`, and, for text worth reading (not binary, within the
/// ceiling), banned terms, conflict markers and secrets in the text the
/// bytes decode to.
pub fn scan(file: &str, bytes: &[u8], thresholds: (u64, u64)) -> (r: Vec<Finding>)
    ensures
        in_reading_order(finding_views(r@)),
        finding_views(r@).to_multiset() == spec_collect(file@, bytes@, thresholds).to_multiset(),
{
    sorted(collect(file, bytes, thresholds))
}

} // verus!
