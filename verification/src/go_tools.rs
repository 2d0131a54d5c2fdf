//! Go's checks: which files mean "this touches Go", which module each
//! belongs to, and what `gofmt -l` reported.

use vstd::prelude::*;
use crate::text::{chars_of, string_of, views, lines_of, split_lines, trim, trim_vec};
use crate::paths::{matches_any, matches_any_of, roots_of, root_of_some, path_sorted};
use crate::run_tests::strs;

verus! {

/// Files that mean "this touches Go": sources, and the module files whose
/// change compiles the same source differently.
pub open spec fn spec_go_paths() -> Seq<Seq<char>> {
    seq![".go"@, "go.mod"@, "go.sum"@]
}

pub fn go_paths() -> (r: Vec<&'static str>)
    ensures
        r@.map_values(|p: &str| p@) == spec_go_paths(),
{
    let r = vec![".go", "go.mod", "go.sum"];
    proof {
        reveal_strlit(".go");
        reveal_strlit("go.mod");
        reveal_strlit("go.sum");
        assert(r@.map_values(|p: &str| p@) =~= spec_go_paths());
    }
    r
}

pub fn is_go_path(f: &str) -> (r: bool)
    ensures
        r == matches_any(f@, spec_go_paths()),
{
    let ps = go_paths();
    matches_any_of(f, ps.as_slice())
}

/// The modules the Go files among `files` belong to, each once and in path
/// order: the nearest directory above each, up to the repository root,
/// among `module_dirs` — the directories holding a `go.mod`.
pub fn module_roots(files: &[&str], module_dirs: &[String]) -> (r: Vec<String>)
    ensures
        path_sorted(strs(r@)),
        forall|d: Seq<char>|
            #[trigger] strs(r@).contains(d) <==> root_of_some(
                files@.map_values(|f: &str| f@),
                strs(module_dirs@),
                spec_go_paths(),
                d,
            ),
{
    let ps = go_paths();
    roots_of(files, module_dirs, ps.as_slice())
}

/// The lines of `ls[0..k]` that are not blank, trimmed.
pub open spec fn listed_upto(ls: Seq<Seq<char>>, k: int) -> Seq<Seq<char>>
    decreases k,
{
    if k <= 0 {
        seq![]
    } else if trim(ls[k - 1]).len() > 0 {
        listed_upto(ls, k - 1).push(trim(ls[k - 1]))
    } else {
        listed_upto(ls, k - 1)
    }
}

/// What `gofmt -l` over `files` found unformatted: the files it listed, one
/// per line — or, when it could not parse one of them, all of them.
pub fn unformatted(exit_ok: bool, out: &str, files: &[String]) -> (r: Vec<String>)
    ensures
        !exit_ok ==> strs(r@) == strs(files@),
        exit_ok ==> strs(r@) == listed_upto(lines_of(out@), lines_of(out@).len() as int),
{
    let mut r: Vec<String> = Vec::new();
    if !exit_ok {
        let mut k: usize = 0;
        while k < files.len()
            invariant
                k <= files@.len(),
                strs(r@) == strs(files@).take(k as int),
            decreases files.len() - k,
        {
            let ghost before = strs(r@);
            let s = string_of(&chars_of(files[k].as_str()));
            r.push(s);
            proof {
                assert(strs(r@) =~= before.push(files@[k as int]@));
                assert(strs(files@).take(k + 1) =~= strs(files@).take(k as int).push(strs(files@)[k as int]));
            }
            k += 1;
        }
        assert(strs(files@).take(files@.len() as int) =~= strs(files@));
        return r;
    }
    let ls = split_lines(&chars_of(out));
    let mut k: usize = 0;
    while k < ls.len()
        invariant
            k <= ls@.len(),
            views(ls@) == lines_of(out@),
            strs(r@) == listed_upto(views(ls@), k as int),
        decreases ls.len() - k,
    {
        assert(views(ls@)[k as int] == ls@[k as int]@);
        let t = trim_vec(&ls[k]);
        if t.len() > 0 {
            let ghost before = strs(r@);
            let s = string_of(&t);
            r.push(s);
            assert(strs(r@) =~= before.push(t@));
        }
        k += 1;
    }
    r
}

} // verus!
