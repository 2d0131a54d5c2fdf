//! Repository-relative paths: a file's name and directory, the nearest
//! enclosing directory that holds a project manifest, and the order a
//! `BTreeSet<PathBuf>` keeps paths in — component by component, so a path
//! comes before every path below it.

use vstd::prelude::*;
use crate::text::{ends_with, chars_of, string_of, vec_eq, vec_ends_with, slice_of, views};
use crate::run_tests::{last_index, spec_parent, parent_of, strs};

verus! {

/// A file's name: what follows its last `/`.
pub open spec fn file_name(f: Seq<char>) -> Seq<char> {
    match last_index(f, '/', f.len() as int) {
        Some(i) => f.skip(i + 1),
        None => f,
    }
}

pub proof fn lemma_last_index(s: Seq<char>, c: char, k: int)
    requires
        0 <= k <= s.len(),
    ensures
        last_index(s, c, k) matches Some(i) ==> 0 <= i < k && s[i] == c,
        last_index(s, c, k) is None ==> forall|m: int| 0 <= m < k ==> s[m] != c,
    decreases k,
{
    if k > 0 && s[k - 1] != c {
        lemma_last_index(s, c, k - 1);
    }
}

pub fn file_name_of(f: &Vec<char>) -> (r: Vec<char>)
    ensures
        r@ == file_name(f@),
{
    let mut k = f.len();
    while k > 0 && f[k - 1] != '/'
        invariant
            k <= f.len(),
            last_index(f@, '/', k as int) == last_index(f@, '/', f@.len() as int),
        decreases k,
    {
        k -= 1;
    }
    if k == 0 {
        slice_of(f, 0, f.len())
    } else {
        slice_of(f, k, f.len())
    }
}

/// Does a file's name match one of the patterns: a pattern starting with
/// `.` is an extension, any other is the whole name.
pub open spec fn name_matches(name: Seq<char>, pattern: Seq<char>) -> bool {
    if pattern.len() > 0 && pattern[0] == '.' {
        ends_with(name, pattern)
    } else {
        name == pattern
    }
}

pub open spec fn matches_any(f: Seq<char>, patterns: Seq<Seq<char>>) -> bool {
    exists|k: int| 0 <= k < patterns.len() && name_matches(file_name(f), #[trigger] patterns[k])
}

pub fn matches_any_of(f: &str, patterns: &[&str]) -> (r: bool)
    ensures
        r == matches_any(f@, patterns@.map_values(|p: &str| p@)),
{
    let name = file_name_of(&chars_of(f));
    let ghost ps = patterns@.map_values(|p: &str| p@);
    let mut k: usize = 0;
    while k < patterns.len()
        invariant
            k <= patterns@.len(),
            ps == patterns@.map_values(|p: &str| p@),
            name@ == file_name(f@),
            forall|m: int| 0 <= m < k ==> !name_matches(file_name(f@), #[trigger] ps[m]),
        decreases patterns.len() - k,
    {
        let p = chars_of(patterns[k]);
        assert(p@ == ps[k as int]);
        let hit = if p.len() > 0 && p[0] == '.' {
            vec_ends_with(&name, &p)
        } else {
            vec_eq(&name, &p)
        };
        if hit {
            return true;
        }
        k += 1;
    }
    false
}

// ---------------------------------------------------------------------------
// The order of paths

/// `c` sorts before `d` in a path: `/` ends a component, so it sorts before
/// every other character.
pub open spec fn char_before(c: char, d: char) -> bool {
    c != d && (c == '/' || (d != '/' && c < d))
}

/// Component-wise order: a path comes before every path below it.
pub open spec fn path_less(a: Seq<char>, b: Seq<char>) -> bool
    decreases a.len(),
{
    if a.len() == 0 {
        b.len() > 0
    } else if b.len() == 0 {
        false
    } else if a[0] != b[0] {
        char_before(a[0], b[0])
    } else {
        path_less(a.skip(1), b.skip(1))
    }
}

pub proof fn lemma_path_less_irrefl(a: Seq<char>)
    ensures
        !path_less(a, a),
    decreases a.len(),
{
    if a.len() > 0 {
        lemma_path_less_irrefl(a.skip(1));
    }
}

pub proof fn lemma_path_less_trans(a: Seq<char>, b: Seq<char>, c: Seq<char>)
    requires
        path_less(a, b),
        path_less(b, c),
    ensures
        path_less(a, c),
    decreases a.len(),
{
    if a.len() > 0 && b.len() > 0 && c.len() > 0 && a[0] == b[0] && b[0] == c[0] {
        lemma_path_less_trans(a.skip(1), b.skip(1), c.skip(1));
    }
}

pub proof fn lemma_path_less_total(a: Seq<char>, b: Seq<char>)
    requires
        a != b,
    ensures
        path_less(a, b) || path_less(b, a),
    decreases a.len(),
{
    if a.len() > 0 && b.len() > 0 && a[0] == b[0] {
        if a.skip(1) == b.skip(1) {
            assert(a =~= seq![a[0]] + a.skip(1));
            assert(b =~= seq![b[0]] + b.skip(1));
        } else {
            lemma_path_less_total(a.skip(1), b.skip(1));
        }
    } else if a.len() == 0 && b.len() == 0 {
        assert(a =~= b);
    }
}

pub fn path_less_exec(a: &Vec<char>, b: &Vec<char>) -> (r: bool)
    ensures
        r == path_less(a@, b@),
{
    let mut i: usize = 0;
    assert(a@.skip(0) =~= a@);
    assert(b@.skip(0) =~= b@);
    while i < a.len() && i < b.len() && a[i] == b[i]
        invariant
            i <= a.len(),
            i <= b.len(),
            path_less(a@.skip(i as int), b@.skip(i as int)) == path_less(a@, b@),
        decreases a.len() - i,
    {
        assert(a@.skip(i as int).skip(1) =~= a@.skip(i + 1));
        assert(b@.skip(i as int).skip(1) =~= b@.skip(i + 1));
        i += 1;
    }
    if i == a.len() {
        i < b.len()
    } else if i == b.len() {
        false
    } else {
        a[i] == '/' || (b[i] != '/' && a[i] < b[i])
    }
}

/// In path order, each path once.
pub open spec fn path_sorted(s: Seq<Seq<char>>) -> bool {
    forall|i: int, j: int| 0 <= i < j < s.len() ==> path_less(#[trigger] s[i], #[trigger] s[j])
}

/// Insert `x` into a path-sorted vector, unless it is already there.
pub fn insert_path(v: &mut Vec<Vec<char>>, x: Vec<char>)
    requires
        path_sorted(views(old(v)@)),
    ensures
        path_sorted(views(final(v)@)),
        forall|d: Seq<char>| #[trigger] views(final(v)@).contains(d) <==> (views(old(v)@).contains(d) || d == x@),
{
    let ghost before = views(v@);
    let mut i: usize = 0;
    while i < v.len() && path_less_exec(&v[i], &x)
        invariant
            i <= v.len(),
            views(v@) == before,
            forall|m: int| 0 <= m < i ==> path_less(#[trigger] before[m], x@),
        decreases v.len() - i,
    {
        i += 1;
    }
    if i < v.len() && vec_eq(&v[i], &x) {
        proof {
            assert(before[i as int] == x@);
            assert(before.contains(x@));
        }
        return;
    }
    proof {
        if i < v.len() {
            assert(before[i as int] == v@[i as int]@);
            lemma_path_less_total(x@, before[i as int]);
        }
    }
    let ghost xv = x@;
    v.insert(i, x);
    let ghost after = views(v@);
    proof {
        assert(after =~= before.insert(i as int, xv));
        assert forall|a: int, b: int| 0 <= a < b < after.len() implies path_less(#[trigger] after[a], #[trigger] after[b]) by {
            if b < i {
                assert(after[a] == before[a] && after[b] == before[b]);
            } else if b == i {
                assert(after[a] == before[a] && after[b] == xv);
            } else {
                assert(after[b] == before[b - 1]);
                if a < i {
                    assert(after[a] == before[a]);
                } else if a == i {
                    assert(after[a] == xv);
                    if b - 1 > i {
                        lemma_path_less_trans(xv, before[i as int], before[b - 1]);
                    }
                } else {
                    assert(after[a] == before[a - 1]);
                }
            }
        }
        assert forall|d: Seq<char>| #[trigger] after.contains(d) <==> (before.contains(d) || d == xv) by {
            if after.contains(d) {
                let m = choose|m: int| 0 <= m < after.len() && after[m] == d;
                if m < i {
                    assert(before[m] == d);
                } else if m > i {
                    assert(before[m - 1] == d);
                }
            }
            if before.contains(d) {
                let m = choose|m: int| 0 <= m < before.len() && before[m] == d;
                if m < i {
                    assert(after[m] == d);
                } else {
                    assert(after[m + 1] == d);
                }
            }
            if d == xv {
                assert(after[i as int] == d);
            }
        }
    }
}

// ---------------------------------------------------------------------------
// The nearest project root

pub proof fn lemma_parent_shorter(p: Seq<char>)
    requires
        p.len() > 0,
    ensures
        spec_parent(p).len() < p.len(),
{
    lemma_last_index(p, '/', p.len() as int);
}

/// The nearest of `dir` and its ancestors, up to the repository root (the
/// empty path), that is one of `roots`.
pub open spec fn nearest_root(dir: Seq<char>, roots: Seq<Seq<char>>) -> Option<Seq<char>>
    decreases dir.len(),
{
    if roots.contains(dir) {
        Some(dir)
    } else if dir.len() == 0 {
        None
    } else {
        proof {
            lemma_parent_shorter(dir);
        }
        nearest_root(spec_parent(dir), roots)
    }
}

fn contains_path(roots: &[String], d: &Vec<char>) -> (r: bool)
    ensures
        r == strs(roots@).contains(d@),
{
    let mut k: usize = 0;
    while k < roots.len()
        invariant
            k <= roots@.len(),
            forall|m: int| 0 <= m < k ==> strs(roots@)[m] != d@,
        decreases roots.len() - k,
    {
        assert(strs(roots@)[k as int] == roots@[k as int]@);
        if vec_eq(&chars_of(roots[k].as_str()), d) {
            return true;
        }
        k += 1;
    }
    proof {
        if strs(roots@).contains(d@) {
            let m = choose|m: int| 0 <= m < strs(roots@).len() && strs(roots@)[m] == d@;
        }
    }
    false
}

/// The project a file belongs to: the nearest directory above it, up to
/// the repository root, that holds the manifest. `roots` lists the
/// directories that do, relative to the repository.
pub fn root_for(file: &Vec<char>, roots: &[String]) -> (r: Option<Vec<char>>)
    ensures
        match r {
            Some(d) => nearest_root(spec_parent(file@), strs(roots@)) == Some(d@),
            None => nearest_root(spec_parent(file@), strs(roots@)) is None,
        },
{
    let mut dir = parent_of(file);
    loop
        invariant
            nearest_root(dir@, strs(roots@)) == nearest_root(spec_parent(file@), strs(roots@)),
        decreases dir@.len(),
    {
        if contains_path(roots, &dir) {
            return Some(dir);
        }
        if dir.len() == 0 {
            return None;
        }
        proof {
            lemma_parent_shorter(dir@);
        }
        dir = parent_of(&dir);
    }
}

/// `d` is the project root of one of the first `k` files that `kind`
/// accepts.
pub open spec fn root_upto(files: Seq<Seq<char>>, roots: Seq<Seq<char>>, kind: Seq<Seq<char>>, k: int, d: Seq<char>) -> bool {
    exists|m: int|
        0 <= m < k && matches_any(#[trigger] files[m], kind) && nearest_root(spec_parent(files[m]), roots) == Some(d)
}

/// `d` is the project root of some file among `files` that `kind` accepts.
pub open spec fn root_of_some(files: Seq<Seq<char>>, roots: Seq<Seq<char>>, kind: Seq<Seq<char>>, d: Seq<char>) -> bool {
    root_upto(files, roots, kind, files.len() as int, d)
}

proof fn lemma_root_step(files: Seq<Seq<char>>, roots: Seq<Seq<char>>, kind: Seq<Seq<char>>, k: int, d: Seq<char>)
    requires
        0 <= k < files.len(),
    ensures
        root_upto(files, roots, kind, k + 1, d) <==> (root_upto(files, roots, kind, k, d) || (matches_any(
            files[k],
            kind,
        ) && nearest_root(spec_parent(files[k]), roots) == Some(d))),
{
    if root_upto(files, roots, kind, k + 1, d) {
        let m = choose|m: int|
            0 <= m < k + 1 && matches_any(#[trigger] files[m], kind) && nearest_root(spec_parent(files[m]), roots) == Some(d);
        if m < k {
            assert(root_upto(files, roots, kind, k, d));
        }
    }
    if matches_any(files[k], kind) && nearest_root(spec_parent(files[k]), roots) == Some(d) {
        assert(root_upto(files, roots, kind, k + 1, d));
    }
}

/// The project roots of the files that match `kind`, each once, in path
/// order — one tool invocation per root.
pub fn roots_of(files: &[&str], roots: &[String], kind: &[&str]) -> (r: Vec<String>)
    ensures
        path_sorted(strs(r@)),
        forall|d: Seq<char>|
            #[trigger] strs(r@).contains(d) <==> root_of_some(
                files@.map_values(|f: &str| f@),
                strs(roots@),
                kind@.map_values(|p: &str| p@),
                d,
            ),
{
    let ghost fs = files@.map_values(|f: &str| f@);
    let ghost ks = kind@.map_values(|p: &str| p@);
    let ghost rs = strs(roots@);
    let mut found: Vec<Vec<char>> = Vec::new();
    let mut k: usize = 0;
    while k < files.len()
        invariant
            k <= files@.len(),
            fs == files@.map_values(|f: &str| f@),
            ks == kind@.map_values(|p: &str| p@),
            rs == strs(roots@),
            path_sorted(views(found@)),
            forall|d: Seq<char>| #[trigger] views(found@).contains(d) <==> root_upto(fs, rs, ks, k as int, d),
        decreases files.len() - k,
    {
        let f = chars_of(files[k]);
        assert(f@ == fs[k as int]);
        let ghost before = views(found@);
        let matched = matches_any_of(files[k], kind);
        let root = if matched {
            root_for(&f, roots)
        } else {
            None
        };
        match root {
            Some(d) => {
                let ghost dv = d@;
                insert_path(&mut found, d);
                proof {
                    assert forall|x: Seq<char>| #[trigger] views(found@).contains(x) <==> root_upto(fs, rs, ks, k + 1, x) by {
                        lemma_root_step(fs, rs, ks, k as int, x);
                    }
                }
            },
            None => {
                proof {
                    assert forall|x: Seq<char>| #[trigger] views(found@).contains(x) <==> root_upto(fs, rs, ks, k + 1, x) by {
                        lemma_root_step(fs, rs, ks, k as int, x);
                    }
                }
            },
        }
        k += 1;
    }
    let mut out: Vec<String> = Vec::new();
    let mut j: usize = 0;
    while j < found.len()
        invariant
            j <= found@.len(),
            strs(out@) == views(found@).take(j as int),
        decreases found.len() - j,
    {
        let ghost before = strs(out@);
        let s = string_of(&found[j]);
        out.push(s);
        proof {
            assert(strs(out@) =~= before.push(found@[j as int]@));
            assert(views(found@).take(j + 1) =~= views(found@).take(j as int).push(views(found@)[j as int]));
        }
        j += 1;
    }
    assert(views(found@).take(found@.len() as int) =~= views(found@));
    out
}

} // verus!
