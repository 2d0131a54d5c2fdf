//! Classifying an installed hook file against what it should be: recover the
//! path baked into it, re-render the template with that path, and require
//! equality. Recovery is the comparison; there is no fuzzy middle.

use vstd::prelude::*;
use crate::text::{chars_of, string_of, push_chars, vec_eq, slice_of, occurs_at, matches_at, starts_with};
use crate::agents_md::{find_first, find_str, find_from, lemma_find_from_at, lemma_find_from_facts};

verus! {

/// What is installed at one dispatcher path.
#[derive(Debug, Clone, PartialEq, Eq)]
pub enum ShimState {
    /// Equal to the template rendered with `baked`.
    Intact { baked: String },
    /// Present, readable text, but not the template under any substitution.
    Drifted,
    Missing,
    /// A symlink, pointing anywhere — including at one of our own shims.
    Symlink { target: Option<String> },
    /// It exists and what it is could not be established.
    Unreadable { why: String },
}

/// Where the shims point, all four taken together.
#[derive(Debug, Clone, PartialEq, Eq)]
pub enum BakeState {
    /// Points at the binary we would install.
    Current,
    /// Points into a `node_modules` tree: the repository ships its own binary.
    SelfManaged { path: String },
    /// Points somewhere else.
    Stale { path: String },
    /// The placeholder survived.
    Unbaked,
    /// The shims disagree with each other about where the binary is.
    Mixed,
    /// Nothing installed to have an opinion about.
    Nothing,
}

/// `str::replace`: every occurrence of `pat`, left to right and without
/// overlap, from position `k` on, replaced by `rep`.
pub open spec fn replace_from(s: Seq<char>, pat: Seq<char>, rep: Seq<char>, k: int) -> Seq<char>
    decreases s.len() - k,
{
    if k < 0 || k >= s.len() || pat.len() == 0 {
        if 0 <= k < s.len() { s.skip(k) } else { seq![] }
    } else if occurs_at(s, pat, k) {
        rep + replace_from(s, pat, rep, k + pat.len())
    } else {
        seq![s[k]] + replace_from(s, pat, rep, k + 1)
    }
}

/// The template with every placeholder replaced by the binary's path.
pub open spec fn spec_render(template: Seq<char>, placeholder: Seq<char>, binary: Seq<char>) -> Seq<char> {
    replace_from(template, placeholder, binary, 0)
}

/// Bake `binary` into `template`: every occurrence of the placeholder,
/// including the ones in comments, is replaced.
pub fn render(template: &str, placeholder: &str, binary: &str) -> (r: String)
    requires
        placeholder@.len() > 0,
    ensures
        r@ == spec_render(template@, placeholder@, binary@),
{
    let t = chars_of(template);
    let p = chars_of(placeholder);
    let b = chars_of(binary);
    string_of(&render_chars(&t, &p, &b))
}

fn render_chars(t: &Vec<char>, p: &Vec<char>, b: &Vec<char>) -> (r: Vec<char>)
    requires
        p@.len() > 0,
    ensures
        r@ == spec_render(t@, p@, b@),
{
    let mut out: Vec<char> = Vec::new();
    let mut k: usize = 0;
    while k < t.len()
        invariant
            k <= t.len(),
            p@.len() > 0,
            out@ + replace_from(t@, p@, b@, k as int) == spec_render(t@, p@, b@),
        decreases t.len() - k,
    {
        let ghost before = out@;
        if p.len() <= t.len() - k && matches_at(t, p, k) {
            push_chars(&mut out, b);
            assert(before + replace_from(t@, p@, b@, k as int) =~= out@ + replace_from(t@, p@, b@, k + p.len()));
            k = k + p.len();
        } else {
            proof {
                if occurs_at(t@, p@, k as int) {
                    assert(p@.len() <= t@.len() - k);
                }
            }
            out.push(t[k]);
            assert(before + replace_from(t@, p@, b@, k as int) =~= out@ + replace_from(t@, p@, b@, k + 1));
            k = k + 1;
        }
    }
    assert(out@ + replace_from(t@, p@, b@, k as int) =~= out@);
    out
}

/// The template before its first placeholder (all of it when there is none).
pub open spec fn head_of(template: Seq<char>, placeholder: Seq<char>) -> Seq<char> {
    match find_first(template, placeholder) {
        Some(i) => template.take(i),
        None => template,
    }
}

/// The fixed text after the first placeholder, up to the second (or the
/// end); none when the template has no placeholder.
pub open spec fn tail_of(template: Seq<char>, placeholder: Seq<char>) -> Option<Seq<char>> {
    match find_first(template, placeholder) {
        Some(i) => {
            let after = template.skip(i + placeholder.len());
            match find_first(after, placeholder) {
                Some(j) => Some(after.take(j)),
                None => Some(after),
            }
        },
        None => None,
    }
}

/// The path a file was baked with, if it is the template under some
/// substitution: what follows the template's head up to the first fixed
/// text after the placeholder — accepted only when rendering it reproduces
/// the file exactly.
pub open spec fn spec_recover(installed: Seq<char>, template: Seq<char>, placeholder: Seq<char>) -> Option<Seq<char>> {
    let head = head_of(template, placeholder);
    if !starts_with(installed, head) {
        None
    } else {
        let rest = installed.skip(head.len() as int);
        match tail_of(template, placeholder) {
            None => None,
            Some(tail) => {
                let end = if tail.len() == 0 { Some(rest.len() as int) } else { find_first(rest, tail) };
                match end {
                    None => None,
                    Some(e) => {
                        let candidate = rest.take(e);
                        if spec_render(template, placeholder, candidate) == installed {
                            Some(candidate)
                        } else {
                            None
                        }
                    },
                }
            },
        }
    }
}

proof fn lemma_find_in(s: Seq<char>, w: Seq<char>, k: int)
    ensures
        find_from(s, w, k) matches Some(i) ==> 0 <= k <= i && i + w.len() <= s.len(),
    decreases s.len() + 1 - k,
{
    if !(k < 0 || k + w.len() > s.len()) && !occurs_at(s, w, k) {
        lemma_find_in(s, w, k + 1);
    }
}

/// Recover the substituted path, or `None` when this file is not the
/// template under any substitution.
pub fn recover_baked(installed: &str, template: &str, placeholder: &str) -> (r: Option<String>)
    requires
        placeholder@.len() > 0,
    ensures
        match r {
            Some(c) => spec_recover(installed@, template@, placeholder@) == Some(c@),
            None => spec_recover(installed@, template@, placeholder@) is None,
        },
{
    let x = chars_of(installed);
    let t = chars_of(template);
    let p = chars_of(placeholder);
    let first = find_str(&t, &p);
    proof {
        lemma_find_in(t@, p@, 0);
    }
    let head = match first {
        Some(i) => slice_of(&t, 0, i),
        None => slice_of(&t, 0, t.len()),
    };
    assert(head@ =~= head_of(t@, p@));
    if head.len() > x.len() || !matches_at(&x, &head, 0) {
        return None;
    }
    let rest = slice_of(&x, head.len(), x.len());
    assert(rest@ =~= x@.skip(head@.len() as int));
    let i = match first {
        Some(i) => i,
        None => {
            return None;
        },
    };
    let after = slice_of(&t, i + p.len(), t.len());
    assert(after@ =~= t@.skip(i + p@.len()));
    let second = find_str(&after, &p);
    proof {
        lemma_find_in(after@, p@, 0);
    }
    let tail = match second {
        Some(j) => slice_of(&after, 0, j),
        None => slice_of(&after, 0, after.len()),
    };
    assert(Some(tail@) == tail_of(t@, p@)) by {
        if second is None {
            assert(tail@ =~= after@);
        } else {
            assert(tail@ =~= after@.take(second->0 as int));
        }
    }
    let end = if tail.len() == 0 {
        rest.len()
    } else {
        match find_str(&rest, &tail) {
            Some(e) => {
                proof {
                    lemma_find_in(rest@, tail@, 0);
                }
                e
            },
            None => {
                return None;
            },
        }
    };
    let candidate = slice_of(&rest, 0, end);
    assert(candidate@ =~= rest@.take(end as int));
    let again = render_chars(&t, &p, &candidate);
    if vec_eq(&again, &x) {
        Some(string_of(&candidate))
    } else {
        None
    }
}

/// Rendering copies the template unchanged up to the next placeholder.
proof fn lemma_replace_until(s: Seq<char>, p: Seq<char>, b: Seq<char>, k: int, i: int)
    requires
        p.len() > 0,
        0 <= k <= i <= s.len(),
        forall|j: int| k <= j < i ==> !occurs_at(s, p, j),
    ensures
        replace_from(s, p, b, k) == s.subrange(k, i) + replace_from(s, p, b, i),
    decreases i - k,
{
    if k == i {
        assert(s.subrange(k, i) + replace_from(s, p, b, i) =~= replace_from(s, p, b, i));
    } else {
        lemma_replace_until(s, p, b, k + 1, i);
        assert(seq![s[k]] + (s.subrange(k + 1, i) + replace_from(s, p, b, i)) =~= s.subrange(k, i) + replace_from(s, p, b, i));
    }
}

/// Where the placeholder occurs after its first occurrence, read from the
/// text that follows that first occurrence.
proof fn lemma_occurs_shift(s: Seq<char>, p: Seq<char>, d: int, m: int)
    requires
        0 <= d <= s.len(),
        0 <= m,
    ensures
        occurs_at(s.skip(d), p, m) == occurs_at(s, p, d + m),
{
    if m + p.len() <= s.len() - d {
        assert(s.skip(d).subrange(m, m + p.len()) =~= s.subrange(d + m, d + m + p.len()));
    }
}

/// What rendering puts after the first placeholder: the fixed text up to
/// the second placeholder (or the end), then — if there is a second — the
/// binary again.
proof fn lemma_render_after(t: Seq<char>, p: Seq<char>, c: Seq<char>, i: int)
    requires
        p.len() > 0,
        occurs_at(t, p, i),
        tail_of(t, p) is Some,
        find_first(t, p) == Some(i),
    ensures
        ({
            let tail = tail_of(t, p)->0;
            let x = replace_from(t, p, c, i + p.len());
            &&& tail.len() <= x.len()
            &&& x.take(tail.len() as int) == tail
            &&& (find_first(t.skip(i + p.len()), p) is None ==> x == tail)
        }),
{
    let d = i + p.len();
    let after = t.skip(d);
    let tail = tail_of(t, p)->0;
    lemma_find_from_facts(after, p, 0);
    match find_first(after, p) {
        Some(j) => {
            assert forall|q: int| d <= q < d + j implies !occurs_at(t, p, q) by {
                lemma_occurs_shift(t, p, d, q - d);
            }
            lemma_occurs_shift(t, p, d, j);
            lemma_replace_until(t, p, c, d, d + j);
            assert(tail =~= t.subrange(d, d + j));
            let x = replace_from(t, p, c, d);
            assert(x == t.subrange(d, d + j) + (c + replace_from(t, p, c, d + j + p.len())));
            assert(x.take(tail.len() as int) =~= tail);
        },
        None => {
            assert forall|q: int| d <= q < t.len() implies !occurs_at(t, p, q) by {
                lemma_occurs_shift(t, p, d, q - d);
            }
            lemma_replace_until(t, p, c, d, t.len() as int);
            assert(replace_from(t, p, c, t.len() as int) =~= seq![]);
            assert(tail =~= t.subrange(d, t.len() as int));
            assert(replace_from(t, p, c, d) =~= tail);
        },
    }
}

/// Recovery undoes rendering: the path baked into a template comes back
/// out of the rendered file, for every path in which the template's fixed
/// text after the placeholder first occurs right after the path itself
/// (so that text marks where the path ends), and for every path when the
/// template ends with its only placeholder.
pub proof fn recover_undoes_render(template: Seq<char>, placeholder: Seq<char>, binary: Seq<char>)
    requires
        placeholder.len() > 0,
        tail_of(template, placeholder) is Some,
        ({
            let tail = tail_of(template, placeholder)->0;
            ||| tail.len() > 0 && find_first(binary + tail, tail) == Some(binary.len() as int)
            ||| find_first(template, placeholder) matches Some(i) && i + placeholder.len() == template.len()
        }),
    ensures
        spec_recover(spec_render(template, placeholder, binary), template, placeholder) == Some(binary),
{
    let t = template;
    let p = placeholder;
    let c = binary;
    let i = find_first(t, p)->0;
    lemma_find_from_facts(t, p, 0);
    let r = spec_render(t, p, c);
    lemma_replace_until(t, p, c, 0, i);
    let x = replace_from(t, p, c, i + p.len());
    assert(replace_from(t, p, c, i) == c + x);
    assert(r == t.subrange(0, i) + (c + x));
    let head = head_of(t, p);
    assert(head =~= t.subrange(0, i));
    assert(r.subrange(0, head.len() as int) =~= head);
    assert(starts_with(r, head));
    let rest = r.skip(head.len() as int);
    assert(rest =~= c + x);
    let tail = tail_of(t, p)->0;
    lemma_render_after(t, p, c, i);
    if tail.len() > 0 && find_first(c + tail, tail) == Some(c.len() as int) {
        lemma_find_from_facts(c + tail, tail, 0);
        assert(rest.subrange(c.len() as int, (c.len() + tail.len()) as int) =~= tail) by {
            assert(x.take(tail.len() as int) == tail);
        }
        assert forall|q: int| 0 <= q < c.len() implies !occurs_at(rest, tail, q) by {
            if occurs_at(rest, tail, q) {
                assert((c + tail).subrange(q, q + tail.len()) =~= rest.subrange(q, q + tail.len())) by {
                    assert forall|n: int| q <= n < q + tail.len() implies (c + tail)[n] == #[trigger] rest[n] by {
                        if n >= c.len() {
                            assert(x.take(tail.len() as int)[n - c.len()] == x[n - c.len()]);
                        }
                    }
                }
                assert(occurs_at(c + tail, tail, q));
            }
        }
        lemma_find_from_at(rest, tail, 0, c.len() as int);
        assert(rest.take(c.len() as int) =~= c);
    } else {
        assert(t.skip(i + p.len()) =~= seq![]);
        assert(find_first(t.skip(i + p.len()), p) is None);
        assert(tail =~= seq![]);
        assert(x =~= seq![]);
        assert(rest =~= c);
        assert(rest.take(rest.len() as int) =~= c);
    }
}

proof fn lemma_replace_with_itself(s: Seq<char>, p: Seq<char>, k: int)
    requires
        p.len() > 0,
        0 <= k <= s.len(),
    ensures
        replace_from(s, p, p, k) == s.skip(k),
    decreases s.len() - k,
{
    if k < s.len() {
        if occurs_at(s, p, k) {
            lemma_replace_with_itself(s, p, k + p.len());
            assert(s.subrange(k, k + p.len()) == p);
            assert(p + s.skip(k + p.len()) =~= s.skip(k));
        } else {
            lemma_replace_with_itself(s, p, k + 1);
            assert(seq![s[k]] + s.skip(k + 1) =~= s.skip(k));
        }
    } else {
        assert(s.skip(k) =~= seq![]);
    }
}

/// Baking the placeholder itself leaves the template as it is: an unbaked
/// shim is the template, and recovers as the placeholder.
pub proof fn rendering_the_placeholder_changes_nothing(template: Seq<char>, placeholder: Seq<char>)
    requires
        placeholder.len() > 0,
    ensures
        spec_render(template, placeholder, placeholder) == template,
{
    lemma_replace_with_itself(template, placeholder, 0);
    assert(template.skip(0) =~= template);
}

/// Does a path run through a `node_modules` directory? A whole path segment,
/// with `\` read as `/`: `node_modules-backup` is somebody's directory.
pub open spec fn package_managed(path: Seq<char>) -> bool {
    exists|i: int|
        0 <= i && i + 12 <= path.len() && #[trigger] path.subrange(i, i + 12) == "node_modules"@ && (i == 0
            || is_sep(path[i - 1])) && (i + 12 == path.len() || is_sep(path[i + 12]))
}

/// A path separator, either way round.
pub open spec fn is_sep(c: char) -> bool {
    c == '/' || c == '\\'
}

pub fn is_package_managed(path: &str) -> (r: bool)
    ensures
        r == package_managed(path@),
{
    proof {
        reveal_strlit("node_modules");
    }
    let s = chars_of(path);
    let nm = chars_of("node_modules");
    let mut i: usize = 0;
    while i < s.len()
        invariant
            i <= s.len(),
            nm@ == "node_modules"@,
            nm@.len() == 12,
            s@ == path@,
            forall|k: int| 0 <= k < i ==> !(k + 12 <= s@.len() && #[trigger] s@.subrange(k, k + 12) == "node_modules"@ && (k == 0
                || is_sep(s@[k - 1])) && (k + 12 == s@.len() || is_sep(s@[k + 12]))),
        decreases s.len() - i,
    {
        if s.len() - i >= 12 && matches_at(&s, &nm, i) {
            let before_ok = i == 0 || s[i - 1] == '/' || s[i - 1] == '\\';
            let after_ok = i + 12 == s.len() || s[i + 12] == '/' || s[i + 12] == '\\';
            if before_ok && after_ok {
                assert(s@.subrange(i as int, i + 12) == "node_modules"@);
                return true;
            }
        }
        i += 1;
    }
    false
}

pub open spec fn baked_of(s: ShimState) -> Option<Seq<char>> {
    match s {
        ShimState::Intact { baked } => Some(baked@),
        _ => None,
    }
}

/// The distinct baked paths among the first `k` shims, in order.
pub open spec fn distinct_bakes(shims: Seq<ShimState>, k: int) -> Seq<Seq<char>>
    decreases k,
{
    if k <= 0 {
        seq![]
    } else {
        let p = distinct_bakes(shims, k - 1);
        match baked_of(shims[k - 1]) {
            Some(b) => if p.contains(b) { p } else { p.push(b) },
            None => p,
        }
    }
}

/// Where the shims point, taken together: nowhere, a single path (the
/// placeholder, the installed binary, a package manager's binary, or some
/// other place), or several different paths.
pub open spec fn spec_bake_state(shims: Seq<ShimState>, installed: Seq<char>, placeholder: Seq<char>) -> (Seq<char>, int) {
    let d = distinct_bakes(shims, shims.len() as int);
    if d.len() == 0 {
        (seq![], 0)
    } else if d.len() > 1 {
        (seq![], 1)
    } else if d[0] == placeholder {
        (seq![], 2)
    } else if d[0] == installed {
        (seq![], 3)
    } else if package_managed(d[0]) {
        (d[0], 4)
    } else {
        (d[0], 5)
    }
}

/// A bake state as a path and a number for its variant.
pub open spec fn bake_view(b: BakeState) -> (Seq<char>, int) {
    match b {
        BakeState::Nothing => (seq![], 0),
        BakeState::Mixed => (seq![], 1),
        BakeState::Unbaked => (seq![], 2),
        BakeState::Current => (seq![], 3),
        BakeState::SelfManaged { path } => (path@, 4),
        BakeState::Stale { path } => (path@, 5),
    }
}

/// Collapse the shims' baked paths into one verdict. The exact match with
/// the installed binary is asked before the `node_modules` rule.
pub fn bake_state(shims: &[ShimState], installed_binary: &str, placeholder: &str) -> (r: BakeState)
    ensures
        bake_view(r) == spec_bake_state(shims@, installed_binary@, placeholder@),
{
    let mut d: Vec<Vec<char>> = Vec::new();
    let mut k: usize = 0;
    assert(crate::text::views(d@) =~= Seq::<Seq<char>>::empty());
    while k < shims.len()
        invariant
            k <= shims@.len(),
            crate::text::views(d@) == distinct_bakes(shims@, k as int),
        decreases shims.len() - k,
    {
        match &shims[k] {
            ShimState::Intact { baked } => {
                let b = chars_of(baked.as_str());
                let ghost before = crate::text::views(d@);
                let mut i: usize = 0;
                while i < d.len() && !vec_eq(&d[i], &b)
                    invariant
                        i <= d@.len(),
                        before == crate::text::views(d@),
                        forall|j: int| 0 <= j < i ==> d@[j]@ != b@,
                    decreases d.len() - i,
                {
                    i += 1;
                }
                if i == d.len() {
                    assert forall|j: int| 0 <= j < before.len() implies before[j] != b@ by {
                        assert(before[j] == d@[j]@);
                    }
                    d.push(b);
                    assert(crate::text::views(d@) =~= before.push(baked@));
                } else {
                    assert(before[i as int] == b@);
                }
            },
            _ => {},
        }
        k += 1;
    }
    if d.len() == 0 {
        BakeState::Nothing
    } else if d.len() > 1 {
        BakeState::Mixed
    } else {
        let one = &d[0];
        assert(crate::text::views(d@)[0] == one@);
        if vec_eq(one, &chars_of(placeholder)) {
            BakeState::Unbaked
        } else if vec_eq(one, &chars_of(installed_binary)) {
            BakeState::Current
        } else {
            let path = string_of(one);
            if is_package_managed(path.as_str()) {
                BakeState::SelfManaged { path }
            } else {
                BakeState::Stale { path }
            }
        }
    }
}

} // verus!
