//! Commit-time gate stamps: which declared gates ran clean on a commit's
//! tree, so the push that carries the commit need not run them again.
//!
//! pre-commit leaves a marker — the format, the staged tree, one gate per
//! line — and post-commit binds it to the commit as a note, only when the
//! commit's tree is the one the gates saw. At push time the notes are read
//! back, keyed by the commit or, when the commit was rewritten, by its
//! tree. This module holds the bytes of both and the reading of git's
//! answers; moving them between git and the disk is the caller's.

use vstd::prelude::*;
use crate::text::{chars_of, string_of, vec_eq, push_str, push_chars, lines_of, split_lines, views, trim, trim_vec,
    plain_line, lemma_lines_of_append, lemma_lines_of_line, is_space, find_char, lemma_find_char_at};
use crate::ledger::{words, split_words, is_word, lemma_words_cons, lemma_words_single};
use crate::naming::{join_with, lemma_join_front};
use crate::run_tests::strs;

verus! {

/// The first token of every marker and note; anything else is not ours.
pub const FORMAT: &'static str = "amont-gate-v1";
pub const NOTES_REF: &'static str = "amont-gate";
pub const NOTES_FULL_REF: &'static str = "refs/notes/amont-gate";
/// The marker's file name under the git directory.
pub const MARKER: &'static str = "amont-gate";

/// Each script on a line of its own.
pub open spec fn script_lines(scripts: Seq<Seq<char>>, k: int) -> Seq<char>
    decreases k,
{
    if k <= 0 || k > scripts.len() {
        Seq::empty()
    } else {
        script_lines(scripts, k - 1) + scripts[k - 1] + "\n"@
    }
}

/// What pre-commit leaves for post-commit: the format, the staged tree,
/// then the gates that ran clean.
pub open spec fn spec_marker_body(tree: Seq<char>, scripts: Seq<Seq<char>>) -> Seq<char> {
    FORMAT@ + "\n"@ + tree + "\n"@ + script_lines(scripts, scripts.len() as int)
}

pub fn marker_body(tree: &str, scripts: &[String]) -> (r: String)
    ensures
        r@ == spec_marker_body(tree@, strs(scripts@)),
{
    let ghost ss = strs(scripts@);
    let mut out = chars_of(FORMAT);
    push_str(&mut out, "\n");
    push_str(&mut out, tree);
    push_str(&mut out, "\n");
    let ghost head = out@;
    let mut k: usize = 0;
    while k < scripts.len()
        invariant
            k <= scripts@.len(),
            ss == strs(scripts@),
            out@ == head + script_lines(ss, k as int),
        decreases scripts.len() - k,
    {
        assert(ss[k as int] == scripts@[k as int]@);
        push_str(&mut out, scripts[k].as_str());
        push_str(&mut out, "\n");
        assert(out@ =~= head + script_lines(ss, k + 1));
        k += 1;
    }
    string_of(&out)
}

/// The non-blank lines among `ls[from..k]`, as they stand.
pub open spec fn nonblank_from(ls: Seq<Seq<char>>, from: int, k: int) -> Seq<Seq<char>>
    decreases k - from,
{
    if k <= from || k > ls.len() {
        Seq::empty()
    } else if trim(ls[k - 1]).len() > 0 {
        nonblank_from(ls, from, k - 1).push(ls[k - 1])
    } else {
        nonblank_from(ls, from, k - 1)
    }
}

/// A marker back into its tree and gates: `None` for another format, a
/// marker cut short, or one that names no gate.
pub open spec fn spec_read_marker(body: Seq<char>) -> Option<(Seq<char>, Seq<Seq<char>>)> {
    let ls = lines_of(body);
    if ls.len() < 2 || ls[0] != FORMAT@ {
        None
    } else {
        let scripts = nonblank_from(ls, 2, ls.len() as int);
        if scripts.len() == 0 {
            None
        } else {
            Some((ls[1], scripts))
        }
    }
}

pub fn read_marker(body: &str) -> (r: Option<(String, Vec<String>)>)
    ensures
        match r {
            Some((t, s)) => spec_read_marker(body@) == Some((t@, strs(s@))),
            None => spec_read_marker(body@) is None,
        },
{
    let ls = split_lines(&chars_of(body));
    let ghost lv = views(ls@);
    if ls.len() < 2 {
        return None;
    }
    assert(lv[0] == ls@[0]@);
    assert(lv[1] == ls@[1]@);
    if !vec_eq(&ls[0], &chars_of(FORMAT)) {
        return None;
    }
    let mut scripts: Vec<String> = Vec::new();
    let mut k: usize = 2;
    while k < ls.len()
        invariant
            2 <= k <= ls@.len(),
            lv == views(ls@),
            strs(scripts@) == nonblank_from(lv, 2, k as int),
        decreases ls.len() - k,
    {
        assert(lv[k as int] == ls@[k as int]@);
        let t = trim_vec(&ls[k]);
        if t.len() > 0 {
            let ghost before = strs(scripts@);
            let s = string_of(&ls[k]);
            scripts.push(s);
            assert(strs(scripts@) =~= before.push(lv[k as int]));
        }
        k += 1;
    }
    if scripts.len() == 0 {
        return None;
    }
    Some((string_of(&ls[1]), scripts))
}

/// The note post-commit writes: the format and the gates, on one line.
pub open spec fn spec_stamp_note(scripts: Seq<Seq<char>>) -> Seq<char> {
    FORMAT@ + " "@ + join_with(scripts, " "@, scripts.len() as int)
}

pub fn stamp_note(scripts: &[String]) -> (r: String)
    ensures
        r@ == spec_stamp_note(strs(scripts@)),
{
    let ghost ss = strs(scripts@);
    let mut joined: Vec<char> = Vec::new();
    let mut k: usize = 0;
    while k < scripts.len()
        invariant
            k <= scripts@.len(),
            ss == strs(scripts@),
            joined@ == join_with(ss, " "@, k as int),
        decreases scripts.len() - k,
    {
        if k > 0 {
            push_str(&mut joined, " ");
        }
        push_str(&mut joined, scripts[k].as_str());
        assert(ss[k as int] == scripts@[k as int]@);
        k += 1;
    }
    let mut out = chars_of(FORMAT);
    push_str(&mut out, " ");
    push_chars(&mut out, &joined);
    string_of(&out)
}

/// What post-commit binds: the marker's gates, when the commit's tree is
/// the tree they ran on.
pub open spec fn spec_bind(marker: Seq<char>, head_tree: Seq<char>) -> Option<Seq<Seq<char>>> {
    match spec_read_marker(marker) {
        Some((tree, scripts)) => if tree == head_tree { Some(scripts) } else { None },
        None => None,
    }
}

pub fn bind(marker: &str, head_tree: &str) -> (r: Option<Vec<String>>)
    ensures
        match r {
            Some(s) => spec_bind(marker@, head_tree@) == Some(strs(s@)),
            None => spec_bind(marker@, head_tree@) is None,
        },
{
    match read_marker(marker) {
        Some((tree, scripts)) => {
            if vec_eq(&chars_of(tree.as_str()), &chars_of(head_tree)) {
                Some(scripts)
            } else {
                None
            }
        },
        None => None,
    }
}

/// The second word of each line among the first `k`: the objects
/// `git notes list` says carry a note.
pub open spec fn noted_upto(ls: Seq<Seq<char>>, k: int) -> Seq<Seq<char>>
    decreases k,
{
    if k <= 0 || k > ls.len() {
        Seq::empty()
    } else if words(ls[k - 1]).len() >= 2 {
        noted_upto(ls, k - 1).push(words(ls[k - 1])[1])
    } else {
        noted_upto(ls, k - 1)
    }
}

pub open spec fn spec_noted(list: Seq<char>) -> Seq<Seq<char>> {
    noted_upto(lines_of(list), lines_of(list).len() as int)
}

pub fn noted_objects(list: &str) -> (r: Vec<String>)
    ensures
        strs(r@) == spec_noted(list@),
{
    let ls = split_lines(&chars_of(list));
    let ghost lv = views(ls@);
    let mut r: Vec<String> = Vec::new();
    let mut k: usize = 0;
    while k < ls.len()
        invariant
            k <= ls@.len(),
            lv == views(ls@),
            lv == lines_of(list@),
            strs(r@) == noted_upto(lv, k as int),
        decreases ls.len() - k,
    {
        assert(lv[k as int] == ls@[k as int]@);
        let w = split_words(&ls[k]);
        if w.len() >= 2 {
            assert(views(w@)[1] == w@[1]@);
            let ghost before = strs(r@);
            let s = string_of(&w[1]);
            r.push(s);
            assert(strs(r@) =~= before.push(words(lv[k as int])[1]));
        }
        k += 1;
    }
    r
}

/// `(commit, tree)` for each line among the first `k` of `git log
/// --format='%H %T'` that has both.
pub open spec fn pairs_upto(ls: Seq<Seq<char>>, k: int) -> Seq<(Seq<char>, Seq<char>)>
    decreases k,
{
    if k <= 0 || k > ls.len() {
        Seq::empty()
    } else if words(ls[k - 1]).len() >= 2 {
        pairs_upto(ls, k - 1).push((words(ls[k - 1])[0], words(ls[k - 1])[1]))
    } else {
        pairs_upto(ls, k - 1)
    }
}

pub open spec fn spec_commit_trees(log: Seq<char>) -> Seq<(Seq<char>, Seq<char>)> {
    pairs_upto(lines_of(log), lines_of(log).len() as int)
}

pub open spec fn pair_views(ps: Seq<(String, String)>) -> Seq<(Seq<char>, Seq<char>)> {
    ps.map_values(|p: (String, String)| (p.0@, p.1@))
}

pub fn commit_trees(log: &str) -> (r: Vec<(String, String)>)
    ensures
        pair_views(r@) == spec_commit_trees(log@),
{
    let ls = split_lines(&chars_of(log));
    let ghost lv = views(ls@);
    let mut r: Vec<(String, String)> = Vec::new();
    let mut k: usize = 0;
    while k < ls.len()
        invariant
            k <= ls@.len(),
            lv == views(ls@),
            lv == lines_of(log@),
            pair_views(r@) == pairs_upto(lv, k as int),
        decreases ls.len() - k,
    {
        assert(lv[k as int] == ls@[k as int]@);
        let w = split_words(&ls[k]);
        if w.len() >= 2 {
            assert(views(w@)[0] == w@[0]@);
            assert(views(w@)[1] == w@[1]@);
            let ghost before = pair_views(r@);
            let p = (string_of(&w[0]), string_of(&w[1]));
            r.push(p);
            assert(pair_views(r@) =~= before.push((words(lv[k as int])[0], words(lv[k as int])[1])));
        }
        k += 1;
    }
    r
}

/// The tree recorded for `commit` among the first `k` pairs; a later pair
/// for the same commit wins, as a map insert would have it.
pub open spec fn tree_of(trees: Seq<(Seq<char>, Seq<char>)>, commit: Seq<char>, k: int) -> Option<Seq<char>>
    decreases k,
{
    if k <= 0 || k > trees.len() {
        None
    } else if trees[k - 1].0 == commit {
        Some(trees[k - 1].1)
    } else {
        tree_of(trees, commit, k - 1)
    }
}

/// Where a commit's stamp is read from: the commit itself when it carries
/// a note; else its tree, when that does — a rewrite that kept the tree
/// keeps the stamp; else nowhere.
pub open spec fn spec_stamp_key(commit: Seq<char>, noted: Seq<Seq<char>>, trees: Seq<(Seq<char>, Seq<char>)>) -> Option<Seq<char>> {
    if noted.contains(commit) {
        Some(commit)
    } else {
        match tree_of(trees, commit, trees.len() as int) {
            Some(t) => if noted.contains(t) { Some(t) } else { None },
            None => None,
        }
    }
}

fn listed(noted: &[String], x: &Vec<char>) -> (r: bool)
    ensures
        r == strs(noted@).contains(x@),
{
    let ghost ns = strs(noted@);
    let mut k: usize = 0;
    while k < noted.len()
        invariant
            k <= noted@.len(),
            ns == strs(noted@),
            forall|m: int| 0 <= m < k ==> ns[m] != x@,
        decreases noted.len() - k,
    {
        assert(ns[k as int] == noted@[k as int]@);
        if vec_eq(&chars_of(noted[k].as_str()), x) {
            assert(ns[k as int] == x@);
            return true;
        }
        k += 1;
    }
    false
}

pub fn stamp_key(commit: &str, noted: &[String], trees: &[(String, String)]) -> (r: Option<String>)
    ensures
        match r {
            Some(k) => spec_stamp_key(commit@, strs(noted@), pair_views(trees@)) == Some(k@),
            None => spec_stamp_key(commit@, strs(noted@), pair_views(trees@)) is None,
        },
{
    let c = chars_of(commit);
    if listed(noted, &c) {
        return Some(string_of(&c));
    }
    let ghost tv = pair_views(trees@);
    let mut k: usize = trees.len();
    while k > 0
        invariant
            k <= trees@.len(),
            tv == pair_views(trees@),
            c@ == commit@,
            tv.len() == trees@.len(),
            !strs(noted@).contains(commit@),
            tree_of(tv, commit@, k as int) == tree_of(tv, commit@, tv.len() as int),
        decreases k,
    {
        assert(tv[k - 1] == (trees@[k - 1].0@, trees@[k - 1].1@));
        if vec_eq(&chars_of(trees[k - 1].0.as_str()), &c) {
            let t = chars_of(trees[k - 1].1.as_str());
            if listed(noted, &t) {
                return Some(string_of(&t));
            }
            return None;
        }
        k -= 1;
    }
    None
}

/// The gates a note names: the words of its first line after the format,
/// or `None` for a note that is not ours.
pub open spec fn spec_note_gates(body: Seq<char>) -> Option<Seq<Seq<char>>> {
    let ls = lines_of(body);
    if ls.len() == 0 {
        None
    } else {
        let w = words(ls[0]);
        if w.len() == 0 || w[0] != FORMAT@ {
            None
        } else {
            Some(w.skip(1))
        }
    }
}

pub fn note_gates(body: &str) -> (r: Option<Vec<String>>)
    ensures
        match r {
            Some(g) => spec_note_gates(body@) == Some(strs(g@)),
            None => spec_note_gates(body@) is None,
        },
{
    let ls = split_lines(&chars_of(body));
    if ls.len() == 0 {
        return None;
    }
    assert(views(ls@)[0] == ls@[0]@);
    let w = split_words(&ls[0]);
    if w.len() == 0 {
        return None;
    }
    assert(views(w@)[0] == w@[0]@);
    if !vec_eq(&w[0], &chars_of(FORMAT)) {
        return None;
    }
    let ghost wv = views(w@);
    let mut g: Vec<String> = Vec::new();
    let mut k: usize = 1;
    while k < w.len()
        invariant
            1 <= k <= w@.len(),
            wv == views(w@),
            strs(g@) == wv.subrange(1, k as int),
        decreases w.len() - k,
    {
        assert(wv[k as int] == w@[k as int]@);
        let ghost before = strs(g@);
        g.push(string_of(&w[k]));
        assert(strs(g@) =~= before.push(wv[k as int]));
        assert(wv.subrange(1, k + 1) =~= wv.subrange(1, k as int).push(wv[k as int]));
        k += 1;
    }
    assert(wv.subrange(1, wv.len() as int) =~= wv.skip(1));
    Some(g)
}

// ---------------------------------------------------------------------------
// What post-commit reads back of what pre-commit wrote

proof fn lemma_script_lines(ss: Seq<Seq<char>>, k: int)
    requires
        0 <= k <= ss.len(),
        forall|i: int| 0 <= i < ss.len() ==> plain_line(#[trigger] ss[i]),
    ensures
        lines_of(script_lines(ss, k)) == ss.take(k),
        script_lines(ss, k).len() == 0 || script_lines(ss, k).last() == '\n',
    decreases k,
{
    reveal_strlit("\n");
    if k == 0 {
        assert(lines_of(Seq::<char>::empty()) =~= Seq::<Seq<char>>::empty());
        assert(ss.take(0) =~= Seq::<Seq<char>>::empty());
    } else {
        lemma_script_lines(ss, k - 1);
        let before = script_lines(ss, k - 1);
        let line = ss[k - 1] + "\n"@;
        assert(script_lines(ss, k) =~= before + line);
        lemma_lines_of_append(before, line);
        lemma_lines_of_line(ss[k - 1]);
        assert(ss.take(k) =~= ss.take(k - 1).push(ss[k - 1]));
        assert(lines_of(script_lines(ss, k)) =~= ss.take(k));
    }
}

proof fn lemma_nonblank(ls: Seq<Seq<char>>, ss: Seq<Seq<char>>, k: int)
    requires
        ls.len() == ss.len() + 2,
        forall|i: int| 0 <= i < ss.len() ==> ls[i + 2] == ss[i],
        forall|i: int| 0 <= i < ss.len() ==> trim(#[trigger] ss[i]).len() > 0,
        2 <= k <= ls.len(),
    ensures
        nonblank_from(ls, 2, k) == ss.take(k - 2),
    decreases k,
{
    if k == 2 {
        assert(ss.take(0) =~= Seq::<Seq<char>>::empty());
    } else {
        lemma_nonblank(ls, ss, k - 1);
        assert(ls[k - 1] == ss[k - 3]);
        assert(ss.take(k - 2) =~= ss.take(k - 3).push(ss[k - 3]));
    }
}

/// The marker pre-commit writes reads back as the tree and gates it was
/// written with — and binds to a commit of that tree — for any tree and
/// gates that are plain, non-blank lines.
pub proof fn marker_round_trips(tree: Seq<char>, scripts: Seq<Seq<char>>)
    requires
        plain_line(tree),
        scripts.len() > 0,
        forall|i: int| 0 <= i < scripts.len() ==> plain_line(#[trigger] scripts[i]),
        forall|i: int| 0 <= i < scripts.len() ==> trim(#[trigger] scripts[i]).len() > 0,
    ensures
        spec_read_marker(spec_marker_body(tree, scripts)) == Some((tree, scripts)),
        spec_bind(spec_marker_body(tree, scripts), tree) == Some(scripts),
{
    reveal_strlit("\n");
    reveal_strlit("amont-gate-v1");
    let f = FORMAT@;
    assert(plain_line(f));
    let nl = "\n"@;
    let sl = script_lines(scripts, scripts.len() as int);
    let body = spec_marker_body(tree, scripts);
    assert(body =~= (f + nl) + ((tree + nl) + sl));
    lemma_lines_of_line(f);
    lemma_lines_of_line(tree);
    lemma_script_lines(scripts, scripts.len() as int);
    lemma_lines_of_append(tree + nl, sl);
    lemma_lines_of_append(f + nl, (tree + nl) + sl);
    assert(scripts.take(scripts.len() as int) =~= scripts);
    let ls = lines_of(body);
    assert(ls =~= seq![f, tree] + scripts);
    lemma_nonblank(ls, scripts, ls.len() as int);
    assert(scripts.take(ls.len() - 2) =~= scripts);
}

proof fn lemma_words_of_join(ss: Seq<Seq<char>>)
    requires
        forall|i: int| 0 <= i < ss.len() ==> is_word(#[trigger] ss[i]),
    ensures
        words(join_with(ss, " "@, ss.len() as int)) == ss,
    decreases ss.len(),
{
    reveal_strlit(" ");
    if ss.len() == 0 {
        assert(words(Seq::<char>::empty()) =~= Seq::<Seq<char>>::empty());
        assert(ss =~= Seq::<Seq<char>>::empty());
    } else if ss.len() == 1 {
        lemma_words_single(ss[0]);
        assert(ss =~= seq![ss[0]]);
    } else {
        let rest = ss.skip(1);
        assert forall|i: int| 0 <= i < rest.len() implies is_word(#[trigger] rest[i]) by {
            assert(rest[i] == ss[i + 1]);
        }
        lemma_words_of_join(rest);
        lemma_join_front(ss, " "@, ss.len() as int);
        assert(" "@ =~= seq![' ']);
        lemma_words_cons(ss[0], ' ', join_with(rest, " "@, rest.len() as int));
        assert(ss =~= seq![ss[0]] + rest);
    }
}

proof fn lemma_one_line(s: Seq<char>)
    requires
        s.len() > 0,
        forall|k: int| 0 <= k < s.len() ==> s[k] != '\n',
    ensures
        lines_of(s) == seq![s],
{
    lemma_find_char_at(s, '\n', 0, s.len() as int);
}

/// The note post-commit writes names, read back, exactly the gates it was
/// written with — for gates that are each one word.
pub proof fn note_round_trips(scripts: Seq<Seq<char>>)
    requires
        forall|i: int| 0 <= i < scripts.len() ==> is_word(#[trigger] scripts[i]),
    ensures
        spec_note_gates(spec_stamp_note(scripts)) == Some(scripts),
{
    reveal_strlit(" ");
    reveal_strlit("amont-gate-v1");
    let f = FORMAT@;
    assert(is_word(f));
    let j = join_with(scripts, " "@, scripts.len() as int);
    let note = spec_stamp_note(scripts);
    lemma_words_of_join(scripts);
    assert(note =~= f + seq![' '] + j);
    lemma_words_cons(f, ' ', j);
    let w = words(note);
    assert(w =~= seq![f] + scripts);
    assert forall|k: int| 0 <= k < note.len() implies note[k] != '\n' by {
        if k < f.len() {
            assert(note[k] == f[k]);
        } else if k > f.len() {
            assert(note[k] == j[k - f.len() - 1]);
            lemma_join_no_newline(scripts, scripts.len() as int, k - f.len() - 1);
        }
    }
    lemma_one_line(note);
    assert(w.skip(1) =~= scripts);
}

/// Words joined by single spaces: every character is that space or part of
/// a word, and the text starts and ends inside a word.
pub proof fn lemma_joined_words(ss: Seq<Seq<char>>, k: int)
    requires
        1 <= k <= ss.len(),
        forall|i: int| 0 <= i < ss.len() ==> is_word(#[trigger] ss[i]),
    ensures
        forall|at: int| 0 <= at < join_with(ss, " "@, k).len() ==>
            (#[trigger] join_with(ss, " "@, k)[at] == ' ' || !is_space(join_with(ss, " "@, k)[at])),
        join_with(ss, " "@, k).len() > 0,
        !is_space(join_with(ss, " "@, k)[0]),
        !is_space(join_with(ss, " "@, k).last()),
    decreases k,
{
    reveal_strlit(" ");
    let j = join_with(ss, " "@, k);
    assert(is_word(ss[k - 1]));
    if k == 1 {
        assert(is_word(ss[0]));
        assert(!is_space(j.last()));
    } else {
        lemma_joined_words(ss, k - 1);
        let before = join_with(ss, " "@, k - 1);
        assert(j =~= before + " "@ + ss[k - 1]);
        assert forall|at: int| 0 <= at < j.len() implies (#[trigger] j[at] == ' ' || !is_space(j[at])) by {
            if at < before.len() {
                assert(j[at] == before[at]);
            } else if at > before.len() {
                assert(j[at] == ss[k - 1][at - before.len() - 1]);
            }
        }
        assert(j[0] == before[0]);
        assert(j.last() == ss[k - 1].last());
    }
}

proof fn lemma_join_no_newline(ss: Seq<Seq<char>>, k: int, at: int)
    requires
        0 <= k <= ss.len(),
        forall|i: int| 0 <= i < ss.len() ==> is_word(#[trigger] ss[i]),
        0 <= at < join_with(ss, " "@, k).len(),
    ensures
        join_with(ss, " "@, k)[at] != '\n',
{
    if k >= 1 {
        lemma_joined_words(ss, k);
        assert(join_with(ss, " "@, k)[at] == ' ' || !is_space(join_with(ss, " "@, k)[at]));
    }
}

} // verus!
