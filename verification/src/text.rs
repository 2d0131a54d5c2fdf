//! Text as sequences of characters: the vocabulary every scanner here is
//! specified in.
//!
//! A `&str` is viewed as its sequence of characters (`s@`). Scanners walk a
//! `Vec<char>` copy of it, so a position is a character index; for the ASCII
//! needles every check here searches for, a character position and a byte
//! offset name the same place.

use vstd::prelude::*;

verus! {

/// The characters of `s`, in order.
pub fn chars_of(s: &str) -> (out: Vec<char>)
    ensures
        out@ == s@,
{
    let mut out: Vec<char> = Vec::new();
    for c in it: s.chars()
        invariant
            out@ == it.seq().take(it.index() as int),
            it.seq() == s@,
    {
        out.push(c);
    }
    out
}

/// `String::push`: the string grows by exactly the one character.
#[verifier::external_body]
pub(crate) fn push_char(s: &mut String, c: char)
    ensures
        final(s)@ == old(s)@.push(c),
{
    s.push(c);
}

/// The string holding exactly the characters of `v`.
pub fn string_of(v: &Vec<char>) -> (s: String)
    ensures
        s@ == v@,
{
    let mut s = String::new();
    let mut i: usize = 0;
    while i < v.len()
        invariant
            i <= v.len(),
            s@ == v@.take(i as int),
        decreases v.len() - i,
    {
        push_char(&mut s, v[i]);
        assert(v@.take(i as int).push(v@[i as int]) =~= v@.take(i + 1));
        i += 1;
    }
    assert(v@.take(v.len() as int) =~= v@);
    s
}

/// The string of `s` followed by the string of `t`.
pub fn concat(s: &str, t: &str) -> (r: String)
    ensures
        r@ == s@ + t@,
{
    let mut v = chars_of(s);
    let w = chars_of(t);
    let mut i: usize = 0;
    while i < w.len()
        invariant
            i <= w.len(),
            w@ == t@,
            v@ == s@ + t@.take(i as int),
        decreases w.len() - i,
    {
        v.push(w[i]);
        assert(s@ + t@.take(i as int) + seq![t@[i as int]] =~= s@ + t@.take(i + 1));
        i += 1;
    }
    assert(t@.take(w.len() as int) =~= t@);
    string_of(&v)
}

/// Unicode `White_Space`, the property `char::is_whitespace` tests.
pub open spec fn is_space(c: char) -> bool {
    ||| '\t' <= c <= '\r'
    ||| c == ' '
    ||| c == '\u{85}'
    ||| c == '\u{A0}'
    ||| c == '\u{1680}'
    ||| '\u{2000}' <= c <= '\u{200A}'
    ||| c == '\u{2028}'
    ||| c == '\u{2029}'
    ||| c == '\u{202F}'
    ||| c == '\u{205F}'
    ||| c == '\u{3000}'
}

/// `char::is_whitespace`.
pub fn is_whitespace(c: char) -> (r: bool)
    ensures
        r == is_space(c),
{
    ('\t' <= c && c <= '\r') || c == ' ' || c == '\u{85}' || c == '\u{A0}' || c == '\u{1680}'
        || ('\u{2000}' <= c && c <= '\u{200A}') || c == '\u{2028}' || c == '\u{2029}' || c
        == '\u{202F}' || c == '\u{205F}' || c == '\u{3000}'
}

/// What `char::is_alphanumeric` answers for `c`: Unicode `Alphabetic` or
/// `Numeric`.
pub uninterp spec fn unicode_alphanumeric(c: char) -> bool;

/// An ASCII letter or digit.
pub open spec fn is_ascii_alnum(c: char) -> bool {
    ||| 'a' <= c <= 'z'
    ||| 'A' <= c <= 'Z'
    ||| '0' <= c <= '9'
}

/// `char::is_alphanumeric`, whose answer comes from the Unicode tables.
///
/// The contract names the answer `unicode_alphanumeric(c)` and states the one
/// part of it the documentation makes plain in a line: on ASCII, the
/// alphanumeric characters are exactly the letters and the digits. Which
/// non-ASCII characters are alphabetic or numeric is left unsaid.
#[verifier::external_body]
pub(crate) fn is_alphanumeric(c: char) -> (r: bool)
    ensures
        r == unicode_alphanumeric(c),
        (c as u32) < 128 ==> (r == is_ascii_alnum(c)),
{
    c.is_alphanumeric()
}

/// Does `w` occur in `s` at position `at`?
pub open spec fn occurs_at(s: Seq<char>, w: Seq<char>, at: int) -> bool {
    &&& 0 <= at
    &&& at + w.len() <= s.len()
    &&& s.subrange(at, at + w.len()) == w
}

/// `w` cannot overlap a copy of itself: no shift `d` inside it puts its
/// first two characters over `w[d]` and `w[d + 1]`. Two occurrences of such
/// a `w` are at least `w.len()` apart.
pub open spec fn overlap_free(w: Seq<char>) -> bool {
    forall|d: int| 0 < d < w.len() ==> #[trigger] w[d] != w[0] || (d + 1 < w.len() && w[d + 1] != w[1])
}

/// Two occurrences of an overlap-free word that start less than its length
/// apart are the same occurrence.
pub proof fn lemma_overlap_free_apart(s: Seq<char>, w: Seq<char>, a: int, b: int)
    requires
        overlap_free(w),
        occurs_at(s, w, a),
        occurs_at(s, w, b),
        a < b,
    ensures
        b - a >= w.len(),
{
    if b - a < w.len() {
        let d = b - a;
        assert(s.subrange(b, b + w.len())[0] == s[b]);
        assert(s.subrange(a, a + w.len())[d] == s[a + d]);
        if d + 1 < w.len() {
            assert(s.subrange(b, b + w.len())[1] == s[b + 1]);
            assert(s.subrange(a, a + w.len())[d + 1] == s[a + d + 1]);
        }
        assert(w[d] != w[0] || (d + 1 < w.len() && w[d + 1] != w[1]));
    }
}

/// Does `w` occur anywhere in `s` (the `str::contains` question)?
pub open spec fn contains(s: Seq<char>, w: Seq<char>) -> bool {
    exists|at: int| occurs_at(s, w, at)
}

/// Exec form of [`occurs_at`].
pub fn matches_at(s: &Vec<char>, w: &Vec<char>, at: usize) -> (r: bool)
    ensures
        r == occurs_at(s@, w@, at as int),
{
    if at > s.len() || w.len() > s.len() - at {
        return false;
    }
    let mut k: usize = 0;
    while k < w.len()
        invariant
            at + w.len() <= s.len(),
            k <= w.len(),
            forall|j: int| 0 <= j < k ==> s@[at + j] == w@[j],
        decreases w.len() - k,
    {
        if s[at + k] != w[k] {
            assert(s@.subrange(at as int, at + w.len())[k as int] != w@[k as int]);
            return false;
        }
        k += 1;
    }
    assert(s@.subrange(at as int, at + w.len()) =~= w@);
    true
}

/// Exec form of [`contains`].
pub fn contains_seq(s: &Vec<char>, w: &Vec<char>) -> (r: bool)
    ensures
        r == contains(s@, w@),
{
    if w.len() > s.len() {
        assert forall|at: int| !occurs_at(s@, w@, at) by {}
        return false;
    }
    let limit = s.len() - w.len();
    let mut at: usize = 0;
    loop
        invariant
            w.len() <= s.len(),
            limit == s.len() - w.len(),
            at <= limit,
            forall|j: int| 0 <= j < at ==> !occurs_at(s@, w@, j),
        ensures
            forall|j: int| 0 <= j <= limit ==> !occurs_at(s@, w@, j),
        decreases limit - at,
    {
        if matches_at(s, w, at) {
            return true;
        }
        if at == limit {
            break;
        }
        at += 1;
    }
    assert forall|j: int| !occurs_at(s@, w@, j) by {}
    false
}

/// `str::contains` over the characters of two strings.
pub fn str_contains(s: &str, w: &str) -> (r: bool)
    ensures
        r == contains(s@, w@),
{
    let sv = chars_of(s);
    let wv = chars_of(w);
    contains_seq(&sv, &wv)
}

/// Does `s` begin with `w`?
pub open spec fn starts_with(s: Seq<char>, w: Seq<char>) -> bool {
    occurs_at(s, w, 0)
}

/// Does `s` end with `w`?
pub open spec fn ends_with(s: Seq<char>, w: Seq<char>) -> bool {
    occurs_at(s, w, s.len() - w.len())
}

/// `str::starts_with`.
pub fn str_starts_with(s: &str, w: &str) -> (r: bool)
    ensures
        r == starts_with(s@, w@),
{
    matches_at(&chars_of(s), &chars_of(w), 0)
}

/// `str::ends_with`.
pub fn str_ends_with(s: &str, w: &str) -> (r: bool)
    ensures
        r == ends_with(s@, w@),
{
    let sv = chars_of(s);
    let wv = chars_of(w);
    if wv.len() > sv.len() {
        return false;
    }
    matches_at(&sv, &wv, sv.len() - wv.len())
}

/// Exec form of [`ends_with`] on character vectors.
pub fn vec_ends_with(s: &Vec<char>, w: &Vec<char>) -> (r: bool)
    ensures
        r == ends_with(s@, w@),
{
    if w.len() > s.len() {
        return false;
    }
    matches_at(s, w, s.len() - w.len())
}

/// Equality of two strings, character by character.
pub fn str_eq(s: &str, t: &str) -> (r: bool)
    ensures
        r == (s@ == t@),
{
    let a = chars_of(s);
    let b = chars_of(t);
    vec_eq(&a, &b)
}

/// Equality of two character vectors.
pub fn vec_eq(a: &Vec<char>, b: &Vec<char>) -> (r: bool)
    ensures
        r == (a@ == b@),
{
    if a.len() != b.len() {
        return false;
    }
    let r = matches_at(a, b, 0);
    assert(a@.subrange(0, b@.len() as int) =~= a@);
    r
}

/// The first index at or after `from` whose character is not white space,
/// or `s.len()` when there is none.
pub open spec fn skip_space(s: Seq<char>, from: int) -> int
    decreases s.len() - from,
{
    if from < 0 || from >= s.len() {
        if from < 0 { 0 } else { from }
    } else if is_space(s[from]) {
        skip_space(s, from + 1)
    } else {
        from
    }
}

pub proof fn lemma_skip_space_bounds(s: Seq<char>, from: int)
    requires
        0 <= from,
    ensures
        from <= skip_space(s, from),
        from <= s.len() ==> skip_space(s, from) <= s.len(),
        skip_space(s, from) < s.len() ==> !is_space(s[skip_space(s, from)]),
    decreases s.len() - from,
{
    if from < s.len() && is_space(s[from]) {
        lemma_skip_space_bounds(s, from + 1);
    }
}

/// The first non-white-space character at or after `from`, if any — what
/// `s[from..].trim_start().chars().next()` reads.
pub open spec fn next_non_space(s: Seq<char>, from: int) -> Option<char> {
    let k = skip_space(s, from);
    if 0 <= k < s.len() {
        Some(s[k])
    } else {
        None
    }
}

/// Exec form of [`skip_space`].
pub fn skip_spaces(s: &Vec<char>, from: usize) -> (k: usize)
    requires
        from <= s.len(),
    ensures
        k == skip_space(s@, from as int),
        from <= k <= s.len(),
{
    let mut k = from;
    while k < s.len() && is_whitespace(s[k])
        invariant
            from <= k <= s.len(),
            skip_space(s@, k as int) == skip_space(s@, from as int),
        decreases s.len() - k,
    {
        k += 1;
    }
    k
}

/// Exec form of [`next_non_space`].
pub fn next_non_white(s: &Vec<char>, from: usize) -> (r: Option<char>)
    requires
        from <= s.len(),
    ensures
        r == next_non_space(s@, from as int),
{
    let k = skip_spaces(s, from);
    if k < s.len() {
        Some(s[k])
    } else {
        None
    }
}


/// The first index at or after `from` holding `c`, or `s.len()` when none does.
pub open spec fn find_char(s: Seq<char>, c: char, from: int) -> int
    decreases s.len() - from,
{
    if from < 0 {
        s.len() as int
    } else if from >= s.len() {
        s.len() as int
    } else if s[from] == c {
        from
    } else {
        find_char(s, c, from + 1)
    }
}

pub proof fn lemma_find_char(s: Seq<char>, c: char, from: int)
    requires
        0 <= from <= s.len(),
    ensures
        from <= find_char(s, c, from) <= s.len(),
        find_char(s, c, from) < s.len() ==> s[find_char(s, c, from)] == c,
        forall|k: int| from <= k < find_char(s, c, from) ==> s[k] != c,
    decreases s.len() - from,
{
    if from < s.len() && s[from] != c {
        lemma_find_char(s, c, from + 1);
    }
}

/// `find_char` is the first occurrence: with no `c` in `[from, p)` and `c`
/// (or the end) at `p`, it is `p`.
pub proof fn lemma_find_char_at(s: Seq<char>, c: char, from: int, p: int)
    requires
        0 <= from <= p <= s.len(),
        forall|k: int| from <= k < p ==> s[k] != c,
        p < s.len() ==> s[p] == c,
    ensures
        find_char(s, c, from) == p,
    decreases p - from,
{
    if from < p {
        lemma_find_char_at(s, c, from + 1, p);
    }
}

/// Exec form of [`find_char`].
pub fn find_char_from(s: &Vec<char>, c: char, from: usize) -> (p: usize)
    requires
        from <= s.len(),
    ensures
        p == find_char(s@, c, from as int),
        from <= p <= s.len(),
{
    let mut p = from;
    while p < s.len() && s[p] != c
        invariant
            from <= p <= s.len(),
            forall|k: int| from <= k < p ==> s@[k] != c,
        decreases s.len() - p,
    {
        p += 1;
    }
    proof {
        lemma_find_char_at(s@, c, from as int, p as int);
    }
    p
}

/// The characters `s[from..to]`, copied.
pub fn slice_of(s: &Vec<char>, from: usize, to: usize) -> (r: Vec<char>)
    requires
        from <= to <= s.len(),
    ensures
        r@ == s@.subrange(from as int, to as int),
{
    let mut r: Vec<char> = Vec::new();
    let mut k = from;
    while k < to
        invariant
            from <= k <= to <= s.len(),
            r@ == s@.subrange(from as int, k as int),
        decreases to - k,
    {
        r.push(s[k]);
        assert(s@.subrange(from as int, k as int).push(s@[k as int]) =~= s@.subrange(
            from as int,
            k + 1,
        ));
        k += 1;
    }
    r
}

/// A line without the `\r` of a `\r\n` ending.
pub open spec fn strip_cr(l: Seq<char>) -> Seq<char> {
    if l.len() > 0 && l.last() == '\r' {
        l.drop_last()
    } else {
        l
    }
}

/// `str::lines`: the pieces between `\n`s, each without the `\r` of a
/// `\r\n`, and no empty piece after a final newline.
pub open spec fn lines_of(s: Seq<char>) -> Seq<Seq<char>>
    decreases s.len(),
{
    if s.len() == 0 {
        seq![]
    } else {
        let p = find_char(s, '\n', 0);
        if p < s.len() {
            proof {
                lemma_find_char(s, '\n', 0);
            }
            seq![strip_cr(s.take(p))] + lines_of(s.skip(p + 1))
        } else {
            seq![s]
        }
    }
}

/// Lines split the same way before and after a text that ends its last
/// line: splitting `x + y` is splitting `x`, then `y`.
pub proof fn lemma_lines_of_append(x: Seq<char>, y: Seq<char>)
    requires
        x.len() == 0 || x.last() == '\n',
    ensures
        lines_of(x + y) == lines_of(x) + lines_of(y),
    decreases x.len(),
{
    if x.len() == 0 {
        assert(x + y =~= y);
        assert(lines_of(x) =~= Seq::<Seq<char>>::empty());
        assert(lines_of(x) + lines_of(y) =~= lines_of(y));
    } else {
        let s = x + y;
        lemma_find_char(x, '\n', 0);
        let p = find_char(x, '\n', 0);
        assert(p < x.len()) by {
            if p >= x.len() {
                assert(x[x.len() - 1] == '\n');
            }
        }
        assert forall|k: int| 0 <= k < p implies s[k] != '\n' by {
            assert(s[k] == x[k]);
        }
        assert(s[p] == x[p]);
        lemma_find_char_at(s, '\n', 0, p);
        assert(s.take(p) =~= x.take(p));
        assert(s.skip(p + 1) =~= x.skip(p + 1) + y);
        let rest = x.skip(p + 1);
        assert(rest.len() == 0 || rest.last() == '\n') by {
            if rest.len() > 0 {
                assert(rest.last() == x.last());
            }
        }
        lemma_lines_of_append(rest, y);
        assert(lines_of(x) == seq![strip_cr(x.take(p))] + lines_of(rest));
        assert(lines_of(s) == seq![strip_cr(s.take(p))] + lines_of(s.skip(p + 1)));
        assert(lines_of(s) =~= lines_of(x) + lines_of(y));
    }
}

/// A line with no newline in it, and no `\r` that `str::lines` would take
/// for half of a line ending.
pub open spec fn plain_line(l: Seq<char>) -> bool {
    (forall|k: int| 0 <= k < l.len() ==> l[k] != '\n') && !(l.len() > 0 && l.last() == '\r')
}

/// A plain line and its newline split into that line.
pub proof fn lemma_lines_of_line(l: Seq<char>)
    requires
        plain_line(l),
    ensures
        lines_of(l + "\n"@) == seq![l],
{
    reveal_strlit("\n");
    let s = l + "\n"@;
    assert forall|k: int| 0 <= k < l.len() implies s[k] != '\n' by {
        assert(s[k] == l[k]);
    }
    lemma_find_char_at(s, '\n', 0, l.len() as int);
    assert(s.take(l.len() as int) =~= l);
    assert(s.skip((l.len() + 1) as int) =~= Seq::<char>::empty());
    assert(lines_of(s.skip((l.len() + 1) as int)) =~= Seq::<Seq<char>>::empty());
    assert(lines_of(s) =~= seq![l]);
}

/// The character vectors' contents.
pub open spec fn views(v: Seq<Vec<char>>) -> Seq<Seq<char>> {
    v.map_values(|l: Vec<char>| l@)
}

/// Exec form of [`lines_of`].
pub fn split_lines(s: &Vec<char>) -> (r: Vec<Vec<char>>)
    ensures
        views(r@) == lines_of(s@),
{
    let n = s.len();
    let mut r: Vec<Vec<char>> = Vec::new();
    let mut start: usize = 0;
    proof {
        assert(s@.skip(0) =~= s@);
        assert(views(r@) =~= seq![]);
        assert(views(r@) + lines_of(s@) =~= lines_of(s@));
    }
    while start < n
        invariant
            n == s.len(),
            start <= n,
            views(r@) + lines_of(s@.skip(start as int)) == lines_of(s@),
        decreases n - start,
    {
        let p = find_char_from(s, '\n', start);
        let ghost t = s@.skip(start as int);
        proof {
            lemma_find_char(s@, '\n', start as int);
            lemma_find_char_at(t, '\n', 0, p - start);
            assert(t.take(p - start) =~= s@.subrange(start as int, p as int));
        }
        let mut line = slice_of(s, start, p);
        let ghost before = views(r@);
        if p < n {
            if line.len() > 0 && line[line.len() - 1] == '\r' {
                line.pop();
            }
            proof {
                assert(t.skip(p - start + 1) =~= s@.skip(p + 1));
                assert(lines_of(t) == seq![strip_cr(t.take(p - start))] + lines_of(t.skip(p - start + 1)));
            }
            r.push(line);
            proof {
                assert(views(r@) =~= before.push(line@));
            }
            start = p + 1;
        } else {
            proof {
                assert(t =~= s@.subrange(start as int, p as int));
                assert(s@.skip(n as int) =~= seq![]);
            }
            r.push(line);
            proof {
                assert(views(r@) =~= before.push(line@));
            }
            start = n;
        }
    }
    proof {
        assert(s@.skip(start as int) =~= seq![]);
        assert(views(r@) + seq![] =~= views(r@));
    }
    r
}

/// `s` without its trailing white space.
pub open spec fn trim_end(s: Seq<char>) -> Seq<char>
    decreases s.len(),
{
    if s.len() > 0 && is_space(s.last()) {
        trim_end(s.drop_last())
    } else {
        s
    }
}

/// `s` without its leading white space.
pub open spec fn trim_start(s: Seq<char>) -> Seq<char>
    decreases s.len(),
{
    if s.len() > 0 && is_space(s[0]) {
        trim_start(s.skip(1))
    } else {
        s
    }
}

/// `str::trim`.
pub open spec fn trim(s: Seq<char>) -> Seq<char> {
    trim_start(trim_end(s))
}

/// Text that starts and ends outside white space is its own trim.
pub proof fn lemma_trim_unspaced(s: Seq<char>)
    requires
        s.len() > 0,
        !is_space(s[0]),
        !is_space(s.last()),
    ensures
        trim(s) == s,
{
}

/// Exec form of [`trim_end`].
pub fn trim_end_vec(s: &Vec<char>) -> (r: Vec<char>)
    ensures
        r@ == trim_end(s@),
{
    let mut e = s.len();
    assert(s@.take(s.len() as int) =~= s@);
    while e > 0 && is_whitespace(s[e - 1])
        invariant
            e <= s.len(),
            trim_end(s@.take(e as int)) == trim_end(s@),
        decreases e,
    {
        assert(s@.take(e as int).drop_last() =~= s@.take(e - 1));
        e -= 1;
    }
    assert(s@.take(s.len() as int) =~= s@);
    let r = slice_of(s, 0, e);
    assert(r@ =~= s@.take(e as int));
    r
}

/// Exec form of [`trim_start`].
pub fn trim_start_vec(s: &Vec<char>) -> (r: Vec<char>)
    ensures
        r@ == trim_start(s@),
{
    let mut b: usize = 0;
    assert(s@.skip(0) =~= s@);
    while b < s.len() && is_whitespace(s[b])
        invariant
            b <= s.len(),
            trim_start(s@.skip(b as int)) == trim_start(s@),
        decreases s.len() - b,
    {
        assert(s@.skip(b as int).skip(1) =~= s@.skip(b + 1));
        b += 1;
    }
    assert(s@.skip(0) =~= s@);
    let r = slice_of(s, b, s.len());
    assert(r@ =~= s@.skip(b as int));
    r
}

/// Exec form of [`trim`].
pub fn trim_vec(s: &Vec<char>) -> (r: Vec<char>)
    ensures
        r@ == trim(s@),
{
    trim_start_vec(&trim_end_vec(s))
}


/// The digit character for `d < 10`.
pub open spec fn digit_char(d: nat) -> char {
    if d == 0 {
        '0'
    } else if d == 1 {
        '1'
    } else if d == 2 {
        '2'
    } else if d == 3 {
        '3'
    } else if d == 4 {
        '4'
    } else if d == 5 {
        '5'
    } else if d == 6 {
        '6'
    } else if d == 7 {
        '7'
    } else if d == 8 {
        '8'
    } else {
        '9'
    }
}

/// `n` in decimal, without leading zeros.
pub open spec fn decimal(n: nat) -> Seq<char>
    decreases n,
{
    if n < 10 {
        seq![digit_char(n)]
    } else {
        decimal(n / 10).push(digit_char(n % 10))
    }
}

fn digit_exec(d: u64) -> (c: char)
    requires
        d < 10,
    ensures
        c == digit_char(d as nat),
{
    if d == 0 {
        '0'
    } else if d == 1 {
        '1'
    } else if d == 2 {
        '2'
    } else if d == 3 {
        '3'
    } else if d == 4 {
        '4'
    } else if d == 5 {
        '5'
    } else if d == 6 {
        '6'
    } else if d == 7 {
        '7'
    } else if d == 8 {
        '8'
    } else {
        '9'
    }
}

/// The decimal digits of `n`.
pub fn decimal_chars(n: u64) -> (r: Vec<char>)
    ensures
        r@ == decimal(n as nat),
    decreases n,
{
    if n < 10 {
        let mut v = Vec::new();
        v.push(digit_exec(n));
        v
    } else {
        let mut v = decimal_chars(n / 10);
        v.push(digit_exec(n % 10));
        v
    }
}

/// Append the characters of `s`.
pub fn push_str(out: &mut Vec<char>, s: &str)
    ensures
        final(out)@ == old(out)@ + s@,
{
    let v = chars_of(s);
    push_chars(out, &v);
}

/// Append the characters of `v`.
pub fn push_chars(out: &mut Vec<char>, v: &Vec<char>)
    ensures
        final(out)@ == old(out)@ + v@,
{
    let ghost start = out@;
    let mut k: usize = 0;
    while k < v.len()
        invariant
            k <= v.len(),
            out@ == start + v@.take(k as int),
        decreases v.len() - k,
    {
        out.push(v[k]);
        assert(v@.take(k as int).push(v@[k as int]) =~= v@.take(k + 1));
        k += 1;
    }
    assert(v@.take(v.len() as int) =~= v@);
}


/// What `str::to_uppercase` makes of `s`: each character's Unicode
/// uppercase mapping, in order.
pub uninterp spec fn unicode_upper(s: Seq<char>) -> Seq<char>;

/// An ASCII character upper-cased: `a`..=`z` to `A`..=`Z`, the rest kept.
pub open spec fn ascii_upper(c: char) -> char {
    if 'a' <= c && c <= 'z' {
        ((c as u32) - 32) as char
    } else {
        c
    }
}

/// `str::to_uppercase`. The contract names the result `unicode_upper(s)`
/// and states what the documentation makes plain for ASCII text: each
/// letter `a`..=`z` becomes its capital, every other character stays. The
/// rest of the mapping — Unicode's, some characters to several — is left
/// unsaid.
#[verifier::external_body]
pub(crate) fn to_uppercase(s: &str) -> (r: String)
    ensures
        r@ == unicode_upper(s@),
        (forall|k: int| 0 <= k < s@.len() ==> (s@[k] as u32) < 0x80) ==> r@ == s@.map_values(|c: char| ascii_upper(c)),
{
    s.to_uppercase()
}

/// What `String::from_utf8_lossy` makes of `bytes`: the text they encode,
/// each invalid sequence replaced by U+FFFD.
pub uninterp spec fn utf8_lossy(bytes: Seq<u8>) -> Seq<char>;

/// `String::from_utf8_lossy`, owned. The contract names the result
/// `utf8_lossy(bytes)` and states the part the documentation makes plain in
/// a line: valid UTF-8 comes back as the text it encodes (vstd's
/// `decode_utf8`), so ASCII bytes come back as the same characters. What
/// replaces an invalid sequence is left unsaid.
#[verifier::external_body]
pub(crate) fn decode_lossy(bytes: &[u8]) -> (r: String)
    ensures
        r@ == utf8_lossy(bytes@),
        vstd::utf8::valid_utf8(bytes@) ==> r@ == vstd::utf8::decode_utf8(bytes@),
        (forall|k: int| 0 <= k < bytes@.len() ==> bytes@[k] < 0x80) ==> r@ == bytes@.map_values(
            |b: u8| b as char,
        ),
{
    String::from_utf8_lossy(bytes).into_owned()
}

/// `a` comes before `b`, character by character (a proper prefix first).
pub open spec fn chars_less(a: Seq<char>, b: Seq<char>) -> bool
    decreases a.len(),
{
    if a.len() == 0 {
        b.len() > 0
    } else if b.len() == 0 {
        false
    } else if a[0] != b[0] {
        a[0] < b[0]
    } else {
        chars_less(a.skip(1), b.skip(1))
    }
}

pub proof fn lemma_chars_less_irrefl(a: Seq<char>)
    ensures
        !chars_less(a, a),
    decreases a.len(),
{
    if a.len() > 0 {
        lemma_chars_less_irrefl(a.skip(1));
    }
}

pub proof fn lemma_chars_less_trans(a: Seq<char>, b: Seq<char>, c: Seq<char>)
    requires
        chars_less(a, b),
        chars_less(b, c),
    ensures
        chars_less(a, c),
    decreases a.len(),
{
    if a.len() > 0 && b.len() > 0 && c.len() > 0 && a[0] == b[0] && b[0] == c[0] {
        lemma_chars_less_trans(a.skip(1), b.skip(1), c.skip(1));
    }
}

/// Exec form of [`chars_less`].
pub fn chars_less_exec(a: &Vec<char>, b: &Vec<char>) -> (r: bool)
    ensures
        r == chars_less(a@, b@),
{
    let mut i: usize = 0;
    assert(a@.skip(0) =~= a@);
    assert(b@.skip(0) =~= b@);
    while i < a.len() && i < b.len() && a[i] == b[i]
        invariant
            i <= a.len(),
            i <= b.len(),
            chars_less(a@.skip(i as int), b@.skip(i as int)) == chars_less(a@, b@),
        decreases a.len() - i,
    {
        assert(a@.skip(i as int).skip(1) =~= a@.skip(i + 1));
        assert(b@.skip(i as int).skip(1) =~= b@.skip(i + 1));
        i += 1;
    }
    if i == a.len() {
        i < b.len()
    } else if i == b.len() {
        false
    } else {
        a[i] < b[i]
    }
}


/// Of two different sequences, one comes before the other.
pub proof fn lemma_chars_less_total(a: Seq<char>, b: Seq<char>)
    requires
        a != b,
    ensures
        chars_less(a, b) || chars_less(b, a),
    decreases a.len(),
{
    if a.len() > 0 && b.len() > 0 && a[0] == b[0] {
        if a.skip(1) == b.skip(1) {
            assert(a =~= seq![a[0]] + a.skip(1));
            assert(b =~= seq![b[0]] + b.skip(1));
            assert(a =~= b);
        } else {
            lemma_chars_less_total(a.skip(1), b.skip(1));
        }
    } else if a.len() == 0 && b.len() == 0 {
        assert(a =~= b);
    }
}

} // verus!
