//! Blanking Python source: comments and the insides of string literals become
//! spaces, while the code inside an f-string's `{...}` stays visible.

use vstd::prelude::*;
use crate::text::{chars_of, string_of, is_alphanumeric, unicode_alphanumeric};
use crate::ban_terms::{char_at, keep, keep_exec, blanked_from, newlines_kept};

verus! {

/// One open Python string literal: the quote that closes it, whether it is a
/// triple-quoted literal, and whether it is an f-string.
#[derive(Clone, Copy, PartialEq, Eq, Structural)]
pub struct PyLit {
    pub quote: char,
    pub triple: bool,
    pub fstr: bool,
}

/// The Python blanker's states.
#[derive(Clone, Copy, PartialEq, Eq, Structural)]
pub enum PyMode {
    Code,
    Comment,
    Lit(PyLit),
}

/// Everything the Python blanker carries from one character to the next.
pub struct PyState {
    pub mode: PyMode,
    /// The identifier run just read, for string prefixes.
    pub word: Seq<char>,
    /// Open f-string interpolations, innermost last: the `{` depth inside
    /// each, and the literal to resume when it closes.
    pub subst: Seq<(usize, PyLit)>,
}

/// A character that may appear in a string prefix.
pub open spec fn prefix_char(c: char) -> bool {
    c == 'r' || c == 'b' || c == 'f' || c == 'u' || c == 'R' || c == 'B' || c == 'F' || c == 'U'
}

/// The identifier run before a quote is a string prefix: one or two of
/// `r`, `b`, `f`, `u` in either case.
pub open spec fn string_prefix(w: Seq<char>) -> bool {
    1 <= w.len() <= 2 && forall|k: int| 0 <= k < w.len() ==> #[trigger] prefix_char(w[k])
}

/// The prefix makes an f-string.
pub open spec fn fstring_prefix(w: Seq<char>) -> bool {
    string_prefix(w) && (w.contains('f') || w.contains('F'))
}

/// Bookkeeping for an ordinary code character: the brace depth of the
/// innermost interpolation and the identifier run.
pub open spec fn py_code_char(st: PyState, ch: char) -> PyState {
    let n = st.subst.len();
    let subst = if n > 0 && ch == '{' {
        st.subst.update(n - 1, ((st.subst[n - 1].0 + 1) as usize, st.subst[n - 1].1))
    } else if n > 0 && ch == '}' {
        st.subst.update(n - 1, ((st.subst[n - 1].0 - 1) as usize, st.subst[n - 1].1))
    } else {
        st.subst
    };
    let word = if unicode_alphanumeric(ch) || ch == '_' {
        st.word.push(ch)
    } else {
        seq![]
    };
    PyState { mode: PyMode::Code, word, subst }
}

/// One step of the Python blanker at position `i`: what it writes, the state
/// it leaves, and where it resumes.
pub open spec fn py_step(src: Seq<char>, st: PyState, i: int) -> (Seq<char>, PyState, int) {
    let ch = src[i];
    let next = char_at(src, i + 1);
    let n = st.subst.len();
    match st.mode {
        PyMode::Code => {
            if ch == '#' {
                (seq![' '], PyState { mode: PyMode::Comment, ..st }, i + 1)
            } else if ch == '\'' || ch == '"' {
                let triple = next == Some(ch) && char_at(src, i + 2) == Some(ch);
                let lit = PyLit { quote: ch, triple, fstr: fstring_prefix(st.word) };
                let st2 = PyState { mode: PyMode::Lit(lit), word: seq![], subst: st.subst };
                if triple {
                    (seq![ch, ch, ch], st2, i + 3)
                } else {
                    (seq![ch], st2, i + 1)
                }
            } else if n > 0 && ch == '}' && st.subst[n - 1].0 == 0 {
                (
                    seq![ch],
                    PyState {
                        mode: PyMode::Lit(st.subst[n - 1].1),
                        word: st.word,
                        subst: st.subst.drop_last(),
                    },
                    i + 1,
                )
            } else {
                (seq![ch], py_code_char(st, ch), i + 1)
            }
        },
        PyMode::Comment => {
            if ch == '\n' {
                (seq!['\n'], PyState { mode: PyMode::Code, ..st }, i + 1)
            } else {
                (seq![' '], st, i + 1)
            }
        },
        PyMode::Lit(lit) => {
            if ch == '\\' {
                match next {
                    Some(c) => (seq![' ', keep(c)], st, i + 2),
                    None => (seq![' '], st, i + 1),
                }
            } else if lit.triple && ch == lit.quote && next == Some(lit.quote) && char_at(
                src,
                i + 2,
            ) == Some(lit.quote) {
                (seq![ch, ch, ch], PyState { mode: PyMode::Code, ..st }, i + 3)
            } else if !lit.triple && (ch == lit.quote || ch == '\n') {
                (seq![ch], PyState { mode: PyMode::Code, ..st }, i + 1)
            } else if lit.fstr && ch == '{' && next == Some('{') {
                (seq![' ', ' '], st, i + 2)
            } else if lit.fstr && ch == '{' {
                (
                    seq![ch],
                    PyState { mode: PyMode::Code, word: seq![], subst: st.subst.push((0usize, lit)) },
                    i + 1,
                )
            } else if lit.fstr && ch == '}' && next == Some('}') {
                (seq![' ', ' '], st, i + 2)
            } else {
                (seq![keep(ch)], st, i + 1)
            }
        },
    }
}

/// What the Python blanker writes for `src[i..]` from state `st`.
pub open spec fn py_from(src: Seq<char>, st: PyState, i: int) -> Seq<char>
    decreases src.len() - i,
{
    if i < 0 || i >= src.len() {
        seq![]
    } else {
        let (e, st2, j) = py_step(src, st, i);
        if j <= i || j > src.len() {
            seq![]
        } else {
            e + py_from(src, st2, j)
        }
    }
}

pub open spec fn py_init() -> PyState {
    PyState { mode: PyMode::Code, word: seq![], subst: seq![] }
}

/// `blank_python`, as a function of the source's characters.
pub open spec fn spec_blank_python(src: Seq<char>) -> Seq<char> {
    py_from(src, py_init(), 0)
}

fn is_prefix_char(c: char) -> (r: bool)
    ensures
        r == prefix_char(c),
{
    c == 'r' || c == 'b' || c == 'f' || c == 'u' || c == 'R' || c == 'B' || c == 'F' || c == 'U'
}

/// Whether the identifier run `w` is a string prefix, and whether it makes
/// an f-string.
fn prefix_kind(w: &Vec<char>) -> (r: (bool, bool))
    ensures
        r.0 == string_prefix(w@),
        r.1 == fstring_prefix(w@),
{
    if w.len() < 1 || w.len() > 2 {
        return (false, false);
    }
    let mut all = true;
    let mut has_f = false;
    let mut k: usize = 0;
    while k < w.len()
        invariant
            k <= w.len() <= 2,
            all == (forall|m: int| 0 <= m < k ==> #[trigger] prefix_char(w@[m])),
            has_f == (exists|m: int| 0 <= m < k && (w@[m] == 'f' || w@[m] == 'F')),
        decreases w.len() - k,
    {
        let ok = is_prefix_char(w[k]);
        proof {
            if !ok {
                assert(!prefix_char(w@[k as int]));
            }
        }
        all = all && ok;
        if w[k] == 'f' || w[k] == 'F' {
            has_f = true;
        }
        k += 1;
    }
    proof {
        if has_f {
            let m = choose|m: int| 0 <= m < k && (w@[m] == 'f' || w@[m] == 'F');
            if w@[m] == 'f' {
                assert(w@.contains('f'));
            } else {
                assert(w@.contains('F'));
            }
        }
        if w@.contains('f') {
            let m = choose|m: int| 0 <= m < w@.len() && w@[m] == 'f';
            assert(0 <= m < k && (w@[m] == 'f' || w@[m] == 'F'));
        }
        if w@.contains('F') {
            let m = choose|m: int| 0 <= m < w@.len() && w@[m] == 'F';
            assert(0 <= m < k && (w@[m] == 'f' || w@[m] == 'F'));
        }
    }
    (all, all && has_f)
}

/// The exec state of the Python blanker.
struct PyScanner {
    mode: PyMode,
    word: Vec<char>,
    subst: Vec<(usize, PyLit)>,
}

impl PyScanner {
    spec fn state(&self) -> PyState {
        PyState { mode: self.mode, word: self.word@, subst: self.subst@ }
    }

    /// No interpolation is deeper than the characters read so far.
    spec fn bounded(&self, i: int) -> bool {
        forall|k: int| 0 <= k < self.subst@.len() ==> #[trigger] self.subst@[k].0 <= i
    }
}

spec fn py_stepped(
    src: Seq<char>,
    before: PyState,
    i: int,
    after: PyState,
    j: int,
    old_out: Seq<char>,
    new_out: Seq<char>,
) -> bool {
    let (e, st2, jj) = py_step(src, before, i);
    &&& after.mode == st2.mode
    &&& after.word =~= st2.word
    &&& after.subst =~= st2.subst
    &&& j == jj
    &&& new_out =~= old_out + e
}

fn py_code_step(sc: &mut PyScanner, b: &Vec<char>, i: usize, out: &mut Vec<char>) -> (j: usize)
    requires
        i < b.len(),
        old(sc).mode == PyMode::Code,
        old(sc).bounded(i as int),
    ensures
        py_stepped(b@, old(sc).state(), i as int, final(sc).state(), j as int, old(out)@, final(out)@),
        i < j <= b.len(),
        final(sc).bounded(j as int),
{
    let n = b.len();
    let ch = b[i];
    let next = if i + 1 < n {
        Some(b[i + 1])
    } else {
        None
    };
    if ch == '#' {
        sc.mode = PyMode::Comment;
        out.push(' ');
        i + 1
    } else if ch == '\'' || ch == '"' {
        let triple = next == Some(ch) && i + 2 < n && b[i + 2] == ch;
        let (_, fstr) = prefix_kind(&sc.word);
        sc.mode = PyMode::Lit(PyLit { quote: ch, triple, fstr });
        sc.word = Vec::new();
        if triple {
            out.push(ch);
            out.push(ch);
            out.push(ch);
            i + 3
        } else {
            out.push(ch);
            i + 1
        }
    } else {
        let len = sc.subst.len();
        if len > 0 && ch == '}' && sc.subst[len - 1].0 == 0 {
            let top = sc.subst.pop().unwrap();
            sc.mode = PyMode::Lit(top.1);
            out.push(ch);
            proof {
                assert(sc.subst@ =~= old(sc).subst@.drop_last());
            }
            return i + 1;
        }
        if len > 0 && ch == '{' {
            let top = sc.subst[len - 1];
            sc.subst.set(len - 1, (top.0 + 1, top.1));
        } else if len > 0 && ch == '}' {
            let top = sc.subst[len - 1];
            sc.subst.set(len - 1, (top.0 - 1, top.1));
        }
        if is_alphanumeric(ch) || ch == '_' {
            sc.word.push(ch);
        } else {
            sc.word = Vec::new();
        }
        out.push(ch);
        i + 1
    }
}

fn py_lit_step(sc: &mut PyScanner, b: &Vec<char>, i: usize, out: &mut Vec<char>, lit: PyLit) -> (j: usize)
    requires
        i < b.len(),
        old(sc).mode == PyMode::Lit(lit),
        old(sc).bounded(i as int),
    ensures
        py_stepped(b@, old(sc).state(), i as int, final(sc).state(), j as int, old(out)@, final(out)@),
        i < j <= b.len(),
        final(sc).bounded(j as int),
{
    let n = b.len();
    let ch = b[i];
    let next = if i + 1 < n {
        Some(b[i + 1])
    } else {
        None
    };
    if ch == '\\' {
        out.push(' ');
        match next {
            Some(c) => {
                out.push(keep_exec(c));
                i + 2
            },
            None => i + 1,
        }
    } else if lit.triple && ch == lit.quote && next == Some(lit.quote) && i + 2 < n && b[i + 2]
        == lit.quote {
        sc.mode = PyMode::Code;
        out.push(ch);
        out.push(ch);
        out.push(ch);
        i + 3
    } else if !lit.triple && (ch == lit.quote || ch == '\n') {
        sc.mode = PyMode::Code;
        out.push(ch);
        i + 1
    } else if lit.fstr && ch == '{' && next == Some('{') {
        out.push(' ');
        out.push(' ');
        i + 2
    } else if lit.fstr && ch == '{' {
        sc.subst.push((0, lit));
        sc.mode = PyMode::Code;
        sc.word = Vec::new();
        out.push(ch);
        i + 1
    } else if lit.fstr && ch == '}' && next == Some('}') {
        out.push(' ');
        out.push(' ');
        i + 2
    } else {
        out.push(keep_exec(ch));
        i + 1
    }
}

/// Blank comments and the insides of string literals in Python source, one
/// output character per input character and every newline kept. A string
/// prefix (`r`, `b`, `f`, `u` and their pairs) is the identifier run just
/// read; inside an f-string `{{` and `}}` are text while `{...}` is code,
/// and interpolations nest. A backslash always blanks the next character,
/// raw string or not, and an unterminated single-quoted string ends at the
/// newline.
pub fn blank_python(src: &str) -> (out: String)
    ensures
        out@ == spec_blank_python(src@),
{
    let b = chars_of(src);
    let n = b.len();
    let mut out: Vec<char> = Vec::new();
    let mut sc = PyScanner { mode: PyMode::Code, word: Vec::new(), subst: Vec::new() };
    let mut i: usize = 0;
    proof {
        assert(sc.state() == py_init());
    }
    while i < n
        invariant
            n == b.len(),
            b@ == src@,
            i <= n,
            sc.bounded(i as int),
            out@ + py_from(b@, sc.state(), i as int) == spec_blank_python(b@),
        decreases n - i,
    {
        let ghost before = out@;
        let ghost st = sc.state();
        let ghost i0 = i as int;
        i = match sc.mode {
            PyMode::Code => py_code_step(&mut sc, &b, i, &mut out),
            PyMode::Comment => {
                if b[i] == '\n' {
                    sc.mode = PyMode::Code;
                    out.push('\n');
                } else {
                    out.push(' ');
                }
                i + 1
            },
            PyMode::Lit(lit) => py_lit_step(&mut sc, &b, i, &mut out, lit),
        };
        proof {
            let (e, st2, j) = py_step(b@, st, i0);
            assert(sc.state() == st2);
            assert(py_from(b@, st, i0) == e + py_from(b@, st2, j));
            assert(before + (e + py_from(b@, st2, j)) =~= out@ + py_from(b@, st2, j));
        }
    }
    proof {
        assert(py_from(b@, sc.state(), i as int) =~= seq![]);
        assert(out@ =~= out@ + seq![]);
    }
    string_of(&out)
}


proof fn lemma_py_step(src: Seq<char>, st: PyState, i: int)
    requires
        0 <= i < src.len(),
    ensures
        ({
            let (e, st2, j) = py_step(src, st, i);
            &&& i < j <= src.len()
            &&& blanked_from(src.subrange(0, j), e, i)
            &&& newlines_kept(src, e, i)
        }),
{
    let (e, st2, j) = py_step(src, st, i);
    let sub = src.subrange(0, j);
    assert forall|m: int| 0 <= m < e.len() implies #[trigger] sub[i + m] == src[i + m] by {}
}

proof fn lemma_py_from(src: Seq<char>, st: PyState, i: int)
    requires
        0 <= i <= src.len(),
    ensures
        blanked_from(src, py_from(src, st, i), i),
        newlines_kept(src, py_from(src, st, i), i),
    decreases src.len() - i,
{
    if i < src.len() {
        let (e, st2, j) = py_step(src, st, i);
        lemma_py_step(src, st, i);
        lemma_py_from(src, st2, j);
        let rest = py_from(src, st2, j);
        let out = py_from(src, st, i);
        assert(out == e + rest);
        assert forall|m: int| 0 <= m < out.len() implies (#[trigger] out[m] == src[i + m]
            || out[m] == ' ') && (out[m] == '\n' ==> src[i + m] == '\n')
            && (src[i + m] == '\n' ==> out[m] == '\n') by {
            if m < e.len() {
                assert(out[m] == e[m]);
                assert(src.subrange(0, j)[i + m] == src[i + m]);
            } else {
                assert(out[m] == rest[m - e.len()]);
            }
        }
    }
}

/// The Python blanker keeps the layout exactly: one output character for
/// each source character, each the source character or a space, and a
/// newline in the output exactly where the source has one.
pub proof fn blank_python_keeps_layout(src: Seq<char>)
    ensures
        spec_blank_python(src).len() == src.len(),
        forall|k: int|
            0 <= k < src.len() ==> (#[trigger] spec_blank_python(src)[k] == src[k]
                || spec_blank_python(src)[k] == ' '),
        forall|k: int|
            0 <= k < src.len() ==> (#[trigger] spec_blank_python(src)[k] == '\n' <==> src[k]
                == '\n'),
{
    lemma_py_from(src, py_init(), 0);
}

} // verus!
