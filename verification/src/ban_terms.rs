//! Focused and debug leftovers in staged sources: `fit(`, `fdescribe(`,
//! `debugger`, `describe.only`, `dbg!`, `breakpoint()`, `pdb.set_trace()`.
//!
//! Each term has a language — the file extensions it scans and a blanker that
//! understands that language's comments and literals — and a precise matcher
//! run over the blanked text. The blankers replace the insides of comments and
//! string literals with spaces, character for character, so a term that is
//! only being discussed never counts and every position still lines up.

use vstd::prelude::*;
use crate::check::Severity;
use crate::finding::{Finding, line_col_at};
use crate::python_blank::{blank_python, spec_blank_python};
use crate::text::{find_char, find_char_from, ends_with, vec_ends_with, slice_of, push_str, chars_of, is_whitespace, contains, is_alphanumeric, is_space, next_non_space, next_non_white, matches_at, occurs_at, string_of, unicode_alphanumeric, overlap_free, lemma_overlap_free_apart};

verus! {

/// Every extension some term scans.
pub open spec fn spec_exts() -> Seq<Seq<char>> {
    seq![".js"@, ".jsx"@, ".ts"@, ".tsx"@, ".vue"@, ".rs"@, ".py"@]
}

/// An identifier character: alphanumeric, `_` or `$`.
pub open spec fn ident(c: char) -> bool {
    unicode_alphanumeric(c) || c == '_' || c == '$'
}

pub fn is_ident(c: char) -> (r: bool)
    ensures
        r == ident(c),
{
    is_alphanumeric(c) || c == '_' || c == '$'
}

/// The character just before position `at`, if any.
pub open spec fn before(s: Seq<char>, at: int) -> Option<char> {
    if 0 < at <= s.len() {
        Some(s[at - 1])
    } else {
        None
    }
}

/// The character at position `at`, if any.
pub open spec fn char_at(s: Seq<char>, at: int) -> Option<char> {
    if 0 <= at < s.len() {
        Some(s[at])
    } else {
        None
    }
}

/// Not preceded by an identifier character or a dot: `(?<![\w.$])`.
pub open spec fn preceded_ok_at(s: Seq<char>, at: int) -> bool {
    match before(s, at) {
        None => true,
        Some(c) => !(ident(c) || c == '.'),
    }
}

/// Not preceded by an identifier character: `(?<![\w$])`.
pub open spec fn no_ident_before(s: Seq<char>, at: int) -> bool {
    match before(s, at) {
        None => true,
        Some(c) => !ident(c),
    }
}

/// Not followed by an identifier character: `(?![\w$])`.
pub open spec fn no_ident_at(s: Seq<char>, at: int) -> bool {
    match char_at(s, at) {
        None => true,
        Some(c) => !ident(c),
    }
}

/// What an occurrence of a needle has to look like to count.
#[derive(Clone, Copy, PartialEq, Eq, Structural)]
pub enum Hit {
    /// `<word>\s*\(` not preceded by an identifier character or a dot.
    Call,
    /// The bare word, with neither an identifier character nor a dot before
    /// it and no identifier character after it.
    Bare,
    /// No identifier character on either side.
    Standalone,
    /// `dbg!` followed, after optional white space, by `(`, `[` or `{`.
    Macro,
    /// `<needle>\s*\(` not preceded by an identifier character.
    ModuleCall,
}

/// Does the occurrence of `w` at `at` count, under `kind`?
pub open spec fn hit_at(kind: Hit, s: Seq<char>, w: Seq<char>, at: int) -> bool {
    let after = at + w.len();
    match kind {
        Hit::Call => preceded_ok_at(s, at) && next_non_space(s, after) == Some('('),
        Hit::Bare => preceded_ok_at(s, at) && no_ident_at(s, after),
        Hit::Standalone => no_ident_before(s, at) && no_ident_at(s, after),
        Hit::Macro => {
            &&& no_ident_before(s, at)
            &&& char_at(s, after) == Some('!')
            &&& {
                let n = next_non_space(s, after + 1);
                n == Some('(') || n == Some('[') || n == Some('{')
            }
        },
        Hit::ModuleCall => no_ident_before(s, at) && next_non_space(s, after) == Some('('),
    }
}

/// The matchers' walk: occurrences of `w` from `from` on, left to right; each
/// is asked whether it counts, and a miss resumes the search just past it.
pub open spec fn scan_hits(kind: Hit, s: Seq<char>, w: Seq<char>, from: int) -> bool
    decreases s.len() - from,
{
    if w.len() == 0 || from < 0 || from + w.len() > s.len() {
        false
    } else if occurs_at(s, w, from) {
        hit_at(kind, s, w, from) || scan_hits(kind, s, w, from + w.len())
    } else {
        scan_hits(kind, s, w, from + 1)
    }
}

fn hit_exec(kind: Hit, s: &Vec<char>, w: &Vec<char>, at: usize) -> (r: bool)
    requires
        at + w.len() <= s.len(),
    ensures
        r == hit_at(kind, s@, w@, at as int),
{
    let after = at + w.len();
    let prev = if at > 0 { Some(s[at - 1]) } else { None };
    let next = if after < s.len() { Some(s[after]) } else { None };
    let prev_ok_dot = match prev {
        None => true,
        Some(c) => !(is_ident(c) || c == '.'),
    };
    let prev_ok = match prev {
        None => true,
        Some(c) => !is_ident(c),
    };
    let next_ok = match next {
        None => true,
        Some(c) => !is_ident(c),
    };
    match kind {
        Hit::Call => prev_ok_dot && next_non_white(s, after) == Some('('),
        Hit::Bare => prev_ok_dot && next_ok,
        Hit::Standalone => prev_ok && next_ok,
        Hit::Macro => {
            if !prev_ok || next != Some('!') {
                false
            } else {
                let n = next_non_white(s, after + 1);
                n == Some('(') || n == Some('[') || n == Some('{')
            }
        },
        Hit::ModuleCall => prev_ok && next_non_white(s, after) == Some('('),
    }
}

/// Exec form of [`scan_hits`] from the start of `s`.
pub fn scan_word(kind: Hit, s: &Vec<char>, w: &Vec<char>) -> (r: bool)
    requires
        w@.len() > 0,
    ensures
        r == scan_hits(kind, s@, w@, 0),
{
    let mut from: usize = 0;
    while from <= s.len() && w.len() <= s.len() - from
        invariant
            w@.len() > 0,
            scan_hits(kind, s@, w@, from as int) == scan_hits(kind, s@, w@, 0),
        decreases s.len() - from,
    {
        if matches_at(s, w, from) {
            if hit_exec(kind, s, w, from) {
                return true;
            }
            from = from + w.len();
        } else {
            from = from + 1;
        }
    }
    false
}

/// `<word>\s*\(`, not preceded by an identifier character or a dot — the
/// call form, so `profit(` and `layout.fit(` both pass.
pub fn call_of(src: &str, word: &str) -> (r: bool)
    requires
        word@.len() > 0,
    ensures
        r == scan_hits(Hit::Call, src@, word@, 0),
{
    scan_word(Hit::Call, &chars_of(src), &chars_of(word))
}

/// The bare `debugger` statement: `debuggerish` and `x.debugger` pass.
pub fn bare_debugger(src: &str) -> (r: bool)
    ensures
        r == scan_hits(Hit::Bare, src@, "debugger"@, 0),
{
    let w = chars_of("debugger");
    proof {
        reveal_strlit("debugger");
    }
    scan_word(Hit::Bare, &chars_of(src), &w)
}

/// The focused or skipped suites the term `skipOnly` bans.
pub open spec fn spec_focused_needles() -> Seq<Seq<char>> {
    seq![
        "describe.skip"@,
        "describe.only"@,
        "context.skip"@,
        "context.only"@,
        "it.skip"@,
        "it.only"@,
    ]
}

/// `(describe|context|it)\.(skip|only)` with no identifier character on
/// either side, so vitest's `describe.skipIf(...)` passes.
pub open spec fn spec_focused_suite(s: Seq<char>) -> bool {
    exists|k: int|
        0 <= k < spec_focused_needles().len() && #[trigger] scan_hits(
            Hit::Standalone,
            s,
            spec_focused_needles()[k],
            0,
        )
}

/// The matchers' walk finds every occurrence that counts, for a needle that
/// cannot overlap itself: the walk never jumps past it.
proof fn lemma_scan_finds(kind: Hit, s: Seq<char>, w: Seq<char>, from: int, at: int)
    requires
        w.len() > 0,
        overlap_free(w),
        0 <= from <= at,
        occurs_at(s, w, at),
        hit_at(kind, s, w, at),
    ensures
        scan_hits(kind, s, w, from),
    decreases at - from,
{
    if occurs_at(s, w, from) {
        if from < at {
            lemma_overlap_free_apart(s, w, from, at);
            if !hit_at(kind, s, w, from) {
                lemma_scan_finds(kind, s, w, from + w.len(), at);
            }
        }
    } else {
        lemma_scan_finds(kind, s, w, from + 1, at);
    }
}

/// A focused or skipped suite is always found: wherever `describe`,
/// `context` or `it`, a dot and `skip` or `only` stand in the text with no
/// identifier character just before or just after, the focused-suite check
/// says so.
pub proof fn a_focused_or_skipped_suite_is_found(s: Seq<char>, head: Seq<char>, tail: Seq<char>, at: int)
    requires
        head == "describe"@ || head == "context"@ || head == "it"@,
        tail == "skip"@ || tail == "only"@,
        occurs_at(s, head + "."@ + tail, at),
        at == 0 || !ident(s[at - 1]),
        at + head.len() + 1 + tail.len() == s.len() || !ident(s[at + head.len() + 1 + tail.len()]),
    ensures
        spec_focused_suite(s),
{
    reveal_strlit("describe");
    reveal_strlit("context");
    reveal_strlit("it");
    reveal_strlit(".");
    reveal_strlit("skip");
    reveal_strlit("only");
    reveal_strlit("describe.skip");
    reveal_strlit("describe.only");
    reveal_strlit("context.skip");
    reveal_strlit("context.only");
    reveal_strlit("it.skip");
    reveal_strlit("it.only");
    let w = head + "."@ + tail;
    let ns = spec_focused_needles();
    let k: int = if head == "describe"@ {
        if tail == "skip"@ { 0 } else { 1 }
    } else if head == "context"@ {
        if tail == "skip"@ { 2 } else { 3 }
    } else {
        if tail == "skip"@ { 4 } else { 5 }
    };
    assert(w =~= ns[k]);
    assert(overlap_free(w));
    assert(hit_at(Hit::Standalone, s, w, at));
    lemma_scan_finds(Hit::Standalone, s, w, 0, at);
    assert(scan_hits(Hit::Standalone, s, ns[k], 0));
}

pub fn focused_suite(src: &str) -> (r: bool)
    ensures
        r == spec_focused_suite(src@),
{
    let s = chars_of(src);
    let needles: Vec<&str> = vec![
        "describe.skip",
        "describe.only",
        "context.skip",
        "context.only",
        "it.skip",
        "it.only",
    ];
    proof {
        reveal_strlit("describe.skip");
        reveal_strlit("describe.only");
        reveal_strlit("context.skip");
        reveal_strlit("context.only");
        reveal_strlit("it.skip");
        reveal_strlit("it.only");
        assert(needles@.map_values(|n: &str| n@) =~= spec_focused_needles());
        assert(forall|j: int| 0 <= j < 6 ==> #[trigger] spec_focused_needles()[j].len() > 0);
    }
    let mut k: usize = 0;
    while k < needles.len()
        invariant
            needles@.map_values(|n: &str| n@) == spec_focused_needles(),
            spec_focused_needles().len() == needles.len(),
            s@ == src@,
            forall|j: int| 0 <= j < 6 ==> #[trigger] spec_focused_needles()[j].len() > 0,
            k <= needles.len(),
            forall|j: int|
                0 <= j < k ==> !scan_hits(Hit::Standalone, s@, spec_focused_needles()[j], 0),
        decreases needles.len() - k,
    {
        let w = chars_of(needles[k]);
        assert(w@ == spec_focused_needles()[k as int]);
        assert(w@.len() > 0);
        if scan_word(Hit::Standalone, &s, &w) {
            assert(scan_hits(Hit::Standalone, s@, spec_focused_needles()[k as int], 0));
            return true;
        }
        k += 1;
    }
    false
}

/// `dbg!(…)`, any delimiter; `xdbg!` and a function named `dbg` pass.
pub fn rust_dbg(src: &str) -> (r: bool)
    ensures
        r == scan_hits(Hit::Macro, src@, "dbg"@, 0),
{
    let w = chars_of("dbg");
    proof {
        reveal_strlit("dbg");
    }
    scan_word(Hit::Macro, &chars_of(src), &w)
}

/// `pdb.set_trace(` or `ipdb.set_trace(`, not preceded by an identifier
/// character; a bare `set_trace(` is a method name, not the debugger.
pub fn pdb_set_trace(src: &str) -> (r: bool)
    ensures
        r == (scan_hits(Hit::ModuleCall, src@, "pdb.set_trace"@, 0) || scan_hits(
            Hit::ModuleCall,
            src@,
            "ipdb.set_trace"@,
            0,
        )),
{
    let s = chars_of(src);
    let a = chars_of("pdb.set_trace");
    let b = chars_of("ipdb.set_trace");
    proof {
        reveal_strlit("pdb.set_trace");
        reveal_strlit("ipdb.set_trace");
    }
    scan_word(Hit::ModuleCall, &s, &a) || scan_word(Hit::ModuleCall, &s, &b)
}


/// What a blanker writes over a character it hides: a newline stays a
/// newline, everything else becomes a space.
pub open spec fn keep(c: char) -> char {
    if c == '\n' {
        '\n'
    } else {
        ' '
    }
}

pub(crate) fn keep_exec(c: char) -> (r: char)
    ensures
        r == keep(c),
{
    if c == '\n' {
        '\n'
    } else {
        ' '
    }
}

/// What an escape pair — the backslash and the character after it — is
/// blanked to by the JavaScript blanker, and where the scan resumes. An
/// escaped newline (a line continuation) stays a newline, so the line count
/// is kept.
pub open spec fn js_pair(src: Seq<char>, i: int) -> (Seq<char>, int) {
    if i + 1 < src.len() {
        (seq![keep(src[i]), keep(src[i + 1])], i + 2)
    } else {
        (seq![keep(src[i])], src.len() as int)
    }
}

/// The keywords after which a `/` begins a regex rather than a division.
pub open spec fn spec_regex_keywords() -> Seq<Seq<char>> {
    seq![
        "return"@,
        "typeof"@,
        "case"@,
        "in"@,
        "of"@,
        "delete"@,
        "void"@,
        "instanceof"@,
        "new"@,
        "do"@,
        "else"@,
        "yield"@,
        "await"@,
    ]
}

/// The characters after which a value cannot have just ended.
pub open spec fn js_operator(c: char) -> bool {
    "(,=:[!&|?{};+-*%~^<>"@.contains(c)
}

/// Can a `/` start a regex, given the last significant code character and
/// the identifier run it ends?
pub open spec fn spec_regex_can_start(prev: Option<char>, word: Seq<char>) -> bool {
    match prev {
        None => true,
        Some(c) => if js_operator(c) {
            true
        } else if ident(c) {
            spec_regex_keywords().contains(word)
        } else {
            false
        },
    }
}

pub fn regex_can_start(prev: Option<char>, word: &Vec<char>) -> (r: bool)
    ensures
        r == spec_regex_can_start(prev, word@),
{
    match prev {
        None => true,
        Some(c) => {
            let ops = chars_of("(,=:[!&|?{};+-*%~^<>");
            let mut k: usize = 0;
            let mut op = false;
            while k < ops.len()
                invariant
                    k <= ops.len(),
                    op == (exists|m: int| 0 <= m < k && ops@[m] == c),
                decreases ops.len() - k,
            {
                if ops[k] == c {
                    op = true;
                }
                k += 1;
            }
            assert(op == js_operator(c));
            if op {
                true
            } else if is_ident(c) {
                let kws: Vec<&str> = vec![
                    "return",
                    "typeof",
                    "case",
                    "in",
                    "of",
                    "delete",
                    "void",
                    "instanceof",
                    "new",
                    "do",
                    "else",
                    "yield",
                    "await",
                ];
                proof {
                    reveal_strlit("return");
                    reveal_strlit("typeof");
                    reveal_strlit("case");
                    reveal_strlit("in");
                    reveal_strlit("of");
                    reveal_strlit("delete");
                    reveal_strlit("void");
                    reveal_strlit("instanceof");
                    reveal_strlit("new");
                    reveal_strlit("do");
                    reveal_strlit("else");
                    reveal_strlit("yield");
                    reveal_strlit("await");
                    assert(kws@.map_values(|n: &str| n@) =~= spec_regex_keywords());
                }
                let mut j: usize = 0;
                while j < kws.len()
                    invariant
                        kws@.map_values(|n: &str| n@) == spec_regex_keywords(),
                        prev == Some(c),
                        !js_operator(c),
                        ident(c),
                        j <= kws.len(),
                        forall|m: int| 0 <= m < j ==> spec_regex_keywords()[m] != word@,
                    decreases kws.len() - j,
                {
                    let kw = chars_of(kws[j]);
                    assert(kw@ == spec_regex_keywords()[j as int]);
                    if crate::text::vec_eq(&kw, word) {
                        assert(spec_regex_keywords()[j as int] == word@);
                        assert(spec_regex_keywords().contains(word@));
                        return true;
                    }
                    j += 1;
                }
                false
            } else {
                false
            }
        },
    }
}

/// The JavaScript blanker's states.
#[derive(Clone, Copy, PartialEq, Eq, Structural)]
pub enum JsMode {
    Code,
    Line,
    Block,
    Single,
    Double,
    Template,
    Regex,
}

/// Everything the JavaScript blanker carries from one character to the next.
pub struct JsState {
    pub mode: JsMode,
    /// The last significant code character.
    pub prev: Option<char>,
    /// The identifier run that character ends.
    pub word: Seq<char>,
    /// Inside a `[...]` class of a regex literal.
    pub in_class: bool,
    /// Open `${...}` substitutions, innermost last: the `{` depth of each.
    pub subst: Seq<usize>,
}

pub open spec fn js_init() -> JsState {
    JsState { mode: JsMode::Code, prev: None, word: seq![], in_class: false, subst: seq![] }
}

/// The code path's bookkeeping for an ordinary character: brace depth inside
/// a substitution, and the last significant character with its word.
pub open spec fn js_code_char(st: JsState, ch: char) -> JsState {
    let subst = if st.subst.len() > 0 && ch == '{' {
        st.subst.update(st.subst.len() - 1, (st.subst.last() + 1) as usize)
    } else if st.subst.len() > 0 && ch == '}' {
        st.subst.update(st.subst.len() - 1, (st.subst.last() - 1) as usize)
    } else {
        st.subst
    };
    if is_space(ch) {
        JsState { subst, ..st }
    } else {
        JsState {
            subst,
            prev: Some(ch),
            word: if unicode_alphanumeric(ch) || ch == '_' || ch == '$' {
                st.word.push(ch)
            } else {
                seq![]
            },
            ..st
        }
    }
}

/// One step of the JavaScript blanker at position `i`: what it writes, the
/// state it moves to, and where it resumes.
pub open spec fn js_step(src: Seq<char>, st: JsState, i: int) -> (Seq<char>, JsState, int) {
    let ch = src[i];
    let next = char_at(src, i + 1);
    match st.mode {
        JsMode::Code => {
            if ch == '/' && next == Some('/') {
                (seq![' ', ' '], JsState { mode: JsMode::Line, ..st }, i + 2)
            } else if ch == '/' && next == Some('*') {
                (seq![' ', ' '], JsState { mode: JsMode::Block, ..st }, i + 2)
            } else if ch == '/' && spec_regex_can_start(st.prev, st.word) {
                (seq![ch], JsState { mode: JsMode::Regex, in_class: false, ..st }, i + 1)
            } else if ch == '\'' {
                (seq![ch], JsState { mode: JsMode::Single, ..st }, i + 1)
            } else if ch == '"' {
                (seq![ch], JsState { mode: JsMode::Double, ..st }, i + 1)
            } else if ch == '`' {
                (seq![ch], JsState { mode: JsMode::Template, ..st }, i + 1)
            } else if st.subst.len() > 0 && ch == '}' && st.subst.last() == 0 {
                (
                    seq![ch],
                    JsState { mode: JsMode::Template, subst: st.subst.drop_last(), ..st },
                    i + 1,
                )
            } else {
                (seq![ch], js_code_char(st, ch), i + 1)
            }
        },
        JsMode::Regex => {
            if ch == '\\' {
                (js_pair(src, i).0, st, js_pair(src, i).1)
            } else if ch == '[' {
                (seq![' '], JsState { in_class: true, ..st }, i + 1)
            } else if ch == ']' {
                (seq![' '], JsState { in_class: false, ..st }, i + 1)
            } else if ch == '/' && !st.in_class {
                (
                    seq![ch],
                    JsState { mode: JsMode::Code, prev: Some('/'), word: seq![], ..st },
                    i + 1,
                )
            } else if ch == '\n' {
                (seq!['\n'], JsState { mode: JsMode::Code, ..st }, i + 1)
            } else {
                (seq![keep(ch)], st, i + 1)
            }
        },
        JsMode::Line => {
            if ch == '\n' {
                (seq!['\n'], JsState { mode: JsMode::Code, ..st }, i + 1)
            } else {
                (seq![' '], st, i + 1)
            }
        },
        JsMode::Block => {
            if ch == '*' && next == Some('/') {
                (seq![' ', ' '], JsState { mode: JsMode::Code, ..st }, i + 2)
            } else {
                (seq![keep(ch)], st, i + 1)
            }
        },
        JsMode::Template => {
            if ch == '\\' {
                (js_pair(src, i).0, st, js_pair(src, i).1)
            } else if ch == '$' && next == Some('{') {
                (
                    seq!['$', '{'],
                    JsState {
                        mode: JsMode::Code,
                        prev: Some('{'),
                        word: seq![],
                        subst: st.subst.push(0),
                        ..st
                    },
                    i + 2,
                )
            } else if ch == '`' {
                (
                    seq![ch],
                    JsState { mode: JsMode::Code, prev: Some('`'), word: seq![], ..st },
                    i + 1,
                )
            } else {
                (seq![keep(ch)], st, i + 1)
            }
        },
        _ => {
            if ch == '\\' {
                (js_pair(src, i).0, st, js_pair(src, i).1)
            } else if (st.mode == JsMode::Single && ch == '\'') || (st.mode == JsMode::Double
                && ch == '"') {
                (seq![ch], JsState { mode: JsMode::Code, ..st }, i + 1)
            } else {
                (seq![keep(ch)], st, i + 1)
            }
        },
    }
}

/// The JavaScript blanker's output from position `i` on, in state `st`.
pub open spec fn js_from(src: Seq<char>, st: JsState, i: int) -> Seq<char>
    decreases src.len() - i,
{
    if i < 0 || i >= src.len() {
        seq![]
    } else {
        let (e, st2, j) = js_step(src, st, i);
        if j <= i {
            seq![]
        } else {
            e + js_from(src, st2, j)
        }
    }
}

/// `blank_non_code`, as a function of the source's characters.
pub open spec fn spec_blank_non_code(src: Seq<char>) -> Seq<char> {
    js_from(src, js_init(), 0)
}



/// The exec state of the JavaScript blanker.
struct JsScanner {
    mode: JsMode,
    prev: Option<char>,
    word: Vec<char>,
    in_class: bool,
    subst: Vec<usize>,
}

impl JsScanner {
    spec fn state(&self) -> JsState {
        JsState {
            mode: self.mode,
            prev: self.prev,
            word: self.word@,
            in_class: self.in_class,
            subst: self.subst@,
        }
    }

    /// No substitution is deeper than the characters read so far.
    spec fn bounded(&self, i: int) -> bool {
        forall|k: int| 0 <= k < self.subst@.len() ==> self.subst@[k] <= i
    }
}

/// What a step writes, the state it leaves and where it resumes agree with
/// [`js_step`].
spec fn js_stepped(
    src: Seq<char>,
    before: JsState,
    i: int,
    after: JsState,
    j: int,
    old_out: Seq<char>,
    new_out: Seq<char>,
) -> bool {
    let (e, st2, jj) = js_step(src, before, i);
    &&& after.mode == st2.mode
    &&& after.prev == st2.prev
    &&& after.word =~= st2.word
    &&& after.in_class == st2.in_class
    &&& after.subst =~= st2.subst
    &&& j == jj
    &&& new_out =~= old_out + e
}

fn js_pair_exec(b: &Vec<char>, i: usize, out: &mut Vec<char>) -> (j: usize)
    requires
        i < b.len(),
    ensures
        final(out)@ == old(out)@ + js_pair(b@, i as int).0,
        j == js_pair(b@, i as int).1,
        i < j <= b.len(),
{
    if i + 1 < b.len() {
        out.push(keep_exec(b[i]));
        out.push(keep_exec(b[i + 1]));
        i + 2
    } else {
        out.push(keep_exec(b[i]));
        b.len()
    }
}

fn js_code_step(sc: &mut JsScanner, b: &Vec<char>, i: usize, out: &mut Vec<char>) -> (j: usize)
    requires
        i < b.len(),
        old(sc).mode == JsMode::Code,
        old(sc).bounded(i as int),
    ensures
        js_stepped(b@, old(sc).state(), i as int, final(sc).state(), j as int, old(out)@, final(out)@),
        i < j <= b.len(),
        final(sc).bounded(j as int),
{
    let ch = b[i];
    let next = if i + 1 < b.len() {
        Some(b[i + 1])
    } else {
        None
    };
    if ch == '/' && next == Some('/') {
        sc.mode = JsMode::Line;
        out.push(' ');
        out.push(' ');
        i + 2
    } else if ch == '/' && next == Some('*') {
        sc.mode = JsMode::Block;
        out.push(' ');
        out.push(' ');
        i + 2
    } else if ch == '/' && regex_can_start(sc.prev, &sc.word) {
        sc.mode = JsMode::Regex;
        sc.in_class = false;
        out.push(ch);
        i + 1
    } else if ch == '\'' {
        sc.mode = JsMode::Single;
        out.push(ch);
        i + 1
    } else if ch == '"' {
        sc.mode = JsMode::Double;
        out.push(ch);
        i + 1
    } else if ch == '`' {
        sc.mode = JsMode::Template;
        out.push(ch);
        i + 1
    } else if sc.subst.len() > 0 && ch == '}' && sc.subst[sc.subst.len() - 1] == 0 {
        sc.subst.pop();
        sc.mode = JsMode::Template;
        out.push(ch);
        proof {
            assert(sc.subst@ =~= old(sc).subst@.drop_last());
        }
        i + 1
    } else {
        if sc.subst.len() > 0 {
            let last = sc.subst.len() - 1;
            let d = sc.subst[last];
            if ch == '{' {
                sc.subst.set(last, d + 1);
            } else if ch == '}' {
                sc.subst.set(last, d - 1);
            }
        }
        if !is_whitespace(ch) {
            sc.prev = Some(ch);
            if is_alphanumeric(ch) || ch == '_' || ch == '$' {
                sc.word.push(ch);
            } else {
                sc.word = Vec::new();
            }
        }
        out.push(ch);
        proof {
            assert(sc.state() == js_code_char(old(sc).state(), ch));
        }
        i + 1
    }
}

fn js_regex_step(sc: &mut JsScanner, b: &Vec<char>, i: usize, out: &mut Vec<char>) -> (j: usize)
    requires
        i < b.len(),
        old(sc).mode == JsMode::Regex,
        old(sc).bounded(i as int),
    ensures
        js_stepped(b@, old(sc).state(), i as int, final(sc).state(), j as int, old(out)@, final(out)@),
        i < j <= b.len(),
        final(sc).bounded(j as int),
{
    let ch = b[i];
    if ch == '\\' {
        js_pair_exec(b, i, out)
    } else if ch == '[' {
        sc.in_class = true;
        out.push(' ');
        i + 1
    } else if ch == ']' {
        sc.in_class = false;
        out.push(' ');
        i + 1
    } else if ch == '/' && !sc.in_class {
        sc.mode = JsMode::Code;
        sc.prev = Some('/');
        sc.word = Vec::new();
        out.push(ch);
        i + 1
    } else if ch == '\n' {
        sc.mode = JsMode::Code;
        out.push('\n');
        i + 1
    } else {
        out.push(keep_exec(ch));
        i + 1
    }
}

fn js_text_step(sc: &mut JsScanner, b: &Vec<char>, i: usize, out: &mut Vec<char>) -> (j: usize)
    requires
        i < b.len(),
        old(sc).mode != JsMode::Code,
        old(sc).mode != JsMode::Regex,
        old(sc).bounded(i as int),
    ensures
        js_stepped(b@, old(sc).state(), i as int, final(sc).state(), j as int, old(out)@, final(out)@),
        i < j <= b.len(),
        final(sc).bounded(j as int),
{
    let ch = b[i];
    let next = if i + 1 < b.len() {
        Some(b[i + 1])
    } else {
        None
    };
    match sc.mode {
        JsMode::Line => {
            if ch == '\n' {
                sc.mode = JsMode::Code;
                out.push('\n');
            } else {
                out.push(' ');
            }
            i + 1
        },
        JsMode::Block => {
            if ch == '*' && next == Some('/') {
                sc.mode = JsMode::Code;
                out.push(' ');
                out.push(' ');
                i + 2
            } else {
                out.push(keep_exec(ch));
                i + 1
            }
        },
        JsMode::Template => {
            if ch == '\\' {
                js_pair_exec(b, i, out)
            } else if ch == '$' && next == Some('{') {
                sc.subst.push(0);
                sc.mode = JsMode::Code;
                sc.prev = Some('{');
                sc.word = Vec::new();
                out.push('$');
                out.push('{');
                i + 2
            } else if ch == '`' {
                sc.mode = JsMode::Code;
                sc.prev = Some('`');
                sc.word = Vec::new();
                out.push(ch);
                i + 1
            } else {
                out.push(keep_exec(ch));
                i + 1
            }
        },
        _ => {
            if ch == '\\' {
                js_pair_exec(b, i, out)
            } else if (sc.mode == JsMode::Single && ch == '\'') || (sc.mode == JsMode::Double
                && ch == '"') {
                sc.mode = JsMode::Code;
                out.push(ch);
                i + 1
            } else {
                out.push(keep_exec(ch));
                i + 1
            }
        },
    }
}

/// Blank comments and the insides of string, template and regex literals in
/// JavaScript or TypeScript source, one output character per input character:
/// code is kept, `${...}` substitutions are code, and what is hidden becomes a
/// space (a newline, escaped or not, stays a newline). A `/` is read as a regex or a division
/// from the token before it, in the direction that never invents a violation.
pub fn blank_non_code(src: &str) -> (out: String)
    ensures
        out@ == spec_blank_non_code(src@),
{
    let b = chars_of(src);
    let n = b.len();
    let mut out: Vec<char> = Vec::new();
    let mut sc = JsScanner {
        mode: JsMode::Code,
        prev: None,
        word: Vec::new(),
        in_class: false,
        subst: Vec::new(),
    };
    let mut i: usize = 0;
    proof {
        assert(sc.state() == js_init());
    }
    while i < n
        invariant
            n == b.len(),
            b@ == src@,
            i <= n,
            sc.bounded(i as int),
            out@ + js_from(b@, sc.state(), i as int) == spec_blank_non_code(b@),
        decreases n - i,
    {
        let ghost before = out@;
        let ghost st = sc.state();
        let ghost i0 = i as int;
        i = if sc.mode == JsMode::Code {
            js_code_step(&mut sc, &b, i, &mut out)
        } else if sc.mode == JsMode::Regex {
            js_regex_step(&mut sc, &b, i, &mut out)
        } else {
            js_text_step(&mut sc, &b, i, &mut out)
        };
        proof {
            let (e, st2, j) = js_step(b@, st, i0);
            assert(sc.state() == st2);
            assert(js_from(b@, st, i0) == e + js_from(b@, st2, j));
            assert(before + (e + js_from(b@, st2, j)) =~= out@ + js_from(b@, st2, j));
        }
    }
    proof {
        assert(js_from(b@, sc.state(), i as int) =~= seq![]);
        assert(out@ =~= out@ + seq![]);
    }
    string_of(&out)
}


/// `out` is what a blanker wrote for `src[i..]`: one character per source
/// character, each either the source character or a space, and a newline
/// written only where the source has one.
pub open spec fn blanked_from(src: Seq<char>, out: Seq<char>, i: int) -> bool {
    &&& out.len() == src.len() - i
    &&& forall|m: int|
        0 <= m < out.len() ==> (#[trigger] out[m] == src[i + m] || out[m] == ' ')
    &&& forall|m: int| 0 <= m < out.len() && #[trigger] out[m] == '\n' ==> src[i + m] == '\n'
}

proof fn lemma_js_step(src: Seq<char>, st: JsState, i: int)
    requires
        0 <= i < src.len(),
    ensures
        ({
            let (e, st2, j) = js_step(src, st, i);
            &&& i < j <= src.len()
            &&& blanked_from(src.subrange(0, j), e, i)
            &&& forall|m: int|
                0 <= m < e.len() && src[i + m] == '\n' ==> #[trigger] e[m] == '\n'
        }),
{
    let (e, st2, j) = js_step(src, st, i);
    assert(blanked_from(src.subrange(0, j), e, i));
}

proof fn lemma_js_from(src: Seq<char>, st: JsState, i: int)
    requires
        0 <= i <= src.len(),
    ensures
        blanked_from(src, js_from(src, st, i), i),
        forall|m: int|
            0 <= m < js_from(src, st, i).len() && src[i + m] == '\n'
                ==> #[trigger] js_from(src, st, i)[m] == '\n',
    decreases src.len() - i,
{
    if i < src.len() {
        let (e, st2, j) = js_step(src, st, i);
        lemma_js_step(src, st, i);
        lemma_js_from(src, st2, j);
        let rest = js_from(src, st2, j);
        let out = js_from(src, st, i);
        assert(out == e + rest);
        assert forall|m: int| 0 <= m < out.len() implies (#[trigger] out[m] == src[i + m]
            || out[m] == ' ') by {
            if m < e.len() {
                assert(out[m] == e[m]);
                assert(src.subrange(0, j)[i + m] == src[i + m]);
            } else {
                assert(out[m] == rest[m - e.len()]);
            }
        }
        assert forall|m: int| 0 <= m < out.len() && #[trigger] out[m] == '\n' implies src[i
            + m] == '\n' by {
            if m < e.len() {
                assert(out[m] == e[m]);
                assert(src.subrange(0, j)[i + m] == src[i + m]);
            } else {
                assert(out[m] == rest[m - e.len()]);
            }
        }
        assert forall|m: int| 0 <= m < out.len() && src[i + m] == '\n' implies #[trigger] out[m]
            == '\n' by {
            if m < e.len() {
                assert(out[m] == e[m]);
            } else {
                assert(out[m] == rest[m - e.len()]);
            }
        }
    }
}

/// The JavaScript blanker keeps the layout: the output has one character for
/// each source character, each the source character or a space, and a
/// newline stands exactly where the source has one — escaped or not. So
/// positions found in the output are positions in the source, and the line
/// count is unchanged.
pub proof fn blank_non_code_keeps_layout(src: Seq<char>)
    ensures
        spec_blank_non_code(src).len() == src.len(),
        forall|k: int|
            0 <= k < src.len() ==> (#[trigger] spec_blank_non_code(src)[k] == src[k]
                || spec_blank_non_code(src)[k] == ' '),
        forall|k: int|
            0 <= k < src.len() && #[trigger] spec_blank_non_code(src)[k] == '\n' ==> src[k]
                == '\n',
        forall|k: int|
            0 <= k < src.len() && src[k] == '\n' ==> #[trigger] spec_blank_non_code(src)[k]
                == '\n',
{
    lemma_js_from(src, js_init(), 0);
}


/// `r`, `br` or `cr`: the identifier runs that make the next `"` (or `#"`)
/// open a raw string.
pub open spec fn raw_prefix(word: Seq<char>) -> bool {
    word == "r"@ || word == "br"@ || word == "cr"@
}

fn is_raw_prefix(word: &Vec<char>) -> (r: bool)
    ensures
        r == raw_prefix(word@),
{
    proof {
        reveal_strlit("r");
        reveal_strlit("br");
        reveal_strlit("cr");
    }
    let r1 = word.len() == 1 && word[0] == 'r';
    let r2 = word.len() == 2 && (word[0] == 'b' || word[0] == 'c') && word[1] == 'r';
    proof {
        if word@.len() == 1 && word@[0] == 'r' {
            assert(word@ =~= "r"@);
        }
        if word@.len() == 2 && word@[0] == 'b' && word@[1] == 'r' {
            assert(word@ =~= "br"@);
        }
        if word@.len() == 2 && word@[0] == 'c' && word@[1] == 'r' {
            assert(word@ =~= "cr"@);
        }
    }
    r1 || r2
}

/// The Rust blanker's states; a block comment carries its nesting depth and
/// a raw string the number of `#` that closes it.
#[derive(Clone, Copy, PartialEq, Eq, Structural)]
pub enum RustMode {
    Code,
    Line,
    Block(usize),
    Str,
    Raw(usize),
}

pub struct RustState {
    pub mode: RustMode,
    /// The identifier run just read, for raw-string prefixes.
    pub word: Seq<char>,
}

/// How many `#` follow from position `i`.
pub open spec fn hash_run(s: Seq<char>, i: int) -> nat
    decreases s.len() - i,
{
    if 0 <= i < s.len() && s[i] == '#' {
        1 + hash_run(s, i + 1)
    } else {
        0
    }
}

/// `n` copies of `c`.
pub open spec fn repeat(c: char, n: nat) -> Seq<char> {
    Seq::new(n, |k: int| c)
}

/// The first `'` in `[from, to)`, if any.
pub open spec fn first_quote(s: Seq<char>, from: int, to: int) -> Option<int>
    decreases to - from,
{
    if from >= to || from < 0 || to > s.len() {
        None
    } else if s[from] == '\'' {
        Some(from)
    } else {
        first_quote(s, from + 1, to)
    }
}

/// Where the char literal opened by the `'` at `i` closes, or `None` when the
/// `'` is a lifetime. After `'\` it closes at the first quote within the
/// longest escape's reach; after `'x` only as `'x'`.
pub open spec fn char_end(s: Seq<char>, i: int) -> Option<int> {
    match char_at(s, i + 1) {
        Some(c) => if c == '\\' {
            first_quote(s, i + 3, if i + 14 < s.len() { i + 14 } else { s.len() as int })
        } else if c != '\'' && char_at(s, i + 2) == Some('\'') {
            Some(i + 2)
        } else {
            None
        },
        None => None,
    }
}

/// Does the `"` at `i` close a raw string opened with `h` hashes?
pub open spec fn raw_closes(s: Seq<char>, i: int, h: int) -> bool {
    s[i] == '"' && forall|k: int| 1 <= k <= h ==> #[trigger] char_at(s, i + k) == Some('#')
}

/// One step of the Rust blanker at position `i`.
pub open spec fn rust_step(src: Seq<char>, st: RustState, i: int) -> (Seq<char>, RustState, int) {
    let ch = src[i];
    let next = char_at(src, i + 1);
    let word = st.word;
    match st.mode {
        RustMode::Code => {
            if ch == '/' && next == Some('/') {
                (seq![' ', ' '], RustState { mode: RustMode::Line, word }, i + 2)
            } else if ch == '/' && next == Some('*') {
                (seq![' ', ' '], RustState { mode: RustMode::Block(1), word }, i + 2)
            } else if ch == '"' {
                (
                    seq![ch],
                    RustState {
                        mode: if raw_prefix(word) {
                            RustMode::Raw(0)
                        } else {
                            RustMode::Str
                        },
                        word: seq![],
                    },
                    i + 1,
                )
            } else if ch == '#' && raw_prefix(word) {
                let n = hash_run(src, i);
                if char_at(src, i + n) == Some('"') {
                    (
                        repeat('#', n).push('"'),
                        RustState { mode: RustMode::Raw(n as usize), word: seq![] },
                        i + n + 1,
                    )
                } else {
                    (seq![ch], RustState { mode: RustMode::Code, word: seq![] }, i + 1)
                }
            } else if ch == '\'' {
                match char_end(src, i) {
                    Some(j) => (
                        seq!['\''] + src.subrange(i + 1, j).map_values(|c: char| keep(c)) + seq![
                            '\'',
                        ],
                        RustState { mode: RustMode::Code, word: seq![] },
                        j + 1,
                    ),
                    None => (seq!['\''], RustState { mode: RustMode::Code, word: seq![] }, i + 1),
                }
            } else {
                (
                    seq![ch],
                    RustState {
                        mode: RustMode::Code,
                        word: if unicode_alphanumeric(ch) || ch == '_' {
                            word.push(ch)
                        } else {
                            seq![]
                        },
                    },
                    i + 1,
                )
            }
        },
        RustMode::Line => {
            if ch == '\n' {
                (seq!['\n'], RustState { mode: RustMode::Code, word }, i + 1)
            } else {
                (seq![' '], st, i + 1)
            }
        },
        RustMode::Block(d) => {
            if ch == '/' && next == Some('*') {
                (seq![' ', ' '], RustState { mode: RustMode::Block((d + 1) as usize), word }, i + 2)
            } else if ch == '*' && next == Some('/') {
                (
                    seq![' ', ' '],
                    RustState {
                        mode: if d == 1 {
                            RustMode::Code
                        } else {
                            RustMode::Block((d - 1) as usize)
                        },
                        word,
                    },
                    i + 2,
                )
            } else {
                (seq![keep(ch)], st, i + 1)
            }
        },
        RustMode::Str => {
            if ch == '\\' {
                match next {
                    Some(c) => (seq![' ', keep(c)], st, i + 2),
                    None => (seq![' '], st, i + 1),
                }
            } else if ch == '"' {
                (seq![ch], RustState { mode: RustMode::Code, word }, i + 1)
            } else {
                (seq![keep(ch)], st, i + 1)
            }
        },
        RustMode::Raw(h) => {
            if raw_closes(src, i, h as int) {
                (seq!['"'] + repeat('#', h as nat), RustState { mode: RustMode::Code, word }, i + h + 1)
            } else {
                (seq![keep(ch)], st, i + 1)
            }
        },
    }
}

pub open spec fn rust_from(src: Seq<char>, st: RustState, i: int) -> Seq<char>
    decreases src.len() - i,
{
    if i < 0 || i >= src.len() {
        seq![]
    } else {
        let (e, st2, j) = rust_step(src, st, i);
        if j <= i || j > src.len() {
            seq![]
        } else {
            e + rust_from(src, st2, j)
        }
    }
}

/// `blank_rust`, as a function of the source's characters.
pub open spec fn spec_blank_rust(src: Seq<char>) -> Seq<char> {
    rust_from(src, RustState { mode: RustMode::Code, word: seq![] }, 0)
}


/// An optional index, as an integer.
pub open spec fn opt_index(o: Option<usize>) -> Option<int> {
    match o {
        Some(j) => Some(j as int),
        None => None,
    }
}

struct RustScanner {
    mode: RustMode,
    word: Vec<char>,
}

impl RustScanner {
    spec fn state(&self) -> RustState {
        RustState { mode: self.mode, word: self.word@ }
    }

    spec fn bounded(&self, i: int) -> bool {
        match self.mode {
            RustMode::Block(d) => 1 <= d <= i,
            RustMode::Raw(h) => h <= i,
            _ => true,
        }
    }
}

spec fn rust_stepped(
    src: Seq<char>,
    before: RustState,
    i: int,
    after: RustState,
    j: int,
    old_out: Seq<char>,
    new_out: Seq<char>,
) -> bool {
    let (e, st2, jj) = rust_step(src, before, i);
    &&& after.mode == st2.mode
    &&& after.word =~= st2.word
    &&& j == jj
    &&& new_out =~= old_out + e
}

fn rust_code_step(sc: &mut RustScanner, b: &Vec<char>, i: usize, out: &mut Vec<char>) -> (j: usize)
    requires
        i < b.len(),
        old(sc).mode == RustMode::Code,
    ensures
        rust_stepped(b@, old(sc).state(), i as int, final(sc).state(), j as int, old(out)@, final(out)@),
        i < j <= b.len(),
        final(sc).bounded(j as int),
{
    let n = b.len();
    let ch = b[i];
    let next = if i + 1 < n {
        Some(b[i + 1])
    } else {
        None
    };
    if ch == '/' && next == Some('/') {
        sc.mode = RustMode::Line;
        out.push(' ');
        out.push(' ');
        i + 2
    } else if ch == '/' && next == Some('*') {
        sc.mode = RustMode::Block(1);
        out.push(' ');
        out.push(' ');
        i + 2
    } else if ch == '"' {
        sc.mode = if is_raw_prefix(&sc.word) {
            RustMode::Raw(0)
        } else {
            RustMode::Str
        };
        sc.word = Vec::new();
        out.push(ch);
        i + 1
    } else if ch == '#' && is_raw_prefix(&sc.word) {
        let mut k: usize = 0;
        while k < n - i && b[i + k] == '#'
            invariant
                i < n == b.len(),
                k <= n - i,
                hash_run(b@, i as int) == k + hash_run(b@, i + k),
            decreases n - i - k,
        {
            k += 1;
        }
        sc.word = Vec::new();
        if k < n - i && b[i + k] == '"' {
            let mut m: usize = 0;
            while m < k
                invariant
                    m <= k,
                    out@ =~= old(out)@ + repeat('#', m as nat),
                decreases k - m,
            {
                out.push('#');
                m += 1;
            }
            out.push('"');
            sc.mode = RustMode::Raw(k);
            i + k + 1
        } else {
            out.push(ch);
            i + 1
        }
    } else if ch == '\'' {
        let mut end: Option<usize> = None;
        if next == Some('\\') {
            if n - i > 3 {
                let hi = if n - i > 14 {
                    i + 14
                } else {
                    n
                };
                let mut j = i + 3;
                while j < hi && b[j] != '\''
                    invariant
                        i + 3 <= j <= hi,
                        hi <= n == b.len(),
                        hi == (if i + 14 < n { i + 14 } else { n as int }),
                        first_quote(b@, j as int, hi as int) == first_quote(b@, i + 3, hi as int),
                    decreases hi - j,
                {
                    j += 1;
                }
                if j < hi {
                    end = Some(j);
                }
            }
        } else if next.is_some() && next != Some('\'') && i + 2 < n && b[i + 2] == '\'' {
            end = Some(i + 2);
        }
        assert(opt_index(end) == char_end(b@, i as int));
        sc.word = Vec::new();
        match end {
            Some(j) => {
                out.push('\'');
                let mut m = i + 1;
                while m < j
                    invariant
                        i + 1 <= m <= j < n == b.len(),
                        out@ =~= old(out)@ + seq!['\''] + b@.subrange(i + 1, m as int).map_values(|c: char| keep(c)),
                    decreases j - m,
                {
                    let ghost prior = out@;
                    out.push(keep_exec(b[m]));
                    proof {
                        assert(b@.subrange(i + 1, m + 1).map_values(|c: char| keep(c)) =~= b@.subrange(i + 1, m as int).map_values(|c: char| keep(c)).push(keep(b@[m as int])));
                    }
                    m += 1;
                }
                out.push('\'');
                j + 1
            },
            None => {
                out.push('\'');
                i + 1
            },
        }
    } else {
        if is_alphanumeric(ch) || ch == '_' {
            sc.word.push(ch);
        } else {
            sc.word = Vec::new();
        }
        out.push(ch);
        i + 1
    }
}

fn rust_other_step(sc: &mut RustScanner, b: &Vec<char>, i: usize, out: &mut Vec<char>) -> (j: usize)
    requires
        i < b.len(),
        old(sc).mode != RustMode::Code,
        old(sc).bounded(i as int),
    ensures
        rust_stepped(b@, old(sc).state(), i as int, final(sc).state(), j as int, old(out)@, final(out)@),
        i < j <= b.len(),
        final(sc).bounded(j as int),
{
    let n = b.len();
    let ch = b[i];
    let next = if i + 1 < n {
        Some(b[i + 1])
    } else {
        None
    };
    match sc.mode {
        RustMode::Line => {
            if ch == '\n' {
                sc.mode = RustMode::Code;
                out.push('\n');
            } else {
                out.push(' ');
            }
            i + 1
        },
        RustMode::Block(d) => {
            if ch == '/' && next == Some('*') {
                sc.mode = RustMode::Block(d + 1);
                out.push(' ');
                out.push(' ');
                i + 2
            } else if ch == '*' && next == Some('/') {
                sc.mode = if d == 1 {
                    RustMode::Code
                } else {
                    RustMode::Block(d - 1)
                };
                out.push(' ');
                out.push(' ');
                i + 2
            } else {
                out.push(keep_exec(ch));
                i + 1
            }
        },
        RustMode::Str => {
            if ch == '\\' {
                out.push(' ');
                match next {
                    Some(c) => {
                        out.push(keep_exec(c));
                        i + 2
                    },
                    None => i + 1,
                }
            } else if ch == '"' {
                sc.mode = RustMode::Code;
                out.push(ch);
                i + 1
            } else {
                out.push(keep_exec(ch));
                i + 1
            }
        },
        RustMode::Raw(h) => {
            let mut closes = ch == '"';
            let mut k: usize = 1;
            while closes && k <= h
                invariant
                    i < n == b.len(),
                    1 <= k,
                    h <= i,
                    closes ==> b@[i as int] == '"',
                    closes ==> forall|q: int| 1 <= q < k ==> #[trigger] char_at(b@, i + q) == Some('#'),
                    !closes ==> !raw_closes(b@, i as int, h as int),
                    ch == b@[i as int],
                decreases h + 1 - k + (if closes { 1int } else { 0int }),
            {
                if !(k < n - i && b[i + k] == '#') {
                    closes = false;
                    assert(char_at(b@, i + k) != Some('#'));
                } else {
                    k += 1;
                }
            }
            if closes {
                out.push('"');
                let mut m: usize = 0;
                while m < h
                    invariant
                        m <= h,
                        out@ =~= old(out)@ + seq!['"'] + repeat('#', m as nat),
                    decreases h - m,
                {
                    out.push('#');
                    m += 1;
                }
                sc.mode = RustMode::Code;
                proof {
                    if h > 0 {
                        assert(char_at(b@, i + h) == Some('#'));
                    }
                }
                i + h + 1
            } else {
                out.push(keep_exec(ch));
                i + 1
            }
        },
        RustMode::Code => i + 1,
    }
}

/// Blank comments and the insides of string and char literals in Rust
/// source, one output character per input character and every newline kept:
/// block comments nest, raw strings close on `"` plus their own count of
/// `#`, and a `'` is a char literal only when it closes within the longest
/// escape's reach — otherwise it is a lifetime, and what follows is code.
pub fn blank_rust(src: &str) -> (out: String)
    ensures
        out@ == spec_blank_rust(src@),
{
    let b = chars_of(src);
    let n = b.len();
    let mut out: Vec<char> = Vec::new();
    let mut sc = RustScanner { mode: RustMode::Code, word: Vec::new() };
    let mut i: usize = 0;
    proof {
        assert(sc.state() == RustState { mode: RustMode::Code, word: seq![] });
    }
    while i < n
        invariant
            n == b.len(),
            b@ == src@,
            i <= n,
            sc.bounded(i as int),
            out@ + rust_from(b@, sc.state(), i as int) == spec_blank_rust(b@),
        decreases n - i,
    {
        let ghost before = out@;
        let ghost st = sc.state();
        let ghost i0 = i as int;
        i = if sc.mode == RustMode::Code {
            rust_code_step(&mut sc, &b, i, &mut out)
        } else {
            rust_other_step(&mut sc, &b, i, &mut out)
        };
        proof {
            let (e, st2, j) = rust_step(b@, st, i0);
            assert(sc.state() == st2);
            assert(rust_from(b@, st, i0) == e + rust_from(b@, st2, j));
            assert(before + (e + rust_from(b@, st2, j)) =~= out@ + rust_from(b@, st2, j));
        }
    }
    proof {
        assert(rust_from(b@, sc.state(), i as int) =~= seq![]);
        assert(out@ =~= out@ + seq![]);
    }
    string_of(&out)
}


/// Every newline of `src[i..]` is still a newline in `out`.
pub open spec fn newlines_kept(src: Seq<char>, out: Seq<char>, i: int) -> bool {
    forall|m: int| 0 <= m < out.len() && src[i + m] == '\n' ==> #[trigger] out[m] == '\n'
}

proof fn lemma_rust_step(src: Seq<char>, st: RustState, i: int)
    requires
        0 <= i < src.len(),
    ensures
        ({
            let (e, st2, j) = rust_step(src, st, i);
            &&& i < j <= src.len()
            &&& blanked_from(src.subrange(0, j), e, i)
            &&& newlines_kept(src, e, i)
        }),
{
    let (e, st2, j) = rust_step(src, st, i);
    let ch = src[i];
    let sub = src.subrange(0, j);
    if st.mode == RustMode::Code && ch == '\'' {
        lemma_char_end(src, i);
        match char_end(src, i) {
            Some(je) => {
                let mid = src.subrange(i + 1, je).map_values(|c: char| keep(c));
                assert(e == seq!['\''] + mid + seq!['\'']);
                assert(j == je + 1);
                assert forall|m: int| 0 <= m < e.len() implies (#[trigger] e[m] == sub[i + m]
                    || e[m] == ' ') && (e[m] == '\n' ==> src[i + m] == '\n')
                    && (src[i + m] == '\n' ==> e[m] == '\n') by {
                    assert(sub[i + m] == src[i + m]);
                    if 1 <= m < e.len() - 1 {
                        assert(e[m] == mid[m - 1]);
                        assert(mid[m - 1] == keep(src[i + m]));
                    }
                }
            },
            None => {},
        }
    } else if st.mode == RustMode::Code && ch == '#' && raw_prefix(st.word) {
        let n = hash_run(src, i);
        lemma_hash_run(src, i);
        if char_at(src, i + n) == Some('"') {
            assert(e == repeat('#', n).push('"'));
            assert forall|m: int| 0 <= m < e.len() implies #[trigger] e[m] == sub[i + m] by {
                assert(sub[i + m] == src[i + m]);
            }
        }
    } else {
        match st.mode {
            RustMode::Raw(h) => {
                if raw_closes(src, i, h as int) {
                    assert forall|m: int| 1 <= m <= h implies #[trigger] src[i + m] == '#' by {
                        assert(char_at(src, i + m) == Some('#'));
                    }
                    assert(char_at(src, i + h) == Some('#') || h == 0);
                    assert(e == seq!['"'] + repeat('#', h as nat));
                    assert forall|m: int| 0 <= m < e.len() implies #[trigger] e[m] == sub[i + m] by {
                        assert(sub[i + m] == src[i + m]);
                        if m >= 1 {
                            assert(char_at(src, i + m) == Some('#'));
                        }
                    }
                }
            },
            _ => {},
        }
    }
}

proof fn lemma_first_quote(s: Seq<char>, from: int, to: int)
    ensures
        first_quote(s, from, to) matches Some(k) ==> 0 <= from <= k < to <= s.len() && s[k] == '\'',
    decreases to - from,
{
    if !(from >= to || from < 0 || to > s.len()) && s[from] != '\'' {
        lemma_first_quote(s, from + 1, to);
    }
}

proof fn lemma_char_end(s: Seq<char>, i: int)
    requires
        0 <= i,
    ensures
        char_end(s, i) matches Some(j) ==> i + 2 <= j < s.len() && s[j] == '\'',
{
    lemma_first_quote(s, i + 3, if i + 14 < s.len() { i + 14 } else { s.len() as int });
}

proof fn lemma_hash_run(s: Seq<char>, i: int)
    requires
        0 <= i,
    ensures
        i + hash_run(s, i) <= s.len() || hash_run(s, i) == 0,
        forall|k: int| i <= k < i + hash_run(s, i) ==> #[trigger] s[k] == '#',
    decreases s.len() - i,
{
    if 0 <= i < s.len() && s[i] == '#' {
        lemma_hash_run(s, i + 1);
    }
}

proof fn lemma_rust_from(src: Seq<char>, st: RustState, i: int)
    requires
        0 <= i <= src.len(),
    ensures
        blanked_from(src, rust_from(src, st, i), i),
        newlines_kept(src, rust_from(src, st, i), i),
    decreases src.len() - i,
{
    if i < src.len() {
        let (e, st2, j) = rust_step(src, st, i);
        lemma_rust_step(src, st, i);
        lemma_rust_from(src, st2, j);
        let rest = rust_from(src, st2, j);
        let out = rust_from(src, st, i);
        assert(out == e + rest);
        assert forall|m: int| 0 <= m < out.len() implies (#[trigger] out[m] == src[i + m]
            || out[m] == ' ') && (out[m] == '\n' ==> src[i + m] == '\n')
            && (src[i + m] == '\n' ==> out[m] == '\n') by {
            if m < e.len() {
                assert(out[m] == e[m]);
                assert(src.subrange(0, j)[i + m] == src[i + m]);
            } else {
                assert(out[m] == rest[m - e.len()]);
            }
        }
    }
}

/// The Rust blanker keeps the layout exactly: one output character for each
/// source character, each the source character or a space, and a newline in
/// the output exactly where the source has one. So positions and line
/// numbers found in the output hold for the source.
pub proof fn blank_rust_keeps_layout(src: Seq<char>)
    ensures
        spec_blank_rust(src).len() == src.len(),
        forall|k: int|
            0 <= k < src.len() ==> (#[trigger] spec_blank_rust(src)[k] == src[k]
                || spec_blank_rust(src)[k] == ' '),
        forall|k: int|
            0 <= k < src.len() ==> (#[trigger] spec_blank_rust(src)[k] == '\n' <==> src[k]
                == '\n'),
{
    lemma_rust_from(src, RustState { mode: RustMode::Code, word: seq![] }, 0);
}


// ---------------------------------------------------------------------------
// Where a matcher fires

/// The first occurrence of `w` from `from` on that counts under `kind`,
/// found by the same walk as [`scan_hits`].
pub open spec fn hit_pos(kind: Hit, s: Seq<char>, w: Seq<char>, from: int) -> Option<int>
    decreases s.len() - from,
{
    if w.len() == 0 || from < 0 || from + w.len() > s.len() {
        None
    } else if occurs_at(s, w, from) {
        if hit_at(kind, s, w, from) {
            Some(from)
        } else {
            hit_pos(kind, s, w, from + w.len())
        }
    } else {
        hit_pos(kind, s, w, from + 1)
    }
}

/// A matcher fires exactly where it finds a position.
pub proof fn hit_pos_agrees(kind: Hit, s: Seq<char>, w: Seq<char>, from: int)
    ensures
        hit_pos(kind, s, w, from) is Some <==> scan_hits(kind, s, w, from),
        hit_pos(kind, s, w, from) matches Some(k) ==> 0 <= k && k + w.len() <= s.len(),
    decreases s.len() - from,
{
    if !(w.len() == 0 || from < 0 || from + w.len() > s.len()) {
        if occurs_at(s, w, from) {
            hit_pos_agrees(kind, s, w, from + w.len());
        } else {
            hit_pos_agrees(kind, s, w, from + 1);
        }
    }
}

/// Exec form of [`hit_pos`] from the start of `s`.
pub fn first_hit(kind: Hit, s: &Vec<char>, w: &Vec<char>) -> (r: Option<usize>)
    requires
        w@.len() > 0,
    ensures
        opt_index(r) == hit_pos(kind, s@, w@, 0),
{
    let mut from: usize = 0;
    while from <= s.len() && w.len() <= s.len() - from
        invariant
            w@.len() > 0,
            hit_pos(kind, s@, w@, from as int) == hit_pos(kind, s@, w@, 0),
        decreases s.len() - from,
    {
        if matches_at(s, w, from) {
            if hit_exec(kind, s, w, from) {
                return Some(from);
            }
            from = from + w.len();
        } else {
            from = from + 1;
        }
    }
    None
}

/// The earlier of two positions.
pub open spec fn earlier(a: Option<int>, b: Option<int>) -> Option<int> {
    match (a, b) {
        (Some(x), Some(y)) => Some(if x <= y { x } else { y }),
        (Some(x), None) => Some(x),
        (None, _) => b,
    }
}

fn earlier_exec(a: Option<usize>, b: Option<usize>) -> (r: Option<usize>)
    ensures
        opt_index(r) == earlier(opt_index(a), opt_index(b)),
{
    match (a, b) {
        (Some(x), Some(y)) => Some(if x <= y { x } else { y }),
        (Some(x), None) => Some(x),
        (None, _) => b,
    }
}

// ---------------------------------------------------------------------------
// The terms

/// A banned form.
#[derive(Debug, Clone, Copy, PartialEq, Eq, Structural)]
pub enum Term {
    Fit,
    Fdescribe,
    Debugger,
    SkipOnly,
    Dbg,
    Breakpoint,
    SetTrace,
}

/// The language a term is banned in.
#[derive(Debug, Clone, Copy, PartialEq, Eq, Structural)]
pub enum Language {
    JsLike,
    Rust,
    Python,
}

/// Every term, in report order.
pub open spec fn spec_terms() -> Seq<Term> {
    seq![
        Term::Fit,
        Term::Fdescribe,
        Term::Debugger,
        Term::SkipOnly,
        Term::Dbg,
        Term::Breakpoint,
        Term::SetTrace,
    ]
}

pub fn terms() -> (r: Vec<Term>)
    ensures
        r@ == spec_terms(),
{
    let r = vec![
        Term::Fit,
        Term::Fdescribe,
        Term::Debugger,
        Term::SkipOnly,
        Term::Dbg,
        Term::Breakpoint,
        Term::SetTrace,
    ];
    assert(r@ =~= spec_terms());
    r
}

pub open spec fn term_language(t: Term) -> Language {
    match t {
        Term::Dbg => Language::Rust,
        Term::Breakpoint | Term::SetTrace => Language::Python,
        _ => Language::JsLike,
    }
}

pub open spec fn term_label(t: Term) -> Seq<char> {
    match t {
        Term::Fit => "fit"@,
        Term::Fdescribe => "fdescribe"@,
        Term::Debugger => "debugger"@,
        Term::SkipOnly => "skipOnly"@,
        Term::Dbg => "dbg!"@,
        Term::Breakpoint => "breakpoint"@,
        Term::SetTrace => "set_trace"@,
    }
}

/// The extensions a language's files carry.
pub open spec fn language_exts(l: Language) -> Seq<Seq<char>> {
    match l {
        Language::JsLike => seq![".js"@, ".jsx"@, ".ts"@, ".tsx"@, ".vue"@],
        Language::Rust => seq![".rs"@],
        Language::Python => seq![".py"@],
    }
}

/// A language's source with comments and literals blanked.
pub open spec fn blank_for(l: Language, src: Seq<char>) -> Seq<char> {
    match l {
        Language::JsLike => spec_blank_non_code(src),
        Language::Rust => spec_blank_rust(src),
        Language::Python => spec_blank_python(src),
    }
}

/// Where a term first fires in blanked text, if it does.
pub open spec fn term_hit(t: Term, s: Seq<char>) -> Option<int> {
    match t {
        Term::Fit => hit_pos(Hit::Call, s, "fit"@, 0),
        Term::Fdescribe => hit_pos(Hit::Call, s, "fdescribe"@, 0),
        Term::Debugger => hit_pos(Hit::Bare, s, "debugger"@, 0),
        Term::SkipOnly => earlier(
            earlier(
                earlier(
                    hit_pos(Hit::Standalone, s, "describe.skip"@, 0),
                    hit_pos(Hit::Standalone, s, "describe.only"@, 0),
                ),
                earlier(
                    hit_pos(Hit::Standalone, s, "context.skip"@, 0),
                    hit_pos(Hit::Standalone, s, "context.only"@, 0),
                ),
            ),
            earlier(
                hit_pos(Hit::Standalone, s, "it.skip"@, 0),
                hit_pos(Hit::Standalone, s, "it.only"@, 0),
            ),
        ),
        Term::Dbg => hit_pos(Hit::Macro, s, "dbg"@, 0),
        Term::Breakpoint => hit_pos(Hit::Call, s, "breakpoint"@, 0),
        Term::SetTrace => earlier(
            hit_pos(Hit::ModuleCall, s, "pdb.set_trace"@, 0),
            hit_pos(Hit::ModuleCall, s, "ipdb.set_trace"@, 0),
        ),
    }
}

// ---------------------------------------------------------------------------
// Each term fires wherever its form stands

/// `w(` — `w`, optional white space, then `(` — with neither an identifier
/// character nor a dot just before `w`.
pub open spec fn called_at(s: Seq<char>, w: Seq<char>, at: int) -> bool {
    &&& occurs_at(s, w, at)
    &&& (at == 0 || !(ident(s[at - 1]) || s[at - 1] == '.'))
    &&& next_non_space(s, at + w.len()) == Some('(')
}

/// `w` as a word of its own, with no dot before it.
pub open spec fn bare_at(s: Seq<char>, w: Seq<char>, at: int) -> bool {
    &&& occurs_at(s, w, at)
    &&& (at == 0 || !(ident(s[at - 1]) || s[at - 1] == '.'))
    &&& (at + w.len() == s.len() || !ident(s[at + w.len()]))
}

/// `w` with no identifier character just before or just after it.
pub open spec fn standalone_at(s: Seq<char>, w: Seq<char>, at: int) -> bool {
    &&& occurs_at(s, w, at)
    &&& (at == 0 || !ident(s[at - 1]))
    &&& (at + w.len() == s.len() || !ident(s[at + w.len()]))
}

/// `w!` then, after optional white space, `(`, `[` or `{`; no identifier
/// character just before `w`.
pub open spec fn macro_at(s: Seq<char>, w: Seq<char>, at: int) -> bool {
    &&& occurs_at(s, w, at)
    &&& (at == 0 || !ident(s[at - 1]))
    &&& at + w.len() < s.len()
    &&& s[at + w.len()] == '!'
    &&& (next_non_space(s, at + w.len() + 1) == Some('(') || next_non_space(s, at + w.len() + 1) == Some('[')
        || next_non_space(s, at + w.len() + 1) == Some('{'))
}

/// `w(` with no identifier character just before `w` (a dot is fine).
pub open spec fn module_called_at(s: Seq<char>, w: Seq<char>, at: int) -> bool {
    &&& occurs_at(s, w, at)
    &&& (at == 0 || !ident(s[at - 1]))
    &&& next_non_space(s, at + w.len()) == Some('(')
}

proof fn lemma_hit_pos_finds(kind: Hit, s: Seq<char>, w: Seq<char>, from: int, at: int)
    requires
        w.len() > 0,
        overlap_free(w),
        0 <= from <= at,
        occurs_at(s, w, at),
        hit_at(kind, s, w, at),
    ensures
        hit_pos(kind, s, w, from) matches Some(k) && k <= at,
    decreases at - from,
{
    if occurs_at(s, w, from) {
        if from < at {
            lemma_overlap_free_apart(s, w, from, at);
            if !hit_at(kind, s, w, from) {
                lemma_hit_pos_finds(kind, s, w, from + w.len(), at);
            }
        }
    } else {
        lemma_hit_pos_finds(kind, s, w, from + 1, at);
    }
}

/// Every term fires wherever its form stands, at that place or earlier:
/// `fit(` and `fdescribe(`; `debugger` as a word of its own; `describe`,
/// `context` or `it` with `.skip` or `.only`; `dbg!(`; `breakpoint(`; and
/// `pdb.set_trace(` or `ipdb.set_trace(`.
pub proof fn each_term_fires_where_its_form_stands(s: Seq<char>, at: int)
    ensures
        called_at(s, "fit"@, at) ==> (term_hit(Term::Fit, s) matches Some(k) && k <= at),
        called_at(s, "fdescribe"@, at) ==> (term_hit(Term::Fdescribe, s) matches Some(k) && k <= at),
        bare_at(s, "debugger"@, at) ==> (term_hit(Term::Debugger, s) matches Some(k) && k <= at),
        standalone_at(s, "describe.skip"@, at) ==> (term_hit(Term::SkipOnly, s) matches Some(k) && k <= at),
        standalone_at(s, "describe.only"@, at) ==> (term_hit(Term::SkipOnly, s) matches Some(k) && k <= at),
        standalone_at(s, "context.skip"@, at) ==> (term_hit(Term::SkipOnly, s) matches Some(k) && k <= at),
        standalone_at(s, "context.only"@, at) ==> (term_hit(Term::SkipOnly, s) matches Some(k) && k <= at),
        standalone_at(s, "it.skip"@, at) ==> (term_hit(Term::SkipOnly, s) matches Some(k) && k <= at),
        standalone_at(s, "it.only"@, at) ==> (term_hit(Term::SkipOnly, s) matches Some(k) && k <= at),
        macro_at(s, "dbg"@, at) ==> (term_hit(Term::Dbg, s) matches Some(k) && k <= at),
        called_at(s, "breakpoint"@, at) ==> (term_hit(Term::Breakpoint, s) matches Some(k) && k <= at),
        module_called_at(s, "pdb.set_trace"@, at) ==> (term_hit(Term::SetTrace, s) matches Some(k) && k <= at),
        module_called_at(s, "ipdb.set_trace"@, at) ==> (term_hit(Term::SetTrace, s) matches Some(k) && k <= at),
{
    reveal_strlit("fit");
    reveal_strlit("fdescribe");
    reveal_strlit("debugger");
    reveal_strlit("describe.skip");
    reveal_strlit("describe.only");
    reveal_strlit("context.skip");
    reveal_strlit("context.only");
    reveal_strlit("it.skip");
    reveal_strlit("it.only");
    reveal_strlit("dbg");
    reveal_strlit("breakpoint");
    reveal_strlit("pdb.set_trace");
    reveal_strlit("ipdb.set_trace");
    if called_at(s, "fit"@, at) {
        assert(overlap_free("fit"@));
        lemma_hit_pos_finds(Hit::Call, s, "fit"@, 0, at);
    }
    if called_at(s, "fdescribe"@, at) {
        assert(overlap_free("fdescribe"@));
        lemma_hit_pos_finds(Hit::Call, s, "fdescribe"@, 0, at);
    }
    if bare_at(s, "debugger"@, at) {
        assert(overlap_free("debugger"@));
        lemma_hit_pos_finds(Hit::Bare, s, "debugger"@, 0, at);
    }
    if standalone_at(s, "describe.skip"@, at) {
        assert(overlap_free("describe.skip"@));
        lemma_hit_pos_finds(Hit::Standalone, s, "describe.skip"@, 0, at);
    }
    if standalone_at(s, "describe.only"@, at) {
        assert(overlap_free("describe.only"@));
        lemma_hit_pos_finds(Hit::Standalone, s, "describe.only"@, 0, at);
    }
    if standalone_at(s, "context.skip"@, at) {
        assert(overlap_free("context.skip"@));
        lemma_hit_pos_finds(Hit::Standalone, s, "context.skip"@, 0, at);
    }
    if standalone_at(s, "context.only"@, at) {
        assert(overlap_free("context.only"@));
        lemma_hit_pos_finds(Hit::Standalone, s, "context.only"@, 0, at);
    }
    if standalone_at(s, "it.skip"@, at) {
        assert(overlap_free("it.skip"@));
        lemma_hit_pos_finds(Hit::Standalone, s, "it.skip"@, 0, at);
    }
    if standalone_at(s, "it.only"@, at) {
        assert(overlap_free("it.only"@));
        lemma_hit_pos_finds(Hit::Standalone, s, "it.only"@, 0, at);
    }
    if macro_at(s, "dbg"@, at) {
        assert(overlap_free("dbg"@));
        lemma_hit_pos_finds(Hit::Macro, s, "dbg"@, 0, at);
    }
    if called_at(s, "breakpoint"@, at) {
        assert(overlap_free("breakpoint"@));
        lemma_hit_pos_finds(Hit::Call, s, "breakpoint"@, 0, at);
    }
    if module_called_at(s, "pdb.set_trace"@, at) {
        assert(overlap_free("pdb.set_trace"@));
        lemma_hit_pos_finds(Hit::ModuleCall, s, "pdb.set_trace"@, 0, at);
    }
    if module_called_at(s, "ipdb.set_trace"@, at) {
        assert(overlap_free("ipdb.set_trace"@));
        lemma_hit_pos_finds(Hit::ModuleCall, s, "ipdb.set_trace"@, 0, at);
    }
}

/// Every term is scanned, once.
pub proof fn every_term_is_scanned()
    ensures
        forall|t: Term| #[trigger] spec_terms().contains(t),
        forall|i: int, j: int| 0 <= i < j < spec_terms().len() ==> spec_terms()[i] != spec_terms()[j],
{
    assert forall|t: Term| #[trigger] spec_terms().contains(t) by {
        let i: int = match t {
            Term::Fit => 0,
            Term::Fdescribe => 1,
            Term::Debugger => 2,
            Term::SkipOnly => 3,
            Term::Dbg => 4,
            Term::Breakpoint => 5,
            Term::SetTrace => 6,
        };
        assert(spec_terms()[i] == t);
    }
}

/// Each term is banned in its own language: `dbg!` in Rust,
/// `breakpoint()` and `set_trace` in Python, the rest in JS and TS.
pub proof fn each_term_has_its_language()
    ensures
        term_language(Term::Fit) == Language::JsLike,
        term_language(Term::Fdescribe) == Language::JsLike,
        term_language(Term::Debugger) == Language::JsLike,
        term_language(Term::SkipOnly) == Language::JsLike,
        term_language(Term::Dbg) == Language::Rust,
        term_language(Term::Breakpoint) == Language::Python,
        term_language(Term::SetTrace) == Language::Python,
{
}

/// The loose pattern `git diff -G` is given to pick the files worth
/// scanning for a term; the scan itself decides.
pub open spec fn term_prefilter(t: Term) -> Seq<char> {
    match t {
        Term::Fit => "\\s*fit\\("@,
        Term::Fdescribe => "\\s*fdescribe\\("@,
        Term::Debugger => "debugger;?"@,
        Term::SkipOnly => "(describe|context|it)\\.(skip|only)"@,
        Term::Dbg => "dbg!"@,
        Term::Breakpoint => "breakpoint"@,
        Term::SetTrace => "set_trace"@,
    }
}

impl Term {
    /// How a report names the term.
    pub fn label(self) -> (r: &'static str)
        ensures
            r@ == term_label(self),
    {
        match self {
            Term::Fit => "fit",
            Term::Fdescribe => "fdescribe",
            Term::Debugger => "debugger",
            Term::SkipOnly => "skipOnly",
            Term::Dbg => "dbg!",
            Term::Breakpoint => "breakpoint",
            Term::SetTrace => "set_trace",
        }
    }

    /// The loose `git diff -G` prefilter that picks candidate files.
    pub fn prefilter(self) -> (r: &'static str)
        ensures
            r@ == term_prefilter(self),
    {
        match self {
            Term::Fit => "\\s*fit\\(",
            Term::Fdescribe => "\\s*fdescribe\\(",
            Term::Debugger => "debugger;?",
            Term::SkipOnly => "(describe|context|it)\\.(skip|only)",
            Term::Dbg => "dbg!",
            Term::Breakpoint => "breakpoint",
            Term::SetTrace => "set_trace",
        }
    }

    pub fn language(self) -> (r: Language)
        ensures
            r == term_language(self),
    {
        match self {
            Term::Dbg => Language::Rust,
            Term::Breakpoint | Term::SetTrace => Language::Python,
            _ => Language::JsLike,
        }
    }
}

/// The extensions a language's files carry.
pub fn exts_of(l: Language) -> (r: Vec<&'static str>)
    ensures
        r@.map_values(|e: &str| e@) == language_exts(l),
{
    let r = match l {
        Language::JsLike => vec![".js", ".jsx", ".ts", ".tsx", ".vue"],
        Language::Rust => vec![".rs"],
        Language::Python => vec![".py"],
    };
    proof {
        reveal_strlit(".js");
        reveal_strlit(".jsx");
        reveal_strlit(".ts");
        reveal_strlit(".tsx");
        reveal_strlit(".vue");
        reveal_strlit(".rs");
        reveal_strlit(".py");
        assert(r@.map_values(|e: &str| e@) =~= language_exts(l));
    }
    r
}

/// Everything any term scans — the check's scope.
pub fn exts() -> (r: Vec<&'static str>)
    ensures
        r@.map_values(|e: &str| e@) == spec_exts(),
{
    let r = vec![".js", ".jsx", ".ts", ".tsx", ".vue", ".rs", ".py"];
    proof {
        reveal_strlit(".js");
        reveal_strlit(".jsx");
        reveal_strlit(".ts");
        reveal_strlit(".tsx");
        reveal_strlit(".vue");
        reveal_strlit(".rs");
        reveal_strlit(".py");
        assert(r@.map_values(|e: &str| e@) =~= spec_exts());
    }
    r
}

/// What follows the last `/` of a path: its file name.
pub open spec fn basename(f: Seq<char>) -> Seq<char>
    decreases f.len(),
{
    if f.len() == 0 {
        seq![]
    } else if f.last() == '/' {
        seq![]
    } else {
        basename(f.drop_last()).push(f.last())
    }
}

/// The file name of a path, as characters.
pub fn basename_of(f: &Vec<char>) -> (r: Vec<char>)
    ensures
        r@ == basename(f@),
{
    let mut b = f.len();
    assert(f@.take(b as int) =~= f@);
    assert(f@.skip(b as int) =~= seq![]);
    assert(basename(f@) + seq![] =~= basename(f@));
    while b > 0 && f[b - 1] != '/'
        invariant
            b <= f.len(),
            basename(f@) == basename(f@.take(b as int)) + f@.skip(b as int),
        decreases b,
    {
        assert(f@.take(b as int).drop_last() =~= f@.take(b - 1));
        assert(f@.skip(b - 1) =~= seq![f@[b - 1]] + f@.skip(b as int));
        assert(basename(f@.take(b as int)) == basename(f@.take(b - 1)).push(f@[b - 1]));
        assert(basename(f@.take(b - 1)).push(f@[b - 1]) + f@.skip(b as int) =~= basename(
            f@.take(b - 1),
        ) + f@.skip(b - 1));
        b -= 1;
    }
    proof {
        assert(basename(f@.take(b as int)) =~= seq![]);
        assert(seq![] + f@.skip(b as int) =~= f@.skip(b as int));
    }
    let r = slice_of(f, b, f.len());
    assert(r@ =~= f@.skip(b as int));
    r
}

/// The file's name ends with one of `exts`.
pub open spec fn searchable(file: Seq<char>, exts: Seq<Seq<char>>) -> bool {
    exists|k: int| 0 <= k < exts.len() && ends_with(basename(file), #[trigger] exts[k])
}

/// Is `file` one the extensions `exts` cover? Decided on its file name.
pub fn is_searchable(file: &str, exts: &[&str]) -> (r: bool)
    ensures
        r == searchable(file@, exts@.map_values(|e: &str| e@)),
{
    let base = basename_of(&chars_of(file));
    let ghost es = exts@.map_values(|e: &str| e@);
    let mut k: usize = 0;
    while k < exts.len()
        invariant
            k <= exts.len(),
            es == exts@.map_values(|e: &str| e@),
            base@ == basename(file@),
            forall|m: int| 0 <= m < k ==> !ends_with(base@, #[trigger] es[m]),
        decreases exts.len() - k,
    {
        let e = chars_of(exts[k]);
        assert(e@ == es[k as int]);
        if vec_ends_with(&base, &e) {
            return true;
        }
        k += 1;
    }
    false
}

/// The file's stem — its name up to the first `.` — is the hook's own name.
/// The hook names every term it bans, so its own source must never count.
pub open spec fn is_own_source(file: Seq<char>, hook_name: Seq<char>) -> bool {
    let base = basename(file);
    base.take(find_char(base, '.', 0)) == hook_name
}

pub fn stem_matches_self(file: &str, hook_name: &str) -> (r: bool)
    ensures
        r == is_own_source(file@, hook_name@),
{
    let base = basename_of(&chars_of(file));
    let dot = find_char_from(&base, '.', 0);
    let stem = slice_of(&base, 0, dot);
    assert(stem@ =~= base@.take(dot as int));
    crate::text::vec_eq(&stem, &chars_of(hook_name))
}

fn blank_exec(l: Language, src: &str) -> (r: Vec<char>)
    ensures
        r@ == blank_for(l, src@),
{
    match l {
        Language::JsLike => chars_of(&blank_non_code(src)),
        Language::Rust => chars_of(&blank_rust(src)),
        Language::Python => chars_of(&blank_python(src)),
    }
}

fn hit_of(kind: Hit, s: &Vec<char>, w: &str) -> (r: Option<usize>)
    requires
        w@.len() > 0,
    ensures
        opt_index(r) == hit_pos(kind, s@, w@, 0),
{
    first_hit(kind, s, &chars_of(w))
}

/// Exec form of [`term_hit`].
pub fn term_position(t: Term, s: &Vec<char>) -> (r: Option<usize>)
    ensures
        opt_index(r) == term_hit(t, s@),
{
    proof {
        reveal_strlit("fit");
        reveal_strlit("fdescribe");
        reveal_strlit("debugger");
        reveal_strlit("describe.skip");
        reveal_strlit("describe.only");
        reveal_strlit("context.skip");
        reveal_strlit("context.only");
        reveal_strlit("it.skip");
        reveal_strlit("it.only");
        reveal_strlit("dbg");
        reveal_strlit("breakpoint");
        reveal_strlit("pdb.set_trace");
        reveal_strlit("ipdb.set_trace");
    }
    match t {
        Term::Fit => hit_of(Hit::Call, s, "fit"),
        Term::Fdescribe => hit_of(Hit::Call, s, "fdescribe"),
        Term::Debugger => hit_of(Hit::Bare, s, "debugger"),
        Term::SkipOnly => {
            let a = earlier_exec(
                hit_of(Hit::Standalone, s, "describe.skip"),
                hit_of(Hit::Standalone, s, "describe.only"),
            );
            let b = earlier_exec(
                hit_of(Hit::Standalone, s, "context.skip"),
                hit_of(Hit::Standalone, s, "context.only"),
            );
            let c = earlier_exec(
                hit_of(Hit::Standalone, s, "it.skip"),
                hit_of(Hit::Standalone, s, "it.only"),
            );
            earlier_exec(earlier_exec(a, b), c)
        },
        Term::Dbg => hit_of(Hit::Macro, s, "dbg"),
        Term::Breakpoint => hit_of(Hit::Call, s, "breakpoint"),
        Term::SetTrace => earlier_exec(
            hit_of(Hit::ModuleCall, s, "pdb.set_trace"),
            hit_of(Hit::ModuleCall, s, "ipdb.set_trace"),
        ),
    }
}

/// Does the term fire in `content`, once its language's comments and
/// literals are blanked?
pub open spec fn term_fires(t: Term, content: Seq<char>) -> bool {
    term_hit(t, blank_for(term_language(t), content)) is Some
}

/// A staged file the prefilter picked: does it violate the term? Content
/// that could not be read keeps the prefilter's verdict.
pub fn violates(t: Term, content: Option<&str>) -> (r: bool)
    ensures
        r == match content {
            Some(c) => term_fires(t, c@),
            None => true,
        },
{
    match content {
        Some(c) => {
            let b = blank_exec(t.language(), c);
            term_position(t, &b).is_some()
        },
        None => true,
    }
}

/// The check's own short name, and the `check` field of every finding.
pub const NAME: &'static str = "ban-terms";

/// Where term `t` sits in `content` when `file` is one of its language's:
/// the first place it fires in the blanked text, which is the same place in
/// the source.
pub open spec fn term_place(t: Term, file: Seq<char>, content: Seq<char>) -> Option<int> {
    if searchable(file, language_exts(term_language(t))) {
        term_hit(t, blank_for(term_language(t), content))
    } else {
        None
    }
}

/// The terms among the first `k` that fire in `content`, with where.
pub open spec fn placed_upto(file: Seq<char>, content: Seq<char>, k: int) -> Seq<(Term, int)>
    decreases k,
{
    if k <= 0 {
        seq![]
    } else {
        let prev = placed_upto(file, content, k - 1);
        let t = spec_terms()[k - 1];
        match term_place(t, file, content) {
            Some(at) => prev.push((t, at)),
            None => prev,
        }
    }
}

/// What a finding about term `t` says: the label, quoted.
pub open spec fn term_message(t: Term) -> Seq<char> {
    seq!['\''] + term_label(t) + seq!['\'']
}

/// One blocking finding per term that fires in `content`, in term order,
/// placed where it first fires — none at all for the hook's own source.
pub fn scan(file: &str, content: &str, hook_name: &str) -> (r: Vec<Finding>)
    requires
        content@.len() < usize::MAX,
    ensures
        is_own_source(file@, hook_name@) ==> r@.len() == 0,
        !is_own_source(file@, hook_name@) ==> {
            let placed = placed_upto(file@, content@, 7);
            &&& r@.len() == placed.len()
            &&& forall|k: int|
                0 <= k < r@.len() ==> {
                    let f = #[trigger] r@[k];
                    let (t, at) = placed[k];
                    &&& f.check@ == NAME@
                    &&& f.file@ == file@
                    &&& f.severity == Severity::Block
                    &&& f.message@ == term_message(t)
                    &&& f.line == Some(line_col_at(content@, at).0 as usize)
                    &&& f.column == Some(line_col_at(content@, at).1 as usize)
                }
        },
{
    let mut out: Vec<Finding> = Vec::new();
    if stem_matches_self(file, hook_name) {
        return out;
    }
    let src = chars_of(content);
    let all = terms();
    let mut k: usize = 0;
    while k < all.len()
        invariant
            k <= all.len() == 7,
            all@ == spec_terms(),
            src@ == content@,
            src@.len() < usize::MAX,
            out@.len() == placed_upto(file@, content@, k as int).len(),
            forall|m: int|
                0 <= m < out@.len() ==> {
                    let f = #[trigger] out@[m];
                    let (t, at) = placed_upto(file@, content@, k as int)[m];
                    &&& f.check@ == NAME@
                    &&& f.file@ == file@
                    &&& f.severity == Severity::Block
                    &&& f.message@ == term_message(t)
                    &&& f.line == Some(line_col_at(content@, at).0 as usize)
                    &&& f.column == Some(line_col_at(content@, at).1 as usize)
                },
        decreases all.len() - k,
    {
        let t = all[k];
        let lang = t.language();
        let es = exts_of(lang);
        if is_searchable(file, es.as_slice()) {
            let b = blank_exec(lang, content);
            match term_position(t, &b) {
                Some(at) => {
                    proof {
                        lemma_blank_len(lang, content@);
                        lemma_term_hit_bound(t, b@);
                    }
                    let mut msg: Vec<char> = Vec::new();
                    msg.push('\'');
                    push_str(&mut msg, t.label());
                    msg.push('\'');
                    let message = crate::text::string_of(&msg);
                    let f = Finding::new(NAME, file, Severity::Block, message.as_str()).at_char(
                        &src,
                        at,
                    );
                    out.push(f);
                },
                None => {},
            }
        }
        k += 1;
    }
    out
}

proof fn lemma_blank_len(l: Language, src: Seq<char>)
    ensures
        blank_for(l, src).len() == src.len(),
{
    match l {
        Language::JsLike => blank_non_code_keeps_layout(src),
        Language::Rust => blank_rust_keeps_layout(src),
        Language::Python => crate::python_blank::blank_python_keeps_layout(src),
    }
}

proof fn lemma_term_hit_bound(t: Term, s: Seq<char>)
    ensures
        term_hit(t, s) matches Some(k) ==> 0 <= k <= s.len(),
{
    reveal_strlit("fit");
    reveal_strlit("fdescribe");
    reveal_strlit("debugger");
    reveal_strlit("describe.skip");
    reveal_strlit("describe.only");
    reveal_strlit("context.skip");
    reveal_strlit("context.only");
    reveal_strlit("it.skip");
    reveal_strlit("it.only");
    reveal_strlit("dbg");
    reveal_strlit("breakpoint");
    reveal_strlit("pdb.set_trace");
    reveal_strlit("ipdb.set_trace");
    hit_pos_agrees(Hit::Call, s, "fit"@, 0);
    hit_pos_agrees(Hit::Call, s, "fdescribe"@, 0);
    hit_pos_agrees(Hit::Bare, s, "debugger"@, 0);
    hit_pos_agrees(Hit::Standalone, s, "describe.skip"@, 0);
    hit_pos_agrees(Hit::Standalone, s, "describe.only"@, 0);
    hit_pos_agrees(Hit::Standalone, s, "context.skip"@, 0);
    hit_pos_agrees(Hit::Standalone, s, "context.only"@, 0);
    hit_pos_agrees(Hit::Standalone, s, "it.skip"@, 0);
    hit_pos_agrees(Hit::Standalone, s, "it.only"@, 0);
    hit_pos_agrees(Hit::Macro, s, "dbg"@, 0);
    hit_pos_agrees(Hit::Call, s, "breakpoint"@, 0);
    hit_pos_agrees(Hit::ModuleCall, s, "pdb.set_trace"@, 0);
    hit_pos_agrees(Hit::ModuleCall, s, "ipdb.set_trace"@, 0);
}

} // verus!
