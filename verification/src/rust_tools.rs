//! Rust's checks: which files mean "this touches Rust", which crate each
//! belongs to, and the toolchain a directory pins.

use vstd::prelude::*;
use crate::text::{chars_of, string_of, vec_eq, slice_of, views, starts_with, lines_of, split_lines, trim, trim_start, trim_vec, trim_start_vec, find_char, find_char_from, lemma_find_char, matches_at};
use crate::ledger::{words, split_words};
use crate::paths::{matches_any, matches_any_of, roots_of, root_of_some, path_sorted};
use crate::run_tests::strs;

verus! {

/// Files that mean "this commit touches Rust": sources, and the manifests,
/// lock file, tool configuration and toolchain pin that change how the same
/// source compiles.
pub open spec fn spec_rust_paths() -> Seq<Seq<char>> {
    seq![
        ".rs"@,
        "Cargo.toml"@,
        "Cargo.lock"@,
        "rustfmt.toml"@,
        "clippy.toml"@,
        "rust-toolchain.toml"@,
        "rust-toolchain"@,
    ]
}

pub fn rust_paths() -> (r: Vec<&'static str>)
    ensures
        r@.map_values(|p: &str| p@) == spec_rust_paths(),
{
    let r = vec![".rs", "Cargo.toml", "Cargo.lock", "rustfmt.toml", "clippy.toml", "rust-toolchain.toml", "rust-toolchain"];
    proof {
        reveal_strlit(".rs");
        reveal_strlit("Cargo.toml");
        reveal_strlit("Cargo.lock");
        reveal_strlit("rustfmt.toml");
        reveal_strlit("clippy.toml");
        reveal_strlit("rust-toolchain.toml");
        reveal_strlit("rust-toolchain");
        assert(r@.map_values(|p: &str| p@) =~= spec_rust_paths());
    }
    r
}

/// Does this file touch Rust? By name: an extension pattern matches the
/// end of the name, any other pattern the whole name.
pub fn is_rust_path(f: &str) -> (r: bool)
    ensures
        r == matches_any(f@, spec_rust_paths()),
{
    let ps = rust_paths();
    matches_any_of(f, ps.as_slice())
}

/// The crates the Rust files among `files` belong to, each once and in
/// path order: for each, the nearest directory above it, up to the
/// repository root, among `manifest_dirs` — the directories holding a
/// `Cargo.toml`.
pub fn cargo_roots(files: &[&str], manifest_dirs: &[String]) -> (r: Vec<String>)
    ensures
        path_sorted(strs(r@)),
        forall|d: Seq<char>|
            #[trigger] strs(r@).contains(d) <==> root_of_some(
                files@.map_values(|f: &str| f@),
                strs(manifest_dirs@),
                spec_rust_paths(),
                d,
            ),
{
    let ps = rust_paths();
    roots_of(files, manifest_dirs, ps.as_slice())
}

// ---------------------------------------------------------------------------
// The toolchain pin

/// `c` is one of the quotes `trim_matches` strips around a channel.
pub open spec fn quote(c: char) -> bool {
    c == '"' || c == '\''
}

pub open spec fn unquote_front(s: Seq<char>) -> Seq<char>
    decreases s.len(),
{
    if s.len() > 0 && quote(s[0]) {
        unquote_front(s.skip(1))
    } else {
        s
    }
}

pub open spec fn unquote_back(s: Seq<char>) -> Seq<char>
    decreases s.len(),
{
    if s.len() > 0 && quote(s.last()) {
        unquote_back(s.drop_last())
    } else {
        s
    }
}

/// The channel a trimmed `rust-toolchain.toml` line sets, if it is a
/// `channel = …` line: the value before any `#`, trimmed and unquoted, and
/// not empty.
pub open spec fn channel_of(l: Seq<char>) -> Option<Seq<char>> {
    if !starts_with(l, "channel"@) {
        None
    } else {
        let a = trim_start(l.skip(7));
        if a.len() == 0 || a[0] != '=' {
            None
        } else {
            let b = trim(a.skip(1));
            let c = trim(b.take(find_char(b, '#', 0)));
            let v = unquote_back(unquote_front(c));
            if v.len() > 0 {
                Some(v)
            } else {
                None
            }
        }
    }
}

/// The first line, trimmed and not a comment, that sets the channel.
pub open spec fn channel_from(ls: Seq<Seq<char>>, k: int) -> Option<Seq<char>>
    decreases ls.len() - k,
{
    if k < 0 || k >= ls.len() {
        None
    } else if !starts_with(trim(ls[k]), "#"@) && channel_of(trim(ls[k])) is Some {
        channel_of(trim(ls[k]))
    } else {
        channel_from(ls, k + 1)
    }
}

fn unquote(s: &Vec<char>) -> (r: Vec<char>)
    ensures
        r@ == unquote_back(unquote_front(s@)),
{
    let mut a: usize = 0;
    assert(s@.skip(0) =~= s@);
    while a < s.len() && (s[a] == '"' || s[a] == '\'')
        invariant
            a <= s.len(),
            unquote_front(s@.skip(a as int)) == unquote_front(s@),
        decreases s.len() - a,
    {
        assert(s@.skip(a as int).skip(1) =~= s@.skip(a + 1));
        a += 1;
    }
    let mut z: usize = s.len();
    assert(s@.skip(a as int) =~= s@.subrange(a as int, z as int));
    while z > a && (s[z - 1] == '"' || s[z - 1] == '\'')
        invariant
            a <= z <= s.len(),
            unquote_back(s@.subrange(a as int, z as int)) == unquote_back(unquote_front(s@)),
        decreases z,
    {
        assert(s@.subrange(a as int, z as int).drop_last() =~= s@.subrange(a as int, z - 1));
        z -= 1;
    }
    slice_of(s, a, z)
}

fn channel_of_exec(l: &Vec<char>) -> (r: Option<Vec<char>>)
    ensures
        match r {
            Some(v) => channel_of(l@) == Some(v@),
            None => channel_of(l@) is None,
        },
{
    proof {
        reveal_strlit("channel");
    }
    let key = chars_of("channel");
    if key.len() > l.len() || !matches_at(l, &key, 0) {
        return None;
    }
    let rest = slice_of(l, 7, l.len());
    assert(rest@ =~= l@.skip(7));
    let a = trim_start_vec(&rest);
    if a.len() == 0 || a[0] != '=' {
        return None;
    }
    let after = slice_of(&a, 1, a.len());
    assert(after@ =~= a@.skip(1));
    let b = trim_vec(&after);
    let h = find_char_from(&b, '#', 0);
    let before_hash = slice_of(&b, 0, h);
    assert(before_hash@ =~= b@.take(find_char(b@, '#', 0)));
    let c = trim_vec(&before_hash);
    let v = unquote(&c);
    if v.len() > 0 {
        Some(v)
    } else {
        None
    }
}

/// `channel = "1.94.1"` out of a `rust-toolchain.toml`, comments ignored.
pub fn parse_toolchain_toml(text: &str) -> (r: Option<String>)
    ensures
        match r {
            Some(v) => channel_from(lines_of(text@), 0) == Some(v@),
            None => channel_from(lines_of(text@), 0) is None,
        },
{
    proof {
        reveal_strlit("#");
    }
    let ls = split_lines(&chars_of(text));
    let mut k: usize = 0;
    while k < ls.len()
        invariant
            k <= ls@.len(),
            views(ls@) == lines_of(text@),
            channel_from(views(ls@), k as int) == channel_from(views(ls@), 0),
        decreases ls.len() - k,
    {
        assert(views(ls@)[k as int] == ls@[k as int]@);
        let t = trim_vec(&ls[k]);
        let comment = t.len() > 0 && t[0] == '#';
        assert(comment == starts_with(t@, "#"@)) by {
            reveal_strlit("#");
            if t@.len() > 0 {
                if t@[0] == '#' {
                    assert(t@.subrange(0, 1) =~= "#"@);
                } else {
                    assert(t@.subrange(0, 1)[0] != "#"@[0]);
                }
            }
        }
        if !comment {
            match channel_of_exec(&t) {
                Some(v) => {
                    return Some(string_of(&v));
                },
                None => {},
            }
        }
        k += 1;
    }
    None
}

/// The legacy one-line `rust-toolchain`: its first line, trimmed, when not
/// empty.
pub open spec fn spec_legacy_pin(text: Seq<char>) -> Option<Seq<char>> {
    let first = if lines_of(text).len() > 0 {
        lines_of(text)[0]
    } else {
        seq![]
    };
    if trim(first).len() > 0 {
        Some(trim(first))
    } else {
        None
    }
}

pub fn legacy_pin(text: &str) -> (r: Option<String>)
    ensures
        match r {
            Some(v) => spec_legacy_pin(text@) == Some(v@),
            None => spec_legacy_pin(text@) is None,
        },
{
    let ls = split_lines(&chars_of(text));
    let t = if ls.len() > 0 {
        assert(views(ls@)[0] == ls@[0]@);
        trim_vec(&ls[0])
    } else {
        trim_vec(&Vec::new())
    };
    proof {
        if ls@.len() == 0 {
            assert(Seq::<char>::empty() =~= seq![]);
        }
    }
    if t.len() > 0 {
        Some(string_of(&t))
    } else {
        None
    }
}

/// A pin `cargo --version` can be held against: two or three dot-separated
/// parts, each a non-empty run of ASCII digits (`1.94`, `1.94.1`). A channel
/// name is a moving target, left to rustup.
pub open spec fn digit(c: char) -> bool {
    '0' <= c && c <= '9'
}

/// The number of dots among the first `k` characters.
pub open spec fn dots(s: Seq<char>, k: int) -> nat
    decreases k,
{
    if k <= 0 {
        0
    } else {
        dots(s, k - 1) + if s[k - 1] == '.' {
            1nat
        } else {
            0nat
        }
    }
}

pub open spec fn version_shaped(p: Seq<char>) -> bool {
    &&& p.len() > 0
    &&& forall|i: int| 0 <= i < p.len() ==> (digit(#[trigger] p[i]) || p[i] == '.')
    &&& p[0] != '.'
    &&& p.last() != '.'
    &&& forall|i: int| 0 <= i < p.len() - 1 ==> (#[trigger] p[i] == '.' ==> p[i + 1] != '.')
    &&& 1 <= dots(p, p.len() as int) <= 2
}

pub fn version_pin(pin: &str) -> (r: Option<String>)
    ensures
        match r {
            Some(v) => version_shaped(pin@) && v@ == pin@,
            None => !version_shaped(pin@),
        },
{
    let p = chars_of(pin);
    if p.len() == 0 || p[0] == '.' || p[p.len() - 1] == '.' {
        return None;
    }
    let mut n: usize = 0;
    let mut k: usize = 0;
    while k < p.len()
        invariant
            k <= p.len(),
            p@ == pin@,
            p@.len() > 0,
            n == dots(p@, k as int),
            n <= k,
            forall|i: int| 0 <= i < k ==> (digit(#[trigger] p@[i]) || p@[i] == '.'),
            forall|i: int| 0 <= i < k && i < p@.len() - 1 ==> (#[trigger] p@[i] == '.' ==> p@[i + 1] != '.'),
        decreases p.len() - k,
    {
        let c = p[k];
        if !(('0' <= c && c <= '9') || c == '.') {
            return None;
        }
        if c == '.' && k + 1 < p.len() && p[k + 1] == '.' {
            return None;
        }
        if c == '.' {
            n += 1;
        }
        k += 1;
    }
    if n < 1 || n > 2 {
        return None;
    }
    Some(string_of(&p))
}

/// `1.94` matches `1.94.1`; `1.94.1` matches only itself.
pub open spec fn spec_version_matches(pin: Seq<char>, version: Seq<char>) -> bool {
    version == pin || (starts_with(version, pin) && version.len() > pin.len() && version[pin.len() as int] == '.')
}

pub fn version_matches(pin: &str, version: &str) -> (r: bool)
    ensures
        r == spec_version_matches(pin@, version@),
{
    let p = chars_of(pin);
    let v = chars_of(version);
    if vec_eq(&v, &p) {
        return true;
    }
    p.len() < v.len() && matches_at(&v, &p, 0) && v[p.len()] == '.'
}

/// The version out of `cargo --version`'s output, `cargo 1.94.1 (…)`: its
/// second word.
pub fn cargo_version(out: &str) -> (r: Option<String>)
    ensures
        match r {
            Some(v) => words(out@).len() > 1 && v@ == words(out@)[1],
            None => words(out@).len() <= 1,
        },
{
    let w = split_words(&chars_of(out));
    if w.len() > 1 {
        assert(views(w@)[1] == w@[1]@);
        Some(string_of(&w[1]))
    } else {
        None
    }
}

/// What one manifest root's pin says of the cargo that would run there.
#[derive(Debug, Clone, PartialEq, Eq)]
pub enum PinCheck {
    /// No pin, or a channel name (`stable`) left to rustup.
    Unchecked,
    /// The pinned version answers.
    Matches,
    /// Nothing answers `--version` for the pin: install it.
    NoCargo { pin: String },
    /// The cargo that answers is not the pinned one.
    Mismatch { got: String, want: String },
}

/// `pin` is the root's pinned toolchain, if any; `answer` what `cargo
/// --version` printed there, if anything.
pub fn pin_check(pin: Option<&str>, answer: Option<&str>) -> (r: PinCheck)
    ensures
        match pin {
            None => r == PinCheck::Unchecked,
            Some(p) => match answer {
                None => r matches PinCheck::NoCargo { pin: q } && q@ == p@,
                Some(out) => if words(out@).len() <= 1 {
                    r matches PinCheck::NoCargo { pin: q } && q@ == p@
                } else if !version_shaped(p@) {
                    r == PinCheck::Unchecked
                } else if spec_version_matches(p@, words(out@)[1]) {
                    r == PinCheck::Matches
                } else {
                    r matches PinCheck::Mismatch { got, want } && got@ == words(out@)[1] && want@ == p@
                },
            },
        },
{
    match pin {
        None => PinCheck::Unchecked,
        Some(p) => {
            let got = match answer {
                Some(out) => cargo_version(out),
                None => None,
            };
            match got {
                None => PinCheck::NoCargo { pin: string_of(&chars_of(p)) },
                Some(g) => match version_pin(p) {
                    None => PinCheck::Unchecked,
                    Some(want) => {
                        if version_matches(want.as_str(), g.as_str()) {
                            PinCheck::Matches
                        } else {
                            PinCheck::Mismatch { got: g, want }
                        }
                    },
                },
            }
        },
    }
}

/// Whether a root's pin rules out the cargo that answered there.
pub open spec fn pin_fails(pin: Option<Seq<char>>, answer: Option<Seq<char>>) -> bool {
    match pin {
        None => false,
        Some(p) => match answer {
            None => true,
            Some(out) => words(out).len() <= 1 || (version_shaped(p) && !spec_version_matches(p, words(out)[1])),
        },
    }
}

pub open spec fn opt_string(o: Option<String>) -> Option<Seq<char>> {
    match o {
        Some(s) => Some(s@),
        None => None,
    }
}

/// The roots' pins held against what answered in each, in order: the first
/// root whose cargo is missing or not the pinned one, with why, or `None`
/// when every root may run.
pub fn first_pin_problem(pins: &[Option<String>], answers: &[Option<String>]) -> (r: Option<(usize, PinCheck)>)
    requires
        answers@.len() == pins@.len(),
    ensures
        match r {
            Some((i, c)) => {
                &&& i < pins@.len()
                &&& (c is NoCargo || c is Mismatch)
                &&& pin_fails(opt_string(pins@[i as int]), opt_string(answers@[i as int]))
                &&& forall|j: int| 0 <= j < i ==> !pin_fails(opt_string(pins@[j]), opt_string(answers@[j]))
            },
            None => forall|j: int| 0 <= j < pins@.len() ==> !pin_fails(opt_string(pins@[j]), opt_string(answers@[j])),
        },
{
    let mut k: usize = 0;
    while k < pins.len()
        invariant
            k <= pins@.len(),
            answers@.len() == pins@.len(),
            forall|j: int| 0 <= j < k ==> !pin_fails(opt_string(pins@[j]), opt_string(answers@[j])),
        decreases pins.len() - k,
    {
        let p = match &pins[k] {
            Some(s) => Some(s.as_str()),
            None => None,
        };
        let a = match &answers[k] {
            Some(s) => Some(s.as_str()),
            None => None,
        };
        let c = pin_check(p, a);
        match c {
            PinCheck::NoCargo { .. } => return Some((k, c)),
            PinCheck::Mismatch { .. } => return Some((k, c)),
            _ => {},
        }
        k += 1;
    }
    None
}

/// The cargo a directory means, as an argv: with a pin and a rustup,
/// `rustup run <pin> cargo`, so one toolchain builds everything; else the
/// first `cargo` found, else none.
pub fn cargo_argv(pin: Option<&str>, rustup: Option<&str>, cargo: Option<&str>) -> (r: Option<Vec<String>>)
    ensures
        match (pin, rustup) {
            (Some(p), Some(u)) => r matches Some(v) && strs(v@) == seq![u@, "run"@, p@, "cargo"@],
            _ => match cargo {
                Some(c) => r matches Some(v) && strs(v@) == seq![c@],
                None => r is None,
            },
        },
{
    match (pin, rustup) {
        (Some(p), Some(u)) => {
            let mut v: Vec<String> = Vec::new();
            v.push(string_of(&chars_of(u)));
            v.push(string_of(&chars_of("run")));
            v.push(string_of(&chars_of(p)));
            v.push(string_of(&chars_of("cargo")));
            assert(strs(v@) =~= seq![u@, "run"@, p@, "cargo"@]);
            Some(v)
        },
        _ => match cargo {
            Some(c) => {
                let mut v: Vec<String> = Vec::new();
                v.push(string_of(&chars_of(c)));
                assert(strs(v@) =~= seq![c@]);
                Some(v)
            },
            None => None,
        },
    }
}

} // verus!
