//! `amont-fleet`'s command line: which mode, where the fleet lives, and
//! which binary the shims should point at — refusing to guess a root rather
//! than acting on wherever the process happened to be launched.

use vstd::prelude::*;
use crate::text::{chars_of, string_of, vec_eq, ends_with, push_str, push_chars};
use crate::ledger::{parse_u64, parse_u64_chars};
use crate::run_tests::strs;

verus! {

/// What the command line says to do.
pub const USAGE: &'static str = "usage: amont-fleet [scan|tui|fix|install|uninstall] [--root <dir>] [--depth <n>] [--json]\n\n  scan           report the fleet (default)\n  tui            the interactive dashboard\n  install        turn hooks on across the root\n  uninstall      take OUR shims back out — never a hook somebody else wrote,\n                 and never hook.skip or amont.severity\n  fix            show what would be changed — DRY RUN unless --apply\n  fix --apply    carry out the plan\n\n  --root <dir>   where to look for repositories (default: $HOME/Developer when it exists)\n  --depth <n>    directory levels to descend  (default: 6)\n  --binary <p>   the binary shims should point at (default: the amont on PATH, else $HOME/.local/bin/amont)\n  --agents-md    with fix/install: also roll out the AGENTS.md pointer\n  --remove-unrecognized\n                 ALSO delete pre-commit-* / pre-push-* files this tool did not\n                 write. Off by default, and read the sentence below first.\n  --json         emit the result as JSON\n\ninstall and fix --apply never delete a hook they did not write: a\npre-commit-* or pre-push-* file without our marker is reported and left\nexactly where it is.\n";

/// What kind of refusal `parse` made.
#[derive(Debug, Clone, Copy, PartialEq, Eq, Structural)]
pub enum Refusal {
    /// `-h` or `--help`: print the usage, nothing else.
    Help,
    /// A flag given without the value it takes.
    MissingValue,
    /// `--depth` with something that is not a number.
    NotANumber,
    /// A word that is no mode and no flag.
    Unknown,
    /// No `--root`, and no `~/Developer` to fall back to.
    NoRoot,
}

/// A refusal and its text: for a missing value, the message naming the
/// flag; for a bad number or an unknown word, the word itself.
#[derive(Debug, Clone, PartialEq, Eq)]
pub struct ArgError {
    pub refusal: Refusal,
    pub what: String,
}

/// The refusal for a missing root, naming the remedy.
pub const NO_ROOT: &'static str = "no --root given and no ~/Developer to fall back to — refusing to guess (the alternative is silently scanning, and `fix --apply`ing, from wherever this happened to be launched). Say where the fleet lives: --root <dir>";

#[derive(Debug, Clone, Copy, PartialEq, Eq, Structural)]
pub enum Mode {
    Scan,
    Fix,
    Tui,
    /// Turn hooks on across a root.
    Install,
    /// And off again.
    Uninstall,
}

#[derive(Debug, Clone, PartialEq, Eq)]
pub struct Args {
    pub mode: Mode,
    pub root: String,
    pub depth: usize,
    pub json: bool,
    pub apply: bool,
    /// Which binary the shims should point at.
    pub binary: Option<String>,
    /// Roll the `AGENTS.md` pointer out alongside fix/install.
    pub agents_md: bool,
    /// Also delete `pre-commit-*` / `pre-push-*` files this tool did not
    /// write — opt-in, and spelled out at length on purpose.
    pub remove_unrecognized: bool,
}

/// `Path::join` of a relative name onto a directory.
pub open spec fn join(dir: Seq<char>, name: Seq<char>) -> Seq<char> {
    if dir.len() == 0 || ends_with(dir, "/"@) {
        dir + name
    } else {
        dir + "/"@ + name
    }
}

pub fn join_path(dir: &str, name: &str) -> (r: String)
    ensures
        r@ == join(dir@, name@),
{
    proof {
        reveal_strlit("/");
    }
    let d = chars_of(dir);
    let mut out = chars_of(dir);
    if d.len() > 0 && d[d.len() - 1] != '/' {
        out.push('/');
    }
    push_str(&mut out, name);
    proof {
        if d@.len() > 0 {
            if d@[d@.len() - 1] == '/' {
                assert(d@.subrange(d@.len() - 1, d@.len() as int) =~= "/"@);
            } else {
                assert(d@.subrange(d@.len() - 1, d@.len() as int)[0] != "/"@[0]);
            }
        }
    }
    assert(out@ =~= join(dir@, name@));
    string_of(&out)
}

pub open spec fn opt_view(o: Option<&str>) -> Option<Seq<char>> {
    match o {
        Some(s) => Some(s@),
        None => None,
    }
}

pub open spec fn opt_string(o: Option<String>) -> Option<Seq<char>> {
    match o {
        Some(s) => Some(s@),
        None => None,
    }
}

/// `~/Developer` when it exists; without a home there is nothing to guess.
pub open spec fn spec_default_root(home: Option<Seq<char>>, developer_exists: bool) -> Option<Seq<char>> {
    match home {
        Some(h) => if developer_exists {
            Some(join(h, "Developer"@))
        } else {
            None
        },
        None => None,
    }
}

/// `developer_exists` says whether `<home>/Developer` is a directory.
pub fn default_root(home: Option<&str>, developer_exists: bool) -> (r: Option<String>)
    ensures
        opt_string(r) == spec_default_root(opt_view(home), developer_exists),
{
    match home {
        Some(h) => if developer_exists {
            Some(join_path(h, "Developer"))
        } else {
            None
        },
        None => None,
    }
}

/// The binary shims should point at: the one `PATH` would run, else the
/// install default under the home, else nothing — never a bare name.
pub open spec fn spec_default_binary(home: Option<Seq<char>>, on_path: Option<Seq<char>>) -> Option<Seq<char>> {
    match on_path {
        Some(p) => Some(p),
        None => match home {
            Some(h) => Some(join(h, ".local/bin/amont"@)),
            None => None,
        },
    }
}

pub fn default_binary(home: Option<&str>, on_path: Option<String>) -> (r: Option<String>)
    ensures
        opt_string(r) == spec_default_binary(opt_view(home), opt_string(on_path)),
{
    match on_path {
        Some(p) => Some(p),
        None => match home {
            Some(h) => Some(join_path(h, ".local/bin/amont")),
            None => None,
        },
    }
}

/// Parsed flags as plain values: mode, the root if given, depth, `--json`,
/// apply, the binary if given, `--agents-md`, `--remove-unrecognized`.
pub type Flags = (Mode, Option<Seq<char>>, nat, bool, bool, Option<Seq<char>>, bool, bool);

/// The leading mode word, if the first argument is one, and what it sets.
pub open spec fn spec_mode(first: Seq<char>) -> Option<(Mode, bool)> {
    if first == "scan"@ {
        Some((Mode::Scan, false))
    } else if first == "fix"@ {
        Some((Mode::Fix, false))
    } else if first == "tui"@ {
        Some((Mode::Tui, false))
    } else if first == "install"@ {
        Some((Mode::Install, true))
    } else if first == "uninstall"@ {
        Some((Mode::Uninstall, true))
    } else {
        None
    }
}

/// The flags from argument `k` on, read left to right: the first refusal
/// wins; a repeated flag's last value stands.
pub open spec fn flags_from(argv: Seq<Seq<char>>, k: int, f: Flags) -> Result<Flags, (Refusal, Seq<char>)>
    decreases argv.len() - k,
{
    if k < 0 || k >= argv.len() {
        Ok(f)
    } else {
        let w = argv[k];
        if w == "--json"@ {
            flags_from(argv, k + 1, (f.0, f.1, f.2, true, f.4, f.5, f.6, f.7))
        } else if w == "--root"@ {
            if k + 1 >= argv.len() {
                Err((Refusal::MissingValue, "--root needs a directory"@))
            } else {
                flags_from(argv, k + 2, (f.0, Some(argv[k + 1]), f.2, f.3, f.4, f.5, f.6, f.7))
            }
        } else if w == "--depth"@ {
            if k + 1 >= argv.len() {
                Err((Refusal::MissingValue, "--depth needs a number"@))
            } else {
                match parse_u64(argv[k + 1]) {
                    Some(n) => if n <= usize::MAX {
                        flags_from(argv, k + 2, (f.0, f.1, n as nat, f.3, f.4, f.5, f.6, f.7))
                    } else {
                        Err((Refusal::NotANumber, argv[k + 1]))
                    },
                    None => Err((Refusal::NotANumber, argv[k + 1])),
                }
            }
        } else if w == "--apply"@ {
            flags_from(argv, k + 1, (f.0, f.1, f.2, f.3, true, f.5, f.6, f.7))
        } else if w == "--agents-md"@ {
            flags_from(argv, k + 1, (f.0, f.1, f.2, f.3, f.4, f.5, true, f.7))
        } else if w == "--remove-unrecognized"@ {
            flags_from(argv, k + 1, (f.0, f.1, f.2, f.3, f.4, f.5, f.6, true))
        } else if w == "--binary"@ {
            if k + 1 >= argv.len() {
                Err((Refusal::MissingValue, "--binary needs a path"@))
            } else {
                flags_from(argv, k + 2, (f.0, f.1, f.2, f.3, f.4, Some(argv[k + 1]), f.6, f.7))
            }
        } else if w == "-h"@ || w == "--help"@ {
            Err((Refusal::Help, seq![]))
        } else {
            Err((Refusal::Unknown, w))
        }
    }
}

/// Where the flags start, and what the mode word (if any) set.
pub open spec fn leading(argv: Seq<Seq<char>>) -> (int, Flags) {
    if argv.len() > 0 && spec_mode(argv[0]) is Some {
        let (m, apply) = spec_mode(argv[0])->0;
        (1, (m, None, 6, false, apply, None, false, false))
    } else {
        (0, (Mode::Scan, None, 6, false, false, None, false, false))
    }
}

/// The flags read, the root settled: given, or `~/Developer` when it
/// exists, or a refusal.
pub open spec fn finish(r: Result<Flags, (Refusal, Seq<char>)>, home: Option<Seq<char>>, developer_exists: bool) -> Result<(Mode, Seq<char>, nat, bool, bool, Option<Seq<char>>, bool, bool), (Refusal, Seq<char>)> {
    match r {
        Err(e) => Err(e),
        Ok(f) => {
            let root = match f.1 {
                Some(r) => Some(r),
                None => spec_default_root(home, developer_exists),
            };
            match root {
                Some(r) => Ok((f.0, r, f.2, f.3, f.4, f.5, f.6, f.7)),
                None => Err((Refusal::NoRoot, NO_ROOT@)),
            }
        },
    }
}

/// The whole command line: an optional mode word, the flags, the root.
pub open spec fn spec_parse(argv: Seq<Seq<char>>, home: Option<Seq<char>>, developer_exists: bool) -> Result<(Mode, Seq<char>, nat, bool, bool, Option<Seq<char>>, bool, bool), (Refusal, Seq<char>)> {
    finish(flags_from(argv, leading(argv).0, leading(argv).1), home, developer_exists)
}

pub open spec fn args_view(a: Args) -> (Mode, Seq<char>, nat, bool, bool, Option<Seq<char>>, bool, bool) {
    (a.mode, a.root@, a.depth as nat, a.json, a.apply, opt_string(a.binary), a.agents_md, a.remove_unrecognized)
}

fn is(w: &Vec<char>, lit: &str) -> (r: bool)
    ensures
        r == (w@ == lit@),
{
    vec_eq(w, &chars_of(lit))
}

fn refuse(refusal: Refusal, what: &Vec<char>) -> (e: ArgError)
    ensures
        e.refusal == refusal,
        e.what@ == what@,
{
    ArgError { refusal, what: string_of(what) }
}

/// Read the command line. `home` is `$HOME`; `developer_exists` says
/// whether `<home>/Developer` is a directory.
pub fn parse(argv: &[String], home: Option<&str>, developer_exists: bool) -> (r: Result<Args, ArgError>)
    ensures
        match r {
            Ok(a) => spec_parse(strs(argv@), opt_view(home), developer_exists) == Ok::<_, (Refusal, Seq<char>)>(args_view(a)),
            Err(e) => spec_parse(strs(argv@), opt_view(home), developer_exists) == Err::<(Mode, Seq<char>, nat, bool, bool, Option<Seq<char>>, bool, bool), _>((e.refusal, e.what@)),
        },
{
    proof {
        reveal_strlit("scan");
        reveal_strlit("fix");
        reveal_strlit("tui");
        reveal_strlit("install");
        reveal_strlit("uninstall");
    }
    let ghost av = strs(argv@);
    let mut mode = Mode::Scan;
    let mut apply = false;
    let mut k: usize = 0;
    if argv.len() > 0 {
        let first = chars_of(argv[0].as_str());
        assert(first@ == av[0]);
        if is(&first, "scan") {
            k = 1;
        } else if is(&first, "fix") {
            mode = Mode::Fix;
            k = 1;
        } else if is(&first, "tui") {
            mode = Mode::Tui;
            k = 1;
        } else if is(&first, "install") {
            mode = Mode::Install;
            apply = true;
            k = 1;
        } else if is(&first, "uninstall") {
            mode = Mode::Uninstall;
            apply = true;
            k = 1;
        }
    }
    let ghost f0: Flags = (mode, None, 6, false, apply, None, false, false);
    let mut root: Option<String> = None;
    let mut depth: usize = 6;
    let mut json = false;
    let mut binary: Option<String> = None;
    let mut agents_md = false;
    let mut remove_unrecognized = false;
    let ghost start = k as int;
    assert(leading(av) == (start, f0));
    while k < argv.len()
        invariant
            k <= argv@.len(),
            av == strs(argv@),
            spec_parse(av, opt_view(home), developer_exists) == finish(
                flags_from(av, k as int, (mode, opt_string(root), depth as nat, json, apply, opt_string(binary), agents_md, remove_unrecognized)),
                opt_view(home),
                developer_exists,
            ),
        decreases argv.len() - k,
    {
        proof {
            reveal_strlit("--json");
            reveal_strlit("--root");
            reveal_strlit("--depth");
            reveal_strlit("--apply");
            reveal_strlit("--agents-md");
            reveal_strlit("--remove-unrecognized");
            reveal_strlit("--binary");
            reveal_strlit("-h");
            reveal_strlit("--help");
            reveal_strlit("--root needs a directory");
            reveal_strlit("--depth needs a number");
            reveal_strlit("--binary needs a path");
        }
        let w = chars_of(argv[k].as_str());
        assert(w@ == av[k as int]);
        if is(&w, "--json") {
            json = true;
            k += 1;
        } else if is(&w, "--root") {
            if k + 1 >= argv.len() {
                return Err(refuse(Refusal::MissingValue, &chars_of("--root needs a directory")));
            }
            assert(av[k + 1] == argv@[k + 1]@);
            root = Some(string_of(&chars_of(argv[k + 1].as_str())));
            k += 2;
        } else if is(&w, "--depth") {
            if k + 1 >= argv.len() {
                return Err(refuse(Refusal::MissingValue, &chars_of("--depth needs a number")));
            }
            let v = chars_of(argv[k + 1].as_str());
            assert(v@ == av[k + 1]);
            match parse_u64_chars(&v) {
                Some(n) => {
                    if n > usize::MAX as u64 {
                        return Err(refuse(Refusal::NotANumber, &v));
                    }
                    depth = n as usize;
                },
                None => {
                    return Err(refuse(Refusal::NotANumber, &v));
                },
            }
            k += 2;
        } else if is(&w, "--apply") {
            apply = true;
            k += 1;
        } else if is(&w, "--agents-md") {
            agents_md = true;
            k += 1;
        } else if is(&w, "--remove-unrecognized") {
            remove_unrecognized = true;
            k += 1;
        } else if is(&w, "--binary") {
            if k + 1 >= argv.len() {
                return Err(refuse(Refusal::MissingValue, &chars_of("--binary needs a path")));
            }
            assert(av[k + 1] == argv@[k + 1]@);
            binary = Some(string_of(&chars_of(argv[k + 1].as_str())));
            k += 2;
        } else if is(&w, "-h") || is(&w, "--help") {
            return Err(refuse(Refusal::Help, &Vec::new()));
        } else {
            return Err(refuse(Refusal::Unknown, &w));
        }
    }
    let root = match root {
        Some(r) => r,
        None => match default_root(home, developer_exists) {
            Some(r) => r,
            None => {
                return Err(refuse(Refusal::NoRoot, &chars_of(NO_ROOT)));
            },
        },
    };
    Ok(Args { mode, root, depth, json, apply, binary, agents_md, remove_unrecognized })
}

// ---------------------------------------------------------------------------
// Lists of names

/// The characters in a line `wrap_list` builds.
pub open spec fn width_of(s: Seq<char>) -> nat {
    s.len()
}

/// Pack names onto lines of at most `width` characters, ` · ` separated; a
/// name that fits nowhere gets a line of its own.
pub open spec fn wrap_upto(names: Seq<Seq<char>>, width: nat, k: int) -> Seq<Seq<char>>
    decreases k,
{
    if k <= 0 {
        seq![]
    } else {
        let prev = wrap_upto(names, width, k - 1);
        let n = names[k - 1];
        if prev.len() > 0 && prev.last().len() + 3 + n.len() <= width {
            prev.drop_last().push(prev.last() + " · "@ + n)
        } else {
            prev.push(n)
        }
    }
}

pub fn wrap_list(names: &[String], width: usize) -> (r: Vec<String>)
    ensures
        strs(r@) == wrap_upto(strs(names@), width as nat, names@.len() as int),
{
    proof {
        reveal_strlit(" · ");
    }
    let ghost nv = strs(names@);
    let mut lines: Vec<Vec<char>> = Vec::new();
    let mut k: usize = 0;
    while k < names.len()
        invariant
            k <= names@.len(),
            nv == strs(names@),
            crate::text::views(lines@) == wrap_upto(nv, width as nat, k as int),
            " · "@.len() == 3,
        decreases names.len() - k,
    {
        let n = chars_of(names[k].as_str());
        assert(n@ == nv[k as int]);
        let ghost before = crate::text::views(lines@);
        let fits = if lines.len() > 0 {
            let l = lines[lines.len() - 1].len();
            assert(l == before.last().len());
            l <= width && width - l >= 3 && n.len() <= width - l - 3
        } else {
            false
        };
        if fits {
            let mut last = lines.pop().unwrap();
            push_str(&mut last, " · ");
            push_chars(&mut last, &n);
            lines.push(last);
            assert(crate::text::views(lines@) =~= before.drop_last().push(before.last() + " · "@ + n@));
        } else {
            lines.push(n);
            assert(crate::text::views(lines@) =~= before.push(nv[k as int]));
        }
        k += 1;
    }
    let mut out: Vec<String> = Vec::new();
    let mut j: usize = 0;
    while j < lines.len()
        invariant
            j <= lines@.len(),
            strs(out@) == crate::text::views(lines@).take(j as int),
        decreases lines.len() - j,
    {
        let ghost b = strs(out@);
        let s = string_of(&lines[j]);
        out.push(s);
        proof {
            assert(strs(out@) =~= b.push(lines@[j as int]@));
            assert(crate::text::views(lines@).take(j + 1) =~= crate::text::views(lines@).take(j as int).push(crate::text::views(lines@)[j as int]));
        }
        j += 1;
    }
    assert(crate::text::views(lines@).take(lines@.len() as int) =~= crate::text::views(lines@));
    out
}

} // verus!
