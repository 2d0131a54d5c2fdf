//! How a check is named in configuration, and how `amont list` describes
//! what it found.
//!
//! A check's id is `<trigger>-<name>`, and exactly three things name it: the
//! whole id, its trigger (every check on that trigger), or its short name
//! (that check, on any trigger). Three exact comparisons and no substring,
//! so `hook.skip = e` reaches nothing and `lint-js` does not reach
//! `lint-json-yaml`.

use vstd::prelude::*;
use crate::text::{chars_of, string_of, vec_eq, slice_of, starts_with, matches_at, views, lines_of, split_lines, trim, trim_vec, push_str, push_chars};
use crate::run_tests::{strs, strictly_sorted, insert_sorted};

verus! {

/// How specifically a configured value names a check; when several keys
/// match one check, the most specific wins.
#[derive(Debug, Clone, Copy, PartialEq, Eq, PartialOrd, Ord, Structural)]
pub enum Match {
    /// `pre-commit`: every check on that trigger.
    Trigger,
    /// `clippy`: that check, whichever trigger it is on.
    ShortName,
    /// `pre-commit-clippy`: this check and no other.
    FullId,
}

/// The trigger an id starts with, and the short name after it.
pub open spec fn split_id(check: Seq<char>) -> Option<(Seq<char>, Seq<char>)> {
    if starts_with(check, "pre-commit-"@) {
        Some(("pre-commit"@, check.skip(11)))
    } else if starts_with(check, "pre-push-"@) {
        Some(("pre-push"@, check.skip(9)))
    } else {
        None
    }
}

fn split_id_exec(check: &Vec<char>) -> (r: Option<(Vec<char>, Vec<char>)>)
    ensures
        match r {
            Some((t, s)) => split_id(check@) == Some((t@, s@)),
            None => split_id(check@) is None,
        },
{
    proof {
        reveal_strlit("pre-commit-");
        reveal_strlit("pre-push-");
        reveal_strlit("pre-commit");
        reveal_strlit("pre-push");
    }
    let c = chars_of("pre-commit-");
    let p = chars_of("pre-push-");
    if matches_at(check, &c, 0) {
        let s = slice_of(check, 11, check.len());
        assert(s@ =~= check@.skip(11));
        Some((chars_of("pre-commit"), s))
    } else if matches_at(check, &p, 0) {
        let s = slice_of(check, 9, check.len());
        assert(s@ =~= check@.skip(9));
        Some((chars_of("pre-push"), s))
    } else {
        None
    }
}

/// A check's id without its trigger, for display under a heading that
/// already names the trigger.
pub open spec fn spec_short_name(check: Seq<char>) -> Seq<char> {
    match split_id(check) {
        Some((_, short)) => short,
        None => check,
    }
}

pub fn short_name(check: &str) -> (r: String)
    ensures
        r@ == spec_short_name(check@),
{
    let c = chars_of(check);
    match split_id_exec(&c) {
        Some((_, s)) => string_of(&s),
        None => string_of(&c),
    }
}

/// Does `pattern`, as written in `hook.skip` or `amont.severity.<pattern>`,
/// name `check`, and how specifically?
pub open spec fn spec_names_check(check: Seq<char>, pattern: Seq<char>) -> Option<Match> {
    if check == pattern {
        Some(Match::FullId)
    } else {
        match split_id(check) {
            Some((trigger, short)) => if pattern == trigger {
                Some(Match::Trigger)
            } else if pattern == short {
                Some(Match::ShortName)
            } else {
                None
            },
            None => None,
        }
    }
}

pub fn names_check(check: &str, pattern: &str) -> (r: Option<Match>)
    ensures
        r == spec_names_check(check@, pattern@),
{
    let c = chars_of(check);
    let p = chars_of(pattern);
    if vec_eq(&c, &p) {
        return Some(Match::FullId);
    }
    match split_id_exec(&c) {
        Some((t, s)) => if vec_eq(&p, &t) {
            Some(Match::Trigger)
        } else if vec_eq(&p, &s) {
            Some(Match::ShortName)
        } else {
            None
        },
        None => None,
    }
}

/// Does `skip`, as configured in `hook.skip`, suppress `check`?
pub fn skip_suppresses(check: &str, skip: &str) -> (r: bool)
    ensures
        r == (spec_names_check(check@, skip@) is Some),
{
    names_check(check, skip).is_some()
}

/// The machine's `hook.skip` entries out of `git config --get-all
/// hook.skip`: each line trimmed, blank ones dropped.
pub open spec fn skips_upto(ls: Seq<Seq<char>>, k: int) -> Seq<Seq<char>>
    decreases k,
{
    if k <= 0 {
        seq![]
    } else if trim(ls[k - 1]).len() > 0 {
        skips_upto(ls, k - 1).push(trim(ls[k - 1]))
    } else {
        skips_upto(ls, k - 1)
    }
}

pub fn machine_skips(config_output: &str) -> (r: Vec<String>)
    ensures
        strs(r@) == skips_upto(lines_of(config_output@), lines_of(config_output@).len() as int),
{
    let ls = split_lines(&chars_of(config_output));
    let mut r: Vec<String> = Vec::new();
    let mut k: usize = 0;
    while k < ls.len()
        invariant
            k <= ls@.len(),
            views(ls@) == lines_of(config_output@),
            strs(r@) == skips_upto(views(ls@), k as int),
        decreases ls.len() - k,
    {
        assert(views(ls@)[k as int] == ls@[k as int]@);
        let t = trim_vec(&ls[k]);
        if t.len() > 0 {
            let ghost before = strs(r@);
            let s = string_of(&t);
            r.push(s);
            assert(strs(r@) =~= before.push(t@));
        }
        k += 1;
    }
    r
}

// ---------------------------------------------------------------------------
// Listing

/// Where a listed check comes from.
#[derive(Debug, Clone, Copy, PartialEq, Eq, Structural)]
pub enum Source {
    Builtin,
    Declared,
}

/// Whether a check would run here. A check that is correctly silent must
/// never look like one that is disabled, and neither like one whose
/// declaration could not be read.
#[derive(Debug, Clone, Copy, PartialEq, Eq, Structural)]
pub enum Status {
    Runs,
    Inert,
    Skipped,
    Unusable,
}

/// A scope as `amont list` describes it: the files and names it wants,
/// then the opt-ins.
pub open spec fn join_with(parts: Seq<Seq<char>>, sep: Seq<char>, k: int) -> Seq<char>
    decreases k,
{
    if k <= 0 {
        seq![]
    } else if k == 1 {
        parts[0]
    } else {
        join_with(parts, sep, k - 1) + sep + parts[k - 1]
    }
}

/// Joining from the front: the first part, the separator, the rest joined.
pub proof fn lemma_join_front(parts: Seq<Seq<char>>, sep: Seq<char>, k: int)
    requires
        2 <= k <= parts.len(),
    ensures
        join_with(parts, sep, k) == parts[0] + sep + join_with(parts.skip(1), sep, k - 1),
    decreases k,
{
    if k == 2 {
        assert(join_with(parts, sep, 1) == parts[0]);
        assert(join_with(parts, sep, 2) == join_with(parts, sep, 1) + sep + parts[1]);
        assert(parts.skip(1)[0] == parts[1]);
        assert(join_with(parts.skip(1), sep, 1) == parts[1]);
    } else {
        lemma_join_front(parts, sep, k - 1);
        assert(parts.skip(1)[k - 2] == parts[k - 1]);
        assert(join_with(parts, sep, k) =~= parts[0] + sep + join_with(parts.skip(1), sep, k - 1));
    }
}

fn join_exec(parts: &[&str], sep: &str) -> (r: Vec<char>)
    ensures
        r@ == join_with(parts@.map_values(|p: &str| p@), sep@, parts@.len() as int),
{
    let ghost ps = parts@.map_values(|p: &str| p@);
    let mut out: Vec<char> = Vec::new();
    let mut k: usize = 0;
    while k < parts.len()
        invariant
            k <= parts@.len(),
            ps == parts@.map_values(|p: &str| p@),
            out@ == join_with(ps, sep@, k as int),
        decreases parts.len() - k,
    {
        if k > 0 {
            push_str(&mut out, sep);
        }
        push_str(&mut out, parts[k]);
        assert(ps[k as int] == parts@[k as int]@);
        k += 1;
    }
    out
}

/// What an inert check needs before it would run: its file patterns (none
/// for a scope that wants every file), ` + ` its opt-ins joined by ` | `, or
/// `nothing`.
pub open spec fn spec_describe(unscoped: bool, files: Seq<Seq<char>>, opt_in: Seq<Seq<char>>) -> Seq<char> {
    let f = if unscoped {
        seq![]
    } else {
        join_with(files, " "@, files.len() as int)
    };
    let o = join_with(opt_in, " | "@, opt_in.len() as int);
    if f.len() > 0 && o.len() > 0 {
        f + " + "@ + o
    } else if f.len() > 0 {
        f
    } else if o.len() > 0 {
        o
    } else {
        "nothing"@
    }
}

/// `files` is the scope's file patterns and bare names, in that order.
pub fn describe(unscoped: bool, files: &[&str], opt_in: &[&str]) -> (r: String)
    ensures
        r@ == spec_describe(unscoped, files@.map_values(|p: &str| p@), opt_in@.map_values(|p: &str| p@)),
{
    let f = if unscoped {
        Vec::new()
    } else {
        join_exec(files, " ")
    };
    let o = join_exec(opt_in, " | ");
    let mut out: Vec<char> = Vec::new();
    if f.len() > 0 && o.len() > 0 {
        push_chars(&mut out, &f);
        push_str(&mut out, " + ");
        push_chars(&mut out, &o);
    } else if f.len() > 0 {
        push_chars(&mut out, &f);
    } else if o.len() > 0 {
        push_chars(&mut out, &o);
    } else {
        push_str(&mut out, "nothing");
    }
    proof {
        assert(Seq::<char>::empty() =~= seq![]);
    }
    string_of(&out)
}

/// A listed check's state and the reason shown beside it, in priority
/// order: a declaration that could not be read, a skip (by the team's
/// policy or by this machine's `hook.skip`), a scope that matches here, and
/// otherwise inert — with what it needs.
pub open spec fn spec_status(
    unusable_why: Option<Seq<char>>,
    skipped: bool,
    skipped_by_policy: bool,
    applies: bool,
    needs: Seq<char>,
) -> (Status, Seq<char>) {
    match unusable_why {
        Some(w) => (Status::Unusable, "amont.conf "@ + w),
        None => if skipped {
            (Status::Skipped, if skipped_by_policy {
                "skipped via amont.conf"@
            } else {
                "skipped via hook.skip"@
            })
        } else if applies {
            (Status::Runs, seq![])
        } else {
            (Status::Inert, "inert here — needs "@ + needs)
        },
    }
}

pub fn status_of(unusable_why: Option<&str>, skipped: bool, skipped_by_policy: bool, applies: bool, needs: &str) -> (r: (Status, String))
    ensures
        (r.0, r.1@) == spec_status(
            match unusable_why {
                Some(w) => Some(w@),
                None => None,
            },
            skipped,
            skipped_by_policy,
            applies,
            needs@,
        ),
{
    let mut out: Vec<char> = Vec::new();
    match unusable_why {
        Some(w) => {
            push_str(&mut out, "amont.conf ");
            push_str(&mut out, w);
            (Status::Unusable, string_of(&out))
        },
        None => if skipped {
            if skipped_by_policy {
                push_str(&mut out, "skipped via amont.conf");
            } else {
                push_str(&mut out, "skipped via hook.skip");
            }
            (Status::Skipped, string_of(&out))
        } else if applies {
            (Status::Runs, string_of(&out))
        } else {
            push_str(&mut out, "inert here — needs ");
            push_str(&mut out, needs);
            (Status::Inert, string_of(&out))
        },
    }
}

// ---------------------------------------------------------------------------
// Ecosystems

pub open spec fn one_of(t: Seq<char>, names: Seq<Seq<char>>) -> bool {
    names.contains(t)
}

/// The ecosystem a scope token belongs to, for the inert summary. Generic
/// tokens (`.yaml`, `.json`) are left unnamed on purpose: four checks want
/// `.yaml` for four different reasons.
pub open spec fn spec_ecosystem(t: Seq<char>) -> Option<Seq<char>> {
    if one_of(t, seq![".rs"@, "Cargo.toml"@, "Cargo.lock"@]) {
        Some("Rust"@)
    } else if one_of(t, seq![".go"@, "go.mod"@, "go.sum"@]) {
        Some("Go"@)
    } else if one_of(
        t,
        seq![
            ".py"@,
            ".pyi"@,
            "requirements.txt"@,
            "pyproject.toml"@,
            "ruff.toml"@,
            ".ruff.toml"@,
            "pytest.ini"@,
            "conftest.py"@,
            "pyrightconfig.json"@,
            "pyrightconfig.jsonc"@,
        ],
    ) {
        Some("Python"@)
    } else if one_of(t, seq![".js"@, ".jsx"@, ".ts"@, ".tsx"@, ".vue"@, "package.json"@, "package-lock.json"@]) {
        Some("JavaScript"@)
    } else if one_of(t, seq!["kustomization.yaml"@, "kustomization.yml"@]) {
        Some("Kubernetes"@)
    } else if starts_with(t, ".kube-linter"@) {
        Some("Kubernetes"@)
    } else if starts_with(t, ".prettierrc"@) || t == "prettier.config.js"@ {
        Some("JavaScript"@)
    } else {
        None
    }
}

fn is_one_of(t: &Vec<char>, names: &[&str]) -> (r: bool)
    ensures
        r == one_of(t@, names@.map_values(|n: &str| n@)),
{
    let ghost ns = names@.map_values(|n: &str| n@);
    let mut k: usize = 0;
    while k < names.len()
        invariant
            k <= names@.len(),
            ns == names@.map_values(|n: &str| n@),
            forall|m: int| 0 <= m < k ==> ns[m] != t@,
        decreases names.len() - k,
    {
        assert(ns[k as int] == names@[k as int]@);
        if vec_eq(t, &chars_of(names[k])) {
            assert(ns.contains(t@));
            return true;
        }
        k += 1;
    }
    false
}

pub fn ecosystem(token: &str) -> (r: Option<&'static str>)
    ensures
        match r {
            Some(e) => spec_ecosystem(token@) == Some(e@),
            None => spec_ecosystem(token@) is None,
        },
{
    let t = chars_of(token);
    let rust = [".rs", "Cargo.toml", "Cargo.lock"];
    let go = [".go", "go.mod", "go.sum"];
    let python = [
        ".py",
        ".pyi",
        "requirements.txt",
        "pyproject.toml",
        "ruff.toml",
        ".ruff.toml",
        "pytest.ini",
        "conftest.py",
        "pyrightconfig.json",
        "pyrightconfig.jsonc",
    ];
    let js = [".js", ".jsx", ".ts", ".tsx", ".vue", "package.json", "package-lock.json"];
    let kube = ["kustomization.yaml", "kustomization.yml"];
    proof {
        reveal_strlit(".rs");
        reveal_strlit("Cargo.toml");
        reveal_strlit("Cargo.lock");
        reveal_strlit(".go");
        reveal_strlit("go.mod");
        reveal_strlit("go.sum");
        reveal_strlit(".py");
        reveal_strlit(".pyi");
        reveal_strlit("requirements.txt");
        reveal_strlit("pyproject.toml");
        reveal_strlit("ruff.toml");
        reveal_strlit(".ruff.toml");
        reveal_strlit("pytest.ini");
        reveal_strlit("conftest.py");
        reveal_strlit("pyrightconfig.json");
        reveal_strlit("pyrightconfig.jsonc");
        reveal_strlit(".js");
        reveal_strlit(".jsx");
        reveal_strlit(".ts");
        reveal_strlit(".tsx");
        reveal_strlit(".vue");
        reveal_strlit("package.json");
        reveal_strlit("package-lock.json");
        reveal_strlit("kustomization.yaml");
        reveal_strlit("kustomization.yml");
        reveal_strlit(".kube-linter");
        reveal_strlit(".prettierrc");
        reveal_strlit("prettier.config.js");
        assert(rust@.map_values(|n: &str| n@) =~= seq![".rs"@, "Cargo.toml"@, "Cargo.lock"@]);
        assert(go@.map_values(|n: &str| n@) =~= seq![".go"@, "go.mod"@, "go.sum"@]);
        assert(python@.map_values(|n: &str| n@) =~= seq![
            ".py"@,
            ".pyi"@,
            "requirements.txt"@,
            "pyproject.toml"@,
            "ruff.toml"@,
            ".ruff.toml"@,
            "pytest.ini"@,
            "conftest.py"@,
            "pyrightconfig.json"@,
            "pyrightconfig.jsonc"@,
        ]);
        assert(js@.map_values(|n: &str| n@) =~= seq![".js"@, ".jsx"@, ".ts"@, ".tsx"@, ".vue"@, "package.json"@, "package-lock.json"@]);
        assert(kube@.map_values(|n: &str| n@) =~= seq!["kustomization.yaml"@, "kustomization.yml"@]);
    }
    if is_one_of(&t, &rust) {
        Some("Rust")
    } else if is_one_of(&t, &go) {
        Some("Go")
    } else if is_one_of(&t, &python) {
        Some("Python")
    } else if is_one_of(&t, &js) {
        Some("JavaScript")
    } else if is_one_of(&t, &kube) {
        Some("Kubernetes")
    } else if matches_at(&t, &chars_of(".kube-linter"), 0) {
        Some("Kubernetes")
    } else if matches_at(&t, &chars_of(".prettierrc"), 0) || vec_eq(&t, &chars_of("prettier.config.js")) {
        Some("JavaScript")
    } else {
        None
    }
}

/// `e` is the ecosystem of one of the tokens.
pub open spec fn names_family(tokens: Seq<Seq<char>>, e: Seq<char>) -> bool {
    exists|k: int| 0 <= k < tokens.len() && spec_ecosystem(#[trigger] tokens[k]) == Some(e)
}

/// The ecosystems the inert checks' scope tokens name, sorted and each
/// once; a token no ecosystem claims is counted elsewhere and named here by
/// nothing.
pub fn families(tokens: &[String]) -> (r: Vec<String>)
    ensures
        strictly_sorted(strs(r@)),
        forall|e: Seq<char>| #[trigger] strs(r@).contains(e) <==> names_family(strs(tokens@), e),
{
    let ghost ts = strs(tokens@);
    let mut found: Vec<Vec<char>> = Vec::new();
    let mut k: usize = 0;
    while k < tokens.len()
        invariant
            k <= tokens@.len(),
            ts == strs(tokens@),
            strictly_sorted(views(found@)),
            forall|e: Seq<char>| #[trigger] views(found@).contains(e) <==> exists|m: int|
                0 <= m < k && spec_ecosystem(#[trigger] ts[m]) == Some(e),
        decreases tokens.len() - k,
    {
        assert(ts[k as int] == tokens@[k as int]@);
        let ghost before = views(found@);
        match ecosystem(tokens[k].as_str()) {
            Some(e) => {
                let ev = chars_of(e);
                insert_sorted(&mut found, ev);
            },
            None => {},
        }
        proof {
            assert forall|e: Seq<char>| #[trigger] views(found@).contains(e) <==> exists|m: int|
                0 <= m < k + 1 && spec_ecosystem(#[trigger] ts[m]) == Some(e) by {
                if exists|m: int| 0 <= m < k + 1 && spec_ecosystem(#[trigger] ts[m]) == Some(e) {
                    let m = choose|m: int| 0 <= m < k + 1 && spec_ecosystem(#[trigger] ts[m]) == Some(e);
                    if m < k {
                        assert(before.contains(e));
                    }
                }
                if views(found@).contains(e) && !before.contains(e) {
                    assert(spec_ecosystem(ts[k as int]) == Some(e));
                }
            }
        }
        k += 1;
    }
    let mut out: Vec<String> = Vec::new();
    let mut j: usize = 0;
    while j < found.len()
        invariant
            j <= found@.len(),
            strs(out@) == views(found@).take(j as int),
        decreases found.len() - j,
    {
        let ghost before = strs(out@);
        let s = string_of(&found[j]);
        out.push(s);
        proof {
            assert(strs(out@) =~= before.push(found@[j as int]@));
            assert(views(found@).take(j + 1) =~= views(found@).take(j as int).push(views(found@)[j as int]));
        }
        j += 1;
    }
    assert(views(found@).take(found@.len() as int) =~= views(found@));
    out
}

/// A trigger reaches only its own stage's checks: no id is named as a
/// trigger by both `pre-commit` and `pre-push`.
pub proof fn one_trigger_per_check(check: Seq<char>)
    ensures
        !(spec_names_check(check, "pre-commit"@) == Some(Match::Trigger)
            && spec_names_check(check, "pre-push"@) == Some(Match::Trigger)),
{
    reveal_strlit("pre-commit");
    reveal_strlit("pre-push");
    assert("pre-commit"@ != "pre-push"@) by {
        assert("pre-commit"@.len() != "pre-push"@.len());
    }
}

/// A check named `<stage>-<name>` is named by its stage as a trigger.
pub proof fn a_stage_names_its_checks(name: Seq<char>)
    ensures
        spec_names_check("pre-commit-"@ + name, "pre-commit"@) == Some(Match::Trigger),
        spec_names_check("pre-push-"@ + name, "pre-push"@) == Some(Match::Trigger),
{
    reveal_strlit("pre-commit");
    reveal_strlit("pre-push");
    reveal_strlit("pre-commit-");
    reveal_strlit("pre-push-");
    let c = "pre-commit-"@ + name;
    let p = "pre-push-"@ + name;
    assert(c.subrange(0, 11) =~= "pre-commit-"@);
    assert(p.subrange(0, 9) =~= "pre-push-"@);
    assert(c.skip(11) =~= name);
    assert(p.skip(9) =~= name);
    assert(!starts_with(p, "pre-commit-"@)) by {
        if starts_with(p, "pre-commit-"@) {
            assert(p.subrange(0, 11)[4] == "pre-commit-"@[4]);
            assert(p[4] == 'p');
        }
    }
    assert(c != "pre-commit"@) by {
        assert(c.len() != "pre-commit"@.len());
    }
    assert(p != "pre-push"@) by {
        assert(p.len() != "pre-push"@.len());
    }
}

} // verus!
